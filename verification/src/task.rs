use vstd::prelude::*;
use crate::color::{convert_to_color, is_legal_code};
use crate::error::DisplayError;

verus! {

/// A position given by a column and a row.
#[derive(Debug, PartialEq, Eq, Structural)]
pub struct Point<T> {
    pub pos_x: T,
    pub pos_y: T,
}

impl<T: Copy> Clone for Point<T> {
    fn clone(&self) -> (copy: Self)
        ensures
            copy == *self,
    {
        *self
    }
}

impl<T: Copy> Copy for Point<T> {

}

/// One instruction for the display.
///
/// A task carries its operands as they stood in the command stream: the
/// target of a move is not yet held to the bounds of any grid.
#[derive(Clone, Copy, Debug, PartialEq, Eq, Structural)]
pub enum Task {
    /// Move the cursor to the given position.
    MoveCursorTo(Point<u64>),
    /// Give the cell under the cursor the colour with the given code.
    SetColor(u64),
}

/// The opcode that introduces a move: two operands follow, column then row.
pub const OP_MOVE_CURSOR: u64 = 1;

/// The opcode that introduces a set-colour: one operand follows, the code.
pub const OP_SET_COLOR: u64 = 2;

/// Puts the tasks `done` in front of the outcome of parsing what follows them.
pub open spec fn after(done: Seq<Task>, rest: Result<Seq<Task>, DisplayError>) -> Result<
    Seq<Task>,
    DisplayError,
> {
    match rest {
        Ok(tasks) => Ok(done + tasks),
        Err(e) => Err(e),
    }
}

/// The meaning of a command stream.
///
/// The stream is read from the left, one command at a time. Opcode 1 takes
/// two operands and gives a move; opcode 2 takes one operand, which must be a
/// legal colour code, and gives a set-colour. The first command that cannot
/// be read decides the error: `InvalidCommand` for any other opcode,
/// `TruncatedInput` where the stream ends before the operands do, and
/// `InvalidColor` for an illegal colour code.
pub open spec fn parse_tasks(input: Seq<u64>) -> Result<Seq<Task>, DisplayError>
    decreases input.len(),
{
    if input.len() == 0 {
        Ok(Seq::empty())
    } else if input[0] == OP_MOVE_CURSOR {
        if input.len() < 3 {
            Err(DisplayError::TruncatedInput)
        } else {
            after(
                seq![Task::MoveCursorTo(Point { pos_x: input[1], pos_y: input[2] })],
                parse_tasks(input.skip(3)),
            )
        }
    } else if input[0] == OP_SET_COLOR {
        if input.len() < 2 {
            Err(DisplayError::TruncatedInput)
        } else if !is_legal_code(input[1] as int) {
            Err(DisplayError::InvalidColor)
        } else {
            after(seq![Task::SetColor(input[1])], parse_tasks(input.skip(2)))
        }
    } else {
        Err(DisplayError::InvalidCommand)
    }
}

/// The integers that stand for one task in a command stream.
pub open spec fn encode_task(task: Task) -> Seq<u64> {
    match task {
        Task::MoveCursorTo(p) => seq![OP_MOVE_CURSOR, p.pos_x, p.pos_y],
        Task::SetColor(code) => seq![OP_SET_COLOR, code],
    }
}

/// The command stream that stands for a queue of tasks.
pub open spec fn encode_tasks(tasks: Seq<Task>) -> Seq<u64>
    decreases tasks.len(),
{
    if tasks.len() == 0 {
        Seq::empty()
    } else {
        encode_task(tasks[0]) + encode_tasks(tasks.skip(1))
    }
}

/// Whether a task can come out of the parser: every move can, and a
/// set-colour only with a legal colour code.
pub open spec fn task_is_valid(task: Task) -> bool {
    match task {
        Task::MoveCursorTo(_) => true,
        Task::SetColor(code) => is_legal_code(code as int),
    }
}

/// Whether every task of the queue can come out of the parser.
pub open spec fn tasks_are_valid(tasks: Seq<Task>) -> bool {
    forall|i: int| 0 <= i < tasks.len() ==> task_is_valid(#[trigger] tasks[i])
}

/// Parses a command stream into the queue of tasks it describes, in the
/// order of the stream.
pub fn generate_tasks_queue(input: Vec<u64>) -> (queue: Result<Vec<Task>, DisplayError>)
    ensures
        match parse_tasks(input@) {
            Ok(tasks) => queue is Ok && queue->Ok_0@ == tasks,
            Err(e) => queue == Err::<Vec<Task>, DisplayError>(e),
        },
{
    let mut tasks: Vec<Task> = Vec::new();
    let mut i: usize = 0;
    proof {
        assert(input@.skip(0) =~= input@);
        assert(Seq::<Task>::empty() + parse_tasks(input@)->Ok_0 =~= parse_tasks(input@)->Ok_0);
    }
    while i < input.len()
        invariant
            i <= input@.len(),
            parse_tasks(input@) == after(tasks@, parse_tasks(input@.skip(i as int))),
        decreases input@.len() - i,
    {
        let ghost rest = input@.skip(i as int);
        let ghost done = tasks@;
        let action = input[i];
        assert(rest[0] == action);
        if action == OP_MOVE_CURSOR {
            if input.len() - i < 3 {
                return Err(DisplayError::TruncatedInput);
            }
            let task = Task::MoveCursorTo(Point { pos_x: input[i + 1], pos_y: input[i + 2] });
            tasks.push(task);
            proof {
                assert(rest[1] == input@[i + 1] && rest[2] == input@[i + 2]);
                assert(rest.skip(3) =~= input@.skip(i + 3));
                lemma_after_push(done, task, parse_tasks(input@.skip(i + 3)));
            }
            i = i + 3;
        } else if action == OP_SET_COLOR {
            if input.len() - i < 2 {
                return Err(DisplayError::TruncatedInput);
            }
            let code = input[i + 1];
            assert(rest[1] == code);
            match convert_to_color(code) {
                Ok(_) => {},
                Err(e) => {
                    return Err(e);
                },
            }
            let task = Task::SetColor(code);
            tasks.push(task);
            proof {
                assert(rest.skip(2) =~= input@.skip(i + 2));
                lemma_after_push(done, task, parse_tasks(input@.skip(i + 2)));
            }
            i = i + 2;
        } else {
            return Err(DisplayError::InvalidCommand);
        }
    }
    proof {
        assert(tasks@ + Seq::<Task>::empty() =~= tasks@);
    }
    Ok(tasks)
}

/// Reading one more task and then the rest is reading the rest after the
/// longer queue.
proof fn lemma_after_push(done: Seq<Task>, task: Task, rest: Result<Seq<Task>, DisplayError>)
    ensures
        after(done, after(seq![task], rest)) == after(done.push(task), rest),
{
    if let Ok(tasks) = rest {
        assert(done + (seq![task] + tasks) =~= done.push(task) + tasks);
    }
}

/// Whatever parses holds only valid tasks: the parser lets no illegal colour
/// code through.
pub proof fn lemma_parsed_tasks_are_valid(input: Seq<u64>)
    requires
        parse_tasks(input) is Ok,
    ensures
        tasks_are_valid(parse_tasks(input)->Ok_0),
    decreases input.len(),
{
    if input.len() > 0 {
        let step: int = if input[0] == OP_MOVE_CURSOR {
            3
        } else {
            2
        };
        let rest = input.skip(step);
        lemma_parsed_tasks_are_valid(rest);
        let tasks = parse_tasks(input)->Ok_0;
        let tail = parse_tasks(rest)->Ok_0;
        assert forall|i: int| 0 <= i < tasks.len() implies task_is_valid(#[trigger] tasks[i]) by {
            if i > 0 {
                assert(tasks[i] == tail[i - 1]);
            }
        }
    }
}

/// Parsing undoes encoding: the stream that stands for a queue of valid
/// tasks parses to that queue, task for task and in the same order.
pub proof fn lemma_parse_encoded(tasks: Seq<Task>)
    requires
        tasks_are_valid(tasks),
    ensures
        parse_tasks(encode_tasks(tasks)) == Ok::<Seq<Task>, DisplayError>(tasks),
    decreases tasks.len(),
{
    if tasks.len() == 0 {
        assert(parse_tasks(encode_tasks(tasks))->Ok_0 =~= tasks);
    } else {
        let head = encode_task(tasks[0]);
        let rest = tasks.skip(1);
        let stream = encode_tasks(tasks);
        assert(task_is_valid(tasks[0]));
        assert forall|i: int| 0 <= i < rest.len() implies task_is_valid(#[trigger] rest[i]) by {
            assert(rest[i] == tasks[i + 1]);
        }
        lemma_parse_encoded(rest);
        assert(stream.skip(head.len() as int) =~= encode_tasks(rest));
        assert(stream[0] == head[0]);
        assert(stream[1] == head[1]);
        match tasks[0] {
            Task::MoveCursorTo(p) => {
                assert(stream[2] == head[2]);
            },
            Task::SetColor(code) => {},
        }
        assert(seq![tasks[0]] + rest =~= tasks);
    }
}

/// Encoding undoes parsing: a stream that parses is the stream that stands
/// for the queue it parses to.
pub proof fn lemma_encode_parsed(input: Seq<u64>)
    requires
        parse_tasks(input) is Ok,
    ensures
        encode_tasks(parse_tasks(input)->Ok_0) == input,
    decreases input.len(),
{
    let tasks = parse_tasks(input)->Ok_0;
    if input.len() == 0 {
        assert(encode_tasks(tasks) =~= input);
    } else {
        let step: int = if input[0] == OP_MOVE_CURSOR {
            3
        } else {
            2
        };
        let rest = input.skip(step);
        lemma_encode_parsed(rest);
        let tail = parse_tasks(rest)->Ok_0;
        assert(tasks[0] == (seq![tasks[0]] + tail)[0]);
        assert(tasks.skip(1) =~= tail);
        assert(encode_task(tasks[0]) =~= input.take(step));
        assert(input.take(step) + input.skip(step) =~= input);
    }
}

} // verus!
