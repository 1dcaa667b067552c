use vstd::prelude::*;
use crate::color::{convert_to_color, is_legal_code};
use crate::error::DisplayError;
use crate::matrix::{GridModel, Matrix};
use crate::task::{
    generate_tasks_queue, parse_tasks, task_is_valid, tasks_are_valid, Point, Task,
};

verus! {

/// The mathematical model of a display: its grid and the position of its
/// cursor.
pub struct DisplayModel {
    pub grid: GridModel,
    pub cursor_x: nat,
    pub cursor_y: nat,
}

/// Where a run over a queue of tasks ends: the display as the run leaves it,
/// and whether the run went through or which error stopped it.
pub struct RunOutcome {
    pub display: DisplayModel,
    pub result: Result<(), DisplayError>,
}

impl DisplayModel {
    /// A display is well formed when its grid is and its cursor is on the
    /// grid. The one exception is a grid without cells, on which the cursor
    /// rests at the origin.
    pub open spec fn wf(self) -> bool {
        &&& self.grid.wf()
        &&& self.grid.contains(self.cursor_x as int, self.cursor_y as int) || (self.cursor_x == 0
            && self.cursor_y == 0)
    }

    /// The display as it is created: every cell holds `colour` and the
    /// cursor is at the origin.
    pub open spec fn fresh(width: nat, height: nat, colour: u8) -> DisplayModel {
        DisplayModel { grid: GridModel::filled(width, height, colour), cursor_x: 0, cursor_y: 0 }
    }

    /// The effect of one task.
    ///
    /// A move to a position on the grid sets the cursor and changes nothing
    /// else; a move to any other position fails with `CursorOutOfBounds`. A
    /// set-colour with an illegal code fails with `InvalidColor`; with a
    /// legal code it writes the code into the cell under the cursor, and
    /// fails with `CursorOutOfBounds` where there is no such cell.
    pub open spec fn step(self, task: Task) -> Result<DisplayModel, DisplayError> {
        match task {
            Task::MoveCursorTo(target) => {
                if self.grid.contains(target.pos_x as int, target.pos_y as int) {
                    Ok(
                        DisplayModel {
                            grid: self.grid,
                            cursor_x: target.pos_x as nat,
                            cursor_y: target.pos_y as nat,
                        },
                    )
                } else {
                    Err(DisplayError::CursorOutOfBounds)
                }
            },
            Task::SetColor(code) => {
                if !is_legal_code(code as int) {
                    Err(DisplayError::InvalidColor)
                } else if !self.grid.contains(self.cursor_x as int, self.cursor_y as int) {
                    Err(DisplayError::CursorOutOfBounds)
                } else {
                    Ok(
                        DisplayModel {
                            grid: self.grid.set(
                                self.cursor_x as int,
                                self.cursor_y as int,
                                code as u8,
                            ),
                            cursor_x: self.cursor_x,
                            cursor_y: self.cursor_y,
                        },
                    )
                }
            },
        }
    }

    /// The effect of a queue of tasks, applied in order. The first task that
    /// fails ends the run: the display stays as the tasks before it left it,
    /// and no later task is looked at.
    pub open spec fn run(self, tasks: Seq<Task>) -> RunOutcome
        decreases tasks.len(),
    {
        if tasks.len() == 0 {
            RunOutcome { display: self, result: Ok(()) }
        } else {
            match self.step(tasks[0]) {
                Ok(next) => next.run(tasks.skip(1)),
                Err(e) => RunOutcome { display: self, result: Err(e) },
            }
        }
    }
}

impl DisplayModel {
    /// How many tasks of the queue a run applies: all of them, or those
    /// before the first that fails.
    pub open spec fn applied(self, tasks: Seq<Task>) -> nat
        decreases tasks.len(),
    {
        if tasks.len() == 0 {
            0
        } else {
            match self.step(tasks[0]) {
                Ok(next) => 1 + next.applied(tasks.skip(1)),
                Err(_) => 0,
            }
        }
    }

    /// A task that succeeds on a well-formed display leaves a well-formed
    /// display with a grid of the same dimensions.
    pub proof fn lemma_step_preserves_wf(self, task: Task)
        requires
            self.wf(),
            self.step(task) is Ok,
        ensures
            self.step(task)->Ok_0.wf(),
            self.step(task)->Ok_0.grid.width == self.grid.width,
            self.step(task)->Ok_0.grid.height == self.grid.height,
    {
        if let Task::SetColor(code) = task {
            self.grid.lemma_set(self.cursor_x as int, self.cursor_y as int, code as u8);
        }
    }

    /// Whatever the queue and however the run ends, a well-formed display
    /// stays well formed: the grid keeps its dimensions, every cell keeps a
    /// legal colour code, and the cursor stays on the grid.
    pub proof fn lemma_run_preserves_wf(self, tasks: Seq<Task>)
        requires
            self.wf(),
        ensures
            self.run(tasks).display.wf(),
            self.run(tasks).display.grid.width == self.grid.width,
            self.run(tasks).display.grid.height == self.grid.height,
        decreases tasks.len(),
    {
        if tasks.len() > 0 {
            if let Ok(next) = self.step(tasks[0]) {
                self.lemma_step_preserves_wf(tasks[0]);
                next.lemma_run_preserves_wf(tasks.skip(1));
            }
        }
    }

    /// A run over one queue followed by another is the run over the first
    /// and then, if that went through, the run over the second from where
    /// the first ended: tasks take effect in the order of the queue.
    pub proof fn lemma_run_concat(self, first: Seq<Task>, second: Seq<Task>)
        ensures
            self.run(first + second) == if self.run(first).result is Ok {
                self.run(first).display.run(second)
            } else {
                self.run(first)
            },
        decreases first.len(),
    {
        if first.len() == 0 {
            assert(first + second =~= second);
        } else {
            assert((first + second)[0] == first[0]);
            assert((first + second).skip(1) =~= first.skip(1) + second);
            if let Ok(next) = self.step(first[0]) {
                next.lemma_run_concat(first.skip(1), second);
            }
        }
    }

    /// A run stops at the first task that fails, and the failing task leaves
    /// no trace: the display is what the tasks before it made of it, and the
    /// error is the one that the failing task gives on that display. A run
    /// that meets no failing task applies the whole queue.
    pub proof fn lemma_run_stops_at_first_failure(self, tasks: Seq<Task>)
        ensures
            self.applied(tasks) <= tasks.len(),
            self.run(tasks.take(self.applied(tasks) as int)) == (RunOutcome {
                display: self.run(tasks).display,
                result: Ok(()),
            }),
            self.applied(tasks) == tasks.len() <==> self.run(tasks).result is Ok,
            self.applied(tasks) < tasks.len() ==> self.run(tasks).display.step(
                tasks[self.applied(tasks) as int],
            ) is Err && self.run(tasks).result == Err::<(), DisplayError>(
                self.run(tasks).display.step(tasks[self.applied(tasks) as int])->Err_0,
            ),
        decreases tasks.len(),
    {
        let count = self.applied(tasks) as int;
        if tasks.len() == 0 {
            assert(tasks.take(count) =~= tasks);
        } else {
            match self.step(tasks[0]) {
                Ok(next) => {
                    let rest = tasks.skip(1);
                    next.lemma_run_stops_at_first_failure(rest);
                    let prefix = tasks.take(count);
                    assert(prefix[0] == tasks[0]);
                    assert(prefix.skip(1) =~= rest.take(count - 1));
                    if count < tasks.len() {
                        assert(rest[count - 1] == tasks[count]);
                    }
                },
                Err(_) => {
                    assert(tasks.take(count).len() == 0);
                },
            }
        }
    }

    /// Setting the colour under the cursor twice in a row gives the display
    /// that setting it once gives, and ends the same way.
    pub proof fn lemma_set_color_idempotent(self, code: u64)
        requires
            self.wf(),
        ensures
            self.run(seq![Task::SetColor(code), Task::SetColor(code)]) == self.run(
                seq![Task::SetColor(code)],
            ),
    {
        let task = Task::SetColor(code);
        let once = seq![task];
        let twice = seq![task, task];
        assert(once.skip(1) =~= Seq::<Task>::empty());
        assert(twice.skip(1) =~= once);
        if let Ok(next) = self.step(task) {
            self.grid.lemma_set_idempotent(self.cursor_x as int, self.cursor_y as int, code as u8);
            self.grid.lemma_set(self.cursor_x as int, self.cursor_y as int, code as u8);
            assert(next.step(task) == Ok::<DisplayModel, DisplayError>(next));
            assert(self.run(once) == next.run(Seq::<Task>::empty()));
            assert(self.run(twice) == next.run(once));
            assert(next.run(once) == next.run(Seq::<Task>::empty()));
        }
    }

    /// A queue in which every set-colour has a legal code never fails with
    /// `InvalidColor`.
    pub proof fn lemma_valid_tasks_never_invalid_color(self, tasks: Seq<Task>)
        requires
            tasks_are_valid(tasks),
        ensures
            self.run(tasks).result != Err::<(), DisplayError>(DisplayError::InvalidColor),
        decreases tasks.len(),
    {
        if tasks.len() > 0 {
            assert(task_is_valid(tasks[0]));
            if let Ok(next) = self.step(tasks[0]) {
                assert forall|i: int| 0 <= i < tasks.skip(1).len() implies task_is_valid(
                    #[trigger] tasks.skip(1)[i],
                ) by {
                    assert(tasks.skip(1)[i] == tasks[i + 1]);
                }
                next.lemma_valid_tasks_never_invalid_color(tasks.skip(1));
            }
        }
    }
}

/// A grid of coloured cells with a cursor that marks the cell to colour next.
#[derive(Debug)]
pub struct Display {
    matrix: Matrix,
    cursor: Point<u32>,
}

impl View for Display {
    type V = DisplayModel;

    closed spec fn view(&self) -> DisplayModel {
        DisplayModel {
            grid: self.matrix@,
            cursor_x: self.cursor.pos_x as nat,
            cursor_y: self.cursor.pos_y as nat,
        }
    }
}

impl Display {
    #[verifier::type_invariant]
    spec fn inv(self) -> bool {
        self@.wf()
    }

    /// The grid of the display.
    pub fn matrix(&self) -> (matrix: &Matrix)
        ensures
            matrix@ == self@.grid,
            self@.wf(),
    {
        proof {
            use_type_invariant(self);
        }
        &self.matrix
    }

    /// The position of the cursor.
    pub fn cursor(&self) -> (cursor: Point<u32>)
        ensures
            cursor.pos_x == self@.cursor_x,
            cursor.pos_y == self@.cursor_y,
            self@.wf(),
    {
        proof {
            use_type_invariant(self);
        }
        self.cursor
    }

    /// The number of columns of the grid.
    pub fn width(&self) -> (width: u32)
        ensures
            width == self@.grid.width,
    {
        self.matrix.width()
    }

    /// The number of rows of the grid.
    pub fn height(&self) -> (height: u32)
        ensures
            height == self@.grid.height,
    {
        self.matrix.height()
    }

    /// Applies one task. A task that fails leaves the display as it was.
    pub fn apply(&mut self, task: Task) -> (outcome: Result<(), DisplayError>)
        ensures
            final(self)@.wf(),
            match old(self)@.step(task) {
                Ok(next) => outcome is Ok && final(self)@ == next,
                Err(e) => outcome == Err::<(), DisplayError>(e) && final(self)@ == old(self)@,
            },
    {
        proof {
            use_type_invariant(&*self);
        }
        match task {
            Task::MoveCursorTo(target) => {
                let width = self.matrix.width();
                let height = self.matrix.height();
                if target.pos_x < width as u64 && target.pos_y < height as u64 {
                    self.cursor = Point { pos_x: target.pos_x as u32, pos_y: target.pos_y as u32 };
                    Ok(())
                } else {
                    Err(DisplayError::CursorOutOfBounds)
                }
            },
            Task::SetColor(code) => {
                match convert_to_color(code) {
                    Ok(color) => self.matrix.set_colour(
                        self.cursor.pos_x as u64,
                        self.cursor.pos_y as u64,
                        color.code(),
                    ),
                    Err(e) => Err(e),
                }
            },
        }
    }
}

/// Creates a display of `max_width` by `max_height` cells, each holding
/// `default_colour`, with the cursor at the origin. Fails when
/// `default_colour` is not a legal colour code.
pub fn create_display(max_width: u32, max_height: u32, default_colour: u8) -> (created: Result<
    Display,
    DisplayError,
>)
    ensures
        is_legal_code(default_colour as int) ==> created is Ok && created->Ok_0@
            == DisplayModel::fresh(max_width as nat, max_height as nat, default_colour),
        created is Ok ==> created->Ok_0@.wf() && forall|x: int, y: int|
            created->Ok_0@.grid.contains(x, y) ==> #[trigger] created->Ok_0@.grid.cell(x, y)
                == default_colour,
        !is_legal_code(default_colour as int) ==> created == Err::<Display, DisplayError>(
            DisplayError::InvalidColor,
        ),
{
    match Matrix::new(max_width, max_height, default_colour) {
        Ok(matrix) => {
            proof {
                GridModel::lemma_filled(max_width as nat, max_height as nat, default_colour);
            }
            Ok(Display { matrix, cursor: Point { pos_x: 0, pos_y: 0 } })
        },
        Err(e) => Err(e),
    }
}

/// Applies the tasks of a queue in order and stops at the first that fails.
///
/// After a failure the display shows the effect of the tasks before the
/// failing one, and of no other.
pub fn perform_tasks(display: &mut Display, tasks: Vec<Task>) -> (outcome: Result<
    (),
    DisplayError,
>)
    ensures
        final(display)@.wf(),
        final(display)@ == old(display)@.run(tasks@).display,
        outcome == old(display)@.run(tasks@).result,
{
    let mut i: usize = 0;
    proof {
        assert(tasks@.skip(0) =~= tasks@);
    }
    while i < tasks.len()
        invariant
            i <= tasks@.len(),
            old(display)@.run(tasks@) == display@.run(tasks@.skip(i as int)),
        decreases tasks@.len() - i,
    {
        let ghost rest = tasks@.skip(i as int);
        assert(rest[0] == tasks@[i as int]);
        assert(rest.skip(1) =~= tasks@.skip(i + 1));
        match display.apply(tasks[i]) {
            Ok(()) => {},
            Err(e) => {
                return Err(e);
            },
        }
        i = i + 1;
    }
    proof {
        use_type_invariant(&*display);
    }
    Ok(())
}

/// Parses a command stream and applies it to the display.
///
/// A stream that does not parse changes nothing. One that parses is applied
/// task by task up to the first failure.
pub fn process_commands(display: &mut Display, input: Vec<u64>) -> (outcome: Result<
    (),
    DisplayError,
>)
    ensures
        final(display)@.wf(),
        match parse_tasks(input@) {
            Ok(tasks) => final(display)@ == old(display)@.run(tasks).display && outcome == old(
                display,
            )@.run(tasks).result,
            Err(e) => final(display)@ == old(display)@ && outcome == Err::<(), DisplayError>(e),
        },
{
    match generate_tasks_queue(input) {
        Ok(tasks) => perform_tasks(display, tasks),
        Err(e) => {
            proof {
                use_type_invariant(&*display);
            }
            Err(e)
        },
    }
}

} // verus!
