use display::color::{convert_to_color, Color};
use display::display::{create_display, perform_tasks, process_commands};
use display::error::DisplayError;
use display::matrix::Matrix;
use display::task::{generate_tasks_queue, Point, Task};

#[test]
fn test_happy_case() {
    let mut display = create_display(4, 4, 1).unwrap();
    process_commands(&mut display, vec![1, 2, 2, 2, 3]).unwrap();

    let mut expected = Matrix::new(4, 4, 1).unwrap();
    expected.set_colour(2, 2, 3).unwrap();
    assert_eq!(*display.matrix(), expected);
}

#[test]
#[should_panic]
fn test_error() {
    let mut display = create_display(4, 4, 1).unwrap();
    process_commands(&mut display, vec![1, 5, 5, 2, 3]).unwrap();
}

#[test]
#[should_panic]
fn test_error_invalid_colour() {
    let mut display = create_display(4, 4, 1).unwrap();
    process_commands(&mut display, vec![1, 2, 2, 2, 5]).unwrap();
}

#[test]
fn happy_case_leaves_every_other_cell_red() {
    let mut display = create_display(4, 4, 1).unwrap();
    assert_eq!(process_commands(&mut display, vec![1, 2, 2, 2, 3]), Ok(()));
    for y in 0..4u64 {
        for x in 0..4u64 {
            let expected = if (x, y) == (2, 2) { 3 } else { 1 };
            assert_eq!(display.matrix().colour_at(x, y), Some(expected));
        }
    }
    assert_eq!(display.cursor(), Point { pos_x: 2, pos_y: 2 });
}

#[test]
fn out_of_bounds_move_is_reported_and_changes_nothing() {
    let mut display = create_display(4, 4, 1).unwrap();
    assert_eq!(
        process_commands(&mut display, vec![1, 5, 5, 2, 3]),
        Err(DisplayError::CursorOutOfBounds)
    );
    assert_eq!(*display.matrix(), Matrix::new(4, 4, 1).unwrap());
    assert_eq!(display.cursor(), Point { pos_x: 0, pos_y: 0 });
}

#[test]
fn move_to_the_edge_is_out_of_bounds() {
    let mut display = create_display(4, 3, 1).unwrap();
    assert_eq!(display.apply(Task::MoveCursorTo(Point { pos_x: 3, pos_y: 2 })), Ok(()));
    assert_eq!(
        display.apply(Task::MoveCursorTo(Point { pos_x: 4, pos_y: 0 })),
        Err(DisplayError::CursorOutOfBounds)
    );
    assert_eq!(
        display.apply(Task::MoveCursorTo(Point { pos_x: 0, pos_y: 3 })),
        Err(DisplayError::CursorOutOfBounds)
    );
    assert_eq!(
        display.apply(Task::MoveCursorTo(Point { pos_x: u64::MAX, pos_y: 0 })),
        Err(DisplayError::CursorOutOfBounds)
    );
    assert_eq!(
        display.apply(Task::MoveCursorTo(Point { pos_x: 1 << 32, pos_y: 1 << 32 })),
        Err(DisplayError::CursorOutOfBounds)
    );
    assert_eq!(display.cursor(), Point { pos_x: 3, pos_y: 2 });
}

#[test]
fn tasks_before_a_failure_stay_applied() {
    let mut display = create_display(4, 4, 1).unwrap();
    let tasks = vec![
        Task::MoveCursorTo(Point { pos_x: 1, pos_y: 1 }),
        Task::SetColor(2),
        Task::MoveCursorTo(Point { pos_x: 5, pos_y: 5 }),
        Task::SetColor(3),
    ];
    assert_eq!(perform_tasks(&mut display, tasks), Err(DisplayError::CursorOutOfBounds));

    let mut expected = Matrix::new(4, 4, 1).unwrap();
    expected.set_colour(1, 1, 2).unwrap();
    assert_eq!(*display.matrix(), expected);
    assert_eq!(display.cursor(), Point { pos_x: 1, pos_y: 1 });
}

#[test]
fn invalid_colour_in_the_stream_is_reported_before_any_change() {
    let mut display = create_display(4, 4, 1).unwrap();
    assert_eq!(
        process_commands(&mut display, vec![1, 2, 2, 2, 5]),
        Err(DisplayError::InvalidColor)
    );
    assert_eq!(*display.matrix(), Matrix::new(4, 4, 1).unwrap());
    assert_eq!(display.cursor(), Point { pos_x: 0, pos_y: 0 });

    assert_eq!(
        process_commands(&mut display, vec![2, 3, 2, 0]),
        Err(DisplayError::InvalidColor)
    );
    assert_eq!(*display.matrix(), Matrix::new(4, 4, 1).unwrap());
}

#[test]
fn invalid_colour_in_a_task_is_reported_by_the_interpreter() {
    let mut display = create_display(2, 2, 1).unwrap();
    let tasks = vec![Task::SetColor(3), Task::SetColor(4), Task::SetColor(2)];
    assert_eq!(perform_tasks(&mut display, tasks), Err(DisplayError::InvalidColor));
    assert_eq!(display.matrix().colour_at(0, 0), Some(3));
    assert_eq!(display.apply(Task::SetColor(0)), Err(DisplayError::InvalidColor));
    assert_eq!(display.apply(Task::SetColor(259)), Err(DisplayError::InvalidColor));
    assert_eq!(display.matrix().colour_at(0, 0), Some(3));
}

#[test]
fn repeated_set_color_is_idempotent() {
    for code in 1..=3u64 {
        let mut once = create_display(4, 4, 1).unwrap();
        process_commands(&mut once, vec![1, 3, 1, 2, code]).unwrap();
        let mut twice = create_display(4, 4, 1).unwrap();
        process_commands(&mut twice, vec![1, 3, 1, 2, code, 2, code]).unwrap();
        assert_eq!(*once.matrix(), *twice.matrix());
        assert_eq!(once.cursor(), twice.cursor());
        assert_eq!(twice.matrix().colour_at(3, 1), Some(code as u8));
    }
}

#[test]
fn commands_take_effect_in_order() {
    let mut display = create_display(4, 4, 1).unwrap();
    let tasks = vec![
        Task::MoveCursorTo(Point { pos_x: 1, pos_y: 1 }),
        Task::SetColor(2),
        Task::MoveCursorTo(Point { pos_x: 2, pos_y: 2 }),
        Task::SetColor(3),
    ];
    assert_eq!(perform_tasks(&mut display, tasks), Ok(()));
    for y in 0..4u64 {
        for x in 0..4u64 {
            let expected = match (x, y) {
                (1, 1) => 2,
                (2, 2) => 3,
                _ => 1,
            };
            assert_eq!(display.matrix().colour_at(x, y), Some(expected));
        }
    }
}

#[test]
fn later_set_color_wins_on_the_same_cell() {
    let mut display = create_display(3, 3, 1).unwrap();
    process_commands(&mut display, vec![2, 2, 2, 3]).unwrap();
    assert_eq!(display.matrix().colour_at(0, 0), Some(3));
    process_commands(&mut display, vec![2, 3, 2, 2]).unwrap();
    assert_eq!(display.matrix().colour_at(0, 0), Some(2));
}

#[test]
fn split_run_equals_whole_run() {
    let mut whole = create_display(5, 4, 2).unwrap();
    process_commands(&mut whole, vec![1, 4, 3, 2, 1, 1, 0, 1, 2, 3]).unwrap();
    let mut parts = create_display(5, 4, 2).unwrap();
    process_commands(&mut parts, vec![1, 4, 3, 2, 1]).unwrap();
    process_commands(&mut parts, vec![1, 0, 1, 2, 3]).unwrap();
    assert_eq!(*whole.matrix(), *parts.matrix());
    assert_eq!(whole.cursor(), parts.cursor());
}

#[test]
fn fresh_display_is_filled_with_the_default_colour() {
    for colour in 1..=3u8 {
        let display = create_display(5, 3, colour).unwrap();
        assert_eq!(display.width(), 5);
        assert_eq!(display.height(), 3);
        assert_eq!(display.cursor(), Point { pos_x: 0, pos_y: 0 });
        for y in 0..3u64 {
            for x in 0..5u64 {
                assert_eq!(display.matrix().colour_at(x, y), Some(colour));
            }
        }
    }
}

#[test]
fn illegal_default_colour_is_rejected() {
    assert_eq!(create_display(4, 4, 0).err(), Some(DisplayError::InvalidColor));
    assert_eq!(create_display(4, 4, 4).err(), Some(DisplayError::InvalidColor));
    assert_eq!(create_display(0, 0, 255).err(), Some(DisplayError::InvalidColor));
}

#[test]
fn display_without_cells_rejects_every_write() {
    let mut display = create_display(0, 3, 1).unwrap();
    assert_eq!(display.cursor(), Point { pos_x: 0, pos_y: 0 });
    assert_eq!(display.apply(Task::SetColor(2)), Err(DisplayError::CursorOutOfBounds));
    assert_eq!(
        display.apply(Task::MoveCursorTo(Point { pos_x: 0, pos_y: 0 })),
        Err(DisplayError::CursorOutOfBounds)
    );
    assert_eq!(process_commands(&mut display, vec![]), Ok(()));
}

#[test]
fn empty_stream_changes_nothing() {
    let mut display = create_display(2, 2, 3).unwrap();
    assert_eq!(process_commands(&mut display, Vec::new()), Ok(()));
    assert_eq!(*display.matrix(), Matrix::new(2, 2, 3).unwrap());
}

#[test]
fn parser_keeps_the_order_of_the_stream() {
    let queue = generate_tasks_queue(vec![1, 1, 1, 2, 2, 1, 2, 2, 2, 3]).unwrap();
    assert_eq!(
        queue,
        vec![
            Task::MoveCursorTo(Point { pos_x: 1, pos_y: 1 }),
            Task::SetColor(2),
            Task::MoveCursorTo(Point { pos_x: 2, pos_y: 2 }),
            Task::SetColor(3),
        ]
    );
    assert_eq!(generate_tasks_queue(vec![]), Ok(vec![]));
}

#[test]
fn parser_does_not_bound_check_move_targets() {
    assert_eq!(
        generate_tasks_queue(vec![1, u64::MAX, 0]),
        Ok(vec![Task::MoveCursorTo(Point { pos_x: u64::MAX, pos_y: 0 })])
    );
}

#[test]
fn parser_reports_unknown_opcodes() {
    assert_eq!(generate_tasks_queue(vec![0]), Err(DisplayError::InvalidCommand));
    assert_eq!(generate_tasks_queue(vec![3, 1, 1]), Err(DisplayError::InvalidCommand));
    assert_eq!(generate_tasks_queue(vec![2, 1, 7, 2, 9]), Err(DisplayError::InvalidCommand));
}

#[test]
fn parser_reports_truncated_input() {
    assert_eq!(generate_tasks_queue(vec![1]), Err(DisplayError::TruncatedInput));
    assert_eq!(generate_tasks_queue(vec![1, 2]), Err(DisplayError::TruncatedInput));
    assert_eq!(generate_tasks_queue(vec![2]), Err(DisplayError::TruncatedInput));
    assert_eq!(generate_tasks_queue(vec![2, 3, 1, 0]), Err(DisplayError::TruncatedInput));
}

#[test]
fn parser_reports_illegal_colours() {
    assert_eq!(generate_tasks_queue(vec![2, 0]), Err(DisplayError::InvalidColor));
    assert_eq!(generate_tasks_queue(vec![2, 4]), Err(DisplayError::InvalidColor));
    assert_eq!(generate_tasks_queue(vec![2, u64::MAX]), Err(DisplayError::InvalidColor));
}

#[test]
fn parser_reports_the_first_error_of_the_stream() {
    assert_eq!(generate_tasks_queue(vec![2, 5, 9]), Err(DisplayError::InvalidColor));
    assert_eq!(generate_tasks_queue(vec![9, 2, 5]), Err(DisplayError::InvalidCommand));
    assert_eq!(generate_tasks_queue(vec![2, 1, 2, 7, 1]), Err(DisplayError::InvalidColor));
    assert_eq!(generate_tasks_queue(vec![1, 0, 0, 2]), Err(DisplayError::TruncatedInput));
}

#[test]
fn colours_have_the_codes_one_to_three() {
    assert_eq!(convert_to_color(1), Ok(Color::Red));
    assert_eq!(convert_to_color(2), Ok(Color::Green));
    assert_eq!(convert_to_color(3), Ok(Color::Cyan));
    assert_eq!(convert_to_color(0), Err(DisplayError::InvalidColor));
    assert_eq!(convert_to_color(4), Err(DisplayError::InvalidColor));
    assert_eq!(convert_to_color(u64::MAX), Err(DisplayError::InvalidColor));
    assert_eq!(Color::Red.code(), 1);
    assert_eq!(Color::Green.code(), 2);
    assert_eq!(Color::Cyan.code(), 3);
    for code in 1..=3u64 {
        assert_eq!(convert_to_color(code).unwrap().code() as u64, code);
    }
}
