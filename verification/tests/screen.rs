use fi_ui::components::loading_bar::draw_loading_bar;
use fi_ui::prelude::{Bounds, CharEntry, DrawCommand, Terminal, TerminalDims, Vec2};
use fi_ui::terminal::lib_c::LibCErr;

fn dims(cols: u16, rows: u16) -> TerminalDims {
    TerminalDims { rows, cols, pixels_x: 0, pixels_y: 0 }
}

#[test]
fn terminal_size_and_cursor() {
    let mut t = Terminal::new(dims(80, 24));
    assert_eq!(t.width(), 80);
    assert_eq!(t.height(), 24);
    assert_eq!(t.bounds(), Bounds::new(80, 24));
    assert!(t.cursor_is_within_term_bounds());
    t.move_relative(Vec2::new(79, 23));
    assert!(t.cursor_is_within_term_bounds());
    t.move_relative(Vec2::new(1, 0));
    assert!(!t.cursor_is_within_term_bounds());
    t.set_dimensions(dims(81, 24));
    assert!(t.cursor_is_within_term_bounds());
}

#[test]
fn cursor_stack_restores_positions() {
    let mut t = Terminal::new(dims(10, 10));
    t.move_relative(Vec2::new(2, 2));
    t.push_cursor_stack();
    t.move_relative(Vec2::new(5, 5));
    t.push_cursor_stack();
    t.move_relative(Vec2::new(-7, -7));
    t.pop_cursor_stack();
    t.set_entry(CharEntry::new('x'));
    t.pop_cursor_stack();
    t.set_entry(CharEntry::new('y'));
    t.pop_cursor_stack();
    t.set_entry(CharEntry::new('z'));
    let cmds = t.finish_frame();
    assert_eq!(
        cmds,
        vec![
            DrawCommand::Goto(Vec2::new(0, 0)),
            DrawCommand::Goto(Vec2::new(2, 2)),
            DrawCommand::Print(CharEntry::new('z')),
            DrawCommand::Goto(Vec2::new(7, 7)),
            DrawCommand::Print(CharEntry::new('x')),
        ]
    );
}

#[test]
fn frames_are_drawn_in_reading_order_and_stale_cells_blanked() {
    let mut t = Terminal::new(dims(10, 10));
    t.move_relative(Vec2::new(3, 1));
    t.set_entry(CharEntry::new('b'));
    t.move_relative(Vec2::new(-3, 0));
    t.set_entry(CharEntry::new('a'));
    t.move_relative(Vec2::new(1, 0));
    t.set_entry(CharEntry::new('q'));
    t.set_entry(CharEntry::new('c'));
    let first = t.finish_frame();
    assert_eq!(
        first,
        vec![
            DrawCommand::Goto(Vec2::new(0, 0)),
            DrawCommand::Goto(Vec2::new(0, 1)),
            DrawCommand::Print(CharEntry::new('a')),
            DrawCommand::Print(CharEntry::new('c')),
            DrawCommand::Goto(Vec2::new(3, 1)),
            DrawCommand::Print(CharEntry::new('b')),
        ]
    );
    // next frame keeps only (1,1); the other two cells are blanked
    t.sync();
    t.move_relative(Vec2::new(1, 1));
    t.set_entry(CharEntry::new('d'));
    let second = t.finish_frame();
    assert_eq!(
        second,
        vec![
            DrawCommand::Goto(Vec2::new(0, 0)),
            DrawCommand::Print(CharEntry::new('d')),
            DrawCommand::Goto(Vec2::new(0, 1)),
            DrawCommand::Print(CharEntry::new(' ')),
            DrawCommand::Goto(Vec2::new(3, 1)),
            DrawCommand::Print(CharEntry::new(' ')),
        ]
    );
}

#[test]
fn lib_c_status() {
    assert_eq!(LibCErr(0).into_result(), Ok(()));
    assert_eq!(LibCErr(-1).into_result(), Err(LibCErr(-1)));
    assert!(LibCErr(3).as_bool());
    assert!(!LibCErr(0).as_bool());
}

#[test]
fn loading_bar_draws_rows_and_centred_label() {
    let mut t = Terminal::new(dims(10, 3));
    t.move_relative(Vec2::new(1, 0));
    draw_loading_bar(&mut t, &Bounds::new(8, 3), 3, &vec!['a', 'b']);
    assert_eq!(t.cursor_position(), Vec2::new(1, 3));
    let cmds = t.finish_frame();
    let bar = CharEntry::new('█');
    assert_eq!(
        cmds,
        vec![
            DrawCommand::Goto(Vec2::new(0, 0)),
            // (1, 0) comes right after the origin, and (4, 1) right after
            // the bar, so neither needs a move
            DrawCommand::Print(bar),
            DrawCommand::Print(bar),
            DrawCommand::Print(bar),
            DrawCommand::Goto(Vec2::new(1, 1)),
            DrawCommand::Print(bar),
            DrawCommand::Print(bar),
            DrawCommand::Print(bar),
            DrawCommand::Print(CharEntry::new('a')),
            DrawCommand::Print(CharEntry::new('b')),
            DrawCommand::Goto(Vec2::new(1, 2)),
            DrawCommand::Print(bar),
            DrawCommand::Print(bar),
            DrawCommand::Print(bar),
        ]
    );
}
