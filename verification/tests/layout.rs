use fi_ui::components::split_window::SplitWindow as Split;
use fi_ui::components::text_editor::TextEditor;
use fi_ui::prelude::{
    Bounds, CharEntry, DrawCommand, Props, SplitDir, SplitWindow, Terminal, TerminalDims,
    TextEditMode, TextEditorBuilder,
};

fn dims(cols: u16, rows: u16) -> TerminalDims {
    TerminalDims { rows, cols, pixels_x: 0, pixels_y: 0 }
}

fn printed(cmds: &[DrawCommand]) -> String {
    cmds.iter()
        .filter_map(|c| match c {
            DrawCommand::Print(e) => Some(e.inner_char()),
            _ => None,
        })
        .collect()
}

#[test]
fn split_window_lays_parts_out_by_ratio() {
    let w: SplitWindow<char> = SplitWindow::new()
        .with_component(1, 'a')
        .with_component(1, 'b')
        .with_component(2, 'c');
    assert_eq!(w.len(), 3);
    assert_eq!(w.ratio_sum(), 4);
    let v = w.layout(&Bounds::new(80, 24));
    assert_eq!(
        v,
        vec![
            (Bounds::new(0, 0), Bounds::new(20, 24)),
            (Bounds::new(20, 0), Bounds::new(20, 24)),
            (Bounds::new(20, 0), Bounds::new(40, 24)),
        ]
    );
    let mut h = w.with_direction(SplitDir::Horizontal);
    let v = h.layout(&Bounds::new(80, 24));
    assert_eq!(
        v,
        vec![
            (Bounds::new(0, 0), Bounds::new(80, 6)),
            (Bounds::new(0, 6), Bounds::new(80, 6)),
            (Bounds::new(0, 6), Bounds::new(80, 12)),
        ]
    );
    *h.component_mut(1) = 'z';
    assert_eq!(*h.component_mut(1), 'z');
    assert_eq!(SplitDir::default(), SplitDir::Vertical);
    let empty: Split<u8> = Split::new();
    assert!(empty.layout(&Bounds::new(5, 5)).is_empty());
}

fn counters(n: usize) -> Vec<[char; 6]> {
    (0..n)
        .map(|i| {
            let mut a = [' '; 6];
            a[5] = char::from(b'0' + (i % 10) as u8);
            a
        })
        .collect()
}

#[test]
fn editor_draws_numbers_text_and_cursor() {
    let mut ed: TextEditor<u8, u8> = TextEditorBuilder::new().finalize();
    assert!(ed.use_buf().is_none());
    assert!(ed.line_counter().is_none());
    let mut t = Terminal::new(dims(40, 20));
    ed.render_insert_mode(&mut t, &Bounds::new(20, 10), "ab\ncd", &counters(2));
    let cmds = t.finish_frame();
    assert_eq!(printed(&cmds), "     0ab     1cd ");
    let last = cmds.last().unwrap();
    assert_eq!(
        *last,
        DrawCommand::Print(CharEntry::new(' ').with_props(Props::new().with_reverse_video()))
    );
}

#[test]
fn editor_wraps_long_lines() {
    let mut ed: TextEditor<u8, u8> = TextEditorBuilder::new().use_buffer(1).with_line_counter(2).finalize();
    assert_eq!(*ed.use_buf(), Some(1));
    assert_eq!(*ed.line_counter(), Some(2));
    let mut t = Terminal::new(dims(40, 20));
    ed.render_insert_mode(&mut t, &Bounds::new(10, 10), "abcd", &counters(1));
    let cmds = t.finish_frame();
    assert_eq!(printed(&cmds), "     0abc     ↪d ");
}

#[test]
fn editor_stops_at_half_height() {
    let mut ed: TextEditor<u8, u8> = TextEditorBuilder::new().finalize();
    let mut t = Terminal::new(dims(40, 20));
    ed.render_insert_mode(&mut t, &Bounds::new(20, 4), "a\nb\nc\nd", &counters(4));
    let cmds = t.finish_frame();
    // the height is 4, so drawing stops after the newline that starts row 3
    assert_eq!(printed(&cmds), "     0a     1b     2c     3 ");
}

#[test]
fn edit_modes_exist() {
    assert_ne!(TextEditMode::Normal, TextEditMode::Insert);
    assert_ne!(TextEditMode::Visual, TextEditMode::VisualLine);
}
