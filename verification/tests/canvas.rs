use fi_ui::components::char_canvas::{BOLD_MASK, REVERSE_VIDEO_MASK, UNDERLINE_MASK};
use fi_ui::prelude::{
    Bounds, CharCanvas, CharEntry, Props, Terminal, TerminalDims, TerminalRequest, Vec2,
};

fn dims(cols: u16, rows: u16) -> TerminalDims {
    TerminalDims { rows, cols, pixels_x: 0, pixels_y: 0 }
}

#[test]
fn props_flags_and_requests() {
    let p = Props::new();
    assert_eq!(p.flags, 0);
    assert_eq!((p.r, p.g, p.b), (255, 255, 255));
    assert!(p.apply_props().is_empty());
    let bold = p.with_bold();
    assert_eq!(bold.flags, BOLD_MASK);
    assert_eq!(bold.apply_props(), vec![TerminalRequest::Bold]);
    // each setter adds its own flag to those already set
    let under = bold.with_underline();
    assert_eq!(under.flags, BOLD_MASK | UNDERLINE_MASK);
    assert_eq!(under.apply_props(), vec![TerminalRequest::Bold, TerminalRequest::Underline]);
    // reverse video replaces the flags
    let all = under.with_reverse_video();
    assert_eq!(all.flags, REVERSE_VIDEO_MASK);
    assert_eq!(all.apply_props(), vec![TerminalRequest::ReverseVideo]);
    assert_eq!(p.with_underline().flags, UNDERLINE_MASK);
    assert_eq!(p.with_reverse_video().flags, REVERSE_VIDEO_MASK);
    assert_eq!(
        p.with_reverse_video().apply_props(),
        vec![TerminalRequest::ReverseVideo]
    );
    // the colour is kept
    assert_eq!((all.r, all.g, all.b), (255, 255, 255));
}

#[test]
fn char_entry_basics() {
    let mut e = CharEntry::new('a');
    assert_eq!(e.inner_char(), 'a');
    e.set_char('b');
    assert_eq!(e.inner_char(), 'b');
    assert_eq!(CharEntry::from('x'), CharEntry::new('x'));
    let styled = e.with_props(Props::new().with_bold());
    assert_eq!(styled.apply_props(), vec![TerminalRequest::Bold]);
    assert_eq!(styled.inner_char(), 'b');
}

#[test]
fn canvas_entries_replace_by_position() {
    let mut c: CharCanvas<u8> = CharCanvas::new();
    assert_eq!(c.len(), 0);
    c.set_entry(1, 1, CharEntry::new('a'));
    c.set_entry(2, 1, CharEntry::new('b'));
    c.set_entry(1, 1, CharEntry::new('c'));
    assert_eq!(c.len(), 2);
    c.clear();
    assert_eq!(c.len(), 0);
    let mut c = c.on_render(7);
    assert_eq!(c.take_update_fn(), Some(7));
    assert_eq!(c.take_update_fn(), None);
    c.set_update_fn(9);
    assert_eq!(c.take_update_fn(), Some(9));
}

#[test]
fn canvas_draws_shifted_and_clipped() {
    let mut c: CharCanvas<u8> = CharCanvas::new();
    c.set_entry(0, 0, CharEntry::new('a'));
    c.set_entry(5, 0, CharEntry::new('z'));
    c.set_entry(1, 1, CharEntry::new('b'));
    c.set_offset(1, 0);
    let mut t = Terminal::new(dims(10, 10));
    t.move_relative(Vec2::new(2, 3));
    c.draw_entries(&mut t, &Bounds::new(4, 4));
    // (5,0) shifted to (6,0) falls outside a 4-wide area
    let cmds = t.finish_frame();
    let printed: Vec<char> = cmds
        .iter()
        .filter_map(|c| match c {
            fi_ui::prelude::DrawCommand::Print(e) => Some(e.inner_char()),
            _ => None,
        })
        .collect();
    assert_eq!(printed, vec!['a', 'b']);
    assert_eq!(
        cmds[1],
        fi_ui::prelude::DrawCommand::Goto(Vec2::new(3, 3))
    );
}
