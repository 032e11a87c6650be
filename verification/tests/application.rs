use fi_ui::terminal::application::TerminalAppBuilder;

#[test]
fn builder_keeps_what_it_was_given() {
    let b: TerminalAppBuilder<u32, char, u8, u16, i8, i16> = TerminalAppBuilder::new(7, 'c');
    let (s, c, i, u, r, w) = b.finalize().into_parts();
    assert_eq!((s, c, i, u, r, w), (7, 'c', None, None, None, None));

    let b: TerminalAppBuilder<u32, char, u8, u16, i8, i16> = TerminalAppBuilder::new(1, 'x')
        .on_input_event(3)
        .on_update(4)
        .only_render_when(-5)
        .run_while(-6)
        .on_input_event(9);
    let parts = b.finalize().into_parts();
    assert_eq!(parts, (1, 'x', Some(9), Some(4), Some(-5), Some(-6)));
}
