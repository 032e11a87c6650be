use fi_ui::prelude::InputEvent;

#[test]
fn bytes_decode_to_events() {
    assert_eq!(InputEvent::from_raw(13), InputEvent::Enter);
    assert_eq!(InputEvent::from_raw(127), InputEvent::Backspace);
    assert_eq!(InputEvent::from_raw(17), InputEvent::Key { ctrl: true, key: 'q' });
    assert_eq!(InputEvent::from_raw(8), InputEvent::Key { ctrl: true, key: 'h' });
    assert_eq!(InputEvent::from_raw(1), InputEvent::Key { ctrl: true, key: 'a' });
    assert_eq!(InputEvent::from_raw(26), InputEvent::Key { ctrl: true, key: 'z' });
    assert_eq!(InputEvent::from_raw(b'x'), InputEvent::Key { ctrl: false, key: 'x' });
    assert_eq!(InputEvent::from_raw(0), InputEvent::Key { ctrl: false, key: '\0' });
    assert_eq!(InputEvent::from_raw(27), InputEvent::Key { ctrl: false, key: '\u{1b}' });
}

#[test]
fn only_no_input_is_empty() {
    assert!(!InputEvent::NoInput.is_some());
    assert!(InputEvent::Enter.is_some());
    assert!(InputEvent::from_raw(b'a').is_some());
}
