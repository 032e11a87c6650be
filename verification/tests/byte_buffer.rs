use fi_ui::gap_buffer::{Gap, GapBuffer, STARTING_GAP};

#[test]
fn gap_moves_within_limits() {
    let mut g = Gap::new(10, 4);
    assert_eq!((g.start(), g.end(), g.len()), (10, 14, 4));
    g.shift_left(3);
    assert_eq!(g.start(), 7);
    g.shift_left(100);
    assert_eq!(g.start(), 0);
    g.shift_right::<20>(5);
    assert_eq!(g.start(), 5);
    // the end would reach 20, so the gap stays
    g.shift_right::<20>(11);
    assert_eq!(g.start(), 5);
}

#[test]
fn new_buffer_puts_the_gap_after_the_contents() {
    let b = GapBuffer::new(vec![7, 8, 9]);
    assert_eq!(b[0], 7);
    assert_eq!(b[2], 9);
    assert_eq!(STARTING_GAP, 4096);
}

#[test]
fn new_buffer_holds_its_gap_and_iterates_around_it() {
    let b = GapBuffer::new(vec![1, 2, 3]);
    let (before, after) = b.iter();
    assert_eq!(before, &[1u8, 2, 3][..]);
    assert!(after.is_empty());
    let empty = GapBuffer::new(Vec::new());
    let (before, after) = empty.iter();
    assert!(before.is_empty() && after.is_empty());
}
