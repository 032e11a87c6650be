use fi_ui::prelude::{SelectionBound, SelectionTree};

#[test]
fn test_insert_1() {
    let mut tree_a = SelectionTree::new();
    tree_a.insert(0, 5);
    tree_a.insert(8, 10);
    tree_a.insert(12, 15);
    tree_a.insert(17, 20);
    tree_a.insert(7, 16);

    let mut tree_b = SelectionTree::new();
    tree_b.insert(0, 5);
    tree_b.insert(7, 16);
    tree_b.insert(17, 20);

    assert_eq!(tree_a, tree_b);
}

#[test]
fn test_insert_2() {
    let mut tree_a = SelectionTree::new();
    tree_a.insert(0, 5);
    tree_a.insert(8, 10);
    tree_a.insert(12, 15);
    tree_a.insert(17, 20);
    tree_a.insert(7, 17);

    let mut tree_b = SelectionTree::new();
    tree_b.insert(0, 5);
    tree_b.insert(7, 20);

    assert_eq!(tree_a, tree_b);
}

#[test]
fn test_insert_3() {
    let mut tree_a = SelectionTree::new();

    tree_a.insert(0, 5);
    tree_a.insert(8, 10);
    tree_a.insert(12, 15);
    tree_a.insert(17, 20);
    tree_a.insert(10, 18);

    let mut tree_b = SelectionTree::new();
    tree_b.insert(0, 5);
    tree_b.insert(8, 20);

    assert_eq!(tree_a, tree_b);
}

#[test]
fn test_insert_4() {
    let mut tree_a = SelectionTree::new();

    tree_a.insert(0, 5);
    tree_a.insert(8, 10);
    tree_a.insert(12, 15);
    tree_a.insert(17, 20);
    tree_a.insert(10, 17);

    let mut tree_b = SelectionTree::new();
    tree_b.insert(0, 5);
    tree_b.insert(8, 20);

    assert_eq!(tree_a, tree_b);
}

#[test]
fn main_cursor_follows_first_bound_and_offset() {
    let mut t = SelectionTree::new();
    assert_eq!(t.main_cursor(), 0);
    t.insert(4, 6);
    assert_eq!(t.main_cursor(), 4);
    t.translate(3);
    assert_eq!(t.main_cursor(), 7);
    assert!(t.is_main_cursor(7));
    t.translate(-10);
    assert_eq!(t.main_cursor(), 0);
}

#[test]
fn contains_looks_up_offset_minus_start() {
    let mut t = SelectionTree::new();
    t.insert(2, 3);
    // bounds at 2 (start) and 4 (end); the probe is offset - start
    t.translate(6);
    assert!(t.contains(4));
    assert!(t.contains(2));
    assert!(!t.contains(3));
}

#[test]
fn separate_selections_stay_apart() {
    let mut a = SelectionTree::new();
    a.insert(0, 1);
    a.insert(5, 6);
    let mut b = SelectionTree::new();
    b.insert(5, 6);
    b.insert(0, 1);
    assert_eq!(a, b);
    let mut c = SelectionTree::new();
    c.insert(0, 6);
    assert_ne!(a, c);
}

#[test]
fn bound_helpers() {
    let s = SelectionBound::Start(3);
    let e = SelectionBound::End(3);
    assert_eq!(*s.bound_val(), 3);
    assert!(s.is_start() && !s.is_end());
    assert!(e.is_end());
    assert_eq!(s.translate(-5), SelectionBound::Start(0));
    assert_eq!(e.translate(4), SelectionBound::End(7));
    assert_eq!(SelectionBound::End(usize::MAX).translate(1), SelectionBound::End(usize::MAX));
    assert!(s.partial_cmp(&e) == Some(std::cmp::Ordering::Equal));
    assert!(SelectionBound::Start(1) < SelectionBound::End(2));
}

#[test]
fn adjacent_single_positions_merge() {
    let mut tree_a = SelectionTree::new();
    tree_a.insert(0, 0);
    tree_a.insert(1, 1);
    let mut tree_b = SelectionTree::new();
    tree_b.insert(0, 1);
    assert_eq!(tree_a, tree_b);
}
