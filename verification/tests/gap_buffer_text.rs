use fi_ui::prelude::GapBuffer;

#[test]
fn test_insert() {
    let mut test: GapBuffer = GapBuffer::new();

    for x in 0..100u8 {
        if x % 2 == 0 {
            test.insert((x / 2) as usize, x as char);
        }
    }
    assert!(
        test.len() == 50,
        "After even insertions, buffer length is {}",
        test.len()
    );
    for x in 0..100u8 {
        if x % 2 == 0 {
            assert!(
                test[(x / 2) as usize] == x as char,
                "insertion failed at {}",
                x / 2
            );
        }
    }

    let mut it = test.iter_from(0);
    let mut j = 0;
    while let Some(i) = it.next() {
        assert!(*i as u8 % 2 == 0, "insertion failed at {}", j);
        j += 1;
    }

    //Test insertion in the middle.
    for x in 0..100u8 {
        if x % 2 == 1 {
            test.insert(x as usize, x as char);
        }
    }
    assert!(
        test.len() == 100,
        "After odd insertions, buffer length is {}",
        test.len()
    );
}

#[test]
fn test_index() {
    //Test indexing.
    let mut test: GapBuffer = GapBuffer::new();

    for x in 0..100u8 {
        test.insert(x as usize, x as char);
    }

    for x in 0..100u8 {
        assert!(test[x as usize] == x as char, "Index {} failed", x);
    }
}

#[test]
fn test_remove() {
    //Test removal.

    let mut test1: GapBuffer = GapBuffer::new();

    for x in 0..10u8 {
        test1.insert(x as usize, x as char);
    }
    assert_eq!(test1.len(), 10);
}

#[test]
fn insert_in_the_middle_keeps_every_character() {
    let mut b = GapBuffer::new();
    for c in "helo".chars() {
        let n = b.len();
        b.insert(n, c);
    }
    b.insert(2, 'l');
    b.insert(0, '>');
    b.insert(100, '!');
    let mut out = String::new();
    let mut it = b.iter();
    while let Some(c) = it.next() {
        out.push(*c);
    }
    assert_eq!(out, ">hello!");
    assert_eq!(b.len(), 7);
}

#[test]
fn get_and_get_mut_follow_positions() {
    let mut b = GapBuffer::from(String::from("abc"));
    assert_eq!(b.get(0), Some(&'a'));
    assert_eq!(b.get(2), Some(&'c'));
    assert_eq!(b.get(3), None);
    b.insert(1, 'X');
    if let Some(c) = b.get_mut(2) {
        *c = 'B';
    }
    assert_eq!(b.get_mut(4), None);
    assert_eq!(b.get(0), Some(&'a'));
    assert_eq!(b.get(1), Some(&'X'));
    assert_eq!(b.get(2), Some(&'B'));
    assert_eq!(b.get(3), Some(&'c'));
    assert!(b.capacity() >= b.len());
}

#[test]
fn iterators_walk_both_ways_and_stop() {
    let b = GapBuffer::from(String::from("line\nnext"));
    let mut back = b.iter_to(4);
    assert_eq!(back.next_back(), Some(&'e'));
    assert_eq!(back.next(), Some(&'l'));
    assert_eq!(back.next_back(), Some(&'n'));
    assert_eq!(back.next_back(), Some(&'i'));
    assert_eq!(back.next_back(), None);
    assert_eq!(back.next(), None);
    let mut from = b.iter_from(5);
    assert_eq!(from.next(), Some(&'n'));
    assert_eq!(from.size_hint(), (9, Some(9)));
    let mut past = b.iter_from(20);
    assert_eq!(past.next(), None);
}

#[test]
fn clone_keeps_the_text() {
    let mut b = GapBuffer::new();
    for (i, c) in "hello".chars().enumerate() {
        b.insert(i, c);
    }
    b.insert(2, 'X');
    let copy = b.clone();
    assert_eq!(copy.len(), b.len());
    for i in 0..b.len() {
        assert_eq!(copy[i], b[i]);
    }
}
