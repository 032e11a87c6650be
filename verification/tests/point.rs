use fi_ui::prelude::{Bounds, Rect, Vec2};

#[test]
fn vec2_accessors_and_setters() {
    let mut v = Vec2::new(3, -4);
    assert_eq!(*v.x(), 3);
    assert_eq!(*v.y(), -4);
    v.set_x(10);
    v.set_y(20);
    assert_eq!(v.into_parts(), (10, 20));
    assert_eq!(Vec2::default(), Vec2::new(0, 0));
}

#[test]
fn vec2_arithmetic() {
    let a = Vec2::new(7, -7);
    let b = Vec2::new(2, 2);
    assert_eq!(a + b, Vec2::new(9, -5));
    assert_eq!(a - b, Vec2::new(5, -9));
    assert_eq!(a * b, Vec2::new(14, -14));
    assert_eq!(a / b, Vec2::new(3, -3));
    assert_eq!(Vec2::new(7, -7) / Vec2::new(-2, -2), Vec2::new(-3, 3));
    assert_eq!(Vec2::new(isize::MIN, 5) / Vec2::new(isize::MIN, isize::MIN), Vec2::new(1, 0));
    let mut c = a;
    c.add_assign(b);
    assert_eq!(c, Vec2::new(9, -5));
    c.sub_assign(b);
    assert_eq!(c, a);
    c.mul_assign(Vec2::new(2, 3));
    assert_eq!(c, Vec2::new(14, -21));
    c.div_assign(Vec2::new(4, 4));
    assert_eq!(c, Vec2::new(3, -5));
    assert_eq!((a + b) - b, a);
}

#[test]
fn vec2_reading_order() {
    let a = Vec2::new(5, 1);
    let b = Vec2::new(0, 2);
    let c = Vec2::new(6, 1);
    assert!(a < b);
    assert!(a < c);
    assert!(c < b);
    assert!(!(b < a));
    assert!(a <= a && a >= a);
    assert_eq!(a.partial_cmp(&a), Some(std::cmp::Ordering::Equal));
    assert_eq!(a.max(b), b);
    assert_eq!(a.min(b), a);
}

#[test]
fn vec2_regions() {
    let r = Rect::new(Vec2::new(1, 1), Vec2::new(3, 2));
    assert_eq!(*r.size(), Vec2::new(3, 2));
    assert!(Vec2::new(1, 1).is_within_rect(&r));
    assert!(Vec2::new(3, 2).is_within_rect(&r));
    assert!(!Vec2::new(4, 2).is_within_rect(&r));
    assert!(!Vec2::new(0, 1).is_within_rect(&r));
    let b = Bounds::new(4, 2);
    assert!(Vec2::new(0, 0).is_within_bounds(&b));
    assert!(Vec2::new(3, 1).is_within_bounds(&b));
    assert!(!Vec2::new(4, 1).is_within_bounds(&b));
    assert!(!Vec2::new(-1, 0).is_within_bounds(&b));
    assert!(Vec2::new(5, 9).is_to_the_right_of(&Vec2::new(4, 0)));
    assert!(!Vec2::new(5, 0).is_to_the_right_of(&Vec2::new(5, 0)));
}

#[test]
fn bounds_basics() {
    let b = Bounds::new(80, 24);
    assert_eq!(*b.width(), 80);
    assert_eq!(*b.height(), 24);
    assert_eq!(b.into_parts(), (80, 24));
    assert!(Bounds::new(81, 0).is_to_the_right_of(&b));
    assert_eq!(Bounds::default(), Bounds::new(0, 0));
    assert_eq!(b + Bounds::new(1, 1), Bounds::new(81, 25));
    assert_eq!(b - Bounds::new(80, 4), Bounds::new(0, 20));
    assert_eq!(b * Bounds::new(2, 2), Bounds::new(160, 48));
    assert_eq!(b / Bounds::new(3, 5), Bounds::new(26, 4));
    assert_eq!(Vec2::from(b), Vec2::new(80, 24));
    let mut m = b;
    m.add_assign(Bounds::new(1, 2));
    m.sub_assign(Bounds::new(1, 2));
    m.mul_assign(Bounds::new(2, 1));
    m.div_assign(Bounds::new(2, 1));
    assert_eq!(m, b);
    assert_eq!(Rect::default(), Rect::new(Vec2::new(0, 0), Vec2::new(0, 0)));
}
