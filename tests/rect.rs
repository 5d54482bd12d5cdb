use dungeon_core::clamper::Clamper;
use dungeon_core::rect::Rect;

#[test]
fn intersect() {
    let r1 = Rect::new(2, 2, 2, 2);
    for x in 0..=5 {
        for y in 0..=5 {
            let r2 = Rect::new(x, y, 1, 1);
            let actual = r1.intersect(&r2);
            if (x >= 1 && x <= 4) && (y >= 1 && y <= 4) {
                assert!(actual, "{x},{y} expected true");
            } else {
                assert!(!actual, "{x},{y} expected false");
            }
        }
    }
    for x in 0..=5 {
        for y in 0..=5 {
            let r2 = Rect::new(x, y, 2, 2);
            let actual = r1.intersect(&r2);
            if (x >= 0 && x <= 4) && (y >= 0 && y <= 4) {
                assert!(actual, "{x},{y} expected true");
            } else {
                assert!(!actual, "{x},{y} expected false");
            }
        }
    }
}

#[test]
fn center() {
    assert_eq!(Rect::new(0, 0, 1, 1).center(), (0, 0));
    assert_eq!(Rect::new(0, 0, 2, 2).center(), (1, 1));
    assert_eq!(Rect::new(0, 0, 2, 4).center(), (1, 2));
    assert_eq!(
        Rect::new(0i128, 0i128, 1i128, 1i128).center(),
        (0i128, 0i128)
    );
    assert_eq!(Rect::new(0i16, 0i16, 2i16, 2i16).center(), (1i16, 1i16));
    assert_eq!(Rect::new(0u8, 0u8, 2u8, 4u8).center(), (1u8, 2u8));
}

fn collect_cells(r: &Rect<i32>) -> Vec<(i32, i32)> {
    let mut it = r.iter();
    let mut v = Vec::new();
    while let Some(p) = it.next() {
        v.push(p);
    }
    v
}

#[test]
fn iter() {
    let r = Rect::new(0, 0, 1, 1);
    let v = collect_cells(&r);
    assert_eq!(v, vec![(0, 0), (1, 0), (0, 1), (1, 1)]);
}

#[test]
fn iter_stays_exhausted() {
    let r = Rect::new(3, 4, 2, 0);
    let mut it = r.iter();
    assert_eq!(it.next(), Some((3, 4)));
    assert_eq!(it.next(), Some((4, 4)));
    assert_eq!(it.next(), Some((5, 4)));
    assert_eq!(it.next(), None);
    assert_eq!(it.next(), None);
}

#[test]
fn iter_of_inverted_rect_is_empty() {
    let r = Rect::new(3, 3, -1, 2);
    assert!(collect_cells(&r).is_empty());
}

#[test]
fn scenario_center_and_shared_border() {
    assert_eq!(Rect::new(0, 0, 2, 2).center(), (1, 1));
    assert!(Rect::new(2, 2, 2, 2).intersect(&Rect::new(1, 1, 1, 1)));
}

#[test]
fn center_rounds_toward_zero() {
    assert_eq!(Rect::new(-3, -3, 0, 0).center(), (-3, -3));
    assert_eq!(Rect::new(-3, 0, 2, 1).center(), (-2, 0));
    assert_eq!(Rect::new(-1i64, -1i64, 0i64, 0i64).center(), (-1i64, -1i64));
    assert_eq!(Rect::new(-2, -1, 1, 0).center(), (-1, -1));
}

#[test]
fn clamp_bounds_values() {
    let c = Clamper::new(0, 9);
    assert_eq!(c.clamp(-5), 0);
    assert_eq!(c.clamp(0), 0);
    assert_eq!(c.clamp(4), 4);
    assert_eq!(c.clamp(9), 9);
    assert_eq!(c.clamp(12), 9);
    let u = Clamper::new(10u8, 20u8);
    assert_eq!(u.clamp(3), 10);
    assert_eq!(u.clamp(255), 20);
}
