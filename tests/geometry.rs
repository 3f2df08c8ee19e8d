use rays::aabb::{surrounding_all, Aabb};
use rays::key::{key_to_bits, ordered_key};

fn key(x: f64) -> u64 {
    ordered_key(x.to_bits()).unwrap()
}

fn value(k: u64) -> f64 {
    f64::from_bits(key_to_bits(k))
}

fn boxed(lo: [f64; 3], hi: [f64; 3]) -> Aabb {
    Aabb::from_bits(
        [lo[0].to_bits(), lo[1].to_bits(), lo[2].to_bits()],
        [hi[0].to_bits(), hi[1].to_bits(), hi[2].to_bits()],
    )
    .unwrap()
}

fn corners(b: &Aabb) -> ([f64; 3], [f64; 3]) {
    let lo = b.minimum();
    let hi = b.maximum();
    (
        [value(lo[0]), value(lo[1]), value(lo[2])],
        [value(hi[0]), value(hi[1]), value(hi[2])],
    )
}

#[test]
fn union_of_two_overlapping_boxes() {
    let a = boxed([-1.0, -1.0, -1.0], [1.0, 1.0, 1.0]);
    let b = boxed([0.0, 0.0, 0.0], [2.0, 2.0, 2.0]);
    let u = Aabb::surrounding_box(a, b);
    assert_eq!(corners(&u), ([-1.0, -1.0, -1.0], [2.0, 2.0, 2.0]));
}

#[test]
fn union_contains_both_and_is_tight() {
    let a = boxed([-3.5, 0.25, 10.0], [-1.0, 4.0, 12.0]);
    let b = boxed([2.0, -7.0, 11.0], [2.5, -6.0, 11.5]);
    let u = Aabb::surrounding_box(a, b);
    assert_eq!(corners(&u), ([-3.5, -7.0, 10.0], [2.5, 4.0, 12.0]));
    for axis in 0..3 {
        assert!(u.minimum[axis] <= a.minimum[axis] && u.minimum[axis] <= b.minimum[axis]);
        assert!(u.maximum[axis] >= a.maximum[axis] && u.maximum[axis] >= b.maximum[axis]);
        assert!(u.minimum[axis] == a.minimum[axis] || u.minimum[axis] == b.minimum[axis]);
        assert!(u.maximum[axis] == a.maximum[axis] || u.maximum[axis] == b.maximum[axis]);
    }
}

#[test]
fn union_with_absent_box_is_identity() {
    let b = boxed([1.0, 2.0, 3.0], [4.0, 5.0, 6.0]);
    let u = Aabb::surrounding_option(None, b);
    assert_eq!(corners(&u), ([1.0, 2.0, 3.0], [4.0, 5.0, 6.0]));
}

#[test]
fn union_of_many_boxes() {
    let boxes = vec![
        boxed([0.0, 0.0, 0.0], [1.0, 1.0, 1.0]),
        boxed([-5.0, 2.0, 0.5], [-4.0, 3.0, 0.75]),
        boxed([0.0, -1.0, 9.0], [0.5, 0.0, 10.0]),
    ];
    let u = surrounding_all(&boxes).unwrap();
    assert_eq!(corners(&u), ([-5.0, -1.0, 0.0], [1.0, 3.0, 10.0]));
    assert!(surrounding_all(&Vec::new()).is_none());
}

#[test]
fn box_with_nan_is_refused() {
    let nan = f64::NAN.to_bits();
    let one = 1.0f64.to_bits();
    assert!(Aabb::from_bits([one, nan, one], [one, one, one]).is_none());
    assert!(Aabb::from_bits([one, one, one], [one, one, nan]).is_none());
    assert!(Aabb::from_bits([one, one, one], [one, one, one]).is_some());
}

#[test]
fn keys_order_like_values() {
    let values = [
        f64::NEG_INFINITY,
        -1e300,
        -2.5,
        -1.0,
        -1e-310,
        0.0,
        1e-310,
        0.5,
        1.0,
        3.0,
        1e300,
        f64::INFINITY,
    ];
    for i in 0..values.len() {
        for j in 0..values.len() {
            assert_eq!(key(values[i]) < key(values[j]), values[i] < values[j]);
            assert_eq!(key(values[i]) == key(values[j]), values[i] == values[j]);
        }
    }
}

#[test]
fn zeros_share_a_key_and_nan_has_none() {
    assert_eq!(key(-0.0), key(0.0));
    assert_eq!(key(0.0), 0x8000_0000_0000_0000);
    assert!(ordered_key(f64::NAN.to_bits()).is_none());
    assert!(ordered_key(0x7ff0_0000_0000_0001).is_none());
    assert!(ordered_key(f64::INFINITY.to_bits()).is_some());
}

#[test]
fn keys_give_back_their_values() {
    for x in [-7.25, -1.0, 0.0, 1e-300, 2.0, 123456.789, f64::INFINITY] {
        assert_eq!(value(key(x)), x);
    }
    assert_eq!(key_to_bits(key(-0.0)), 0);
    assert_eq!(key(1.0), 0xbff0_0000_0000_0000);
    assert_eq!(key(-1.0), 0x400f_ffff_ffff_ffff);
}
