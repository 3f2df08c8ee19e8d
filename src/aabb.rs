use crate::key::{is_nan_bits, key_of_bits, ordered_key};
use vstd::prelude::*;

verus! {

/// Axis-aligned bounding box. Each coordinate is held as its ordered key (see
/// `key`), so that comparing, taking minimums and maximums, and so combining
/// boxes are exact.
#[derive(Debug, Clone, Copy)]
pub struct Aabb {
    pub minimum: [u64; 3],
    pub maximum: [u64; 3],
}

pub open spec fn min_u64(a: u64, b: u64) -> u64 {
    if a <= b {
        a
    } else {
        b
    }
}

pub open spec fn max_u64(a: u64, b: u64) -> u64 {
    if a >= b {
        a
    } else {
        b
    }
}

impl Aabb {
    /// The minimum corner lies at or below the maximum corner on every axis.
    pub open spec fn wf(self) -> bool {
        forall|a: int| 0 <= a < 3 ==> self.minimum[a] <= self.maximum[a]
    }

    /// `inner` lies within `self` on every axis.
    pub open spec fn contains(self, inner: Aabb) -> bool {
        forall|a: int|
            0 <= a < 3 ==> self.minimum[a] <= inner.minimum[a] && inner.maximum[a]
                <= self.maximum[a]
    }

    /// The box with corners `minimum` and `maximum`.
    pub fn new(minimum: [u64; 3], maximum: [u64; 3]) -> (r: Aabb)
        ensures
            r.minimum == minimum,
            r.maximum == maximum,
    {
        Aabb { minimum, maximum }
    }

    /// The box whose corners have the binary64 bit patterns `min_bits` and
    /// `max_bits`, as ordered keys; `None` where a coordinate is NaN.
    pub fn from_bits(min_bits: [u64; 3], max_bits: [u64; 3]) -> (r: Option<Aabb>)
        ensures
            r is None <==> exists|a: int|
                0 <= a < 3 && (is_nan_bits(min_bits[a]) || is_nan_bits(max_bits[a])),
            r matches Some(b) ==> forall|a: int|
                0 <= a < 3 ==> b.minimum[a] == key_of_bits(min_bits[a]) && b.maximum[a]
                    == key_of_bits(max_bits[a]),
    {
        let mut minimum: [u64; 3] = [0, 0, 0];
        let mut maximum: [u64; 3] = [0, 0, 0];
        let mut a: usize = 0;
        while a < 3
            invariant
                a <= 3,
                forall|b: int| 0 <= b < a ==> !is_nan_bits(#[trigger] min_bits[b]),
                forall|b: int| 0 <= b < a ==> !is_nan_bits(#[trigger] max_bits[b]),
                forall|b: int| 0 <= b < a ==> #[trigger] minimum[b] == key_of_bits(min_bits[b]),
                forall|b: int| 0 <= b < a ==> #[trigger] maximum[b] == key_of_bits(max_bits[b]),
            decreases 3 - a,
        {
            let lo = ordered_key(min_bits[a]);
            let hi = ordered_key(max_bits[a]);
            if lo.is_none() || hi.is_none() {
                return None;
            }
            minimum[a] = lo.unwrap();
            maximum[a] = hi.unwrap();
            a = a + 1;
        }
        Some(Aabb { minimum, maximum })
    }

    /// Keys of the minimum corner.
    pub fn minimum(&self) -> (r: [u64; 3])
        ensures
            r == self.minimum,
    {
        self.minimum
    }

    /// Keys of the maximum corner.
    pub fn maximum(&self) -> (r: [u64; 3])
        ensures
            r == self.maximum,
    {
        self.maximum
    }

    /// The box that surrounds both boxes: the smaller minimum and the larger
    /// maximum on each axis.
    pub fn surrounding_box(box0: Aabb, box1: Aabb) -> (r: Aabb)
        ensures
            forall|a: int|
                0 <= a < 3 ==> r.minimum[a] == min_u64(box0.minimum[a], box1.minimum[a])
                    && r.maximum[a] == max_u64(box0.maximum[a], box1.maximum[a]),
            r == Aabb::union_spec(box0, box1),
            box0.wf() && box1.wf() ==> r.wf(),
    {
        let mut minimum: [u64; 3] = [0, 0, 0];
        let mut maximum: [u64; 3] = [0, 0, 0];
        let mut a: usize = 0;
        while a < 3
            invariant
                a <= 3,
                forall|b: int|
                    0 <= b < a ==> minimum[b] == min_u64(box0.minimum[b], box1.minimum[b])
                        && maximum[b] == max_u64(box0.maximum[b], box1.maximum[b]),
            decreases 3 - a,
        {
            minimum[a] = if box0.minimum[a] <= box1.minimum[a] {
                box0.minimum[a]
            } else {
                box1.minimum[a]
            };
            maximum[a] = if box0.maximum[a] >= box1.maximum[a] {
                box0.maximum[a]
            } else {
                box1.maximum[a]
            };
            a = a + 1;
        }
        assert(minimum =~= Aabb::union_spec(box0, box1).minimum);
        assert(maximum =~= Aabb::union_spec(box0, box1).maximum);
        Aabb { minimum, maximum }
    }

    /// Union with a box that may be absent: an absent box leaves the other
    /// one as it is.
    pub fn surrounding_option(acc: Option<Aabb>, next: Aabb) -> (r: Aabb)
        ensures
            acc is None ==> r == next,
            acc matches Some(b) ==> r == Aabb::union_spec(b, next),
    {
        match acc {
            None => next,
            Some(b) => {
                Aabb::surrounding_box(b, next)
            }
        }
    }

    /// The surrounding box, as a value.
    pub open spec fn union_spec(box0: Aabb, box1: Aabb) -> Aabb {
        Aabb {
            minimum: [
                min_u64(box0.minimum[0], box1.minimum[0]),
                min_u64(box0.minimum[1], box1.minimum[1]),
                min_u64(box0.minimum[2], box1.minimum[2]),
            ],
            maximum: [
                max_u64(box0.maximum[0], box1.maximum[0]),
                max_u64(box0.maximum[1], box1.maximum[1]),
                max_u64(box0.maximum[2], box1.maximum[2]),
            ],
        }
    }
}

/// The box surrounding all of `s`, combined from the first to the last.
pub open spec fn union_all(s: Seq<Aabb>) -> Aabb
    recommends
        s.len() > 0,
    decreases s.len(),
{
    if s.len() <= 1 {
        s[0]
    } else {
        Aabb::union_spec(union_all(s.drop_last()), s.last())
    }
}

/// The box surrounding all of `boxes`; `None` where there is none.
pub fn surrounding_all(boxes: &Vec<Aabb>) -> (r: Option<Aabb>)
    ensures
        r is None <==> boxes@.len() == 0,
        r matches Some(b) ==> b == union_all(boxes@),
{
    if boxes.len() == 0 {
        return None;
    }
    let mut acc = boxes[0];
    let mut i: usize = 1;
    while i < boxes.len()
        invariant
            1 <= i <= boxes@.len(),
            acc == union_all(boxes@.subrange(0, i as int)),
        decreases boxes@.len() - i,
    {
        proof {
            let next = boxes@.subrange(0, i + 1);
            assert(next.drop_last() =~= boxes@.subrange(0, i as int));
            assert(next.last() == boxes@[i as int]);
        }
        acc = Aabb::surrounding_box(acc, boxes[i]);
        i = i + 1;
    }
    assert(boxes@.subrange(0, i as int) =~= boxes@);
    Some(acc)
}

/// The surrounding box is the smallest box that contains both boxes: it
/// contains each of them, and every box that contains both contains it.
pub proof fn lemma_surrounding_box_minimal(box0: Aabb, box1: Aabb, other: Aabb)
    requires
        box0.wf(),
        box1.wf(),
    ensures
        Aabb::union_spec(box0, box1).wf(),
        Aabb::union_spec(box0, box1).contains(box0),
        Aabb::union_spec(box0, box1).contains(box1),
        other.contains(box0) && other.contains(box1) ==> other.contains(
            Aabb::union_spec(box0, box1),
        ),
{
    let u = Aabb::union_spec(box0, box1);
    assert(forall|a: int| 0 <= a < 3 ==> u.minimum[a] == min_u64(box0.minimum[a], box1.minimum[a]));
    assert(forall|a: int| 0 <= a < 3 ==> u.maximum[a] == max_u64(box0.maximum[a], box1.maximum[a]));
}

} // verus!
