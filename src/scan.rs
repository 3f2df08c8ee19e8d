use crate::bvh::indices;
use vstd::prelude::*;

verus! {

/// What `prim_hit` answers for primitive `p` below `t_max`. For a closure that
/// answers every question in one way only, this is its answer.
pub open spec fn prim_out<H, P: Fn(usize, u64) -> Option<(u64, H)>>(
    prim_hit: P,
    p: usize,
    t_max: u64,
) -> Option<(u64, H)> {
    choose|r: Option<(u64, H)>| prim_hit.ensures((p, t_max), r)
}

/// `prim_hit` gives one answer to each question: a primitive's intersection
/// is a pure function of the ray, the primitive and the range.
pub open spec fn deterministic<H, P: Fn(usize, u64) -> Option<(u64, H)>>(prim_hit: P) -> bool {
    forall|p: usize, t: u64, r1: Option<(u64, H)>, r2: Option<(u64, H)>|
        #[trigger] prim_hit.ensures((p, t), r1) && #[trigger] prim_hit.ensures((p, t), r2) ==> r1
            == r2
}

/// Brute-force closest-hit scan: the primitives of `s` are asked in order,
/// each below the distance of the last hit found (at first below `t_max`).
/// The result is the range end reached and the last hit found, or `acc` where
/// none was.
pub open spec fn scan<H, P: Fn(usize, u64) -> Option<(u64, H)>>(
    prim_hit: P,
    s: Seq<usize>,
    t_max: u64,
    acc: Option<(u64, H)>,
) -> (u64, Option<(u64, H)>)
    decreases s.len(),
{
    if s.len() == 0 {
        (t_max, acc)
    } else {
        match prim_out(prim_hit, s[0], t_max) {
            Some(h) => scan(prim_hit, s.drop_first(), h.0, Some(h)),
            None => scan(prim_hit, s.drop_first(), t_max, acc),
        }
    }
}

/// A call of a deterministic `prim_hit` returns what `prim_out` names.
pub proof fn lemma_call_is_out<H, P: Fn(usize, u64) -> Option<(u64, H)>>(
    prim_hit: P,
    p: usize,
    t: u64,
    r: Option<(u64, H)>,
)
    requires
        deterministic(prim_hit),
        prim_hit.ensures((p, t), r),
    ensures
        prim_out(prim_hit, p, t) == r,
{
    let c = prim_out(prim_hit, p, t);
    assert(prim_hit.ensures((p, t), c));
}

/// Scanning `a + b` is scanning `a`, then going on with `b` from where `a`
/// left off.
pub proof fn lemma_scan_append<H, P: Fn(usize, u64) -> Option<(u64, H)>>(
    prim_hit: P,
    a: Seq<usize>,
    b: Seq<usize>,
    t_max: u64,
    acc: Option<(u64, H)>,
)
    ensures
        scan(prim_hit, a + b, t_max, acc) == ({
            let (t1, acc1) = scan(prim_hit, a, t_max, acc);
            scan(prim_hit, b, t1, acc1)
        }),
    decreases a.len(),
{
    if a.len() == 0 {
        assert(a + b =~= b);
    } else {
        assert((a + b).drop_first() =~= a.drop_first() + b);
        assert((a + b)[0] == a[0]);
        match prim_out(prim_hit, a[0], t_max) {
            Some(h) => lemma_scan_append(prim_hit, a.drop_first(), b, h.0, Some(h)),
            None => lemma_scan_append(prim_hit, a.drop_first(), b, t_max, acc),
        }
    }
}

/// What was found before a scan is kept only where the scan finds nothing,
/// and a scan that finds nothing leaves the range end as it was.
pub proof fn lemma_scan_acc<H, P: Fn(usize, u64) -> Option<(u64, H)>>(
    prim_hit: P,
    s: Seq<usize>,
    t_max: u64,
    acc: Option<(u64, H)>,
)
    ensures
        scan(prim_hit, s, t_max, acc) == (match scan(prim_hit, s, t_max, None) {
            (t1, Some(h)) => (t1, Some(h)),
            (_, None) => (t_max, acc),
        }),
        scan(prim_hit, s, t_max, None).1 is None ==> scan(prim_hit, s, t_max, None).0 == t_max,
    decreases s.len(),
{
    if s.len() > 0 {
        match prim_out(prim_hit, s[0], t_max) {
            Some(h) => {
                lemma_scan_acc(prim_hit, s.drop_first(), h.0, Some(h));
            },
            None => {
                lemma_scan_acc(prim_hit, s.drop_first(), t_max, acc);
                lemma_scan_acc(prim_hit, s.drop_first(), t_max, None);
            },
        }
    }
}

/// Where no primitive of `s` is hit below `t_max`, the scan changes nothing.
pub proof fn lemma_scan_all_miss<H, P: Fn(usize, u64) -> Option<(u64, H)>>(
    prim_hit: P,
    s: Seq<usize>,
    t_max: u64,
    acc: Option<(u64, H)>,
)
    requires
        forall|i: int| 0 <= i < s.len() ==> prim_out(prim_hit, s[i], t_max) is None,
    ensures
        scan(prim_hit, s, t_max, acc) == (t_max, acc),
    decreases s.len(),
{
    if s.len() > 0 {
        assert forall|i: int| 0 <= i < s.drop_first().len() implies prim_out(
            prim_hit,
            s.drop_first()[i],
            t_max,
        ) is None by {
            assert(s.drop_first()[i] == s[i + 1]);
        }
        lemma_scan_all_miss(prim_hit, s.drop_first(), t_max, acc);
    }
}

} // verus!

verus! {

/// `prim_hit` answers as a closest-hit query does: each primitive has at most
/// one first hit, which is reported exactly for the range ends beyond its
/// distance.
pub open spec fn closest_hit_query<H, P: Fn(usize, u64) -> Option<(u64, H)>>(prim_hit: P) -> bool {
    &&& forall|p: usize, t: u64|
        #[trigger] prim_out(prim_hit, p, t) matches Some(h) ==> h.0 < t
    &&& forall|p: usize, t: u64, t2: u64|
        #[trigger] prim_out(prim_hit, p, t) is Some && prim_out(prim_hit, p, t).unwrap().0 < t2
            ==> #[trigger] prim_out(prim_hit, p, t2) == prim_out(prim_hit, p, t)
    &&& forall|p: usize, t: u64, t2: u64|
        #[trigger] prim_out(prim_hit, p, t) is None && t2 <= t ==> #[trigger] prim_out(
            prim_hit,
            p,
            t2,
        ) is None
}

/// `r` is the closest hit among `s` below `t_max`: nothing where no primitive
/// is hit, else the hit of one of them with nothing in `s` hit before it.
pub open spec fn closest_in<H, P: Fn(usize, u64) -> Option<(u64, H)>>(
    prim_hit: P,
    s: Seq<usize>,
    t_max: u64,
    r: Option<(u64, H)>,
) -> bool {
    match r {
        None => forall|i: int| 0 <= i < s.len() ==> prim_out(prim_hit, s[i], t_max) is None,
        Some(h) => {
            &&& h.0 < t_max
            &&& exists|i: int| 0 <= i < s.len() && prim_out(prim_hit, s[i], t_max) == Some(h)
            &&& forall|i: int| 0 <= i < s.len() ==> prim_out(prim_hit, s[i], h.0) is None
        },
    }
}

/// The brute-force scan finds the closest hit.
pub proof fn lemma_scan_closest<H, P: Fn(usize, u64) -> Option<(u64, H)>>(
    prim_hit: P,
    s: Seq<usize>,
    t_max: u64,
)
    requires
        closest_hit_query(prim_hit),
    ensures
        closest_in(prim_hit, s, t_max, scan(prim_hit, s, t_max, None).1),
    decreases s.len(),
{
    if s.len() > 0 {
        let rest = s.drop_first();
        assert forall|i: int| 0 <= i < rest.len() implies rest[i] == s[i + 1] by {}
        match prim_out(prim_hit, s[0], t_max) {
            Some(h) => {
                lemma_scan_closest(prim_hit, rest, h.0);
                lemma_scan_acc(prim_hit, rest, h.0, Some(h));
                let r = scan(prim_hit, rest, h.0, None).1;
                match r {
                    Some(h2) => {
                        let i2 = choose|i: int|
                            0 <= i < rest.len() && prim_out(prim_hit, rest[i], h.0) == Some(h2);
                        assert(prim_out(prim_hit, rest[i2], t_max) == Some(h2));
                        assert(prim_out(prim_hit, s[i2 + 1], t_max) == Some(h2));
                        assert forall|i: int| 0 <= i < s.len() implies prim_out(
                            prim_hit,
                            s[i],
                            h2.0,
                        ) is None by {
                            if i == 0 {
                                if let Some(x) = prim_out(prim_hit, s[0], h2.0) {
                                    assert(prim_out(prim_hit, s[0], t_max) == Some(x));
                                }
                            } else {
                                assert(s[i] == rest[i - 1]);
                            }
                        }
                    },
                    None => {
                        assert(prim_out(prim_hit, s[0], t_max) == Some(h));
                        assert forall|i: int| 0 <= i < s.len() implies prim_out(
                            prim_hit,
                            s[i],
                            h.0,
                        ) is None by {
                            if i == 0 {
                                if let Some(x) = prim_out(prim_hit, s[0], h.0) {
                                    assert(prim_out(prim_hit, s[0], t_max) == Some(x));
                                }
                            } else {
                                assert(s[i] == rest[i - 1]);
                            }
                        }
                    },
                }
            },
            None => {
                lemma_scan_closest(prim_hit, rest, t_max);
                let r = scan(prim_hit, rest, t_max, None).1;
                match r {
                    Some(h2) => {
                        let i2 = choose|i: int|
                            0 <= i < rest.len() && prim_out(prim_hit, rest[i], t_max) == Some(h2);
                        assert(prim_out(prim_hit, s[i2 + 1], t_max) == Some(h2));
                        assert forall|i: int| 0 <= i < s.len() implies prim_out(
                            prim_hit,
                            s[i],
                            h2.0,
                        ) is None by {
                            if i == 0 {
                                assert(prim_out(prim_hit, s[0], t_max) is None);
                            } else {
                                assert(s[i] == rest[i - 1]);
                            }
                        }
                    },
                    None => {
                        assert forall|i: int| 0 <= i < s.len() implies prim_out(
                            prim_hit,
                            s[i],
                            t_max,
                        ) is None by {
                            if i > 0 {
                                assert(s[i] == rest[i - 1]);
                            }
                        }
                    },
                }
            },
        }
    }
}

/// Two closest hits among the same primitives agree: both exist or neither
/// does, at one distance; and where no two of the primitives are hit at one
/// distance, they are the same hit.
pub proof fn lemma_closest_unique<H, P: Fn(usize, u64) -> Option<(u64, H)>>(
    prim_hit: P,
    s1: Seq<usize>,
    s2: Seq<usize>,
    t_max: u64,
    r1: Option<(u64, H)>,
    r2: Option<(u64, H)>,
)
    requires
        closest_hit_query(prim_hit),
        forall|p: usize| s1.contains(p) <==> s2.contains(p),
        closest_in(prim_hit, s1, t_max, r1),
        closest_in(prim_hit, s2, t_max, r2),
    ensures
        r1 is None <==> r2 is None,
        r1 matches Some(h1) ==> r2 matches Some(h2) && h1.0 == h2.0,
        no_ties(prim_hit, s1, t_max) ==> r1 == r2,
{
    match (r1, r2) {
        (Some(h1), Some(h2)) => {
            let i1 = choose|i: int| 0 <= i < s1.len() && prim_out(prim_hit, s1[i], t_max) == Some(h1);
            let i2 = choose|i: int| 0 <= i < s2.len() && prim_out(prim_hit, s2[i], t_max) == Some(h2);
            assert(s1.contains(s1[i1]));
            assert(s2.contains(s2[i2]));
            let j1 = choose|j: int| 0 <= j < s2.len() && s2[j] == s1[i1];
            let j2 = choose|j: int| 0 <= j < s1.len() && s1[j] == s2[i2];
            assert(prim_out(prim_hit, s2[j1], h2.0) is None);
            assert(prim_out(prim_hit, s1[j2], h1.0) is None);
            if h1.0 < h2.0 {
                assert(prim_out(prim_hit, s1[i1], h2.0) == Some(h1));
            }
            if h2.0 < h1.0 {
                assert(prim_out(prim_hit, s2[i2], h1.0) == Some(h2));
            }
            if no_ties(prim_hit, s1, t_max) {
                assert(prim_out(prim_hit, s1[j2], t_max) == Some(h2));
            }
        },
        (Some(h1), None) => {
            let i1 = choose|i: int| 0 <= i < s1.len() && prim_out(prim_hit, s1[i], t_max) == Some(h1);
            assert(s1.contains(s1[i1]));
            let j1 = choose|j: int| 0 <= j < s2.len() && s2[j] == s1[i1];
            assert(prim_out(prim_hit, s2[j1], t_max) is None);
        },
        (None, Some(h2)) => {
            let i2 = choose|i: int| 0 <= i < s2.len() && prim_out(prim_hit, s2[i], t_max) == Some(h2);
            assert(s2.contains(s2[i2]));
            let j2 = choose|j: int| 0 <= j < s1.len() && s1[j] == s2[i2];
            assert(prim_out(prim_hit, s1[j2], t_max) is None);
        },
        (None, None) => {},
    }
}

/// No two different primitives of `s` are hit at one distance below `t_max`.
pub open spec fn no_ties<H, P: Fn(usize, u64) -> Option<(u64, H)>>(
    prim_hit: P,
    s: Seq<usize>,
    t_max: u64,
) -> bool {
    forall|i: int, j: int|
        0 <= i < s.len() && 0 <= j < s.len() && s[i] != s[j] && prim_out(prim_hit, s[i], t_max) is Some
            && prim_out(prim_hit, s[j], t_max) is Some ==> prim_out(prim_hit, s[i], t_max).unwrap().0
            != prim_out(prim_hit, s[j], t_max).unwrap().0
}

/// Closest hit below `t_max` among primitives `0..count`, asked in order,
/// each below the distance of the last hit found: the brute-force scan.
pub fn hit_list<H, P: Fn(usize, u64) -> Option<(u64, H)>>(
    count: usize,
    t_max: u64,
    prim_hit: &P,
) -> (r: Option<(u64, H)>)
    requires
        forall|p: usize, t: u64| prim_hit.requires((p, t)),
        deterministic(*prim_hit),
    ensures
        r == scan(*prim_hit, indices(count as nat), t_max, None).1,
{
    let mut closest: u64 = t_max;
    let mut rec: Option<(u64, H)> = None;
    let mut i: usize = 0;
    while i < count
        invariant
            i <= count,
            forall|p: usize, t: u64| prim_hit.requires((p, t)),
            deterministic(*prim_hit),
            scan(*prim_hit, indices(i as nat), t_max, None) == (closest, rec),
        decreases count - i,
    {
        let found = prim_hit(i, closest);
        proof {
            lemma_call_is_out(*prim_hit, i, closest, found);
            assert(indices((i + 1) as nat) =~= indices(i as nat) + seq![i]);
            lemma_scan_append(*prim_hit, indices(i as nat), seq![i], t_max, None);
            assert(seq![i].drop_first() =~= Seq::<usize>::empty());
            reveal_with_fuel(scan, 2);
        }
        match found {
            Some(h) => {
                closest = h.0;
                rec = Some(h);
            },
            None => {},
        }
        i = i + 1;
    }
    rec
}

} // verus!
