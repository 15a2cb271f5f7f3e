//! The statistics reducer.
//!
//! One linear fold over the extracted points, keeping a running minimum
//! and maximum of elevation, latitude and longitude. Extremes are seeded
//! from the first point, so an empty track has no summary rather than a
//! sentinel one. Comparisons are strict: ties keep the earlier value,
//! which for the extreme itself makes no difference.

use vstd::prelude::*;

use crate::extract::TrackPoint;
use crate::fixed::Fixed;

verus! {

/// The extremes of one whole track.
#[derive(Clone, Copy, Debug, PartialEq, Eq, Structural)]
pub struct Summary {
    pub min_elevation: Fixed,
    pub max_elevation: Fixed,
    pub min_latitude: Fixed,
    pub max_latitude: Fixed,
    pub min_longitude: Fixed,
    pub max_longitude: Fixed,
}

pub open spec fn elevations(s: Seq<TrackPoint>) -> Seq<int> {
    s.map_values(|p: TrackPoint| p.elevation.nanos as int)
}

pub open spec fn latitudes(s: Seq<TrackPoint>) -> Seq<int> {
    s.map_values(|p: TrackPoint| p.latitude.nanos as int)
}

pub open spec fn longitudes(s: Seq<TrackPoint>) -> Seq<int> {
    s.map_values(|p: TrackPoint| p.longitude.nanos as int)
}

/// The least value of a non-empty sequence, folded left to right.
pub open spec fn seq_min(s: Seq<int>) -> int
    recommends
        s.len() > 0,
    decreases s.len(),
{
    if s.len() <= 1 {
        s[0]
    } else {
        let m = seq_min(s.drop_last());
        if s.last() < m {
            s.last()
        } else {
            m
        }
    }
}

/// The greatest value of a non-empty sequence, folded left to right.
pub open spec fn seq_max(s: Seq<int>) -> int
    recommends
        s.len() > 0,
    decreases s.len(),
{
    if s.len() <= 1 {
        s[0]
    } else {
        let m = seq_max(s.drop_last());
        if s.last() > m {
            s.last()
        } else {
            m
        }
    }
}

/// What `reduce` yields: no summary for an empty track, else the six
/// extremes of the track's points.
pub open spec fn spec_reduce(s: Seq<TrackPoint>) -> Option<Summary> {
    if s.len() == 0 {
        None
    } else {
        Some(
            Summary {
                min_elevation: Fixed { nanos: seq_min(elevations(s)) as i64 },
                max_elevation: Fixed { nanos: seq_max(elevations(s)) as i64 },
                min_latitude: Fixed { nanos: seq_min(latitudes(s)) as i64 },
                max_latitude: Fixed { nanos: seq_max(latitudes(s)) as i64 },
                min_longitude: Fixed { nanos: seq_min(longitudes(s)) as i64 },
                max_longitude: Fixed { nanos: seq_max(longitudes(s)) as i64 },
            },
        )
    }
}

/// The lesser of a candidate and the running minimum, strictly compared.
fn min_fixed(candidate: Fixed, current: Fixed) -> (r: Fixed)
    ensures
        r.nanos == if candidate.nanos < current.nanos {
            candidate.nanos
        } else {
            current.nanos
        },
{
    if candidate.nanos < current.nanos {
        candidate
    } else {
        current
    }
}

/// The greater of a candidate and the running maximum, strictly compared.
fn max_fixed(candidate: Fixed, current: Fixed) -> (r: Fixed)
    ensures
        r.nanos == if candidate.nanos > current.nanos {
            candidate.nanos
        } else {
            current.nanos
        },
{
    if candidate.nanos > current.nanos {
        candidate
    } else {
        current
    }
}

/// Folds the points into their summary: `None` exactly on an empty track,
/// otherwise the six extremes, each pinned to `seq_min` / `seq_max`.
#[verifier::loop_isolation(false)]
pub fn reduce(points: &Vec<TrackPoint>) -> (r: Option<Summary>)
    ensures
        r == spec_reduce(points@),
{
    if points.len() == 0 {
        return None;
    }
    let first = points[0];
    let mut s = Summary {
        min_elevation: first.elevation,
        max_elevation: first.elevation,
        min_latitude: first.latitude,
        max_latitude: first.latitude,
        min_longitude: first.longitude,
        max_longitude: first.longitude,
    };
    let mut i: usize = 1;
    proof {
        assert(elevations(points@.subrange(0, 1)) =~= seq![points@[0].elevation.nanos as int]);
        assert(latitudes(points@.subrange(0, 1)) =~= seq![points@[0].latitude.nanos as int]);
        assert(longitudes(points@.subrange(0, 1)) =~= seq![points@[0].longitude.nanos as int]);
    }
    while i < points.len()
        invariant
            1 <= i <= points@.len(),
            s.min_elevation.nanos == seq_min(elevations(points@.subrange(0, i as int))),
            s.max_elevation.nanos == seq_max(elevations(points@.subrange(0, i as int))),
            s.min_latitude.nanos == seq_min(latitudes(points@.subrange(0, i as int))),
            s.max_latitude.nanos == seq_max(latitudes(points@.subrange(0, i as int))),
            s.min_longitude.nanos == seq_min(longitudes(points@.subrange(0, i as int))),
            s.max_longitude.nanos == seq_max(longitudes(points@.subrange(0, i as int))),
        decreases points@.len() - i,
    {
        let p = points[i];
        proof {
            let pre = points@.subrange(0, i as int);
            let post = points@.subrange(0, i as int + 1);
            assert(post =~= pre.push(points@[i as int]));
            assert(elevations(post) =~= elevations(pre).push(points@[i as int].elevation.nanos as int));
            assert(latitudes(post) =~= latitudes(pre).push(points@[i as int].latitude.nanos as int));
            assert(longitudes(post) =~= longitudes(pre).push(points@[i as int].longitude.nanos as int));
            assert(elevations(pre).push(points@[i as int].elevation.nanos as int).drop_last()
                =~= elevations(pre));
            assert(latitudes(pre).push(points@[i as int].latitude.nanos as int).drop_last()
                =~= latitudes(pre));
            assert(longitudes(pre).push(points@[i as int].longitude.nanos as int).drop_last()
                =~= longitudes(pre));
        }
        s = Summary {
            min_elevation: min_fixed(p.elevation, s.min_elevation),
            max_elevation: max_fixed(p.elevation, s.max_elevation),
            min_latitude: min_fixed(p.latitude, s.min_latitude),
            max_latitude: max_fixed(p.latitude, s.max_latitude),
            min_longitude: min_fixed(p.longitude, s.min_longitude),
            max_longitude: max_fixed(p.longitude, s.max_longitude),
        };
        i = i + 1;
    }
    proof {
        assert(points@.subrange(0, points@.len() as int) =~= points@);
    }
    Some(s)
}

/// The minimum of a non-empty sequence is one of its values and below all.
pub proof fn lemma_seq_min_is_least(s: Seq<int>)
    requires
        s.len() > 0,
    ensures
        s.contains(seq_min(s)),
        forall|i: int| 0 <= i < s.len() ==> seq_min(s) <= #[trigger] s[i],
    decreases s.len(),
{
    if s.len() == 1 {
        assert(s[0] == seq_min(s));
    } else {
        let d = s.drop_last();
        lemma_seq_min_is_least(d);
        let m = seq_min(d);
        if s.last() < m {
            assert(s[s.len() - 1] == seq_min(s));
        } else {
            let j = choose|j: int| 0 <= j < d.len() && d[j] == m;
            assert(s[j] == m);
        }
        assert forall|i: int| 0 <= i < s.len() implies seq_min(s) <= #[trigger] s[i] by {
            if i < s.len() - 1 {
                assert(s[i] == d[i]);
            }
        }
    }
}

/// The maximum of a non-empty sequence is one of its values and above all.
pub proof fn lemma_seq_max_is_greatest(s: Seq<int>)
    requires
        s.len() > 0,
    ensures
        s.contains(seq_max(s)),
        forall|i: int| 0 <= i < s.len() ==> seq_max(s) >= #[trigger] s[i],
    decreases s.len(),
{
    if s.len() == 1 {
        assert(s[0] == seq_max(s));
    } else {
        let d = s.drop_last();
        lemma_seq_max_is_greatest(d);
        let m = seq_max(d);
        if s.last() > m {
            assert(s[s.len() - 1] == seq_max(s));
        } else {
            let j = choose|j: int| 0 <= j < d.len() && d[j] == m;
            assert(s[j] == m);
        }
        assert forall|i: int| 0 <= i < s.len() implies seq_max(s) >= #[trigger] s[i] by {
            if i < s.len() - 1 {
                assert(s[i] == d[i]);
            }
        }
    }
}

/// Two sequences with the same values have the same extremes.
proof fn lemma_extremes_same_values(a: Seq<int>, b: Seq<int>)
    requires
        a.len() > 0,
        b.len() > 0,
        forall|v: int| #[trigger] a.contains(v) <==> b.contains(v),
    ensures
        seq_min(a) == seq_min(b),
        seq_max(a) == seq_max(b),
{
    lemma_seq_min_is_least(a);
    lemma_seq_min_is_least(b);
    lemma_seq_max_is_greatest(a);
    lemma_seq_max_is_greatest(b);
    let ia = choose|i: int| 0 <= i < a.len() && a[i] == seq_min(a);
    let ib = choose|i: int| 0 <= i < b.len() && b[i] == seq_min(b);
    assert(b.contains(seq_min(a)));
    assert(a.contains(seq_min(b)));
    let ja = choose|j: int| 0 <= j < a.len() && a[j] == seq_min(b);
    let jb = choose|j: int| 0 <= j < b.len() && b[j] == seq_min(a);
    assert(seq_min(a) <= a[ja] && seq_min(b) <= b[jb]);
    let ka = choose|k: int| 0 <= k < a.len() && a[k] == seq_max(b);
    let kb = choose|k: int| 0 <= k < b.len() && b[k] == seq_max(a);
    assert(b.contains(seq_max(a)));
    assert(a.contains(seq_max(b)));
    assert(seq_max(a) >= a[ka] && seq_max(b) >= b[kb]);
}

/// Every projected value of `a` also occurs in the projection of `b`.
proof fn lemma_projections_carry_over(a: Seq<TrackPoint>, b: Seq<TrackPoint>)
    requires
        a.to_multiset() == b.to_multiset(),
    ensures
        forall|v: int| #[trigger] elevations(a).contains(v) ==> elevations(b).contains(v),
        forall|v: int| #[trigger] latitudes(a).contains(v) ==> latitudes(b).contains(v),
        forall|v: int| #[trigger] longitudes(a).contains(v) ==> longitudes(b).contains(v),
{
    broadcast use vstd::seq_lib::group_to_multiset_ensures;

    assert forall|v: int| #[trigger] elevations(a).contains(v) implies elevations(b).contains(
        v,
    ) by {
        let i = choose|i: int| 0 <= i < elevations(a).len() && elevations(a)[i] == v;
        assert(a.contains(a[i]));
        assert(b.to_multiset().count(a[i]) > 0);
        let j = choose|j: int| 0 <= j < b.len() && b[j] == a[i];
        assert(elevations(b)[j] == v);
    }
    assert forall|v: int| #[trigger] latitudes(a).contains(v) implies latitudes(b).contains(v) by {
        let i = choose|i: int| 0 <= i < latitudes(a).len() && latitudes(a)[i] == v;
        assert(a.contains(a[i]));
        assert(b.to_multiset().count(a[i]) > 0);
        let j = choose|j: int| 0 <= j < b.len() && b[j] == a[i];
        assert(latitudes(b)[j] == v);
    }
    assert forall|v: int| #[trigger] longitudes(a).contains(v) implies longitudes(b).contains(
        v,
    ) by {
        let i = choose|i: int| 0 <= i < longitudes(a).len() && longitudes(a)[i] == v;
        assert(a.contains(a[i]));
        assert(b.to_multiset().count(a[i]) > 0);
        let j = choose|j: int| 0 <= j < b.len() && b[j] == a[i];
        assert(longitudes(b)[j] == v);
    }
}

/// Law: the summary does not depend on the order of the points. Any
/// permutation of the input — any sequence with the same multiset of
/// points — reduces to the same six extremes.
pub proof fn lemma_reduce_order_independent(a: Seq<TrackPoint>, b: Seq<TrackPoint>)
    requires
        a.to_multiset() == b.to_multiset(),
    ensures
        spec_reduce(a) == spec_reduce(b),
{
    broadcast use vstd::seq_lib::group_to_multiset_ensures;

    assert(a.to_multiset().len() == a.len());
    assert(b.to_multiset().len() == b.len());
    if a.len() > 0 {
        lemma_projections_carry_over(a, b);
        lemma_projections_carry_over(b, a);
        lemma_extremes_same_values(elevations(a), elevations(b));
        lemma_extremes_same_values(latitudes(a), latitudes(b));
        lemma_extremes_same_values(longitudes(a), longitudes(b));
    }
}

} // verus!
