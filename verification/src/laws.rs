//! Laws of the extractor, stated over event sequences.
//!
//! `point_toks` is the event shape of one complete point element; the
//! lemmas here pin down what `run` — and with it `extract` — makes of
//! whole tracks of such points, of a point that lacks its time child,
//! and of a point-opening tag whose first attribute is not numeric.

use vstd::prelude::*;

use crate::ParseError;
use crate::events::Tok;
use crate::extract::{
    Machine, Mode, ScratchView, TrackPoint, ele_tag, fresh_scratch, init_machine, point_tag, run,
    step, time_tag, toks_extract,
};
use crate::fixed::{Fixed, spec_parse_fixed};
use crate::tstamp::{Timestamp, rfc3339_timestamp};

verus! {

/// The four texts a point element carries.
pub struct PointSrc {
    pub lat_text: Seq<char>,
    pub lon_text: Seq<char>,
    pub ele_text: Seq<char>,
    pub time_text: Seq<char>,
}

/// All four texts parse.
pub open spec fn valid_point(p: PointSrc) -> bool {
    &&& spec_parse_fixed(p.lat_text) is Some
    &&& spec_parse_fixed(p.lon_text) is Some
    &&& spec_parse_fixed(p.ele_text) is Some
    &&& rfc3339_timestamp(p.time_text) is Some
}

pub open spec fn parsed_nanos(t: Seq<char>) -> i64 {
    match spec_parse_fixed(t) {
        Some(v) => v as i64,
        None => 0,
    }
}

pub open spec fn parsed_time(t: Seq<char>) -> Timestamp {
    match rfc3339_timestamp(t) {
        Some(ts) => ts,
        None => Timestamp { seconds: 0, offset_seconds: 0 },
    }
}

/// The events of one complete point element.
pub open spec fn point_toks(p: PointSrc) -> Seq<Tok> {
    seq![
        Tok::Open { name: point_tag(), attrs: seq![p.lat_text, p.lon_text] },
        Tok::Open { name: ele_tag(), attrs: Seq::empty() },
        Tok::Text { body: p.ele_text },
        Tok::Close { name: ele_tag() },
        Tok::Open { name: time_tag(), attrs: Seq::empty() },
        Tok::Text { body: p.time_text },
        Tok::Close { name: time_tag() },
        Tok::Close { name: point_tag() },
    ]
}

/// The record such a point element yields.
pub open spec fn point_of(p: PointSrc) -> TrackPoint {
    TrackPoint {
        latitude: Fixed { nanos: parsed_nanos(p.lat_text) },
        longitude: Fixed { nanos: parsed_nanos(p.lon_text) },
        elevation: Fixed { nanos: parsed_nanos(p.ele_text) },
        time: parsed_time(p.time_text),
    }
}

/// The scratch record left behind after the point closed.
pub open spec fn scratch_after(p: PointSrc) -> ScratchView {
    ScratchView {
        latitude: Fixed { nanos: parsed_nanos(p.lat_text) },
        longitude: Fixed { nanos: parsed_nanos(p.lon_text) },
        elevation: Fixed { nanos: parsed_nanos(p.ele_text) },
        time_text: Some(p.time_text),
    }
}

/// The events of a whole track, one point element after the other.
pub open spec fn track_toks(ps: Seq<PointSrc>) -> Seq<Tok>
    decreases ps.len(),
{
    if ps.len() == 0 {
        Seq::empty()
    } else {
        point_toks(ps[0]) + track_toks(ps.drop_first())
    }
}

pub open spec fn points_of(ps: Seq<PointSrc>) -> Seq<TrackPoint> {
    ps.map_values(|p: PointSrc| point_of(p))
}

/// Running the machine over `a + b` is running it over `a`, then over `b`,
/// as long as `a` holds no end marker.
pub proof fn lemma_run_append(m: Machine, a: Seq<Tok>, b: Seq<Tok>)
    requires
        forall|i: int| 0 <= i < a.len() ==> !(#[trigger] a[i] is End),
    ensures
        run(m, a + b) == (match run(m, a) {
            Ok(m2) => run(m2, b),
            Err(e) => Err::<Machine, ParseError>(e),
        }),
    decreases a.len(),
{
    if a.len() == 0 {
        assert(a + b =~= b);
    } else {
        assert((a + b)[0] == a[0]);
        match step(m, a[0]) {
            Ok(m2) => {
                assert((a + b).drop_first() =~= a.drop_first() + b);
                lemma_run_append(m2, a.drop_first(), b);
            },
            Err(_) => {
            },
        }
    }
}

/// One valid point element moves the machine — whatever state it was in —
/// to `InPoint` with the point's scratch, and appends exactly its record.
#[verifier::rlimit(100)]
pub proof fn lemma_run_point(m: Machine, p: PointSrc)
    requires
        valid_point(p),
    ensures
        run(m, point_toks(p)) == Ok::<Machine, ParseError>(
            Machine {
                mode: Mode::InPoint,
                scratch: scratch_after(p),
                seen: m.seen.push(point_of(p)),
            },
        ),
{
    reveal_strlit("trkpt");
    reveal_strlit("ele");
    reveal_strlit("time");
    assert("trkpt"@.len() == 5 && "ele"@.len() == 3 && "time"@.len() == 4);
    assert(ele_tag() != point_tag() && time_tag() != point_tag() && time_tag() != ele_tag());
    let t0 = Tok::Open { name: point_tag(), attrs: seq![p.lat_text, p.lon_text] };
    let t1 = Tok::Open { name: ele_tag(), attrs: Seq::<Seq<char>>::empty() };
    let t2 = Tok::Text { body: p.ele_text };
    let t3 = Tok::Close { name: ele_tag() };
    let t4 = Tok::Open { name: time_tag(), attrs: Seq::<Seq<char>>::empty() };
    let t5 = Tok::Text { body: p.time_text };
    let t6 = Tok::Close { name: time_tag() };
    let t7 = Tok::Close { name: point_tag() };
    let s = point_toks(p);
    assert(s.drop_first() =~= seq![t1, t2, t3, t4, t5, t6, t7]);
    assert(seq![t1, t2, t3, t4, t5, t6, t7].drop_first() =~= seq![t2, t3, t4, t5, t6, t7]);
    assert(seq![t2, t3, t4, t5, t6, t7].drop_first() =~= seq![t3, t4, t5, t6, t7]);
    assert(seq![t3, t4, t5, t6, t7].drop_first() =~= seq![t4, t5, t6, t7]);
    assert(seq![t4, t5, t6, t7].drop_first() =~= seq![t5, t6, t7]);
    assert(seq![t5, t6, t7].drop_first() =~= seq![t6, t7]);
    assert(seq![t6, t7].drop_first() =~= seq![t7]);
    assert(seq![t7].drop_first() =~= Seq::<Tok>::empty());
    let la = parsed_nanos(p.lat_text);
    let lo = parsed_nanos(p.lon_text);
    let m1 = Machine { mode: Mode::InPoint, scratch: fresh_scratch(la, lo), seen: m.seen };
    let sc2 = ScratchView {
        latitude: Fixed { nanos: la },
        longitude: Fixed { nanos: lo },
        elevation: Fixed { nanos: parsed_nanos(p.ele_text) },
        time_text: None,
    };
    let m2 = Machine { mode: Mode::InElevation, scratch: m1.scratch, seen: m.seen };
    let m3 = Machine { mode: Mode::InElevation, scratch: sc2, seen: m.seen };
    let m5 = Machine { mode: Mode::InTime, scratch: sc2, seen: m.seen };
    let m6 = Machine { mode: Mode::InTime, scratch: scratch_after(p), seen: m.seen };
    assert(step(m, t0) == Ok::<Machine, ParseError>(m1));
    assert(step(m1, t1) == Ok::<Machine, ParseError>(m2));
    assert(step(m2, t2) == Ok::<Machine, ParseError>(m3));
    assert(step(m3, t3) == Ok::<Machine, ParseError>(m3));
    assert(step(m3, t4) == Ok::<Machine, ParseError>(m5));
    assert(step(m5, t5) == Ok::<Machine, ParseError>(m6));
    assert(step(m6, t6) == Ok::<Machine, ParseError>(m6));
    assert(step(m6, t7) == Ok::<Machine, ParseError>(
        Machine {
            mode: Mode::InPoint,
            scratch: scratch_after(p),
            seen: m.seen.push(point_of(p)),
        },
    ));
    assert(run(m, s) == run(m1, seq![t1, t2, t3, t4, t5, t6, t7]));
    assert(run(m1, seq![t1, t2, t3, t4, t5, t6, t7]) == run(m2, seq![t2, t3, t4, t5, t6, t7]));
    assert(run(m2, seq![t2, t3, t4, t5, t6, t7]) == run(m3, seq![t3, t4, t5, t6, t7]));
    assert(run(m3, seq![t3, t4, t5, t6, t7]) == run(m3, seq![t4, t5, t6, t7]));
    assert(run(m3, seq![t4, t5, t6, t7]) == run(m5, seq![t5, t6, t7]));
    assert(run(m5, seq![t5, t6, t7]) == run(m6, seq![t6, t7]));
    assert(run(m6, seq![t6, t7]) == run(m6, seq![t7]));
    let mf = Machine {
        mode: Mode::InPoint,
        scratch: scratch_after(p),
        seen: m.seen.push(point_of(p)),
    };
    assert(run(mf, Seq::<Tok>::empty()) == Ok::<Machine, ParseError>(mf));
    assert(run(m6, seq![t7]) == run(mf, Seq::<Tok>::empty()));
}

/// No end marker occurs inside a point element's events.
proof fn lemma_point_toks_no_end(p: PointSrc)
    ensures
        forall|i: int| 0 <= i < point_toks(p).len() ==> !(#[trigger] point_toks(p)[i] is End),
{
}

/// Running a whole track of valid points from any state appends exactly
/// their records, in order.
proof fn lemma_run_track(m: Machine, ps: Seq<PointSrc>)
    requires
        forall|i: int| 0 <= i < ps.len() ==> valid_point(#[trigger] ps[i]),
    ensures
        run(m, track_toks(ps)) == Ok::<Machine, ParseError>(
            if ps.len() == 0 {
                m
            } else {
                Machine {
                    mode: Mode::InPoint,
                    scratch: scratch_after(ps.last()),
                    seen: m.seen + points_of(ps),
                }
            },
        ),
    decreases ps.len(),
{
    if ps.len() == 0 {
        assert(track_toks(ps).len() == 0);
    } else {
        let p = ps[0];
        let rest = ps.drop_first();
        lemma_point_toks_no_end(p);
        lemma_run_append(m, point_toks(p), track_toks(rest));
        lemma_run_point(m, p);
        let m1 = Machine {
            mode: Mode::InPoint,
            scratch: scratch_after(p),
            seen: m.seen.push(point_of(p)),
        };
        lemma_run_track(m1, rest);
        if rest.len() == 0 {
            assert(m.seen.push(point_of(p)) =~= m.seen + points_of(ps));
            assert(ps.last() == p);
        } else {
            assert(ps.last() == rest.last());
            assert(m.seen.push(point_of(p)) + points_of(rest) =~= m.seen + points_of(ps));
        }
    }
}

/// Law: a document whose events form `n` valid point elements extracts to
/// exactly those `n` records, in document order.
pub proof fn lemma_extract_full_track(ps: Seq<PointSrc>)
    requires
        forall|i: int| 0 <= i < ps.len() ==> valid_point(#[trigger] ps[i]),
    ensures
        toks_extract(track_toks(ps)) == Ok::<Seq<TrackPoint>, ParseError>(points_of(ps)),
        points_of(ps).len() == ps.len(),
{
    lemma_run_track(init_machine(), ps);
    assert(init_machine().seen + points_of(ps) =~= points_of(ps));
}

/// Law, at the document level: a text whose events form `n` valid point
/// elements extracts to exactly those `n` records, in document order —
/// and so does `extract`, whose result is pinned to `spec_extract`.
pub proof fn lemma_extract_document(text: Seq<char>, ps: Seq<PointSrc>)
    requires
        crate::events::doc_events(text) == track_toks(ps),
        forall|i: int| 0 <= i < ps.len() ==> valid_point(#[trigger] ps[i]),
    ensures
        crate::extract::spec_extract(text) == Ok::<Seq<TrackPoint>, ParseError>(points_of(ps)),
        points_of(ps).len() == ps.len(),
{
    lemma_extract_full_track(ps);
}

/// The events of a point element that has no time child.
pub open spec fn point_toks_no_time(lat_text: Seq<char>, lon_text: Seq<char>, ele_text: Seq<char>) -> Seq<
    Tok,
> {
    seq![
        Tok::Open { name: point_tag(), attrs: seq![lat_text, lon_text] },
        Tok::Open { name: ele_tag(), attrs: Seq::empty() },
        Tok::Text { body: ele_text },
        Tok::Close { name: ele_tag() },
        Tok::Close { name: point_tag() },
    ]
}

/// Law: a point that closes without a time child fails the whole
/// extraction with `InvalidTimestamp` — whatever the machine had seen
/// before, and whatever events would have followed. In particular no
/// record of that point is emitted.
#[verifier::rlimit(100)]
pub proof fn lemma_missing_time_fails(
    m: Machine,
    lat_text: Seq<char>,
    lon_text: Seq<char>,
    ele_text: Seq<char>,
    rest: Seq<Tok>,
)
    requires
        spec_parse_fixed(lat_text) is Some,
        spec_parse_fixed(lon_text) is Some,
        spec_parse_fixed(ele_text) is Some,
    ensures
        run(m, point_toks_no_time(lat_text, lon_text, ele_text) + rest) == Err::<
            Machine,
            ParseError,
        >(ParseError::InvalidTimestamp),
{
    reveal_strlit("trkpt");
    reveal_strlit("ele");
    assert("trkpt"@.len() == 5 && "ele"@.len() == 3);
    assert(ele_tag() != point_tag());
    let t0 = Tok::Open { name: point_tag(), attrs: seq![lat_text, lon_text] };
    let t1 = Tok::Open { name: ele_tag(), attrs: Seq::<Seq<char>>::empty() };
    let t2 = Tok::Text { body: ele_text };
    let t3 = Tok::Close { name: ele_tag() };
    let t4 = Tok::Close { name: point_tag() };
    let s = point_toks_no_time(lat_text, lon_text, ele_text);
    assert(forall|i: int| 0 <= i < s.len() ==> !(#[trigger] s[i] is End));
    lemma_run_append(m, s, rest);
    assert(s.drop_first() =~= seq![t1, t2, t3, t4]);
    assert(seq![t1, t2, t3, t4].drop_first() =~= seq![t2, t3, t4]);
    assert(seq![t2, t3, t4].drop_first() =~= seq![t3, t4]);
    assert(seq![t3, t4].drop_first() =~= seq![t4]);
    let la = parsed_nanos(lat_text);
    let lo = parsed_nanos(lon_text);
    let m1 = Machine { mode: Mode::InPoint, scratch: fresh_scratch(la, lo), seen: m.seen };
    let sc2 = ScratchView {
        latitude: Fixed { nanos: la },
        longitude: Fixed { nanos: lo },
        elevation: Fixed { nanos: parsed_nanos(ele_text) },
        time_text: None,
    };
    let m2 = Machine { mode: Mode::InElevation, scratch: m1.scratch, seen: m.seen };
    let m3 = Machine { mode: Mode::InElevation, scratch: sc2, seen: m.seen };
    assert(step(m, t0) == Ok::<Machine, ParseError>(m1));
    assert(step(m1, t1) == Ok::<Machine, ParseError>(m2));
    assert(step(m2, t2) == Ok::<Machine, ParseError>(m3));
    assert(step(m3, t3) == Ok::<Machine, ParseError>(m3));
    assert(step(m3, t4) == Err::<Machine, ParseError>(ParseError::InvalidTimestamp));
    assert(run(m, s) == run(m1, seq![t1, t2, t3, t4]));
    assert(run(m1, seq![t1, t2, t3, t4]) == run(m2, seq![t2, t3, t4]));
    assert(run(m2, seq![t2, t3, t4]) == run(m3, seq![t3, t4]));
    assert(run(m3, seq![t3, t4]) == run(m3, seq![t4]));
}

/// Law: a point-opening tag whose first attribute is not numeric — or that
/// has fewer than two attributes — fails the whole extraction with
/// `MissingOrInvalidCoordinate`, whatever follows.
pub proof fn lemma_bad_coordinate_fails(m: Machine, attrs: Seq<Seq<char>>, rest: Seq<Tok>)
    requires
        attrs.len() < 2 || spec_parse_fixed(attrs[0]) is None,
    ensures
        run(m, seq![Tok::Open { name: point_tag(), attrs }] + rest) == Err::<Machine, ParseError>(
            ParseError::MissingOrInvalidCoordinate,
        ),
{
    let t0 = Tok::Open { name: point_tag(), attrs };
    let s = seq![t0];
    assert(forall|i: int| 0 <= i < s.len() ==> !(#[trigger] s[i] is End));
    lemma_run_append(m, s, rest);
    assert(step(m, t0) == Err::<Machine, ParseError>(ParseError::MissingOrInvalidCoordinate));
    assert(s.drop_first() =~= Seq::<Tok>::empty());
}

} // verus!

