//! The track extractor.
//!
//! A small state machine walks the document's XML events once, forward.
//! An opening point tag starts a fresh scratch record from its first two
//! attributes (latitude, then longitude); elevation and time children fill
//! the scratch; the closing point tag turns the scratch into one
//! `TrackPoint`. The spec functions `step` and `run` are the machine's
//! definition, and `extract`'s result is pinned to `run` over the
//! document's event sequence.

use vstd::prelude::*;

use crate::ParseError;
use crate::events::{Tok, XmlEvent, doc_events, next_event, open_reader, pending_events};
use crate::fixed::{Fixed, parse_fixed, spec_parse_fixed};
use crate::tstamp::{Timestamp, parse_rfc3339, rfc3339_timestamp};

verus! {

/// One recorded GPS fix.
#[derive(Clone, Copy, Debug, PartialEq, Eq, Structural)]
pub struct TrackPoint {
    pub latitude: Fixed,
    pub longitude: Fixed,
    pub elevation: Fixed,
    pub time: Timestamp,
}

/// What the next text event means.
#[derive(Clone, Copy, Debug, PartialEq, Eq, Structural)]
pub enum Mode {
    Start,
    InPoint,
    InElevation,
    InTime,
}

/// The scratch record accumulated between a point's opening and closing tag.
pub struct Scratch {
    pub latitude: Fixed,
    pub longitude: Fixed,
    pub elevation: Fixed,
    pub time_text: Option<String>,
}

/// The mathematical shape of a `Scratch`.
pub struct ScratchView {
    pub latitude: Fixed,
    pub longitude: Fixed,
    pub elevation: Fixed,
    pub time_text: Option<Seq<char>>,
}

impl View for Scratch {
    type V = ScratchView;

    open spec fn view(&self) -> ScratchView {
        ScratchView {
            latitude: self.latitude,
            longitude: self.longitude,
            elevation: self.elevation,
            time_text: match self.time_text {
                Some(s) => Some(s@),
                None => None,
            },
        }
    }
}

/// The whole state of the extractor between two events.
pub struct Machine {
    pub mode: Mode,
    pub scratch: ScratchView,
    pub seen: Seq<TrackPoint>,
}

pub open spec fn point_tag() -> Seq<char> {
    "trkpt"@
}

pub open spec fn ele_tag() -> Seq<char> {
    "ele"@
}

pub open spec fn time_tag() -> Seq<char> {
    "time"@
}

/// The scratch record a point's opening tag starts.
pub open spec fn fresh_scratch(la: i64, lo: i64) -> ScratchView {
    ScratchView {
        latitude: Fixed { nanos: la },
        longitude: Fixed { nanos: lo },
        elevation: Fixed { nanos: 0 },
        time_text: None,
    }
}

/// One transition of the extractor: the spec of `step_exec`.
pub open spec fn step(m: Machine, t: Tok) -> Result<Machine, ParseError> {
    match t {
        Tok::Open { name, attrs } => {
            if name == point_tag() {
                if attrs.len() < 2 {
                    Err(ParseError::MissingOrInvalidCoordinate)
                } else {
                    match spec_parse_fixed(attrs[0]) {
                        Some(la) => match spec_parse_fixed(attrs[1]) {
                            Some(lo) => Ok(
                                Machine {
                                    mode: Mode::InPoint,
                                    scratch: fresh_scratch(la as i64, lo as i64),
                                    seen: m.seen,
                                },
                            ),
                            None => Err(ParseError::MissingOrInvalidCoordinate),
                        },
                        None => Err(ParseError::MissingOrInvalidCoordinate),
                    }
                }
            } else if name == ele_tag() {
                Ok(Machine { mode: Mode::InElevation, scratch: m.scratch, seen: m.seen })
            } else if name == time_tag() {
                if m.mode == Mode::Start {
                    Ok(m)
                } else {
                    Ok(Machine { mode: Mode::InTime, scratch: m.scratch, seen: m.seen })
                }
            } else {
                Ok(m)
            }
        },
        Tok::Close { name } => {
            if name == point_tag() {
                match m.scratch.time_text {
                    Some(tt) => match rfc3339_timestamp(tt) {
                        Some(ts) => Ok(
                            Machine {
                                mode: Mode::InPoint,
                                scratch: m.scratch,
                                seen: m.seen.push(
                                    TrackPoint {
                                        latitude: m.scratch.latitude,
                                        longitude: m.scratch.longitude,
                                        elevation: m.scratch.elevation,
                                        time: ts,
                                    },
                                ),
                            },
                        ),
                        None => Err(ParseError::InvalidTimestamp),
                    },
                    None => Err(ParseError::InvalidTimestamp),
                }
            } else {
                Ok(m)
            }
        },
        Tok::Text { body } => {
            match m.mode {
                Mode::InElevation => match spec_parse_fixed(body) {
                    Some(e) => Ok(
                        Machine {
                            mode: m.mode,
                            scratch: ScratchView {
                                latitude: m.scratch.latitude,
                                longitude: m.scratch.longitude,
                                elevation: Fixed { nanos: e as i64 },
                                time_text: m.scratch.time_text,
                            },
                            seen: m.seen,
                        },
                    ),
                    None => Err(ParseError::InvalidElevation),
                },
                Mode::InTime => Ok(
                    Machine {
                        mode: m.mode,
                        scratch: ScratchView {
                            latitude: m.scratch.latitude,
                            longitude: m.scratch.longitude,
                            elevation: m.scratch.elevation,
                            time_text: Some(body),
                        },
                        seen: m.seen,
                    },
                ),
                _ => Ok(m),
            }
        },
        Tok::Skip => Ok(m),
        Tok::Bad => Err(ParseError::MalformedDocument),
        Tok::End => Ok(m),
    }
}

/// Runs the machine over an event sequence, stopping at the end marker.
pub open spec fn run(m: Machine, toks: Seq<Tok>) -> Result<Machine, ParseError>
    decreases toks.len(),
{
    if toks.len() == 0 {
        Ok(m)
    } else {
        match toks[0] {
            Tok::End => Ok(m),
            _ => match step(m, toks[0]) {
                Ok(m2) => run(m2, toks.drop_first()),
                Err(e) => Err(e),
            },
        }
    }
}

/// The machine before the first event.
pub open spec fn init_machine() -> Machine {
    Machine { mode: Mode::Start, scratch: fresh_scratch(0, 0), seen: Seq::empty() }
}

/// What extraction yields on a given event sequence.
pub open spec fn toks_extract(toks: Seq<Tok>) -> Result<Seq<TrackPoint>, ParseError> {
    match run(init_machine(), toks) {
        Ok(m) => Ok(m.seen),
        Err(e) => Err(e),
    }
}

/// What extraction yields on a given document text.
pub open spec fn spec_extract(text: Seq<char>) -> Result<Seq<TrackPoint>, ParseError> {
    toks_extract(doc_events(text))
}

/// Whether `name` spells out `tag`.
fn is_tag(name: &String, tag: &str) -> (r: bool)
    ensures
        r == (name@ == tag@),
{
    let t: String = tag.to_owned();
    *name == t
}

/// One transition of the extractor, exactly as `step` says.
#[verifier::loop_isolation(false)]
fn step_exec(mode: Mode, scratch: &mut Scratch, out: &mut Vec<TrackPoint>, ev: XmlEvent) -> (r:
    Result<Mode, ParseError>)
    ensures
        match r {
            Ok(m2) => step(Machine { mode, scratch: old(scratch)@, seen: old(out)@ }, ev@) == Ok::<
                Machine,
                ParseError,
            >(Machine { mode: m2, scratch: final(scratch)@, seen: final(out)@ }),
            Err(e) => step(Machine { mode, scratch: old(scratch)@, seen: old(out)@ }, ev@) == Err::<
                Machine,
                ParseError,
            >(e),
        },
{
    match ev {
        XmlEvent::Open { name, attrs } => {
            if is_tag(&name, "trkpt") {
                if attrs.len() < 2 {
                    return Err(ParseError::MissingOrInvalidCoordinate);
                }
                let la = parse_fixed(attrs[0].as_str());
                let lo = parse_fixed(attrs[1].as_str());
                proof {
                    assert(attrs.deep_view()[0] == attrs@[0]@);
                    assert(attrs.deep_view()[1] == attrs@[1]@);
                }
                match la {
                    Some(la) => match lo {
                        Some(lo) => {
                            *scratch = Scratch {
                                latitude: Fixed { nanos: la },
                                longitude: Fixed { nanos: lo },
                                elevation: Fixed { nanos: 0 },
                                time_text: None,
                            };
                            Ok(Mode::InPoint)
                        },
                        None => Err(ParseError::MissingOrInvalidCoordinate),
                    },
                    None => Err(ParseError::MissingOrInvalidCoordinate),
                }
            } else if is_tag(&name, "ele") {
                Ok(Mode::InElevation)
            } else if is_tag(&name, "time") {
                if mode == Mode::Start {
                    Ok(mode)
                } else {
                    Ok(Mode::InTime)
                }
            } else {
                Ok(mode)
            }
        },
        XmlEvent::Close { name } => {
            if is_tag(&name, "trkpt") {
                match &scratch.time_text {
                    Some(tt) => match parse_rfc3339(tt.as_str()) {
                        Some(ts) => {
                            out.push(
                                TrackPoint {
                                    latitude: scratch.latitude,
                                    longitude: scratch.longitude,
                                    elevation: scratch.elevation,
                                    time: ts,
                                },
                            );
                            Ok(Mode::InPoint)
                        },
                        None => Err(ParseError::InvalidTimestamp),
                    },
                    None => Err(ParseError::InvalidTimestamp),
                }
            } else {
                Ok(mode)
            }
        },
        XmlEvent::Text { body } => {
            match mode {
                Mode::InElevation => match parse_fixed(body.as_str()) {
                    Some(e) => {
                        scratch.elevation = Fixed { nanos: e };
                        Ok(mode)
                    },
                    None => Err(ParseError::InvalidElevation),
                },
                Mode::InTime => {
                    scratch.time_text = Some(body);
                    Ok(mode)
                },
                _ => Ok(mode),
            }
        },
        XmlEvent::Skip => Ok(mode),
        XmlEvent::Bad => Err(ParseError::MalformedDocument),
        XmlEvent::End => Ok(mode),
    }
}

/// Extracts every track point of the document, in document order.
///
/// The result is a function of the text alone: it equals `spec_extract`
/// on the text's characters, for errors and points alike.
#[verifier::loop_isolation(false)]
pub fn extract(text: &str) -> (r: Result<Vec<TrackPoint>, ParseError>)
    ensures
        match r {
            Ok(pts) => spec_extract(text@) == Ok::<Seq<TrackPoint>, ParseError>(pts@),
            Err(e) => spec_extract(text@) == Err::<Seq<TrackPoint>, ParseError>(e),
        },
{
    let mut reader = open_reader(text);
    let mut mode = Mode::Start;
    let mut scratch = Scratch {
        latitude: Fixed { nanos: 0 },
        longitude: Fixed { nanos: 0 },
        elevation: Fixed { nanos: 0 },
        time_text: None,
    };
    let mut out: Vec<TrackPoint> = Vec::new();
    proof {
        assert(out@ =~= Seq::<TrackPoint>::empty());
    }
    loop
        invariant
            run(Machine { mode, scratch: scratch@, seen: out@ }, pending_events(reader)) == run(
                init_machine(),
                doc_events(text@),
            ),
        decreases pending_events(reader).len(),
    {
        let ghost pending0: Seq<Tok> = pending_events(reader);
        let ev = next_event(&mut reader);
        match ev {
            XmlEvent::End => {
                return Ok(out);
            },
            _ => {
                proof {
                    assert(pending0.len() > 0);
                }
                match step_exec(mode, &mut scratch, &mut out, ev) {
                    Ok(m2) => {
                        mode = m2;
                    },
                    Err(e) => {
                        return Err(e);
                    },
                }
            },
        }
    }
}

} // verus!
