use vstd::prelude::*;

pub mod config;
pub mod events;
pub mod extract;
pub mod fixed;
pub mod laws;
pub mod reduce;
pub mod tstamp;

use crate::extract::{TrackPoint, extract, spec_extract};
use crate::reduce::{Summary, reduce, spec_reduce};

verus! {

/// Why extraction of a track can fail.
#[derive(Clone, Copy, Debug, PartialEq, Eq, Structural)]
pub enum ParseError {
    MalformedDocument,
    MissingOrInvalidCoordinate,
    InvalidElevation,
    InvalidTimestamp,
}

/// Extracts the document's track points and folds them into their summary:
/// the whole pipeline, minus reading the file and printing.
///
/// Fails exactly where extraction fails; a parsed but empty track yields
/// `Ok(None)`.
pub fn summarize(text: &str) -> (r: Result<Option<Summary>, ParseError>)
    ensures
        match r {
            Ok(s) => (match spec_extract(text@) {
                Ok(pts) => s == spec_reduce(pts),
                Err(_) => false,
            }),
            Err(e) => spec_extract(text@) == Err::<Seq<TrackPoint>, ParseError>(e),
        },
{
    match extract(text) {
        Ok(pts) => Ok(reduce(&pts)),
        Err(e) => Err(e),
    }
}

} // verus!
