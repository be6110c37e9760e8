//! The JSON reader, which is `serde_json`'s and is taken on trust: nothing
//! here is proved of it.

use vstd::prelude::*;

verus! {

/// One element of a row as the text holds it: `null`, or the ordinal of a
/// record and the number of a position.
pub type Entry = Option<(usize, u8)>;

/// `serde_json::Error`, which is carried through and never looked into.
#[verifier::external_type_specification]
#[verifier::external_body]
pub struct ExJsonError(serde_json::Error);

/// What `serde_json::from_slice` makes of `line` when asked for a
/// `[Option<(usize, u8)>; 4]`: the four elements where it accepts the line,
/// `None` where it returns an error.
pub uninterp spec fn json_row(line: Seq<u8>) -> Option<Seq<Option<(usize, u8)>>>;

/// Calls `serde_json::from_slice` on one line, asking for an array of four
/// elements, each `null` or a pair of a `usize` and a `u8`.
///
/// Trusted: that the call depends on the bytes of the line alone, so that
/// its outcome has the name `json_row`. What it accepts is not stated.
#[verifier::external_body]
pub(crate) fn parse_row(line: &[u8]) -> (r: Result<[Entry; 4], serde_json::Error>)
    ensures
        match r {
            Ok(row) => json_row(line@) == Some(row@),
            Err(_) => json_row(line@) is None,
        },
{
    serde_json::from_slice(line)
}

} // verus!
