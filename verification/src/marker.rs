//! Validation of a marker file's content.
//!
//! A marker file declares, for its directory and every descendant without
//! a marker of its own, the header text that transcripts should carry.
//! Only its first line matters: it must begin with the header token, and
//! a file with any other first line, or with no line at all, is a fatal
//! format error — the system never guesses a default header.

use vstd::prelude::*;
use crate::matcher::is_header_line;
use crate::matcher::line_is_header;

verus! {

/// Why a marker file's content was rejected.
#[derive(Clone, Copy, Debug, PartialEq, Eq, Structural)]
pub enum MarkerError {
    /// The marker file had no line at all.
    EmptyFile,
    /// The first line did not begin with the header token.
    MalformedHeader,
}

/// Validate the first line of a marker file, handed in as read (or as
/// absent, for an empty file): the line must begin with the header token,
/// and is then the literal replacement text. The rest of the file is
/// ignored by design, so it is never handed in.
pub fn read_types_line(first_line: Option<Vec<u8>>) -> (r: Result<Vec<u8>, MarkerError>)
    ensures
        match r {
            Ok(l) => first_line matches Some(f) && l@ == f@ && is_header_line(l@),
            Err(e) => match e {
                MarkerError::EmptyFile => first_line is None,
                MarkerError::MalformedHeader => first_line matches Some(f) && !is_header_line(f@),
            },
        },
{
    match first_line {
        Option::None => Err(MarkerError::EmptyFile),
        Option::Some(line) => {
            if line_is_header(&line) {
                Ok(line)
            } else {
                Err(MarkerError::MalformedHeader)
            }
        },
    }
}

} // verus!
