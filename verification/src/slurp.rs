//! The whole-file header scan.
//!
//! The simpler variant of the scan reads every line of a transcript that
//! was slurped into memory and looks for a header line anywhere in it,
//! without stopping at the end-of-content or utterance markers. It also
//! demands at least one byte after the header token, where the
//! early-terminating variant accepts a bare token; the two variants are
//! therefore specified separately.

use vstd::prelude::*;
use crate::matcher::LineKind;
use crate::matcher::bytes_eq;
use crate::matcher::classify_line;
use crate::matcher::copy_line;
use crate::matcher::is_bounding_line;
use crate::matcher::is_header_line;
use crate::matcher::line_is_header;
use crate::scan::first_bounding_from;
use crate::scan::lemma_first_bounding_skip;
use crate::scan::view_lines;

verus! {

/// A header line as the whole-file scan recognizes it: the header token
/// followed by at least one byte.
pub open spec fn is_slurp_header_line(l: Seq<u8>) -> bool {
    is_header_line(l) && l.len() >= 8
}

/// Index of the first slurp header line at or after position `i`, if any.
pub open spec fn first_slurp_header_from(lines: Seq<Seq<u8>>, i: int) -> Option<int>
    decreases lines.len() - i,
{
    if i < 0 || i >= lines.len() {
        None
    } else if is_slurp_header_line(lines[i]) {
        Some(i)
    } else {
        first_slurp_header_from(lines, i + 1)
    }
}

/// The header line the whole-file scan reports, if any.
pub open spec fn slurp_types_of(lines: Seq<Seq<u8>>) -> Option<Seq<u8>> {
    match first_slurp_header_from(lines, 0) {
        Option::None => None,
        Option::Some(i) => Some(lines[i]),
    }
}

/// Whether the whole-file replacement reports a change: an existing
/// header that differs from `new` is rewritten, and a file with no header
/// has one spliced in just before its first end-of-content or utterance
/// line — when such a line exists. A header already equal to `new`, or a
/// file with neither a header nor a splice point, needs (and admits) no
/// rewrite.
pub open spec fn slurp_updated(lines: Seq<Seq<u8>>, new: Seq<u8>) -> bool {
    match first_slurp_header_from(lines, 0) {
        Option::None => first_bounding_from(lines, 0) is Some,
        Option::Some(i) => lines[i] != new,
    }
}

/// When no slurp header line stands before position `i`, the search from
/// the top agrees with the search from `i`.
pub proof fn lemma_first_slurp_header_skip(lines: Seq<Seq<u8>>, i: int)
    requires
        0 <= i <= lines.len(),
        forall|j: int| 0 <= j < i ==> !is_slurp_header_line(lines[j]),
    ensures
        first_slurp_header_from(lines, 0) == first_slurp_header_from(lines, i),
    decreases i,
{
    if i > 0 {
        lemma_first_slurp_header_skip(lines, i - 1);
    }
}

/// Extract the `@Types:` header line, if any, from a transcript slurped
/// in whole: every line is inspected, wherever the header stands.
pub fn get_types_slurp(lines: &Vec<Vec<u8>>) -> (r: Option<Vec<u8>>)
    ensures
        match r {
            Some(v) => slurp_types_of(view_lines(lines@)) == Some(v@),
            None => slurp_types_of(view_lines(lines@)) is None,
        },
{
    let ghost l = view_lines(lines@);
    let mut i: usize = 0;
    while i < lines.len()
        invariant
            i <= lines.len(),
            l == view_lines(lines@),
            l.len() == lines@.len(),
            forall|j: int| 0 <= j < i ==> !is_slurp_header_line(l[j]),
        decreases lines.len() - i,
    {
        let line = &lines[i];
        proof {
            lemma_first_slurp_header_skip(l, i as int);
        }
        if line.len() >= 8 && line_is_header(line) {
            return Some(copy_line(line));
        }
        i += 1;
    }
    proof {
        lemma_first_slurp_header_skip(l, l.len() as int);
    }
    None
}

/// Does any line of the file begin with one of the two bounding tokens,
/// so that a missing header would have a place to be spliced in?
fn has_bounding_line(lines: &Vec<Vec<u8>>) -> (r: bool)
    ensures
        r == (first_bounding_from(view_lines(lines@), 0) is Some),
{
    let ghost l = view_lines(lines@);
    let mut i: usize = 0;
    while i < lines.len()
        invariant
            i <= lines.len(),
            l == view_lines(lines@),
            l.len() == lines@.len(),
            forall|j: int| 0 <= j < i ==> !is_bounding_line(l[j]),
        decreases lines.len() - i,
    {
        proof {
            lemma_first_bounding_skip(l, i as int);
        }
        match classify_line(&lines[i]) {
            LineKind::End | LineKind::Utterance => {
                return true;
            },
            LineKind::Header | LineKind::Ordinary => {},
        }
        i += 1;
    }
    proof {
        lemma_first_bounding_skip(l, l.len() as int);
    }
    false
}

/// Decide from a transcript slurped in whole whether its header must be
/// brought to `new_types`: an existing header is compared, and a missing
/// one calls for a splice exactly when a splice point exists.
pub fn replace_types_slurp(lines: &Vec<Vec<u8>>, new_types: &Vec<u8>) -> (r: bool)
    ensures
        r == slurp_updated(view_lines(lines@), new_types@),
{
    match get_types_slurp(lines) {
        Option::Some(found) => !bytes_eq(&found, new_types),
        Option::None => has_bounding_line(lines),
    }
}

} // verus!
