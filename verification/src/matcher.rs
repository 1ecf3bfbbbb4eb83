//! Classification of a single transcript line by its leading bytes.
//!
//! A line is a header line when it begins with the literal token
//! `@Types:`, an end-of-content marker when it begins with `@End`, and an
//! utterance-start marker when it begins with `*`. Classification looks
//! only at the leading bytes, never at the rest of the line.

use vstd::prelude::*;

verus! {

pub const AT: u8 = 64;
pub const STAR: u8 = 42;
pub const COLON: u8 = 58;
pub const UPPER_E: u8 = 69;
pub const UPPER_T: u8 = 84;
pub const LOWER_D: u8 = 100;
pub const LOWER_E: u8 = 101;
pub const LOWER_N: u8 = 110;
pub const LOWER_P: u8 = 112;
pub const LOWER_S: u8 = 115;
pub const LOWER_Y: u8 = 121;

/// The line begins with the end-of-content token `@End`.
pub open spec fn is_end_line(l: Seq<u8>) -> bool {
    l.len() >= 4 && l[0] == AT && l[1] == UPPER_E && l[2] == LOWER_N && l[3] == LOWER_D
}

/// The line begins with the utterance-start token `*`.
pub open spec fn is_utterance_line(l: Seq<u8>) -> bool {
    l.len() >= 1 && l[0] == STAR
}

/// The line begins with the header token `@Types:`.
pub open spec fn is_header_line(l: Seq<u8>) -> bool {
    l.len() >= 7 && l[0] == AT && l[1] == UPPER_T && l[2] == LOWER_Y && l[3] == LOWER_P
        && l[4] == LOWER_E && l[5] == LOWER_S && l[6] == COLON
}

/// The line is one of the two markers that bound where a header line may
/// legitimately appear: the end-of-content marker or an utterance start.
pub open spec fn is_bounding_line(l: Seq<u8>) -> bool {
    is_end_line(l) || is_utterance_line(l)
}

/// The line stops the scan: it is a header line or one of the two
/// markers that bound where a header may legitimately appear.
pub open spec fn is_trigger_line(l: Seq<u8>) -> bool {
    is_bounding_line(l) || is_header_line(l)
}

/// How one line is classified; every line falls in exactly one class.
#[derive(Clone, Copy, Debug, PartialEq, Eq, Structural)]
pub enum LineKind {
    Header,
    End,
    Utterance,
    Ordinary,
}

/// What `classify_line` returns for a given line.
pub open spec fn spec_classify(l: Seq<u8>) -> LineKind {
    if is_end_line(l) {
        LineKind::End
    } else if is_utterance_line(l) {
        LineKind::Utterance
    } else if is_header_line(l) {
        LineKind::Header
    } else {
        LineKind::Ordinary
    }
}

/// Classify one line by inspecting only its leading bytes.
pub fn classify_line(l: &Vec<u8>) -> (k: LineKind)
    ensures
        k == spec_classify(l@),
{
    if l.len() >= 4 && l[0] == AT && l[1] == UPPER_E && l[2] == LOWER_N && l[3] == LOWER_D {
        LineKind::End
    } else if l.len() >= 1 && l[0] == STAR {
        LineKind::Utterance
    } else if l.len() >= 7 && l[0] == AT && l[1] == UPPER_T && l[2] == LOWER_Y && l[3] == LOWER_P
        && l[4] == LOWER_E && l[5] == LOWER_S && l[6] == COLON {
        LineKind::Header
    } else {
        LineKind::Ordinary
    }
}

/// Does the line begin with the header token?
pub fn line_is_header(l: &Vec<u8>) -> (r: bool)
    ensures
        r == is_header_line(l@),
{
    l.len() >= 7 && l[0] == AT && l[1] == UPPER_T && l[2] == LOWER_Y && l[3] == LOWER_P
        && l[4] == LOWER_E && l[5] == LOWER_S && l[6] == COLON
}

/// Compare two byte lines for equality of their contents.
pub fn bytes_eq(a: &Vec<u8>, b: &Vec<u8>) -> (r: bool)
    ensures
        r == (a@ == b@),
{
    if a.len() != b.len() {
        return false;
    }
    let mut i: usize = 0;
    while i < a.len()
        invariant
            i <= a.len(),
            a@.len() == b@.len(),
            forall|j: int| 0 <= j < i ==> a@[j] == b@[j],
        decreases a.len() - i,
    {
        if a[i] != b[i] {
            return false;
        }
        i += 1;
    }
    assert(a@ =~= b@);
    true
}

/// Copy one line's bytes into a fresh vector.
pub fn copy_line(l: &Vec<u8>) -> (r: Vec<u8>)
    ensures
        r@ == l@,
{
    let mut r: Vec<u8> = Vec::new();
    let mut i: usize = 0;
    while i < l.len()
        invariant
            i <= l.len(),
            r@ =~= l@.take(i as int),
        decreases l.len() - i,
    {
        r.push(l[i]);
        i += 1;
    }
    assert(r@ =~= l@);
    r
}

} // verus!
