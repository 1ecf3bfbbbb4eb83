//! The early-terminating header scan.
//!
//! A transcript is an ordered sequence of lines. The scan walks the lines
//! from the top and stops at the first header line, end-of-content marker
//! or utterance-start marker: a header found there is replaced when it
//! differs from the desired text, and a marker found first means no header
//! existed, so the desired one is spliced in just before it. Lines past
//! that point are never inspected.

use vstd::prelude::*;
use crate::matcher::LineKind;
use crate::matcher::bytes_eq;
use crate::matcher::classify_line;
use crate::matcher::copy_line;
use crate::matcher::is_bounding_line;
use crate::matcher::is_header_line;
use crate::matcher::is_trigger_line;

verus! {

/// The mathematical content of a vector of byte lines.
pub open spec fn view_lines(lines: Seq<Vec<u8>>) -> Seq<Seq<u8>> {
    Seq::new(lines.len(), |i: int| lines[i]@)
}

/// Index of the first trigger line at or after position `i`, if any.
pub open spec fn first_trigger_from(lines: Seq<Seq<u8>>, i: int) -> Option<int>
    decreases lines.len() - i,
{
    if i < 0 || i >= lines.len() {
        None
    } else if is_trigger_line(lines[i]) {
        Some(i)
    } else {
        first_trigger_from(lines, i + 1)
    }
}

/// Whether the scan reports that a rewrite is needed: a marker reached
/// with no header seen, or a header that differs from `new`. A header
/// equal to `new`, or a file with no trigger line at all, needs none.
pub open spec fn scan_updated(lines: Seq<Seq<u8>>, new: Seq<u8>) -> bool {
    match first_trigger_from(lines, 0) {
        Option::None => false,
        Option::Some(i) => !(is_header_line(lines[i]) && lines[i] == new),
    }
}

/// How many lines the scan consumes: everything up to and including the
/// first trigger line, or the whole sequence when none exists.
pub open spec fn scan_consumed(lines: Seq<Seq<u8>>) -> int {
    match first_trigger_from(lines, 0) {
        Option::None => lines.len() as int,
        Option::Some(i) => i + 1,
    }
}

/// The lines handed to the sink: every ordinary line before the trigger
/// verbatim, then the new header in place of (or just before) the trigger
/// line, as the scan decides.
pub open spec fn scan_prefix(lines: Seq<Seq<u8>>, new: Seq<u8>) -> Seq<Seq<u8>> {
    match first_trigger_from(lines, 0) {
        Option::None => lines,
        Option::Some(i) => {
            let t = lines[i];
            if is_header_line(t) {
                if t == new {
                    lines.take(i).push(t)
                } else {
                    lines.take(i).push(new)
                }
            } else {
                lines.take(i).push(new).push(t)
            }
        },
    }
}

/// The complete content after a rewrite: the scanned prefix, then the
/// untouched remainder of the original lines.
pub open spec fn rewritten_lines(lines: Seq<Seq<u8>>, new: Seq<u8>) -> Seq<Seq<u8>> {
    scan_prefix(lines, new) + lines.skip(scan_consumed(lines))
}

/// When no trigger line stands before position `i`, the search from the
/// top agrees with the search from `i`.
pub proof fn lemma_first_trigger_skip(lines: Seq<Seq<u8>>, i: int)
    requires
        0 <= i <= lines.len(),
        forall|j: int| 0 <= j < i ==> !is_trigger_line(lines[j]),
    ensures
        first_trigger_from(lines, 0) == first_trigger_from(lines, i),
    decreases i,
{
    if i > 0 {
        lemma_first_trigger_skip(lines, i - 1);
    }
}

/// What a successful search means, position by position.
pub proof fn lemma_first_trigger_props(lines: Seq<Seq<u8>>, s: int, i: int)
    requires
        0 <= s,
        first_trigger_from(lines, s) == Some(i),
    ensures
        s <= i < lines.len(),
        is_trigger_line(lines[i]),
        forall|j: int| s <= j < i ==> !is_trigger_line(lines[j]),
    decreases lines.len() - s,
{
    if s < lines.len() && !is_trigger_line(lines[s]) {
        lemma_first_trigger_props(lines, s + 1, i);
    }
}

/// What the scan returns: the decision, how many lines it consumed, and
/// the buffered prefix when a sink was requested.
pub struct ScanOutcome {
    pub updated: bool,
    pub consumed: usize,
    pub prefix: Vec<Vec<u8>>,
}

/// Scan the lines one at a time, stopping at the first header line,
/// end-of-content marker or utterance-start marker, and report whether
/// the header must be brought to `new_types`. With `with_sink` set, the
/// scanned prefix — the ordinary lines verbatim, then the header inserted
/// or replaced where the scan stopped — is buffered and returned; a dry
/// run passes `false` and buffers nothing. The scan never consumes a line
/// past the first trigger line.
pub fn updated_prefix(lines: &Vec<Vec<u8>>, new_types: &Vec<u8>, with_sink: bool) -> (r:
    ScanOutcome)
    ensures
        r.updated == scan_updated(view_lines(lines@), new_types@),
        r.consumed == scan_consumed(view_lines(lines@)),
        with_sink ==> view_lines(r.prefix@) =~= scan_prefix(view_lines(lines@), new_types@),
        !with_sink ==> r.prefix@.len() == 0,
{
    let ghost l = view_lines(lines@);
    let mut prefix: Vec<Vec<u8>> = Vec::new();
    let mut i: usize = 0;
    while i < lines.len()
        invariant
            i <= lines.len(),
            l == view_lines(lines@),
            l.len() == lines@.len(),
            forall|j: int| 0 <= j < i ==> !is_trigger_line(l[j]),
            with_sink ==> view_lines(prefix@) =~= l.take(i as int),
            !with_sink ==> prefix@.len() == 0,
        decreases lines.len() - i,
    {
        let line = &lines[i];
        proof {
            lemma_first_trigger_skip(l, i as int);
        }
        match classify_line(line) {
            LineKind::End | LineKind::Utterance => {
                if with_sink {
                    prefix.push(copy_line(new_types));
                    prefix.push(copy_line(line));
                    proof {
                        assert(view_lines(prefix@) =~= l.take(i as int).push(new_types@).push(
                            l[i as int],
                        ));
                    }
                }
                return ScanOutcome { updated: true, consumed: i + 1, prefix };
            },
            LineKind::Header => {
                if bytes_eq(line, new_types) {
                    if with_sink {
                        prefix.push(copy_line(line));
                        proof {
                            assert(view_lines(prefix@) =~= l.take(i as int).push(l[i as int]));
                        }
                    }
                    return ScanOutcome { updated: false, consumed: i + 1, prefix };
                } else {
                    if with_sink {
                        prefix.push(copy_line(new_types));
                        proof {
                            assert(view_lines(prefix@) =~= l.take(i as int).push(new_types@));
                        }
                    }
                    return ScanOutcome { updated: true, consumed: i + 1, prefix };
                }
            },
            LineKind::Ordinary => {
                if with_sink {
                    prefix.push(copy_line(line));
                    proof {
                        assert(view_lines(prefix@) =~= l.take(i as int + 1));
                    }
                }
            },
        }
        i += 1;
    }
    proof {
        lemma_first_trigger_skip(l, l.len() as int);
        assert(l.take(l.len() as int) =~= l);
    }
    ScanOutcome { updated: false, consumed: i, prefix }
}

/// The header line the early-terminating extractor reports: the first
/// trigger line itself when it is a header, nothing otherwise.
pub open spec fn fast_types_of(lines: Seq<Seq<u8>>) -> Option<Seq<u8>> {
    match first_trigger_from(lines, 0) {
        Option::None => None,
        Option::Some(i) => if is_header_line(lines[i]) {
            Some(lines[i])
        } else {
            None
        },
    }
}

/// Extract the `@Types:` header line, if any, reading one line at a time
/// and giving up as soon as the end-of-content marker or the first
/// utterance is reached.
pub fn get_types_fast(lines: &Vec<Vec<u8>>) -> (r: Option<Vec<u8>>)
    ensures
        match r {
            Some(v) => fast_types_of(view_lines(lines@)) == Some(v@),
            None => fast_types_of(view_lines(lines@)) is None,
        },
{
    let ghost l = view_lines(lines@);
    let mut i: usize = 0;
    while i < lines.len()
        invariant
            i <= lines.len(),
            l == view_lines(lines@),
            l.len() == lines@.len(),
            forall|j: int| 0 <= j < i ==> !is_trigger_line(l[j]),
        decreases lines.len() - i,
    {
        let line = &lines[i];
        proof {
            lemma_first_trigger_skip(l, i as int);
        }
        match classify_line(line) {
            LineKind::End | LineKind::Utterance => {
                return None;
            },
            LineKind::Header => {
                return Some(copy_line(line));
            },
            LineKind::Ordinary => {},
        }
        i += 1;
    }
    proof {
        lemma_first_trigger_skip(l, l.len() as int);
    }
    None
}

/// Decide, one line at a time, whether the header must be brought to
/// `new_types`, buffering the scanned prefix as the real update would.
pub fn replace_types_fast(lines: &Vec<Vec<u8>>, new_types: &Vec<u8>) -> (r: bool)
    ensures
        r == scan_updated(view_lines(lines@), new_types@),
{
    let outcome = updated_prefix(lines, new_types, true);
    outcome.updated
}

/// Compute the replacement content for one transcript. The first result
/// says whether the file is out of date; when it is and this is not a dry
/// run, the second result holds the complete new content — the rewritten
/// prefix followed by every remaining line verbatim. A dry run, or a file
/// that is already up to date, produces no content at all.
pub fn update_types_to_output(lines: &Vec<Vec<u8>>, new_types: &Vec<u8>, dry_run: bool) -> (r: (
    bool,
    Vec<Vec<u8>>,
))
    ensures
        r.0 == scan_updated(view_lines(lines@), new_types@),
        r.0 && !dry_run ==> view_lines(r.1@) =~= rewritten_lines(view_lines(lines@), new_types@),
        !(r.0 && !dry_run) ==> r.1@.len() == 0,
{
    let ghost l = view_lines(lines@);
    let outcome = updated_prefix(lines, new_types, !dry_run);
    proof {
        match first_trigger_from(l, 0) {
            Option::Some(t) => lemma_first_trigger_props(l, 0, t),
            Option::None => {},
        }
    }
    if outcome.updated && !dry_run {
        let mut out = outcome.prefix;
        let mut k: usize = outcome.consumed;
        while k < lines.len()
            invariant
                0 <= scan_consumed(l) <= l.len(),
                scan_consumed(l) <= k <= lines.len(),
                l == view_lines(lines@),
                l.len() == lines@.len(),
                view_lines(out@) =~= scan_prefix(l, new_types@) + l.subrange(
                    scan_consumed(l),
                    k as int,
                ),
            decreases lines.len() - k,
        {
            let ghost c = scan_consumed(l);
            let ghost out0 = out@;
            let nl = copy_line(&lines[k]);
            let ghost nlv = nl@;
            out.push(nl);
            proof {
                assert(nlv == l[k as int]);
                assert(view_lines(out@) =~= view_lines(out0).push(nlv));
                assert(l.subrange(c, k as int + 1) =~= l.subrange(c, k as int).push(l[k as int]));
                assert((scan_prefix(l, new_types@) + l.subrange(c, k as int)).push(l[k as int])
                    =~= scan_prefix(l, new_types@) + l.subrange(c, k as int + 1));
            }
            k += 1;
        }
        proof {
            assert(l.subrange(scan_consumed(l), l.len() as int) =~= l.skip(scan_consumed(l)));
            assert(view_lines(out@) =~= rewritten_lines(l, new_types@));
        }
        (true, out)
    } else {
        (outcome.updated, Vec::new())
    }
}

/// Feeding the scan only the lines up to and including its first trigger
/// line — or all of them, when none exists — changes nothing: the
/// decision, the consumption count and the buffered prefix are functions
/// of those lines alone, so a reader may stop there and hand the
/// remainder of the file on verbatim.
pub proof fn lemma_scan_needs_only_consumed(lines: Seq<Seq<u8>>, new: Seq<u8>)
    ensures
        scan_updated(lines.take(scan_consumed(lines)), new) == scan_updated(lines, new),
        scan_consumed(lines.take(scan_consumed(lines))) == scan_consumed(lines),
        scan_prefix(lines.take(scan_consumed(lines)), new) == scan_prefix(lines, new),
{
    let c = scan_consumed(lines);
    let t = lines.take(c);
    match first_trigger_from(lines, 0) {
        Option::Some(i) => {
            lemma_first_trigger_props(lines, 0, i);
            assert forall|j: int| 0 <= j < i implies !is_trigger_line(t[j]) by {
                assert(t[j] == lines[j]);
            }
            lemma_first_trigger_skip(t, i);
            assert(t[i] == lines[i]);
            assert(first_trigger_from(t, i) == Some(i));
            assert(t.take(i) =~= lines.take(i));
        },
        Option::None => {
            assert(t =~= lines);
        },
    }
}

/// After a rewrite, the produced content carries the new header exactly
/// where the scan stopped: every line before that position is the
/// original ordinary line and no trigger line, and the first trigger line
/// of the new content is the new header itself. When the scan stopped on
/// an end or utterance marker, that marker follows the header at once, so
/// the new header stands exactly once in the whole region the markers
/// bound. The premise that the replacement text is itself a header line
/// is exactly what a validated marker line supplies.
pub proof fn lemma_rewrite_places_header(lines: Seq<Seq<u8>>, new: Seq<u8>, i: int)
    requires
        is_header_line(new),
        scan_updated(lines, new),
        first_trigger_from(lines, 0) == Some(i),
    ensures
        first_trigger_from(rewritten_lines(lines, new), 0) == Some(i),
        rewritten_lines(lines, new)[i] == new,
        forall|j: int|
            0 <= j < i ==> rewritten_lines(lines, new)[j] == lines[j] && !is_trigger_line(
                rewritten_lines(lines, new)[j],
            ),
        !is_header_line(lines[i]) ==> rewritten_lines(lines, new)[i + 1] == lines[i],
{
    let out = rewritten_lines(lines, new);
    lemma_first_trigger_props(lines, 0, i);
    let p = scan_prefix(lines, new);
    assert(p[i] == new);
    assert(out[i] == new);
    assert forall|j: int| 0 <= j < i implies out[j] == lines[j] && !is_trigger_line(out[j]) by {
        assert(p[j] == lines.take(i)[j]);
        assert(out[j] == p[j]);
    }
    if !is_header_line(lines[i]) {
        assert(p[i + 1] == lines[i]);
        assert(out[i + 1] == lines[i]);
    }
    lemma_first_trigger_skip(out, i);
    assert(is_trigger_line(out[i]));
    assert(first_trigger_from(out, i) == Some(i));
}

/// Index of the first end-of-content or utterance-start line at or after
/// position `i`, if any.
pub open spec fn first_bounding_from(lines: Seq<Seq<u8>>, i: int) -> Option<int>
    decreases lines.len() - i,
{
    if i < 0 || i >= lines.len() {
        None
    } else if is_bounding_line(lines[i]) {
        Some(i)
    } else {
        first_bounding_from(lines, i + 1)
    }
}

/// End of the region where a header line may legitimately stand: just
/// before the first end-of-content or utterance line, or the end of the
/// file when neither occurs.
pub open spec fn header_region_end(lines: Seq<Seq<u8>>) -> int {
    match first_bounding_from(lines, 0) {
        Option::None => lines.len() as int,
        Option::Some(m) => m,
    }
}

/// When no bounding line stands before position `i`, the search from the
/// top agrees with the search from `i`.
pub proof fn lemma_first_bounding_skip(lines: Seq<Seq<u8>>, i: int)
    requires
        0 <= i <= lines.len(),
        forall|j: int| 0 <= j < i ==> !is_bounding_line(lines[j]),
    ensures
        first_bounding_from(lines, 0) == first_bounding_from(lines, i),
    decreases i,
{
    if i > 0 {
        lemma_first_bounding_skip(lines, i - 1);
    }
}

/// What a successful search for a bounding line means.
pub proof fn lemma_first_bounding_props(lines: Seq<Seq<u8>>, s: int, m: int)
    requires
        0 <= s,
        first_bounding_from(lines, s) == Some(m),
    ensures
        s <= m < lines.len(),
        is_bounding_line(lines[m]),
        forall|j: int| s <= j < m ==> !is_bounding_line(lines[j]),
    decreases lines.len() - s,
{
    if s < lines.len() && !is_bounding_line(lines[s]) {
        lemma_first_bounding_props(lines, s + 1, m);
    }
}

/// Two line sequences of one length that agree from position `j` on are
/// searched alike from `j`.
pub proof fn lemma_first_bounding_agree(a: Seq<Seq<u8>>, b: Seq<Seq<u8>>, j: int)
    requires
        a.len() == b.len(),
        0 <= j,
        forall|t: int| j <= t < a.len() ==> a[t] == b[t],
    ensures
        first_bounding_from(a, j) == first_bounding_from(b, j),
    decreases a.len() - j,
{
    if j < a.len() && !is_bounding_line(a[j]) {
        lemma_first_bounding_agree(a, b, j + 1);
    }
}

/// The new header stands exactly once in the region where a header may
/// stand: in the rewritten content, the only header line before the
/// first end-of-content or utterance line is the one the rewrite placed,
/// at the position where the scan stopped. When the scan replaced an
/// existing header rather than splicing one in, the input must carry no
/// second header in that region, as a well-formed transcript never does.
pub proof fn lemma_rewrite_header_unique(lines: Seq<Seq<u8>>, new: Seq<u8>, i: int)
    requires
        is_header_line(new),
        scan_updated(lines, new),
        first_trigger_from(lines, 0) == Some(i),
        forall|j: int| i < j < header_region_end(lines) ==> !is_header_line(lines[j]),
    ensures
        ({
            let out = rewritten_lines(lines, new);
            forall|k: int|
                0 <= k < header_region_end(out) ==> (is_header_line(out[k]) <==> k == i)
        }),
{
    let out = rewritten_lines(lines, new);
    lemma_first_trigger_props(lines, 0, i);
    lemma_rewrite_places_header(lines, new, i);
    if is_header_line(lines[i]) {
        // An existing header was replaced in place: the content keeps its
        // length and differs from the original only at position i.
        assert(out.len() == lines.len());
        assert forall|t: int| i + 1 <= t < lines.len() implies out[t] == lines[t] by {
            assert(out[t] == lines.skip(i + 1)[t - (i + 1)]);
        }
        lemma_first_bounding_agree(out, lines, i + 1);
        lemma_first_bounding_skip(out, i + 1);
        lemma_first_bounding_skip(lines, i + 1);
        assert(header_region_end(out) == header_region_end(lines));
        match first_bounding_from(lines, 0) {
            Option::Some(m) => lemma_first_bounding_props(lines, 0, m),
            Option::None => {},
        }
        assert forall|k: int|
            0 <= k < header_region_end(out) implies (is_header_line(out[k]) <==> k == i) by {
            if k > i {
                assert(out[k] == lines[k]);
            }
        }
    } else {
        // A header was spliced in just before the bounding line the scan
        // stopped on, so the region ends right after the new header.
        assert(is_bounding_line(lines[i]));
        assert(out[i + 1] == lines[i]);
        lemma_first_bounding_skip(out, i + 1);
        assert(first_bounding_from(out, i + 1) == Some(i + 1));
        assert(header_region_end(out) == i + 1);
    }
}

/// Idempotence of the rewrite: once a file has been brought to the new
/// header, a second scan with the same header reports that nothing needs
/// to change. As above, the premise on the replacement text is what a
/// validated marker line supplies.
pub proof fn lemma_rewrite_idempotent(lines: Seq<Seq<u8>>, new: Seq<u8>)
    requires
        is_header_line(new),
        scan_updated(lines, new),
    ensures
        !scan_updated(rewritten_lines(lines, new), new),
{
    match first_trigger_from(lines, 0) {
        Option::Some(i) => {
            lemma_rewrite_places_header(lines, new, i);
        },
        Option::None => {},
    }
}

} // verus!
