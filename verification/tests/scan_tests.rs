use update_chat_types::matcher::classify_line;
use update_chat_types::matcher::LineKind;
use update_chat_types::scan::get_types_fast;
use update_chat_types::scan::replace_types_fast;
use update_chat_types::scan::update_types_to_output;
use update_chat_types::scan::updated_prefix;
use update_chat_types::slurp::get_types_slurp;
use update_chat_types::slurp::replace_types_slurp;

fn line(s: &str) -> Vec<u8> {
    s.as_bytes().to_vec()
}

fn small_types_lines() -> Vec<Vec<u8>> {
    vec![
        line("@UTF8"),
        line("@Begin"),
        line("@Languages:\teng"),
        line("@Types:\tlong, toyplay, TD"),
        line("*CHI:\thi ."),
        line("@End"),
    ]
}

fn big_types_lines() -> Vec<Vec<u8>> {
    vec![
        line("@UTF8"),
        line("@PID:\t11312/c-00034743-1"),
        line("@Begin"),
        line("@Languages:\teng"),
        line("@Participants:\tCHI Target_Child, MOT Mother"),
        line("@Options:\tmulti"),
        line("@Types:\tlong, toyplay, TD"),
        line("*MOT:\twhat are you doing ?"),
        line("*CHI:\thi ."),
        line("@End"),
    ]
}

fn tiny_types_lines() -> Vec<Vec<u8>> {
    vec![line("@Types:\tlong, toyplay, TD"), line("*CHI:\thi ."), line("@End")]
}

fn no_types_lines() -> Vec<Vec<u8>> {
    vec![line("@UTF8"), line("@Begin"), line("*CHI:\thi ."), line("@End")]
}

#[test]
fn get_types_when_exists() {
    let expected = Some(line("@Types:\tlong, toyplay, TD"));
    for lines in [small_types_lines(), big_types_lines()] {
        assert_eq!(get_types_slurp(&lines), expected);
        assert_eq!(get_types_fast(&lines), expected);
    }
}

#[test]
fn get_types_when_does_not_exist() {
    let lines = no_types_lines();
    assert_eq!(get_types_slurp(&lines), None);
    assert_eq!(get_types_fast(&lines), None);
}

#[test]
fn replace_types_when_exists() {
    let new_types = line("@Types:\tlong, toyplay, FOO");
    let lines = tiny_types_lines();
    assert_eq!(replace_types_slurp(&lines, &new_types), true);
    assert_eq!(replace_types_fast(&lines, &new_types), true);
}

#[test]
fn replace_types_when_does_not_exist() {
    let new_types = line("@Types:\tlong, toyplay, FOO");
    let lines = no_types_lines();
    assert_eq!(replace_types_slurp(&lines, &new_types), true);
    assert_eq!(replace_types_fast(&lines, &new_types), true);
}

#[test]
fn classify_line_by_leading_token() {
    assert_eq!(classify_line(&line("@Types:\tlong")), LineKind::Header);
    assert_eq!(classify_line(&line("@Types:")), LineKind::Header);
    assert_eq!(classify_line(&line("@End")), LineKind::End);
    assert_eq!(classify_line(&line("@Endless")), LineKind::End);
    assert_eq!(classify_line(&line("*PAR: hi .")), LineKind::Utterance);
    assert_eq!(classify_line(&line("*")), LineKind::Utterance);
    assert_eq!(classify_line(&line("@Begin")), LineKind::Ordinary);
    assert_eq!(classify_line(&line("@Type")), LineKind::Ordinary);
    assert_eq!(classify_line(&line("")), LineKind::Ordinary);
}

#[test]
fn rewrite_replaces_differing_header() {
    let lines = vec![line("intro"), line("@Types:\told"), line("*PAR: hi .")];
    let new_types = line("@Types:\tnew");
    let (updated, out) = update_types_to_output(&lines, &new_types, false);
    assert!(updated);
    assert_eq!(out, vec![line("intro"), line("@Types:\tnew"), line("*PAR: hi .")]);
}

#[test]
fn rewrite_splices_missing_header() {
    let lines = vec![line("intro"), line("*PAR: hi .")];
    let new_types = line("@Types:\tnew");
    let (updated, out) = update_types_to_output(&lines, &new_types, false);
    assert!(updated);
    assert_eq!(out, vec![line("intro"), line("@Types:\tnew"), line("*PAR: hi .")]);
}

#[test]
fn rewrite_leaves_equal_header_alone() {
    let lines = vec![line("intro"), line("@Types:\tnew"), line("*PAR: hi .")];
    let new_types = line("@Types:\tnew");
    let (updated, out) = update_types_to_output(&lines, &new_types, false);
    assert!(!updated);
    assert!(out.is_empty());
}

#[test]
fn rewrite_is_idempotent() {
    let lines = vec![line("intro"), line("@Types:\told"), line("*PAR: hi .")];
    let new_types = line("@Types:\tnew");
    let (updated, out) = update_types_to_output(&lines, &new_types, false);
    assert!(updated);
    let (updated_again, out_again) = update_types_to_output(&out, &new_types, false);
    assert!(!updated_again);
    assert!(out_again.is_empty());
}

#[test]
fn scan_stops_at_first_trigger_line() {
    let lines = vec![
        line("intro"),
        line("@Languages:\teng"),
        line("@Types:\told"),
        line("never read"),
        line("never read either"),
    ];
    let new_types = line("@Types:\tnew");
    let outcome = updated_prefix(&lines, &new_types, true);
    assert!(outcome.updated);
    assert_eq!(outcome.consumed, 3);
    assert_eq!(
        outcome.prefix,
        vec![line("intro"), line("@Languages:\teng"), line("@Types:\tnew")]
    );
}

#[test]
fn scan_writes_header_before_terminator() {
    let lines = vec![line("intro"), line("@End"), line("tail stays put")];
    let new_types = line("@Types:\tnew");
    let outcome = updated_prefix(&lines, &new_types, true);
    assert!(outcome.updated);
    assert_eq!(outcome.consumed, 2);
    assert_eq!(outcome.prefix, vec![line("intro"), line("@Types:\tnew"), line("@End")]);
}

#[test]
fn scan_keeps_equal_header_and_stops() {
    let lines = vec![line("@Types:\tnew"), line("*PAR: hi .")];
    let new_types = line("@Types:\tnew");
    let outcome = updated_prefix(&lines, &new_types, true);
    assert!(!outcome.updated);
    assert_eq!(outcome.consumed, 1);
    assert_eq!(outcome.prefix, vec![line("@Types:\tnew")]);
}

#[test]
fn dry_run_decides_like_real_run() {
    let new_types = line("@Types:\tlong, toyplay, FOO");
    for lines in [small_types_lines(), big_types_lines(), tiny_types_lines(), no_types_lines()] {
        let (wet, _) = update_types_to_output(&lines, &new_types, false);
        let (dry, dry_out) = update_types_to_output(&lines, &new_types, true);
        assert_eq!(wet, dry);
        assert!(dry_out.is_empty());
    }
}

#[test]
fn dry_scan_buffers_nothing() {
    let lines = tiny_types_lines();
    let new_types = line("@Types:\tlong, toyplay, FOO");
    let outcome = updated_prefix(&lines, &new_types, false);
    assert!(outcome.updated);
    assert_eq!(outcome.consumed, 1);
    assert!(outcome.prefix.is_empty());
}

#[test]
fn bare_header_token_found_only_by_fast_scan() {
    let lines = vec![line("@Types:"), line("@End")];
    assert_eq!(get_types_fast(&lines), Some(line("@Types:")));
    assert_eq!(get_types_slurp(&lines), None);
}

#[test]
fn empty_file_never_has_header() {
    let lines: Vec<Vec<u8>> = vec![];
    let new_types = line("@Types:\tnew");
    assert_eq!(get_types_fast(&lines), None);
    assert_eq!(get_types_slurp(&lines), None);
    assert_eq!(replace_types_fast(&lines, &new_types), false);
    assert_eq!(replace_types_slurp(&lines, &new_types), false);
}

#[test]
fn file_without_header_or_splice_point_needs_no_rewrite() {
    // With no header and no @End/* line the scan runs out of lines:
    // nothing needs a rewrite, and no splice would even be possible.
    let lines = vec![line("@UTF8"), line("@Begin"), line("plain notes")];
    let new_types = line("@Types:\tnew");
    assert_eq!(replace_types_fast(&lines, &new_types), false);
    assert_eq!(replace_types_slurp(&lines, &new_types), false);
    let (updated, out) = update_types_to_output(&lines, &new_types, false);
    assert!(!updated);
    assert!(out.is_empty());
}

#[test]
fn late_header_lies_beyond_the_fast_scan() {
    // A header standing after the first utterance is outside the region
    // the early-terminating scan inspects: a new header is spliced in
    // where one belongs and the stale late line is left untouched.
    let lines = vec![line("intro"), line("*PAR: hi ."), line("@Types:\told")];
    let new_types = line("@Types:\tnew");
    let (updated, out) = update_types_to_output(&lines, &new_types, false);
    assert!(updated);
    assert_eq!(
        out,
        vec![line("intro"), line("@Types:\tnew"), line("*PAR: hi ."), line("@Types:\told")]
    );
}

#[test]
fn slurp_scan_reads_past_terminators() {
    let lines = vec![line("*PAR: hi ."), line("@Types:\tlate")];
    assert_eq!(get_types_fast(&lines), None);
    assert_eq!(get_types_slurp(&lines), Some(line("@Types:\tlate")));
}
