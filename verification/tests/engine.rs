use sgrep::filter::{filter_stream, ContentFilter};

fn svec(xs: &[&str]) -> Vec<String> {
    xs.iter().map(|x| x.to_string()).collect()
}

fn run(
    lines: &[&str],
    incl: Option<&[&str]>,
    excl: Option<&[&str]>,
    insensitive: bool,
    label: Option<&str>,
    top_n: usize,
    nums: bool,
    raw: bool,
) -> Vec<String> {
    let mk = |pats: &[&str]| {
        if insensitive {
            ContentFilter::CaseInsensitive(svec(pats))
        } else {
            ContentFilter::CaseSensitive(svec(pats))
        }
    };
    filter_stream(
        &svec(lines),
        &incl.map(mk),
        &excl.map(mk),
        &label.map(|l| l.to_string()),
        top_n,
        nums,
        raw,
    )
}

#[test]
fn scenario_file_mode_header_and_highlight() {
    colored::control::set_override(false);
    let out = run(
        &["pub struct Foo", "let x = 1", "pub struct Bar"],
        Some(&["pub struct"]),
        None,
        false,
        Some("a.rs"),
        0,
        true,
        false,
    );
    assert_eq!(
        out,
        svec(&["a.rs", "   0: pub struct Foo", "   2: pub struct Bar", ""])
    );
}

#[test]
fn scenario_raw_mode_verbatim() {
    colored::control::set_override(false);
    let out = run(
        &["#ifdef A", "int x;", "#ifndef B", "#endif"],
        Some(&["#ifdef", "#ifndef"]),
        None,
        false,
        None,
        0,
        false,
        true,
    );
    assert_eq!(out, svec(&["#ifdef A", "#ifndef B"]));
}

#[test]
fn scenario_raw_mode_ignores_label_and_numbers() {
    colored::control::set_override(false);
    let out = run(
        &["#ifdef A", "other"],
        Some(&["#ifdef"]),
        None,
        false,
        Some("h.h"),
        0,
        true,
        true,
    );
    assert_eq!(out, svec(&["#ifdef A"]));
}

#[test]
fn scenario_top_window_piped() {
    colored::control::set_override(false);
    let out = run(
        &["init process", "my-bash-shell", "other"],
        Some(&["bash"]),
        None,
        true,
        None,
        1,
        false,
        false,
    );
    assert_eq!(out, svec(&["init process", "my-bash-shell"]));
}

#[test]
fn pass_through_without_patterns_keeps_every_line() {
    colored::control::set_override(false);
    let out = run(
        &["alpha", "beta", "gamma"],
        None,
        None,
        false,
        None,
        0,
        false,
        false,
    );
    assert_eq!(out, svec(&["alpha", "beta", "gamma"]));
}

#[test]
fn pass_through_still_respects_exclude() {
    colored::control::set_override(false);
    let out = run(
        &["alpha", "beta", "gamma"],
        None,
        Some(&["bet"]),
        false,
        None,
        0,
        false,
        false,
    );
    assert_eq!(out, svec(&["alpha", "gamma"]));
}

#[test]
fn exclude_wins_over_match_and_top_window() {
    colored::control::set_override(false);
    let out = run(
        &["keep this", "drop this keep", "keep too"],
        Some(&["keep"]),
        Some(&["drop"]),
        false,
        None,
        3,
        false,
        false,
    );
    assert_eq!(out, svec(&["keep this", "keep too"]));
}

#[test]
fn top_window_forces_non_matching_lines() {
    colored::control::set_override(false);
    let out = run(
        &["one", "two", "match here", "four"],
        Some(&["match"]),
        None,
        false,
        None,
        2,
        false,
        false,
    );
    assert_eq!(out, svec(&["one", "two", "match here"]));
}

#[test]
fn empty_pattern_list_selects_only_top_window() {
    colored::control::set_override(false);
    let out = run(
        &["one", "two", "three"],
        Some(&[]),
        None,
        false,
        None,
        1,
        false,
        false,
    );
    assert_eq!(out, svec(&["one"]));
}

#[test]
fn empty_stream_prints_nothing() {
    colored::control::set_override(false);
    let out = run(&[], Some(&["x"]), None, false, Some("f.txt"), 5, true, false);
    assert_eq!(out, Vec::<String>::new());
}

#[test]
fn case_insensitive_matches_any_case_of_line() {
    colored::control::set_override(false);
    let out = run(
        &["MY-BASH-SHELL", "my-bash-shell", "My-Bash-Shell", "other"],
        Some(&["bash"]),
        None,
        true,
        None,
        0,
        false,
        false,
    );
    assert_eq!(out, svec(&["MY-BASH-SHELL", "my-bash-shell", "My-Bash-Shell"]));
}

#[test]
fn case_insensitive_matches_any_case_of_pattern() {
    colored::control::set_override(false);
    let out1 = run(&["my-bash-shell"], Some(&["BaSh"]), None, true, None, 0, false, false);
    let out2 = run(&["my-bash-shell"], Some(&["bash"]), None, true, None, 0, false, false);
    assert_eq!(out1, out2);
    assert_eq!(out1, svec(&["my-bash-shell"]));
}

#[test]
fn case_sensitive_does_not_fold() {
    colored::control::set_override(false);
    let out = run(&["MY-BASH"], Some(&["bash"]), None, false, None, 0, false, false);
    assert_eq!(out, Vec::<String>::new());
}

#[test]
fn header_absent_when_nothing_selected() {
    colored::control::set_override(false);
    let out = run(
        &["alpha", "beta"],
        Some(&["zzz"]),
        None,
        false,
        Some("f.txt"),
        0,
        true,
        false,
    );
    assert_eq!(out, Vec::<String>::new());
}

#[test]
fn header_once_and_trailing_blank_with_selection() {
    colored::control::set_override(false);
    let out = run(
        &["hit one", "miss", "hit two"],
        Some(&["hit"]),
        None,
        false,
        Some("f.txt"),
        0,
        false,
        false,
    );
    assert_eq!(out, svec(&["f.txt", "hit one", "hit two", ""]));
    assert_eq!(out.iter().filter(|l| l.as_str() == "f.txt").count(), 1);
}

#[test]
fn no_header_without_label() {
    colored::control::set_override(false);
    let out = run(&["hit"], Some(&["hit"]), None, false, None, 0, false, false);
    assert_eq!(out, svec(&["hit"]));
}

#[test]
fn highlight_wraps_every_occurrence_and_strips_back() {
    colored::control::set_override(true);
    let line = "a struct and a struct again";
    let out = run(&[line], Some(&["struct"]), None, false, None, 0, false, false);
    colored::control::unset_override();
    assert_eq!(out.len(), 1);
    let deco = "\u{1b}[32mstruct\u{1b}[0m";
    assert_eq!(
        out[0],
        format!("a {} and a {} again", deco, deco)
    );
    let stripped = out[0].replace("\u{1b}[32m", "").replace("\u{1b}[0m", "");
    assert_eq!(stripped, line);
}

#[test]
fn colored_header_and_number_decorations() {
    colored::control::set_override(true);
    let out = run(
        &["only line"],
        Some(&["line"]),
        None,
        false,
        Some("x.txt"),
        0,
        true,
        false,
    );
    colored::control::unset_override();
    assert_eq!(out.len(), 3);
    assert_eq!(out[0], "\u{1b}[35mx.txt\u{1b}[0m");
    assert_eq!(out[1], "\u{1b}[34m0\u{1b}[0m: only \u{1b}[32mline\u{1b}[0m");
    assert_eq!(out[2], "");
}

#[test]
fn insensitive_highlight_replaces_folded_pattern_text() {
    colored::control::set_override(true);
    let out = run(
        &["Bash and bash"],
        Some(&["BASH"]),
        None,
        true,
        None,
        0,
        false,
        false,
    );
    colored::control::unset_override();
    // The stored pattern is folded once at construction, so only literal
    // lower-case occurrences in the line are wrapped.
    assert_eq!(out, svec(&["Bash and \u{1b}[32mbash\u{1b}[0m"]));
}

#[test]
fn line_numbers_are_right_aligned_and_zero_indexed() {
    colored::control::set_override(false);
    let lines: Vec<String> = (0..12).map(|i| format!("line {}", i)).collect();
    let refs: Vec<&str> = lines.iter().map(|s| s.as_str()).collect();
    let out = run(&refs, None, None, false, Some("n.txt"), 0, true, false);
    assert_eq!(out[0], "n.txt");
    assert_eq!(out[1], "   0: line 0");
    assert_eq!(out[10], "   9: line 9");
    assert_eq!(out[11], "  10: line 10");
    assert_eq!(out[12], "  11: line 11");
    assert_eq!(out[13], "");
}

#[test]
fn insensitive_exclude_folds_both_sides() {
    colored::control::set_override(false);
    let out = run(
        &["Noise HERE", "signal", "noise again"],
        None,
        Some(&["NOISE"]),
        true,
        None,
        0,
        false,
        false,
    );
    assert_eq!(out, svec(&["signal"]));
}
