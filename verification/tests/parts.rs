use sgrep::cmd_line::{args_to_option, bare_arg_shortcut, needs_usage, Args};
use sgrep::filter::{colorize, colorize_filter, normalize_filter, ContentFilter};
use sgrep::listing::{is_path_valid, list_files, FileEntry, FileNameFilter};
use sgrep::text::{chars_to_string, contains_pat, dec_chars, pad_left_chars, replace_chars, str_to_chars};

fn svec(xs: &[&str]) -> Vec<String> {
    xs.iter().map(|x| x.to_string()).collect()
}

fn default_args() -> Args {
    Args {
        recurse: false,
        case_insensitive: false,
        root: ".".to_string(),
        show_top: None,
        pattern: None,
        exclude: None,
        file_pattern: None,
        files: None,
        raw: false,
    }
}

#[test]
fn colorize_replaces_every_occurrence_of_each_filter() {
    let out = colorize("abc abc x", &svec(&["abc"]), &svec(&["<abc>"]));
    assert_eq!(out, "<abc> <abc> x");
}

#[test]
fn colorize_applies_filters_in_list_order() {
    let out = colorize("ab", &svec(&["a", "b"]), &svec(&["[a]", "[b]"]));
    assert_eq!(out, "[a][b]");
}

#[test]
fn colorize_without_filters_returns_line() {
    let out = colorize("plain line", &svec(&[]), &svec(&[]));
    assert_eq!(out, "plain line");
}

#[test]
fn colorize_filter_wraps_in_green_when_forced() {
    colored::control::set_override(true);
    let out = colorize_filter(&svec(&["pat"]));
    colored::control::unset_override();
    assert_eq!(out, svec(&["\u{1b}[32mpat\u{1b}[0m"]));
}

#[test]
fn colorize_filter_plain_when_disabled() {
    colored::control::set_override(false);
    let out = colorize_filter(&svec(&["pat"]));
    assert_eq!(out, svec(&["pat"]));
}

#[test]
fn normalize_filter_folds_insensitive_patterns_once() {
    let f = ContentFilter::CaseInsensitive(svec(&["AbC", "XY"]));
    match normalize_filter(&f) {
        ContentFilter::CaseInsensitive(v) => assert_eq!(v, svec(&["abc", "xy"])),
        ContentFilter::CaseSensitive(_) => panic!("variant changed"),
    }
}

#[test]
fn normalize_filter_keeps_sensitive_patterns() {
    let f = ContentFilter::CaseSensitive(svec(&["AbC"]));
    match normalize_filter(&f) {
        ContentFilter::CaseSensitive(v) => assert_eq!(v, svec(&["AbC"])),
        ContentFilter::CaseInsensitive(_) => panic!("variant changed"),
    }
}

#[test]
fn path_filter_every_accepts_all_names() {
    assert!(is_path_valid(&FileNameFilter::Every, "anything.bin"));
    assert!(is_path_valid(&FileNameFilter::Every, ""));
}

#[test]
fn path_filter_insensitive_folds_both_sides() {
    let f = FileNameFilter::CaseInsensitive(svec(&[".RS"]));
    assert!(is_path_valid(&f, "main.rs"));
    assert!(is_path_valid(&f, "MAIN.RS"));
    assert!(!is_path_valid(&f, "main.c"));
}

#[test]
fn path_filter_sensitive_is_literal() {
    let f = FileNameFilter::CaseSensitive(svec(&[".rs"]));
    assert!(is_path_valid(&f, "main.rs"));
    assert!(!is_path_valid(&f, "MAIN.RS"));
}

#[test]
fn path_filter_empty_substring_accepts_all_names() {
    let f = FileNameFilter::CaseInsensitive(svec(&[""]));
    assert!(is_path_valid(&f, "whatever"));
}

#[test]
fn list_files_keeps_matching_paths_in_order() {
    let entries = vec![
        FileEntry { path: "./a/main.rs".to_string(), name: "main.rs".to_string() },
        FileEntry { path: "./b/notes.txt".to_string(), name: "notes.txt".to_string() },
        FileEntry { path: "./c/lib.rs".to_string(), name: "lib.rs".to_string() },
    ];
    let out = list_files(&entries, &FileNameFilter::CaseInsensitive(svec(&[".rs"])));
    assert_eq!(out, svec(&["./a/main.rs", "./c/lib.rs"]));
}

#[test]
fn list_files_with_every_keeps_all() {
    let entries = vec![
        FileEntry { path: "x".to_string(), name: "x".to_string() },
        FileEntry { path: "y".to_string(), name: "y".to_string() },
    ];
    let out = list_files(&entries, &FileNameFilter::Every);
    assert_eq!(out, svec(&["x", "y"]));
}

#[test]
fn args_to_option_maps_patterns_and_case_mode() {
    let mut args = default_args();
    args.pattern = Some(svec(&["foo"]));
    args.exclude = Some(svec(&["bar"]));
    args.case_insensitive = true;
    let o = args_to_option(false, args);
    match o.content_filters {
        Some(ContentFilter::CaseInsensitive(v)) => assert_eq!(v, svec(&["foo"])),
        _ => panic!("wrong inclusion filter"),
    }
    match o.content_exclude {
        Some(ContentFilter::CaseInsensitive(v)) => assert_eq!(v, svec(&["bar"])),
        _ => panic!("wrong exclude filter"),
    }
}

#[test]
fn args_to_option_sensitive_by_default() {
    let mut args = default_args();
    args.pattern = Some(svec(&["foo"]));
    let o = args_to_option(false, args);
    match o.content_filters {
        Some(ContentFilter::CaseSensitive(v)) => assert_eq!(v, svec(&["foo"])),
        _ => panic!("wrong inclusion filter"),
    }
    assert!(o.content_exclude.is_none());
}

#[test]
fn args_to_option_stdin_ignores_file_patterns() {
    let mut args = default_args();
    args.pattern = Some(svec(&["x"]));
    args.file_pattern = Some(svec(&[".rs"]));
    let o = args_to_option(true, args);
    assert!(matches!(o.file_filter, FileNameFilter::Every));
    assert!(!o.show_line_numbers);
}

#[test]
fn args_to_option_default_file_filter_matches_everything() {
    let mut args = default_args();
    args.pattern = Some(svec(&["x"]));
    let o = args_to_option(false, args);
    match &o.file_filter {
        FileNameFilter::CaseInsensitive(v) => {
            assert_eq!(*v, svec(&[""]));
            assert!(is_path_valid(&o.file_filter, "any name at all"));
        },
        _ => panic!("wrong file filter"),
    }
    assert!(o.show_line_numbers);
}

#[test]
fn args_to_option_top_default_is_zero() {
    let mut args = default_args();
    args.pattern = Some(svec(&["x"]));
    let o = args_to_option(true, args);
    assert_eq!(o.show_top_lines, 0);
    let mut args2 = default_args();
    args2.pattern = Some(svec(&["x"]));
    args2.show_top = Some(7);
    let o2 = args_to_option(true, args2);
    assert_eq!(o2.show_top_lines, 7);
}

#[test]
fn bare_argument_stands_for_recursive_insensitive_search() {
    let got = bare_arg_shortcut(&svec(&["armaria"])).expect("shortcut applies");
    assert!(got.recurse);
    assert!(got.case_insensitive);
    assert_eq!(got.root, ".");
    assert_eq!(got.pattern, Some(svec(&["armaria"])));
    assert!(got.exclude.is_none());
    assert!(got.file_pattern.is_none());
    assert!(got.files.is_none());
    assert!(got.show_top.is_none());
    assert!(!got.raw);
}

#[test]
fn bare_argument_equivalent_to_explicit_flags() {
    let shortcut = bare_arg_shortcut(&svec(&["armaria"])).unwrap();
    let mut explicit = default_args();
    explicit.recurse = true;
    explicit.case_insensitive = true;
    explicit.pattern = Some(svec(&["armaria"]));
    let a = args_to_option(false, shortcut);
    let b = args_to_option(false, explicit);
    assert_eq!(a.recurse, b.recurse);
    assert_eq!(a.root_dir, b.root_dir);
    assert_eq!(a.show_top_lines, b.show_top_lines);
    assert_eq!(a.show_line_numbers, b.show_line_numbers);
    assert_eq!(a.raw_output, b.raw_output);
    match (a.content_filters, b.content_filters) {
        (Some(ContentFilter::CaseInsensitive(x)), Some(ContentFilter::CaseInsensitive(y))) => {
            assert_eq!(x, y)
        },
        _ => panic!("filters differ"),
    }
    assert!(a.content_exclude.is_none() && b.content_exclude.is_none());
}

#[test]
fn flags_and_several_arguments_are_no_shortcut() {
    assert!(bare_arg_shortcut(&svec(&["-r"])).is_none());
    assert!(bare_arg_shortcut(&svec(&["a", "b"])).is_none());
    assert!(bare_arg_shortcut(&svec(&[])).is_none());
}

#[test]
fn usage_needed_only_without_pattern_and_exclude() {
    assert!(needs_usage(&default_args()));
    let mut with_pat = default_args();
    with_pat.pattern = Some(svec(&["x"]));
    assert!(!needs_usage(&with_pat));
    let mut with_excl = default_args();
    with_excl.exclude = Some(svec(&["x"]));
    assert!(!needs_usage(&with_excl));
}

#[test]
fn substring_search_finds_inner_occurrences() {
    let s = str_to_chars("hello world");
    assert!(contains_pat(&s, &str_to_chars("lo wo")));
    assert!(contains_pat(&s, &str_to_chars("")));
    assert!(!contains_pat(&s, &str_to_chars("worlds")));
}

#[test]
fn replace_is_literal_and_non_overlapping() {
    let out = replace_chars(&str_to_chars("aaa"), &str_to_chars("aa"), &str_to_chars("b"));
    assert_eq!(chars_to_string(&out), "ba");
    let none = replace_chars(&str_to_chars("abc"), &str_to_chars(""), &str_to_chars("x"));
    assert_eq!(chars_to_string(&none), "abc");
}

#[test]
fn decimal_and_padding_formatting() {
    assert_eq!(chars_to_string(&dec_chars(0)), "0");
    assert_eq!(chars_to_string(&dec_chars(2026)), "2026");
    let padded = pad_left_chars(&dec_chars(7), 4);
    assert_eq!(chars_to_string(&padded), "   7");
    let wide = pad_left_chars(&dec_chars(123456), 4);
    assert_eq!(chars_to_string(&wide), "123456");
}
