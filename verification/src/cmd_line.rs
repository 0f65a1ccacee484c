//! The run configuration: the parsed command line, the merged options, and
//! the two decisions taken on the raw arguments — the single bare-argument
//! shorthand and the print-usage case.

use vstd::prelude::*;
use crate::filter::{ContentFilter, views_of, cf_patterns, cf_insensitive};
use crate::listing::FileNameFilter;

verus! {

/// The command line as parsed: one field per flag. Argument parsing itself
/// is input handling and lives outside the library.
pub struct Args {
    /// Recursively search
    pub recurse: bool,
    /// Case-insensitive search
    pub case_insensitive: bool,
    /// Root directory to search
    pub root: String,
    /// Show top n lines
    pub show_top: Option<usize>,
    /// Patterns to filter lines in a buffer
    pub pattern: Option<Vec<String>>,
    /// Excludes lines using this pattern in a buffer
    pub exclude: Option<Vec<String>>,
    /// Patterns to filter files
    pub file_pattern: Option<Vec<String>>,
    /// Optionally list of files; otherwise all files are searched
    pub files: Option<Vec<String>>,
    /// Show raw outputs, without colour, headers or line numbers
    pub raw: bool,
}

/// The merged, validated configuration for one run.
pub struct Options {
    pub recurse: bool,
    pub root_dir: String,
    pub content_filters: Option<ContentFilter>,
    pub content_exclude: Option<ContentFilter>,
    pub file_filter: FileNameFilter,
    pub file_list: Option<Vec<String>>,
    pub show_top_lines: usize,
    pub show_line_numbers: bool,
    pub raw_output: bool,
    pub debug_output: bool,
}

/// The views of an optional list of strings.
pub open spec fn opt_views(v: Option<Vec<String>>) -> Option<Seq<Seq<char>>> {
    match v {
        Some(l) => Some(views_of(l@)),
        None => None,
    }
}

/// An optional content filter built from optional patterns: absent when the
/// patterns are absent, case-insensitive when the flag says so.
pub open spec fn filter_of(of: Option<ContentFilter>, pats: Option<Vec<String>>, ci: bool) -> bool {
    match pats {
        None => of is None,
        Some(v) => match of {
            Some(f) => cf_insensitive(f) == ci && cf_patterns(f) == views_of(v@),
            None => false,
        },
    }
}

/// Build the merged options from the parsed arguments. Line numbers are
/// shown in file mode and suppressed when input is piped.
pub fn args_to_option(is_stdin: bool, args: Args) -> (o: Options)
    ensures
        o.recurse == args.recurse,
        o.root_dir@ == args.root@,
        filter_of(o.content_filters, args.pattern, args.case_insensitive),
        filter_of(o.content_exclude, args.exclude, args.case_insensitive),
        is_stdin ==> o.file_filter is Every,
        !is_stdin ==> match args.file_pattern {
            Some(v) => o.file_filter matches FileNameFilter::CaseInsensitive(w) && views_of(w@)
                == views_of(v@),
            None => o.file_filter matches FileNameFilter::CaseInsensitive(w) && views_of(w@)
                == seq![Seq::<char>::empty()],
        },
        opt_views(o.file_list) == opt_views(args.files),
        o.show_top_lines == (match args.show_top {
            Some(n) => n,
            None => 0usize,
        }),
        o.show_line_numbers == !is_stdin,
        o.raw_output == args.raw,
        o.debug_output == false,
{
    let content_filters: Option<ContentFilter> = match (args.pattern, args.case_insensitive) {
        (Some(patt), true) => Some(ContentFilter::CaseInsensitive(patt)),
        (Some(patt), false) => Some(ContentFilter::CaseSensitive(patt)),
        (None, _) => None,
    };
    let content_exclude: Option<ContentFilter> = match (args.exclude, args.case_insensitive) {
        (Some(patt), true) => Some(ContentFilter::CaseInsensitive(patt)),
        (Some(patt), false) => Some(ContentFilter::CaseSensitive(patt)),
        (None, _) => None,
    };
    let file_filter: FileNameFilter = if is_stdin {
        FileNameFilter::Every
    } else {
        match args.file_pattern {
            Some(file_pattern) => FileNameFilter::CaseInsensitive(file_pattern),
            None => {
                let mut dflt: Vec<String> = Vec::new();
                dflt.push(String::new());
                proof {
                    assert(views_of(dflt@) =~~= seq![Seq::<char>::empty()]);
                }
                FileNameFilter::CaseInsensitive(dflt)
            },
        }
    };
    Options {
        recurse: args.recurse,
        root_dir: args.root,
        content_filters,
        content_exclude,
        file_filter,
        file_list: args.files,
        show_top_lines: match args.show_top {
            Some(n) => n,
            None => 0,
        },
        show_line_numbers: !is_stdin,
        raw_output: args.raw,
        debug_output: false,
    }
}

/// Is the argument vector exactly one bare word, so that the shorthand
/// applies?
pub open spec fn is_bare_arg(argv: Seq<Seq<char>>) -> bool {
    argv.len() == 1 && !(argv[0].len() > 0 && argv[0][0] == '-')
}

/// The single bare-argument shorthand, decided on the raw argument vector
/// (without the program name) before any structured parsing: one argument
/// that is not a flag stands for a recursive, case-insensitive search for
/// that argument, with every other option at its default.
pub fn bare_arg_shortcut(argv: &Vec<String>) -> (r: Option<Args>)
    ensures
        (r is Some) == is_bare_arg(views_of(argv@)),
        r matches Some(a) ==> {
            &&& a.recurse == true
            &&& a.case_insensitive == true
            &&& a.root@ == "."@
            &&& a.pattern matches Some(p) && views_of(p@) == seq![argv@[0]@]
            &&& a.exclude is None
            &&& a.file_pattern is None
            &&& a.files is None
            &&& a.show_top is None
            &&& a.raw == false
        },
{
    if argv.len() != 1 {
        return None;
    }
    let a = &argv[0];
    let is_flag: bool = if a.as_str().unicode_len() > 0 {
        a.as_str().get_char(0) == '-'
    } else {
        false
    };
    if is_flag {
        return None;
    }
    let mut pats: Vec<String> = Vec::new();
    pats.push(a.clone());
    proof {
        assert(views_of(pats@) =~~= seq![argv@[0]@]);
    }
    Some(
        Args {
            recurse: true,
            case_insensitive: true,
            root: String::from_str("."),
            show_top: None,
            pattern: Some(pats),
            exclude: None,
            file_pattern: None,
            files: None,
            raw: false,
        },
    )
}

/// With neither an inclusion pattern nor an exclude pattern the run prints
/// the usage text and searches nothing.
pub fn needs_usage(args: &Args) -> (b: bool)
    ensures
        b == (args.pattern is None && args.exclude is None),
{
    match (&args.pattern, &args.exclude) {
        (None, None) => true,
        _ => false,
    }
}

} // verus!
