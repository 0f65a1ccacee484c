//! The line filter engine: incl/exclude pattern sets, per-line selection,
//! and rendering of the surviving lines.

use vstd::prelude::*;
use crate::text::{
    contains_seq, lower_seq, lower_chars, replace_all, replace_chars, str_to_chars,
    chars_to_string, lemma_lower_seq_idempotent, dec_digits, pad_left, dec_chars,
    pad_left_chars, lemma_dec_digits_are_digits,
};
use crate::color::{
    no_escape, deco_green, deco_blue, deco_purple, paint_green, paint_blue, paint_purple,
};

verus! {

/// A set of incl or exclude patterns together with its case mode.
pub enum ContentFilter {
    CaseSensitive(Vec<String>),
    CaseInsensitive(Vec<String>),
}

/// The view of a list of strings as a sequence of character sequences.
pub open spec fn views_of(ss: Seq<String>) -> Seq<Seq<char>> {
    ss.map_values(|s: String| s@)
}

/// The stored patterns of a filter, as given.
pub open spec fn cf_patterns(f: ContentFilter) -> Seq<Seq<char>> {
    match f {
        ContentFilter::CaseSensitive(v) => views_of(v@),
        ContentFilter::CaseInsensitive(v) => views_of(v@),
    }
}

/// Is the filter case-insensitive?
pub open spec fn cf_insensitive(f: ContentFilter) -> bool {
    f is CaseInsensitive
}

/// The patterns a filter effectively matches and highlights with: folded to
/// lower case for a case-insensitive filter, as given otherwise.
pub open spec fn effective_patterns(f: ContentFilter) -> Seq<Seq<char>> {
    if cf_insensitive(f) {
        cf_patterns(f).map_values(|p: Seq<char>| lower_seq(p))
    } else {
        cf_patterns(f)
    }
}

/// Does the line match the filter: at least one pattern is a substring of
/// the line, both folded to lower case when the filter is case-insensitive.
pub open spec fn match_line(f: ContentFilter, line: Seq<char>) -> bool {
    if cf_insensitive(f) {
        exists|i: int|
            0 <= i < cf_patterns(f).len() && contains_seq(
                lower_seq(line),
                lower_seq(cf_patterns(f)[i]),
            )
    } else {
        exists|i: int| 0 <= i < cf_patterns(f).len() && contains_seq(line, cf_patterns(f)[i])
    }
}

/// Matching depends only on the effective patterns, so pre-folding the
/// patterns of a case-insensitive filter changes nothing.
pub proof fn lemma_match_line_normalized(v: Vec<String>, w: Vec<String>, line: Seq<char>)
    requires
        views_of(w@) == views_of(v@).map_values(|p: Seq<char>| lower_seq(p)),
    ensures
        match_line(ContentFilter::CaseInsensitive(w), line) == match_line(
            ContentFilter::CaseInsensitive(v),
            line,
        ),
{
    let fv = ContentFilter::CaseInsensitive(v);
    let fw = ContentFilter::CaseInsensitive(w);
    assert forall|i: int| 0 <= i < cf_patterns(fw).len() implies lower_seq(cf_patterns(fw)[i])
        == lower_seq(cf_patterns(fv)[i]) by {
        lemma_lower_seq_idempotent(cf_patterns(fv)[i]);
    }
    assert(cf_patterns(fw).len() == cf_patterns(fv).len());
    if match_line(fv, line) {
        let i = choose|i: int|
            0 <= i < cf_patterns(fv).len() && contains_seq(
                lower_seq(line),
                lower_seq(cf_patterns(fv)[i]),
            );
        assert(contains_seq(lower_seq(line), lower_seq(cf_patterns(fw)[i])));
    }
    if match_line(fw, line) {
        let i = choose|i: int|
            0 <= i < cf_patterns(fw).len() && contains_seq(
                lower_seq(line),
                lower_seq(cf_patterns(fw)[i]),
            );
        assert(contains_seq(lower_seq(line), lower_seq(cf_patterns(fv)[i])));
    }
}

/// Fold the stored patterns of a case-insensitive filter to lower case once,
/// so that later matching folds only the candidate line. A case-sensitive
/// filter is returned as it came.
pub fn normalize_filter(f: &ContentFilter) -> (r: ContentFilter)
    ensures
        cf_insensitive(r) == cf_insensitive(*f),
        cf_patterns(r) == effective_patterns(*f),
        effective_patterns(r) == effective_patterns(*f),
        forall|l: Seq<char>| match_line(r, l) == match_line(*f, l),
{
    match f {
        ContentFilter::CaseSensitive(v) => {
            let r = ContentFilter::CaseSensitive(clone_strings(v));
            assert(cf_patterns(r) =~= cf_patterns(*f));
            r
        },
        ContentFilter::CaseInsensitive(v) => {
            let mut w: Vec<String> = Vec::new();
            let mut i: usize = 0;
            while i < v.len()
                invariant
                    i <= v@.len(),
                    w@.len() == i,
                    forall|k: int| 0 <= k < i ==> #[trigger] w@[k]@ == lower_seq(v@[k]@),
                decreases v.len() - i,
            {
                let cs = str_to_chars(v[i].as_str());
                let low = lower_chars(&cs);
                w.push(chars_to_string(&low));
                i += 1;
            }
            assert forall|k: int| 0 <= k < w@.len() implies views_of(w@)[k] == views_of(
                v@,
            ).map_values(|p: Seq<char>| lower_seq(p))[k] by {
                assert(views_of(w@)[k] == w@[k]@);
                assert(views_of(v@)[k] == v@[k]@);
            }
            assert(views_of(w@) =~~= views_of(v@).map_values(|p: Seq<char>| lower_seq(p)));
            let ghost wsnap = w;
            let r = ContentFilter::CaseInsensitive(w);
            proof {
                assert(cf_patterns(r) =~= effective_patterns(*f));
                assert forall|i2: int|
                    0 <= i2 < cf_patterns(r).len() implies #[trigger] lower_seq(cf_patterns(r)[i2])
                    == cf_patterns(r)[i2] by {
                    lemma_lower_seq_idempotent(cf_patterns(*f)[i2]);
                }
                assert(effective_patterns(r) =~= cf_patterns(r));
                assert forall|l: Seq<char>| match_line(r, l) == match_line(*f, l) by {
                    lemma_match_line_normalized(*v, wsnap, l);
                }
            }
            r
        },
    }
}

/// A fresh copy of a list of strings with the same characters.
fn clone_strings(v: &Vec<String>) -> (r: Vec<String>)
    ensures
        views_of(r@) == views_of(v@),
{
    let mut r: Vec<String> = Vec::new();
    let mut i: usize = 0;
    while i < v.len()
        invariant
            i <= v@.len(),
            r@.len() == i,
            forall|k: int| 0 <= k < i ==> #[trigger] r@[k]@ == v@[k]@,
        decreases v.len() - i,
    {
        r.push(v[i].clone());
        i += 1;
    }
    assert forall|k: int| 0 <= k < r@.len() implies views_of(r@)[k] == views_of(v@)[k] by {
        assert(views_of(r@)[k] == r@[k]@);
        assert(views_of(v@)[k] == v@[k]@);
    }
    assert(views_of(r@) =~~= views_of(v@));
    r
}

/// Does at least one pattern occur in the target, patterns taken as given?
pub(crate) fn any_contains(pats: &Vec<String>, target: &Vec<char>) -> (b: bool)
    ensures
        b == exists|i: int|
            0 <= i < views_of(pats@).len() && contains_seq(target@, views_of(pats@)[i]),
{
    let mut i: usize = 0;
    while i < pats.len()
        invariant
            i <= pats@.len(),
            forall|k: int| 0 <= k < i ==> !contains_seq(target@, views_of(pats@)[k]),
        decreases pats.len() - i,
    {
        let p = str_to_chars(pats[i].as_str());
        if crate::text::contains_pat(target, &p) {
            assert(contains_seq(target@, views_of(pats@)[i as int]));
            return true;
        }
        i += 1;
    }
    false
}

/// Does at least one pattern, folded to lower case, occur in the target?
pub(crate) fn any_contains_lower(pats: &Vec<String>, target: &Vec<char>) -> (b: bool)
    ensures
        b == exists|i: int|
            0 <= i < views_of(pats@).len() && contains_seq(target@, lower_seq(views_of(pats@)[i])),
{
    let mut i: usize = 0;
    while i < pats.len()
        invariant
            i <= pats@.len(),
            forall|k: int| 0 <= k < i ==> !contains_seq(target@, lower_seq(views_of(pats@)[k])),
        decreases pats.len() - i,
    {
        let p = str_to_chars(pats[i].as_str());
        let low = lower_chars(&p);
        if crate::text::contains_pat(target, &low) {
            assert(contains_seq(target@, lower_seq(views_of(pats@)[i as int])));
            return true;
        }
        i += 1;
    }
    false
}

/// Does the line match the filter?
pub fn content_matches(f: &ContentFilter, line: &Vec<char>) -> (b: bool)
    ensures
        b == match_line(*f, line@),
{
    match f {
        ContentFilter::CaseSensitive(v) => any_contains(v, line),
        ContentFilter::CaseInsensitive(v) => {
            let low = lower_chars(line);
            any_contains_lower(v, &low)
        },
    }
}

/// Sequential literal replacement of each filter by its decorated version,
/// in list order; overlaps between distinct patterns resolve by whichever
/// replacement ran last.
pub open spec fn colorize_spec(line: Seq<char>, fs: Seq<Seq<char>>, cs: Seq<Seq<char>>) -> Seq<
    char,
>
    decreases fs.len(),
{
    if fs.len() == 0 || cs.len() == 0 {
        line
    } else {
        colorize_spec(replace_all(line, fs[0], cs[0]), fs.skip(1), cs.skip(1))
    }
}

/// Replace every occurrence of each filter in the line by the corresponding
/// decorated filter, one filter after the other in list order.
pub fn colorize(line: &str, filters: &[String], colored_filters: &[String]) -> (r: String)
    requires
        filters@.len() == colored_filters@.len(),
    ensures
        r@ == colorize_spec(line@, views_of(filters@), views_of(colored_filters@)),
{
    let ghost fs = views_of(filters@);
    let ghost cs = views_of(colored_filters@);
    let mut cur = str_to_chars(line);
    let mut i: usize = 0;
    proof {
        assert(fs.skip(0) =~= fs);
        assert(cs.skip(0) =~= cs);
    }
    while i < filters.len()
        invariant
            i <= filters@.len(),
            filters@.len() == colored_filters@.len(),
            fs == views_of(filters@),
            cs == views_of(colored_filters@),
            colorize_spec(line@, fs, cs) == colorize_spec(cur@, fs.skip(i as int), cs.skip(i as int)),
        decreases filters.len() - i,
    {
        let f = str_to_chars(filters[i].as_str());
        let c = str_to_chars(colored_filters[i].as_str());
        let next = replace_chars(&cur, &f, &c);
        proof {
            assert(fs.skip(i as int)[0] == fs[i as int]);
            assert(cs.skip(i as int)[0] == cs[i as int]);
            assert(fs.skip(i as int).skip(1) =~= fs.skip(i + 1));
            assert(cs.skip(i as int).skip(1) =~= cs.skip(i + 1));
        }
        cur = next;
        i += 1;
    }
    proof {
        assert(fs.skip(filters@.len() as int) =~= Seq::<Seq<char>>::empty());
        assert(cs.skip(filters@.len() as int) =~= Seq::<Seq<char>>::empty());
    }
    chars_to_string(&cur)
}

/// Decorate each filter with the green highlight, through `colored`; when
/// colouring is disabled each filter comes back unchanged.
pub fn colorize_filter(filters: &Vec<String>) -> (r: Vec<String>)
    ensures
        r@.len() == filters@.len(),
        forall|i: int|
            0 <= i < filters@.len() && no_escape(views_of(filters@)[i]) ==> views_of(r@)[i]
                == views_of(filters@)[i] || views_of(r@)[i] == deco_green(views_of(filters@)[i]),
{
    let mut r: Vec<String> = Vec::new();
    let mut i: usize = 0;
    while i < filters.len()
        invariant
            i <= filters@.len(),
            r@.len() == i,
            forall|k: int|
                0 <= k < i && no_escape(views_of(filters@)[k]) ==> views_of(r@)[k] == views_of(
                    filters@,
                )[k] || views_of(r@)[k] == deco_green(views_of(filters@)[k]),
        decreases filters.len() - i,
    {
        r.push(paint_green(filters[i].as_str()));
        i += 1;
    }
    r
}

/// Does an optional filter match the line? An absent filter matches nothing.
pub open spec fn opt_match(of: Option<ContentFilter>, line: Seq<char>) -> bool {
    match of {
        Some(f) => match_line(f, line),
        None => false,
    }
}

/// The inclusion decision for the line at 0-indexed position `i`: with no
/// incl set every line passes; otherwise a line passes when it sits in
/// the leading `top_n` window or matches an inclusion pattern.
pub open spec fn passes_inclusion(
    incl: Option<ContentFilter>,
    top_n: int,
    i: int,
    line: Seq<char>,
) -> bool {
    match incl {
        None => true,
        Some(f) => i < top_n || match_line(f, line),
    }
}

/// The full per-line decision: exclusion is checked first and wins over
/// everything, then the inclusion decision applies.
pub open spec fn line_selected(
    incl: Option<ContentFilter>,
    exclude: Option<ContentFilter>,
    top_n: int,
    i: int,
    line: Seq<char>,
) -> bool {
    &&& !opt_match(exclude, line)
    &&& passes_inclusion(incl, top_n, i, line)
}

/// With no incl set every line passes the inclusion decision, whatever
/// the exclude set, the position and the window are; such a line is then
/// selected exactly when it is not excluded.
pub proof fn lemma_pass_through(
    exclude: Option<ContentFilter>,
    top_n: int,
    i: int,
    line: Seq<char>,
)
    ensures
        passes_inclusion(None, top_n, i, line),
        line_selected(None, exclude, top_n, i, line) == !opt_match(exclude, line),
{
}

/// A line that matches the exclude set is never selected: not for an incl
/// match, not in the leading window, not in pass-through mode.
pub proof fn lemma_exclude_wins(
    incl: Option<ContentFilter>,
    exclude: Option<ContentFilter>,
    top_n: int,
    i: int,
    line: Seq<char>,
)
    requires
        opt_match(exclude, line),
    ensures
        !line_selected(incl, exclude, top_n, i, line),
{
}

/// Every line in the leading window (0-indexed positions up to `top_n`) is
/// selected whatever the incl set holds, unless it is excluded.
pub proof fn lemma_top_window_forced(
    incl: Option<ContentFilter>,
    exclude: Option<ContentFilter>,
    top_n: int,
    i: int,
    line: Seq<char>,
)
    requires
        0 <= i < top_n,
        !opt_match(exclude, line),
    ensures
        line_selected(incl, exclude, top_n, i, line),
{
}

/// Case-insensitive matching is invariant under any change of the line that
/// keeps its case folding, in particular under changing the case of ASCII
/// letters.
pub proof fn lemma_case_fold_line_invariant(f: ContentFilter, l1: Seq<char>, l2: Seq<char>)
    requires
        cf_insensitive(f),
        lower_seq(l1) == lower_seq(l2),
    ensures
        match_line(f, l1) == match_line(f, l2),
{
}

/// Case-insensitive matching is likewise invariant under changing the case
/// of the patterns: two pattern lists with the same case folding match the
/// same lines.
pub proof fn lemma_case_fold_pattern_invariant(v1: Vec<String>, v2: Vec<String>, line: Seq<char>)
    requires
        v1@.len() == v2@.len(),
        forall|i: int|
            0 <= i < v1@.len() ==> lower_seq(#[trigger] views_of(v1@)[i]) == lower_seq(
                views_of(v2@)[i],
            ),
    ensures
        match_line(ContentFilter::CaseInsensitive(v1), line) == match_line(
            ContentFilter::CaseInsensitive(v2),
            line,
        ),
{
    let f1 = ContentFilter::CaseInsensitive(v1);
    let f2 = ContentFilter::CaseInsensitive(v2);
    if match_line(f1, line) {
        let i = choose|i: int|
            0 <= i < cf_patterns(f1).len() && contains_seq(
                lower_seq(line),
                lower_seq(cf_patterns(f1)[i]),
            );
        assert(contains_seq(lower_seq(line), lower_seq(cf_patterns(f2)[i])));
    }
    if match_line(f2, line) {
        let i = choose|i: int|
            0 <= i < cf_patterns(f2).len() && contains_seq(
                lower_seq(line),
                lower_seq(cf_patterns(f2)[i]),
            );
        assert(contains_seq(lower_seq(line), lower_seq(cf_patterns(f1)[i])));
    }
}

/// The stored patterns of an optional filter; none means an empty list.
pub open spec fn opt_patterns(of: Option<ContentFilter>) -> Seq<Seq<char>> {
    match of {
        Some(f) => cf_patterns(f),
        None => Seq::empty(),
    }
}

/// The effective patterns of an optional filter; none means an empty list.
pub open spec fn effective_opt_patterns(of: Option<ContentFilter>) -> Seq<Seq<char>> {
    match of {
        Some(f) => effective_patterns(f),
        None => Seq::empty(),
    }
}

/// The view of an optional label.
pub open spec fn label_view(l: &Option<String>) -> Option<Seq<char>> {
    match l {
        Some(s) => Some(s@),
        None => None,
    }
}

/// A label is colourable exactly when it holds no escape character.
pub open spec fn label_ok(l: Option<Seq<char>>) -> bool {
    match l {
        Some(s) => no_escape(s),
        None => true,
    }
}

/// The line-number prefix: the decimal line number, blue when the terminal
/// decoration was applied, right-aligned to four columns, then a colon and a
/// space. The decorated form is longer than four columns, so padding only
/// ever widens the plain form.
pub open spec fn num_prefix(i: int, deco: bool) -> Seq<char> {
    pad_left(
        if deco {
            deco_blue(dec_digits(i as nat))
        } else {
            dec_digits(i as nat)
        },
        4,
    ) + seq![':', ' ']
}

/// The header line for a label: purple when the decoration was applied.
pub open spec fn header_line(lv: Seq<char>, deco: bool) -> Seq<char> {
    if deco {
        deco_purple(lv)
    } else {
        lv
    }
}

/// One selected line as printed: the raw text in raw mode; otherwise the
/// line with every pattern occurrence replaced by its decorated form,
/// behind the line-number prefix when numbers are shown.
pub open spec fn rendered_line(
    line: Seq<char>,
    i: int,
    fs: Seq<Seq<char>>,
    cs: Seq<Seq<char>>,
    show_nums: bool,
    raw: bool,
    nd: bool,
) -> Seq<char> {
    if raw {
        line
    } else if show_nums {
        num_prefix(i, nd) + colorize_spec(line, fs, cs)
    } else {
        colorize_spec(line, fs, cs)
    }
}

/// The printed renderings of the selected lines among the first `k` lines
/// of the stream, in stream order, without header or trailing separator.
pub open spec fn render_front(
    lines: Seq<Seq<char>>,
    incl: Option<ContentFilter>,
    excl: Option<ContentFilter>,
    fs: Seq<Seq<char>>,
    cs: Seq<Seq<char>>,
    top_n: int,
    show_nums: bool,
    raw: bool,
    nd: Seq<bool>,
    k: int,
) -> Seq<Seq<char>>
    decreases k,
{
    if k <= 0 {
        Seq::empty()
    } else {
        render_front(lines, incl, excl, fs, cs, top_n, show_nums, raw, nd, k - 1) + (
        if line_selected(incl, excl, top_n, k - 1, lines[k - 1]) {
            seq![rendered_line(lines[k - 1], k - 1, fs, cs, show_nums, raw, nd[k - 1])]
        } else {
            Seq::empty()
        })
    }
}

/// Is at least one of the first `k` lines selected?
pub open spec fn any_selected_front(
    lines: Seq<Seq<char>>,
    incl: Option<ContentFilter>,
    excl: Option<ContentFilter>,
    top_n: int,
    k: int,
) -> bool {
    exists|i: int| 0 <= i < k && line_selected(incl, excl, top_n, i, lines[i])
}

/// Is at least one line of the stream selected?
pub open spec fn any_selected(
    lines: Seq<Seq<char>>,
    incl: Option<ContentFilter>,
    excl: Option<ContentFilter>,
    top_n: int,
) -> bool {
    any_selected_front(lines, incl, excl, top_n, lines.len() as int)
}

/// How many of the first `k` lines are selected.
pub open spec fn count_selected(
    lines: Seq<Seq<char>>,
    incl: Option<ContentFilter>,
    excl: Option<ContentFilter>,
    top_n: int,
    k: int,
) -> int
    decreases k,
{
    if k <= 0 {
        0
    } else {
        count_selected(lines, incl, excl, top_n, k - 1) + (
        if line_selected(incl, excl, top_n, k - 1, lines[k - 1]) {
            1int
        } else {
            0int
        })
    }
}

/// The whole printed stream: in raw mode, or without a label, or when no
/// line is selected, just the rendered selected lines; otherwise the header
/// line first and one empty separator line last.
pub open spec fn render_spec(
    lines: Seq<Seq<char>>,
    incl: Option<ContentFilter>,
    excl: Option<ContentFilter>,
    fs: Seq<Seq<char>>,
    cs: Seq<Seq<char>>,
    label: Option<Seq<char>>,
    top_n: int,
    show_nums: bool,
    raw: bool,
    nd: Seq<bool>,
    headdeco: bool,
) -> Seq<Seq<char>> {
    let body = render_front(lines, incl, excl, fs, cs, top_n, show_nums, raw, nd, lines.len() as int);
    match label {
        None => body,
        Some(lv) => if raw || !any_selected(lines, incl, excl, top_n) {
            body
        } else {
            seq![header_line(lv, headdeco)] + body + seq![Seq::<char>::empty()]
        },
    }
}

/// Appending a decoration choice beyond position `k` does not change the
/// rendering of the first `k` lines.
pub proof fn lemma_render_front_push_nd(
    lines: Seq<Seq<char>>,
    incl: Option<ContentFilter>,
    excl: Option<ContentFilter>,
    fs: Seq<Seq<char>>,
    cs: Seq<Seq<char>>,
    top_n: int,
    show_nums: bool,
    raw: bool,
    nd: Seq<bool>,
    b: bool,
    k: int,
)
    requires
        k <= nd.len(),
    ensures
        render_front(lines, incl, excl, fs, cs, top_n, show_nums, raw, nd.push(b), k)
            == render_front(lines, incl, excl, fs, cs, top_n, show_nums, raw, nd, k),
    decreases k,
{
    if k > 0 {
        lemma_render_front_push_nd(lines, incl, excl, fs, cs, top_n, show_nums, raw, nd, b, k - 1);
        assert(nd.push(b)[k - 1] == nd[k - 1]);
    }
}

/// When none of the first `k` lines is selected nothing is rendered.
pub proof fn lemma_render_front_empty(
    lines: Seq<Seq<char>>,
    incl: Option<ContentFilter>,
    excl: Option<ContentFilter>,
    fs: Seq<Seq<char>>,
    cs: Seq<Seq<char>>,
    top_n: int,
    show_nums: bool,
    raw: bool,
    nd: Seq<bool>,
    k: int,
)
    requires
        !any_selected_front(lines, incl, excl, top_n, k),
    ensures
        render_front(lines, incl, excl, fs, cs, top_n, show_nums, raw, nd, k) == Seq::<Seq<char>>::empty(),
    decreases k,
{
    if k > 0 {
        assert(!any_selected_front(lines, incl, excl, top_n, k - 1));
        lemma_render_front_empty(lines, incl, excl, fs, cs, top_n, show_nums, raw, nd, k - 1);
        assert(!line_selected(incl, excl, top_n, k - 1, lines[k - 1]));
        assert(render_front(lines, incl, excl, fs, cs, top_n, show_nums, raw, nd, k)
            =~= Seq::<Seq<char>>::empty());
    }
}

/// The rendering of the first `k` lines holds exactly one entry per
/// selected line.
pub proof fn lemma_render_front_len(
    lines: Seq<Seq<char>>,
    incl: Option<ContentFilter>,
    excl: Option<ContentFilter>,
    fs: Seq<Seq<char>>,
    cs: Seq<Seq<char>>,
    top_n: int,
    show_nums: bool,
    raw: bool,
    nd: Seq<bool>,
    k: int,
)
    ensures
        render_front(lines, incl, excl, fs, cs, top_n, show_nums, raw, nd, k).len()
            == count_selected(lines, incl, excl, top_n, k),
    decreases k,
{
    if k > 0 {
        lemma_render_front_len(lines, incl, excl, fs, cs, top_n, show_nums, raw, nd, k - 1);
    }
}

/// Rendering depends on the filters only through their match results:
/// filters that select the same lines render the same stream.
pub proof fn lemma_render_front_congruence(
    lines: Seq<Seq<char>>,
    i1: Option<ContentFilter>,
    e1: Option<ContentFilter>,
    i2: Option<ContentFilter>,
    e2: Option<ContentFilter>,
    fs: Seq<Seq<char>>,
    cs: Seq<Seq<char>>,
    top_n: int,
    show_nums: bool,
    raw: bool,
    nd: Seq<bool>,
    k: int,
)
    requires
        forall|i: int, l: Seq<char>|
            line_selected(i1, e1, top_n, i, l) == line_selected(i2, e2, top_n, i, l),
    ensures
        render_front(lines, i1, e1, fs, cs, top_n, show_nums, raw, nd, k) == render_front(
            lines,
            i2,
            e2,
            fs,
            cs,
            top_n,
            show_nums,
            raw,
            nd,
            k,
        ),
        any_selected_front(lines, i1, e1, top_n, k) == any_selected_front(
            lines,
            i2,
            e2,
            top_n,
            k,
        ),
    decreases k,
{
    if k > 0 {
        lemma_render_front_congruence(
            lines,
            i1,
            e1,
            i2,
            e2,
            fs,
            cs,
            top_n,
            show_nums,
            raw,
            nd,
            k - 1,
        );
    }
    if any_selected_front(lines, i1, e1, top_n, k) {
        let i = choose|i: int| 0 <= i < k && line_selected(i1, e1, top_n, i, lines[i]);
        assert(line_selected(i2, e2, top_n, i, lines[i]));
    }
    if any_selected_front(lines, i2, e2, top_n, k) {
        let i = choose|i: int| 0 <= i < k && line_selected(i2, e2, top_n, i, lines[i]);
        assert(line_selected(i1, e1, top_n, i, lines[i]));
    }
}

/// The pattern list a filter stores.
fn cf_pattern_list(f: &ContentFilter) -> (r: &Vec<String>)
    ensures
        views_of(r@) == cf_patterns(*f),
{
    match f {
        ContentFilter::CaseSensitive(v) => v,
        ContentFilter::CaseInsensitive(v) => v,
    }
}

/// Replace every occurrence of each filter in the character vector by the
/// corresponding decorated filter, in list order.
fn colorize_chars(line: &Vec<char>, filters: &Vec<String>, colored: &Vec<String>) -> (r: Vec<char>)
    requires
        filters@.len() == colored@.len(),
    ensures
        r@ == colorize_spec(line@, views_of(filters@), views_of(colored@)),
{
    let ghost fs = views_of(filters@);
    let ghost cs = views_of(colored@);
    let mut cur: Vec<char> = line.clone();
    let mut i: usize = 0;
    proof {
        assert(fs.skip(0) =~= fs);
        assert(cs.skip(0) =~= cs);
    }
    while i < filters.len()
        invariant
            i <= filters@.len(),
            filters@.len() == colored@.len(),
            fs == views_of(filters@),
            cs == views_of(colored@),
            colorize_spec(line@, fs, cs) == colorize_spec(cur@, fs.skip(i as int), cs.skip(i as int)),
        decreases filters.len() - i,
    {
        let f = str_to_chars(filters[i].as_str());
        let c = str_to_chars(colored[i].as_str());
        let next = replace_chars(&cur, &f, &c);
        proof {
            assert(fs.skip(i as int)[0] == fs[i as int]);
            assert(cs.skip(i as int)[0] == cs[i as int]);
            assert(fs.skip(i as int).skip(1) =~= fs.skip(i + 1));
            assert(cs.skip(i as int).skip(1) =~= cs.skip(i + 1));
        }
        cur = next;
        i += 1;
    }
    proof {
        assert(fs.skip(filters@.len() as int) =~= Seq::<Seq<char>>::empty());
        assert(cs.skip(filters@.len() as int) =~= Seq::<Seq<char>>::empty());
    }
    cur
}

/// Render a whole stream of lines with decorated filters supplied by the
/// caller: select each line, emit the header before the first selected line
/// and the separator after the last when a label is given, number and
/// highlight in the default mode, and print verbatim in raw mode.
///
/// The colour decorations around the label and the line numbers are applied
/// by `colored` and may each independently be present or absent, which the
/// two existentially quantified choices reflect.
pub fn render_stream(
    lines: &Vec<String>,
    incl: &Option<ContentFilter>,
    excl: &Option<ContentFilter>,
    colored_filters: &Vec<String>,
    label: &Option<String>,
    top_n: usize,
    show_line_numbers: bool,
    raw: bool,
) -> (out: Vec<String>)
    requires
        colored_filters@.len() == opt_patterns(*incl).len(),
    ensures
        label_ok(label_view(label)) ==> exists|nd: Seq<bool>, headdeco: bool|
            nd.len() == lines@.len() && views_of(out@) == render_spec(
                views_of(lines@),
                *incl,
                *excl,
                opt_patterns(*incl),
                views_of(colored_filters@),
                label_view(label),
                top_n as int,
                show_line_numbers,
                raw,
                nd,
                headdeco,
            ),
{
    let ghost lns = views_of(lines@);
    let ghost fs = opt_patterns(*incl);
    let ghost cs = views_of(colored_filters@);
    let ghost lv: Seq<char> = match label {
        Some(s) => s@,
        None => Seq::empty(),
    };
    let mut out: Vec<String> = Vec::new();
    let mut first_done: bool = false;
    let ghost mut nd: Seq<bool> = Seq::empty();
    let ghost mut headdeco: bool = false;
    let ghost mut hdr: Seq<char> = Seq::empty();
    let mut k: usize = 0;
    while k < lines.len()
        invariant
            k <= lines@.len(),
            lns == views_of(lines@),
            fs == opt_patterns(*incl),
            cs == views_of(colored_filters@),
            colored_filters@.len() == fs.len(),
            lv == (match label {
                Some(s) => s@,
                None => Seq::<char>::empty(),
            }),
            nd.len() == k as int,
            first_done == any_selected_front(lns, *incl, *excl, top_n as int, k as int),
            (first_done && !raw && label is Some) ==> views_of(out@) == seq![hdr] + render_front(
                lns,
                *incl,
                *excl,
                fs,
                cs,
                top_n as int,
                show_line_numbers,
                raw,
                nd,
                k as int,
            ),
            (first_done && !raw && label is Some && no_escape(lv)) ==> hdr == header_line(
                lv,
                headdeco,
            ),
            !(first_done && !raw && label is Some) ==> views_of(out@) == render_front(
                lns,
                *incl,
                *excl,
                fs,
                cs,
                top_n as int,
                show_line_numbers,
                raw,
                nd,
                k as int,
            ),
        decreases lines.len() - k,
    {
        let lc = str_to_chars(lines[k].as_str());
        assert(lc@ == lns[k as int]);
        let excluded: bool = match excl {
            Some(e) => content_matches(e, &lc),
            None => false,
        };
        let mut selected: bool = false;
        if !excluded {
            match incl {
                None => {
                    selected = true;
                },
                Some(f) => {
                    if k < top_n {
                        selected = true;
                    } else {
                        selected = content_matches(f, &lc);
                    }
                },
            }
        }
        assert(selected == line_selected(*incl, *excl, top_n as int, k as int, lns[k as int]));
        let ghost was_first = first_done;
        let ghost out_pre = views_of(out@);
        let ghost mut nd_flag: bool = false;
        if selected {
            if raw {
                out.push(lines[k].clone());
                proof {
                    assert(views_of(out@) =~~= out_pre + seq![lns[k as int]]);
                }
            } else {
                if !first_done {
                    if let Some(lab) = label {
                        let painted = paint_purple(lab.as_str());
                        proof {
                            hdr = painted@;
                            headdeco = (painted@ == deco_purple(lv));
                        }
                        out.push(painted);
                        proof {
                            assert(views_of(out@) =~~= out_pre + seq![hdr]);
                        }
                    }
                }
                let ghost out_mid = views_of(out@);
                let body: Vec<char> = match incl {
                    None => lc,
                    Some(f) => {
                        let pats = cf_pattern_list(f);
                        colorize_chars(&lc, pats, colored_filters)
                    },
                };
                assert(body@ == colorize_spec(lns[k as int], fs, cs));
                let full: Vec<char> = if show_line_numbers {
                    let nch = dec_chars(k);
                    let nstr = chars_to_string(&nch);
                    let painted = paint_blue(nstr.as_str());
                    proof {
                        lemma_dec_digits_are_digits(k as nat);
                        assert(no_escape(dec_digits(k as nat)));
                        nd_flag = (painted@ == deco_blue(dec_digits(k as nat)));
                    }
                    let pv = str_to_chars(painted.as_str());
                    let mut fullv = pad_left_chars(&pv, 4);
                    fullv.push(':');
                    fullv.push(' ');
                    let mut b = body;
                    fullv.append(&mut b);
                    proof {
                        assert(fullv@ =~= num_prefix(k as int, nd_flag) + colorize_spec(
                            lns[k as int],
                            fs,
                            cs,
                        ));
                    }
                    fullv
                } else {
                    body
                };
                assert(full@ == rendered_line(
                    lns[k as int],
                    k as int,
                    fs,
                    cs,
                    show_line_numbers,
                    raw,
                    nd_flag,
                ));
                out.push(chars_to_string(&full));
                proof {
                    assert(views_of(out@) =~~= out_mid + seq![full@]);
                }
            }
            first_done = true;
        }
        proof {
            lemma_render_front_push_nd(
                lns,
                *incl,
                *excl,
                fs,
                cs,
                top_n as int,
                show_line_numbers,
                raw,
                nd,
                nd_flag,
                k as int,
            );
            nd = nd.push(nd_flag);
            assert(nd[k as int] == nd_flag);
            assert(render_front(
                lns,
                *incl,
                *excl,
                fs,
                cs,
                top_n as int,
                show_line_numbers,
                raw,
                nd,
                k + 1,
            ) == render_front(
                lns,
                *incl,
                *excl,
                fs,
                cs,
                top_n as int,
                show_line_numbers,
                raw,
                nd,
                k as int,
            ) + (if line_selected(*incl, *excl, top_n as int, k as int, lns[k as int]) {
                seq![rendered_line(
                    lns[k as int],
                    k as int,
                    fs,
                    cs,
                    show_line_numbers,
                    raw,
                    nd_flag,
                )]
            } else {
                Seq::<Seq<char>>::empty()
            }));
            if selected {
                assert(any_selected_front(lns, *incl, *excl, top_n as int, k + 1));
                let rf_next = render_front(
                    lns,
                    *incl,
                    *excl,
                    fs,
                    cs,
                    top_n as int,
                    show_line_numbers,
                    raw,
                    nd,
                    k + 1,
                );
                let rf_cur = render_front(
                    lns,
                    *incl,
                    *excl,
                    fs,
                    cs,
                    top_n as int,
                    show_line_numbers,
                    raw,
                    nd,
                    k as int,
                );
                let rl = rendered_line(
                    lns[k as int],
                    k as int,
                    fs,
                    cs,
                    show_line_numbers,
                    raw,
                    nd_flag,
                );
                if raw {
                    assert(views_of(out@) =~~= rf_cur + seq![lns[k as int]]);
                    assert(views_of(out@) =~~= rf_next);
                } else if label is Some {
                    if !was_first {
                        assert(!any_selected_front(lns, *incl, *excl, top_n as int, k as int));
                        lemma_render_front_empty(
                            lns,
                            *incl,
                            *excl,
                            fs,
                            cs,
                            top_n as int,
                            show_line_numbers,
                            raw,
                            nd,
                            k as int,
                        );
                        assert(out_pre =~~= Seq::<Seq<char>>::empty());
                        assert(views_of(out@) =~~= seq![hdr] + rf_next);
                    } else {
                        assert(out_pre =~~= seq![hdr] + rf_cur);
                        assert(views_of(out@) =~~= (seq![hdr] + rf_cur) + seq![rl]);
                        assert(views_of(out@) =~~= seq![hdr] + rf_next);
                    }
                } else {
                    assert(views_of(out@) =~~= rf_cur + seq![rl]);
                    assert(views_of(out@) =~~= rf_next);
                }
            } else {
                assert(any_selected_front(lns, *incl, *excl, top_n as int, k + 1)
                    == any_selected_front(lns, *incl, *excl, top_n as int, k as int)) by {
                    if any_selected_front(lns, *incl, *excl, top_n as int, k + 1) {
                        let i = choose|i: int|
                            0 <= i < k + 1 && line_selected(
                                *incl,
                                *excl,
                                top_n as int,
                                i,
                                lns[i],
                            );
                        assert(i < k + 1 && i != k ==> i < k);
                    }
                }
            }
        }
        k += 1;
    }
    if first_done && !raw {
        if let Some(_lab) = label {
            out.push(String::new());
            proof {
                assert(views_of(out@) =~~= seq![hdr] + render_front(
                    lns,
                    *incl,
                    *excl,
                    fs,
                    cs,
                    top_n as int,
                    show_line_numbers,
                    raw,
                    nd,
                    lns.len() as int,
                ) + seq![Seq::<char>::empty()]);
            }
        }
    }
    proof {
        if label_ok(label_view(label)) {
            let rs = render_spec(
                lns,
                *incl,
                *excl,
                fs,
                cs,
                label_view(label),
                top_n as int,
                show_line_numbers,
                raw,
                nd,
                headdeco,
            );
            assert(views_of(out@) == rs);
            assert(nd.len() == lines@.len());
        }
    }
    out
}

/// Each decorated filter is the filter itself or its green-wrapped form.
pub open spec fn colored_variants(cs: Seq<Seq<char>>, fs: Seq<Seq<char>>) -> bool {
    cs.len() == fs.len() && forall|i: int|
        0 <= i < fs.len() && no_escape(fs[i]) ==> cs[i] == fs[i] || cs[i] == deco_green(fs[i])
}

/// `out` is a possible printed form of the stream under the given options:
/// there are decorated filters and per-call colour choices under which the
/// output is exactly the rendering of the selected lines.
pub open spec fn is_filter_output(
    out: Seq<Seq<char>>,
    lines: Seq<Seq<char>>,
    incl: Option<ContentFilter>,
    excl: Option<ContentFilter>,
    label: Option<Seq<char>>,
    top_n: int,
    show_nums: bool,
    raw: bool,
) -> bool {
    exists|cs: Seq<Seq<char>>, nd: Seq<bool>, headdeco: bool|
        colored_variants(cs, effective_opt_patterns(incl)) && nd.len() == lines.len() && out
            == render_spec(
            lines,
            incl,
            excl,
            effective_opt_patterns(incl),
            cs,
            label,
            top_n,
            show_nums,
            raw,
            nd,
            headdeco,
        )
}

/// The whole engine for one stream: fold the pattern sets once, decorate
/// the inclusion patterns, then select and render every line.
pub fn filter_stream(
    lines: &Vec<String>,
    incl: &Option<ContentFilter>,
    excl: &Option<ContentFilter>,
    label: &Option<String>,
    top_n: usize,
    show_line_numbers: bool,
    raw: bool,
) -> (out: Vec<String>)
    ensures
        label_ok(label_view(label)) ==> is_filter_output(
            views_of(out@),
            views_of(lines@),
            *incl,
            *excl,
            label_view(label),
            top_n as int,
            show_line_numbers,
            raw,
        ),
{
    let norm_incl: Option<ContentFilter> = match incl {
        Some(f) => Some(normalize_filter(f)),
        None => None,
    };
    let norm_excl: Option<ContentFilter> = match excl {
        Some(f) => Some(normalize_filter(f)),
        None => None,
    };
    let colored: Vec<String> = match &norm_incl {
        Some(f) => colorize_filter(cf_pattern_list(f)),
        None => Vec::new(),
    };
    proof {
        assert(opt_patterns(norm_incl) == effective_opt_patterns(*incl));
        assert(colored@.len() == opt_patterns(norm_incl).len());
        assert(views_of(colored@).len() == opt_patterns(norm_incl).len());
    }
    let out = render_stream(
        lines,
        &norm_incl,
        &norm_excl,
        &colored,
        label,
        top_n,
        show_line_numbers,
        raw,
    );
    proof {
        if label_ok(label_view(label)) {
            assert(forall|i: int, l: Seq<char>|
                line_selected(norm_incl, norm_excl, top_n as int, i, l) == line_selected(
                    *incl,
                    *excl,
                    top_n as int,
                    i,
                    l,
                ));
            let lns = views_of(lines@);
            let fs = opt_patterns(norm_incl);
            let cs = views_of(colored@);
            let (nd, headdeco): (Seq<bool>, bool) = choose|nd: Seq<bool>, headdeco: bool|
                nd.len() == lines@.len() && views_of(out@) == render_spec(
                    lns,
                    norm_incl,
                    norm_excl,
                    fs,
                    cs,
                    label_view(label),
                    top_n as int,
                    show_line_numbers,
                    raw,
                    nd,
                    headdeco,
                );
            lemma_render_front_congruence(
                lns,
                norm_incl,
                norm_excl,
                *incl,
                *excl,
                fs,
                cs,
                top_n as int,
                show_line_numbers,
                raw,
                nd,
                lns.len() as int,
            );
            assert(views_of(out@) == render_spec(
                lns,
                *incl,
                *excl,
                effective_opt_patterns(*incl),
                cs,
                label_view(label),
                top_n as int,
                show_line_numbers,
                raw,
                nd,
                headdeco,
            ));
            assert(colored_variants(cs, effective_opt_patterns(*incl)));
        }
    }
    out
}

/// Header emission: with a label and outside raw mode, a stream with no
/// selected line prints nothing at all, and a stream with at least one
/// selected line prints the header line first, exactly one rendered entry
/// per selected line after it, and one empty separator line last.
pub proof fn lemma_header_emission(
    lines: Seq<Seq<char>>,
    incl: Option<ContentFilter>,
    excl: Option<ContentFilter>,
    fs: Seq<Seq<char>>,
    cs: Seq<Seq<char>>,
    lv: Seq<char>,
    top_n: int,
    show_nums: bool,
    nd: Seq<bool>,
    headdeco: bool,
)
    ensures
        !any_selected(lines, incl, excl, top_n) ==> render_spec(
            lines,
            incl,
            excl,
            fs,
            cs,
            Some(lv),
            top_n,
            show_nums,
            false,
            nd,
            headdeco,
        ) == Seq::<Seq<char>>::empty(),
        any_selected(lines, incl, excl, top_n) ==> render_spec(
            lines,
            incl,
            excl,
            fs,
            cs,
            Some(lv),
            top_n,
            show_nums,
            false,
            nd,
            headdeco,
        ) == seq![header_line(lv, headdeco)] + render_front(
            lines,
            incl,
            excl,
            fs,
            cs,
            top_n,
            show_nums,
            false,
            nd,
            lines.len() as int,
        ) + seq![Seq::<char>::empty()] && render_front(
            lines,
            incl,
            excl,
            fs,
            cs,
            top_n,
            show_nums,
            false,
            nd,
            lines.len() as int,
        ).len() == count_selected(lines, incl, excl, top_n, lines.len() as int),
{
    if !any_selected(lines, incl, excl, top_n) {
        lemma_render_front_empty(
            lines,
            incl,
            excl,
            fs,
            cs,
            top_n,
            show_nums,
            false,
            nd,
            lines.len() as int,
        );
    }
    lemma_render_front_len(
        lines,
        incl,
        excl,
        fs,
        cs,
        top_n,
        show_nums,
        false,
        nd,
        lines.len() as int,
    );
}

} // verus!
