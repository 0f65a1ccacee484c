//! Terminal colouring: the exact ANSI decorations the tool emits, and the
//! trusted calls into the `colored` crate that produce them.
//!
//! `colored` decides at run time (terminal detection, environment overrides)
//! whether to decorate at all, so each wrapper promises only that the result
//! is either the input unchanged or the input wrapped in the one fixed
//! escape sequence for that colour.

use vstd::prelude::*;
use crate::text::replace_all;
use colored::Colorize;

verus! {

/// The ASCII escape character that starts every ANSI sequence.
pub open spec fn esc() -> char {
    '\u{1b}'
}

/// `s` holds no escape character, so no ANSI sequence can begin inside it.
pub open spec fn no_escape(s: Seq<char>) -> bool {
    forall|i: int| 0 <= i < s.len() ==> s[i] != esc()
}

/// The sequence that switches the foreground colour to green.
pub open spec fn green_pre() -> Seq<char> {
    seq![esc(), '[', '3', '2', 'm']
}

/// The sequence that switches the foreground colour to blue.
pub open spec fn blue_pre() -> Seq<char> {
    seq![esc(), '[', '3', '4', 'm']
}

/// The sequence that switches the foreground colour to magenta, which
/// `colored` calls purple.
pub open spec fn purple_pre() -> Seq<char> {
    seq![esc(), '[', '3', '5', 'm']
}

/// The sequence that resets all terminal attributes.
pub open spec fn reset_post() -> Seq<char> {
    seq![esc(), '[', '0', 'm']
}

/// `s` wrapped in the green decoration.
pub open spec fn deco_green(s: Seq<char>) -> Seq<char> {
    green_pre() + s + reset_post()
}

/// `s` wrapped in the blue decoration.
pub open spec fn deco_blue(s: Seq<char>) -> Seq<char> {
    blue_pre() + s + reset_post()
}

/// `s` wrapped in the purple decoration.
pub open spec fn deco_purple(s: Seq<char>) -> Seq<char> {
    purple_pre() + s + reset_post()
}

/// Removing every green decoration mark from `s`: first every `ESC[32m`,
/// then every `ESC[0m`.
pub open spec fn strip_decoration(s: Seq<char>) -> Seq<char> {
    replace_all(replace_all(s, green_pre(), Seq::empty()), reset_post(), Seq::empty())
}

/// Replacement walks over an escape-free prefix untouched whenever the
/// pattern starts with the escape character.
proof fn lemma_replace_clean_prefix(c: Seq<char>, t: Seq<char>, pat: Seq<char>, q: Seq<char>)
    requires
        no_escape(c),
        pat.len() > 0,
        pat[0] == esc(),
    ensures
        replace_all(c + t, pat, q) == c + replace_all(t, pat, q),
    decreases c.len(),
{
    if c.len() == 0 {
        assert(c + t =~= t);
        assert(c + replace_all(t, pat, q) =~= replace_all(t, pat, q));
    } else {
        let s = c + t;
        assert(s[0] == c[0]);
        if s.len() < pat.len() {
            assert(t.len() < pat.len());
            assert(replace_all(t, pat, q) == t);
            assert(replace_all(s, pat, q) == s);
        } else {
            assert(s.subrange(0, pat.len() as int)[0] == s[0]);
            assert(s.subrange(0, pat.len() as int) != pat);
            assert(replace_all(s, pat, q) == seq![s[0]] + replace_all(s.skip(1), pat, q));
            assert(s.skip(1) =~= c.skip(1) + t);
            assert(no_escape(c.skip(1)));
            lemma_replace_clean_prefix(c.skip(1), t, pat, q);
            assert(seq![s[0]] + (c.skip(1) + replace_all(t, pat, q)) =~= c + replace_all(
                t,
                pat,
                q,
            ));
        }
    }
}

/// A pattern that starts with the escape character never occurs in an
/// escape-free string, so replacement leaves the string unchanged.
proof fn lemma_replace_clean_none(s: Seq<char>, pat: Seq<char>, q: Seq<char>)
    requires
        no_escape(s),
        pat.len() > 0,
        pat[0] == esc(),
    ensures
        replace_all(s, pat, q) == s,
{
    lemma_replace_clean_prefix(s, Seq::empty(), pat, q);
    assert(s + Seq::<char>::empty() =~= s);
    assert(replace_all(Seq::<char>::empty(), pat, q) == Seq::<char>::empty());
}

/// Removing `ESC[32m` steps over a leading `ESC[0m` untouched: the two
/// sequences differ at their third character.
proof fn lemma_strip_green_skips_reset(x: Seq<char>)
    ensures
        replace_all(reset_post() + x, green_pre(), Seq::empty()) == reset_post() + replace_all(
            x,
            green_pre(),
            Seq::empty(),
        ),
{
    let s = reset_post() + x;
    let e: Seq<char> = Seq::empty();
    if x.len() == 0 {
        assert(s =~= reset_post());
        assert(s.len() < green_pre().len());
        assert(replace_all(s, green_pre(), e) == s);
        assert(replace_all(x, green_pre(), e) == x);
        assert(reset_post() + replace_all(x, green_pre(), e) =~= s);
    } else {
        assert(s.len() >= green_pre().len());
        assert(s.subrange(0, green_pre().len() as int)[2] == '0');
        assert(green_pre()[2] == '3');
        assert(s.subrange(0, green_pre().len() as int) != green_pre());
        assert(replace_all(s, green_pre(), e) == seq![s[0]] + replace_all(
            s.skip(1),
            green_pre(),
            e,
        ));
        let tail = seq!['[', '0', 'm'];
        assert(s.skip(1) =~= tail + x);
        assert(no_escape(tail));
        lemma_replace_clean_prefix(tail, x, green_pre(), e);
        assert(seq![s[0]] + (tail + replace_all(x, green_pre(), e)) =~= reset_post()
            + replace_all(x, green_pre(), e));
    }
}

/// Removing the green-opening marks from a fully highlighted string leaves
/// every occurrence terminated by the reset mark alone.
proof fn lemma_green_unwrap(s: Seq<char>, p: Seq<char>)
    requires
        no_escape(s),
        no_escape(p),
        p.len() > 0,
    ensures
        replace_all(replace_all(s, p, deco_green(p)), green_pre(), Seq::empty()) == replace_all(
            s,
            p,
            p + reset_post(),
        ),
    decreases s.len(),
{
    let e: Seq<char> = Seq::empty();
    let deco = deco_green(p);
    if s.len() < p.len() {
        assert(replace_all(s, p, deco) == s);
        assert(replace_all(s, p, p + reset_post()) == s);
        lemma_replace_clean_none(s, green_pre(), e);
    } else if s.subrange(0, p.len() as int) == p {
        let rest = s.skip(p.len() as int);
        assert(no_escape(rest));
        let fr = replace_all(rest, p, deco);
        assert(replace_all(s, p, deco) == deco + fr);
        assert(deco + fr =~= green_pre() + ((p + reset_post()) + fr));
        lemma_replace_clean_prefix(p, reset_post() + fr, green_pre(), e);
        let inner = (p + reset_post()) + fr;
        assert(deco + fr =~= green_pre() + inner);
        assert((green_pre() + inner).subrange(0, green_pre().len() as int) =~= green_pre());
        assert((green_pre() + inner).len() >= green_pre().len());
        assert(replace_all(green_pre() + inner, green_pre(), e) == e + replace_all(
            (green_pre() + inner).skip(green_pre().len() as int),
            green_pre(),
            e,
        ));
        assert((green_pre() + inner).skip(green_pre().len() as int) =~= inner);
        assert(inner =~= p + (reset_post() + fr));
        assert(replace_all(inner, green_pre(), e) == p + replace_all(
            reset_post() + fr,
            green_pre(),
            e,
        ));
        lemma_strip_green_skips_reset(fr);
        lemma_green_unwrap(rest, p);
        assert(e + (p + (reset_post() + replace_all(rest, p, p + reset_post()))) =~= (p
            + reset_post()) + replace_all(rest, p, p + reset_post()));
        assert(replace_all(s, p, p + reset_post()) == (p + reset_post()) + replace_all(
            rest,
            p,
            p + reset_post(),
        ));
    } else {
        let rest = s.skip(1);
        assert(no_escape(rest));
        assert(replace_all(s, p, deco) == seq![s[0]] + replace_all(rest, p, deco));
        assert(no_escape(seq![s[0]]));
        lemma_replace_clean_prefix(seq![s[0]], replace_all(rest, p, deco), green_pre(), e);
        assert(seq![s[0]] + replace_all(rest, p, deco) == seq![s[0]] + replace_all(
            rest,
            p,
            deco,
        ));
        lemma_green_unwrap(rest, p);
        assert(replace_all(s, p, p + reset_post()) == seq![s[0]] + replace_all(
            rest,
            p,
            p + reset_post(),
        ));
    }
}

/// Removing the reset marks from a string whose occurrences of `p` were
/// replaced by `p` plus the reset mark restores the original string.
proof fn lemma_reset_unwrap(s: Seq<char>, p: Seq<char>)
    requires
        no_escape(s),
        no_escape(p),
        p.len() > 0,
    ensures
        replace_all(replace_all(s, p, p + reset_post()), reset_post(), Seq::empty()) == s,
    decreases s.len(),
{
    let e: Seq<char> = Seq::empty();
    let g = replace_all(s, p, p + reset_post());
    if s.len() < p.len() {
        assert(g == s);
        lemma_replace_clean_none(s, reset_post(), e);
    } else if s.subrange(0, p.len() as int) == p {
        let rest = s.skip(p.len() as int);
        assert(no_escape(rest));
        let gr = replace_all(rest, p, p + reset_post());
        assert(g == (p + reset_post()) + gr);
        assert(g =~= p + (reset_post() + gr));
        lemma_replace_clean_prefix(p, reset_post() + gr, reset_post(), e);
        assert((reset_post() + gr).subrange(0, reset_post().len() as int) =~= reset_post());
        assert(replace_all(reset_post() + gr, reset_post(), e) == e + replace_all(
            (reset_post() + gr).skip(reset_post().len() as int),
            reset_post(),
            e,
        ));
        assert((reset_post() + gr).skip(reset_post().len() as int) =~= gr);
        lemma_reset_unwrap(rest, p);
        assert(e + replace_all(gr, reset_post(), e) =~= replace_all(gr, reset_post(), e));
        assert(p + rest =~= s);
    } else {
        let rest = s.skip(1);
        assert(no_escape(rest));
        assert(g == seq![s[0]] + replace_all(rest, p, p + reset_post()));
        lemma_replace_clean_prefix(
            seq![s[0]],
            replace_all(rest, p, p + reset_post()),
            reset_post(),
            e,
        );
        lemma_reset_unwrap(rest, p);
        assert(seq![s[0]] + rest =~= s);
    }
}

/// Highlighting round trip: wrapping every occurrence of an escape-free,
/// non-empty pattern in the green decoration and then stripping the
/// decoration marks gives back the original escape-free line. Every
/// occurrence of the pattern in the highlighted line is wrapped by
/// construction of [`replace_all`].
pub proof fn lemma_highlight_round_trip(line: Seq<char>, pat: Seq<char>)
    requires
        no_escape(line),
        no_escape(pat),
        pat.len() > 0,
    ensures
        strip_decoration(replace_all(line, pat, deco_green(pat))) == line,
{
    lemma_green_unwrap(line, pat);
    lemma_reset_unwrap(line, pat);
}

/// Relies on `colored`'s `Colorize::green` for `&str` and the `Display`
/// impl of `ColoredString`: when colouring is enabled the output is
/// `ESC[32m`, the unaltered input, `ESC[0m`; when it is disabled the output
/// is the input alone. An input holding `ESC[0m` would be rewritten inside,
/// hence the premise.
#[verifier::external_body]
pub fn paint_green(s: &str) -> (r: String)
    ensures
        no_escape(s@) ==> r@ == s@ || r@ == deco_green(s@),
{
    format!("{}", s.green())
}

/// Relies on `colored`'s `Colorize::blue` for `&str`, as for [`paint_green`]:
/// the result is the input alone or wrapped in `ESC[34m` .. `ESC[0m`.
#[verifier::external_body]
pub fn paint_blue(s: &str) -> (r: String)
    ensures
        no_escape(s@) ==> r@ == s@ || r@ == deco_blue(s@),
{
    format!("{}", s.blue())
}

/// Relies on `colored`'s `Colorize::purple` for `&str`, as for
/// [`paint_green`]: the result is the input alone or wrapped in `ESC[35m` ..
/// `ESC[0m`.
#[verifier::external_body]
pub fn paint_purple(s: &str) -> (r: String)
    ensures
        no_escape(s@) ==> r@ == s@ || r@ == deco_purple(s@),
{
    format!("{}", s.purple())
}

} // verus!
