//! Reading `.wl` project files and `lang.wl` language files.
//!
//! A `.wl` file is a list of lines.  Blank lines and lines starting with `#`
//! are ignored; every other line, once trimmed, must have the shape
//! `key = value` where the key is made of `a`-`z` and `_` (the regular
//! expression `^([a-z_]+)\s*=\s*(.+)$`).  A value that starts with `[` is an
//! array and is kept as written; any other value must be quoted with `"` or
//! `'` (after dropping an inline `# comment`), and the quotes are removed.
//! When a key occurs twice, the later line wins.

use vstd::prelude::*;
use crate::fields::{FieldMap, map_get};
use crate::text::{
    chars_of, ends_with, lines, lines_of, slice_chars, split, split_chars, starts_with, string_of, trim, trim_bounds,
    trim_chars,
};

verus! {

broadcast use crate::text::lemma_chars_deep_view;

// ---------------------------------------------------------------------------
// Quotes
// ---------------------------------------------------------------------------

/// `t` starts and ends with the same kind of quote (`"` or `'`).
pub open spec fn quoted(t: Seq<char>) -> bool {
    ||| starts_with(t, '"') && ends_with(t, '"')
    ||| starts_with(t, '\'') && ends_with(t, '\'')
}

/// Trimmed, `s` is a single quote character: removing "both" quotes would
/// cut the string at index 1 of a string of length 1.
pub open spec fn lone_quote(s: Seq<char>) -> bool {
    quoted(trim(s)) && trim(s).len() < 2
}

/// `s` trimmed, without its surrounding quotes when it has a matching pair.
pub open spec fn strip_quotes_spec(s: Seq<char>) -> Seq<char> {
    let t = trim(s);
    if quoted(t) {
        t.subrange(1, t.len() - 1)
    } else {
        t
    }
}

pub fn strip_quotes_chars(s: &[char]) -> (r: Vec<char>)
    requires
        !lone_quote(s@),
    ensures
        r@ == strip_quotes_spec(s@),
{
    let (a, b) = trim_bounds(s);
    let ghost t = trim(s@);
    assert(t.len() == b - a);
    if b > a && ((s[a] == '"' && s[b - 1] == '"') || (s[a] == '\'' && s[b - 1] == '\'')) {
        assert(t[0] == s@[a as int]);
        assert(t.last() == s@[b - 1]);
        assert(quoted(t));
        assert(b - a >= 2);
        let r = slice_chars(s, a + 1, b - 1);
        assert(r@ == t.subrange(1, t.len() - 1));
        r
    } else {
        proof {
            if quoted(t) {
                assert(t[0] == s@[a as int]);
                assert(t.last() == s@[b - 1]);
            }
        }
        slice_chars(s, a, b)
    }
}

/// Whether `s` is a lone quote (see `lone_quote`), on which `strip_quotes`
/// has no result.
pub fn is_lone_quote(s: &[char]) -> (r: bool)
    ensures
        r == lone_quote(s@),
{
    let (a, b) = trim_bounds(s);
    let ghost t = trim(s@);
    if b > a && b - a == 1 && (s[a] == '"' || s[a] == '\'') {
        assert(t[0] == s@[a as int]);
        true
    } else {
        proof {
            if lone_quote(s@) {
                assert(t[0] == s@[a as int]);
            }
        }
        false
    }
}

/// Trims `s` and removes one pair of matching surrounding quotes
/// (`"..."` or `'...'`).
pub fn strip_quotes(s: &str) -> (r: String)
    requires
        !lone_quote(s@),
    ensures
        r@ == strip_quotes_spec(s@),
{
    let cs = chars_of(s);
    let v = strip_quotes_chars(cs.as_slice());
    string_of(v.as_slice())
}

// ---------------------------------------------------------------------------
// Arrays
// ---------------------------------------------------------------------------

/// One step of the bracket scan: the state is (depth, inside a `"` string,
/// failed on an unmatched `]`).
pub open spec fn bal_step(st: (int, bool, bool), c: char) -> (int, bool, bool) {
    if st.2 {
        st
    } else if c == '"' {
        (st.0, !st.1, false)
    } else if c == '[' && !st.1 {
        (st.0 + 1, st.1, false)
    } else if c == ']' && !st.1 {
        if st.0 == 0 {
            (st.0, st.1, true)
        } else {
            (st.0 - 1, st.1, false)
        }
    } else {
        st
    }
}

pub open spec fn bal_state(s: Seq<char>) -> (int, bool, bool)
    decreases s.len(),
{
    if s.len() == 0 {
        (0, false, false)
    } else {
        bal_step(bal_state(s.drop_last()), s.last())
    }
}

/// Outside `"` strings, every `]` closes an earlier `[` and every `[` is
/// closed; every `"` string is closed.
pub open spec fn bracket_balanced(s: Seq<char>) -> bool {
    let st = bal_state(s);
    !st.2 && !st.1 && st.0 == 0
}

pub proof fn lemma_bal_depth(s: Seq<char>)
    ensures
        0 <= bal_state(s).0 <= s.len(),
    decreases s.len(),
{
    if s.len() > 0 {
        lemma_bal_depth(s.drop_last());
    }
}

pub fn is_bracket_balanced(s: &[char]) -> (r: bool)
    ensures
        r == bracket_balanced(s@),
{
    let mut depth: usize = 0;
    let mut in_string = false;
    let mut failed = false;
    let mut i: usize = 0;
    assert(s@.take(0) == Seq::<char>::empty());
    while i < s.len()
        invariant
            i <= s.len(),
            bal_state(s@.take(i as int)) == (depth as int, in_string, failed),
            depth <= i,
        decreases s.len() - i,
    {
        let c = s[i];
        assert(s@.take(i + 1).drop_last() == s@.take(i as int));
        assert(s@.take(i + 1).last() == c);
        if !failed {
            if c == '"' {
                in_string = !in_string;
            } else if c == '[' && !in_string {
                depth += 1;
            } else if c == ']' && !in_string {
                if depth == 0 {
                    failed = true;
                } else {
                    depth -= 1;
                }
            }
        }
        i += 1;
    }
    assert(s@.take(s.len() as int) == s@);
    !failed && !in_string && depth == 0
}

/// The bracket scan continued from state `st` over `s`.
pub open spec fn bal_run(st: (int, bool, bool), s: Seq<char>) -> (int, bool, bool)
    decreases s.len(),
{
    if s.len() == 0 {
        st
    } else {
        bal_step(bal_run(st, s.drop_last()), s.last())
    }
}

pub proof fn lemma_bal_run_concat(st: (int, bool, bool), b: Seq<char>, c: Seq<char>)
    ensures
        bal_run(st, b + c) == bal_run(bal_run(st, b), c),
    decreases c.len(),
{
    if c.len() == 0 {
        assert(b + c =~= b);
    } else {
        assert((b + c).drop_last() =~= b + c.drop_last());
        assert((b + c).last() == c.last());
        lemma_bal_run_concat(st, b, c.drop_last());
    }
}

pub proof fn lemma_bal_state_run(s: Seq<char>)
    ensures
        bal_state(s) == bal_run((0, false, false), s),
    decreases s.len(),
{
    if s.len() > 0 {
        lemma_bal_state_run(s.drop_last());
    }
}

/// Inside a string, characters other than `"` leave the scan unchanged.
pub proof fn lemma_bal_in_string(d: int, x: Seq<char>)
    requires
        crate::text::no_char(x, '"'),
    ensures
        bal_run((d, true, false), x) == (d, true, false),
    decreases x.len(),
{
    if x.len() > 0 {
        assert(x.last() == x[x.len() - 1]);
        lemma_bal_in_string(d, x.drop_last());
    }
}

/// `"x"`.
pub open spec fn quote(x: Seq<char>) -> Seq<char> {
    "\""@ + x + "\""@
}

/// The text of an array of strings: `["a","b"]`.
pub open spec fn render_array(xs: Seq<Seq<char>>) -> Seq<char> {
    "["@ + crate::text::join(xs.map_values(|x: Seq<char>| quote(x)), ","@) + "]"@
}

/// Characters that an element of an array may not hold for it to be read
/// back as written.
pub open spec fn array_elem_ok(x: Seq<char>) -> bool {
    crate::text::no_char(x, '"') && crate::text::no_char(x, ',')
}

pub proof fn lemma_bal_one(st: (int, bool, bool), c: char)
    ensures
        bal_run(st, seq![c]) == bal_step(st, c),
{
    assert(seq![c].drop_last() =~= Seq::<char>::empty());
    assert(bal_run(st, Seq::<char>::empty()) == st);
}

pub proof fn lemma_quote_chars(x: Seq<char>)
    ensures
        quote(x) == seq!['"'] + x + seq!['"'],
{
    reveal_strlit("\"");
    assert("\""@ =~= seq!['"']);
}

pub proof fn lemma_bal_quoted(d: int, x: Seq<char>)
    requires
        crate::text::no_char(x, '"'),
    ensures
        bal_run((d, false, false), quote(x)) == (d, false, false),
{
    lemma_quote_chars(x);
    lemma_bal_run_concat((d, false, false), seq!['"'], x);
    lemma_bal_run_concat((d, false, false), seq!['"'] + x, seq!['"']);
    lemma_bal_one((d, false, false), '"');
    lemma_bal_in_string(d, x);
    lemma_bal_one((d, true, false), '"');
}

pub proof fn lemma_bal_joined(d: int, xs: Seq<Seq<char>>)
    requires
        forall|i: int| 0 <= i < xs.len() ==> crate::text::no_char(#[trigger] xs[i], '"'),
    ensures
        bal_run((d, false, false), crate::text::join(xs.map_values(|x: Seq<char>| quote(x)), ","@))
            == (d, false, false),
    decreases xs.len(),
{
    reveal_strlit(",");
    let ys = xs.map_values(|x: Seq<char>| quote(x));
    if xs.len() == 0 {
        assert(crate::text::join(ys, ","@) == Seq::<char>::empty());
    } else if xs.len() == 1 {
        assert(crate::text::join(ys, ","@) == quote(xs[0]));
        lemma_bal_quoted(d, xs[0]);
    } else {
        let rest = xs.drop_first();
        assert(ys.drop_first() =~= rest.map_values(|x: Seq<char>| quote(x)));
        assert forall|i: int| 0 <= i < rest.len() implies crate::text::no_char(#[trigger] rest[i], '"') by {
            assert(rest[i] == xs[i + 1]);
        }
        lemma_bal_joined(d, rest);
        let j = crate::text::join(ys.drop_first(), ","@);
        assert(","@ =~= seq![',']);
        assert(crate::text::join(ys, ","@) == quote(xs[0]) + seq![','] + j);
        lemma_bal_run_concat((d, false, false), quote(xs[0]) + seq![','], j);
        lemma_bal_run_concat((d, false, false), quote(xs[0]), seq![',']);
        lemma_bal_quoted(d, xs[0]);
        lemma_bal_one((d, false, false), ',');
    }
}

/// An array written by `render_array` reads back as the elements written,
/// when no element holds `"` or `,`.
pub proof fn lemma_render_array_parse(xs: Seq<Seq<char>>)
    requires
        forall|i: int| 0 <= i < xs.len() ==> array_elem_ok(#[trigger] xs[i]),
    ensures
        parse_json_array_spec(render_array(xs)) == xs,
        !array_would_panic(render_array(xs)),
{
    reveal_strlit("[");
    reveal_strlit("]");
    reveal_strlit(",");
    reveal_strlit("\"");
    let ys = xs.map_values(|x: Seq<char>| quote(x));
    let j = crate::text::join(ys, ","@);
    let t = render_array(xs);
    assert("["@ =~= seq!['[']);
    assert("]"@ =~= seq![']']);
    assert(","@ =~= seq![',']);
    assert(t == seq!['['] + j + seq![']']);
    assert(t[0] == '[');
    assert(t.last() == ']');
    crate::text::lemma_trim_noop(t);
    // balanced
    assert forall|i: int| 0 <= i < xs.len() implies crate::text::no_char(#[trigger] xs[i], '"') by {
        assert(array_elem_ok(xs[i]));
    }
    lemma_bal_state_run(t);
    lemma_bal_run_concat((0, false, false), seq!['['] + j, seq![']']);
    lemma_bal_run_concat((0, false, false), seq!['['], j);
    lemma_bal_one((0, false, false), '[');
    lemma_bal_joined(1, xs);
    lemma_bal_one((1, false, false), ']');
    assert(bracket_balanced(t));
    assert(t.subrange(1, t.len() - 1) =~= j);
    if xs.len() == 0 {
        assert(j == Seq::<char>::empty());
        assert(trim(j) == j);
        assert(xs =~= Seq::<Seq<char>>::empty());
    } else {
        assert(ys[0] == quote(xs[0]));
        assert(j.len() > 0 && j[0] == '"' && j.last() == '"') by {
            assert forall|i: int| 0 <= i < ys.len() implies (#[trigger] ys[i]).len() > 0 && ys[i][0]
                == '"' && ys[i].last() == '"' by {
                lemma_quote_chars(xs[i]);
            }
            lemma_join_ends(ys);
        }
        crate::text::lemma_trim_noop(j);
        assert forall|i: int| 0 <= i < ys.len() implies crate::text::no_char(#[trigger] ys[i], ',') by {
            assert(array_elem_ok(xs[i]));
            lemma_quote_chars(xs[i]);
            assert(ys[i] == seq!['"'] + xs[i] + seq!['"']);
            assert forall|k: int| 0 <= k < ys[i].len() implies ys[i][k] != ',' by {
                if 0 < k < ys[i].len() - 1 {
                    assert(ys[i][k] == xs[i][k - 1]);
                }
            }
        }
        crate::text::lemma_split_join(ys, ',');
        assert(split(j, ',') == ys);
        assert(array_parts(t) == Some(ys));
        assert forall|i: int| 0 <= i < ys.len() implies strip_quotes_spec(#[trigger] ys[i]) == xs[i]
            && !lone_quote(ys[i]) by {
            lemma_quote_chars(xs[i]);
            assert(ys[i] == seq!['"'] + xs[i] + seq!['"']);
            crate::text::lemma_trim_noop(ys[i]);
            assert(ys[i].subrange(1, ys[i].len() - 1) =~= xs[i]);
        }
        assert(ys.map_values(|p: Seq<char>| strip_quotes_spec(p)) =~= xs);
    }
}

/// The text `["a","b"]` of an array of strings.
pub fn render_array_chars(xs: &Vec<Vec<char>>) -> (r: Vec<char>)
    ensures
        r@ == render_array(xs.deep_view()),
{
    let ghost xv = xs.deep_view();
    let mut quoted: Vec<Vec<char>> = Vec::new();
    let mut i: usize = 0;
    while i < xs.len()
        invariant
            i <= xs.len(),
            xv == xs.deep_view(),
            quoted.deep_view() == xv.take(i as int).map_values(|x: Seq<char>| quote(x)),
        decreases xs.len() - i,
    {
        let mut q: Vec<char> = Vec::new();
        crate::text::push_str(&mut q, "\"");
        q.extend_from_slice(xs[i].as_slice());
        crate::text::push_str(&mut q, "\"");
        assert(xv[i as int] == xs@[i as int]@);
        assert(q@ =~= quote(xv[i as int]));
        let ghost before = quoted.deep_view();
        crate::text::push_chars(&mut quoted, q);
        assert(xv.take(i + 1) == xv.take(i as int).push(xv[i as int]));
        assert(xv.take(i + 1).map_values(|x: Seq<char>| quote(x)) =~= before.push(quote(xv[i as int])));
        i += 1;
    }
    assert(xv.take(xs.len() as int) == xv);
    let mut out: Vec<char> = Vec::new();
    crate::text::push_str(&mut out, "[");
    crate::text::push_joined(&mut out, &quoted, ",");
    crate::text::push_str(&mut out, "]");
    assert(out@ =~= render_array(xv));
    out
}

/// A join of quoted strings starts and ends with a quote.
pub proof fn lemma_join_ends(ys: Seq<Seq<char>>)
    requires
        ys.len() > 0,
        forall|i: int| 0 <= i < ys.len() ==> (#[trigger] ys[i]).len() > 0 && ys[i][0] == '"'
            && ys[i].last() == '"',
    ensures
        crate::text::join(ys, ","@).len() > 0,
        crate::text::join(ys, ","@)[0] == '"',
        crate::text::join(ys, ","@).last() == '"',
    decreases ys.len(),
{
    reveal_strlit(",");
    if ys.len() > 1 {
        let rest = ys.drop_first();
        assert forall|i: int| 0 <= i < rest.len() implies (#[trigger] rest[i]).len() > 0 && rest[i][0]
            == '"' && rest[i].last() == '"' by {
            assert(rest[i] == ys[i + 1]);
        }
        lemma_join_ends(rest);
        assert(ys[0].len() > 0);
    }
}

/// The comma-separated parts of an array value, or `None` when the value is
/// not a non-empty, balanced `[...]`.
pub open spec fn array_parts(s: Seq<char>) -> Option<Seq<Seq<char>>> {
    let t = trim(s);
    if starts_with(t, '[') && ends_with(t, ']') && bracket_balanced(t) {
        let inner = trim(t.subrange(1, t.len() - 1));
        if inner.len() == 0 {
            None
        } else {
            Some(split(inner, ','))
        }
    } else {
        None
    }
}

/// The elements of an array value `["a", 'b', c]`: each part between commas,
/// trimmed and unquoted.  Anything that is not a balanced `[...]` reads as
/// an empty array.
pub open spec fn parse_json_array_spec(s: Seq<char>) -> Seq<Seq<char>> {
    match array_parts(s) {
        Some(ps) => ps.map_values(|p: Seq<char>| strip_quotes_spec(p)),
        None => seq![],
    }
}

/// Some part of the array is a lone quote, on which `strip_quotes` has no
/// result.
pub open spec fn array_would_panic(s: Seq<char>) -> bool {
    match array_parts(s) {
        Some(ps) => exists|i: int| 0 <= i < ps.len() && lone_quote(#[trigger] ps[i]),
        None => false,
    }
}

fn array_parts_exec(s: &[char]) -> (r: Option<Vec<Vec<char>>>)
    ensures
        r.deep_view() == array_parts(s@),
{
    let (a, b) = trim_bounds(s);
    let ghost t = trim(s@);
    if b > a && s[a] == '[' && s[b - 1] == ']' {
        assert(t[0] == s@[a as int]);
        assert(t.last() == s@[b - 1]);
        let t_chars = slice_chars(s, a, b);
        if !is_bracket_balanced(t_chars.as_slice()) {
            return None;
        }
        assert(b - a >= 2);
        let inner_raw = slice_chars(s, a + 1, b - 1);
        assert(inner_raw@ == t.subrange(1, t.len() - 1));
        let inner = trim_chars(inner_raw.as_slice());
        if inner.len() == 0 {
            return None;
        }
        Some(split_chars(inner.as_slice(), ','))
    } else {
        proof {
            if starts_with(t, '[') && ends_with(t, ']') {
                assert(t[0] == s@[a as int]);
                assert(t.last() == s@[b - 1]);
            }
        }
        None
    }
}

fn strings_of_parts(ps: &Vec<Vec<char>>) -> (r: Vec<String>)
    requires
        forall|i: int| 0 <= i < ps.len() ==> !lone_quote(#[trigger] ps.deep_view()[i]),
    ensures
        r.deep_view() == ps.deep_view().map_values(|p: Seq<char>| strip_quotes_spec(p)),
{
    let mut out: Vec<String> = Vec::new();
    let mut i: usize = 0;
    while i < ps.len()
        invariant
            i <= ps.len(),
            forall|j: int| 0 <= j < ps.len() ==> !lone_quote(#[trigger] ps.deep_view()[j]),
            out.deep_view() == ps.deep_view().take(i as int).map_values(
                |p: Seq<char>| strip_quotes_spec(p),
            ),
        decreases ps.len() - i,
    {
        assert(ps.deep_view()[i as int] == ps@[i as int]@);
        let v = strip_quotes_chars(ps[i].as_slice());
        let st = string_of(v.as_slice());
        let ghost before = out.deep_view();
        out.push(st);
        assert(out.deep_view() =~= before.push(v@));
        assert(ps.deep_view().take(i + 1) == ps.deep_view().take(i as int).push(
            ps.deep_view()[i as int],
        ));
        assert(ps.deep_view().take(i + 1).map_values(|p: Seq<char>| strip_quotes_spec(p))
            =~= ps.deep_view().take(i as int).map_values(|p: Seq<char>| strip_quotes_spec(p)).push(
            strip_quotes_spec(ps.deep_view()[i as int]),
        ));
        i += 1;
    }
    assert(ps.deep_view().take(ps.len() as int) == ps.deep_view());
    out
}

/// Whether `parse_json_array` has no result on `s` (see `array_would_panic`).
pub fn json_array_would_panic(s: &[char]) -> (r: bool)
    ensures
        r == array_would_panic(s@),
{
    match array_parts_exec(s) {
        None => false,
        Some(ps) => {
            let mut i: usize = 0;
            while i < ps.len()
                invariant
                    i <= ps.len(),
                    array_parts(s@) == Some(ps.deep_view()),
                    forall|j: int| 0 <= j < i ==> !lone_quote(#[trigger] ps.deep_view()[j]),
                decreases ps.len() - i,
            {
                assert(ps.deep_view()[i as int] == ps@[i as int]@);
                if is_lone_quote(ps[i].as_slice()) {
                    let ghost pp = array_parts(s@)->Some_0;
                    assert(pp[i as int] == ps.deep_view()[i as int]);
                    assert(lone_quote(pp[i as int]));
                    return true;
                }
                i += 1;
            }
            false
        },
    }
}

pub fn parse_json_array_chars(s: &[char]) -> (r: Vec<String>)
    requires
        !array_would_panic(s@),
    ensures
        r.deep_view() == parse_json_array_spec(s@),
{
    match array_parts_exec(s) {
        None => Vec::new(),
        Some(ps) => {
            assert(array_parts(s@) == Some(ps.deep_view()));
            assert forall|i: int| 0 <= i < ps.len() implies !lone_quote(
                #[trigger] ps.deep_view()[i],
            ) by {
                if lone_quote(ps.deep_view()[i]) {
                    let pp = array_parts(s@)->Some_0;
                    assert(pp[i] == ps.deep_view()[i]);
                    assert(array_would_panic(s@));
                }
            }
            strings_of_parts(&ps)
        },
    }
}

/// Reads an array value such as `["cli","wasm"]` (see
/// `parse_json_array_spec`).
pub fn parse_json_array(s: &str) -> (r: Vec<String>)
    requires
        !array_would_panic(s@),
    ensures
        r.deep_view() == parse_json_array_spec(s@),
{
    let cs = chars_of(s);
    parse_json_array_chars(cs.as_slice())
}


// ---------------------------------------------------------------------------
// The `key = value` line grammar
// ---------------------------------------------------------------------------

pub open spec fn is_key_char(c: char) -> bool {
    ('a' <= c && c <= 'z') || c == '_'
}

/// End of the run of key characters that starts at `i`.
pub open spec fn key_end(s: Seq<char>, i: int) -> int
    decreases s.len() - i,
{
    if 0 <= i < s.len() && is_key_char(s[i]) {
        key_end(s, i + 1)
    } else {
        i
    }
}

/// End of the run of white space that starts at `i`.
pub open spec fn ws_end(s: Seq<char>, i: int) -> int
    decreases s.len() - i,
{
    if 0 <= i < s.len() && crate::text::is_ws(s[i]) {
        ws_end(s, i + 1)
    } else {
        i
    }
}

/// On a trimmed line, what `^([a-z_]+)\s*=\s*(.+)$` captures: the key and
/// the value, or `None` when the line does not match.
pub open spec fn match_kv(t: Seq<char>) -> Option<(Seq<char>, Seq<char>)> {
    let k = key_end(t, 0);
    if k == 0 {
        None
    } else {
        let e = ws_end(t, k);
        if e >= t.len() || t[e] != '=' {
            None
        } else {
            let v = ws_end(t, e + 1);
            if v >= t.len() {
                None
            } else {
                Some((t.take(k), t.skip(v)))
            }
        }
    }
}

pub proof fn lemma_key_end(s: Seq<char>, i: int)
    requires
        0 <= i <= s.len(),
    ensures
        i <= key_end(s, i) <= s.len(),
    decreases s.len() - i,
{
    if i < s.len() && is_key_char(s[i]) {
        lemma_key_end(s, i + 1);
    }
}

pub proof fn lemma_ws_end(s: Seq<char>, i: int)
    requires
        0 <= i <= s.len(),
    ensures
        i <= ws_end(s, i) <= s.len(),
    decreases s.len() - i,
{
    if i < s.len() && crate::text::is_ws(s[i]) {
        lemma_ws_end(s, i + 1);
    }
}

fn key_end_exec(s: &[char], from: usize) -> (r: usize)
    requires
        from <= s.len(),
    ensures
        r == key_end(s@, from as int),
{
    let mut i = from;
    while i < s.len() && (('a' <= s[i] && s[i] <= 'z') || s[i] == '_')
        invariant
            from <= i <= s.len(),
            key_end(s@, from as int) == key_end(s@, i as int),
        decreases s.len() - i,
    {
        i += 1;
    }
    i
}

fn ws_end_exec(s: &[char], from: usize) -> (r: usize)
    requires
        from <= s.len(),
    ensures
        r == ws_end(s@, from as int),
{
    let mut i = from;
    while i < s.len() && crate::text::is_whitespace(s[i])
        invariant
            from <= i <= s.len(),
            ws_end(s@, from as int) == ws_end(s@, i as int),
        decreases s.len() - i,
    {
        i += 1;
    }
    i
}

/// Splits a trimmed line into its key and value (see `match_kv`).
pub fn match_key_value(t: &[char]) -> (r: Option<(Vec<char>, Vec<char>)>)
    ensures
        r.deep_view() == match_kv(t@),
{
    let k = key_end_exec(t, 0);
    proof {
        lemma_key_end(t@, 0);
    }
    if k == 0 {
        return None;
    }
    let e = ws_end_exec(t, k);
    proof {
        lemma_ws_end(t@, k as int);
    }
    if e >= t.len() || t[e] != '=' {
        return None;
    }
    let v = ws_end_exec(t, e + 1);
    proof {
        lemma_ws_end(t@, e + 1);
    }
    if v >= t.len() {
        return None;
    }
    let key = slice_chars(t, 0, k);
    let value = slice_chars(t, v, t.len());
    assert(key@ == t@.take(k as int));
    assert(value@ == t@.skip(v as int));
    Some((key, value))
}

// ---------------------------------------------------------------------------
// Reading all fields of a file
// ---------------------------------------------------------------------------

/// What one line of a `.wl` file contributes.
pub enum LineOutcome {
    /// Blank or comment line.
    Skip,
    /// A field with its value (quotes removed; arrays kept as written).
    Entry(Seq<char>, Seq<char>),
    /// The trimmed line does not have the `key = value` shape.
    Malformed(Seq<char>),
    /// The (non-array) value, given here as written, is not quoted.
    Unquoted(Seq<char>),
    /// The value is a lone quote character, which `strip_quotes` cannot cut.
    LoneQuote,
}

/// What one line contributes.  In `strict` mode (reading a `.wl`) a value
/// loses its inline `# comment` and must be quoted; otherwise (the lenient
/// reading that `forge check` does once the syntax is known to be right)
/// the trimmed value is taken as it is and unquoted if quoted.
pub open spec fn classify_line(strict: bool, line: Seq<char>) -> LineOutcome {
    let t = trim(line);
    if t.len() == 0 || starts_with(t, '#') {
        LineOutcome::Skip
    } else {
        match match_kv(t) {
            None => LineOutcome::Malformed(t),
            Some((k, raw)) => {
                if strict {
                    if starts_with(raw, '[') {
                        LineOutcome::Entry(k, raw)
                    } else {
                        let clean = trim(split(raw, '#')[0]);
                        if !quoted(clean) {
                            LineOutcome::Unquoted(raw)
                        } else if clean.len() < 2 {
                            LineOutcome::LoneQuote
                        } else {
                            LineOutcome::Entry(k, clean.subrange(1, clean.len() - 1))
                        }
                    }
                } else {
                    let v = trim(raw);
                    if starts_with(v, '[') {
                        LineOutcome::Entry(k, v)
                    } else if lone_quote(v) {
                        LineOutcome::LoneQuote
                    } else {
                        LineOutcome::Entry(k, strip_quotes_spec(v))
                    }
                }
            },
        }
    }
}

/// The outcome of reading the lines of a file in order: the fields read, or
/// the first bad line.
pub enum FieldScan {
    Fields(Map<Seq<char>, Seq<char>>),
    Malformed(Seq<char>),
    Unquoted(Seq<char>),
    Panics,
}

pub open spec fn scan_lines(strict: bool, ls: Seq<Seq<char>>) -> FieldScan
    decreases ls.len(),
{
    if ls.len() == 0 {
        FieldScan::Fields(Map::empty())
    } else {
        match scan_lines(strict, ls.drop_last()) {
            FieldScan::Fields(m) => match classify_line(strict, ls.last()) {
                LineOutcome::Skip => FieldScan::Fields(m),
                LineOutcome::Entry(k, v) => FieldScan::Fields(m.insert(k, v)),
                LineOutcome::Malformed(t) => FieldScan::Malformed(t),
                LineOutcome::Unquoted(r) => FieldScan::Unquoted(r),
                LineOutcome::LoneQuote => FieldScan::Panics,
            },
            other => other,
        }
    }
}

/// The value that the last line setting `k` gives it (`None` when no line
/// sets it).
pub open spec fn last_value(strict: bool, ls: Seq<Seq<char>>, k: Seq<char>) -> Option<Seq<char>>
    decreases ls.len(),
{
    if ls.len() == 0 {
        None
    } else {
        match classify_line(strict, ls.last()) {
            LineOutcome::Entry(k2, v) => if k2 == k {
                Some(v)
            } else {
                last_value(strict, ls.drop_last(), k)
            },
            _ => last_value(strict, ls.drop_last(), k),
        }
    }
}

/// Duplicate keys: when several lines set a field, the last one wins.
pub proof fn duplicate_keys_last_wins(strict: bool, ls: Seq<Seq<char>>, k: Seq<char>)
    requires
        scan_lines(strict, ls) is Fields,
    ensures
        crate::fields::map_get(scan_lines(strict, ls)->Fields_0, k) == last_value(strict, ls, k),
    decreases ls.len(),
{
    if ls.len() > 0 {
        duplicate_keys_last_wins(strict, ls.drop_last(), k);
    }
}

/// The fields of a `.wl` text (see the module documentation).
pub open spec fn scan_fields(content: Seq<char>) -> FieldScan {
    scan_lines(true, crate::text::lines(content))
}

/// The fields of a `.wl` text read leniently (see `classify_line`).
pub open spec fn scan_fields_lenient(content: Seq<char>) -> FieldScan {
    scan_lines(false, crate::text::lines(content))
}

/// Why a `.wl` text could not be read.
#[derive(Debug)]
pub enum WlError {
    /// A line that is neither blank, a comment, nor `key = value`; the
    /// trimmed line.
    MalformedLine { line: String },
    /// A string value without quotes; the value as written.
    UnquotedValue { raw: String },
}

/// What a `WlError` denotes: `(true, line)` for a malformed line,
/// `(false, value)` for an unquoted value.
pub open spec fn wl_error_view(e: WlError) -> (bool, Seq<char>) {
    match e {
        WlError::MalformedLine { line } => (true, line@),
        WlError::UnquotedValue { raw } => (false, raw@),
    }
}

/// The result of `parse_fields` that the scan prescribes.
pub open spec fn fields_result(r: Result<FieldMap, WlError>, scan: FieldScan) -> bool {
    match scan {
        FieldScan::Fields(m) => r matches Ok(f) && f.wf() && f.view() == m,
        FieldScan::Malformed(t) => r matches Err(e) && wl_error_view(e) == (true, t),
        FieldScan::Unquoted(raw) => r matches Err(e) && wl_error_view(e) == (false, raw),
        FieldScan::Panics => false,
    }
}

enum LineStep {
    Skip,
    Entry(Vec<char>, Vec<char>),
    Malformed(Vec<char>),
    Unquoted(Vec<char>),
    LoneQuote,
}

fn classify_line_exec(strict: bool, line: &[char]) -> (r: LineStep)
    ensures
        match (r, classify_line(strict, line@)) {
            (LineStep::Skip, LineOutcome::Skip) => true,
            (LineStep::Entry(k, v), LineOutcome::Entry(ks, vs)) => k@ == ks && v@ == vs,
            (LineStep::Malformed(t), LineOutcome::Malformed(ts)) => t@ == ts,
            (LineStep::Unquoted(t), LineOutcome::Unquoted(ts)) => t@ == ts,
            (LineStep::LoneQuote, LineOutcome::LoneQuote) => true,
            _ => false,
        },
{
    let t = trim_chars(line);
    if t.len() == 0 || t[0] == '#' {
        return LineStep::Skip;
    }
    assert(!starts_with(t@, '#'));
    match match_key_value(t.as_slice()) {
        None => LineStep::Malformed(t),
        Some((k, raw)) => {
            assert(starts_with(raw@, '[') == (raw.len() > 0 && raw@[0] == '['));
            if !strict {
                let v = trim_chars(raw.as_slice());
                if v.len() > 0 && v[0] == '[' {
                    return LineStep::Entry(k, v);
                } else if is_lone_quote(v.as_slice()) {
                    return LineStep::LoneQuote;
                } else {
                    return LineStep::Entry(k, strip_quotes_chars(v.as_slice()));
                }
            }
            if raw.len() > 0 && raw[0] == '[' {
                LineStep::Entry(k, raw)
            } else {
                let before = crate::text::before_char(raw.as_slice(), '#');
                let clean = trim_chars(before.as_slice());
                let n = clean.len();
                assert(n > 0 ==> clean@.last() == clean@[n - 1]);
                if !(n > 0 && ((clean[0] == '"' && clean[n - 1] == '"') || (clean[0] == '\''
                    && clean[n - 1] == '\''))) {
                    LineStep::Unquoted(raw)
                } else if n < 2 {
                    LineStep::LoneQuote
                } else {
                    LineStep::Entry(k, slice_chars(clean.as_slice(), 1, n - 1))
                }
            }
        },
    }
}

enum ScanOut {
    Fields(FieldMap),
    Malformed(Vec<char>),
    Unquoted(Vec<char>),
    Panics,
}

fn scan_exec(strict: bool, content: &[char]) -> (r: ScanOut)
    ensures
        match (r, scan_lines(strict, crate::text::lines(content@))) {
            (ScanOut::Fields(f), FieldScan::Fields(m)) => f.wf() && f.view() == m,
            (ScanOut::Malformed(t), FieldScan::Malformed(ts)) => t@ == ts,
            (ScanOut::Unquoted(t), FieldScan::Unquoted(ts)) => t@ == ts,
            (ScanOut::Panics, FieldScan::Panics) => true,
            _ => false,
        },
{
    let ls = crate::text::lines_of(content);
    let ghost lv = ls.deep_view();
    let mut fields = FieldMap::new();
    let mut i: usize = 0;
    assert(lv.take(0) == Seq::<Seq<char>>::empty());
    while i < ls.len()
        invariant
            i <= ls.len(),
            lv == ls.deep_view(),
            lv == crate::text::lines(content@),
            fields.wf(),
            scan_lines(strict, lv.take(i as int)) == FieldScan::Fields(fields.view()),
        decreases ls.len() - i,
    {
        assert(lv.take(i + 1).drop_last() == lv.take(i as int));
        assert(lv.take(i + 1).last() == ls@[i as int]@);
        match classify_line_exec(strict, ls[i].as_slice()) {
            LineStep::Skip => {},
            LineStep::Entry(k, v) => {
                fields.insert_chars(k, v);
            },
            LineStep::Malformed(t) => {
                proof {
                    lemma_scan_stops(strict, lv, i as int);
                }
                return ScanOut::Malformed(t);
            },
            LineStep::Unquoted(t) => {
                proof {
                    lemma_scan_stops(strict, lv, i as int);
                }
                return ScanOut::Unquoted(t);
            },
            LineStep::LoneQuote => {
                proof {
                    lemma_scan_stops(strict, lv, i as int);
                }
                return ScanOut::Panics;
            },
        }
        i += 1;
    }
    assert(lv.take(ls.len() as int) == lv);
    ScanOut::Fields(fields)
}

/// The lenient reading never complains about quotes.
pub proof fn lemma_lenient_no_unquoted(ls: Seq<Seq<char>>)
    ensures
        !(scan_lines(false, ls) is Unquoted),
    decreases ls.len(),
{
    if ls.len() > 0 {
        lemma_lenient_no_unquoted(ls.drop_last());
    }
}

/// Once a prefix of the lines stops the scan, every longer prefix stops
/// there too.
pub proof fn lemma_scan_stops_at(strict: bool, ls: Seq<Seq<char>>, i: int, j: int)
    requires
        0 <= i < j <= ls.len(),
        !(scan_lines(strict, ls.take(i + 1)) is Fields),
    ensures
        scan_lines(strict, ls.take(j)) == scan_lines(strict, ls.take(i + 1)),
    decreases j,
{
    if j > i + 1 {
        lemma_scan_stops_at(strict, ls, i, j - 1);
        assert(ls.take(j).drop_last() == ls.take(j - 1));
    }
}

pub proof fn lemma_scan_stops(strict: bool, ls: Seq<Seq<char>>, i: int)
    requires
        0 <= i < ls.len(),
        !(scan_lines(strict, ls.take(i + 1)) is Fields),
    ensures
        scan_lines(strict, ls) == scan_lines(strict, ls.take(i + 1)),
{
    lemma_scan_stops_at(strict, ls, i, ls.len() as int);
    assert(ls.take(ls.len() as int) == ls);
}

/// Reads the `key = value` fields of a `.wl` text.
pub fn parse_fields(content: &str) -> (r: Result<FieldMap, WlError>)
    requires
        !(scan_fields(content@) is Panics),
    ensures
        fields_result(r, scan_fields(content@)),
{
    let cs = chars_of(content);
    match scan_exec(true, cs.as_slice()) {
        ScanOut::Fields(f) => Ok(f),
        ScanOut::Malformed(t) => Err(WlError::MalformedLine { line: string_of(t.as_slice()) }),
        ScanOut::Unquoted(t) => Err(WlError::UnquotedValue { raw: string_of(t.as_slice()) }),
        ScanOut::Panics => Err(WlError::MalformedLine { line: String::new() }),
    }
}

/// Reads the fields of a `.wl` text leniently: values are trimmed and
/// unquoted, arrays kept, nothing else is checked; a line that is not
/// `key = value` is an error.
pub fn parse_fields_lenient(content: &str) -> (r: Result<FieldMap, WlError>)
    requires
        !(scan_fields_lenient(content@) is Panics),
    ensures
        fields_result(r, scan_fields_lenient(content@)),
{
    let cs = chars_of(content);
    match scan_exec(false, cs.as_slice()) {
        ScanOut::Fields(f) => Ok(f),
        ScanOut::Malformed(t) => Err(WlError::MalformedLine { line: string_of(t.as_slice()) }),
        ScanOut::Unquoted(t) => Err(WlError::UnquotedValue { raw: string_of(t.as_slice()) }),
        ScanOut::Panics => Err(WlError::MalformedLine { line: String::new() }),
    }
}

/// Whether reading the fields of `content` leniently meets a lone quote
/// value.
pub fn lenient_fields_would_panic(content: &str) -> (r: bool)
    ensures
        r == (scan_fields_lenient(content@) is Panics),
{
    let cs = chars_of(content);
    match scan_exec(false, cs.as_slice()) {
        ScanOut::Panics => true,
        _ => false,
    }
}

/// Whether reading the fields of `content` meets a lone quote value.
pub fn fields_would_panic(content: &str) -> (r: bool)
    ensures
        r == (scan_fields(content@) is Panics),
{
    let cs = chars_of(content);
    match scan_exec(true, cs.as_slice()) {
        ScanOut::Panics => true,
        _ => false,
    }
}


// ---------------------------------------------------------------------------
// `.wl` project files and `lang.wl` language files
// ---------------------------------------------------------------------------

/// A language pack, read from its `lang.wl`.
#[derive(Debug, Clone)]
pub struct Language {
    pub name: String,
    pub desc: String,
    pub path: String,
    pub direnv: String,
    pub build: Option<String>,
    pub run: Option<String>,
    pub test: Option<String>,
    pub check: Option<String>,
}

/// A project, read from its `.wl`.
#[derive(Debug, Clone)]
pub struct WlFile {
    pub name: Option<String>,
    pub lang: Option<String>,
    pub desc: Option<String>,
    pub tags: Vec<String>,
    pub includes: Vec<String>,
    pub build: Option<String>,
    pub run: Option<String>,
    pub test: Option<String>,
    pub check: Option<String>,
    pub overseer_template: Option<String>,
    pub setup: Option<String>,
}

pub struct LanguageView {
    pub name: Seq<char>,
    pub desc: Seq<char>,
    pub path: Seq<char>,
    pub direnv: Seq<char>,
    pub build: Option<Seq<char>>,
    pub run: Option<Seq<char>>,
    pub test: Option<Seq<char>>,
    pub check: Option<Seq<char>>,
}

pub struct WlView {
    pub name: Option<Seq<char>>,
    pub lang: Option<Seq<char>>,
    pub desc: Option<Seq<char>>,
    pub tags: Seq<Seq<char>>,
    pub includes: Seq<Seq<char>>,
    pub build: Option<Seq<char>>,
    pub run: Option<Seq<char>>,
    pub test: Option<Seq<char>>,
    pub check: Option<Seq<char>>,
    pub overseer_template: Option<Seq<char>>,
    pub setup: Option<Seq<char>>,
}

impl View for Language {
    type V = LanguageView;

    open spec fn view(&self) -> LanguageView {
        LanguageView {
            name: self.name@,
            desc: self.desc@,
            path: self.path@,
            direnv: self.direnv@,
            build: self.build.deep_view(),
            run: self.run.deep_view(),
            test: self.test.deep_view(),
            check: self.check.deep_view(),
        }
    }
}

impl View for WlFile {
    type V = WlView;

    open spec fn view(&self) -> WlView {
        WlView {
            name: self.name.deep_view(),
            lang: self.lang.deep_view(),
            desc: self.desc.deep_view(),
            tags: self.tags.deep_view(),
            includes: self.includes.deep_view(),
            build: self.build.deep_view(),
            run: self.run.deep_view(),
            test: self.test.deep_view(),
            check: self.check.deep_view(),
            overseer_template: self.overseer_template.deep_view(),
            setup: self.setup.deep_view(),
        }
    }
}

/// The field's value, or the empty string.
pub open spec fn or_empty(o: Option<Seq<char>>) -> Seq<char> {
    match o {
        Some(v) => v,
        None => seq![],
    }
}

/// An array field read with `parse_json_array`; absent reads as empty.
pub open spec fn array_field(o: Option<Seq<char>>) -> Seq<Seq<char>> {
    match o {
        Some(v) => parse_json_array_spec(v),
        None => seq![],
    }
}

pub open spec fn array_field_would_panic(o: Option<Seq<char>>) -> bool {
    match o {
        Some(v) => array_would_panic(v),
        None => false,
    }
}

/// The language that the fields of a `lang.wl` describe.
pub open spec fn language_of(m: Map<Seq<char>, Seq<char>>) -> LanguageView {
    LanguageView {
        name: or_empty(map_get(m, "name"@)),
        desc: or_empty(map_get(m, "desc"@)),
        path: or_empty(map_get(m, "path"@)),
        direnv: or_empty(map_get(m, "direnv"@)),
        build: map_get(m, "build"@),
        run: map_get(m, "run"@),
        test: map_get(m, "test"@),
        check: map_get(m, "check"@),
    }
}

/// The project that the fields of a `.wl` describe.
pub open spec fn wl_of(m: Map<Seq<char>, Seq<char>>) -> WlView {
    WlView {
        name: map_get(m, "name"@),
        lang: map_get(m, "lang"@),
        desc: map_get(m, "desc"@),
        tags: array_field(map_get(m, "tags"@)),
        includes: array_field(map_get(m, "includes"@)),
        build: map_get(m, "build"@),
        run: map_get(m, "run"@),
        test: map_get(m, "test"@),
        check: map_get(m, "check"@),
        overseer_template: map_get(m, "overseer_template"@),
        setup: map_get(m, "setup"@),
    }
}

/// Reading `content` as a `.wl` meets a value that `strip_quotes` cannot
/// cut: in a line, or in an element of the `tags` or `includes` array.
pub open spec fn wl_would_panic(content: Seq<char>) -> bool {
    match scan_fields(content) {
        FieldScan::Panics => true,
        FieldScan::Fields(m) => array_field_would_panic(map_get(m, "tags"@))
            || array_field_would_panic(map_get(m, "includes"@)),
        _ => false,
    }
}

fn get_field(f: &FieldMap, key: &str) -> (r: Option<String>)
    requires
        f.wf(),
    ensures
        r.deep_view() == map_get(f.view(), key@),
{
    f.get(key)
}

fn get_field_or_empty(f: &FieldMap, key: &str) -> (r: String)
    requires
        f.wf(),
    ensures
        r@ == or_empty(map_get(f.view(), key@)),
{
    match f.get(key) {
        Some(v) => v,
        None => String::new(),
    }
}

fn get_array_field(f: &FieldMap, key: &str) -> (r: Vec<String>)
    requires
        f.wf(),
        !array_field_would_panic(map_get(f.view(), key@)),
    ensures
        r.deep_view() == array_field(map_get(f.view(), key@)),
{
    match f.get(key) {
        Some(v) => parse_json_array(v.as_str()),
        None => Vec::new(),
    }
}

/// The project that a field table describes.
pub fn wl_from_fields(f: &FieldMap) -> (wl: WlFile)
    requires
        f.wf(),
        !array_field_would_panic(map_get(f.view(), "tags"@)),
        !array_field_would_panic(map_get(f.view(), "includes"@)),
    ensures
        wl@ == wl_of(f.view()),
{
    WlFile {
        name: get_field(f, "name"),
        lang: get_field(f, "lang"),
        desc: get_field(f, "desc"),
        tags: get_array_field(f, "tags"),
        includes: get_array_field(f, "includes"),
        build: get_field(f, "build"),
        run: get_field(f, "run"),
        test: get_field(f, "test"),
        check: get_field(f, "check"),
        overseer_template: get_field(f, "overseer_template"),
        setup: get_field(f, "setup"),
    }
}

/// The key of a line that holds `key = value` (blank lines and comments
/// hold none).
pub open spec fn line_key(line: Seq<char>) -> Option<Seq<char>> {
    let t = trim(line);
    if t.len() == 0 || starts_with(t, '#') {
        None
    } else {
        match match_kv(t) {
            Some((k, _)) => Some(k),
            None => None,
        }
    }
}

/// Over the lines `ls`: the keys met, each once, in order of first
/// appearance, and the keys met again, each once, in the order in which
/// they first repeat.
pub open spec fn key_tally(ls: Seq<Seq<char>>) -> (Seq<Seq<char>>, Seq<Seq<char>>)
    decreases ls.len(),
{
    if ls.len() == 0 {
        (seq![], seq![])
    } else {
        let (seen, rep) = key_tally(ls.drop_last());
        match line_key(ls.last()) {
            None => (seen, rep),
            Some(k) => if !seen.contains(k) {
                (seen.push(k), rep)
            } else if rep.contains(k) {
                (seen, rep)
            } else {
                (seen, rep.push(k))
            },
        }
    }
}

/// The keys that more than one line of a `.wl` text sets, in the order in
/// which they first repeat; the last of their values is the one read.
pub open spec fn repeated_keys_spec(content: Seq<char>) -> Seq<Seq<char>> {
    key_tally(lines(content)).1
}

/// How many of the lines `ls` set the key `k`.
pub open spec fn key_count(ls: Seq<Seq<char>>, k: Seq<char>) -> nat
    decreases ls.len(),
{
    if ls.len() == 0 {
        0
    } else {
        key_count(ls.drop_last(), k) + if line_key(ls.last()) == Some(k) {
            1nat
        } else {
            0nat
        }
    }
}

proof fn lemma_key_tally_counts(ls: Seq<Seq<char>>, k: Seq<char>)
    ensures
        key_tally(ls).0.contains(k) <==> key_count(ls, k) >= 1,
        key_tally(ls).1.contains(k) <==> key_count(ls, k) >= 2,
    decreases ls.len(),
{
    if ls.len() > 0 {
        let pre = ls.drop_last();
        lemma_key_tally_counts(pre, k);
        let (seen, rep) = key_tally(pre);
        match line_key(ls.last()) {
            None => {},
            Some(k2) => {
                if !seen.contains(k2) {
                    if k2 == k {
                        assert(seen.push(k2)[seen.len() as int] == k);
                    } else {
                        if seen.push(k2).contains(k) {
                            let j = choose|j: int| 0 <= j < seen.len() + 1 && seen.push(k2)[j] == k;
                            assert(seen[j] == k);
                        }
                        if seen.contains(k) {
                            let j = choose|j: int| 0 <= j < seen.len() && seen[j] == k;
                            assert(seen.push(k2)[j] == k);
                        }
                    }
                } else if !rep.contains(k2) {
                    if k2 == k {
                        assert(rep.push(k2)[rep.len() as int] == k);
                    } else {
                        if rep.push(k2).contains(k) {
                            let j = choose|j: int| 0 <= j < rep.len() + 1 && rep.push(k2)[j] == k;
                            assert(rep[j] == k);
                        }
                        if rep.contains(k) {
                            let j = choose|j: int| 0 <= j < rep.len() && rep[j] == k;
                            assert(rep.push(k2)[j] == k);
                        }
                    }
                }
            },
        }
    }
}

/// A key is reported as repeated exactly when two or more lines set it.
pub proof fn repeated_keys_are_those_set_twice(content: Seq<char>, k: Seq<char>)
    ensures
        repeated_keys_spec(content).contains(k) <==> key_count(lines(content), k) >= 2,
{
    lemma_key_tally_counts(lines(content), k);
}

fn line_key_exec(line: &[char]) -> (r: Option<String>)
    ensures
        r.deep_view() == line_key(line@),
{
    let t = trim_chars(line);
    if t.len() == 0 || t[0] == '#' {
        return None;
    }
    match match_key_value(t.as_slice()) {
        Some((k, _)) => Some(string_of(k.as_slice())),
        None => None,
    }
}

/// The keys that more than one line of a `.wl` text sets (see
/// `repeated_keys_spec`), for the warning that the last value wins.
pub fn repeated_keys(content: &str) -> (r: Vec<String>)
    ensures
        r.deep_view() == repeated_keys_spec(content@),
{
    let cs = chars_of(content);
    let ls = lines_of(cs.as_slice());
    let ghost lv = ls.deep_view();
    let mut seen: Vec<String> = Vec::new();
    let mut rep: Vec<String> = Vec::new();
    let mut i: usize = 0;
    assert(lv.take(0) =~= Seq::<Seq<char>>::empty());
    while i < ls.len()
        invariant
            i <= ls.len(),
            lv == ls.deep_view(),
            lv == lines(content@),
            (seen.deep_view(), rep.deep_view()) == key_tally(lv.take(i as int)),
        decreases ls.len() - i,
    {
        assert(lv.take(i + 1).drop_last() =~= lv.take(i as int));
        assert(lv.take(i + 1).last() == ls@[i as int]@);
        match line_key_exec(ls[i].as_slice()) {
            None => {},
            Some(k) => {
                if !crate::text::strings_contain(&seen, k.as_str()) {
                    let ghost before = seen.deep_view();
                    seen.push(k);
                    assert(seen.deep_view() =~= before.push(k@));
                } else if !crate::text::strings_contain(&rep, k.as_str()) {
                    let ghost before = rep.deep_view();
                    rep.push(k);
                    assert(rep.deep_view() =~= before.push(k@));
                }
            },
        }
        i += 1;
    }
    assert(lv.take(ls.len() as int) =~= lv);
    rep
}

/// Reads the text of a `.wl` project file.
pub fn parse_wl_content(content: &str) -> (r: Result<WlFile, WlError>)
    requires
        !wl_would_panic(content@),
    ensures
        match scan_fields(content@) {
            FieldScan::Fields(m) => r matches Ok(wl) && wl@ == wl_of(m),
            FieldScan::Malformed(t) => r matches Err(e) && wl_error_view(e) == (true, t),
            FieldScan::Unquoted(raw) => r matches Err(e) && wl_error_view(e) == (false, raw),
            FieldScan::Panics => false,
        },
{
    match parse_fields(content) {
        Ok(f) => Ok(wl_from_fields(&f)),
        Err(e) => Err(e),
    }
}

/// Reads the text of a `lang.wl` language file.
pub fn parse_lang_wl_content(content: &str) -> (r: Result<Language, WlError>)
    requires
        !(scan_fields(content@) is Panics),
    ensures
        match scan_fields(content@) {
            FieldScan::Fields(m) => r matches Ok(l) && l@ == language_of(m),
            FieldScan::Malformed(t) => r matches Err(e) && wl_error_view(e) == (true, t),
            FieldScan::Unquoted(raw) => r matches Err(e) && wl_error_view(e) == (false, raw),
            FieldScan::Panics => false,
        },
{
    match parse_fields(content) {
        Ok(f) => Ok(
            Language {
                name: get_field_or_empty(&f, "name"),
                desc: get_field_or_empty(&f, "desc"),
                path: get_field_or_empty(&f, "path"),
                direnv: get_field_or_empty(&f, "direnv"),
                build: get_field(&f, "build"),
                run: get_field(&f, "run"),
                test: get_field(&f, "test"),
                check: get_field(&f, "check"),
            },
        ),
        Err(e) => Err(e),
    }
}

/// Whether reading `content` as a `.wl` meets a lone quote value (see
/// `wl_would_panic`).
pub fn wl_content_would_panic(content: &str) -> (r: bool)
    ensures
        r == wl_would_panic(content@),
{
    let cs = chars_of(content);
    match scan_exec(true, cs.as_slice()) {
        ScanOut::Panics => true,
        ScanOut::Fields(f) => {
            let tags = f.get("tags");
            let includes = f.get("includes");
            let tags_panic = match tags {
                Some(v) => {
                    let vc = chars_of(v.as_str());
                    json_array_would_panic(vc.as_slice())
                },
                None => false,
            };
            let includes_panic = match includes {
                Some(v) => {
                    let vc = chars_of(v.as_str());
                    json_array_would_panic(vc.as_slice())
                },
                None => false,
            };
            tags_panic || includes_panic
        },
        _ => false,
    }
}

} // verus!
