//! `forge check`: validating the syntax and the references of a `.wl` file.
//!
//! The file's text is checked line by line; when the syntax is right, the
//! fields are read, repeated keys are reported, the `lang` and `includes`
//! references are looked up among the directories that exist, and empty
//! `build`/`run`/`test`/`check` commands are warned about.  Which directories
//! exist is found out by the caller (see `check_probes`) and handed in.

use vstd::prelude::*;
use crate::fields::{FieldMap, map_get};
use crate::paths::{join_chars, path_join};
use crate::text::{
    opt_chars,
    chars_of, chars_eq, ends_with, find_char, find_from, format_u64, lines, lines_of,
    slice_chars, starts_with, string_of, trim, trim_bounds, trim_chars, decimal,
};
use crate::wl_parser::{
    FieldScan, array_field_would_panic, is_lone_quote, json_array_would_panic, lone_quote,
    match_key_value, match_kv, parse_fields_lenient, parse_json_array_chars,
    parse_json_array_spec, quoted, scan_fields_lenient, wl_error_view,
};

verus! {

broadcast use crate::text::lemma_chars_deep_view;

/// An error found in a `.wl` file, with its 1-based line when it has one.
#[derive(Debug, Clone)]
pub struct CheckError {
    pub line: Option<usize>,
    pub msg: String,
}

/// A warning about a `.wl` file, with its 1-based line when it has one.
#[derive(Debug, Clone)]
pub struct CheckWarning {
    pub line: Option<usize>,
    pub msg: String,
}

/// The outcome of checking one `.wl` file.
#[derive(Debug)]
pub struct CheckResult {
    pub path: String,
    pub errors: Vec<CheckError>,
    pub warnings: Vec<CheckWarning>,
}

/// A diagnostic as (line, message).
pub type Diag = (Option<usize>, Seq<char>);

pub open spec fn errors_view(v: Seq<CheckError>) -> Seq<Diag> {
    v.map_values(|e: CheckError| (e.line, e.msg@))
}

pub open spec fn warnings_view(v: Seq<CheckWarning>) -> Seq<Diag> {
    v.map_values(|w: CheckWarning| (w.line, w.msg@))
}

// ---------------------------------------------------------------------------
// Array syntax
// ---------------------------------------------------------------------------

/// What is wrong with an array value, if anything.
#[derive(Debug, Clone, Copy, PartialEq, Eq, Structural)]
pub enum ArraySyntax {
    Valid,
    NotArray,
    TrailingBackslash,
    UnclosedString,
}

/// Scanning the inside of an array for `"` strings: a backslash takes the
/// next character with it.  `None` when a backslash ends the text; otherwise
/// whether a string is still open at the end.
pub open spec fn quote_scan(s: Seq<char>, in_str: bool) -> Option<bool>
    decreases s.len(),
{
    if s.len() == 0 {
        Some(in_str)
    } else if s[0] == '"' {
        quote_scan(s.drop_first(), !in_str)
    } else if s[0] == '\\' {
        if s.len() < 2 {
            None
        } else {
            quote_scan(s.skip(2), in_str)
        }
    } else {
        quote_scan(s.drop_first(), in_str)
    }
}

pub open spec fn array_syntax(s: Seq<char>) -> ArraySyntax {
    let t = trim(s);
    if !(starts_with(t, '[') && ends_with(t, ']')) {
        ArraySyntax::NotArray
    } else {
        let inner = trim(t.subrange(1, t.len() - 1));
        if inner.len() == 0 {
            ArraySyntax::Valid
        } else {
            match quote_scan(inner, false) {
                None => ArraySyntax::TrailingBackslash,
                Some(open) => if open {
                    ArraySyntax::UnclosedString
                } else {
                    ArraySyntax::Valid
                },
            }
        }
    }
}

pub open spec fn array_syntax_msg(a: ArraySyntax) -> Seq<char> {
    match a {
        ArraySyntax::Valid => seq![],
        ArraySyntax::NotArray => "unclosed bracket: must be a JSON array [\"a\",\"b\"]"@,
        ArraySyntax::TrailingBackslash => "unescaped backslash at end of array"@,
        ArraySyntax::UnclosedString => "unclosed string in array"@,
    }
}

fn quote_scan_exec(s: &[char]) -> (r: Option<bool>)
    ensures
        r == quote_scan(s@, false),
{
    let mut in_str = false;
    let mut i: usize = 0;
    assert(s@.skip(0) == s@);
    while i < s.len()
        invariant
            i <= s.len(),
            quote_scan(s@, false) == quote_scan(s@.skip(i as int), in_str),
        decreases s.len() - i,
    {
        let ghost t = s@.skip(i as int);
        assert(t[0] == s@[i as int]);
        if s[i] == '"' {
            assert(t.drop_first() == s@.skip(i + 1));
            in_str = !in_str;
            i += 1;
        } else if s[i] == '\\' {
            if i + 1 >= s.len() {
                return None;
            }
            assert(t.skip(2) == s@.skip(i + 2));
            i += 2;
        } else {
            assert(t.drop_first() == s@.skip(i + 1));
            i += 1;
        }
    }
    assert(s@.skip(i as int) == Seq::<char>::empty());
    Some(in_str)
}

/// Checks the syntax of an array value: it must be `[...]`, and inside it
/// every `"` string must be closed and no backslash may end it.
pub fn validate_array_syntax(s: &[char]) -> (r: ArraySyntax)
    ensures
        r == array_syntax(s@),
{
    let (a, b) = trim_bounds(s);
    let ghost t = trim(s@);
    if !(b > a && s[a] == '[' && s[b - 1] == ']') {
        proof {
            if starts_with(t, '[') && ends_with(t, ']') {
                assert(t[0] == s@[a as int]);
                assert(t.last() == s@[b - 1]);
            }
        }
        return ArraySyntax::NotArray;
    }
    assert(t[0] == s@[a as int]);
    assert(t.last() == s@[b - 1]);
    assert(b - a >= 2);
    let inner_raw = slice_chars(s, a + 1, b - 1);
    assert(inner_raw@ == t.subrange(1, t.len() - 1));
    let inner = trim_chars(inner_raw.as_slice());
    if inner.len() == 0 {
        return ArraySyntax::Valid;
    }
    match quote_scan_exec(inner.as_slice()) {
        None => ArraySyntax::TrailingBackslash,
        Some(open) => if open {
            ArraySyntax::UnclosedString
        } else {
            ArraySyntax::Valid
        },
    }
}

// ---------------------------------------------------------------------------
// Line syntax
// ---------------------------------------------------------------------------

pub open spec fn malformed_msg(t: Seq<char>) -> Seq<char> {
    "malformed line: expected key=\"value\" or key=[array], got: "@ + t
}

pub open spec fn unquoted_msg(v: Seq<char>) -> Seq<char> {
    "string value must be quoted: "@ + v
}

/// The syntax error of one line, if it has one.
pub open spec fn line_syntax_error(line: Seq<char>) -> Option<Seq<char>> {
    let t = trim(line);
    if t.len() == 0 || starts_with(t, '#') {
        None
    } else {
        match match_kv(t) {
            None => Some(malformed_msg(t)),
            Some((k, raw)) => if starts_with(raw, '[') {
                let a = array_syntax(raw);
                if a is Valid {
                    None
                } else {
                    Some(array_syntax_msg(a))
                }
            } else {
                let v = trim(raw);
                if quoted(v) {
                    None
                } else {
                    Some(unquoted_msg(v))
                }
            },
        }
    }
}

/// The syntax errors of the lines from `i` on, numbered from 1.
pub open spec fn syntax_errors_from(ls: Seq<Seq<char>>, i: int) -> Seq<Diag>
    decreases ls.len() - i,
{
    if !(0 <= i < ls.len()) {
        seq![]
    } else {
        match line_syntax_error(ls[i]) {
            None => syntax_errors_from(ls, i + 1),
            Some(m) => seq![(Some((i + 1) as usize), m)] + syntax_errors_from(ls, i + 1),
        }
    }
}

/// The syntax errors of a `.wl` text.
pub open spec fn syntax_errors(content: Seq<char>) -> Seq<Diag> {
    syntax_errors_from(lines(content), 0)
}

fn concat_msg(prefix: &str, payload: &[char]) -> (r: String)
    ensures
        r@ == prefix@ + payload@,
{
    let mut v = chars_of(prefix);
    v.extend_from_slice(payload);
    string_of(v.as_slice())
}

fn line_syntax_error_exec(line: &[char]) -> (r: Option<String>)
    ensures
        r.deep_view() == line_syntax_error(line@),
{
    let t = trim_chars(line);
    if t.len() == 0 || t[0] == '#' {
        return None;
    }
    match match_key_value(t.as_slice()) {
        None => Some(
            concat_msg(
                "malformed line: expected key=\"value\" or key=[array], got: ",
                t.as_slice(),
            ),
        ),
        Some((_k, raw)) => {
            if raw.len() > 0 && raw[0] == '[' {
                match validate_array_syntax(raw.as_slice()) {
                    ArraySyntax::Valid => None,
                    ArraySyntax::NotArray => Some(
                        "unclosed bracket: must be a JSON array [\"a\",\"b\"]".to_owned(),
                    ),
                    ArraySyntax::TrailingBackslash => Some(
                        "unescaped backslash at end of array".to_owned(),
                    ),
                    ArraySyntax::UnclosedString => Some(
                        "unclosed string in array".to_owned(),
                    ),
                }
            } else {
                let v = trim_chars(raw.as_slice());
                let n = v.len();
                assert(n > 0 ==> v@.last() == v@[n - 1]);
                if n > 0 && ((v[0] == '"' && v[n - 1] == '"') || (v[0] == '\'' && v[n - 1]
                    == '\'')) {
                    None
                } else {
                    Some(concat_msg("string value must be quoted: ", v.as_slice()))
                }
            }
        },
    }
}

fn push_error(out: &mut Vec<CheckError>, line: Option<usize>, msg: String)
    ensures
        errors_view(final(out)@) == errors_view(old(out)@).push((line, msg@)),
{
    let ghost before = errors_view(out@);
    let ghost mv = msg@;
    out.push(CheckError { line, msg });
    assert(errors_view(out@) =~= before.push((line, mv)));
}

fn push_warning(out: &mut Vec<CheckWarning>, line: Option<usize>, msg: String)
    ensures
        warnings_view(final(out)@) == warnings_view(old(out)@).push((line, msg@)),
{
    let ghost before = warnings_view(out@);
    let ghost mv = msg@;
    out.push(CheckWarning { line, msg });
    assert(warnings_view(out@) =~= before.push((line, mv)));
}

/// The syntax errors of a `.wl` text: lines that are not `key = value`,
/// arrays with bad syntax, unquoted string values.
pub fn validate_syntax(content: &str) -> (r: Vec<CheckError>)
    ensures
        errors_view(r@) == syntax_errors(content@),
{
    let cs = chars_of(content);
    let ls = lines_of(cs.as_slice());
    let ghost lv = ls.deep_view();
    let mut out: Vec<CheckError> = Vec::new();
    let mut i: usize = 0;
    while i < ls.len()
        invariant
            i <= ls.len(),
            lv == ls.deep_view(),
            lv == lines(content@),
            errors_view(out@) + syntax_errors_from(lv, i as int) == syntax_errors_from(lv, 0),
        decreases ls.len() - i,
    {
        assert(lv[i as int] == ls@[i as int]@);
        match line_syntax_error_exec(ls[i].as_slice()) {
            None => {},
            Some(m) => {
                let ghost before = errors_view(out@);
                let ghost mv = m@;
                push_error(&mut out, Some(i + 1), m);
                assert(errors_view(out@) + syntax_errors_from(lv, i + 1) =~= before
                    + syntax_errors_from(lv, i as int));
            },
        }
        i += 1;
    }
    assert(errors_view(out@) + Seq::<Diag>::empty() == errors_view(out@));
    out
}


// ---------------------------------------------------------------------------
// Repeated keys
// ---------------------------------------------------------------------------

/// Index of the first line equal to `x` (or `ls.len()`).
pub open spec fn first_pos(ls: Seq<Seq<char>>, x: Seq<char>) -> int
    decreases ls.len(),
{
    if ls.len() == 0 {
        0
    } else if ls[0] == x {
        0
    } else {
        1 + first_pos(ls.drop_first(), x)
    }
}

/// The 1-based number of the first line equal to `x`; 1 when there is none.
pub open spec fn line_number_spec(ls: Seq<Seq<char>>, x: Seq<char>) -> int {
    if first_pos(ls, x) < ls.len() {
        first_pos(ls, x) + 1
    } else {
        1
    }
}

pub proof fn lemma_first_pos(ls: Seq<Seq<char>>, x: Seq<char>)
    ensures
        0 <= first_pos(ls, x) <= ls.len(),
        forall|j: int| 0 <= j < first_pos(ls, x) ==> ls[j] != x,
        first_pos(ls, x) < ls.len() ==> ls[first_pos(ls, x)] == x,
    decreases ls.len(),
{
    if ls.len() > 0 && ls[0] != x {
        lemma_first_pos(ls.drop_first(), x);
        assert forall|j: int| 0 <= j < first_pos(ls, x) implies ls[j] != x by {
            if j > 0 {
                assert(ls[j] == ls.drop_first()[j - 1]);
            }
        }
    }
}

pub proof fn lemma_first_pos_at(ls: Seq<Seq<char>>, x: Seq<char>, r: int)
    requires
        0 <= r <= ls.len(),
        forall|j: int| 0 <= j < r ==> ls[j] != x,
        r < ls.len() ==> ls[r] == x,
    ensures
        first_pos(ls, x) == r,
    decreases ls.len(),
{
    if ls.len() > 0 && r > 0 {
        lemma_first_pos_at(ls.drop_first(), x, r - 1);
    }
}

fn line_number_in(ls: &Vec<Vec<char>>, target: &[char]) -> (r: usize)
    ensures
        r == line_number_spec(ls.deep_view(), target@),
{
    let ghost lv = ls.deep_view();
    let mut i: usize = 0;
    while i < ls.len()
        invariant
            i <= ls.len(),
            lv == ls.deep_view(),
            forall|j: int| 0 <= j < i ==> lv[j] != target@,
        decreases ls.len() - i,
    {
        assert(lv[i as int] == ls@[i as int]@);
        if chars_eq(ls[i].as_slice(), target) {
            proof {
                lemma_first_pos_at(lv, target@, i as int);
            }
            return i + 1;
        }
        i += 1;
    }
    proof {
        lemma_first_pos_at(lv, target@, i as int);
    }
    1
}

/// The 1-based number of the first line of `content` equal to `target`.
pub fn line_number(content: &str, target: &str) -> (r: usize)
    ensures
        r == line_number_spec(lines(content@), target@),
{
    let cs = chars_of(content);
    let ls = lines_of(cs.as_slice());
    let t = chars_of(target);
    line_number_in(&ls, t.as_slice())
}

/// The key of a line with a `=`: what comes before it, trimmed.
pub open spec fn eq_key(t: Seq<char>) -> Option<Seq<char>> {
    let i = find_char(t, '=');
    if 0 <= i < t.len() {
        Some(trim(t.take(i)))
    } else {
        None
    }
}

pub open spec fn dup_msg(k: Seq<char>) -> Seq<char> {
    "duplicate field key \""@ + k + "\""@
}

/// The repeated keys among the lines from `i` on, given the keys `seen`
/// before; each reported at the number of the first line equal to its line.
pub open spec fn dup_errors_from(ls: Seq<Seq<char>>, i: int, seen: Seq<Seq<char>>) -> Seq<Diag>
    decreases ls.len() - i,
{
    if !(0 <= i < ls.len()) {
        seq![]
    } else {
        let t = trim(ls[i]);
        if t.len() == 0 || starts_with(t, '#') {
            dup_errors_from(ls, i + 1, seen)
        } else {
            match eq_key(t) {
                None => dup_errors_from(ls, i + 1, seen),
                Some(k) => if seen.contains(k) {
                    seq![(Some(line_number_spec(ls, ls[i]) as usize), dup_msg(k))]
                        + dup_errors_from(ls, i + 1, seen)
                } else {
                    dup_errors_from(ls, i + 1, seen.push(k))
                },
            }
        }
    }
}

fn seen_contains(seen: &Vec<Vec<char>>, k: &[char]) -> (r: bool)
    ensures
        r == seen.deep_view().contains(k@),
{
    let mut i: usize = 0;
    while i < seen.len()
        invariant
            i <= seen.len(),
            forall|j: int| 0 <= j < i ==> seen.deep_view()[j] != k@,
        decreases seen.len() - i,
    {
        assert(seen.deep_view()[i as int] == seen@[i as int]@);
        if chars_eq(seen[i].as_slice(), k) {
            return true;
        }
        i += 1;
    }
    false
}

fn duplicate_key_errors(ls: &Vec<Vec<char>>) -> (r: Vec<CheckError>)
    ensures
        errors_view(r@) == dup_errors_from(ls.deep_view(), 0, seq![]),
{
    let ghost lv = ls.deep_view();
    let mut out: Vec<CheckError> = Vec::new();
    let mut seen: Vec<Vec<char>> = Vec::new();
    let mut i: usize = 0;
    assert(seen.deep_view() =~= Seq::<Seq<char>>::empty());
    while i < ls.len()
        invariant
            i <= ls.len(),
            lv == ls.deep_view(),
            errors_view(out@) + dup_errors_from(lv, i as int, seen.deep_view())
                == dup_errors_from(lv, 0, seq![]),
        decreases ls.len() - i,
    {
        assert(lv[i as int] == ls@[i as int]@);
        let t = trim_chars(ls[i].as_slice());
        if t.len() == 0 || t[0] == '#' {
            i += 1;
            continue;
        }
        let eq = find_from(t.as_slice(), '=', 0);
        assert(t@.skip(0) == t@);
        if eq < t.len() {
            let before = slice_chars(t.as_slice(), 0, eq);
            let key = trim_chars(before.as_slice());
            assert(before@ == t@.take(eq as int));
            if seen_contains(&seen, key.as_slice()) {
                let n = line_number_in(ls, ls[i].as_slice());
                let mut m = chars_of("duplicate field key \"");
                m.extend_from_slice(key.as_slice());
                let q = chars_of("\"");
                m.extend_from_slice(q.as_slice());
                assert(m@ =~= dup_msg(key@));
                assert(eq_key(t@) == Some(key@));
                assert(dup_errors_from(lv, i as int, seen.deep_view()) == seq![(Some(n), dup_msg(key@))]
                    + dup_errors_from(lv, i + 1, seen.deep_view()));
                let ghost before_out = errors_view(out@);
                push_error(&mut out, Some(n), string_of(m.as_slice()));
                assert(errors_view(out@) + dup_errors_from(lv, i + 1, seen.deep_view())
                    =~= before_out + dup_errors_from(lv, i as int, seen.deep_view()));
            } else {
                crate::text::push_chars(&mut seen, key);
            }
        }
        i += 1;
    }
    assert(errors_view(out@) + Seq::<Diag>::empty() == errors_view(out@));
    out
}

// ---------------------------------------------------------------------------
// References and empty commands
// ---------------------------------------------------------------------------

pub open spec fn lang_msg(lang: Seq<char>, path: Seq<char>) -> Seq<char> {
    "lang=\""@ + lang + "\" \u{2014} no such language (expected dir: "@ + path + ")"@
}

pub open spec fn include_msg(inc: Seq<char>, path: Seq<char>) -> Seq<char> {
    "includes=[\""@ + inc + "\"] \u{2014} no such include (expected dir: "@ + path + ")"@
}

pub open spec fn warn_msg(field: Seq<char>) -> Seq<char> {
    field + "=\"\" \u{2014} empty; overseer will fall back to \"nix build\""@
}

/// The error for a `lang` that names no existing language directory.
pub open spec fn lang_errors(
    m: Map<Seq<char>, Seq<char>>,
    lang_dir: Option<Seq<char>>,
    existing: Seq<Seq<char>>,
) -> Seq<Diag> {
    match (map_get(m, "lang"@), lang_dir) {
        (Some(l), Some(d)) => if existing.contains(path_join(d, l)) {
            seq![]
        } else {
            seq![(None, lang_msg(l, path_join(d, l)))]
        },
        _ => seq![],
    }
}

/// The errors for the includes from `i` on that name no existing directory.
pub open spec fn include_errors_from(
    incs: Seq<Seq<char>>,
    i: int,
    dir: Seq<char>,
    existing: Seq<Seq<char>>,
) -> Seq<Diag>
    decreases incs.len() - i,
{
    if !(0 <= i < incs.len()) {
        seq![]
    } else if existing.contains(path_join(dir, incs[i])) {
        include_errors_from(incs, i + 1, dir, existing)
    } else {
        seq![(None, include_msg(incs[i], path_join(dir, incs[i])))] + include_errors_from(
            incs,
            i + 1,
            dir,
            existing,
        )
    }
}

pub open spec fn include_errors(
    m: Map<Seq<char>, Seq<char>>,
    include_dir: Option<Seq<char>>,
    existing: Seq<Seq<char>>,
) -> Seq<Diag> {
    match (map_get(m, "includes"@), include_dir) {
        (Some(v), Some(d)) => include_errors_from(parse_json_array_spec(v), 0, d, existing),
        _ => seq![],
    }
}

pub open spec fn empty_warning(m: Map<Seq<char>, Seq<char>>, field: Seq<char>) -> Seq<Diag> {
    if map_get(m, field) == Some(Seq::<char>::empty()) {
        seq![(None, warn_msg(field))]
    } else {
        seq![]
    }
}

/// Warnings for `build`, `run`, `test` and `check` set to the empty string.
pub open spec fn empty_warnings(m: Map<Seq<char>, Seq<char>>) -> Seq<Diag> {
    empty_warning(m, "build"@) + empty_warning(m, "run"@) + empty_warning(m, "test"@)
        + empty_warning(m, "check"@)
}

/// The directories whose existence `check_wl` needs to know: that of the
/// `lang`, then those of the includes.
pub open spec fn probes_spec(
    m: Map<Seq<char>, Seq<char>>,
    lang_dir: Option<Seq<char>>,
    include_dir: Option<Seq<char>>,
) -> Seq<Seq<char>> {
    let lang_probe = match (map_get(m, "lang"@), lang_dir) {
        (Some(l), Some(d)) => seq![path_join(d, l)],
        _ => seq![],
    };
    let include_probes = match (map_get(m, "includes"@), include_dir) {
        (Some(v), Some(d)) => parse_json_array_spec(v).map_values(|i: Seq<char>| path_join(d, i)),
        _ => seq![],
    };
    lang_probe + include_probes
}

// ---------------------------------------------------------------------------
// The whole check
// ---------------------------------------------------------------------------

/// What `forge check` reports for a `.wl` file: (path, errors, warnings).
pub open spec fn check_spec(
    path: Seq<char>,
    content: Seq<char>,
    lang_dir: Option<Seq<char>>,
    include_dir: Option<Seq<char>>,
    existing: Seq<Seq<char>>,
) -> (Seq<char>, Seq<Diag>, Seq<Diag>) {
    let syn = syntax_errors(content);
    if syn.len() > 0 {
        (path, syn, seq![])
    } else {
        match scan_fields_lenient(content) {
            FieldScan::Fields(m) => (
                path,
                dup_errors_from(lines(content), 0, seq![]) + lang_errors(m, lang_dir, existing)
                    + include_errors(m, include_dir, existing),
                empty_warnings(m),
            ),
            FieldScan::Malformed(t) => (
                path,
                seq![(None, "parse error: malformed line: "@ + t)],
                seq![],
            ),
            _ => (path, seq![], seq![]),
        }
    }
}

/// Checking `content` reads a value that `strip_quotes` cannot cut: a lone
/// quote as a line's value, or in the `includes` array.
pub open spec fn check_would_panic(content: Seq<char>) -> bool {
    syntax_errors(content).len() == 0 && match scan_fields_lenient(content) {
        FieldScan::Panics => true,
        FieldScan::Fields(m) => array_field_would_panic(map_get(m, "includes"@)),
        _ => false,
    }
}

pub open spec fn check_result_view(r: CheckResult) -> (Seq<char>, Seq<Diag>, Seq<Diag>) {
    (r.path@, errors_view(r.errors@), warnings_view(r.warnings@))
}

fn opt_str_chars(o: Option<&str>) -> (r: Option<Vec<char>>)
    ensures
        r.deep_view() == opt_chars(o),
{
    match o {
        Some(s) => Some(chars_of(s)),
        None => None,
    }
}

fn exists_in(existing: &[String], p: &[char]) -> (r: bool)
    ensures
        r == existing@.map_values(|s: String| s@).contains(p@),
{
    let ghost ev = existing@.map_values(|s: String| s@);
    let mut i: usize = 0;
    while i < existing.len()
        invariant
            i <= existing.len(),
            ev == existing@.map_values(|s: String| s@),
            forall|j: int| 0 <= j < i ==> ev[j] != p@,
        decreases existing.len() - i,
    {
        let c = chars_of(existing[i].as_str());
        if chars_eq(c.as_slice(), p) {
            assert(ev[i as int] == p@);
            return true;
        }
        i += 1;
    }
    false
}

fn lang_errors_exec(
    f: &FieldMap,
    lang_dir: Option<&str>,
    existing: &[String],
    out: &mut Vec<CheckError>,
)
    requires
        f.wf(),
    ensures
        errors_view(final(out)@) == errors_view(old(out)@) + lang_errors(
            f.view(),
            opt_chars(lang_dir),
            existing@.map_values(|s: String| s@),
        ),
{
    let lang = f.get_chars(chars_of("lang").as_slice());
    match (lang, opt_str_chars(lang_dir)) {
        (Some(l), Some(d)) => {
            let p = join_chars(d.as_slice(), l.as_slice());
            if !exists_in(existing, p.as_slice()) {
                let mut m = chars_of("lang=\"");
                m.extend_from_slice(l.as_slice());
                m.extend_from_slice(chars_of("\" \u{2014} no such language (expected dir: ").as_slice());
                m.extend_from_slice(p.as_slice());
                m.extend_from_slice(chars_of(")").as_slice());
                assert(m@ =~= lang_msg(l@, p@));
                push_error(out, None, string_of(m.as_slice()));
            } else {
                assert(errors_view(out@) + Seq::<Diag>::empty() == errors_view(out@));
            }
        },
        _ => {
            assert(errors_view(out@) + Seq::<Diag>::empty() == errors_view(out@));
        },
    }
}

fn include_errors_exec(
    f: &FieldMap,
    include_dir: Option<&str>,
    existing: &[String],
    out: &mut Vec<CheckError>,
)
    requires
        f.wf(),
        !array_field_would_panic(map_get(f.view(), "includes"@)),
    ensures
        errors_view(final(out)@) == errors_view(old(out)@) + include_errors(
            f.view(),
            opt_chars(include_dir),
            existing@.map_values(|s: String| s@),
        ),
{
    let ghost ev = existing@.map_values(|s: String| s@);
    let incs_val = f.get_chars(chars_of("includes").as_slice());
    let incs = match &incs_val {
        Some(v) => parse_json_array_chars(v.as_slice()),
        None => Vec::new(),
    };
    match (incs_val, opt_str_chars(include_dir)) {
        (Some(_), Some(d)) => {
            let ghost iv = incs.deep_view();
            let ghost start = errors_view(out@);
            let mut i: usize = 0;
            while i < incs.len()
                invariant
                    i <= incs.len(),
                    iv == incs.deep_view(),
                    ev == existing@.map_values(|s: String| s@),
                    errors_view(out@) + include_errors_from(iv, i as int, d@, ev) == start
                        + include_errors_from(iv, 0, d@, ev),
                decreases incs.len() - i,
            {
                let inc = chars_of(incs[i].as_str());
                assert(inc@ == iv[i as int]);
                let p = join_chars(d.as_slice(), inc.as_slice());
                if !exists_in(existing, p.as_slice()) {
                    let mut m = chars_of("includes=[\"");
                    m.extend_from_slice(inc.as_slice());
                    m.extend_from_slice(
                        chars_of("\"] \u{2014} no such include (expected dir: ").as_slice(),
                    );
                    m.extend_from_slice(p.as_slice());
                    m.extend_from_slice(chars_of(")").as_slice());
                    assert(m@ =~= include_msg(inc@, p@));
                    let ghost before = errors_view(out@);
                    push_error(out, None, string_of(m.as_slice()));
                    assert(errors_view(out@) + include_errors_from(iv, i + 1, d@, ev) =~= before
                        + include_errors_from(iv, i as int, d@, ev));
                }
                i += 1;
            }
            assert(errors_view(out@) + Seq::<Diag>::empty() == errors_view(out@));
        },
        _ => {
            assert(errors_view(out@) + Seq::<Diag>::empty() == errors_view(out@));
        },
    }
}

fn empty_warning_exec(f: &FieldMap, field: &str, out: &mut Vec<CheckWarning>)
    requires
        f.wf(),
    ensures
        warnings_view(final(out)@) == warnings_view(old(out)@) + empty_warning(f.view(), field@),
{
    let v = f.get_chars(chars_of(field).as_slice());
    match v {
        Some(v) => {
            if v.len() == 0 {
                assert(v@ =~= Seq::<char>::empty());
                let mut m = chars_of(field);
                m.extend_from_slice(
                    chars_of("=\"\" \u{2014} empty; overseer will fall back to \"nix build\"").as_slice(),
                );
                assert(m@ =~= warn_msg(field@));
                push_warning(out, None, string_of(m.as_slice()));
            } else {
                assert(v@ != Seq::<char>::empty());
                assert(warnings_view(out@) + Seq::<Diag>::empty() == warnings_view(out@));
            }
        },
        None => {
            assert(warnings_view(out@) + Seq::<Diag>::empty() == warnings_view(out@));
        },
    }
}

/// Whether checking `content` meets a lone quote value (see
/// `check_would_panic`).
pub fn check_content_would_panic(content: &str) -> (r: bool)
    ensures
        r == check_would_panic(content@),
{
    let syn = validate_syntax(content);
    if syn.len() > 0 {
        return false;
    }
    if crate::wl_parser::lenient_fields_would_panic(content) {
        return true;
    }
    match parse_fields_lenient(content) {
        Ok(f) => match f.get("includes") {
            Some(v) => json_array_would_panic(chars_of(v.as_str()).as_slice()),
            None => false,
        },
        Err(_) => false,
    }
}

/// The directories whose existence `check_wl` needs, when the syntax of
/// `content` is right and its fields can be read (empty otherwise).
pub fn check_probes(content: &str, lang_dir: Option<&str>, include_dir: Option<&str>) -> (r: Vec<String>)
    requires
        !check_would_panic(content@),
    ensures
        syntax_errors(content@).len() == 0 ==> match scan_fields_lenient(content@) {
            FieldScan::Fields(m) => r.deep_view() == probes_spec(
                m,
                opt_chars(lang_dir),
                opt_chars(include_dir),
            ),
            _ => r.len() == 0,
        },
        syntax_errors(content@).len() > 0 ==> r.len() == 0,
{
    let mut out: Vec<String> = Vec::new();
    let syn = validate_syntax(content);
    if syn.len() > 0 {
        return out;
    }
    match parse_fields_lenient(content) {
        Err(_) => out,
        Ok(f) => {
            let lang = f.get_chars(chars_of("lang").as_slice());
            match (lang, opt_str_chars(lang_dir)) {
                (Some(l), Some(d)) => {
                    let p = join_chars(d.as_slice(), l.as_slice());
                    out.push(string_of(p.as_slice()));
                },
                _ => {},
            }
            let ghost lang_part = out.deep_view();
            let incs_val = f.get_chars(chars_of("includes").as_slice());
            match (incs_val, opt_str_chars(include_dir)) {
                (Some(v), Some(d)) => {
                    let incs = parse_json_array_chars(v.as_slice());
                    let ghost iv = incs.deep_view();
                    let mut i: usize = 0;
                    while i < incs.len()
                        invariant
                            i <= incs.len(),
                            iv == incs.deep_view(),
                            out.deep_view() == lang_part + iv.take(i as int).map_values(
                                |x: Seq<char>| path_join(d@, x),
                            ),
                        decreases incs.len() - i,
                    {
                        let inc = chars_of(incs[i].as_str());
                        assert(inc@ == iv[i as int]);
                        let p = join_chars(d.as_slice(), inc.as_slice());
                        let ghost before = out.deep_view();
                        out.push(string_of(p.as_slice()));
                        assert(out.deep_view() =~= before.push(p@));
                        assert(iv.take(i + 1) == iv.take(i as int).push(iv[i as int]));
                        assert(iv.take(i + 1).map_values(|x: Seq<char>| path_join(d@, x))
                            =~= iv.take(i as int).map_values(|x: Seq<char>| path_join(d@, x)).push(
                            path_join(d@, iv[i as int]),
                        ));
                        i += 1;
                    }
                    assert(iv.take(incs.len() as int) == iv);
                },
                _ => {
                    assert(out.deep_view() == lang_part + Seq::<Seq<char>>::empty());
                },
            }
            out
        },
    }
}

/// Checks the text of a `.wl` file (see `check_spec`).  `existing` lists the
/// directories that exist among those `check_probes` names.
pub fn check_wl(
    path: &str,
    content: &str,
    lang_dir: Option<&str>,
    include_dir: Option<&str>,
    existing: &[String],
) -> (r: CheckResult)
    requires
        !check_would_panic(content@),
    ensures
        check_result_view(r) == check_spec(
            path@,
            content@,
            opt_chars(lang_dir),
            opt_chars(include_dir),
            existing@.map_values(|s: String| s@),
        ),
{
    let path_s = path.to_owned();
    let mut errors = validate_syntax(content);
    let mut warnings: Vec<CheckWarning> = Vec::new();
    assert(warnings_view(warnings@) =~= Seq::<Diag>::empty());
    if errors.len() > 0 {
        return CheckResult { path: path_s, errors, warnings };
    }
    assert(errors_view(errors@) =~= Seq::<Diag>::empty());
    proof {
        crate::wl_parser::lemma_lenient_no_unquoted(lines(content@));
    }
    match parse_fields_lenient(content) {
        Err(e) => {
            let line = match e {
                crate::wl_parser::WlError::MalformedLine { line } => line,
                crate::wl_parser::WlError::UnquotedValue { raw } => raw,
            };
            let mut errs: Vec<CheckError> = Vec::new();
            let m = concat_msg("parse error: malformed line: ", chars_of(line.as_str()).as_slice());
            push_error(&mut errs, None, m);
            assert(errors_view(errs@) =~= seq![(None::<usize>, "parse error: malformed line: "@ + line@)]);
            assert(scan_fields_lenient(content@) == FieldScan::Malformed(line@));
            CheckResult { path: path_s, errors: errs, warnings }
        },
        Ok(f) => {
            let cs = chars_of(content);
            let ls = lines_of(cs.as_slice());
            let mut errs = duplicate_key_errors(&ls);
            lang_errors_exec(&f, lang_dir, existing, &mut errs);
            include_errors_exec(&f, include_dir, existing, &mut errs);
            empty_warning_exec(&f, "build", &mut warnings);
            empty_warning_exec(&f, "run", &mut warnings);
            empty_warning_exec(&f, "test", &mut warnings);
            empty_warning_exec(&f, "check", &mut warnings);
            assert(warnings_view(warnings@) =~= empty_warnings(f.view()));
            assert(scan_fields_lenient(content@) == FieldScan::Fields(f.view()));
            assert(syntax_errors(content@).len() == 0);
            CheckResult { path: path_s, errors: errs, warnings }
        },
    }
}

// ---------------------------------------------------------------------------
// Report
// ---------------------------------------------------------------------------

pub open spec fn loc_spec(line: Option<usize>) -> Seq<char> {
    match line {
        Some(n) => seq![':'] + decimal(n as nat),
        None => seq![],
    }
}

pub open spec fn diag_lines(kind: Seq<char>, ds: Seq<Diag>) -> Seq<Seq<char>> {
    ds.map_values(|d: Diag| "   "@ + kind + loc_spec(d.0) + ": "@ + d.1)
}

/// The lines that `forge check` prints for one file.
pub open spec fn report_spec(r: (Seq<char>, Seq<Diag>, Seq<Diag>)) -> Seq<Seq<char>> {
    if r.1.len() == 0 && r.2.len() == 0 {
        seq!["\u{2705} "@ + r.0]
    } else {
        let head = if r.1.len() == 0 {
            "\u{26a0}\u{fe0f}  "@ + r.0
        } else {
            "\u{274c} "@ + r.0
        };
        seq![head] + diag_lines("error"@, r.1) + diag_lines("warning"@, r.2)
    }
}

fn diag_line(kind: &str, line: Option<usize>, msg: &str) -> (r: String)
    ensures
        r@ == "   "@ + kind@ + loc_spec(line) + ": "@ + msg@,
{
    let mut v = chars_of("   ");
    v.extend_from_slice(chars_of(kind).as_slice());
    match line {
        Some(n) => {
            v.push(':');
            let d = format_u64(n as u64);
            v.extend_from_slice(d.as_slice());
            assert(seq![':'] + decimal(n as nat) =~= seq![':'] + d@);
        },
        None => {},
    }
    v.extend_from_slice(chars_of(": ").as_slice());
    v.extend_from_slice(chars_of(msg).as_slice());
    proof {
        match line {
            Some(n) => {},
            None => {},
        }
    }
    let r = string_of(v.as_slice());
    assert(r@ =~= "   "@ + kind@ + loc_spec(line) + ": "@ + msg@);
    r
}

/// The lines to print for a checked file: a status line, then one line per
/// error and per warning.
pub fn report_lines(r: &CheckResult) -> (out: Vec<String>)
    ensures
        out.deep_view() == report_spec(check_result_view(*r)),
{
    let mut out: Vec<String> = Vec::new();
    let ghost ev = errors_view(r.errors@);
    let ghost wv = warnings_view(r.warnings@);
    if r.errors.len() == 0 && r.warnings.len() == 0 {
        out.push(concat_msg("\u{2705} ", chars_of(r.path.as_str()).as_slice()));
        assert(out.deep_view() =~= seq!["\u{2705} "@ + r.path@]);
        return out;
    }
    if r.errors.len() == 0 {
        out.push(concat_msg("\u{26a0}\u{fe0f}  ", chars_of(r.path.as_str()).as_slice()));
    } else {
        out.push(concat_msg("\u{274c} ", chars_of(r.path.as_str()).as_slice()));
    }
    let ghost head = out.deep_view();
    let mut i: usize = 0;
    while i < r.errors.len()
        invariant
            i <= r.errors.len(),
            ev == errors_view(r.errors@),
            out.deep_view() == head + diag_lines("error"@, ev.take(i as int)),
        decreases r.errors.len() - i,
    {
        let e = &r.errors[i];
        let l = diag_line("error", e.line, e.msg.as_str());
        let ghost before = out.deep_view();
        out.push(l);
        assert(out.deep_view() =~= before.push(l@));
        assert(ev.take(i + 1) == ev.take(i as int).push(ev[i as int]));
        assert(diag_lines("error"@, ev.take(i + 1)) =~= diag_lines("error"@, ev.take(i as int)).push(
            l@,
        ));
        i += 1;
    }
    assert(ev.take(r.errors.len() as int) == ev);
    let ghost mid = out.deep_view();
    let mut j: usize = 0;
    while j < r.warnings.len()
        invariant
            j <= r.warnings.len(),
            wv == warnings_view(r.warnings@),
            out.deep_view() == mid + diag_lines("warning"@, wv.take(j as int)),
        decreases r.warnings.len() - j,
    {
        let w = &r.warnings[j];
        let l = diag_line("warning", w.line, w.msg.as_str());
        let ghost before = out.deep_view();
        out.push(l);
        assert(out.deep_view() =~= before.push(l@));
        assert(wv.take(j + 1) == wv.take(j as int).push(wv[j as int]));
        assert(diag_lines("warning"@, wv.take(j + 1)) =~= diag_lines("warning"@, wv.take(j as int)).push(
            l@,
        ));
        j += 1;
    }
    assert(wv.take(r.warnings.len() as int) == wv);
    out
}


/// `forge check <name>` names a project the index does not hold.
#[derive(Debug, Clone, Copy, PartialEq, Eq, Structural)]
pub enum CheckTargetError {
    NotFound,
}

/// Which projects of the index `forge check` validates: all of them, or
/// the first one named `name`.
pub fn run(index: &crate::index::ProjectIndex, name: Option<&str>) -> (r: Result<Vec<usize>, CheckTargetError>)
    ensures
        name is None ==> (r matches Ok(v) && v@ == Seq::new(
            index.projects.len() as nat,
            |i: int| i as usize,
        )),
        name matches Some(n) ==> {
            let es = crate::index::entries_view(index.projects@);
            let i = crate::index::first_named(es, n@);
            if i < es.len() {
                r matches Ok(v) && v@ == seq![i as usize]
            } else {
                r matches Err(CheckTargetError::NotFound)
            }
        },
{
    match name {
        None => {
            let mut v: Vec<usize> = Vec::new();
            let mut i: usize = 0;
            while i < index.projects.len()
                invariant
                    i <= index.projects.len(),
                    v@ == Seq::new(i as nat, |k: int| k as usize),
                decreases index.projects.len() - i,
            {
                v.push(i);
                assert(v@ =~= Seq::new((i + 1) as nat, |k: int| k as usize));
                i += 1;
            }
            Ok(v)
        },
        Some(n) => {
            proof {
                crate::index::lemma_first_named_hit(crate::index::entries_view(index.projects@), n@);
            }
            match index.find(n) {
                Some(i) => {
                    let v = vec![i];
                    assert(v@ =~= seq![i]);
                    Ok(v)
                },
                None => {
                    proof {
                        let es = crate::index::entries_view(index.projects@);
                        if crate::index::first_named(es, n@) < es.len() {
                            assert(es[crate::index::first_named(es, n@)] == index.projects@[crate::index::first_named(es, n@)]@);
                        }
                    }
                    Err(CheckTargetError::NotFound)
                },
            }
        },
    }
}

/// The error for an include `inc` whose directory under `dir` is missing.
pub open spec fn include_error(inc: Seq<char>, dir: Seq<char>) -> Diag {
    (None, include_msg(inc, path_join(dir, inc)))
}

/// How many of the includes from `i` on name a directory that is not among
/// `existing`.
pub open spec fn missing_includes(incs: Seq<Seq<char>>, i: int, dir: Seq<char>, existing: Seq<Seq<char>>) -> nat
    decreases incs.len() - i,
{
    if !(0 <= i < incs.len()) {
        0
    } else {
        missing_includes(incs, i + 1, dir, existing) + if existing.contains(path_join(dir, incs[i])) {
            0nat
        } else {
            1nat
        }
    }
}

proof fn lemma_diag_concat_contains(a: Seq<Diag>, b: Seq<Diag>, x: Diag)
    ensures
        a.contains(x) ==> (a + b).contains(x),
        b.contains(x) ==> (a + b).contains(x),
{
    if a.contains(x) {
        let i = choose|i: int| 0 <= i < a.len() && a[i] == x;
        assert((a + b)[i] == x);
    }
    if b.contains(x) {
        let i = choose|i: int| 0 <= i < b.len() && b[i] == x;
        assert((a + b)[a.len() + i] == x);
    }
}

proof fn lemma_include_errors_from(incs: Seq<Seq<char>>, i: int, dir: Seq<char>, existing: Seq<Seq<char>>)
    requires
        0 <= i <= incs.len(),
    ensures
        include_errors_from(incs, i, dir, existing).len() == missing_includes(incs, i, dir, existing),
        forall|k: int|
            i <= k < incs.len() && !existing.contains(path_join(dir, incs[k]))
                ==> include_errors_from(incs, i, dir, existing).contains(
                #[trigger] include_error(incs[k], dir),
            ),
    decreases incs.len() - i,
{
    if i < incs.len() {
        lemma_include_errors_from(incs, i + 1, dir, existing);
        let rest = include_errors_from(incs, i + 1, dir, existing);
        let here = seq![(None::<usize>, include_msg(incs[i], path_join(dir, incs[i])))];
        assert forall|k: int|
            i <= k < incs.len() && !existing.contains(path_join(dir, incs[k]))
                implies include_errors_from(incs, i, dir, existing).contains(
                #[trigger] include_error(incs[k], dir),
            ) by {
            let x = include_error(incs[k], dir);
            if existing.contains(path_join(dir, incs[i])) {
            } else {
                assert(here[0] == (None::<usize>, include_msg(incs[i], path_join(dir, incs[i]))));
                lemma_diag_concat_contains(here, rest, x);
            }
        }
    }
}

/// `forge check` reports every include whose directory is missing: on a
/// `.wl` with no syntax errors that sets `includes`, checked against an
/// include directory, each element whose directory (the include directory
/// joined with it) is not among the existing ones gets its "no such
/// include" error, and there are exactly as many include errors as missing
/// include directories.
pub proof fn check_reports_every_missing_include(
    path: Seq<char>,
    content: Seq<char>,
    lang_dir: Option<Seq<char>>,
    dir: Seq<char>,
    existing: Seq<Seq<char>>,
)
    requires
        syntax_errors(content).len() == 0,
        scan_fields_lenient(content) is Fields,
        map_get(scan_fields_lenient(content)->Fields_0, "includes"@) is Some,
    ensures
        ({
            let m = scan_fields_lenient(content)->Fields_0;
            let incs = parse_json_array_spec(map_get(m, "includes"@)->Some_0);
            let errs = check_spec(path, content, lang_dir, Some(dir), existing).1;
            &&& forall|k: int|
                0 <= k < incs.len() && !existing.contains(path_join(dir, incs[k])) ==> errs.contains(
                    #[trigger] include_error(incs[k], dir),
                )
            &&& errs.len() == dup_errors_from(lines(content), 0, seq![]).len() + lang_errors(
                m,
                lang_dir,
                existing,
            ).len() + missing_includes(incs, 0, dir, existing)
        }),
{
    let m = scan_fields_lenient(content)->Fields_0;
    let incs = parse_json_array_spec(map_get(m, "includes"@)->Some_0);
    let a = dup_errors_from(lines(content), 0, seq![]) + lang_errors(m, lang_dir, existing);
    let ie = include_errors_from(incs, 0, dir, existing);
    assert(include_errors(m, Some(dir), existing) == ie);
    assert(check_spec(path, content, lang_dir, Some(dir), existing).1 == a + ie);
    lemma_include_errors_from(incs, 0, dir, existing);
    assert forall|k: int|
        0 <= k < incs.len() && !existing.contains(path_join(dir, incs[k])) implies (a + ie).contains(
            #[trigger] include_error(incs[k], dir),
        ) by {
        lemma_diag_concat_contains(a, ie, include_error(incs[k], dir));
    }
}

} // verus!
