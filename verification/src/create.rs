//! `forge create`: the text of a new project's `.wl`.
//!
//! A new `.wl` declares every field: `name`, `lang`, an empty `desc`, empty
//! `tags`, the requested `includes`, and the language's default
//! `build`/`run`/`test`/`check` commands (those it sets to something
//! non-empty).  When the project already had a `.wl`, its non-empty
//! description and its tags are carried over, and so is each of its
//! commands for which the language sets a non-empty default (a command with
//! no such default gets no line).

use vstd::prelude::*;
use crate::project_state::{array_line, kv_line};
use crate::fields::map_get;
use crate::project_state::is_key_word;
use crate::text::{
    chars_of, ends_with, join, lemma_find_absent, lemma_find_after, lines, no_char, push_joined,
    push_str, split, split_chars, trim, trim_chars, string_of,
};
use crate::wl_parser::{
    FieldScan, Language, LanguageView, LineOutcome, WlFile, WlView, array_elem_ok, classify_line,
    is_key_char, key_end, match_kv, or_empty, quote, render_array, render_array_chars,
    scan_fields, scan_lines, wl_of, wl_would_panic, ws_end,
};

verus! {

broadcast use crate::text::lemma_chars_deep_view;

/// The line for a command field: present when the language sets a
/// non-empty default, with the existing project's value when it has one.
pub open spec fn command_lines(k: Seq<char>, default: Option<Seq<char>>, existing: Option<Seq<char>>) -> Seq<Seq<char>> {
    match default {
        Some(b) => if b.len() > 0 {
            seq![kv_line(k, match existing {
                Some(e) => e,
                None => b,
            })]
        } else {
            seq![]
        },
        None => seq![],
    }
}

pub open spec fn existing_field(existing: Option<WlView>, f: spec_fn(WlView) -> Option<Seq<char>>) -> Option<Seq<char>> {
    match existing {
        Some(w) => f(w),
        None => None,
    }
}

/// The lines of a new `.wl`, the last one empty (so the text ends with a
/// line break).
pub open spec fn wl_lines(
    name: Seq<char>,
    lang: LanguageView,
    existing: Option<WlView>,
    includes: Seq<Seq<char>>,
) -> Seq<Seq<char>> {
    seq![
        kv_line("name"@, name),
        kv_line("lang"@, lang.name),
        kv_line("desc"@, match existing {
            Some(w) => or_empty(w.desc),
            None => seq![],
        }),
        array_line("tags"@, match existing {
            Some(w) => w.tags,
            None => seq![],
        }),
        array_line("includes"@, includes),
    ] + command_lines("build"@, lang.build, existing_field(existing, |w: WlView| w.build))
        + command_lines("run"@, lang.run, existing_field(existing, |w: WlView| w.run))
        + command_lines("test"@, lang.test, existing_field(existing, |w: WlView| w.test))
        + command_lines("check"@, lang.check, existing_field(existing, |w: WlView| w.check))
        + seq![seq![]]
}

pub open spec fn wl_content_spec(
    name: Seq<char>,
    lang: LanguageView,
    existing: Option<WlView>,
    includes: Seq<Seq<char>>,
) -> Seq<char> {
    join(wl_lines(name, lang, existing, includes), "\n"@)
}

fn kv_chars(k: &str, v: &[char]) -> (r: Vec<char>)
    ensures
        r@ == kv_line(k@, v@),
{
    let mut l: Vec<char> = Vec::new();
    push_str(&mut l, k);
    push_str(&mut l, "=");
    push_str(&mut l, "\"");
    l.extend_from_slice(v);
    push_str(&mut l, "\"");
    assert(l@ =~= kv_line(k@, v@));
    l
}

fn array_chars(k: &str, xs: &Vec<String>) -> (r: Vec<char>)
    ensures
        r@ == array_line(k@, xs.deep_view()),
{
    let mut cs: Vec<Vec<char>> = Vec::new();
    let mut i: usize = 0;
    while i < xs.len()
        invariant
            i <= xs.len(),
            cs.deep_view() == xs.deep_view().take(i as int),
        decreases xs.len() - i,
    {
        let ghost before = cs.deep_view();
        crate::text::push_chars(&mut cs, chars_of(xs[i].as_str()));
        assert(xs.deep_view().take(i + 1) =~= before.push(xs@[i as int]@));
        i += 1;
    }
    assert(xs.deep_view().take(xs.len() as int) == xs.deep_view());
    let arr = render_array_chars(&cs);
    let mut l: Vec<char> = Vec::new();
    push_str(&mut l, k);
    push_str(&mut l, "=");
    l.extend_from_slice(arr.as_slice());
    assert(l@ =~= array_line(k@, xs.deep_view()));
    l
}

fn push_command(
    ls: &mut Vec<Vec<char>>,
    k: &str,
    default: &Option<String>,
    existing: Option<&Option<String>>,
)
    ensures
        final(ls).deep_view() == old(ls).deep_view() + command_lines(
            k@,
            default.deep_view(),
            match existing {
                Some(e) => e.deep_view(),
                None => None,
            },
        ),
{
    let ghost before = ls.deep_view();
    match default {
        Some(b) => {
            let bc = chars_of(b.as_str());
            if bc.len() > 0 {
                let v = match existing {
                    Some(Some(e)) => chars_of(e.as_str()),
                    _ => chars_of(b.as_str()),
                };
                crate::text::push_chars(ls, kv_chars(k, v.as_slice()));
            } else {
                assert(ls.deep_view() =~= before + Seq::<Seq<char>>::empty());
            }
        },
        None => {
            assert(ls.deep_view() =~= before + Seq::<Seq<char>>::empty());
        },
    }
}

/// The text of a new `.wl` (see `wl_content_spec`).  `existing` is the
/// project's earlier `.wl`, when there was one and it could be read.
#[verifier::rlimit(30)]
pub fn build_wl_content(name: &str, lang: &Language, existing: Option<&WlFile>, includes: &Vec<String>) -> (r: String)
    ensures
        r@ == wl_content_spec(
            name@,
            lang@,
            match existing {
                Some(w) => Some(w@),
                None => None,
            },
            includes.deep_view(),
        ),
{
    let mut ls: Vec<Vec<char>> = Vec::new();
    crate::text::push_chars(&mut ls, kv_chars("name", chars_of(name).as_slice()));
    crate::text::push_chars(&mut ls, kv_chars("lang", chars_of(lang.name.as_str()).as_slice()));
    let desc = match existing {
        Some(w) => match &w.desc {
            Some(d) => chars_of(d.as_str()),
            None => Vec::new(),
        },
        None => Vec::new(),
    };
    crate::text::push_chars(&mut ls, kv_chars("desc", desc.as_slice()));
    let no_tags: Vec<String> = Vec::new();
    let tags = match existing {
        Some(w) => &w.tags,
        None => &no_tags,
    };
    assert(no_tags.deep_view() =~= Seq::<Seq<char>>::empty());
    crate::text::push_chars(&mut ls, array_chars("tags", tags));
    crate::text::push_chars(&mut ls, array_chars("includes", includes));
    let ghost head = ls.deep_view();
    push_command(&mut ls, "build", &lang.build, match existing {
        Some(w) => Some(&w.build),
        None => None,
    });
    push_command(&mut ls, "run", &lang.run, match existing {
        Some(w) => Some(&w.run),
        None => None,
    });
    push_command(&mut ls, "test", &lang.test, match existing {
        Some(w) => Some(&w.test),
        None => None,
    });
    push_command(&mut ls, "check", &lang.check, match existing {
        Some(w) => Some(&w.check),
        None => None,
    });
    crate::text::push_chars(&mut ls, Vec::new());
    let ghost ev = match existing {
        Some(w) => Some(w@),
        None => None::<WlView>,
    };
    assert(ls.deep_view() =~= wl_lines(name@, lang@, ev, includes.deep_view()));
    let mut out: Vec<char> = Vec::new();
    push_joined(&mut out, &ls, "\n");
    assert(out@ =~= wl_content_spec(name@, lang@, ev, includes.deep_view()));
    string_of(out.as_slice())
}

/// The items of a comma-separated list, trimmed (`"a, b"` gives `a`, `b`).
pub open spec fn comma_list(s: Seq<char>) -> Seq<Seq<char>> {
    split(s, ',').map_values(|p: Seq<char>| trim(p))
}

/// Splits a comma-separated list such as `--include git,overseer`.
pub fn split_comma_list(s: &str) -> (r: Vec<String>)
    ensures
        r.deep_view() == comma_list(s@),
{
    let parts = split_chars(chars_of(s).as_slice(), ',');
    let ghost pv = parts.deep_view();
    let mut out: Vec<String> = Vec::new();
    let mut i: usize = 0;
    while i < parts.len()
        invariant
            i <= parts.len(),
            pv == parts.deep_view(),
            out.deep_view() == pv.take(i as int).map_values(|p: Seq<char>| trim(p)),
        decreases parts.len() - i,
    {
        assert(pv[i as int] == parts@[i as int]@);
        let t = trim_chars(parts[i].as_slice());
        let ghost before = out.deep_view();
        out.push(string_of(t.as_slice()));
        assert(out.deep_view() =~= before.push(t@));
        assert(pv.take(i + 1) == pv.take(i as int).push(pv[i as int]));
        assert(pv.take(i + 1).map_values(|p: Seq<char>| trim(p)) =~= before.push(trim(pv[i as int])));
        i += 1;
    }
    assert(pv.take(parts.len() as int) == pv);
    out
}


/// How `forge create` records the new project: through the after-edit
/// check (`true`) when the editor was opened or `--editor` was given, else
/// by adding it to the index directly.
pub fn records_by_diff(no_open: bool, editor: bool) -> (r: bool)
    ensures
        r == (!no_open || editor),
{
    !no_open || editor
}

/// Whether `forge create` runs the language's `setup.sh`: not for a
/// language whose direnv directive is `none`.
pub fn runs_lang_setup(lang: &Language) -> (r: bool)
    ensures
        r == (lang.direnv@ != "none"@),
{
    !crate::text::str_eq(lang.direnv.as_str(), "none")
}


// ---------------------------------------------------------------------------
// A created `.wl` reads back
// ---------------------------------------------------------------------------

/// The command a new `.wl` sets for a field whose language default is `d`.
pub open spec fn default_command(d: Option<Seq<char>>) -> Option<Seq<char>> {
    match d {
        Some(b) => if b.len() > 0 {
            Some(b)
        } else {
            None
        },
        None => None,
    }
}

/// A value that a `key="value"` line of a `.wl` holds as written: no line
/// break, and no `#` (which starts a comment).
pub open spec fn line_value_ok(v: Seq<char>) -> bool {
    no_char(v, '\n') && no_char(v, '#')
}

pub open spec fn command_ok(d: Option<Seq<char>>) -> bool {
    match d {
        Some(b) => line_value_ok(b),
        None => true,
    }
}

/// The fields of a new `.wl`, as read back.
pub open spec fn created_wl(name: Seq<char>, lang: LanguageView, includes: Seq<Seq<char>>) -> WlView {
    WlView {
        name: Some(name),
        lang: Some(lang.name),
        desc: Some(seq![]),
        tags: seq![],
        includes: includes,
        build: default_command(lang.build),
        run: default_command(lang.run),
        test: default_command(lang.test),
        check: default_command(lang.check),
        overseer_template: None,
        setup: None,
    }
}

spec fn insert_cmd(m: Map<Seq<char>, Seq<char>>, k: Seq<char>, d: Option<Seq<char>>) -> Map<
    Seq<char>,
    Seq<char>,
> {
    match default_command(d) {
        Some(b) => m.insert(k, b),
        None => m,
    }
}

spec fn created_fields(name: Seq<char>, lang: LanguageView, includes: Seq<Seq<char>>) -> Map<
    Seq<char>,
    Seq<char>,
> {
    let m = Map::empty().insert("name"@, name).insert("lang"@, lang.name).insert("desc"@, seq![])
        .insert("tags"@, render_array(seq![])).insert("includes"@, render_array(includes));
    insert_cmd(
        insert_cmd(insert_cmd(insert_cmd(m, "build"@, lang.build), "run"@, lang.run), "test"@, lang.test),
        "check"@,
        lang.check,
    )
}

proof fn lemma_key_end_word(k: Seq<char>, rest: Seq<char>, i: int)
    requires
        is_key_word(k),
        rest.len() > 0,
        !is_key_char(rest[0]),
        0 <= i <= k.len(),
    ensures
        key_end(k + rest, i) == k.len(),
    decreases k.len() - i,
{
    let s = k + rest;
    if i < k.len() {
        assert(s[i] == k[i]);
        lemma_key_end_word(k, rest, i + 1);
    } else {
        assert(s[i] == rest[0]);
    }
}

proof fn lemma_match_line(k: Seq<char>, rest: Seq<char>)
    requires
        is_key_word(k),
        rest.len() > 0,
        rest[0] == '"' || rest[0] == '[',
        rest.last() == '"' || rest.last() == ']',
    ensures
        trim(k + "="@ + rest) == k + "="@ + rest,
        match_kv(k + "="@ + rest) == Some((k, rest)),
{
    reveal_strlit("=");
    assert("="@ =~= seq!['=']);
    let line = k + seq!['='] + rest;
    assert(line =~= k + (seq!['='] + rest));
    assert(line[0] == k[0]);
    assert(is_key_char(k[0]));
    assert(line.last() == rest.last());
    crate::text::lemma_trim_noop(line);
    lemma_key_end_word(k, seq!['='] + rest, 0);
    let e = k.len() as int;
    assert(line[e] == '=');
    assert(!crate::text::is_ws('='));
    assert(ws_end(line, e) == e);
    assert(line[e + 1] == rest[0]);
    assert(ws_end(line, e + 1) == e + 1);
    assert(line.take(e) =~= k);
    assert(line.skip(e + 1) =~= rest);
}

proof fn lemma_classify_kv(k: Seq<char>, v: Seq<char>)
    requires
        is_key_word(k),
        line_value_ok(v),
    ensures
        classify_line(true, kv_line(k, v)) == LineOutcome::Entry(k, v),
{
    crate::project_state::lemma_quote_shape(v);
    let q = quote(v);
    lemma_match_line(k, q);
    assert(kv_line(k, v) == k + "="@ + q);
    reveal_strlit("\"");
    assert(q =~= seq!['"'] + v + seq!['"']);
    assert(no_char(q, '#')) by {
        assert forall|i: int| 0 <= i < q.len() implies q[i] != '#' by {
            if 0 < i < q.len() - 1 {
                assert(q[i] == v[i - 1]);
            }
        }
    }
    lemma_find_absent(q, '#');
    assert(split(q, '#') == seq![q]);
    crate::text::lemma_trim_noop(q);
    assert(q.subrange(1, q.len() - 1) =~= v);
}

proof fn lemma_classify_arr(k: Seq<char>, xs: Seq<Seq<char>>)
    requires
        is_key_word(k),
    ensures
        classify_line(true, array_line(k, xs)) == LineOutcome::Entry(k, render_array(xs)),
{
    crate::project_state::lemma_array_shape(xs);
    lemma_match_line(k, render_array(xs));
}

proof fn lemma_scan_push(ls: Seq<Seq<char>>, l: Seq<char>)
    ensures
        scan_lines(true, ls.push(l)) == match scan_lines(true, ls) {
            FieldScan::Fields(m) => match classify_line(true, l) {
                LineOutcome::Skip => FieldScan::Fields(m),
                LineOutcome::Entry(k, v) => FieldScan::Fields(m.insert(k, v)),
                LineOutcome::Malformed(t) => FieldScan::Malformed(t),
                LineOutcome::Unquoted(r) => FieldScan::Unquoted(r),
                LineOutcome::LoneQuote => FieldScan::Panics,
            },
            other => other,
        },
{
    assert(ls.push(l).drop_last() =~= ls);
}

proof fn lemma_scan_cmd(ls: Seq<Seq<char>>, m: Map<Seq<char>, Seq<char>>, k: Seq<char>, d: Option<Seq<char>>)
    requires
        scan_lines(true, ls) == FieldScan::Fields(m),
        is_key_word(k),
        command_ok(d),
    ensures
        scan_lines(true, ls + command_lines(k, d, None)) == FieldScan::Fields(insert_cmd(m, k, d)),
{
    match d {
        Some(b) => if b.len() > 0 {
            assert(ls + command_lines(k, d, None) =~= ls.push(kv_line(k, b)));
            lemma_scan_push(ls, kv_line(k, b));
            lemma_classify_kv(k, b);
        } else {
            assert(ls + command_lines(k, d, None) =~= ls);
        },
        None => {
            assert(ls + command_lines(k, d, None) =~= ls);
        },
    }
}

proof fn lemma_cmd_lines_ok(k: Seq<char>, d: Option<Seq<char>>)
    requires
        is_key_word(k),
        command_ok(d),
    ensures
        forall|i: int| 0 <= i < command_lines(k, d, None).len() ==> no_char(#[trigger] command_lines(k, d, None)[i], '\n')
            && !ends_with(command_lines(k, d, None)[i], '\r') && command_lines(k, d, None)[i].len() > 0,
{
    match d {
        Some(b) => if b.len() > 0 {
            crate::project_state::lemma_quote_shape(b);
            crate::project_state::lemma_no_newline_quote(b);
            crate::project_state::lemma_line_ok(k, quote(b));
        },
        None => {},
    }
}

/// `str::lines` on lines joined with `\n` and ended with one more `\n`.
proof fn lemma_lines_trailing(xs: Seq<Seq<char>>)
    requires
        xs.len() > 0,
        forall|i: int| 0 <= i < xs.len() ==> no_char(#[trigger] xs[i], '\n'),
        forall|i: int| 0 <= i < xs.len() ==> !ends_with(#[trigger] xs[i], '\r'),
    ensures
        lines(join(xs.push(seq![]), seq!['\n'])) == xs,
    decreases xs.len(),
{
    let ys = xs.push(seq![]);
    let rest = xs.drop_first();
    assert(ys.drop_first() =~= rest.push(seq![]));
    assert(ys[0] == xs[0]);
    assert(no_char(xs[0], '\n'));
    assert(!ends_with(xs[0], '\r'));
    if xs.len() == 1 {
        assert(rest.push(seq![]) =~= seq![seq![]]);
        assert(join(rest.push(seq![]), seq!['\n']) == Seq::<char>::empty());
        lemma_find_after(xs[0], '\n', seq![]);
        let s = xs[0] + seq!['\n'] + Seq::<char>::empty();
        assert(lines(s) == seq![xs[0]] + lines(Seq::<char>::empty()));
        assert(xs =~= seq![xs[0]]);
    } else {
        assert forall|i: int| 0 <= i < rest.len() implies no_char(#[trigger] rest[i], '\n') by {
            assert(rest[i] == xs[i + 1]);
        }
        assert forall|i: int| 0 <= i < rest.len() implies !ends_with(#[trigger] rest[i], '\r') by {
            assert(rest[i] == xs[i + 1]);
        }
        lemma_lines_trailing(rest);
        let j = join(rest.push(seq![]), seq!['\n']);
        lemma_find_after(xs[0], '\n', j);
        assert(lines(xs[0] + seq!['\n'] + j) == seq![xs[0]] + lines(j));
        assert(xs =~= seq![xs[0]] + rest);
    }
}

proof fn lemma_created_keys()
    ensures
        "overseer_template"@ != "name"@ && "overseer_template"@ != "lang"@ && "overseer_template"@
            != "desc"@ && "overseer_template"@ != "tags"@ && "overseer_template"@ != "includes"@
            && "overseer_template"@ != "build"@ && "overseer_template"@ != "run"@
            && "overseer_template"@ != "test"@ && "overseer_template"@ != "check"@,
        "setup"@ != "name"@ && "setup"@ != "lang"@ && "setup"@ != "desc"@ && "setup"@ != "tags"@
            && "setup"@ != "includes"@ && "setup"@ != "build"@ && "setup"@ != "run"@ && "setup"@
            != "test"@ && "setup"@ != "check"@,
{
    reveal_strlit("name");
    reveal_strlit("lang");
    reveal_strlit("desc");
    reveal_strlit("tags");
    reveal_strlit("includes");
    reveal_strlit("build");
    reveal_strlit("run");
    reveal_strlit("test");
    reveal_strlit("check");
    reveal_strlit("overseer_template");
    reveal_strlit("setup");
    assert("overseer_template"@[0] == 'o');
    assert("setup"@[0] == 's');
    assert("name"@[0] == 'n');
    assert("lang"@[0] == 'l');
    assert("desc"@[0] == 'd');
    assert("tags"@[0] == 't');
    assert("includes"@[0] == 'i');
    assert("build"@[0] == 'b');
    assert("run"@[0] == 'r');
    assert("test"@[0] == 't');
    assert("check"@[0] == 'c');
}

/// A `.wl` written by `forge create` for a new project reads back as the
/// project it describes: its name, its language, an empty description and
/// no tags, the includes asked for, and the language's non-empty default
/// commands — whenever the values can be written (no line break or `#` in
/// the strings, no `"`, `,` or line break in an include).
#[verifier::rlimit(40)]
pub proof fn created_wl_reads_back(name: Seq<char>, lang: LanguageView, includes: Seq<Seq<char>>)
    requires
        line_value_ok(name),
        line_value_ok(lang.name),
        command_ok(lang.build),
        command_ok(lang.run),
        command_ok(lang.test),
        command_ok(lang.check),
        forall|i: int| 0 <= i < includes.len() ==> array_elem_ok(#[trigger] includes[i]) && no_char(
            includes[i],
            '\n',
        ),
    ensures
        scan_fields(wl_content_spec(name, lang, None, includes)) is Fields,
        !wl_would_panic(wl_content_spec(name, lang, None, includes)),
        wl_of(scan_fields(wl_content_spec(name, lang, None, includes))->Fields_0) == created_wl(
            name,
            lang,
            includes,
        ),
{
    crate::project_state::reveal_keys();
    lemma_created_keys();
    let empty: Seq<Seq<char>> = seq![];
    let l0 = kv_line("name"@, name);
    let l1 = kv_line("lang"@, lang.name);
    let l2 = kv_line("desc"@, seq![]);
    let l3 = array_line("tags"@, empty);
    let l4 = array_line("includes"@, includes);
    let f = seq![l0, l1, l2, l3, l4];
    // reading the five fixed lines
    assert(line_value_ok(seq![])) by {
        assert(no_char(Seq::<char>::empty(), '\n'));
        assert(no_char(Seq::<char>::empty(), '#'));
    }
    lemma_classify_kv("name"@, name);
    lemma_classify_kv("lang"@, lang.name);
    lemma_classify_kv("desc"@, seq![]);
    lemma_classify_arr("tags"@, empty);
    lemma_classify_arr("includes"@, includes);
    let s0: Seq<Seq<char>> = seq![];
    assert(scan_lines(true, s0) == FieldScan::Fields(Map::<Seq<char>, Seq<char>>::empty()));
    lemma_scan_push(s0, l0);
    assert(s0.push(l0) =~= seq![l0]);
    lemma_scan_push(seq![l0], l1);
    assert(seq![l0].push(l1) =~= seq![l0, l1]);
    lemma_scan_push(seq![l0, l1], l2);
    assert(seq![l0, l1].push(l2) =~= seq![l0, l1, l2]);
    lemma_scan_push(seq![l0, l1, l2], l3);
    assert(seq![l0, l1, l2].push(l3) =~= seq![l0, l1, l2, l3]);
    lemma_scan_push(seq![l0, l1, l2, l3], l4);
    assert(seq![l0, l1, l2, l3].push(l4) =~= f);
    let m5 = Map::empty().insert("name"@, name).insert("lang"@, lang.name).insert("desc"@, seq![])
        .insert("tags"@, render_array(empty)).insert("includes"@, render_array(includes));
    assert(scan_lines(true, f) == FieldScan::Fields(m5));
    // the command lines
    let c1 = command_lines("build"@, lang.build, None);
    let c2 = command_lines("run"@, lang.run, None);
    let c3 = command_lines("test"@, lang.test, None);
    let c4 = command_lines("check"@, lang.check, None);
    lemma_scan_cmd(f, m5, "build"@, lang.build);
    let m6 = insert_cmd(m5, "build"@, lang.build);
    lemma_scan_cmd(f + c1, m6, "run"@, lang.run);
    let m7 = insert_cmd(m6, "run"@, lang.run);
    lemma_scan_cmd(f + c1 + c2, m7, "test"@, lang.test);
    let m8 = insert_cmd(m7, "test"@, lang.test);
    lemma_scan_cmd(f + c1 + c2 + c3, m8, "check"@, lang.check);
    let core = f + c1 + c2 + c3 + c4;
    assert(scan_lines(true, core) == FieldScan::Fields(created_fields(name, lang, includes)));
    // the lines of the text
    let ls = wl_lines(name, lang, None, includes);
    assert(ls =~= core.push(seq![]));
    crate::project_state::lemma_quote_shape(name);
    crate::project_state::lemma_quote_shape(lang.name);
    crate::project_state::lemma_quote_shape(seq![]);
    crate::project_state::lemma_array_shape(empty);
    crate::project_state::lemma_array_shape(includes);
    crate::project_state::lemma_no_newline_quote(name);
    crate::project_state::lemma_no_newline_quote(lang.name);
    crate::project_state::lemma_no_newline_quote(seq![]);
    crate::project_state::lemma_no_newline_array(empty);
    crate::project_state::lemma_no_newline_array(includes);
    crate::project_state::lemma_line_ok("name"@, quote(name));
    crate::project_state::lemma_line_ok("lang"@, quote(lang.name));
    crate::project_state::lemma_line_ok("desc"@, quote(seq![]));
    crate::project_state::lemma_line_ok("tags"@, render_array(empty));
    crate::project_state::lemma_line_ok("includes"@, render_array(includes));
    lemma_cmd_lines_ok("build"@, lang.build);
    lemma_cmd_lines_ok("run"@, lang.run);
    lemma_cmd_lines_ok("test"@, lang.test);
    lemma_cmd_lines_ok("check"@, lang.check);
    assert forall|i: int| 0 <= i < core.len() implies no_char(#[trigger] core[i], '\n') && !ends_with(
        core[i],
        '\r',
    ) by {
        if i < 5 {
        } else if i < 5 + c1.len() {
            assert(core[i] == c1[i - 5]);
        } else if i < 5 + c1.len() + c2.len() {
            assert(core[i] == c2[i - 5 - c1.len()]);
        } else if i < 5 + c1.len() + c2.len() + c3.len() {
            assert(core[i] == c3[i - 5 - c1.len() - c2.len()]);
        } else {
            assert(core[i] == c4[i - 5 - c1.len() - c2.len() - c3.len()]);
        }
    }
    lemma_lines_trailing(core);
    reveal_strlit("\n");
    assert("\n"@ =~= seq!['\n']);
    assert(lines(wl_content_spec(name, lang, None, includes)) == core);
    // the project they describe
    let m = created_fields(name, lang, includes);
    crate::wl_parser::lemma_render_array_parse(empty);
    crate::wl_parser::lemma_render_array_parse(includes);
    assert(map_get(m, "tags"@) == Some(render_array(empty)));
    assert(map_get(m, "includes"@) == Some(render_array(includes)));
    assert(wl_of(m) == created_wl(name, lang, includes));
}

/// The command a rebuilt `.wl` sets for a field whose language default is
/// `d` and whose value in the project's earlier `.wl` is `e`: none when the
/// language has no non-empty default; else the project's own command when
/// it set one; else the default.
pub open spec fn rebuilt_command(d: Option<Seq<char>>, e: Option<Seq<char>>) -> Option<Seq<char>> {
    match default_command(d) {
        Some(b) => match e {
            Some(x) => Some(x),
            None => Some(b),
        },
        None => None,
    }
}

/// The fields of a `.wl` rebuilt over the project's earlier `.wl` `w`, as
/// read back.
pub open spec fn rebuilt_wl(name: Seq<char>, lang: LanguageView, w: WlView, includes: Seq<Seq<char>>) -> WlView {
    WlView {
        name: Some(name),
        lang: Some(lang.name),
        desc: Some(or_empty(w.desc)),
        tags: w.tags,
        includes: includes,
        build: rebuilt_command(lang.build, w.build),
        run: rebuilt_command(lang.run, w.run),
        test: rebuilt_command(lang.test, w.test),
        check: rebuilt_command(lang.check, w.check),
        overseer_template: None,
        setup: None,
    }
}

spec fn insert_rebuilt(m: Map<Seq<char>, Seq<char>>, k: Seq<char>, d: Option<Seq<char>>, e: Option<Seq<char>>) -> Map<
    Seq<char>,
    Seq<char>,
> {
    match rebuilt_command(d, e) {
        Some(b) => m.insert(k, b),
        None => m,
    }
}

spec fn rebuilt_fields(name: Seq<char>, lang: LanguageView, w: WlView, includes: Seq<Seq<char>>) -> Map<
    Seq<char>,
    Seq<char>,
> {
    let m = Map::empty().insert("name"@, name).insert("lang"@, lang.name).insert("desc"@, or_empty(w.desc))
        .insert("tags"@, render_array(w.tags)).insert("includes"@, render_array(includes));
    insert_rebuilt(
        insert_rebuilt(
            insert_rebuilt(insert_rebuilt(m, "build"@, lang.build, w.build), "run"@, lang.run, w.run),
            "test"@,
            lang.test,
            w.test,
        ),
        "check"@,
        lang.check,
        w.check,
    )
}

proof fn lemma_scan_rebuilt_cmd(
    ls: Seq<Seq<char>>,
    m: Map<Seq<char>, Seq<char>>,
    k: Seq<char>,
    d: Option<Seq<char>>,
    e: Option<Seq<char>>,
)
    requires
        scan_lines(true, ls) == FieldScan::Fields(m),
        is_key_word(k),
        command_ok(d),
        command_ok(e),
    ensures
        scan_lines(true, ls + command_lines(k, d, e)) == FieldScan::Fields(insert_rebuilt(m, k, d, e)),
        forall|i: int| 0 <= i < command_lines(k, d, e).len() ==> no_char(#[trigger] command_lines(k, d, e)[i], '\n')
            && !ends_with(command_lines(k, d, e)[i], '\r'),
{
    match d {
        Some(b) => if b.len() > 0 {
            let v = match e {
                Some(x) => x,
                None => b,
            };
            assert(line_value_ok(v));
            assert(ls + command_lines(k, d, e) =~= ls.push(kv_line(k, v)));
            lemma_scan_push(ls, kv_line(k, v));
            lemma_classify_kv(k, v);
            crate::project_state::lemma_quote_shape(v);
            crate::project_state::lemma_no_newline_quote(v);
            crate::project_state::lemma_line_ok(k, quote(v));
        } else {
            assert(ls + command_lines(k, d, e) =~= ls);
        },
        None => {
            assert(ls + command_lines(k, d, e) =~= ls);
        },
    }
}

/// A `.wl` that `forge create` rebuilds over a project's earlier `.wl` `w`
/// reads back as: the name and language given, `w`'s description and tags,
/// the includes asked for, and for each of `build`, `run`, `test` and
/// `check` for which the language sets a non-empty default, the project's
/// own command when `w` sets one (else the default); no line for the
/// others.  Whenever the values can be written (no line break or `#` in the
/// strings, no `"`, `,` or line break in a tag or an include).
#[verifier::rlimit(60)]
pub proof fn rebuilt_wl_reads_back(name: Seq<char>, lang: LanguageView, w: WlView, includes: Seq<Seq<char>>)
    requires
        line_value_ok(name),
        line_value_ok(lang.name),
        line_value_ok(or_empty(w.desc)),
        command_ok(lang.build),
        command_ok(lang.run),
        command_ok(lang.test),
        command_ok(lang.check),
        command_ok(w.build),
        command_ok(w.run),
        command_ok(w.test),
        command_ok(w.check),
        forall|i: int| 0 <= i < w.tags.len() ==> array_elem_ok(#[trigger] w.tags[i]) && no_char(
            w.tags[i],
            '\n',
        ),
        forall|i: int| 0 <= i < includes.len() ==> array_elem_ok(#[trigger] includes[i]) && no_char(
            includes[i],
            '\n',
        ),
    ensures
        scan_fields(wl_content_spec(name, lang, Some(w), includes)) is Fields,
        !wl_would_panic(wl_content_spec(name, lang, Some(w), includes)),
        wl_of(scan_fields(wl_content_spec(name, lang, Some(w), includes))->Fields_0) == rebuilt_wl(
            name,
            lang,
            w,
            includes,
        ),
{
    crate::project_state::reveal_keys();
    lemma_created_keys();
    let desc = or_empty(w.desc);
    let l0 = kv_line("name"@, name);
    let l1 = kv_line("lang"@, lang.name);
    let l2 = kv_line("desc"@, desc);
    let l3 = array_line("tags"@, w.tags);
    let l4 = array_line("includes"@, includes);
    let f = seq![l0, l1, l2, l3, l4];
    lemma_classify_kv("name"@, name);
    lemma_classify_kv("lang"@, lang.name);
    lemma_classify_kv("desc"@, desc);
    lemma_classify_arr("tags"@, w.tags);
    lemma_classify_arr("includes"@, includes);
    let s0: Seq<Seq<char>> = seq![];
    assert(scan_lines(true, s0) == FieldScan::Fields(Map::<Seq<char>, Seq<char>>::empty()));
    lemma_scan_push(s0, l0);
    assert(s0.push(l0) =~= seq![l0]);
    lemma_scan_push(seq![l0], l1);
    assert(seq![l0].push(l1) =~= seq![l0, l1]);
    lemma_scan_push(seq![l0, l1], l2);
    assert(seq![l0, l1].push(l2) =~= seq![l0, l1, l2]);
    lemma_scan_push(seq![l0, l1, l2], l3);
    assert(seq![l0, l1, l2].push(l3) =~= seq![l0, l1, l2, l3]);
    lemma_scan_push(seq![l0, l1, l2, l3], l4);
    assert(seq![l0, l1, l2, l3].push(l4) =~= f);
    let m5 = Map::empty().insert("name"@, name).insert("lang"@, lang.name).insert("desc"@, desc)
        .insert("tags"@, render_array(w.tags)).insert("includes"@, render_array(includes));
    assert(scan_lines(true, f) == FieldScan::Fields(m5));
    let c1 = command_lines("build"@, lang.build, w.build);
    let c2 = command_lines("run"@, lang.run, w.run);
    let c3 = command_lines("test"@, lang.test, w.test);
    let c4 = command_lines("check"@, lang.check, w.check);
    lemma_scan_rebuilt_cmd(f, m5, "build"@, lang.build, w.build);
    let m6 = insert_rebuilt(m5, "build"@, lang.build, w.build);
    lemma_scan_rebuilt_cmd(f + c1, m6, "run"@, lang.run, w.run);
    let m7 = insert_rebuilt(m6, "run"@, lang.run, w.run);
    lemma_scan_rebuilt_cmd(f + c1 + c2, m7, "test"@, lang.test, w.test);
    let m8 = insert_rebuilt(m7, "test"@, lang.test, w.test);
    lemma_scan_rebuilt_cmd(f + c1 + c2 + c3, m8, "check"@, lang.check, w.check);
    let core = f + c1 + c2 + c3 + c4;
    assert(scan_lines(true, core) == FieldScan::Fields(rebuilt_fields(name, lang, w, includes)));
    let ls = wl_lines(name, lang, Some(w), includes);
    assert(existing_field(Some(w), |x: WlView| x.build) == w.build);
    assert(existing_field(Some(w), |x: WlView| x.run) == w.run);
    assert(existing_field(Some(w), |x: WlView| x.test) == w.test);
    assert(existing_field(Some(w), |x: WlView| x.check) == w.check);
    assert(ls =~= core.push(seq![]));
    crate::project_state::lemma_quote_shape(name);
    crate::project_state::lemma_quote_shape(lang.name);
    crate::project_state::lemma_quote_shape(desc);
    crate::project_state::lemma_array_shape(w.tags);
    crate::project_state::lemma_array_shape(includes);
    crate::project_state::lemma_no_newline_quote(name);
    crate::project_state::lemma_no_newline_quote(lang.name);
    crate::project_state::lemma_no_newline_quote(desc);
    crate::project_state::lemma_no_newline_array(w.tags);
    crate::project_state::lemma_no_newline_array(includes);
    crate::project_state::lemma_line_ok("name"@, quote(name));
    crate::project_state::lemma_line_ok("lang"@, quote(lang.name));
    crate::project_state::lemma_line_ok("desc"@, quote(desc));
    crate::project_state::lemma_line_ok("tags"@, render_array(w.tags));
    crate::project_state::lemma_line_ok("includes"@, render_array(includes));
    assert forall|i: int| 0 <= i < core.len() implies no_char(#[trigger] core[i], '\n') && !ends_with(
        core[i],
        '\r',
    ) by {
        if i < 5 {
        } else if i < 5 + c1.len() {
            assert(core[i] == c1[i - 5]);
        } else if i < 5 + c1.len() + c2.len() {
            assert(core[i] == c2[i - 5 - c1.len()]);
        } else if i < 5 + c1.len() + c2.len() + c3.len() {
            assert(core[i] == c3[i - 5 - c1.len() - c2.len()]);
        } else {
            assert(core[i] == c4[i - 5 - c1.len() - c2.len() - c3.len()]);
        }
    }
    lemma_lines_trailing(core);
    reveal_strlit("\n");
    assert("\n"@ =~= seq!['\n']);
    assert(lines(wl_content_spec(name, lang, Some(w), includes)) == core);
    let m = rebuilt_fields(name, lang, w, includes);
    assert forall|i: int| 0 <= i < w.tags.len() implies array_elem_ok(#[trigger] w.tags[i]) by {}
    assert forall|i: int| 0 <= i < includes.len() implies array_elem_ok(#[trigger] includes[i]) by {}
    crate::wl_parser::lemma_render_array_parse(w.tags);
    crate::wl_parser::lemma_render_array_parse(includes);
    assert(map_get(m, "tags"@) == Some(render_array(w.tags)));
    assert(map_get(m, "includes"@) == Some(render_array(includes)));
    assert(wl_of(m) == rebuilt_wl(name, lang, w, includes));
}

} // verus!
