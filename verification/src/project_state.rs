//! Per-project state kept in `project/.forge/state`.
//!
//! The state mirrors the fields of the project's `.wl`, plus the time the
//! `.wl` was last modified, so that a change can be told after the file has
//! been edited.  It is written in the `.wl` style:
//!
//! ```text
//! name="myproject"
//! lang="rust"
//! desc="A cool project"
//! tags=["cli","rust"]
//! includes=["git","overseer"]
//! build="cargo build"
//! run="cargo run"
//! test="cargo test"
//! check="cargo clippy"
//! last_wl_mtime="1234567890"
//! ```

use vstd::prelude::*;
use crate::text::{
    chars_eq, chars_of, decimal, find_from, format_u64, join, lines, lines_of, parse_u64,
    parse_u64_spec, push_joined, push_str, slice_chars, starts_with, string_of, trim,
    trim_chars,
};
use crate::wl_parser::{
    WlFile, array_elem_ok, array_would_panic, is_lone_quote, quote, render_array, json_array_would_panic, lone_quote,
    parse_json_array_chars, parse_json_array_spec, strip_quotes_chars, strip_quotes_spec,
};

verus! {

broadcast use crate::text::lemma_chars_deep_view;

/// The tracked fields of a project.
#[derive(Debug, Clone)]
pub struct ProjectState {
    pub name: String,
    pub lang: String,
    pub desc: String,
    pub tags: Vec<String>,
    pub includes: Vec<String>,
    pub build: String,
    pub run: String,
    pub test: String,
    pub check: String,
    pub last_wl_mtime: u64,
}

pub struct StateView {
    pub name: Seq<char>,
    pub lang: Seq<char>,
    pub desc: Seq<char>,
    pub tags: Seq<Seq<char>>,
    pub includes: Seq<Seq<char>>,
    pub build: Seq<char>,
    pub run: Seq<char>,
    pub test: Seq<char>,
    pub check: Seq<char>,
    pub last_wl_mtime: u64,
}

impl View for ProjectState {
    type V = StateView;

    open spec fn view(&self) -> StateView {
        StateView {
            name: self.name@,
            lang: self.lang@,
            desc: self.desc@,
            tags: self.tags.deep_view(),
            includes: self.includes.deep_view(),
            build: self.build@,
            run: self.run@,
            test: self.test@,
            check: self.check@,
            last_wl_mtime: self.last_wl_mtime,
        }
    }
}

/// The state with every string empty and the time 0.
pub open spec fn default_state() -> StateView {
    StateView {
        name: seq![],
        lang: seq![],
        desc: seq![],
        tags: seq![],
        includes: seq![],
        build: seq![],
        run: seq![],
        test: seq![],
        check: seq![],
        last_wl_mtime: 0,
    }
}

impl Default for ProjectState {
    fn default() -> (r: ProjectState)
        ensures
            r@ == default_state(),
    {
        let r = ProjectState {
            name: String::new(),
            lang: String::new(),
            desc: String::new(),
            tags: Vec::new(),
            includes: Vec::new(),
            build: String::new(),
            run: String::new(),
            test: String::new(),
            check: String::new(),
            last_wl_mtime: 0,
        };
        assert(r.tags.deep_view() =~= Seq::<Seq<char>>::empty());
        assert(r.includes.deep_view() =~= Seq::<Seq<char>>::empty());
        r
    }
}

pub open spec fn or_empty(o: Option<Seq<char>>) -> Seq<char> {
    crate::wl_parser::or_empty(o)
}

/// The state that a parsed `.wl` and its modification time describe.
pub open spec fn state_of_wl(wl: crate::wl_parser::WlView, mtime: u64) -> StateView {
    StateView {
        name: or_empty(wl.name),
        lang: or_empty(wl.lang),
        desc: or_empty(wl.desc),
        tags: wl.tags,
        includes: wl.includes,
        build: or_empty(wl.build),
        run: or_empty(wl.run),
        test: or_empty(wl.test),
        check: or_empty(wl.check),
        last_wl_mtime: mtime,
    }
}

/// Field names, in the order in which `diff` reports them.
pub open spec fn changed_fields(a: StateView, b: StateView) -> Seq<Seq<char>> {
    (if a.name != b.name { seq!["name"@] } else { seq![] })
    + (if a.lang != b.lang { seq!["lang"@] } else { seq![] })
    + (if a.desc != b.desc { seq!["desc"@] } else { seq![] })
    + (if a.tags != b.tags { seq!["tags"@] } else { seq![] })
    + (if a.includes != b.includes { seq!["includes"@] } else { seq![] })
    + (if a.build != b.build { seq!["build"@] } else { seq![] })
    + (if a.run != b.run { seq!["run"@] } else { seq![] })
    + (if a.test != b.test { seq!["test"@] } else { seq![] })
    + (if a.check != b.check { seq!["check"@] } else { seq![] })
    + (if a.last_wl_mtime != b.last_wl_mtime { seq!["last_wl_mtime"@] } else { seq![] })
}

fn opt_or_empty(o: &Option<String>) -> (r: String)
    ensures
        r@ == or_empty(o.deep_view()),
{
    match o {
        Some(s) => s.clone(),
        None => String::new(),
    }
}

fn clone_strings(v: &Vec<String>) -> (r: Vec<String>)
    ensures
        r.deep_view() == v.deep_view(),
{
    let mut out: Vec<String> = Vec::new();
    let mut i: usize = 0;
    while i < v.len()
        invariant
            i <= v.len(),
            out.deep_view() == v.deep_view().take(i as int),
        decreases v.len() - i,
    {
        let ghost before = out.deep_view();
        out.push(v[i].clone());
        assert(out.deep_view() =~= before.push(v@[i as int]@));
        assert(v.deep_view().take(i + 1) =~= v.deep_view().take(i as int).push(v@[i as int]@));
        i += 1;
    }
    assert(v.deep_view().take(v.len() as int) == v.deep_view());
    out
}

fn strings_eq(a: &Vec<String>, b: &Vec<String>) -> (r: bool)
    ensures
        r == (a.deep_view() == b.deep_view()),
{
    if a.len() != b.len() {
        assert(a.deep_view().len() != b.deep_view().len());
        return false;
    }
    let mut i: usize = 0;
    while i < a.len()
        invariant
            a.len() == b.len(),
            i <= a.len(),
            forall|j: int| 0 <= j < i ==> a.deep_view()[j] == b.deep_view()[j],
        decreases a.len() - i,
    {
        if a[i] != b[i] {
            assert(a.deep_view()[i as int] != b.deep_view()[i as int]);
            return false;
        }
        i += 1;
    }
    assert(a.deep_view() =~= b.deep_view());
    true
}

fn push_name(v: &mut Vec<&'static str>, cond: bool, name: &'static str)
    ensures
        final(v)@.map_values(|s: &str| s@) == old(v)@.map_values(|s: &str| s@) + (if cond {
            seq![name@]
        } else {
            seq![]
        }),
{
    let ghost before = v@.map_values(|s: &str| s@);
    if cond {
        v.push(name);
        assert(v@.map_values(|s: &str| s@) =~= before + seq![name@]);
    } else {
        assert(v@.map_values(|s: &str| s@) =~= before + Seq::<Seq<char>>::empty());
    }
}

impl ProjectState {
    /// The state of a project whose `.wl` reads as `wl` and was modified at
    /// `mtime`; absent strings become empty.
    pub fn from_wl(wl: &WlFile, mtime: u64) -> (r: ProjectState)
        ensures
            r@ == state_of_wl(wl@, mtime),
    {
        ProjectState {
            name: opt_or_empty(&wl.name),
            lang: opt_or_empty(&wl.lang),
            desc: opt_or_empty(&wl.desc),
            tags: clone_strings(&wl.tags),
            includes: clone_strings(&wl.includes),
            build: opt_or_empty(&wl.build),
            run: opt_or_empty(&wl.run),
            test: opt_or_empty(&wl.test),
            check: opt_or_empty(&wl.check),
            last_wl_mtime: mtime,
        }
    }

    /// The names of the fields that differ between `self` and `other`, in
    /// the order name, lang, desc, tags, includes, build, run, test, check,
    /// last_wl_mtime.
    pub fn diff(&self, other: &ProjectState) -> (r: Vec<&'static str>)
        ensures
            r@.map_values(|s: &str| s@) == changed_fields(self@, other@),
    {
        let mut changed: Vec<&'static str> = Vec::new();
        assert(changed@.map_values(|s: &str| s@) =~= Seq::<Seq<char>>::empty());
        push_name(&mut changed, self.name != other.name, "name");
        push_name(&mut changed, self.lang != other.lang, "lang");
        push_name(&mut changed, self.desc != other.desc, "desc");
        push_name(&mut changed, !strings_eq(&self.tags, &other.tags), "tags");
        push_name(&mut changed, !strings_eq(&self.includes, &other.includes), "includes");
        push_name(&mut changed, self.build != other.build, "build");
        push_name(&mut changed, self.run != other.run, "run");
        push_name(&mut changed, self.test != other.test, "test");
        push_name(&mut changed, self.check != other.check, "check");
        push_name(&mut changed, self.last_wl_mtime != other.last_wl_mtime, "last_wl_mtime");
        assert(changed@.map_values(|s: &str| s@) =~= changed_fields(self@, other@));
        changed
    }
}


// ---------------------------------------------------------------------------
// Writing the state file
// ---------------------------------------------------------------------------

/// `key="value"`.
pub open spec fn kv_line(k: Seq<char>, v: Seq<char>) -> Seq<char> {
    k + "="@ + quote(v)
}

/// `key=["a","b"]` (`key=[]` when empty).
pub open spec fn array_line(k: Seq<char>, xs: Seq<Seq<char>>) -> Seq<char> {
    k + "="@ + render_array(xs)
}

/// The lines of the state file.
pub open spec fn state_lines(s: StateView) -> Seq<Seq<char>> {
    seq![
        kv_line("name"@, s.name),
        kv_line("lang"@, s.lang),
        kv_line("desc"@, s.desc),
        array_line("tags"@, s.tags),
        array_line("includes"@, s.includes),
        kv_line("build"@, s.build),
        kv_line("run"@, s.run),
        kv_line("test"@, s.test),
        kv_line("check"@, s.check),
        kv_line("last_wl_mtime"@, decimal(s.last_wl_mtime as nat)),
    ]
}

/// The text of the state file: its lines joined with `\n`.
pub open spec fn render_state(s: StateView) -> Seq<char> {
    join(state_lines(s), "\n"@)
}

fn push_kv_line(v: &mut Vec<char>, k: &str, val: &[char])
    ensures
        final(v)@ == old(v)@ + kv_line(k@, val@),
{
    let ghost start = v@;
    push_str(v, k);
    push_str(v, "=");
    push_str(v, "\"");
    v.extend_from_slice(val);
    push_str(v, "\"");
    assert(v@ =~= start + kv_line(k@, val@));
}

fn push_array_line(v: &mut Vec<char>, k: &str, xs: &Vec<String>)
    ensures
        final(v)@ == old(v)@ + array_line(k@, xs.deep_view()),
{
    let ghost start = v@;
    let ghost xv = xs.deep_view();
    let mut quoted: Vec<Vec<char>> = Vec::new();
    let mut i: usize = 0;
    while i < xs.len()
        invariant
            i <= xs.len(),
            xv == xs.deep_view(),
            quoted.deep_view() == xv.take(i as int).map_values(|x: Seq<char>| quote(x)),
        decreases xs.len() - i,
    {
        let mut q: Vec<char> = Vec::new();
        push_str(&mut q, "\"");
        push_str(&mut q, xs[i].as_str());
        push_str(&mut q, "\"");
        assert(q@ =~= quote(xv[i as int]));
        let ghost before = quoted.deep_view();
        crate::text::push_chars(&mut quoted, q);
        assert(xv.take(i + 1) == xv.take(i as int).push(xv[i as int]));
        assert(xv.take(i + 1).map_values(|x: Seq<char>| quote(x)) =~= before.push(
            quote(xv[i as int]),
        ));
        i += 1;
    }
    assert(xv.take(xs.len() as int) == xv);
    push_str(v, k);
    push_str(v, "=");
    push_str(v, "[");
    push_joined(v, &quoted, ",");
    push_str(v, "]");
    assert(v@ =~= start + array_line(k@, xv));
}

impl ProjectState {
    /// The text of the state file (see `render_state`).
    pub fn to_string(&self) -> (r: String)
        ensures
            r@ == render_state(self@),
    {
        let mut ls: Vec<Vec<char>> = Vec::new();
        let mut l: Vec<char> = Vec::new();
        push_kv_line(&mut l, "name", chars_of(self.name.as_str()).as_slice());
        crate::text::push_chars(&mut ls, l);
        let mut l: Vec<char> = Vec::new();
        push_kv_line(&mut l, "lang", chars_of(self.lang.as_str()).as_slice());
        crate::text::push_chars(&mut ls, l);
        let mut l: Vec<char> = Vec::new();
        push_kv_line(&mut l, "desc", chars_of(self.desc.as_str()).as_slice());
        crate::text::push_chars(&mut ls, l);
        let mut l: Vec<char> = Vec::new();
        push_array_line(&mut l, "tags", &self.tags);
        crate::text::push_chars(&mut ls, l);
        let mut l: Vec<char> = Vec::new();
        push_array_line(&mut l, "includes", &self.includes);
        crate::text::push_chars(&mut ls, l);
        let mut l: Vec<char> = Vec::new();
        push_kv_line(&mut l, "build", chars_of(self.build.as_str()).as_slice());
        crate::text::push_chars(&mut ls, l);
        let mut l: Vec<char> = Vec::new();
        push_kv_line(&mut l, "run", chars_of(self.run.as_str()).as_slice());
        crate::text::push_chars(&mut ls, l);
        let mut l: Vec<char> = Vec::new();
        push_kv_line(&mut l, "test", chars_of(self.test.as_str()).as_slice());
        crate::text::push_chars(&mut ls, l);
        let mut l: Vec<char> = Vec::new();
        push_kv_line(&mut l, "check", chars_of(self.check.as_str()).as_slice());
        crate::text::push_chars(&mut ls, l);
        let mut l: Vec<char> = Vec::new();
        let d = format_u64(self.last_wl_mtime);
        push_kv_line(&mut l, "last_wl_mtime", d.as_slice());
        crate::text::push_chars(&mut ls, l);
        assert(ls.deep_view() =~= state_lines(self@));
        let mut out: Vec<char> = Vec::new();
        push_joined(&mut out, &ls, "\n");
        assert(out@ =~= render_state(self@));
        string_of(out.as_slice())
    }
}

// ---------------------------------------------------------------------------
// Reading the state file
// ---------------------------------------------------------------------------

/// A string field read from the file: trimmed and unquoted.
pub open spec fn string_value(v: Seq<char>) -> Seq<char> {
    strip_quotes_spec(v)
}

/// The modification time read from the file: the unquoted value as a
/// decimal number, 0 when it is not one.
pub open spec fn time_value(v: Seq<char>) -> u64 {
    match parse_u64_spec(strip_quotes_spec(v)) {
        Some(n) => n,
        None => 0,
    }
}

/// The effect of one `key=value` pair on the state (`None` where the value
/// is a lone quote, which cannot be unquoted).
pub open spec fn apply_field(s: StateView, key: Seq<char>, value: Seq<char>) -> Option<StateView> {
    if key == "tags"@ || key == "includes"@ {
        if array_would_panic(value) {
            None
        } else if key == "tags"@ {
            Some(StateView { tags: parse_json_array_spec(value), ..s })
        } else {
            Some(StateView { includes: parse_json_array_spec(value), ..s })
        }
    } else if key == "name"@ || key == "lang"@ || key == "desc"@ || key == "build"@ || key
        == "run"@ || key == "test"@ || key == "check"@ || key == "last_wl_mtime"@ {
        if lone_quote(value) {
            None
        } else if key == "name"@ {
            Some(StateView { name: string_value(value), ..s })
        } else if key == "lang"@ {
            Some(StateView { lang: string_value(value), ..s })
        } else if key == "desc"@ {
            Some(StateView { desc: string_value(value), ..s })
        } else if key == "build"@ {
            Some(StateView { build: string_value(value), ..s })
        } else if key == "run"@ {
            Some(StateView { run: string_value(value), ..s })
        } else if key == "test"@ {
            Some(StateView { test: string_value(value), ..s })
        } else if key == "check"@ {
            Some(StateView { check: string_value(value), ..s })
        } else {
            Some(StateView { last_wl_mtime: time_value(value), ..s })
        }
    } else {
        Some(s)
    }
}

/// The `key=value` pair of a line: split at the first `=`, both sides
/// trimmed; `None` for blank lines, comments and lines without `=`.
pub open spec fn split_line(line: Seq<char>) -> Option<(Seq<char>, Seq<char>)> {
    let t = trim(line);
    if t.len() == 0 || starts_with(t, '#') {
        None
    } else {
        let i = crate::text::find_char(t, '=');
        if 0 <= i < t.len() {
            Some((trim(t.take(i)), trim(t.skip(i + 1))))
        } else {
            None
        }
    }
}

pub open spec fn apply_line(st: Option<StateView>, line: Seq<char>) -> Option<StateView> {
    match st {
        None => None,
        Some(s) => match split_line(line) {
            None => Some(s),
            Some((k, v)) => apply_field(s, k, v),
        },
    }
}

/// Reading the lines of a state file in order, from the default state.
pub open spec fn state_scan(ls: Seq<Seq<char>>) -> Option<StateView>
    decreases ls.len(),
{
    if ls.len() == 0 {
        Some(default_state())
    } else {
        apply_line(state_scan(ls.drop_last()), ls.last())
    }
}

/// The state that the text of a state file describes (`None` where a value
/// is a lone quote).  Unknown keys and lines without `=` are ignored.
pub open spec fn parse_state_spec(content: Seq<char>) -> Option<StateView> {
    state_scan(lines(content))
}

fn split_line_exec(line: &[char]) -> (r: Option<(Vec<char>, Vec<char>)>)
    ensures
        r.deep_view() == split_line(line@),
{
    let t = trim_chars(line);
    if t.len() == 0 || t[0] == '#' {
        return None;
    }
    let i = find_from(t.as_slice(), '=', 0);
    assert(t@.skip(0) == t@);
    if i < t.len() {
        let k = slice_chars(t.as_slice(), 0, i);
        let v = slice_chars(t.as_slice(), i + 1, t.len());
        assert(k@ == t@.take(i as int));
        assert(v@ == t@.skip(i + 1));
        Some((trim_chars(k.as_slice()), trim_chars(v.as_slice())))
    } else {
        None
    }
}

fn key_is(k: &[char], name: &str) -> (r: bool)
    ensures
        r == (k@ == name@),
{
    let n = chars_of(name);
    chars_eq(k, n.as_slice())
}

/// Applies one `key=value` pair; `false` (state unchanged) where the spec
/// has no result.
fn apply_field_exec(s: &mut ProjectState, key: &[char], value: &[char]) -> (ok: bool)
    ensures
        ok == apply_field(old(s)@, key@, value@).is_some(),
        ok ==> apply_field(old(s)@, key@, value@) == Some(final(s)@),
{
    let is_tags = key_is(key, "tags");
    let is_includes = key_is(key, "includes");
    if is_tags || is_includes {
        if json_array_would_panic(value) {
            return false;
        }
        let arr = parse_json_array_chars(value);
        if is_tags {
            s.tags = arr;
        } else {
            s.includes = arr;
        }
        return true;
    }
    let is_name = key_is(key, "name");
    let is_lang = key_is(key, "lang");
    let is_desc = key_is(key, "desc");
    let is_build = key_is(key, "build");
    let is_run = key_is(key, "run");
    let is_test = key_is(key, "test");
    let is_check = key_is(key, "check");
    let is_time = key_is(key, "last_wl_mtime");
    if !(is_name || is_lang || is_desc || is_build || is_run || is_test || is_check || is_time) {
        return true;
    }
    if is_lone_quote(value) {
        return false;
    }
    let v = strip_quotes_chars(value);
    if is_name {
        s.name = string_of(v.as_slice());
    } else if is_lang {
        s.lang = string_of(v.as_slice());
    } else if is_desc {
        s.desc = string_of(v.as_slice());
    } else if is_build {
        s.build = string_of(v.as_slice());
    } else if is_run {
        s.run = string_of(v.as_slice());
    } else if is_test {
        s.test = string_of(v.as_slice());
    } else if is_check {
        s.check = string_of(v.as_slice());
    } else {
        s.last_wl_mtime = match parse_u64(v.as_slice()) {
            Some(n) => n,
            None => 0,
        };
    }
    true
}

fn parse_state_exec(content: &str) -> (r: Option<ProjectState>)
    ensures
        r matches Some(st) ==> parse_state_spec(content@) == Some(st@),
        r is None ==> parse_state_spec(content@) is None,
{
    let cs = chars_of(content);
    let ls = lines_of(cs.as_slice());
    let ghost lv = ls.deep_view();
    let mut st = ProjectState::default();
    let mut i: usize = 0;
    assert(lv.take(0) == Seq::<Seq<char>>::empty());
    while i < ls.len()
        invariant
            i <= ls.len(),
            lv == ls.deep_view(),
            lv == lines(content@),
            state_scan(lv.take(i as int)) == Some(st@),
        decreases ls.len() - i,
    {
        assert(lv.take(i + 1).drop_last() == lv.take(i as int));
        assert(lv.take(i + 1).last() == ls@[i as int]@);
        match split_line_exec(ls[i].as_slice()) {
            None => {},
            Some((k, v)) => {
                if !apply_field_exec(&mut st, k.as_slice(), v.as_slice()) {
                    proof {
                        lemma_state_scan_none(lv, i as int);
                    }
                    return None;
                }
            },
        }
        i += 1;
    }
    assert(lv.take(ls.len() as int) == lv);
    Some(st)
}

/// Once a prefix of the lines has no result, the whole text has none.
pub proof fn lemma_state_scan_none(ls: Seq<Seq<char>>, i: int)
    requires
        0 <= i < ls.len(),
        state_scan(ls.take(i + 1)) is None,
    ensures
        state_scan(ls) is None,
    decreases ls.len() - i,
{
    if i + 1 < ls.len() {
        assert(ls.take(i + 2).drop_last() == ls.take(i + 1));
        lemma_state_scan_none(ls, i + 1);
    } else {
        assert(ls.take(i + 1) == ls);
    }
}

/// Whether reading `content` as a state file meets a lone quote value.
pub fn state_would_panic(content: &str) -> (r: bool)
    ensures
        r == (parse_state_spec(content@) is None),
{
    parse_state_exec(content).is_none()
}

/// Reads the text of a state file (see `parse_state_spec`).
pub fn parse_state_file(content: &str) -> (r: ProjectState)
    requires
        parse_state_spec(content@) is Some,
    ensures
        parse_state_spec(content@) == Some(r@),
{
    match parse_state_exec(content) {
        Some(st) => st,
        None => ProjectState::default(),
    }
}


// ---------------------------------------------------------------------------
// Writing then reading
// ---------------------------------------------------------------------------

pub open spec fn is_key_word(k: Seq<char>) -> bool {
    k.len() > 0 && forall|i: int| 0 <= i < k.len() ==> crate::wl_parser::is_key_char(#[trigger] k[i])
}

/// A state that the state file can hold: no string contains a line break,
/// and no tag or include contains `"` or `,`.
pub open spec fn state_writable(s: StateView) -> bool {
    &&& crate::text::no_char(s.name, '\n')
    &&& crate::text::no_char(s.lang, '\n')
    &&& crate::text::no_char(s.desc, '\n')
    &&& crate::text::no_char(s.build, '\n')
    &&& crate::text::no_char(s.run, '\n')
    &&& crate::text::no_char(s.test, '\n')
    &&& crate::text::no_char(s.check, '\n')
    &&& forall|i: int| 0 <= i < s.tags.len() ==> array_elem_ok(#[trigger] s.tags[i])
        && crate::text::no_char(s.tags[i], '\n')
    &&& forall|i: int| 0 <= i < s.includes.len() ==> array_elem_ok(#[trigger] s.includes[i])
        && crate::text::no_char(s.includes[i], '\n')
}

proof fn lemma_split_kv(k: Seq<char>, rest: Seq<char>)
    requires
        is_key_word(k),
        rest.len() > 0,
        !crate::text::is_ws(rest[0]),
        !crate::text::is_ws(rest.last()),
    ensures
        split_line(k + "="@ + rest) == Some((k, rest)),
{
    reveal_strlit("=");
    assert("="@ =~= seq!['=']);
    let line = k + seq!['='] + rest;
    assert(line[0] == k[0]);
    assert(line.last() == rest.last());
    assert(crate::wl_parser::is_key_char(k[0]));
    crate::text::lemma_trim_noop(line);
    assert(crate::text::no_char(k, '=')) by {
        assert forall|i: int| 0 <= i < k.len() implies k[i] != '=' by {
            assert(crate::wl_parser::is_key_char(k[i]));
        }
    }
    crate::text::lemma_find_after(k, '=', rest);
    assert(k[k.len() - 1] == k.last());
    assert(crate::wl_parser::is_key_char(k.last()));
    crate::text::lemma_trim_noop(k);
    crate::text::lemma_trim_noop(rest);
}

pub(crate) proof fn lemma_quote_shape(v: Seq<char>)
    ensures
        quote(v).len() >= 2,
        quote(v)[0] == '"',
        quote(v).last() == '"',
        strip_quotes_spec(quote(v)) == v,
        !lone_quote(quote(v)),
{
    crate::wl_parser::lemma_quote_chars(v);
    let q = quote(v);
    crate::text::lemma_trim_noop(q);
    assert(q.subrange(1, q.len() - 1) =~= v);
}

pub(crate) proof fn lemma_array_shape(xs: Seq<Seq<char>>)
    ensures
        render_array(xs).len() >= 2,
        render_array(xs)[0] == '[',
        render_array(xs).last() == ']',
{
    reveal_strlit("[");
    reveal_strlit("]");
    assert("["@ =~= seq!['[']);
    assert("]"@ =~= seq![']']);
}

pub(crate) proof fn lemma_no_newline_quote(v: Seq<char>)
    requires
        crate::text::no_char(v, '\n'),
    ensures
        crate::text::no_char(quote(v), '\n'),
{
    crate::wl_parser::lemma_quote_chars(v);
    crate::text::lemma_no_char_concat(seq!['"'], v, '\n');
    crate::text::lemma_no_char_concat(seq!['"'] + v, seq!['"'], '\n');
}

pub(crate) proof fn lemma_no_newline_array(xs: Seq<Seq<char>>)
    requires
        forall|i: int| 0 <= i < xs.len() ==> crate::text::no_char(#[trigger] xs[i], '\n'),
    ensures
        crate::text::no_char(render_array(xs), '\n'),
{
    reveal_strlit("[");
    reveal_strlit("]");
    reveal_strlit(",");
    assert("["@ =~= seq!['[']);
    assert("]"@ =~= seq![']']);
    assert(","@ =~= seq![',']);
    let ys = xs.map_values(|x: Seq<char>| quote(x));
    assert forall|i: int| 0 <= i < ys.len() implies crate::text::no_char(#[trigger] ys[i], '\n') by {
        lemma_no_newline_quote(xs[i]);
    }
    crate::text::lemma_no_char_join(ys, ","@, '\n');
    let j = join(ys, ","@);
    crate::text::lemma_no_char_concat(seq!['['], j, '\n');
    crate::text::lemma_no_char_concat(seq!['['] + j, seq![']'], '\n');
}

pub(crate) proof fn lemma_line_ok(k: Seq<char>, rest: Seq<char>)
    requires
        is_key_word(k),
        crate::text::no_char(rest, '\n'),
        rest.len() > 0,
        rest.last() == '"' || rest.last() == ']',
    ensures
        crate::text::no_char(k + "="@ + rest, '\n'),
        !crate::text::ends_with(k + "="@ + rest, '\r'),
        (k + "="@ + rest).len() > 0,
{
    reveal_strlit("=");
    assert("="@ =~= seq!['=']);
    assert(crate::text::no_char(k, '\n')) by {
        assert forall|i: int| 0 <= i < k.len() implies k[i] != '\n' by {
            assert(crate::wl_parser::is_key_char(k[i]));
        }
    }
    crate::text::lemma_no_char_concat(k, seq!['='], '\n');
    crate::text::lemma_no_char_concat(k + seq!['='], rest, '\n');
    assert((k + seq!['='] + rest).last() == rest.last());
}

proof fn lemma_apply_kv(st: StateView, k: Seq<char>, v: Seq<char>)
    requires
        is_key_word(k),
    ensures
        apply_line(Some(st), kv_line(k, v)) == apply_field(st, k, quote(v)),
{
    lemma_quote_shape(v);
    lemma_split_kv(k, quote(v));
}

proof fn lemma_apply_arr(st: StateView, k: Seq<char>, xs: Seq<Seq<char>>)
    requires
        is_key_word(k),
    ensures
        apply_line(Some(st), array_line(k, xs)) == apply_field(st, k, render_array(xs)),
{
    lemma_array_shape(xs);
    lemma_split_kv(k, render_array(xs));
}

pub(crate) proof fn reveal_keys()
    ensures
        is_key_word("name"@),
        is_key_word("lang"@),
        is_key_word("desc"@),
        is_key_word("tags"@),
        is_key_word("includes"@),
        is_key_word("build"@),
        is_key_word("run"@),
        is_key_word("test"@),
        is_key_word("check"@),
        is_key_word("last_wl_mtime"@),
        "name"@ != "tags"@ && "name"@ != "includes"@,
        "lang"@ != "tags"@ && "lang"@ != "includes"@ && "lang"@ != "name"@,
        "desc"@ != "tags"@ && "desc"@ != "includes"@ && "desc"@ != "name"@ && "desc"@ != "lang"@,
        "tags"@ != "includes"@,
        "build"@ != "tags"@ && "build"@ != "includes"@ && "build"@ != "name"@ && "build"@
            != "lang"@ && "build"@ != "desc"@,
        "run"@ != "tags"@ && "run"@ != "includes"@ && "run"@ != "name"@ && "run"@ != "lang"@
            && "run"@ != "desc"@ && "run"@ != "build"@,
        "test"@ != "tags"@ && "test"@ != "includes"@ && "test"@ != "name"@ && "test"@ != "lang"@
            && "test"@ != "desc"@ && "test"@ != "build"@ && "test"@ != "run"@,
        "check"@ != "tags"@ && "check"@ != "includes"@ && "check"@ != "name"@ && "check"@
            != "lang"@ && "check"@ != "desc"@ && "check"@ != "build"@ && "check"@ != "run"@
            && "check"@ != "test"@,
        "last_wl_mtime"@ != "tags"@ && "last_wl_mtime"@ != "includes"@ && "last_wl_mtime"@
            != "name"@ && "last_wl_mtime"@ != "lang"@ && "last_wl_mtime"@ != "desc"@
            && "last_wl_mtime"@ != "build"@ && "last_wl_mtime"@ != "run"@ && "last_wl_mtime"@
            != "test"@ && "last_wl_mtime"@ != "check"@,
{
    reveal_strlit("name");
    reveal_strlit("lang");
    reveal_strlit("desc");
    reveal_strlit("tags");
    reveal_strlit("includes");
    reveal_strlit("build");
    reveal_strlit("run");
    reveal_strlit("test");
    reveal_strlit("check");
    reveal_strlit("last_wl_mtime");
    assert("name"@[0] != "tags"@[0]);
    assert("name"@[0] != "includes"@[0]);
    assert("lang"@[0] != "tags"@[0]);
    assert("lang"@[0] != "includes"@[0]);
    assert("lang"@[0] != "name"@[0]);
    assert("desc"@[0] != "tags"@[0]);
    assert("desc"@[0] != "includes"@[0]);
    assert("desc"@[0] != "name"@[0]);
    assert("desc"@[0] != "lang"@[0]);
    assert("tags"@[0] != "includes"@[0]);
    assert("build"@[0] != "tags"@[0]);
    assert("build"@[0] != "includes"@[0]);
    assert("build"@[0] != "name"@[0]);
    assert("build"@[0] != "lang"@[0]);
    assert("build"@[0] != "desc"@[0]);
    assert("run"@[0] != "tags"@[0]);
    assert("run"@[0] != "includes"@[0]);
    assert("run"@[0] != "name"@[0]);
    assert("run"@[0] != "lang"@[0]);
    assert("run"@[0] != "desc"@[0]);
    assert("run"@[0] != "build"@[0]);
    assert("test"@[1] != "tags"@[1]);
    assert("test"@[0] != "includes"@[0]);
    assert("test"@[0] != "name"@[0]);
    assert("test"@[0] != "lang"@[0]);
    assert("test"@[0] != "desc"@[0]);
    assert("test"@[0] != "build"@[0]);
    assert("test"@[0] != "run"@[0]);
    assert("check"@[0] != "tags"@[0]);
    assert("check"@[0] != "includes"@[0]);
    assert("check"@[0] != "name"@[0]);
    assert("check"@[0] != "lang"@[0]);
    assert("check"@[0] != "desc"@[0]);
    assert("check"@[0] != "build"@[0]);
    assert("check"@[0] != "run"@[0]);
    assert("check"@[0] != "test"@[0]);
    assert("last_wl_mtime"@[0] != "tags"@[0]);
    assert("last_wl_mtime"@[0] != "includes"@[0]);
    assert("last_wl_mtime"@[0] != "name"@[0]);
    assert("last_wl_mtime"@[2] != "lang"@[2]);
    assert("last_wl_mtime"@[0] != "desc"@[0]);
    assert("last_wl_mtime"@[0] != "build"@[0]);
    assert("last_wl_mtime"@[0] != "run"@[0]);
    assert("last_wl_mtime"@[0] != "test"@[0]);
    assert("last_wl_mtime"@[0] != "check"@[0]);
}

proof fn lemma_state_lines_ok(s: StateView)
    requires
        state_writable(s),
    ensures
        lines(render_state(s)) == state_lines(s),
{
    reveal_keys();
    reveal_strlit("\n");
    let t = decimal(s.last_wl_mtime as nat);
    crate::text::lemma_decimal_digits(s.last_wl_mtime as nat);
    assert(crate::text::no_char(t, '\n')) by {
        assert forall|i: int| 0 <= i < t.len() implies t[i] != '\n' by {
            assert(crate::text::is_digit(t[i]));
        }
    }
    lemma_quote_shape(s.name);
    lemma_quote_shape(s.lang);
    lemma_quote_shape(s.desc);
    lemma_quote_shape(s.build);
    lemma_quote_shape(s.run);
    lemma_quote_shape(s.test);
    lemma_quote_shape(s.check);
    lemma_quote_shape(t);
    lemma_array_shape(s.tags);
    lemma_array_shape(s.includes);
    lemma_no_newline_quote(s.name);
    lemma_no_newline_quote(s.lang);
    lemma_no_newline_quote(s.desc);
    lemma_no_newline_quote(s.build);
    lemma_no_newline_quote(s.run);
    lemma_no_newline_quote(s.test);
    lemma_no_newline_quote(s.check);
    lemma_no_newline_quote(t);
    lemma_no_newline_array(s.tags);
    lemma_no_newline_array(s.includes);
    lemma_line_ok("name"@, quote(s.name));
    lemma_line_ok("lang"@, quote(s.lang));
    lemma_line_ok("desc"@, quote(s.desc));
    lemma_line_ok("tags"@, render_array(s.tags));
    lemma_line_ok("includes"@, render_array(s.includes));
    lemma_line_ok("build"@, quote(s.build));
    lemma_line_ok("run"@, quote(s.run));
    lemma_line_ok("test"@, quote(s.test));
    lemma_line_ok("check"@, quote(s.check));
    lemma_line_ok("last_wl_mtime"@, quote(t));
    let ls = state_lines(s);
    assert("\n"@ =~= seq!['\n']);
    assert forall|i: int| 0 <= i < ls.len() implies crate::text::no_char(#[trigger] ls[i], '\n') by {}
    assert forall|i: int| 0 <= i < ls.len() - 1 implies !crate::text::ends_with(#[trigger] ls[i], '\r') by {}
    crate::text::lemma_lines_join(ls);
}

proof fn lemma_scan_push(ls: Seq<Seq<char>>, line: Seq<char>)
    ensures
        state_scan(ls.push(line)) == apply_line(state_scan(ls), line),
{
    assert(ls.push(line).drop_last() =~= ls);
}

proof fn lemma_step_name(st: StateView, v: Seq<char>)
    ensures
        apply_field(st, "name"@, quote(v)) == Some(StateView { name: v, ..st }),
{
    reveal_keys();
    lemma_quote_shape(v);
}

proof fn lemma_step_lang(st: StateView, v: Seq<char>)
    ensures
        apply_field(st, "lang"@, quote(v)) == Some(StateView { lang: v, ..st }),
{
    reveal_keys();
    lemma_quote_shape(v);
}

proof fn lemma_step_desc(st: StateView, v: Seq<char>)
    ensures
        apply_field(st, "desc"@, quote(v)) == Some(StateView { desc: v, ..st }),
{
    reveal_keys();
    lemma_quote_shape(v);
}

proof fn lemma_step_build(st: StateView, v: Seq<char>)
    ensures
        apply_field(st, "build"@, quote(v)) == Some(StateView { build: v, ..st }),
{
    reveal_keys();
    lemma_quote_shape(v);
}

proof fn lemma_step_run(st: StateView, v: Seq<char>)
    ensures
        apply_field(st, "run"@, quote(v)) == Some(StateView { run: v, ..st }),
{
    reveal_keys();
    lemma_quote_shape(v);
}

proof fn lemma_step_test(st: StateView, v: Seq<char>)
    ensures
        apply_field(st, "test"@, quote(v)) == Some(StateView { test: v, ..st }),
{
    reveal_keys();
    lemma_quote_shape(v);
}

proof fn lemma_step_check(st: StateView, v: Seq<char>)
    ensures
        apply_field(st, "check"@, quote(v)) == Some(StateView { check: v, ..st }),
{
    reveal_keys();
    lemma_quote_shape(v);
}

proof fn lemma_step_tags(st: StateView, xs: Seq<Seq<char>>)
    requires
        forall|i: int| 0 <= i < xs.len() ==> array_elem_ok(#[trigger] xs[i]),
    ensures
        apply_field(st, "tags"@, render_array(xs)) == Some(StateView { tags: xs, ..st }),
{
    reveal_keys();
    crate::wl_parser::lemma_render_array_parse(xs);
}

proof fn lemma_step_includes(st: StateView, xs: Seq<Seq<char>>)
    requires
        forall|i: int| 0 <= i < xs.len() ==> array_elem_ok(#[trigger] xs[i]),
    ensures
        apply_field(st, "includes"@, render_array(xs)) == Some(StateView { includes: xs, ..st }),
{
    reveal_keys();
    crate::wl_parser::lemma_render_array_parse(xs);
}

proof fn lemma_step_time(st: StateView, n: u64)
    ensures
        apply_field(st, "last_wl_mtime"@, quote(decimal(n as nat))) == Some(
            StateView { last_wl_mtime: n, ..st },
        ),
{
    reveal_keys();
    lemma_quote_shape(decimal(n as nat));
    crate::text::lemma_parse_decimal(n);
}

/// Writing a project's state and reading the text back gives the same
/// state, whenever the state can be written (see `state_writable`).
pub proof fn state_write_read_roundtrip(s: StateView)
    requires
        state_writable(s),
    ensures
        parse_state_spec(render_state(s)) == Some(s),
{
    lemma_state_lines_ok(s);
    reveal_keys();
    let t = decimal(s.last_wl_mtime as nat);
    let l0 = kv_line("name"@, s.name);
    let l1 = kv_line("lang"@, s.lang);
    let l2 = kv_line("desc"@, s.desc);
    let l3 = array_line("tags"@, s.tags);
    let l4 = array_line("includes"@, s.includes);
    let l5 = kv_line("build"@, s.build);
    let l6 = kv_line("run"@, s.run);
    let l7 = kv_line("test"@, s.test);
    let l8 = kv_line("check"@, s.check);
    let l9 = kv_line("last_wl_mtime"@, t);
    let e = Seq::<Seq<char>>::empty();
    let s0 = default_state();
    let s1 = StateView { name: s.name, ..s0 };
    let s2 = StateView { lang: s.lang, ..s1 };
    let s3 = StateView { desc: s.desc, ..s2 };
    let s4 = StateView { tags: s.tags, ..s3 };
    let s5 = StateView { includes: s.includes, ..s4 };
    let s6 = StateView { build: s.build, ..s5 };
    let s7 = StateView { run: s.run, ..s6 };
    let s8 = StateView { test: s.test, ..s7 };
    let s9 = StateView { check: s.check, ..s8 };
    let s10 = StateView { last_wl_mtime: s.last_wl_mtime, ..s9 };
    lemma_step_name(s0, s.name);
    lemma_step_lang(s1, s.lang);
    lemma_step_desc(s2, s.desc);
    lemma_step_tags(s3, s.tags);
    lemma_step_includes(s4, s.includes);
    lemma_step_build(s5, s.build);
    lemma_step_run(s6, s.run);
    lemma_step_test(s7, s.test);
    lemma_step_check(s8, s.check);
    lemma_step_time(s9, s.last_wl_mtime);
    lemma_apply_kv(s0, "name"@, s.name);
    lemma_scan_push(e, l0);
    lemma_apply_kv(s1, "lang"@, s.lang);
    lemma_scan_push(e.push(l0), l1);
    lemma_apply_kv(s2, "desc"@, s.desc);
    lemma_scan_push(e.push(l0).push(l1), l2);
    lemma_apply_arr(s3, "tags"@, s.tags);
    lemma_scan_push(e.push(l0).push(l1).push(l2), l3);
    lemma_apply_arr(s4, "includes"@, s.includes);
    lemma_scan_push(e.push(l0).push(l1).push(l2).push(l3), l4);
    lemma_apply_kv(s5, "build"@, s.build);
    lemma_scan_push(e.push(l0).push(l1).push(l2).push(l3).push(l4), l5);
    lemma_apply_kv(s6, "run"@, s.run);
    lemma_scan_push(e.push(l0).push(l1).push(l2).push(l3).push(l4).push(l5), l6);
    lemma_apply_kv(s7, "test"@, s.test);
    lemma_scan_push(e.push(l0).push(l1).push(l2).push(l3).push(l4).push(l5).push(l6), l7);
    lemma_apply_kv(s8, "check"@, s.check);
    lemma_scan_push(e.push(l0).push(l1).push(l2).push(l3).push(l4).push(l5).push(l6).push(l7), l8);
    lemma_apply_kv(s9, "last_wl_mtime"@, t);
    lemma_scan_push(
        e.push(l0).push(l1).push(l2).push(l3).push(l4).push(l5).push(l6).push(l7).push(l8),
        l9,
    );
    assert(state_lines(s) =~= e.push(l0).push(l1).push(l2).push(l3).push(l4).push(l5).push(l6).push(
        l7,
    ).push(l8).push(l9));
    assert(s10 == s);
}


/// Two states differ in no field exactly when they are equal: `diff`
/// reports nothing for identical states, and something for any change.
pub proof fn diff_empty_iff_equal(a: StateView, b: StateView)
    ensures
        changed_fields(a, b).len() == 0 <==> a == b,
{
    if a != b {
        assert(a.name != b.name || a.lang != b.lang || a.desc != b.desc || a.tags != b.tags
            || a.includes != b.includes || a.build != b.build || a.run != b.run || a.test != b.test
            || a.check != b.check || a.last_wl_mtime != b.last_wl_mtime);
    }
}

proof fn lemma_concat_contains(a: Seq<Seq<char>>, b: Seq<Seq<char>>, x: Seq<char>)
    ensures
        (a + b).contains(x) <==> a.contains(x) || b.contains(x),
{
    if (a + b).contains(x) {
        let i = choose|i: int| 0 <= i < (a + b).len() && (a + b)[i] == x;
        if i < a.len() {
            assert(a[i] == x);
        } else {
            assert(b[i - a.len()] == x);
        }
    }
    if a.contains(x) {
        let i = choose|i: int| 0 <= i < a.len() && a[i] == x;
        assert((a + b)[i] == x);
    }
    if b.contains(x) {
        let i = choose|i: int| 0 <= i < b.len() && b[i] == x;
        assert((a + b)[a.len() + i] == x);
    }
}

spec fn piece(c: bool, k: Seq<char>) -> Seq<Seq<char>> {
    if c {
        seq![k]
    } else {
        seq![]
    }
}

proof fn lemma_piece_contains(c: bool, k: Seq<char>)
    ensures
        forall|x: Seq<char>| #[trigger] piece(c, k).contains(x) <==> c && x == k,
{
    if c {
        assert(seq![k][0] == k);
    }
}

#[verifier::spinoff_prover]
#[verifier::rlimit(50)]
proof fn lemma_changed_contains(a: StateView, b: StateView, x: Seq<char>)
    ensures
        changed_fields(a, b).contains(x) <==> (piece(a.name != b.name, "name"@).contains(x)
            || piece(a.lang != b.lang, "lang"@).contains(x) || piece(a.desc != b.desc, "desc"@).contains(x)
            || piece(a.tags != b.tags, "tags"@).contains(x) || piece(
            a.includes != b.includes,
            "includes"@,
        ).contains(x) || piece(a.build != b.build, "build"@).contains(x) || piece(
            a.run != b.run,
            "run"@,
        ).contains(x) || piece(a.test != b.test, "test"@).contains(x) || piece(
            a.check != b.check,
            "check"@,
        ).contains(x) || piece(a.last_wl_mtime != b.last_wl_mtime, "last_wl_mtime"@).contains(x)),
{
    let p0 = piece(a.name != b.name, "name"@);
    let p1 = piece(a.lang != b.lang, "lang"@);
    let p2 = piece(a.desc != b.desc, "desc"@);
    let p3 = piece(a.tags != b.tags, "tags"@);
    let p4 = piece(a.includes != b.includes, "includes"@);
    let p5 = piece(a.build != b.build, "build"@);
    let p6 = piece(a.run != b.run, "run"@);
    let p7 = piece(a.test != b.test, "test"@);
    let p8 = piece(a.check != b.check, "check"@);
    let p9 = piece(a.last_wl_mtime != b.last_wl_mtime, "last_wl_mtime"@);
    let q1 = p0 + p1;
    let q2 = q1 + p2;
    let q3 = q2 + p3;
    let q4 = q3 + p4;
    let q5 = q4 + p5;
    let q6 = q5 + p6;
    let q7 = q6 + p7;
    let q8 = q7 + p8;
    let q9 = q8 + p9;
    assert(changed_fields(a, b) == q9);
    lemma_concat_contains(p0, p1, x);
    lemma_concat_contains(q1, p2, x);
    lemma_concat_contains(q2, p3, x);
    lemma_concat_contains(q3, p4, x);
    lemma_concat_contains(q4, p5, x);
    lemma_concat_contains(q5, p6, x);
    lemma_concat_contains(q6, p7, x);
    lemma_concat_contains(q7, p8, x);
    lemma_concat_contains(q8, p9, x);
}

/// `diff` names a field exactly when the two states differ in that field:
/// each of the ten field names is reported if and only if its values
/// differ.
pub proof fn diff_names_exactly_the_changed_fields(a: StateView, b: StateView)
    ensures
        changed_fields(a, b).contains("name"@) <==> a.name != b.name,
        changed_fields(a, b).contains("lang"@) <==> a.lang != b.lang,
        changed_fields(a, b).contains("desc"@) <==> a.desc != b.desc,
        changed_fields(a, b).contains("tags"@) <==> a.tags != b.tags,
        changed_fields(a, b).contains("includes"@) <==> a.includes != b.includes,
        changed_fields(a, b).contains("build"@) <==> a.build != b.build,
        changed_fields(a, b).contains("run"@) <==> a.run != b.run,
        changed_fields(a, b).contains("test"@) <==> a.test != b.test,
        changed_fields(a, b).contains("check"@) <==> a.check != b.check,
        changed_fields(a, b).contains("last_wl_mtime"@) <==> a.last_wl_mtime != b.last_wl_mtime,
{
    reveal_keys();
    lemma_piece_contains(a.name != b.name, "name"@);
    lemma_piece_contains(a.lang != b.lang, "lang"@);
    lemma_piece_contains(a.desc != b.desc, "desc"@);
    lemma_piece_contains(a.tags != b.tags, "tags"@);
    lemma_piece_contains(a.includes != b.includes, "includes"@);
    lemma_piece_contains(a.build != b.build, "build"@);
    lemma_piece_contains(a.run != b.run, "run"@);
    lemma_piece_contains(a.test != b.test, "test"@);
    lemma_piece_contains(a.check != b.check, "check"@);
    lemma_piece_contains(a.last_wl_mtime != b.last_wl_mtime, "last_wl_mtime"@);
    lemma_changed_contains(a, b, "name"@);
    lemma_changed_contains(a, b, "lang"@);
    lemma_changed_contains(a, b, "desc"@);
    lemma_changed_contains(a, b, "tags"@);
    lemma_changed_contains(a, b, "includes"@);
    lemma_changed_contains(a, b, "build"@);
    lemma_changed_contains(a, b, "run"@);
    lemma_changed_contains(a, b, "test"@);
    lemma_changed_contains(a, b, "check"@);
    lemma_changed_contains(a, b, "last_wl_mtime"@);
}

} // verus!
