//! Include registry entries (`includes/<name>/include.wl`) and merging the
//! fields that includes contribute into a project's fields.
//!
//! Merge rules: a string field that the project already sets keeps the
//! project's value, and one it does not set is inherited from the first
//! include that sets it; the array fields `includes` and `tags` are
//! concatenated and deduplicated (each element kept where it first
//! occurs); keys
//! that a `.wl` does not define, and the include's own `name`, `desc`,
//! `provides` and `version`, are ignored.

use vstd::prelude::*;
use crate::fields::{FieldMap, map_get, unique_keys};
use crate::text::{chars_eq, chars_of, find_from, join, lines, lines_of, push_joined, slice_chars, split, split_chars, starts_with, ends_with, string_of, trim, trim_bounds, trim_chars};
use crate::wl_parser::{is_lone_quote, lone_quote, quote, strip_quotes_chars, strip_quotes_spec};

verus! {

broadcast use crate::text::lemma_chars_deep_view;

/// An include module.
pub struct IncludeEntry {
    pub name: String,
    pub desc: String,
    pub provides: Vec<String>,
    pub version: String,
    /// All fields of its `include.wl`, the ones it contributes among them.
    pub fields: FieldMap,
    /// The include's directory.
    pub dir: String,
}

// ---------------------------------------------------------------------------
// Reading include.wl
// ---------------------------------------------------------------------------

/// The comma-separated parts of an array value `[...]` (no bracket
/// balancing is required here), or `None` when the value is not a
/// non-empty `[...]`.
pub open spec fn loose_parts(s: Seq<char>) -> Option<Seq<Seq<char>>> {
    let t = trim(s);
    if starts_with(t, '[') && ends_with(t, ']') {
        let inner = trim(t.subrange(1, t.len() - 1));
        if inner.len() == 0 {
            None
        } else {
            Some(split(inner, ','))
        }
    } else {
        None
    }
}

/// The elements of an array value: the parts, trimmed and unquoted.
pub open spec fn loose_array(s: Seq<char>) -> Seq<Seq<char>> {
    match loose_parts(s) {
        Some(ps) => ps.map_values(|p: Seq<char>| strip_quotes_spec(p)),
        None => seq![],
    }
}

pub open spec fn loose_array_panics(s: Seq<char>) -> bool {
    match loose_parts(s) {
        Some(ps) => exists|i: int| 0 <= i < ps.len() && lone_quote(#[trigger] ps[i]),
        None => false,
    }
}

fn loose_parts_exec(s: &[char]) -> (r: Option<Vec<Vec<char>>>)
    ensures
        r.deep_view() == loose_parts(s@),
{
    let (a, b) = trim_bounds(s);
    let ghost t = trim(s@);
    if b > a && s[a] == '[' && s[b - 1] == ']' {
        assert(t[0] == s@[a as int]);
        assert(t.last() == s@[b - 1]);
        assert(b - a >= 2);
        let inner_raw = slice_chars(s, a + 1, b - 1);
        assert(inner_raw@ == t.subrange(1, t.len() - 1));
        let inner = trim_chars(inner_raw.as_slice());
        if inner.len() == 0 {
            return None;
        }
        Some(split_chars(inner.as_slice(), ','))
    } else {
        proof {
            if starts_with(t, '[') && ends_with(t, ']') {
                assert(t[0] == s@[a as int]);
                assert(t.last() == s@[b - 1]);
            }
        }
        None
    }
}

/// Whether `loose_array` meets a lone quote part in `s`.
pub fn loose_array_would_panic(s: &[char]) -> (r: bool)
    ensures
        r == loose_array_panics(s@),
{
    match loose_parts_exec(s) {
        None => false,
        Some(ps) => {
            let mut i: usize = 0;
            while i < ps.len()
                invariant
                    i <= ps.len(),
                    loose_parts(s@) == Some(ps.deep_view()),
                    forall|j: int| 0 <= j < i ==> !lone_quote(#[trigger] ps.deep_view()[j]),
                decreases ps.len() - i,
            {
                assert(ps.deep_view()[i as int] == ps@[i as int]@);
                if is_lone_quote(ps[i].as_slice()) {
                    let ghost pp = loose_parts(s@)->Some_0;
                    assert(pp[i as int] == ps.deep_view()[i as int]);
                    return true;
                }
                i += 1;
            }
            false
        },
    }
}

/// Reads an array value (see `loose_array`).
pub fn parse_loose_array(s: &[char]) -> (r: Vec<Vec<char>>)
    requires
        !loose_array_panics(s@),
    ensures
        r.deep_view() == loose_array(s@),
{
    match loose_parts_exec(s) {
        None => Vec::new(),
        Some(ps) => {
            let ghost pv = ps.deep_view();
            let mut out: Vec<Vec<char>> = Vec::new();
            let mut i: usize = 0;
            while i < ps.len()
                invariant
                    i <= ps.len(),
                    pv == ps.deep_view(),
                    loose_parts(s@) == Some(pv),
                    !loose_array_panics(s@),
                    out.deep_view() == pv.take(i as int).map_values(
                        |p: Seq<char>| strip_quotes_spec(p),
                    ),
                decreases ps.len() - i,
            {
                assert(pv[i as int] == ps@[i as int]@);
                let ghost pp = loose_parts(s@)->Some_0;
                assert(pp[i as int] == pv[i as int]);
                assert(!lone_quote(pv[i as int]));
                let v = strip_quotes_chars(ps[i].as_slice());
                let ghost before = out.deep_view();
                crate::text::push_chars(&mut out, v);
                assert(pv.take(i + 1) == pv.take(i as int).push(pv[i as int]));
                assert(pv.take(i + 1).map_values(|p: Seq<char>| strip_quotes_spec(p)) =~= before.push(
                    strip_quotes_spec(pv[i as int]),
                ));
                i += 1;
            }
            assert(pv.take(ps.len() as int) == pv);
            out
        },
    }
}

/// The effect of one line of an `include.wl`: lines with a `=` set the
/// trimmed key to the trimmed, unquoted value; other lines are ignored.
/// `None` where a value is a lone quote.
pub open spec fn include_line(m: Option<Map<Seq<char>, Seq<char>>>, line: Seq<char>) -> Option<Map<Seq<char>, Seq<char>>> {
    match m {
        None => None,
        Some(m) => {
            let t = trim(line);
            if t.len() == 0 || starts_with(t, '#') {
                Some(m)
            } else {
                let i = crate::text::find_char(t, '=');
                if 0 <= i < t.len() {
                    let v = trim(t.skip(i + 1));
                    if lone_quote(v) {
                        None
                    } else {
                        Some(m.insert(trim(t.take(i)), strip_quotes_spec(v)))
                    }
                } else {
                    Some(m)
                }
            }
        },
    }
}

pub open spec fn include_scan(ls: Seq<Seq<char>>) -> Option<Map<Seq<char>, Seq<char>>>
    decreases ls.len(),
{
    if ls.len() == 0 {
        Some(Map::empty())
    } else {
        include_line(include_scan(ls.drop_last()), ls.last())
    }
}

/// The fields of an `include.wl` text (`None` where a value is a lone quote).
pub open spec fn include_fields_spec(content: Seq<char>) -> Option<Map<Seq<char>, Seq<char>>> {
    include_scan(lines(content))
}

pub open spec fn include_would_panic(content: Seq<char>) -> bool {
    match include_fields_spec(content) {
        None => true,
        Some(m) => match map_get(m, "provides"@) {
            Some(p) => loose_array_panics(p),
            None => false,
        },
    }
}

proof fn lemma_include_scan_none(ls: Seq<Seq<char>>, i: int)
    requires
        0 <= i < ls.len(),
        include_scan(ls.take(i + 1)) is None,
    ensures
        include_scan(ls) is None,
    decreases ls.len() - i,
{
    if i + 1 < ls.len() {
        assert(ls.take(i + 2).drop_last() == ls.take(i + 1));
        lemma_include_scan_none(ls, i + 1);
    } else {
        assert(ls.take(i + 1) == ls);
    }
}

fn include_fields_exec(content: &str) -> (r: Option<FieldMap>)
    ensures
        r matches Some(f) ==> f.wf() && include_fields_spec(content@) == Some(f.view()),
        r is None ==> include_fields_spec(content@) is None,
{
    let cs = chars_of(content);
    let ls = lines_of(cs.as_slice());
    let ghost lv = ls.deep_view();
    let mut f = FieldMap::new();
    let mut i: usize = 0;
    assert(lv.take(0) =~= Seq::<Seq<char>>::empty());
    while i < ls.len()
        invariant
            i <= ls.len(),
            lv == ls.deep_view(),
            lv == lines(content@),
            f.wf(),
            include_scan(lv.take(i as int)) == Some(f.view()),
        decreases ls.len() - i,
    {
        assert(lv.take(i + 1).drop_last() == lv.take(i as int));
        assert(lv.take(i + 1).last() == ls@[i as int]@);
        let t = trim_chars(ls[i].as_slice());
        if t.len() > 0 && t[0] != '#' {
            let eq = find_from(t.as_slice(), '=', 0);
            assert(t@.skip(0) == t@);
            if eq < t.len() {
                let k = slice_chars(t.as_slice(), 0, eq);
                let v = slice_chars(t.as_slice(), eq + 1, t.len());
                assert(k@ == t@.take(eq as int));
                assert(v@ == t@.skip(eq + 1));
                let key = trim_chars(k.as_slice());
                let value = trim_chars(v.as_slice());
                if is_lone_quote(value.as_slice()) {
                    proof {
                        lemma_include_scan_none(lv, i as int);
                    }
                    return None;
                }
                let value = strip_quotes_chars(value.as_slice());
                f.insert_chars(key, value);
            }
        }
        i += 1;
    }
    assert(lv.take(ls.len() as int) == lv);
    Some(f)
}

/// Whether reading `content` as an `include.wl` meets a lone quote value.
pub fn include_content_would_panic(content: &str) -> (r: bool)
    ensures
        r == include_would_panic(content@),
{
    match include_fields_exec(content) {
        None => true,
        Some(f) => match f.get("provides") {
            Some(p) => loose_array_would_panic(chars_of(p.as_str()).as_slice()),
            None => false,
        },
    }
}

pub open spec fn or_default(o: Option<Seq<char>>, d: Seq<char>) -> Seq<char> {
    match o {
        Some(v) => v,
        None => d,
    }
}

/// Reads the text of an `include.wl`.  `default_name` names the include
/// when the file does not; `dir` is its directory.
pub fn parse_include_wl(content: &str, default_name: String, dir: String) -> (r: IncludeEntry)
    requires
        !include_would_panic(content@),
    ensures
        r.fields.wf(),
        include_fields_spec(content@) == Some(r.fields.view()),
        r.name@ == or_default(map_get(r.fields.view(), "name"@), default_name@),
        r.desc@ == or_default(map_get(r.fields.view(), "desc"@), seq![]),
        r.version@ == or_default(map_get(r.fields.view(), "version"@), seq![]),
        r.provides.deep_view() == match map_get(r.fields.view(), "provides"@) {
            Some(p) => loose_array(p),
            None => seq![],
        },
        r.dir@ == dir@,
{
    let f = match include_fields_exec(content) {
        Some(f) => f,
        None => FieldMap::new(),
    };
    let provides = match f.get("provides") {
        Some(p) => {
            let arr = parse_loose_array(chars_of(p.as_str()).as_slice());
            let mut out: Vec<String> = Vec::new();
            let mut i: usize = 0;
            while i < arr.len()
                invariant
                    i <= arr.len(),
                    out.deep_view() == arr.deep_view().take(i as int),
                decreases arr.len() - i,
            {
                let ghost before = out.deep_view();
                out.push(string_of(arr[i].as_slice()));
                assert(out.deep_view() =~= before.push(arr@[i as int]@));
                assert(arr.deep_view().take(i + 1) =~= before.push(arr@[i as int]@));
                i += 1;
            }
            assert(arr.deep_view().take(arr.len() as int) == arr.deep_view());
            out
        },
        None => Vec::new(),
    };
    let name = match f.get("name") {
        Some(n) => n,
        None => default_name,
    };
    let desc = match f.get("desc") {
        Some(d) => d,
        None => String::new(),
    };
    let version = match f.get("version") {
        Some(v) => v,
        None => String::new(),
    };
    IncludeEntry { name, desc, provides, version, fields: f, dir }
}


// ---------------------------------------------------------------------------
// Merging
// ---------------------------------------------------------------------------

pub open spec fn is_array_key(k: Seq<char>) -> bool {
    k == "includes"@ || k == "tags"@
}

/// A string field of a `.wl` that an include may contribute.
pub open spec fn is_inherited_key(k: Seq<char>) -> bool {
    k == "lang"@ || k == "build"@ || k == "run"@ || k == "test"@ || k == "check"@ || k
        == "overseer_template"@ || k == "setup"@
}

/// The elements of `s`, each kept where it first occurs and left out where
/// it repeats an earlier one.
pub open spec fn dedup_seq(s: Seq<Seq<char>>) -> Seq<Seq<char>>
    decreases s.len(),
{
    if s.len() == 0 {
        seq![]
    } else {
        let m = dedup_seq(s.drop_last());
        if m.contains(s.last()) {
            m
        } else {
            m.push(s.last())
        }
    }
}

/// The merged array: `existing` followed by `new`, deduplicated.
pub open spec fn dedup_append(existing: Seq<Seq<char>>, new: Seq<Seq<char>>) -> Seq<Seq<char>> {
    dedup_seq(existing + new)
}

/// No element occurs twice.
pub open spec fn no_repeats(s: Seq<Seq<char>>) -> bool {
    forall|i: int, j: int| 0 <= i < j < s.len() ==> s[i] != s[j]
}

/// The effect of one field of an include on the project's fields (`None`
/// where an array part is a lone quote).
pub open spec fn merge_entry(m: Map<Seq<char>, Seq<char>>, k: Seq<char>, v: Seq<char>) -> Option<Map<Seq<char>, Seq<char>>> {
    if is_array_key(k) {
        let existing = or_default(map_get(m, k), seq![]);
        if loose_array_panics(existing) || loose_array_panics(v) {
            None
        } else {
            Some(m.insert(k, crate::wl_parser::render_array(dedup_append(loose_array(existing), loose_array(v)))))
        }
    } else if is_inherited_key(k) && !m.dom().contains(k) {
        Some(m.insert(k, v))
    } else {
        Some(m)
    }
}

/// The effect of the first `n` fields of an include.
pub open spec fn merge_fields(m: Map<Seq<char>, Seq<char>>, ks: Seq<Seq<char>>, vs: Seq<Seq<char>>, n: int) -> Option<Map<Seq<char>, Seq<char>>>
    decreases n,
{
    if n <= 0 {
        Some(m)
    } else {
        match merge_fields(m, ks, vs, n - 1) {
            Some(m2) => merge_entry(m2, ks[n - 1], vs[n - 1]),
            None => None,
        }
    }
}

/// The fields of an include, as (keys, values) in table order.
pub open spec fn entry_fields(e: IncludeEntry) -> (Seq<Seq<char>>, Seq<Seq<char>>) {
    (e.fields.key_seq(), e.fields.value_seq())
}

/// The effect of the first `n` includes.
pub open spec fn merge_all(m: Map<Seq<char>, Seq<char>>, incs: Seq<(Seq<Seq<char>>, Seq<Seq<char>>)>, n: int) -> Option<Map<Seq<char>, Seq<char>>>
    decreases n,
{
    if n <= 0 {
        Some(m)
    } else {
        match merge_all(m, incs, n - 1) {
            Some(m2) => merge_fields(m2, incs[n - 1].0, incs[n - 1].1, incs[n - 1].0.len() as int),
            None => None,
        }
    }
}

pub open spec fn merge_spec(m: Map<Seq<char>, Seq<char>>, includes: Seq<IncludeEntry>) -> Option<Map<Seq<char>, Seq<char>>> {
    merge_all(m, includes.map_values(|e: IncludeEntry| entry_fields(e)), includes.len() as int)
}

fn key_is(k: &[char], name: &str) -> (r: bool)
    ensures
        r == (k@ == name@),
{
    chars_eq(k, chars_of(name).as_slice())
}

fn contains_chars(v: &Vec<Vec<char>>, x: &[char]) -> (r: bool)
    ensures
        r == v.deep_view().contains(x@),
{
    let mut i: usize = 0;
    while i < v.len()
        invariant
            i <= v.len(),
            forall|j: int| 0 <= j < i ==> v.deep_view()[j] != x@,
        decreases v.len() - i,
    {
        assert(v.deep_view()[i as int] == v@[i as int]@);
        if chars_eq(v[i].as_slice(), x) {
            return true;
        }
        i += 1;
    }
    false
}

fn dedup_append_exec(existing: Vec<Vec<char>>, new: &Vec<Vec<char>>) -> (r: Vec<Vec<char>>)
    ensures
        r.deep_view() == dedup_append(existing.deep_view(), new.deep_view()),
{
    let ghost all = existing.deep_view() + new.deep_view();
    let mut merged: Vec<Vec<char>> = Vec::new();
    let mut i: usize = 0;
    assert(all.take(0) =~= Seq::<Seq<char>>::empty());
    while i < existing.len()
        invariant
            i <= existing.len(),
            all == existing.deep_view() + new.deep_view(),
            merged.deep_view() == dedup_seq(all.take(i as int)),
        decreases existing.len() - i,
    {
        assert(all.take(i + 1).drop_last() =~= all.take(i as int));
        assert(all.take(i + 1).last() == existing@[i as int]@);
        if !contains_chars(&merged, existing[i].as_slice()) {
            crate::text::push_chars(&mut merged, existing[i].clone());
        }
        i += 1;
    }
    let mut j: usize = 0;
    while j < new.len()
        invariant
            j <= new.len(),
            all == existing.deep_view() + new.deep_view(),
            merged.deep_view() == dedup_seq(all.take(existing.len() + j)),
        decreases new.len() - j,
    {
        let ghost n = existing.len() + j;
        assert(all.take(n + 1).drop_last() =~= all.take(n));
        assert(all.take(n + 1).last() == new@[j as int]@);
        if !contains_chars(&merged, new[j].as_slice()) {
            crate::text::push_chars(&mut merged, new[j].clone());
        }
        j += 1;
    }
    assert(all.take(existing.len() + new.len()) =~= all);
    merged
}

fn merge_entry_exec(m: &mut FieldMap, k: &[char], v: &[char]) -> (ok: bool)
    requires
        old(m).wf(),
    ensures
        final(m).wf(),
        ok == merge_entry(old(m).view(), k@, v@).is_some(),
        ok ==> merge_entry(old(m).view(), k@, v@) == Some(final(m).view()),
{
    if key_is(k, "includes") || key_is(k, "tags") {
        let existing = match m.get_chars(k) {
            Some(e) => e,
            None => Vec::new(),
        };
        assert(existing@ == or_default(map_get(m.view(), k@), seq![]));
        if loose_array_would_panic(existing.as_slice()) || loose_array_would_panic(v) {
            return false;
        }
        let ex_arr = parse_loose_array(existing.as_slice());
        let new_arr = parse_loose_array(v);
        let merged = dedup_append_exec(ex_arr, &new_arr);
        let combined = crate::wl_parser::render_array_chars(&merged);
        let kk = slice_chars(k, 0, k.len());
        assert(kk@ =~= k@);
        m.insert_chars(kk, combined);
        return true;
    }
    let inherited = key_is(k, "lang") || key_is(k, "build") || key_is(k, "run") || key_is(k, "test")
        || key_is(k, "check") || key_is(k, "overseer_template") || key_is(k, "setup");
    if inherited && !m.contains_chars(k) {
        let kk = slice_chars(k, 0, k.len());
        let vv = slice_chars(v, 0, v.len());
        assert(kk@ =~= k@);
        assert(vv@ =~= v@);
        m.insert_chars(kk, vv);
    }
    true
}

proof fn lemma_merge_fields_none(m: Map<Seq<char>, Seq<char>>, ks: Seq<Seq<char>>, vs: Seq<Seq<char>>, i: int, n: int)
    requires
        0 <= i <= n,
        merge_fields(m, ks, vs, i) is None,
    ensures
        merge_fields(m, ks, vs, n) is None,
    decreases n - i,
{
    if i < n {
        lemma_merge_fields_none(m, ks, vs, i, n - 1);
    }
}

proof fn lemma_merge_all_none(m: Map<Seq<char>, Seq<char>>, incs: Seq<(Seq<Seq<char>>, Seq<Seq<char>>)>, i: int, n: int)
    requires
        0 <= i <= n,
        merge_all(m, incs, i) is None,
    ensures
        merge_all(m, incs, n) is None,
    decreases n - i,
{
    if i < n {
        lemma_merge_all_none(m, incs, i, n - 1);
    }
}

/// Merges the fields that `includes` contribute into `project_fields` (see
/// the module documentation).
pub fn merge_include_fields(project_fields: &mut FieldMap, includes: &[IncludeEntry])
    requires
        old(project_fields).wf(),
        forall|i: int| 0 <= i < includes.len() ==> (#[trigger] includes[i]).fields.wf(),
        merge_spec(old(project_fields).view(), includes@) is Some,
    ensures
        final(project_fields).wf(),
        merge_spec(old(project_fields).view(), includes@) == Some(final(project_fields).view()),
{
    let ghost m0 = project_fields.view();
    let ghost incs = includes@.map_values(|e: IncludeEntry| entry_fields(e));
    let mut i: usize = 0;
    while i < includes.len()
        invariant
            i <= includes.len(),
            incs == includes@.map_values(|e: IncludeEntry| entry_fields(e)),
            forall|j: int| 0 <= j < includes.len() ==> (#[trigger] includes[j]).fields.wf(),
            merge_all(m0, incs, includes.len() as int) is Some,
            project_fields.wf(),
            merge_all(m0, incs, i as int) == Some(project_fields.view()),
        decreases includes.len() - i,
    {
        let inc = &includes[i];
        let n = inc.fields.len();
        let ghost ks = inc.fields.key_seq();
        let ghost vs = inc.fields.value_seq();
        assert(incs[i as int] == (ks, vs));
        let ghost start = project_fields.view();
        let mut j: usize = 0;
        while j < n
            invariant
                j <= n,
                n == ks.len(),
                n == vs.len(),
                inc.fields.wf(),
                ks == inc.fields.key_seq(),
                vs == inc.fields.value_seq(),
                project_fields.wf(),
                merge_fields(start, ks, vs, j as int) == Some(project_fields.view()),
                merge_all(m0, incs, i as int) == Some(start),
                merge_all(m0, incs, includes.len() as int) is Some,
                incs[i as int] == (ks, vs),
                i < includes.len(),
            decreases n - j,
        {
            let k = inc.fields.key_at(j);
            let v = inc.fields.value_at(j);
            if !merge_entry_exec(project_fields, k.as_slice(), v.as_slice()) {
                proof {
                    lemma_merge_fields_none(start, ks, vs, (j + 1) as int, n as int);
                    lemma_merge_all_none(m0, incs, (i + 1) as int, includes.len() as int);
                }
                return;
            }
            j += 1;
        }
        i += 1;
    }
}


// ---------------------------------------------------------------------------
// Merge laws
// ---------------------------------------------------------------------------

proof fn lemma_entry_keeps(m: Map<Seq<char>, Seq<char>>, k2: Seq<char>, v: Seq<char>, k: Seq<char>)
    requires
        m.dom().contains(k),
        !is_array_key(k),
        merge_entry(m, k2, v) is Some,
    ensures
        merge_entry(m, k2, v)->Some_0.dom().contains(k),
        merge_entry(m, k2, v)->Some_0[k] == m[k],
{
}

proof fn lemma_fields_keep(
    m: Map<Seq<char>, Seq<char>>,
    ks: Seq<Seq<char>>,
    vs: Seq<Seq<char>>,
    n: int,
    k: Seq<char>,
)
    requires
        m.dom().contains(k),
        !is_array_key(k),
        merge_fields(m, ks, vs, n) is Some,
    ensures
        merge_fields(m, ks, vs, n)->Some_0.dom().contains(k),
        merge_fields(m, ks, vs, n)->Some_0[k] == m[k],
    decreases n,
{
    if n > 0 {
        lemma_fields_keep(m, ks, vs, n - 1, k);
        let m2 = merge_fields(m, ks, vs, n - 1)->Some_0;
        lemma_entry_keeps(m2, ks[n - 1], vs[n - 1], k);
    }
}

proof fn lemma_all_keep(
    m: Map<Seq<char>, Seq<char>>,
    incs: Seq<(Seq<Seq<char>>, Seq<Seq<char>>)>,
    n: int,
    k: Seq<char>,
)
    requires
        m.dom().contains(k),
        !is_array_key(k),
        merge_all(m, incs, n) is Some,
    ensures
        merge_all(m, incs, n)->Some_0.dom().contains(k),
        merge_all(m, incs, n)->Some_0[k] == m[k],
    decreases n,
{
    if n > 0 {
        lemma_all_keep(m, incs, n - 1, k);
        let m2 = merge_all(m, incs, n - 1)->Some_0;
        lemma_fields_keep(m2, incs[n - 1].0, incs[n - 1].1, incs[n - 1].0.len() as int, k);
    }
}

/// A string field that the project already sets keeps the project's
/// value, whatever the includes set.
pub proof fn merge_keeps_project_values(
    project: Map<Seq<char>, Seq<char>>,
    includes: Seq<IncludeEntry>,
    k: Seq<char>,
)
    requires
        merge_spec(project, includes) is Some,
        project.dom().contains(k),
        !is_array_key(k),
    ensures
        merge_spec(project, includes)->Some_0.dom().contains(k),
        merge_spec(project, includes)->Some_0[k] == project[k],
{
    lemma_all_keep(
        project,
        includes.map_values(|e: IncludeEntry| entry_fields(e)),
        includes.len() as int,
        k,
    );
}

proof fn lemma_fields_no_new(
    m: Map<Seq<char>, Seq<char>>,
    ks: Seq<Seq<char>>,
    vs: Seq<Seq<char>>,
    n: int,
    k: Seq<char>,
)
    requires
        !m.dom().contains(k),
        !is_array_key(k),
        !is_inherited_key(k),
        merge_fields(m, ks, vs, n) is Some,
    ensures
        !merge_fields(m, ks, vs, n)->Some_0.dom().contains(k),
    decreases n,
{
    if n > 0 {
        lemma_fields_no_new(m, ks, vs, n - 1, k);
    }
}

proof fn lemma_all_no_new(
    m: Map<Seq<char>, Seq<char>>,
    incs: Seq<(Seq<Seq<char>>, Seq<Seq<char>>)>,
    n: int,
    k: Seq<char>,
)
    requires
        !m.dom().contains(k),
        !is_array_key(k),
        !is_inherited_key(k),
        merge_all(m, incs, n) is Some,
    ensures
        !merge_all(m, incs, n)->Some_0.dom().contains(k),
    decreases n,
{
    if n > 0 {
        lemma_all_no_new(m, incs, n - 1, k);
        let m2 = merge_all(m, incs, n - 1)->Some_0;
        lemma_fields_no_new(m2, incs[n - 1].0, incs[n - 1].1, incs[n - 1].0.len() as int, k);
    }
}

/// Includes add no field but the inherited string fields and the array
/// fields: any other key of an include (its own `name`, `desc`,
/// `provides`, `version`, or a key unknown to `.wl` files) is ignored.
pub proof fn merge_ignores_other_keys(
    project: Map<Seq<char>, Seq<char>>,
    includes: Seq<IncludeEntry>,
    k: Seq<char>,
)
    requires
        merge_spec(project, includes) is Some,
        !project.dom().contains(k),
        !is_array_key(k),
        !is_inherited_key(k),
    ensures
        !merge_spec(project, includes)->Some_0.dom().contains(k),
{
    lemma_all_no_new(
        project,
        includes.map_values(|e: IncludeEntry| entry_fields(e)),
        includes.len() as int,
        k,
    );
}

/// The value of the first of the first `n` pairs whose key is `k`.
pub open spec fn table_get(ks: Seq<Seq<char>>, vs: Seq<Seq<char>>, n: int, k: Seq<char>) -> Option<
    Seq<char>,
>
    decreases n,
{
    if n <= 0 {
        None
    } else {
        match table_get(ks, vs, n - 1, k) {
            Some(v) => Some(v),
            None => if ks[n - 1] == k {
                Some(vs[n - 1])
            } else {
                None
            },
        }
    }
}

/// The value that the first of the first `n` includes setting `k` gives it.
pub open spec fn setter(incs: Seq<(Seq<Seq<char>>, Seq<Seq<char>>)>, n: int, k: Seq<char>) -> Option<
    Seq<char>,
>
    decreases n,
{
    if n <= 0 {
        None
    } else {
        match setter(incs, n - 1, k) {
            Some(v) => Some(v),
            None => table_get(incs[n - 1].0, incs[n - 1].1, incs[n - 1].0.len() as int, k),
        }
    }
}

/// The value of `k` in the first of the includes that sets it.
pub open spec fn first_include_value(includes: Seq<IncludeEntry>, k: Seq<char>) -> Option<Seq<char>>
    decreases includes.len(),
{
    if includes.len() == 0 {
        None
    } else {
        match first_include_value(includes.drop_last(), k) {
            Some(v) => Some(v),
            None => map_get(includes.last().fields.view(), k),
        }
    }
}

proof fn lemma_fields_inherit(
    m: Map<Seq<char>, Seq<char>>,
    ks: Seq<Seq<char>>,
    vs: Seq<Seq<char>>,
    n: int,
    k: Seq<char>,
)
    requires
        is_inherited_key(k),
        !is_array_key(k),
        0 <= n <= ks.len(),
        merge_fields(m, ks, vs, n) is Some,
    ensures
        map_get(merge_fields(m, ks, vs, n)->Some_0, k) == if m.dom().contains(k) {
            Some(m[k])
        } else {
            table_get(ks, vs, n, k)
        },
    decreases n,
{
    if n > 0 {
        lemma_fields_inherit(m, ks, vs, n - 1, k);
    }
}

proof fn lemma_all_inherit(
    m: Map<Seq<char>, Seq<char>>,
    incs: Seq<(Seq<Seq<char>>, Seq<Seq<char>>)>,
    n: int,
    k: Seq<char>,
)
    requires
        is_inherited_key(k),
        !is_array_key(k),
        0 <= n <= incs.len(),
        merge_all(m, incs, n) is Some,
    ensures
        map_get(merge_all(m, incs, n)->Some_0, k) == if m.dom().contains(k) {
            Some(m[k])
        } else {
            setter(incs, n, k)
        },
    decreases n,
{
    if n > 0 {
        lemma_all_inherit(m, incs, n - 1, k);
        let m2 = merge_all(m, incs, n - 1)->Some_0;
        lemma_fields_inherit(m2, incs[n - 1].0, incs[n - 1].1, incs[n - 1].0.len() as int, k);
    }
}

proof fn lemma_table_get(ks: Seq<Seq<char>>, vs: Seq<Seq<char>>, n: int, k: Seq<char>)
    requires
        0 <= n <= ks.len(),
        ks.len() == vs.len(),
        unique_keys(ks),
    ensures
        table_get(ks, vs, n, k) is Some <==> exists|j: int| 0 <= j < n && ks[j] == k,
        forall|j: int| 0 <= j < n && ks[j] == k ==> table_get(ks, vs, n, k) == Some(vs[j]),
    decreases n,
{
    if n > 0 {
        lemma_table_get(ks, vs, n - 1, k);
        if table_get(ks, vs, n - 1, k) is Some {
            let j0 = choose|j: int| 0 <= j < n - 1 && ks[j] == k;
            assert forall|j: int| 0 <= j < n && ks[j] == k implies table_get(ks, vs, n, k) == Some(
                vs[j],
            ) by {
                if j == n - 1 {
                    assert(ks[j0] == ks[j]);
                }
            }
        }
    }
}

proof fn lemma_table_get_map(e: IncludeEntry, k: Seq<char>)
    requires
        e.fields.wf(),
    ensures
        table_get(e.fields.key_seq(), e.fields.value_seq(), e.fields.key_seq().len() as int, k)
            == map_get(e.fields.view(), k),
{
    e.fields.lemma_shape();
    let ks = e.fields.key_seq();
    let vs = e.fields.value_seq();
    crate::fields::lemma_assoc_lookup(ks, vs, k);
    lemma_table_get(ks, vs, ks.len() as int, k);
    if ks.contains(k) {
        let j = choose|j: int| 0 <= j < ks.len() && ks[j] == k;
        assert(ks[j] == k);
    }
}

proof fn lemma_setter_first(includes: Seq<IncludeEntry>, k: Seq<char>)
    requires
        forall|i: int| 0 <= i < includes.len() ==> (#[trigger] includes[i]).fields.wf(),
    ensures
        setter(
            includes.map_values(|e: IncludeEntry| entry_fields(e)),
            includes.len() as int,
            k,
        ) == first_include_value(includes, k),
    decreases includes.len(),
{
    let incs = includes.map_values(|e: IncludeEntry| entry_fields(e));
    if includes.len() > 0 {
        let pre = includes.drop_last();
        lemma_setter_first(pre, k);
        let incs2 = pre.map_values(|e: IncludeEntry| entry_fields(e));
        assert(incs2 =~= incs.take(incs.len() - 1));
        lemma_setter_prefix(incs, incs2, pre.len() as int, k);
        lemma_table_get_map(includes.last(), k);
    }
}

proof fn lemma_setter_prefix(
    a: Seq<(Seq<Seq<char>>, Seq<Seq<char>>)>,
    b: Seq<(Seq<Seq<char>>, Seq<Seq<char>>)>,
    n: int,
    k: Seq<char>,
)
    requires
        0 <= n <= b.len(),
        n <= a.len(),
        forall|i: int| 0 <= i < n ==> a[i] == b[i],
    ensures
        setter(a, n, k) == setter(b, n, k),
    decreases n,
{
    if n > 0 {
        lemma_setter_prefix(a, b, n - 1, k);
    }
}

/// A string field that the project does not set is inherited from the
/// first include that sets it (and stays unset when none does).
pub proof fn merge_inherits_from_first(
    project: Map<Seq<char>, Seq<char>>,
    includes: Seq<IncludeEntry>,
    k: Seq<char>,
)
    requires
        merge_spec(project, includes) is Some,
        forall|i: int| 0 <= i < includes.len() ==> (#[trigger] includes[i]).fields.wf(),
        is_inherited_key(k),
        !project.dom().contains(k),
    ensures
        map_get(merge_spec(project, includes)->Some_0, k) == first_include_value(includes, k),
{
    reveal_strlit("lang");
    reveal_strlit("build");
    reveal_strlit("run");
    reveal_strlit("test");
    reveal_strlit("check");
    reveal_strlit("overseer_template");
    reveal_strlit("setup");
    reveal_strlit("includes");
    reveal_strlit("tags");
    assert("includes"@.len() == 8 && "tags"@.len() == 4 && "tags"@[0] == 't' && "tags"@[1] == 'a');
    assert(!is_array_key(k)) by {
        if k == "lang"@ {
            assert(k[0] == 'l');
        } else if k == "test"@ {
            assert(k[1] == 'e');
        } else {
            assert(k.len() != 8 && k.len() != 4);
        }
    }
    let incs = includes.map_values(|e: IncludeEntry| entry_fields(e));
    lemma_all_inherit(project, incs, includes.len() as int, k);
    lemma_setter_first(includes, k);
}

proof fn lemma_dedup_seq_contains(s: Seq<Seq<char>>, x: Seq<char>)
    ensures
        dedup_seq(s).contains(x) <==> s.contains(x),
    decreases s.len(),
{
    if s.len() > 0 {
        let pre = s.drop_last();
        lemma_dedup_seq_contains(pre, x);
        let m = dedup_seq(pre);
        let r = dedup_seq(s);
        assert(s[s.len() - 1] == s.last());
        if r.contains(x) {
            let k = choose|k: int| 0 <= k < r.len() && r[k] == x;
            if k < m.len() {
                assert(r[k] == m[k]);
                assert(m.contains(x));
                let j = choose|j: int| 0 <= j < pre.len() && pre[j] == x;
                assert(s[j] == x);
            }
        }
        if s.contains(x) {
            let j = choose|j: int| 0 <= j < s.len() && s[j] == x;
            if j < pre.len() {
                assert(pre[j] == x);
                assert(pre.contains(x));
            }
            if m.contains(x) {
                let k = choose|k: int| 0 <= k < m.len() && m[k] == x;
                assert(r[k] == x);
            } else {
                assert(r[m.len() as int] == x);
            }
        }
    }
}

proof fn lemma_dedup_seq_no_repeats(s: Seq<Seq<char>>)
    ensures
        no_repeats(dedup_seq(s)),
    decreases s.len(),
{
    if s.len() > 0 {
        let pre = s.drop_last();
        lemma_dedup_seq_no_repeats(pre);
        let m = dedup_seq(pre);
        let r = dedup_seq(s);
        assert forall|i: int, j: int| 0 <= i < j < r.len() implies r[i] != r[j] by {
            if j < m.len() {
                assert(r[i] == m[i] && r[j] == m[j]);
            } else {
                assert(r[i] == m[i]);
                assert(!m.contains(s.last()));
            }
        }
    }
}

proof fn lemma_dedup_seq_prefix(s: Seq<Seq<char>>, t: Seq<Seq<char>>)
    ensures
        dedup_seq(s + t).len() >= dedup_seq(s).len(),
        dedup_seq(s + t).take(dedup_seq(s).len() as int) == dedup_seq(s),
    decreases t.len(),
{
    if t.len() == 0 {
        assert(s + t =~= s);
        assert(dedup_seq(s).take(dedup_seq(s).len() as int) =~= dedup_seq(s));
    } else {
        let tp = t.drop_last();
        lemma_dedup_seq_prefix(s, tp);
        assert((s + t).drop_last() =~= s + tp);
        assert((s + t).last() == t.last());
        let m = dedup_seq(s + tp);
        let d = dedup_seq(s);
        if !m.contains(t.last()) {
            assert(m.push(t.last()).take(d.len() as int) =~= m.take(d.len() as int));
        }
    }
}

proof fn lemma_dedup_seq_unique(s: Seq<Seq<char>>)
    requires
        no_repeats(s),
    ensures
        dedup_seq(s) == s,
    decreases s.len(),
{
    if s.len() > 0 {
        let pre = s.drop_last();
        assert(no_repeats(pre));
        lemma_dedup_seq_unique(pre);
        lemma_dedup_seq_contains(pre, s.last());
        if pre.contains(s.last()) {
            let j = choose|j: int| 0 <= j < pre.len() && pre[j] == s.last();
            assert(s[j] == s[s.len() - 1]);
        }
        assert(pre.push(s.last()) =~= s);
    }
}

/// Array fields are concatenated and deduplicated: the merged array holds
/// exactly the elements of the project's array and of the include's, each
/// once, in the order in which they first occur in the concatenation; so
/// the project's own elements come first, deduplicated, and stay as they
/// are when they hold no repeat.
pub proof fn merge_arrays_concat_dedup(existing: Seq<Seq<char>>, new: Seq<Seq<char>>)
    ensures
        forall|x: Seq<char>| #[trigger]
            dedup_append(existing, new).contains(x) <==> existing.contains(x) || new.contains(x),
        no_repeats(dedup_append(existing, new)),
        dedup_append(existing, new).len() >= dedup_seq(existing).len(),
        dedup_append(existing, new).take(dedup_seq(existing).len() as int) == dedup_seq(existing),
        no_repeats(existing) ==> dedup_append(existing, new).take(existing.len() as int) == existing,
{
    let s = existing + new;
    assert forall|x: Seq<char>| #[trigger]
        dedup_append(existing, new).contains(x) <==> existing.contains(x) || new.contains(x) by {
        lemma_dedup_seq_contains(s, x);
        if s.contains(x) {
            let j = choose|j: int| 0 <= j < s.len() && s[j] == x;
            if j < existing.len() {
                assert(existing[j] == x);
            } else {
                assert(new[j - existing.len()] == x);
            }
        }
        if existing.contains(x) {
            let j = choose|j: int| 0 <= j < existing.len() && existing[j] == x;
            assert(s[j] == x);
        }
        if new.contains(x) {
            let j = choose|j: int| 0 <= j < new.len() && new[j] == x;
            assert(s[existing.len() + j] == x);
        }
    }
    lemma_dedup_seq_no_repeats(s);
    lemma_dedup_seq_prefix(existing, new);
    if no_repeats(existing) {
        lemma_dedup_seq_unique(existing);
    }
}

// ---------------------------------------------------------------------------
// Showing includes
// ---------------------------------------------------------------------------

/// The lines `forge include --list` prints for the include in directory
/// `name`: the name, the description, the provided features when there
/// are any, and a blank line.
pub open spec fn listing_spec(name: Seq<char>, desc: Seq<char>, provides: Seq<Seq<char>>) -> Seq<
    Seq<char>,
> {
    seq![name, "  "@ + desc] + (if provides.len() > 0 {
        seq!["  provides: "@ + join(provides, ", "@)]
    } else {
        seq![]
    }) + seq![seq![]]
}

/// The lines `forge include <name>` prints before the setup script.
pub open spec fn show_spec(name: Seq<char>, desc: Seq<char>, version: Seq<char>, provides: Seq<Seq<char>>) -> Seq<
    Seq<char>,
> {
    seq!["include: "@ + name, "description: "@ + desc, "version: "@ + version] + if provides.len()
        > 0 {
        seq!["provides: "@ + join(provides, ", "@)]
    } else {
        seq![]
    }
}

fn joined_provides(e: &IncludeEntry) -> (v: Vec<char>)
    ensures
        v@ == join(e.provides.deep_view(), ", "@),
{
    let mut parts: Vec<Vec<char>> = Vec::new();
    let mut i: usize = 0;
    while i < e.provides.len()
        invariant
            i <= e.provides.len(),
            parts.deep_view() == e.provides.deep_view().take(i as int),
        decreases e.provides.len() - i,
    {
        let ghost before = parts.deep_view();
        crate::text::push_chars(&mut parts, chars_of(e.provides[i].as_str()));
        assert(e.provides.deep_view().take(i + 1) =~= before.push(e.provides@[i as int]@));
        i += 1;
    }
    assert(e.provides.deep_view().take(e.provides.len() as int) =~= e.provides.deep_view());
    let mut v: Vec<char> = Vec::new();
    push_joined(&mut v, &parts, ", ");
    v
}

fn line_of(a: &str, b: &[char]) -> (r: String)
    ensures
        r@ == a@ + b@,
{
    let mut v: Vec<char> = chars_of(a);
    v.extend_from_slice(b);
    string_of(v.as_slice())
}

/// The lines listing the include in directory `name`.
pub fn include_listing(name: &str, e: &IncludeEntry) -> (r: Vec<String>)
    ensures
        r.deep_view() == listing_spec(name@, e.desc@, e.provides.deep_view()),
{
    let mut r: Vec<String> = Vec::new();
    r.push(name.to_owned());
    r.push(line_of("  ", chars_of(e.desc.as_str()).as_slice()));
    if e.provides.len() > 0 {
        let j = joined_provides(e);
        r.push(line_of("  provides: ", j.as_slice()));
    }
    r.push(String::new());
    assert(r.deep_view() =~= listing_spec(name@, e.desc@, e.provides.deep_view()));
    r
}

/// The lines showing one include.
pub fn include_show(e: &IncludeEntry) -> (r: Vec<String>)
    ensures
        r.deep_view() == show_spec(e.name@, e.desc@, e.version@, e.provides.deep_view()),
{
    let mut r: Vec<String> = Vec::new();
    r.push(line_of("include: ", chars_of(e.name.as_str()).as_slice()));
    r.push(line_of("description: ", chars_of(e.desc.as_str()).as_slice()));
    r.push(line_of("version: ", chars_of(e.version.as_str()).as_slice()));
    if e.provides.len() > 0 {
        let j = joined_provides(e);
        r.push(line_of("provides: ", j.as_slice()));
    }
    assert(r.deep_view() =~= show_spec(e.name@, e.desc@, e.version@, e.provides.deep_view()));
    r
}


/// What `forge include` shows.
#[derive(Debug, Clone)]
pub enum IncludeCommand {
    /// Every include, one after the other.
    List,
    /// The include of that name.
    Show(String),
}

/// What `forge include [--list] [name]` shows: the list when asked for or
/// when no name is given, else the named include.
pub fn run(list: bool, name: Option<&str>) -> (r: IncludeCommand)
    ensures
        (list || name is None) ==> r is List,
        (!list && name is Some) ==> (r matches IncludeCommand::Show(n) && n@ == name->0@),
{
    if list {
        return IncludeCommand::List;
    }
    match name {
        Some(n) => IncludeCommand::Show(n.to_owned()),
        None => IncludeCommand::List,
    }
}

} // verus!
