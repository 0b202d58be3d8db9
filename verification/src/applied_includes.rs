//! Which includes have been applied to a project.
//!
//! Each project keeps a `.forge/applied-includes` file listing, one per line,
//! the includes whose `setup.sh` has already been run.  After an edit or a
//! sync, the project's current `includes` are compared with that list and
//! the setups of the missing ones are run.

use vstd::prelude::*;
use crate::text::{chars_of, join, lines, lines_of, push_joined, string_of, trim, trim_chars};

verus! {

broadcast use crate::text::lemma_chars_deep_view;

/// The entries of an applied-includes text: its lines, trimmed, without the
/// empty ones.
pub open spec fn applied_lines(ls: Seq<Seq<char>>) -> Seq<Seq<char>>
    decreases ls.len(),
{
    if ls.len() == 0 {
        seq![]
    } else {
        let rest = applied_lines(ls.drop_last());
        let t = trim(ls.last());
        if t.len() > 0 {
            rest.push(t)
        } else {
            rest
        }
    }
}

pub open spec fn parse_applied_spec(content: Seq<char>) -> Seq<Seq<char>> {
    applied_lines(lines(content))
}

/// The text of an applied-includes file: the names joined with `\n`.
pub open spec fn render_applied_spec(includes: Seq<Seq<char>>) -> Seq<char> {
    join(includes, "\n"@)
}

/// The elements of `current` that are not in `applied`, in order.
pub open spec fn not_applied(current: Seq<Seq<char>>, applied: Seq<Seq<char>>) -> Seq<Seq<char>>
    decreases current.len(),
{
    if current.len() == 0 {
        seq![]
    } else {
        let rest = not_applied(current.drop_last(), applied);
        if applied.contains(current.last()) {
            rest
        } else {
            rest.push(current.last())
        }
    }
}

/// Reads the text of an applied-includes file.
pub fn parse_applied(content: &str) -> (r: Vec<String>)
    ensures
        r.deep_view() == parse_applied_spec(content@),
{
    let cs = chars_of(content);
    let ls = lines_of(cs.as_slice());
    let ghost lv = ls.deep_view();
    let mut out: Vec<String> = Vec::new();
    let mut i: usize = 0;
    assert(lv.take(0) =~= Seq::<Seq<char>>::empty());
    while i < ls.len()
        invariant
            i <= ls.len(),
            lv == ls.deep_view(),
            out.deep_view() == applied_lines(lv.take(i as int)),
        decreases ls.len() - i,
    {
        assert(lv.take(i + 1).drop_last() == lv.take(i as int));
        assert(lv.take(i + 1).last() == ls@[i as int]@);
        let t = trim_chars(ls[i].as_slice());
        if t.len() > 0 {
            let ghost before = out.deep_view();
            let st = string_of(t.as_slice());
            out.push(st);
            assert(out.deep_view() =~= before.push(t@));
        }
        i += 1;
    }
    assert(lv.take(ls.len() as int) == lv);
    out
}

/// The text to write for a list of applied includes.
pub fn render_applied(includes: &Vec<String>) -> (r: String)
    ensures
        r@ == render_applied_spec(includes.deep_view()),
{
    let mut parts: Vec<Vec<char>> = Vec::new();
    let mut i: usize = 0;
    while i < includes.len()
        invariant
            i <= includes.len(),
            parts.deep_view() == includes.deep_view().take(i as int),
        decreases includes.len() - i,
    {
        let ghost before = parts.deep_view();
        crate::text::push_chars(&mut parts, chars_of(includes[i].as_str()));
        assert(includes.deep_view().take(i + 1) =~= before.push(includes@[i as int]@));
        i += 1;
    }
    assert(includes.deep_view().take(includes.len() as int) == includes.deep_view());
    let mut out: Vec<char> = Vec::new();
    push_joined(&mut out, &parts, "\n");
    assert(out@ =~= render_applied_spec(includes.deep_view()));
    string_of(out.as_slice())
}

fn contains_string(v: &Vec<String>, x: &String) -> (r: bool)
    ensures
        r == v.deep_view().contains(x@),
{
    let mut i: usize = 0;
    while i < v.len()
        invariant
            i <= v.len(),
            forall|j: int| 0 <= j < i ==> v.deep_view()[j] != x@,
        decreases v.len() - i,
    {
        if v[i] == *x {
            assert(v.deep_view()[i as int] == x@);
            return true;
        }
        i += 1;
    }
    false
}

/// The includes of `current` that are not yet in `applied`, in order.
pub fn diff_applied(current: &Vec<String>, applied: &Vec<String>) -> (r: Vec<String>)
    ensures
        r.deep_view() == not_applied(current.deep_view(), applied.deep_view()),
{
    let ghost cv = current.deep_view();
    let ghost av = applied.deep_view();
    let mut out: Vec<String> = Vec::new();
    let mut i: usize = 0;
    assert(cv.take(0) =~= Seq::<Seq<char>>::empty());
    while i < current.len()
        invariant
            i <= current.len(),
            cv == current.deep_view(),
            av == applied.deep_view(),
            out.deep_view() == not_applied(cv.take(i as int), av),
        decreases current.len() - i,
    {
        assert(cv.take(i + 1).drop_last() == cv.take(i as int));
        assert(cv.take(i + 1).last() == current@[i as int]@);
        if !contains_string(applied, &current[i]) {
            let ghost before = out.deep_view();
            out.push(current[i].clone());
            assert(out.deep_view() =~= before.push(current@[i as int]@));
        }
        i += 1;
    }
    assert(cv.take(current.len() as int) == cv);
    out
}

/// What to do after an edit: the includes whose setup must run, and the new
/// applied list to save (`None` when nothing is new).
pub struct IncludeSync {
    pub to_run: Vec<String>,
    pub save: Option<Vec<String>>,
}

/// Plans the include setups after an edit: run the setups of the includes
/// not yet applied, then record them after the applied ones.  A caller that
/// records each setup as it succeeds (`record_setup`) ends with the same
/// list when all succeed (see `recording_each_setup_matches_plan`).
pub fn plan_include_sync(current: &Vec<String>, applied: &Vec<String>) -> (r: IncludeSync)
    ensures
        r.to_run.deep_view() == not_applied(current.deep_view(), applied.deep_view()),
        r.save.is_none() <==> r.to_run.len() == 0,
        r.save matches Some(all) ==> all.deep_view() == applied.deep_view() + r.to_run.deep_view(),
{
    let to_run = diff_applied(current, applied);
    if to_run.len() == 0 {
        return IncludeSync { to_run, save: None };
    }
    let mut all: Vec<String> = Vec::new();
    let mut i: usize = 0;
    while i < applied.len()
        invariant
            i <= applied.len(),
            all.deep_view() == applied.deep_view().take(i as int),
        decreases applied.len() - i,
    {
        let ghost before = all.deep_view();
        all.push(applied[i].clone());
        assert(all.deep_view() =~= before.push(applied@[i as int]@));
        assert(applied.deep_view().take(i + 1) =~= before.push(applied@[i as int]@));
        i += 1;
    }
    assert(applied.deep_view().take(applied.len() as int) == applied.deep_view());
    let mut j: usize = 0;
    while j < to_run.len()
        invariant
            j <= to_run.len(),
            all.deep_view() == applied.deep_view() + to_run.deep_view().take(j as int),
        decreases to_run.len() - j,
    {
        let ghost before = all.deep_view();
        all.push(to_run[j].clone());
        assert(all.deep_view() =~= before.push(to_run@[j as int]@));
        assert(to_run.deep_view().take(j + 1) =~= to_run.deep_view().take(j as int).push(
            to_run@[j as int]@,
        ));
        j += 1;
    }
    assert(to_run.deep_view().take(to_run.len() as int) == to_run.deep_view());
    IncludeSync { to_run, save: Some(all) }
}

/// The applied list after the setup of `inc` has run: `inc` recorded after
/// the others when its setup succeeded, the list unchanged when it failed.
pub open spec fn record_setup_spec(applied: Seq<Seq<char>>, inc: Seq<char>, succeeded: bool) -> Seq<Seq<char>> {
    if succeeded {
        applied.push(inc)
    } else {
        applied
    }
}

/// The applied list to save once the setup of `inc` has run (see
/// `record_setup_spec`), so that the file lists every setup that has run,
/// even when a later one fails.
pub fn record_setup(applied: &Vec<String>, inc: &str, succeeded: bool) -> (r: Vec<String>)
    ensures
        r.deep_view() == record_setup_spec(applied.deep_view(), inc@, succeeded),
{
    let mut out: Vec<String> = Vec::new();
    let mut i: usize = 0;
    while i < applied.len()
        invariant
            i <= applied.len(),
            out.deep_view() == applied.deep_view().take(i as int),
        decreases applied.len() - i,
    {
        let ghost before = out.deep_view();
        out.push(applied[i].clone());
        assert(out.deep_view() =~= before.push(applied@[i as int]@));
        assert(applied.deep_view().take(i + 1) =~= before.push(applied@[i as int]@));
        i += 1;
    }
    assert(applied.deep_view().take(applied.len() as int) == applied.deep_view());
    if succeeded {
        let ghost before = out.deep_view();
        out.push(inc.to_owned());
        assert(out.deep_view() =~= before.push(inc@));
    }
    out
}

/// The applied list after the setups of `run` have been run in order, each
/// recorded as it succeeded, the first `k` of them having succeeded.
pub open spec fn recorded_after(applied: Seq<Seq<char>>, run: Seq<Seq<char>>, k: int) -> Seq<Seq<char>>
    decreases k,
{
    if k <= 0 {
        applied
    } else {
        record_setup_spec(recorded_after(applied, run, k - 1), run[k - 1], true)
    }
}

// ---------------------------------------------------------------------------
// Laws
// ---------------------------------------------------------------------------

/// An include name that the applied-includes file holds as written:
/// non-empty, without surrounding white space or line breaks.
pub open spec fn applied_name_ok(x: Seq<char>) -> bool {
    x.len() > 0 && trim(x) == x && crate::text::no_char(x, '\n')
}

proof fn lemma_applied_lines_id(xs: Seq<Seq<char>>)
    requires
        forall|i: int| 0 <= i < xs.len() ==> applied_name_ok(#[trigger] xs[i]),
    ensures
        applied_lines(xs) == xs,
    decreases xs.len(),
{
    if xs.len() > 0 {
        let d = xs.drop_last();
        assert forall|i: int| 0 <= i < d.len() implies applied_name_ok(#[trigger] d[i]) by {
            assert(d[i] == xs[i]);
        }
        lemma_applied_lines_id(d);
        assert(applied_name_ok(xs[xs.len() - 1]));
        assert(d.push(xs.last()) =~= xs);
    }
}

proof fn lemma_trimmed_not_cr(x: Seq<char>)
    requires
        applied_name_ok(x),
    ensures
        !crate::text::ends_with(x, '\r'),
{
    if crate::text::ends_with(x, '\r') {
        lemma_trim_shorter(x);
    }
}

proof fn lemma_trim_end_len(s: Seq<char>)
    ensures
        crate::text::trim_end(s).len() <= s.len(),
    decreases s.len(),
{
    if s.len() > 0 && crate::text::is_ws(s.last()) {
        lemma_trim_end_len(s.drop_last());
    }
}

proof fn lemma_trim_start_len(s: Seq<char>)
    ensures
        crate::text::trim_start(s).len() <= s.len(),
    decreases s.len(),
{
    if s.len() > 0 && crate::text::is_ws(s[0]) {
        lemma_trim_start_len(s.drop_first());
    }
}

proof fn lemma_trim_shorter(x: Seq<char>)
    requires
        x.len() > 0,
        crate::text::is_ws(x.last()),
    ensures
        trim(x) != x,
{
    let a = crate::text::trim_start(x);
    lemma_trim_start_len(x);
    if a.len() == x.len() {
        assert(a == x) by {
            lemma_trim_start_same(x);
        }
        lemma_trim_end_len(x.drop_last());
    } else {
        lemma_trim_end_len(a);
    }
}

proof fn lemma_trim_start_same(s: Seq<char>)
    requires
        crate::text::trim_start(s).len() == s.len(),
    ensures
        crate::text::trim_start(s) == s,
{
    if s.len() > 0 && crate::text::is_ws(s[0]) {
        lemma_trim_start_len(s.drop_first());
    }
}

/// Saving a list of applied includes and loading it back gives the list,
/// when every name is non-empty, has no surrounding white space and no line
/// break.
pub proof fn applied_save_load_roundtrip(includes: Seq<Seq<char>>)
    requires
        forall|i: int| 0 <= i < includes.len() ==> applied_name_ok(#[trigger] includes[i]),
    ensures
        parse_applied_spec(render_applied_spec(includes)) == includes,
{
    reveal_strlit("\n");
    assert("\n"@ =~= seq!['\n']);
    if includes.len() == 0 {
        assert(render_applied_spec(includes) == Seq::<char>::empty());
        assert(lines(Seq::<char>::empty()) == Seq::<Seq<char>>::empty());
    } else {
        assert forall|i: int| 0 <= i < includes.len() - 1 implies !crate::text::ends_with(
            #[trigger] includes[i],
            '\r',
        ) by {
            lemma_trimmed_not_cr(includes[i]);
        }
        assert(applied_name_ok(includes[includes.len() - 1]));
        crate::text::lemma_lines_join(includes);
        lemma_applied_lines_id(includes);
    }
}

proof fn lemma_not_applied_contains(current: Seq<Seq<char>>, applied: Seq<Seq<char>>, x: Seq<char>)
    ensures
        not_applied(current, applied).contains(x) <==> (current.contains(x) && !applied.contains(x)),
    decreases current.len(),
{
    if current.len() > 0 {
        let d = current.drop_last();
        lemma_not_applied_contains(d, applied, x);
        let rest = not_applied(d, applied);
        if rest.contains(x) {
            let k = choose|k: int| 0 <= k < rest.len() && rest[k] == x;
            if !applied.contains(current.last()) {
                assert(rest.push(current.last())[k] == x);
            }
            let j = choose|j: int| 0 <= j < d.len() && d[j] == x;
            assert(current[j] == x);
        }
        if current.contains(x) && !applied.contains(x) {
            let j = choose|j: int| 0 <= j < current.len() && current[j] == x;
            if j < current.len() - 1 {
                assert(d[j] == x);
            } else {
                assert(rest.push(current.last())[rest.len() as int] == x);
            }
        }
        if !applied.contains(current.last()) {
            let r2 = rest.push(current.last());
            if r2.contains(x) && !rest.contains(x) {
                let k = choose|k: int| 0 <= k < r2.len() && r2[k] == x;
                if k < rest.len() {
                    assert(rest[k] == x);
                }
                assert(current[current.len() - 1] == x);
            }
        }
    }
}

/// Once the includes that `diff_applied` reports have been recorded after
/// the applied ones, nothing of `current` is left to apply.
pub proof fn applied_after_sync_nothing_left(current: Seq<Seq<char>>, applied: Seq<Seq<char>>)
    ensures
        not_applied(current, applied + not_applied(current, applied)).len() == 0,
{
    let all = applied + not_applied(current, applied);
    lemma_not_applied_empty(current, all, applied);
}

proof fn lemma_not_applied_empty(current: Seq<Seq<char>>, all: Seq<Seq<char>>, applied: Seq<Seq<char>>)
    requires
        all == applied + not_applied(current, applied),
    ensures
        not_applied(current, all).len() == 0,
{
    if not_applied(current, all).len() > 0 {
        let x = not_applied(current, all)[0];
        assert(not_applied(current, all).contains(x));
        lemma_not_applied_contains(current, all, x);
        lemma_not_applied_contains(current, applied, x);
        if applied.contains(x) {
            let j = choose|j: int| 0 <= j < applied.len() && applied[j] == x;
            assert(all[j] == x);
        } else {
            let n = not_applied(current, applied);
            let j = choose|j: int| 0 <= j < n.len() && n[j] == x;
            assert(all[applied.len() + j] == x);
        }
    }
}

/// Recording each planned setup as it succeeds leaves, after the first `k`,
/// the applied list followed by those `k` includes; once all have
/// succeeded, the same list that `plan_include_sync` plans to save.
pub proof fn recording_each_setup_matches_plan(applied: Seq<Seq<char>>, run: Seq<Seq<char>>, k: int)
    requires
        0 <= k <= run.len(),
    ensures
        recorded_after(applied, run, k) == applied + run.take(k),
        recorded_after(applied, run, run.len() as int) == applied + run,
{
    lemma_recorded_all(applied, run, k);
    lemma_recorded_all(applied, run, run.len() as int);
    assert(run.take(run.len() as int) =~= run);
}

proof fn lemma_recorded_all(applied: Seq<Seq<char>>, run: Seq<Seq<char>>, k: int)
    requires
        0 <= k <= run.len(),
    ensures
        recorded_after(applied, run, k) == applied + run.take(k),
    decreases k,
{
    if k > 0 {
        lemma_recorded_all(applied, run, k - 1);
        assert(run.take(k) =~= run.take(k - 1).push(run[k - 1]));
        assert(applied + run.take(k) =~= (applied + run.take(k - 1)).push(run[k - 1]));
    } else {
        assert(applied + run.take(0) =~= applied);
    }
}

} // verus!
