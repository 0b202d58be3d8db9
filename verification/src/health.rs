//! `forge health`: what is wrong with the index and how `--fix` repairs it.
//!
//! Two entries are duplicates when they have the same name; `--fix` keeps
//! the first entry of each name and removes the later ones.  An entry is stale when its
//! directory holds no `.wl`; `--fix` removes it.  The caller probes the
//! file system for each entry (see `EntryProbe`) and prints the lines.

use vstd::prelude::*;
use crate::index::{EntryView, ProjectEntry, entries_view};
use crate::text::{
    chars_of, decimal, format_u64, join, push_joined, push_str, str_eq, string_of, strings_contain,
};

verus! {

broadcast use crate::text::lemma_chars_deep_view;

// ---------------------------------------------------------------------------
// Duplicates
// ---------------------------------------------------------------------------

/// How many entries are named `n`.
pub open spec fn count_named(es: Seq<EntryView>, n: Seq<char>) -> nat
    decreases es.len(),
{
    if es.len() == 0 {
        0
    } else {
        count_named(es.drop_last(), n) + if es.last().name == n {
            1nat
        } else {
            0nat
        }
    }
}

/// The names of the entries, each once, in order of first appearance.
pub open spec fn first_names(es: Seq<EntryView>) -> Seq<Seq<char>>
    decreases es.len(),
{
    if es.len() == 0 {
        seq![]
    } else {
        let r = first_names(es.drop_last());
        if r.contains(es.last().name) {
            r
        } else {
            r.push(es.last().name)
        }
    }
}

/// Those of the names `ns` that more than one entry carries.
pub open spec fn shared_among(es: Seq<EntryView>, ns: Seq<Seq<char>>) -> Seq<Seq<char>>
    decreases ns.len(),
{
    if ns.len() == 0 {
        seq![]
    } else {
        let r = shared_among(es, ns.drop_last());
        if count_named(es, ns.last()) > 1 {
            r.push(ns.last())
        } else {
            r
        }
    }
}

/// The names carried by more than one entry, in order of first appearance.
pub open spec fn dup_names(es: Seq<EntryView>) -> Seq<Seq<char>> {
    shared_among(es, first_names(es))
}

/// The paths of the entries named `n`, in order.
pub open spec fn paths_named(es: Seq<EntryView>, n: Seq<char>) -> Seq<Seq<char>>
    decreases es.len(),
{
    if es.len() == 0 {
        seq![]
    } else {
        let r = paths_named(es.drop_last(), n);
        if es.last().name == n {
            r.push(es.last().path)
        } else {
            r
        }
    }
}

/// Some entry of `prefix` has the name of `e`.
pub open spec fn named_before(prefix: Seq<EntryView>, e: EntryView) -> bool {
    exists|j: int| 0 <= j < prefix.len() && (#[trigger] prefix[j]).name == e.name
}

/// The entries without duplicates: each entry that repeats the name of an
/// earlier one is left out.
pub open spec fn dedup(es: Seq<EntryView>) -> Seq<EntryView>
    decreases es.len(),
{
    if es.len() == 0 {
        seq![]
    } else {
        let r = dedup(es.drop_last());
        if named_before(es.drop_last(), es.last()) {
            r
        } else {
            r.push(es.last())
        }
    }
}

/// How many entries named `n` `dedup` leaves out.
pub open spec fn twins_named(es: Seq<EntryView>, n: Seq<char>) -> nat
    decreases es.len(),
{
    if es.len() == 0 {
        0
    } else {
        twins_named(es.drop_last(), n) + if es.last().name == n && named_before(
            es.drop_last(),
            es.last(),
        ) {
            1nat
        } else {
            0nat
        }
    }
}

/// The warning about the duplicated name `n`.
pub open spec fn dup_msg(es: Seq<EntryView>, n: Seq<char>) -> Seq<char> {
    "\u{26a0}\u{fe0f}  duplicate name \""@ + n + "\" ("@ + decimal(count_named(es, n))
        + " occurrences): "@ + join(paths_named(es, n), ", "@)
}

/// The fix recorded for the duplicated name `n`.
pub open spec fn dup_fix(es: Seq<EntryView>, n: Seq<char>) -> Seq<char> {
    "removed "@ + decimal(twins_named(es, n)) + " duplicate(s) of \""@ + n + "\""@
}

/// The lines printed about the duplicated names `ns`.
pub open spec fn dup_lines(es: Seq<EntryView>, ns: Seq<Seq<char>>, fix: bool) -> Seq<Seq<char>>
    decreases ns.len(),
{
    if ns.len() == 0 {
        seq![]
    } else {
        dup_lines(es, ns.drop_last(), fix) + seq![dup_msg(es, ns.last())] + if fix {
            seq!["\u{2705} fixed: "@ + dup_fix(es, ns.last())]
        } else {
            seq![]
        }
    }
}

fn count_named_exec(es: &Vec<ProjectEntry>, n: &str) -> (r: usize)
    ensures
        r == count_named(entries_view(es@), n@),
{
    let ghost ev = entries_view(es@);
    let mut c: usize = 0;
    let mut i: usize = 0;
    while i < es.len()
        invariant
            i <= es.len(),
            ev == entries_view(es@),
            c == count_named(ev.take(i as int), n@),
            c <= i,
        decreases es.len() - i,
    {
        assert(ev.take(i + 1).drop_last() =~= ev.take(i as int));
        assert(ev.take(i + 1).last() == es@[i as int]@);
        if str_eq(es[i].name.as_str(), n) {
            c += 1;
        }
        i += 1;
    }
    assert(ev.take(es.len() as int) =~= ev);
    c
}

fn first_names_exec(es: &Vec<ProjectEntry>) -> (r: Vec<String>)
    ensures
        r.deep_view() == first_names(entries_view(es@)),
{
    let ghost ev = entries_view(es@);
    let mut out: Vec<String> = Vec::new();
    let mut i: usize = 0;
    assert(ev.take(0) =~= Seq::<EntryView>::empty());
    while i < es.len()
        invariant
            i <= es.len(),
            ev == entries_view(es@),
            out.deep_view() == first_names(ev.take(i as int)),
        decreases es.len() - i,
    {
        assert(ev.take(i + 1).drop_last() =~= ev.take(i as int));
        assert(ev.take(i + 1).last() == es@[i as int]@);
        if !strings_contain(&out, es[i].name.as_str()) {
            let ghost before = out.deep_view();
            out.push(es[i].name.clone());
            assert(out.deep_view() =~= before.push(es@[i as int].name@));
        }
        i += 1;
    }
    assert(ev.take(es.len() as int) =~= ev);
    out
}

fn paths_named_exec(es: &Vec<ProjectEntry>, n: &str) -> (r: Vec<Vec<char>>)
    ensures
        r.deep_view() == paths_named(entries_view(es@), n@),
{
    let ghost ev = entries_view(es@);
    let mut out: Vec<Vec<char>> = Vec::new();
    let mut i: usize = 0;
    assert(ev.take(0) =~= Seq::<EntryView>::empty());
    while i < es.len()
        invariant
            i <= es.len(),
            ev == entries_view(es@),
            out.deep_view() == paths_named(ev.take(i as int), n@),
        decreases es.len() - i,
    {
        assert(ev.take(i + 1).drop_last() =~= ev.take(i as int));
        assert(ev.take(i + 1).last() == es@[i as int]@);
        if str_eq(es[i].name.as_str(), n) {
            crate::text::push_chars(&mut out, chars_of(es[i].path.as_str()));
        }
        i += 1;
    }
    assert(ev.take(es.len() as int) =~= ev);
    out
}

/// Whether one of the first `upto` entries has the name of entry `k`.
fn named_before_exec(es: &Vec<ProjectEntry>, upto: usize, k: usize) -> (r: bool)
    requires
        upto <= es.len(),
        k < es.len(),
    ensures
        r == named_before(entries_view(es@).take(upto as int), es@[k as int]@),
{
    let ghost ev = entries_view(es@);
    let ghost pre = ev.take(upto as int);
    let mut j: usize = 0;
    while j < upto
        invariant
            j <= upto <= es.len(),
            k < es.len(),
            ev == entries_view(es@),
            pre == ev.take(upto as int),
            forall|m: int|
                0 <= m < j ==> (#[trigger] pre[m]).name != es@[k as int]@.name,
        decreases upto - j,
    {
        assert(pre[j as int] == es@[j as int]@);
        if str_eq(es[j].name.as_str(), es[k].name.as_str()) {
            assert(pre[j as int].name == es@[k as int]@.name);
            return true;
        }
        j += 1;
    }
    false
}

fn dedup_exec(es: &Vec<ProjectEntry>) -> (r: Vec<ProjectEntry>)
    ensures
        entries_view(r@) == dedup(entries_view(es@)),
{
    let ghost ev = entries_view(es@);
    let mut out: Vec<ProjectEntry> = Vec::new();
    let mut i: usize = 0;
    assert(ev.take(0) =~= Seq::<EntryView>::empty());
    while i < es.len()
        invariant
            i <= es.len(),
            ev == entries_view(es@),
            entries_view(out@) == dedup(ev.take(i as int)),
        decreases es.len() - i,
    {
        assert(ev.take(i + 1).drop_last() =~= ev.take(i as int));
        assert(ev.take(i + 1).last() == es@[i as int]@);
        if !named_before_exec(es, i, i) {
            let ghost before = entries_view(out@);
            out.push(es[i].clone_entry());
            assert(entries_view(out@) =~= before.push(es@[i as int]@));
        }
        i += 1;
    }
    assert(ev.take(es.len() as int) =~= ev);
    out
}

fn twins_named_exec(es: &Vec<ProjectEntry>, n: &str) -> (r: usize)
    ensures
        r == twins_named(entries_view(es@), n@),
{
    let ghost ev = entries_view(es@);
    let mut c: usize = 0;
    let mut i: usize = 0;
    while i < es.len()
        invariant
            i <= es.len(),
            ev == entries_view(es@),
            c == twins_named(ev.take(i as int), n@),
            c <= i,
        decreases es.len() - i,
    {
        assert(ev.take(i + 1).drop_last() =~= ev.take(i as int));
        assert(ev.take(i + 1).last() == es@[i as int]@);
        if str_eq(es[i].name.as_str(), n) && named_before_exec(es, i, i) {
            c += 1;
        }
        i += 1;
    }
    assert(ev.take(es.len() as int) =~= ev);
    c
}

/// The entries whose `.wl` `forge health` checks: without duplicates when
/// fixing, else all of them.
pub open spec fn checked_entries(es: Seq<EntryView>, fix: bool) -> Seq<EntryView> {
    if fix {
        dedup(es)
    } else {
        es
    }
}

/// The entries that `forge health` goes on to probe (see
/// `checked_entries`).
pub fn entries_to_check(es: &Vec<ProjectEntry>, fix: bool) -> (r: Vec<ProjectEntry>)
    ensures
        entries_view(r@) == checked_entries(entries_view(es@), fix),
{
    if fix {
        dedup_exec(es)
    } else {
        let mut out: Vec<ProjectEntry> = Vec::new();
        let mut i: usize = 0;
        while i < es.len()
            invariant
                i <= es.len(),
                entries_view(out@) == entries_view(es@).take(i as int),
            decreases es.len() - i,
        {
            let ghost before = entries_view(out@);
            out.push(es[i].clone_entry());
            assert(entries_view(out@) =~= before.push(es@[i as int]@));
            assert(entries_view(es@).take(i + 1) =~= entries_view(es@).take(i as int).push(
                es@[i as int]@,
            ));
            i += 1;
        }
        assert(entries_view(es@).take(es.len() as int) =~= entries_view(es@));
        out
    }
}

// ---------------------------------------------------------------------------
// Entries
// ---------------------------------------------------------------------------

/// What the caller found out about an entry: whether its directory holds a
/// `.wl`; if so, whether that parsed (and whether its name is missing or
/// empty) or the parse error; and whether `.forge/state` is there.
#[derive(Debug)]
pub struct EntryProbe {
    pub wl_exists: bool,
    pub parsed: Result<bool, String>,
    pub state_exists: bool,
}

pub struct ProbeView {
    pub wl_exists: bool,
    pub parsed: Result<bool, Seq<char>>,
    pub state_exists: bool,
}

impl View for EntryProbe {
    type V = ProbeView;

    open spec fn view(&self) -> ProbeView {
        ProbeView {
            wl_exists: self.wl_exists,
            parsed: match self.parsed {
                Ok(b) => Ok(b),
                Err(m) => Err(m@),
            },
            state_exists: self.state_exists,
        }
    }
}

/// Whether a parsed `.wl` leaves the project's name unset: absent or
/// empty.
pub fn name_missing(wl: &crate::wl_parser::WlFile) -> (r: bool)
    ensures
        r == match wl@.name {
            Some(n) => n.len() == 0,
            None => true,
        },
{
    match &wl.name {
        Some(n) => n.as_str().is_empty(),
        None => true,
    }
}

pub open spec fn probes_view(v: Seq<EntryProbe>) -> Seq<ProbeView> {
    v.map_values(|p: EntryProbe| p@)
}

/// The lines printed for one entry, and the errors and warnings it counts.
pub open spec fn entry_report(e: EntryView, p: ProbeView) -> (Seq<Seq<char>>, nat, nat) {
    if !p.wl_exists {
        (
            seq!["\u{274c} project \""@ + e.name + "\": path "@ + e.path + " does not exist (stale entry)"@],
            1,
            0,
        )
    } else {
        match p.parsed {
            Ok(empty_name) => (
                seq!["\u{2705} \""@ + e.name + "\": .wl valid"@] + (if empty_name {
                    seq!["\u{26a0}\u{fe0f}  project at "@ + e.path + ": .wl has empty name field"@]
                } else {
                    seq![]
                }) + seq![
                    if p.state_exists {
                        "  \u{2705} .forge/state present"@
                    } else {
                        "  \u{26a0}\u{fe0f}  .forge/state missing (will be created on next edit)"@
                    },
                ],
                0,
                if empty_name {
                    1
                } else {
                    0
                },
            ),
            Err(m) => (
                seq!["\u{274c} project \""@ + e.name + "\": .wl syntax error \u{2014} "@ + m],
                1,
                0,
            ),
        }
    }
}

/// The lines, errors and warnings of all entries, in order.
pub open spec fn entries_report(es: Seq<EntryView>, ps: Seq<ProbeView>) -> (Seq<Seq<char>>, nat, nat)
    decreases es.len(),
{
    if es.len() == 0 || ps.len() == 0 {
        (seq![], 0, 0)
    } else {
        let r = entries_report(es.drop_last(), ps.drop_last());
        let x = entry_report(es.last(), ps.last());
        (r.0 + x.0, r.1 + x.1, r.2 + x.2)
    }
}

/// The names of the stale entries, in order.
pub open spec fn stale_names(es: Seq<EntryView>, ps: Seq<ProbeView>) -> Seq<Seq<char>>
    decreases es.len(),
{
    if es.len() == 0 || ps.len() == 0 {
        seq![]
    } else {
        let r = stale_names(es.drop_last(), ps.drop_last());
        if ps.last().wl_exists {
            r
        } else {
            r.push(es.last().name)
        }
    }
}

/// The entries that are not stale, in order.
pub open spec fn present(es: Seq<EntryView>, ps: Seq<ProbeView>) -> Seq<EntryView>
    decreases es.len(),
{
    if es.len() == 0 || ps.len() == 0 {
        seq![]
    } else {
        let r = present(es.drop_last(), ps.drop_last());
        if ps.last().wl_exists {
            r.push(es.last())
        } else {
            r
        }
    }
}

// ---------------------------------------------------------------------------
// The whole report
// ---------------------------------------------------------------------------

/// What `forge health` prints and does.
#[derive(Debug, Clone)]
pub struct HealthReport {
    /// The lines to print before the index is saved.
    pub lines: Vec<String>,
    /// Whether the fixed index is to be saved.
    pub save: bool,
    /// The lines to print once it is saved.
    pub after_save: Vec<String>,
    /// The index entries after the fixes.
    pub projects: Vec<ProjectEntry>,
    /// Whether errors were found (the command then exits with status 1).
    pub failed: bool,
}

pub struct HealthView {
    pub lines: Seq<Seq<char>>,
    pub save: bool,
    pub after_save: Seq<Seq<char>>,
    pub projects: Seq<EntryView>,
    pub failed: bool,
}

impl View for HealthReport {
    type V = HealthView;

    open spec fn view(&self) -> HealthView {
        HealthView {
            lines: self.lines.deep_view(),
            save: self.save,
            after_save: self.after_save.deep_view(),
            projects: entries_view(self.projects@),
            failed: self.failed,
        }
    }
}

/// The first line: how many projects the index holds.
pub open spec fn index_line(n: nat) -> Seq<char> {
    if n == 0 {
        "\u{26a0}\u{fe0f}  index is empty (no projects)"@
    } else {
        "\u{2705} index.json: "@ + decimal(n) + " projects"@
    }
}

/// The closing count of errors and warnings.
pub open spec fn summary_lines(errors: nat, warnings: nat) -> Seq<Seq<char>> {
    seq![seq![]] + if errors == 0 && warnings == 0 {
        seq!["\u{2705} no issues found"@]
    } else {
        (if errors > 0 {
            seq!["\u{274c} "@ + decimal(errors) + " error(s)"@]
        } else {
            seq![]
        }) + (if warnings > 0 {
            seq!["\u{26a0}\u{fe0f}  "@ + decimal(warnings) + " warning(s)"@]
        } else {
            seq![]
        })
    }
}

/// The whole report on the index entries `es`, given the probes `ps` of
/// the checked entries (`checked_entries(es, fix)`).
pub open spec fn health_spec(es: Seq<EntryView>, ps: Seq<ProbeView>, fix: bool) -> HealthView {
    let dups = dup_names(es);
    let ce = checked_entries(es, fix);
    let er = entries_report(ce, ps);
    let stale_rev = stale_names(ce, ps).reverse();
    let stale_lines = if fix {
        stale_rev.map_values(|n: Seq<char>| "\u{2705} removing stale entry \""@ + n + "\""@)
    } else {
        seq![]
    };
    let fixed = if fix {
        dups.map_values(|n: Seq<char>| dup_fix(es, n)) + stale_rev.map_values(
            |n: Seq<char>| "removed stale entry \""@ + n + "\""@,
        )
    } else {
        seq![]
    };
    let errors = er.1;
    let warnings = dups.len() + er.2;
    let save = fix && fixed.len() > 0;
    HealthView {
        lines: seq![index_line(es.len())] + dup_lines(es, dups, fix) + er.0 + stale_lines
            + summary_lines(errors, warnings) + if save {
            seq![seq![], "=== Fixes applied ==="@] + fixed.map_values(|f: Seq<char>| "  "@ + f)
        } else {
            seq![]
        },
        save,
        after_save: if save {
            seq![seq![], "\u{2705} index updated"@]
        } else {
            seq![]
        },
        projects: if fix {
            present(ce, ps)
        } else {
            es
        },
        failed: errors > 0,
    }
}

/// `a`, the decimal digits of `n`, then `b`.
fn num_line(a: &str, n: usize, b: &str) -> (v: Vec<char>)
    ensures
        v@ == a@ + decimal(n as nat) + b@,
{
    let mut v: Vec<char> = chars_of(a);
    let d = format_u64(n as u64);
    v.extend_from_slice(d.as_slice());
    push_str(&mut v, b);
    v
}

fn push_line(out: &mut Vec<String>, v: &Vec<char>)
    ensures
        final(out).deep_view() == old(out).deep_view().push(v@),
{
    let ghost before = out.deep_view();
    out.push(string_of(v.as_slice()));
    assert(out.deep_view() =~= before.push(v@));
}

fn dup_names_exec(es: &Vec<ProjectEntry>) -> (r: Vec<String>)
    ensures
        r.deep_view() == dup_names(entries_view(es@)),
{
    let ghost ev = entries_view(es@);
    let names = first_names_exec(es);
    let ghost nv = names.deep_view();
    let mut out: Vec<String> = Vec::new();
    let mut i: usize = 0;
    assert(nv.take(0) =~= Seq::<Seq<char>>::empty());
    while i < names.len()
        invariant
            i <= names.len(),
            ev == entries_view(es@),
            nv == names.deep_view(),
            out.deep_view() == shared_among(ev, nv.take(i as int)),
        decreases names.len() - i,
    {
        assert(nv.take(i + 1).drop_last() =~= nv.take(i as int));
        assert(nv.take(i + 1).last() == names@[i as int]@);
        if count_named_exec(es, names[i].as_str()) > 1 {
            let ghost before = out.deep_view();
            out.push(names[i].clone());
            assert(out.deep_view() =~= before.push(names@[i as int]@));
        }
        i += 1;
    }
    assert(nv.take(names.len() as int) =~= nv);
    out
}

fn dup_section(es: &Vec<ProjectEntry>, dups: &Vec<String>, fix: bool) -> (r: (Vec<String>, Vec<String>))
    ensures
        r.0.deep_view() == dup_lines(entries_view(es@), dups.deep_view(), fix),
        r.1.deep_view() == (if fix {
            dups.deep_view().map_values(|n: Seq<char>| dup_fix(entries_view(es@), n))
        } else {
            seq![]
        }),
{
    let ghost ev = entries_view(es@);
    let ghost dv = dups.deep_view();
    let mut lines: Vec<String> = Vec::new();
    let mut fixed: Vec<String> = Vec::new();
    let mut i: usize = 0;
    assert(dv.take(0) =~= Seq::<Seq<char>>::empty());
    while i < dups.len()
        invariant
            i <= dups.len(),
            ev == entries_view(es@),
            dv == dups.deep_view(),
            lines.deep_view() == dup_lines(ev, dv.take(i as int), fix),
            fixed.deep_view() == (if fix {
                dv.take(i as int).map_values(|n: Seq<char>| dup_fix(ev, n))
            } else {
                seq![]
            }),
        decreases dups.len() - i,
    {
        let n = dups[i].as_str();
        assert(dv.take(i + 1).drop_last() =~= dv.take(i as int));
        assert(dv.take(i + 1).last() == n@);
        let count = count_named_exec(es, n);
        let mut msg: Vec<char> = chars_of("\u{26a0}\u{fe0f}  duplicate name \"");
        push_str(&mut msg, n);
        let mid = num_line("\" (", count, " occurrences): ");
        msg.extend_from_slice(mid.as_slice());
        let paths = paths_named_exec(es, n);
        push_joined(&mut msg, &paths, ", ");
        assert(msg@ =~= dup_msg(ev, n@));
        let ghost lb = lines.deep_view();
        push_line(&mut lines, &msg);
        if fix {
            let removed = twins_named_exec(es, n);
            let mut f = num_line("removed ", removed, " duplicate(s) of \"");
            push_str(&mut f, n);
            push_str(&mut f, "\"");
            assert(f@ =~= dup_fix(ev, n@));
            let mut shown: Vec<char> = chars_of("\u{2705} fixed: ");
            shown.extend_from_slice(f.as_slice());
            assert(shown@ =~= "\u{2705} fixed: "@ + dup_fix(ev, n@));
            push_line(&mut lines, &shown);
            let ghost fb = fixed.deep_view();
            push_line(&mut fixed, &f);
            assert(dv.take(i + 1).map_values(|n: Seq<char>| dup_fix(ev, n)) =~= fb.push(f@));
        }
        assert(lines.deep_view() =~= lb + seq![dup_msg(ev, n@)] + if fix {
            seq!["\u{2705} fixed: "@ + dup_fix(ev, n@)]
        } else {
            seq![]
        });
        assert(lines.deep_view() =~= dup_lines(ev, dv.take(i + 1), fix));
        i += 1;
    }
    assert(dv.take(dups.len() as int) =~= dv);
    (lines, fixed)
}


fn append_lines(out: &mut Vec<String>, more: Vec<String>)
    ensures
        final(out).deep_view() == old(out).deep_view() + more.deep_view(),
{
    let ghost a = out.deep_view();
    let ghost b = more.deep_view();
    let mut m = more;
    out.append(&mut m);
    assert(out.deep_view() =~= a + b);
}

fn entry_section(ce: &Vec<ProjectEntry>, probes: &Vec<EntryProbe>) -> (r: (
    Vec<String>,
    usize,
    usize,
    Vec<String>,
    Vec<ProjectEntry>,
))
    requires
        probes.len() == ce.len(),
    ensures
        (r.0.deep_view(), r.1 as nat, r.2 as nat) == entries_report(
            entries_view(ce@),
            probes_view(probes@),
        ),
        r.3.deep_view() == stale_names(entries_view(ce@), probes_view(probes@)),
        entries_view(r.4@) == present(entries_view(ce@), probes_view(probes@)),
        r.2 <= ce.len(),
{
    let ghost ev = entries_view(ce@);
    let ghost pv = probes_view(probes@);
    let mut lines: Vec<String> = Vec::new();
    let mut errors: usize = 0;
    let mut warnings: usize = 0;
    let mut stale: Vec<String> = Vec::new();
    let mut kept: Vec<ProjectEntry> = Vec::new();
    let mut i: usize = 0;
    assert(ev.take(0) =~= Seq::<EntryView>::empty());
    assert(pv.take(0) =~= Seq::<ProbeView>::empty());
    while i < ce.len()
        invariant
            i <= ce.len(),
            probes.len() == ce.len(),
            ev == entries_view(ce@),
            pv == probes_view(probes@),
            (lines.deep_view(), errors as nat, warnings as nat) == entries_report(
                ev.take(i as int),
                pv.take(i as int),
            ),
            errors <= i,
            warnings <= i,
            stale.deep_view() == stale_names(ev.take(i as int), pv.take(i as int)),
            entries_view(kept@) == present(ev.take(i as int), pv.take(i as int)),
        decreases ce.len() - i,
    {
        assert(ev.take(i + 1).drop_last() =~= ev.take(i as int));
        assert(pv.take(i + 1).drop_last() =~= pv.take(i as int));
        assert(ev.take(i + 1).last() == ce@[i as int]@);
        assert(pv.take(i + 1).last() == probes@[i as int]@);
        let e = &ce[i];
        let p = &probes[i];
        let ghost x = entry_report(ce@[i as int]@, probes@[i as int]@);
        let ghost lb = lines.deep_view();
        if !p.wl_exists {
            let mut v: Vec<char> = chars_of("\u{274c} project \"");
            push_str(&mut v, e.name.as_str());
            push_str(&mut v, "\": path ");
            push_str(&mut v, e.path.as_str());
            push_str(&mut v, " does not exist (stale entry)");
            push_line(&mut lines, &v);
            errors += 1;
            let ghost sb = stale.deep_view();
            stale.push(e.name.clone());
            assert(stale.deep_view() =~= sb.push(e.name@));
            assert(lines.deep_view() =~= lb + x.0);
        } else {
            match &p.parsed {
                Ok(empty_name) => {
                    let mut v: Vec<char> = chars_of("\u{2705} \"");
                    push_str(&mut v, e.name.as_str());
                    push_str(&mut v, "\": .wl valid");
                    push_line(&mut lines, &v);
                    if *empty_name {
                        let mut w: Vec<char> = chars_of("\u{26a0}\u{fe0f}  project at ");
                        push_str(&mut w, e.path.as_str());
                        push_str(&mut w, ": .wl has empty name field");
                        push_line(&mut lines, &w);
                        warnings += 1;
                    }
                    let st = if p.state_exists {
                        chars_of("  \u{2705} .forge/state present")
                    } else {
                        chars_of("  \u{26a0}\u{fe0f}  .forge/state missing (will be created on next edit)")
                    };
                    push_line(&mut lines, &st);
                    assert(lines.deep_view() =~= lb + x.0);
                },
                Err(m) => {
                    let mut v: Vec<char> = chars_of("\u{274c} project \"");
                    push_str(&mut v, e.name.as_str());
                    push_str(&mut v, "\": .wl syntax error \u{2014} ");
                    push_str(&mut v, m.as_str());
                    push_line(&mut lines, &v);
                    errors += 1;
                    assert(lines.deep_view() =~= lb + x.0);
                },
            }
            let ghost kb = entries_view(kept@);
            kept.push(e.clone_entry());
            assert(entries_view(kept@) =~= kb.push(ce@[i as int]@));
        }
        i += 1;
    }
    assert(ev.take(ce.len() as int) =~= ev);
    assert(pv.take(ce.len() as int) =~= pv);
    (lines, errors, warnings, stale, kept)
}

/// The lines reporting the removal of the stale entries `stale` (last
/// first), and the fixes recorded for them.
fn stale_section(stale: &Vec<String>) -> (r: (Vec<String>, Vec<String>))
    ensures
        r.0.deep_view() == stale.deep_view().reverse().map_values(
            |n: Seq<char>| "\u{2705} removing stale entry \""@ + n + "\""@,
        ),
        r.1.deep_view() == stale.deep_view().reverse().map_values(
            |n: Seq<char>| "removed stale entry \""@ + n + "\""@,
        ),
{
    let ghost srev = stale.deep_view().reverse();
    let mut lines: Vec<String> = Vec::new();
    let mut fixed: Vec<String> = Vec::new();
    let mut j: usize = stale.len();
    assert(srev.take(0) =~= Seq::<Seq<char>>::empty());
    while j > 0
        invariant
            j <= stale.len(),
            srev == stale.deep_view().reverse(),
            lines.deep_view() == srev.take(stale.len() - j).map_values(
                |n: Seq<char>| "\u{2705} removing stale entry \""@ + n + "\""@,
            ),
            fixed.deep_view() == srev.take(stale.len() - j).map_values(
                |n: Seq<char>| "removed stale entry \""@ + n + "\""@,
            ),
        decreases j,
    {
        let n = stale[j - 1].as_str();
        let ghost k = stale.len() - j;
        assert(srev[k] == stale.deep_view()[j - 1]);
        assert(stale.deep_view()[j - 1] == n@);
        let mut a: Vec<char> = chars_of("\u{2705} removing stale entry \"");
        push_str(&mut a, n);
        push_str(&mut a, "\"");
        let mut b: Vec<char> = chars_of("removed stale entry \"");
        push_str(&mut b, n);
        push_str(&mut b, "\"");
        let ghost lb = lines.deep_view();
        let ghost fb = fixed.deep_view();
        push_line(&mut lines, &a);
        push_line(&mut fixed, &b);
        assert(srev.take(k + 1) =~= srev.take(k).push(n@));
        assert(lines.deep_view() =~= srev.take(k + 1).map_values(
            |n: Seq<char>| "\u{2705} removing stale entry \""@ + n + "\""@,
        ));
        assert(fixed.deep_view() =~= srev.take(k + 1).map_values(
            |n: Seq<char>| "removed stale entry \""@ + n + "\""@,
        ));
        j -= 1;
    }
    assert(srev.take(stale.len() as int) =~= srev);
    (lines, fixed)
}

fn summary_exec(errors: usize, warnings: usize) -> (r: Vec<String>)
    ensures
        r.deep_view() == summary_lines(errors as nat, warnings as nat),
{
    let mut lines: Vec<String> = Vec::new();
    push_line(&mut lines, &Vec::new());
    if errors == 0 && warnings == 0 {
        push_line(&mut lines, &chars_of("\u{2705} no issues found"));
    } else {
        if errors > 0 {
            push_line(&mut lines, &num_line("\u{274c} ", errors, " error(s)"));
        }
        if warnings > 0 {
            push_line(&mut lines, &num_line("\u{26a0}\u{fe0f}  ", warnings, " warning(s)"));
        }
    }
    assert(lines.deep_view() =~= summary_lines(errors as nat, warnings as nat));
    lines
}

fn fixes_exec(fixed: &Vec<String>) -> (r: Vec<String>)
    ensures
        r.deep_view() == seq![seq![], "=== Fixes applied ==="@] + fixed.deep_view().map_values(
            |f: Seq<char>| "  "@ + f,
        ),
{
    let mut lines: Vec<String> = Vec::new();
    push_line(&mut lines, &Vec::new());
    push_line(&mut lines, &chars_of("=== Fixes applied ==="));
    let ghost l1 = lines.deep_view();
    let ghost fv = fixed.deep_view();
    let mut k: usize = 0;
    assert(fv.take(0) =~= Seq::<Seq<char>>::empty());
    while k < fixed.len()
        invariant
            k <= fixed.len(),
            fv == fixed.deep_view(),
            lines.deep_view() == l1 + fv.take(k as int).map_values(|f: Seq<char>| "  "@ + f),
        decreases fixed.len() - k,
    {
        let mut v: Vec<char> = chars_of("  ");
        push_str(&mut v, fixed[k].as_str());
        assert(fv[k as int] == fixed@[k as int]@);
        push_line(&mut lines, &v);
        assert(fv.take(k + 1) =~= fv.take(k as int).push(fv[k as int]));
        assert(lines.deep_view() =~= l1 + fv.take(k + 1).map_values(|f: Seq<char>| "  "@ + f));
        k += 1;
    }
    assert(fv.take(fixed.len() as int) =~= fv);
    lines
}

proof fn lemma_first_names_len(es: Seq<EntryView>)
    ensures
        first_names(es).len() <= es.len(),
    decreases es.len(),
{
    if es.len() > 0 {
        lemma_first_names_len(es.drop_last());
    }
}

proof fn lemma_shared_len(es: Seq<EntryView>, ns: Seq<Seq<char>>)
    ensures
        shared_among(es, ns).len() <= ns.len(),
    decreases ns.len(),
{
    if ns.len() > 0 {
        lemma_shared_len(es, ns.drop_last());
    }
}

proof fn lemma_dedup_len(es: Seq<EntryView>)
    ensures
        dedup(es).len() <= es.len(),
    decreases es.len(),
{
    if es.len() > 0 {
        lemma_dedup_len(es.drop_last());
    }
}

/// The report of `forge health` on the index entries `es` (with `--fix`
/// when `fix`); `probes[i]` is what the caller found out about entry `i`
/// of `entries_to_check(es, fix)`.
pub fn health_report(es: &Vec<ProjectEntry>, probes: &Vec<EntryProbe>, fix: bool) -> (r: HealthReport)
    requires
        probes.len() == checked_entries(entries_view(es@), fix).len(),
        es.len() <= usize::MAX / 2,
    ensures
        r@ == health_spec(entries_view(es@), probes_view(probes@), fix),
{
    let ghost ev = entries_view(es@);
    let ghost pv = probes_view(probes@);
    let ghost spec = health_spec(ev, pv, fix);
    let mut lines: Vec<String> = Vec::new();
    let first = if es.len() == 0 {
        chars_of("\u{26a0}\u{fe0f}  index is empty (no projects)")
    } else {
        num_line("\u{2705} index.json: ", es.len(), " projects")
    };
    push_line(&mut lines, &first);
    let dups = dup_names_exec(es);
    let (dl, dfixed) = dup_section(es, &dups, fix);
    append_lines(&mut lines, dl);
    let ce = entries_to_check(es, fix);
    let (el, errors, ewarn, stale, kept) = entry_section(&ce, probes);
    append_lines(&mut lines, el);
    let mut fixed: Vec<String> = dfixed;
    if fix {
        let (sl, sf) = stale_section(&stale);
        append_lines(&mut lines, sl);
        append_lines(&mut fixed, sf);
    }
    proof {
        lemma_first_names_len(ev);
        lemma_shared_len(ev, first_names(ev));
        lemma_dedup_len(ev);
    }
    let warnings = dups.len() + ewarn;
    append_lines(&mut lines, summary_exec(errors, warnings));
    let save = fix && fixed.len() > 0;
    let mut after: Vec<String> = Vec::new();
    if save {
        append_lines(&mut lines, fixes_exec(&fixed));
        push_line(&mut after, &Vec::new());
        push_line(&mut after, &chars_of("\u{2705} index updated"));
    }
    let projects = if fix {
        kept
    } else {
        ce
    };
    let r = HealthReport { lines, save, after_save: after, projects, failed: errors > 0 };
    assert(r@.lines =~= spec.lines);
    assert(r@.after_save =~= spec.after_save);
    r
}


proof fn lemma_dedup_from(es: Seq<EntryView>)
    ensures
        forall|i: int| 0 <= i < dedup(es).len() ==> es.contains(#[trigger] dedup(es)[i]),
    decreases es.len(),
{
    if es.len() > 0 {
        let pre = es.drop_last();
        lemma_dedup_from(pre);
        assert forall|i: int| 0 <= i < dedup(es).len() implies es.contains(#[trigger] dedup(es)[i]) by {
            if i < dedup(pre).len() {
                assert(pre.contains(dedup(pre)[i]));
                let j = choose|j: int| 0 <= j < pre.len() && pre[j] == dedup(pre)[i];
                assert(es[j] == pre[j]);
            } else {
                assert(es[es.len() - 1] == es.last());
            }
        }
    }
}

/// After `--fix`, no two entries have the same name.
pub proof fn dedup_leaves_no_duplicates(es: Seq<EntryView>)
    ensures
        forall|i: int, j: int|
            0 <= i < j < dedup(es).len() ==> dedup(es)[i].name != dedup(es)[j].name,
    decreases es.len(),
{
    if es.len() > 0 {
        let pre = es.drop_last();
        dedup_leaves_no_duplicates(pre);
        lemma_dedup_from(pre);
        let d = dedup(es);
        let dp = dedup(pre);
        assert forall|i: int, j: int| 0 <= i < j < d.len() implies d[i].name != d[j].name by {
            if j == dp.len() && !named_before(pre, es.last()) {
                assert(d[j] == es.last());
                assert(d[i] == dp[i]);
                if d[i].name == d[j].name {
                    assert(pre.contains(dp[i]));
                    let k = choose|k: int| 0 <= k < pre.len() && pre[k] == dp[i];
                    assert(pre[k].name == es.last().name);
                    assert(named_before(pre, es.last()));
                }
            } else {
                assert(d[i] == dp[i]);
                assert(d[j] == dp[j]);
            }
        }
    }
}

/// `--fix` keeps the first entry of each name: an entry whose name no
/// earlier entry carries is kept.
pub proof fn dedup_keeps_firsts(es: Seq<EntryView>, i: int)
    requires
        0 <= i < es.len(),
        !named_before(es.take(i), es[i]),
    ensures
        dedup(es).contains(es[i]),
    decreases es.len(),
{
    let pre = es.drop_last();
    if i == es.len() - 1 {
        assert(es.take(i) =~= pre);
        assert(dedup(es).last() == es[i]);
    } else {
        assert(pre.take(i) =~= es.take(i));
        assert(pre[i] == es[i]);
        dedup_keeps_firsts(pre, i);
        let k = choose|k: int| 0 <= k < dedup(pre).len() && dedup(pre)[k] == es[i];
        assert(dedup(es)[k] == es[i]);
    }
}

proof fn lemma_first_names_contains(es: Seq<EntryView>, n: Seq<char>)
    ensures
        first_names(es).contains(n) <==> exists|j: int| 0 <= j < es.len() && (#[trigger] es[j]).name == n,
    decreases es.len(),
{
    if es.len() > 0 {
        let pre = es.drop_last();
        lemma_first_names_contains(pre, n);
        let r = first_names(pre);
        let f = first_names(es);
        let last = es.last();
        assert(es[es.len() - 1] == last);
        if f.contains(n) {
            let k = choose|k: int| 0 <= k < f.len() && f[k] == n;
            if k < r.len() {
                assert(f[k] == r[k]);
                assert(r.contains(n));
                let j = choose|j: int| 0 <= j < pre.len() && (#[trigger] pre[j]).name == n;
                assert(es[j] == pre[j]);
            } else {
                assert(last.name == n);
            }
        }
        if exists|j: int| 0 <= j < es.len() && (#[trigger] es[j]).name == n {
            let j = choose|j: int| 0 <= j < es.len() && (#[trigger] es[j]).name == n;
            if j < pre.len() {
                assert(pre[j] == es[j]);
            }
            if r.contains(n) {
                let k = choose|k: int| 0 <= k < r.len() && r[k] == n;
                assert(f[k] == r[k]);
                assert(f.contains(n));
            } else {
                assert(last.name == n);
                assert(f == r.push(n));
                assert(f[r.len() as int] == n);
                assert(f.contains(n));
            }
        }
    }
}

/// After `--fix`, one entry is left for each name, in the order in which
/// the names first appear: every later entry of a name is gone.
pub proof fn dedup_one_per_name(es: Seq<EntryView>)
    ensures
        dedup(es).map_values(|e: EntryView| e.name) == first_names(es),
    decreases es.len(),
{
    if es.len() > 0 {
        let pre = es.drop_last();
        dedup_one_per_name(pre);
        lemma_first_names_contains(pre, es.last().name);
        if named_before(pre, es.last()) {
            let j = choose|j: int| 0 <= j < pre.len() && (#[trigger] pre[j]).name == es.last().name;
            assert(first_names(pre).contains(es.last().name));
        } else {
            assert(dedup(es).map_values(|e: EntryView| e.name) =~= dedup(pre).map_values(
                |e: EntryView| e.name,
            ).push(es.last().name));
        }
    }
}

/// How many of the probed `.wl`s parsed with their name missing or empty.
pub open spec fn empty_name_count(ps: Seq<ProbeView>) -> nat
    decreases ps.len(),
{
    if ps.len() == 0 {
        0
    } else {
        empty_name_count(ps.drop_last()) + if ps.last().wl_exists && ps.last().parsed == Ok::<bool, Seq<char>>(true) {
            1nat
        } else {
            0nat
        }
    }
}

/// The warning for a project whose `.wl` leaves the name empty.
pub open spec fn empty_name_line(path: Seq<char>) -> Seq<char> {
    "\u{26a0}\u{fe0f}  project at "@ + path + ": .wl has empty name field"@
}

proof fn lemma_lines_concat_contains(a: Seq<Seq<char>>, b: Seq<Seq<char>>, x: Seq<char>)
    ensures
        a.contains(x) ==> (a + b).contains(x),
        b.contains(x) ==> (a + b).contains(x),
{
    if a.contains(x) {
        let i = choose|i: int| 0 <= i < a.len() && a[i] == x;
        assert((a + b)[i] == x);
    }
    if b.contains(x) {
        let i = choose|i: int| 0 <= i < b.len() && b[i] == x;
        assert((a + b)[a.len() + i] == x);
    }
}

proof fn lemma_entries_report_empty_names(es: Seq<EntryView>, ps: Seq<ProbeView>)
    requires
        es.len() == ps.len(),
    ensures
        entries_report(es, ps).2 == empty_name_count(ps),
        forall|i: int|
            0 <= i < es.len() && ps[i].wl_exists && ps[i].parsed == Ok::<bool, Seq<char>>(true)
                ==> entries_report(es, ps).0.contains(#[trigger] empty_name_line(es[i].path)),
    decreases es.len(),
{
    if es.len() > 0 {
        let e2 = es.drop_last();
        let p2 = ps.drop_last();
        lemma_entries_report_empty_names(e2, p2);
        let r = entries_report(e2, p2);
        let x = entry_report(es.last(), ps.last());
        assert forall|i: int|
            0 <= i < es.len() && ps[i].wl_exists && ps[i].parsed == Ok::<bool, Seq<char>>(true)
                implies entries_report(es, ps).0.contains(#[trigger] empty_name_line(es[i].path)) by {
            let l = empty_name_line(es[i].path);
            if i < es.len() - 1 {
                assert(e2[i] == es[i] && p2[i] == ps[i]);
                lemma_lines_concat_contains(r.0, x.0, l);
            } else {
                assert(es[i] == es.last() && ps[i] == ps.last());
                let head = seq!["\u{2705} \""@ + es.last().name + "\": .wl valid"@];
                let mid = seq![l];
                assert(mid[0] == l);
                lemma_lines_concat_contains(head, mid, l);
                let tail = seq![
                    if ps.last().state_exists {
                        "  \u{2705} .forge/state present"@
                    } else {
                        "  \u{26a0}\u{fe0f}  .forge/state missing (will be created on next edit)"@
                    },
                ];
                lemma_lines_concat_contains(head + mid, tail, l);
                assert(x.0 == head + mid + tail);
                lemma_lines_concat_contains(r.0, x.0, l);
            }
        }
    }
}

/// `forge health` warns about every checked project whose `.wl` parses
/// with its name missing or empty: the report holds the warning for that
/// project's path, and the warning count it closes with is the number of
/// duplicated names plus the number of such projects, so such a report
/// never closes with "no issues found".
pub proof fn health_warns_of_empty_names(es: Seq<EntryView>, ps: Seq<ProbeView>, fix: bool)
    requires
        ps.len() == checked_entries(es, fix).len(),
    ensures
        forall|i: int|
            0 <= i < ps.len() && ps[i].wl_exists && ps[i].parsed == Ok::<bool, Seq<char>>(true)
                ==> health_spec(es, ps, fix).lines.contains(
                #[trigger] empty_name_line(checked_entries(es, fix)[i].path),
            ),
        dup_names(es).len() + empty_name_count(ps) > 0 ==> health_spec(es, ps, fix).lines.contains(
            "\u{26a0}\u{fe0f}  "@ + decimal(dup_names(es).len() + empty_name_count(ps)) + " warning(s)"@,
        ),
{
    let ce = checked_entries(es, fix);
    lemma_entries_report_empty_names(ce, ps);
    let h = health_spec(es, ps, fix);
    let dups = dup_names(es);
    let er = entries_report(ce, ps);
    let stale_rev = stale_names(ce, ps).reverse();
    let stale_lines = if fix {
        stale_rev.map_values(|n: Seq<char>| "\u{2705} removing stale entry \""@ + n + "\""@)
    } else {
        seq![]
    };
    let fixed = if fix {
        dups.map_values(|n: Seq<char>| dup_fix(es, n)) + stale_rev.map_values(
            |n: Seq<char>| "removed stale entry \""@ + n + "\""@,
        )
    } else {
        seq![]
    };
    let save = fix && fixed.len() > 0;
    let a = seq![index_line(es.len())] + dup_lines(es, dups, fix);
    let sum = summary_lines(er.1, dups.len() + er.2);
    let tail = if save {
        seq![seq![], "=== Fixes applied ==="@] + fixed.map_values(|f: Seq<char>| "  "@ + f)
    } else {
        seq![]
    };
    assert(h.lines == a + er.0 + stale_lines + sum + tail);
    assert forall|i: int|
        0 <= i < ps.len() && ps[i].wl_exists && ps[i].parsed == Ok::<bool, Seq<char>>(true)
            implies h.lines.contains(#[trigger] empty_name_line(ce[i].path)) by {
        let l = empty_name_line(ce[i].path);
        lemma_lines_concat_contains(a, er.0, l);
        lemma_lines_concat_contains(a + er.0, stale_lines, l);
        lemma_lines_concat_contains(a + er.0 + stale_lines, sum, l);
        lemma_lines_concat_contains(a + er.0 + stale_lines + sum, tail, l);
    }
    let w = dups.len() + er.2;
    if w > 0 {
        let wl = "\u{26a0}\u{fe0f}  "@ + decimal(w) + " warning(s)"@;
        let e1: Seq<Seq<char>> = if er.1 > 0 {
            seq!["\u{274c} "@ + decimal(er.1) + " error(s)"@]
        } else {
            seq![]
        };
        let w1 = seq![wl];
        assert(w1[0] == wl);
        lemma_lines_concat_contains(e1, w1, wl);
        lemma_lines_concat_contains(seq![seq![]], e1 + w1, wl);
        assert(sum == seq![Seq::<char>::empty()] + (e1 + w1));
        lemma_lines_concat_contains(a + er.0 + stale_lines, sum, wl);
        lemma_lines_concat_contains(a + er.0 + stale_lines + sum, tail, wl);
    }
}

} // verus!
