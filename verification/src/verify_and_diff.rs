//! After a project's `.wl` was edited: bringing the index entry up to date
//! and saying what changed.
//!
//! The caller reads the `.wl` and the previous state, runs the setups of the
//! new includes (see `crate::applied_includes::plan_include_sync`), then
//! hands the outcome here; the index entry found by path gets the new name
//! and language when they changed (from a non-empty value), or a new entry
//! is added when there is none.

use vstd::prelude::*;
use crate::index::{EntryView, ProjectEntry, ProjectIndex, entries_view, first_at_path};
use crate::project_state::{ProjectState, StateView, changed_fields};
use crate::text::{chars_of, join, push_joined, push_str, string_of};

verus! {

broadcast use crate::text::lemma_chars_deep_view;

/// The name changed from a non-empty one.
pub open spec fn name_changed(prev: StateView, cur: StateView) -> bool {
    prev.name != cur.name && prev.name.len() != 0
}

/// The language changed from a non-empty one.
pub open spec fn lang_changed(prev: StateView, cur: StateView) -> bool {
    prev.lang != cur.lang && prev.lang.len() != 0
}

/// The index entries after the change.
pub open spec fn index_after_change(
    es: Seq<EntryView>,
    path: Seq<char>,
    prev: StateView,
    cur: StateView,
    added_at: Seq<char>,
) -> Seq<EntryView> {
    let i = first_at_path(es, path);
    if i < es.len() {
        let e = es[i];
        let e1 = if name_changed(prev, cur) { EntryView { name: cur.name, ..e } } else { e };
        let e2 = if lang_changed(prev, cur) { EntryView { lang: cur.lang, ..e1 } } else { e1 };
        es.update(i, e2)
    } else {
        es.push(
            EntryView {
                name: cur.name,
                lang: cur.lang,
                path: path,
                added_at: added_at,
                last_opened: None,
                open_count: 0,
            },
        )
    }
}

/// The messages printed about the change, each prefixed with
/// `"<project>: "`.
pub open spec fn change_messages(
    found: bool,
    pname: Seq<char>,
    prev: StateView,
    cur: StateView,
    new_includes: Seq<Seq<char>>,
) -> Seq<Seq<char>> {
    let p = pname + ": "@;
    let head: Seq<Seq<char>> = if found {
        (if name_changed(prev, cur) {
            seq![p + "name: \""@ + prev.name + "\" \u{2192} \""@ + cur.name + "\""@]
        } else {
            seq![]
        }) + (if lang_changed(prev, cur) {
            seq![p + "lang: \""@ + prev.lang + "\" \u{2192} \""@ + cur.lang + "\""@]
        } else {
            seq![]
        })
    } else {
        seq![p + "added to index"@]
    };
    let inc: Seq<Seq<char>> = if new_includes.len() > 0 {
        seq![p + "applied includes: "@ + join(new_includes, ", "@)]
    } else {
        seq![p + "no include changes"@]
    };
    let changed = changed_fields(prev, cur);
    let ch: Seq<Seq<char>> = if changed.len() > 0 {
        seq![p + "changed: "@ + join(changed, ", "@)]
    } else {
        seq![]
    };
    head + inc + ch
}

fn strings_to_chars(v: &Vec<String>) -> (r: Vec<Vec<char>>)
    ensures
        r.deep_view() == v.deep_view(),
{
    let mut out: Vec<Vec<char>> = Vec::new();
    let mut i: usize = 0;
    while i < v.len()
        invariant
            i <= v.len(),
            out.deep_view() == v.deep_view().take(i as int),
        decreases v.len() - i,
    {
        let ghost before = out.deep_view();
        crate::text::push_chars(&mut out, chars_of(v[i].as_str()));
        assert(v.deep_view().take(i + 1) =~= before.push(v@[i as int]@));
        i += 1;
    }
    assert(v.deep_view().take(v.len() as int) == v.deep_view());
    out
}

fn strs_to_chars(v: &Vec<&str>) -> (r: Vec<Vec<char>>)
    ensures
        r.deep_view() == v@.map_values(|s: &str| s@),
{
    let mut out: Vec<Vec<char>> = Vec::new();
    let mut i: usize = 0;
    while i < v.len()
        invariant
            i <= v.len(),
            out.deep_view() == v@.map_values(|s: &str| s@).take(i as int),
        decreases v.len() - i,
    {
        let ghost before = out.deep_view();
        crate::text::push_chars(&mut out, chars_of(v[i]));
        assert(v@.map_values(|s: &str| s@).take(i + 1) =~= before.push(v@[i as int]@));
        i += 1;
    }
    assert(v@.map_values(|s: &str| s@).take(v.len() as int) == v@.map_values(|s: &str| s@));
    out
}

/// Appends the line `"<project>: "` followed by `body`.
fn push_msg(msgs: &mut Vec<String>, pname: &str, body: &Vec<char>)
    ensures
        final(msgs).deep_view() == old(msgs).deep_view().push(pname@ + ": "@ + body@),
{
    let mut v: Vec<char> = chars_of(pname);
    push_str(&mut v, ": ");
    v.extend_from_slice(body.as_slice());
    let ghost before = msgs.deep_view();
    let line = string_of(v.as_slice());
    assert(line@ =~= pname@ + ": "@ + body@);
    msgs.push(line);
    assert(msgs@.last().deep_view() == pname@ + ": "@ + body@);
    assert(msgs.deep_view() =~= before.push(pname@ + ": "@ + body@));
}

/// `<lead>"<before>" → "<after>"`, where `lead` ends with the opening
/// quote.
fn change_line(lead: &str, before: &str, after: &str) -> (r: Vec<char>)
    ensures
        r@ == lead@ + before@ + "\" \u{2192} \""@ + after@ + "\""@,
{
    let mut v: Vec<char> = chars_of(lead);
    push_str(&mut v, before);
    push_str(&mut v, "\" \u{2192} \"");
    push_str(&mut v, after);
    push_str(&mut v, "\"");
    v
}

/// Brings the index entry at `project_path` up to date after its `.wl`
/// changed from `prev` to `cur`, or adds one (opened never, added at
/// `added_at`) when there is none; `new_includes` are the includes whose
/// setups were just run.  Returns the lines to print, in order.
pub fn record_wl_change(
    index: &mut ProjectIndex,
    project_path: &str,
    project_name: &str,
    prev: &ProjectState,
    cur: &ProjectState,
    added_at: String,
    new_includes: &Vec<String>,
) -> (msgs: Vec<String>)
    ensures
        final(index).version == old(index).version,
        final(index).sync_base == old(index).sync_base,
        entries_view(final(index).projects@) == index_after_change(
            entries_view(old(index).projects@),
            project_path@,
            prev@,
            cur@,
            added_at@,
        ),
        msgs.deep_view() == change_messages(
            first_at_path(entries_view(old(index).projects@), project_path@)
                < old(index).projects.len(),
            project_name@,
            prev@,
            cur@,
            new_includes.deep_view(),
        ),
{
    let ghost es = entries_view(index.projects@);
    let ghost p = project_name@ + ": "@;
    let name_ch = prev.name != cur.name && !prev.name.as_str().is_empty();
    let lang_ch = prev.lang != cur.lang && !prev.lang.as_str().is_empty();
    let mut msgs: Vec<String> = Vec::new();
    let pos = index.position_by_path(project_path);
    match pos {
        Some(i) => {
            let mut e = index.projects[i].clone_entry();
            if name_ch {
                let line = change_line("name: \"", prev.name.as_str(), cur.name.as_str());
                assert(project_name@ + ": "@ + line@ =~= p + "name: \""@ + prev.name@
                    + "\" \u{2192} \""@ + cur.name@ + "\""@);
                push_msg(&mut msgs, project_name, &line);
                e.name = cur.name.clone();
            }
            if lang_ch {
                let line = change_line("lang: \"", prev.lang.as_str(), cur.lang.as_str());
                assert(project_name@ + ": "@ + line@ =~= p + "lang: \""@ + prev.lang@
                    + "\" \u{2192} \""@ + cur.lang@ + "\""@);
                push_msg(&mut msgs, project_name, &line);
                e.lang = cur.lang.clone();
            }
            assert(msgs.deep_view() =~= (if name_ch {
                seq![p + "name: \""@ + prev.name@ + "\" \u{2192} \""@ + cur.name@ + "\""@]
            } else {
                seq![]
            }) + (if lang_ch {
                seq![p + "lang: \""@ + prev.lang@ + "\" \u{2192} \""@ + cur.lang@ + "\""@]
            } else {
                seq![]
            }));
            let ghost ev = e@;
            assert(es[i as int] == index.projects@[i as int]@);
            index.projects.set(i, e);
            assert(entries_view(index.projects@) =~= es.update(i as int, ev));
        },
        None => {
            let line = chars_of("added to index");
            push_msg(&mut msgs, project_name, &line);
            assert(msgs.deep_view() =~= seq![p + "added to index"@]);
            let ghost before = entries_view(index.projects@);
            index.projects.push(
                ProjectEntry {
                    name: cur.name.clone(),
                    lang: cur.lang.clone(),
                    path: project_path.to_owned(),
                    added_at,
                    last_opened: None,
                    open_count: 0,
                },
            );
            assert(entries_view(index.projects@) =~= before.push(index.projects@.last()@));
        },
    }
    let ghost head = msgs.deep_view();
    let ghost full = change_messages(
        first_at_path(es, project_path@) < es.len(),
        project_name@,
        prev@,
        cur@,
        new_includes.deep_view(),
    );
    assert(name_ch == name_changed(prev@, cur@));
    assert(lang_ch == lang_changed(prev@, cur@));
    if new_includes.len() > 0 {
        let mut line = chars_of("applied includes: ");
        let names = strings_to_chars(new_includes);
        push_joined(&mut line, &names, ", ");
        assert(project_name@ + ": "@ + line@ =~= p + "applied includes: "@ + join(new_includes.deep_view(), ", "@));
        push_msg(&mut msgs, project_name, &line);
        assert(msgs.deep_view() =~= head + seq![p + "applied includes: "@ + join(new_includes.deep_view(), ", "@)]);
    } else {
        let line = chars_of("no include changes");
        push_msg(&mut msgs, project_name, &line);
        assert(msgs.deep_view() =~= head + seq![p + "no include changes"@]);
    }
    let ghost mid = msgs.deep_view();

    let changed = prev.diff(cur);
    if changed.len() > 0 {
        let mut line = chars_of("changed: ");
        let names = strs_to_chars(&changed);
        push_joined(&mut line, &names, ", ");
        assert(project_name@ + ": "@ + line@ =~= p + "changed: "@ + join(changed_fields(prev@, cur@), ", "@));
        push_msg(&mut msgs, project_name, &line);
        assert(msgs.deep_view() =~= mid + seq![p + "changed: "@ + join(changed_fields(prev@, cur@), ", "@)]);
    } else {
        assert(msgs.deep_view() =~= mid + Seq::<Seq<char>>::empty());
    }
    assert(msgs.deep_view() =~= change_messages(
        first_at_path(es, project_path@) < es.len(),
        project_name@,
        prev@,
        cur@,
        new_includes.deep_view(),
    ));
    msgs
}

} // verus!
