//! The project index (`~/.forge/index.json`): where each project lives and
//! how often it was opened.  Paths are held as strings.

use vstd::prelude::*;
use crate::text::{chars_of, string_of};

verus! {

broadcast use crate::text::lemma_chars_deep_view;

/// One project of the index.
#[derive(Debug, Clone)]
pub struct ProjectEntry {
    pub name: String,
    pub lang: String,
    pub path: String,
    pub added_at: String,
    pub last_opened: Option<String>,
    pub open_count: u32,
}

/// The index of all projects.
#[derive(Debug, Clone)]
pub struct ProjectIndex {
    pub version: u32,
    pub sync_base: String,
    pub projects: Vec<ProjectEntry>,
}

pub struct EntryView {
    pub name: Seq<char>,
    pub lang: Seq<char>,
    pub path: Seq<char>,
    pub added_at: Seq<char>,
    pub last_opened: Option<Seq<char>>,
    pub open_count: u32,
}

impl View for ProjectEntry {
    type V = EntryView;

    open spec fn view(&self) -> EntryView {
        EntryView {
            name: self.name@,
            lang: self.lang@,
            path: self.path@,
            added_at: self.added_at@,
            last_opened: self.last_opened.deep_view(),
            open_count: self.open_count,
        }
    }
}

pub open spec fn entries_view(v: Seq<ProjectEntry>) -> Seq<EntryView> {
    v.map_values(|e: ProjectEntry| e@)
}

/// Index of the first entry named `name` (or the number of entries).
pub open spec fn first_named(es: Seq<EntryView>, name: Seq<char>) -> int
    decreases es.len(),
{
    if es.len() == 0 {
        0
    } else if es[0].name == name {
        0
    } else {
        1 + first_named(es.drop_first(), name)
    }
}

pub proof fn lemma_first_named(es: Seq<EntryView>, name: Seq<char>, r: int)
    requires
        0 <= r <= es.len(),
        forall|j: int| 0 <= j < r ==> es[j].name != name,
        r < es.len() ==> es[r].name == name,
    ensures
        first_named(es, name) == r,
    decreases es.len(),
{
    if es.len() > 0 && r > 0 {
        lemma_first_named(es.drop_first(), name, r - 1);
    }
}

/// Index of the first entry at the same path as `path` (or the number of
/// entries).
pub open spec fn first_at_path(es: Seq<EntryView>, path: Seq<char>) -> int
    decreases es.len(),
{
    if es.len() == 0 {
        0
    } else if crate::paths::same_path(es[0].path, path) {
        0
    } else {
        1 + first_at_path(es.drop_first(), path)
    }
}

pub proof fn lemma_first_at_path(es: Seq<EntryView>, path: Seq<char>, r: int)
    requires
        0 <= r <= es.len(),
        forall|j: int| 0 <= j < r ==> !crate::paths::same_path(es[j].path, path),
        r < es.len() ==> crate::paths::same_path(es[r].path, path),
    ensures
        first_at_path(es, path) == r,
    decreases es.len(),
{
    if es.len() > 0 && r > 0 {
        lemma_first_at_path(es.drop_first(), path, r - 1);
    }
}

/// The entries not named `name`, in order.
pub open spec fn without_name(es: Seq<EntryView>, name: Seq<char>) -> Seq<EntryView>
    decreases es.len(),
{
    if es.len() == 0 {
        seq![]
    } else {
        let rest = without_name(es.drop_last(), name);
        if es.last().name == name {
            rest
        } else {
            rest.push(es.last())
        }
    }
}

/// No entry that `without_name` keeps is named `name`.
pub proof fn lemma_without_name(es: Seq<EntryView>, name: Seq<char>)
    ensures
        forall|i: int| 0 <= i < without_name(es, name).len() ==> (#[trigger] without_name(es, name)[i]).name != name,
        without_name(es, name).len() <= es.len(),
    decreases es.len(),
{
    if es.len() > 0 {
        lemma_without_name(es.drop_last(), name);
    }
}

/// No two entries share a name.
pub open spec fn names_unique(es: Seq<EntryView>) -> bool {
    forall|i: int, j: int| 0 <= i < j < es.len() ==> es[i].name != es[j].name
}

impl ProjectIndex {
    /// An empty index (format version 3) for projects under `sync_base`.
    pub fn new(sync_base: String) -> (r: ProjectIndex)
        ensures
            r.version == 3,
            r.sync_base@ == sync_base@,
            r.projects.len() == 0,
    {
        ProjectIndex { version: 3, sync_base, projects: Vec::new() }
    }

    /// Position of the first project named `name`.
    pub fn find(&self, name: &str) -> (r: Option<usize>)
        ensures
            r matches Some(i) ==> i < self.projects.len() && i == first_named(
                entries_view(self.projects@),
                name@,
            ),
            r is None ==> forall|j: int|
                0 <= j < self.projects.len() ==> (#[trigger] self.projects@[j]).name@ != name@,
    {
        let ghost es = entries_view(self.projects@);
        let mut i: usize = 0;
        while i < self.projects.len()
            invariant
                i <= self.projects.len(),
                es == entries_view(self.projects@),
                forall|j: int| 0 <= j < i ==> (#[trigger] self.projects@[j]).name@ != name@,
            decreases self.projects.len() - i,
        {
            if crate::text::str_eq(self.projects[i].name.as_str(), name) {
                proof {
                    assert forall|j: int| 0 <= j < i implies es[j].name != name@ by {
                        assert(es[j] == self.projects@[j]@);
                    }
                    lemma_first_named(es, name@, i as int);
                }
                return Some(i);
            }
            i += 1;
        }
        None
    }

    /// Position of the first project whose path is the same path as `path`
    /// (see `crate::paths::same_path`).
    pub fn position_by_path(&self, path: &str) -> (r: Option<usize>)
        ensures
            r matches Some(i) ==> i == first_at_path(entries_view(self.projects@), path@),
            r is None ==> first_at_path(entries_view(self.projects@), path@) == self.projects.len(),
            r matches Some(i) ==> i < self.projects.len() && crate::paths::same_path(
                self.projects@[i as int].path@,
                path@,
            ) && forall|j: int|
                0 <= j < i ==> !crate::paths::same_path(
                    (#[trigger] self.projects@[j]).path@,
                    path@,
                ),
            r is None ==> forall|j: int|
                0 <= j < self.projects.len() ==> !crate::paths::same_path(
                    (#[trigger] self.projects@[j]).path@,
                    path@,
                ),
    {
        let mut i: usize = 0;
        while i < self.projects.len()
            invariant
                i <= self.projects.len(),
                forall|j: int|
                    0 <= j < i ==> !crate::paths::same_path(
                        (#[trigger] self.projects@[j]).path@,
                        path@,
                    ),
            decreases self.projects.len() - i,
        {
            if crate::paths::paths_equal(self.projects[i].path.as_str(), path) {
                proof {
                    let es = entries_view(self.projects@);
                    assert forall|j: int| 0 <= j < i implies !crate::paths::same_path(es[j].path, path@) by {
                        assert(es[j] == self.projects@[j]@);
                    }
                    lemma_first_at_path(es, path@, i as int);
                }
                return Some(i);
            }
            i += 1;
        }
        proof {
            let es = entries_view(self.projects@);
            assert forall|j: int| 0 <= j < es.len() implies !crate::paths::same_path(es[j].path, path@) by {
                assert(es[j] == self.projects@[j]@);
            }
            lemma_first_at_path(es, path@, es.len() as int);
        }
        None
    }

    /// Removes every project named `name`; whether any was removed.
    pub fn remove_named(&mut self, name: &str) -> (removed: bool)
        ensures
            entries_view(final(self).projects@) == without_name(
                entries_view(old(self).projects@),
                name@,
            ),
            removed == (final(self).projects.len() != old(self).projects.len()),
            final(self).version == old(self).version,
            final(self).sync_base == old(self).sync_base,
            forall|j: int|
                0 <= j < final(self).projects.len() ==> (#[trigger] final(self).projects@[j]).name@
                    != name@,
    {
        let ghost es = entries_view(self.projects@);
        let mut kept: Vec<ProjectEntry> = Vec::new();
        let old_len = self.projects.len();
        let mut i: usize = 0;
        assert(es.take(0) =~= Seq::<EntryView>::empty());
        assert(entries_view(kept@) =~= Seq::<EntryView>::empty());
        while i < self.projects.len()
            invariant
                i <= self.projects.len(),
                old_len == self.projects.len(),
                es == entries_view(self.projects@),
                entries_view(kept@) == without_name(es.take(i as int), name@),
                kept.len() <= i,
            decreases self.projects.len() - i,
        {
            assert(es.take(i + 1).drop_last() == es.take(i as int));
            assert(es.take(i + 1).last() == self.projects@[i as int]@);
            if !crate::text::str_eq(self.projects[i].name.as_str(), name) {
                let ghost before = entries_view(kept@);
                kept.push(self.projects[i].clone_entry());
                assert(entries_view(kept@) =~= before.push(self.projects@[i as int]@));
            }
            i += 1;
        }
        assert(es.take(old_len as int) == es);
        proof {
            lemma_without_name(es, name@);
            assert forall|j: int| 0 <= j < kept.len() implies (#[trigger] kept@[j]).name@ != name@ by {
                assert(entries_view(kept@)[j] == kept@[j]@);
            }
        }
        let removed = kept.len() != old_len;
        self.projects = kept;
        removed
    }

    /// Records that the first project named `name` was opened at `now`: its
    /// last-opened time becomes `now` and its open count grows by one.
    pub fn mark_opened(&mut self, name: &str, now: String)
        requires
            forall|j: int|
                0 <= j < old(self).projects.len() && (#[trigger] old(self).projects@[j]).name@
                    == name@ ==> old(self).projects@[j].open_count < u32::MAX,
        ensures
            final(self).version == old(self).version,
            final(self).sync_base == old(self).sync_base,
            final(self).projects.len() == old(self).projects.len(),
            ({
                let es = entries_view(old(self).projects@);
                let i = first_named(es, name@);
                entries_view(final(self).projects@) == if i < es.len() {
                    es.update(
                        i,
                        EntryView {
                            last_opened: Some(now@),
                            open_count: (es[i].open_count + 1) as u32,
                            ..es[i]
                        },
                    )
                } else {
                    es
                }
            }),
    {
        let ghost es = entries_view(self.projects@);
        match self.find(name) {
            Some(i) => {
                let mut e = self.projects[i].clone_entry();
                assert(self.projects@[i as int].name@ == name@) by {
                    lemma_first_named_hit(es, name@);
                    assert(es[i as int] == self.projects@[i as int]@);
                }
                e.last_opened = Some(now);
                e.open_count = e.open_count + 1;
                let ghost ev = e@;
                self.projects.set(i, e);
                assert(entries_view(self.projects@) =~= es.update(i as int, ev));
            },
            None => {
                proof {
                    assert forall|j: int| 0 <= j < es.len() implies es[j].name != name@ by {
                        assert(es[j] == self.projects@[j]@);
                    }
                    lemma_first_named(es, name@, es.len() as int);
                }
            },
        }
    }

    /// Adds a project with no recorded opening, unless one with the same
    /// name is already there; whether it was added.
    pub fn add_if_absent(&mut self, name: &str, lang: &str, path: &str, added_at: String) -> (added: bool)
        ensures
            final(self).version == old(self).version,
            final(self).sync_base == old(self).sync_base,
            added == forall|j: int|
                0 <= j < old(self).projects.len() ==> (#[trigger] old(self).projects@[j]).name@
                    != name@,
            added ==> entries_view(final(self).projects@) == entries_view(old(self).projects@).push(
                EntryView {
                    name: name@,
                    lang: lang@,
                    path: path@,
                    added_at: added_at@,
                    last_opened: None,
                    open_count: 0,
                },
            ),
            !added ==> final(self).projects@ == old(self).projects@,
            names_unique(entries_view(old(self).projects@)) ==> names_unique(
                entries_view(final(self).projects@),
            ),
    {
        let ghost es = entries_view(self.projects@);
        match self.find(name) {
            Some(i) => {
                proof {
                    lemma_first_named_hit(es, name@);
                    assert(es[i as int] == self.projects@[i as int]@);
                }
                return false;
            },
            None => {},
        }
        let ghost before = entries_view(self.projects@);
        self.projects.push(
            ProjectEntry {
                name: name.to_owned(),
                lang: lang.to_owned(),
                path: path.to_owned(),
                added_at,
                last_opened: None,
                open_count: 0,
            },
        );
        assert(entries_view(self.projects@) =~= before.push(self.projects@.last()@));
        proof {
            let after = entries_view(self.projects@);
            if names_unique(before) {
                assert forall|i: int, j: int| 0 <= i < j < after.len() implies after[i].name
                    != after[j].name by {
                    if j == after.len() - 1 {
                        assert(before[i] == old(self).projects@[i]@);
                    }
                }
            }
        }
        true
    }
}

pub proof fn lemma_first_named_hit(es: Seq<EntryView>, name: Seq<char>)
    ensures
        0 <= first_named(es, name) <= es.len(),
        first_named(es, name) < es.len() ==> es[first_named(es, name)].name == name,
    decreases es.len(),
{
    if es.len() > 0 && es[0].name != name {
        lemma_first_named_hit(es.drop_first(), name);
    }
}

impl ProjectEntry {
    /// A copy of the entry.
    pub fn clone_entry(&self) -> (r: ProjectEntry)
        ensures
            r@ == self@,
    {
        ProjectEntry {
            name: self.name.clone(),
            lang: self.lang.clone(),
            path: self.path.clone(),
            added_at: self.added_at.clone(),
            last_opened: match &self.last_opened {
                Some(s) => Some(s.clone()),
                None => None,
            },
            open_count: self.open_count,
        }
    }
}


/// Where `load_index` takes the index from.
#[derive(Debug, Clone, Copy, PartialEq, Eq, Structural)]
pub enum IndexSource {
    /// The index file.
    Current,
    /// The index file of the old location (`~/.forge-index.json`), which is
    /// then moved to the current one.
    Old,
    /// Neither exists: a fresh index (see `fresh_index`).
    Fresh,
}

/// Where the index is read from, given which index files exist.
pub fn load_index(current_exists: bool, old_exists: bool) -> (r: IndexSource)
    ensures
        current_exists ==> r == IndexSource::Current,
        !current_exists && old_exists ==> r == IndexSource::Old,
        !current_exists && !old_exists ==> r == IndexSource::Fresh,
{
    if current_exists {
        IndexSource::Current
    } else if old_exists {
        IndexSource::Old
    } else {
        IndexSource::Fresh
    }
}

/// The index used when there is none yet: empty, for projects under
/// `<home>/sync` (`sync` when the home directory is unknown).
pub fn fresh_index(home: Option<&str>) -> (r: ProjectIndex)
    ensures
        r.version == 3,
        r.projects.len() == 0,
        r.sync_base@ == crate::paths::path_join(
            match home {
                Some(h) => h@,
                None => seq![],
            },
            "sync"@,
        ),
{
    let base = match home {
        Some(h) => crate::paths::join(h, "sync"),
        None => {
            proof {
                reveal_strlit("");
            }
            crate::paths::join("", "sync")
        },
    };
    ProjectIndex::new(base)
}

} // verus!
