//! `forge sync`: rebuilding the index from the `.wl` files found under the
//! sync base, and the records of the language and include catalogues
//! (`langs.json`, `includes.json`).  Walking directories and writing JSON is
//! left to the caller.

use vstd::prelude::*;
use crate::index::{EntryView, ProjectEntry, entries_view};
use crate::paths::{join, path_join};
use crate::text::{
    chars_of, decimal, format_u64, lines, lines_of, push_str, starts_with, str_eq, string_of, trim,
    trim_chars,
};
use crate::wl_parser::{
    Language, LanguageView, array_would_panic, is_lone_quote, json_array_would_panic, lone_quote,
    match_key_value, match_kv, parse_json_array, parse_json_array_spec, strip_quotes,
    strip_quotes_spec,
};

verus! {

broadcast use crate::text::lemma_chars_deep_view;

// ---------------------------------------------------------------------------
// The project index
// ---------------------------------------------------------------------------

/// A `.wl` found under the sync base: its `name` and `lang` fields, and the
/// directory holding it.
#[derive(Debug, Clone)]
pub struct FoundProject {
    pub name: Option<String>,
    pub lang: Option<String>,
    pub dir_name: String,
    pub path: String,
}

pub struct FoundView {
    pub name: Option<Seq<char>>,
    pub lang: Option<Seq<char>>,
    pub dir_name: Seq<char>,
    pub path: Seq<char>,
}

impl View for FoundProject {
    type V = FoundView;

    open spec fn view(&self) -> FoundView {
        FoundView {
            name: self.name.deep_view(),
            lang: self.lang.deep_view(),
            dir_name: self.dir_name@,
            path: self.path@,
        }
    }
}

pub open spec fn found_view(v: Seq<FoundProject>) -> Seq<FoundView> {
    v.map_values(|f: FoundProject| f@)
}

/// A found project's name: its `name` field, else its directory's name.
pub open spec fn found_name(f: FoundView) -> Seq<char> {
    match f.name {
        Some(n) => n,
        None => f.dir_name,
    }
}

/// A found project's language: its `lang` field, else `txt`.
pub open spec fn found_lang(f: FoundView) -> Seq<char> {
    match f.lang {
        Some(l) => l,
        None => "txt"@,
    }
}

/// The last-opened time and open count that the index kept for `name`:
/// those of the last entry of that name whose directory still holds a
/// `.wl` (`alive`), else none and zero.
pub open spec fn kept_state(es: Seq<EntryView>, alive: Seq<bool>, name: Seq<char>) -> (
    Option<Seq<char>>,
    u32,
)
    decreases es.len(),
{
    if es.len() == 0 || alive.len() == 0 {
        (None, 0)
    } else if alive.last() && es.last().name == name {
        (es.last().last_opened, es.last().open_count)
    } else {
        kept_state(es.drop_last(), alive.drop_last(), name)
    }
}

/// The index entry of a found project.
pub open spec fn rebuilt_entry(
    es: Seq<EntryView>,
    alive: Seq<bool>,
    f: FoundView,
    now: Seq<char>,
) -> EntryView {
    let n = found_name(f);
    let st = kept_state(es, alive, n);
    EntryView {
        name: n,
        lang: found_lang(f),
        path: f.path,
        added_at: now,
        last_opened: st.0,
        open_count: st.1,
    }
}

/// The index after a sync: one entry per found project, in the order found.
pub open spec fn rebuilt_entries(
    es: Seq<EntryView>,
    alive: Seq<bool>,
    found: Seq<FoundView>,
    now: Seq<char>,
) -> Seq<EntryView> {
    found.map_values(|f: FoundView| rebuilt_entry(es, alive, f, now))
}

/// The lines reporting the entries whose directory lost its `.wl`.
pub open spec fn stale_lines(es: Seq<EntryView>, alive: Seq<bool>) -> Seq<Seq<char>>
    decreases es.len(),
{
    if es.len() == 0 || alive.len() == 0 {
        seq![]
    } else {
        let rest = stale_lines(es.drop_last(), alive.drop_last());
        if alive.last() {
            rest
        } else {
            rest.push("removed: "@ + es.last().name + " (directory gone)"@)
        }
    }
}

fn kept_state_exec(es: &Vec<ProjectEntry>, alive: &Vec<bool>, name: &str) -> (r: (Option<String>, u32))
    requires
        alive.len() == es.len(),
    ensures
        (r.0.deep_view(), r.1) == kept_state(entries_view(es@), alive@, name@),
{
    let ghost ev = entries_view(es@);
    let mut i: usize = es.len();
    assert(ev.take(i as int) =~= ev);
    assert(alive@.take(i as int) =~= alive@);
    while i > 0
        invariant
            i <= es.len(),
            alive.len() == es.len(),
            ev == entries_view(es@),
            kept_state(ev, alive@, name@) == kept_state(ev.take(i as int), alive@.take(i as int), name@),
        decreases i,
    {
        let ghost t = ev.take(i as int);
        let ghost a = alive@.take(i as int);
        assert(t.drop_last() =~= ev.take(i - 1));
        assert(a.drop_last() =~= alive@.take(i - 1));
        assert(t.last() == es@[i - 1]@);
        if alive[i - 1] && str_eq(es[i - 1].name.as_str(), name) {
            let e = &es[i - 1];
            let lo = match &e.last_opened {
                Some(s) => Some(s.clone()),
                None => None,
            };
            return (lo, e.open_count);
        }
        i -= 1;
    }
    (None, 0)
}

/// Rebuilds the index entries from the `.wl`s found by the scan.
/// `alive[i]` says whether entry `i` of the old index still has a `.wl`;
/// `now` is the time recorded as the entries' `added_at`.
pub fn rebuild_entries(
    old: &Vec<ProjectEntry>,
    alive: &Vec<bool>,
    found: &Vec<FoundProject>,
    now: &str,
) -> (r: Vec<ProjectEntry>)
    requires
        alive.len() == old.len(),
    ensures
        entries_view(r@) == rebuilt_entries(entries_view(old@), alive@, found_view(found@), now@),
{
    let ghost es = entries_view(old@);
    let ghost fv = found_view(found@);
    let mut out: Vec<ProjectEntry> = Vec::new();
    let mut i: usize = 0;
    while i < found.len()
        invariant
            i <= found.len(),
            alive.len() == old.len(),
            es == entries_view(old@),
            fv == found_view(found@),
            entries_view(out@) == rebuilt_entries(es, alive@, fv.take(i as int), now@),
        decreases found.len() - i,
    {
        let f = &found[i];
        let name = match &f.name {
            Some(n) => n.clone(),
            None => f.dir_name.clone(),
        };
        let lang = match &f.lang {
            Some(l) => l.clone(),
            None => "txt".to_owned(),
        };
        let (lo, oc) = kept_state_exec(old, alive, name.as_str());
        let ghost before = entries_view(out@);
        out.push(
            ProjectEntry {
                name,
                lang,
                path: f.path.clone(),
                added_at: now.to_owned(),
                last_opened: lo,
                open_count: oc,
            },
        );
        assert(fv[i as int] == found@[i as int]@);
        assert(entries_view(out@) =~= before.push(rebuilt_entry(es, alive@, fv[i as int], now@)));
        assert(fv.take(i + 1) =~= fv.take(i as int).push(fv[i as int]));
        assert(rebuilt_entries(es, alive@, fv.take(i + 1), now@) =~= rebuilt_entries(
            es,
            alive@,
            fv.take(i as int),
            now@,
        ).push(rebuilt_entry(es, alive@, fv[i as int], now@)));
        i += 1;
    }
    assert(fv.take(found.len() as int) =~= fv);
    out
}

/// The lines `sync` prints for the entries whose directory lost its `.wl`.
pub fn stale_entry_lines(old: &Vec<ProjectEntry>, alive: &Vec<bool>) -> (r: Vec<String>)
    requires
        alive.len() == old.len(),
    ensures
        r.deep_view() == stale_lines(entries_view(old@), alive@),
{
    let ghost es = entries_view(old@);
    let mut out: Vec<String> = Vec::new();
    let mut i: usize = 0;
    while i < old.len()
        invariant
            i <= old.len(),
            alive.len() == old.len(),
            es == entries_view(old@),
            out.deep_view() == stale_lines(es.take(i as int), alive@.take(i as int)),
        decreases old.len() - i,
    {
        assert(es.take(i + 1).drop_last() =~= es.take(i as int));
        assert(alive@.take(i + 1).drop_last() =~= alive@.take(i as int));
        assert(es.take(i + 1).last() == old@[i as int]@);
        if !alive[i] {
            let mut v: Vec<char> = chars_of("removed: ");
            push_str(&mut v, old[i].name.as_str());
            push_str(&mut v, " (directory gone)");
            let ghost before = out.deep_view();
            out.push(string_of(v.as_slice()));
            assert(out.deep_view() =~= before.push(v@));
        }
        i += 1;
    }
    assert(es.take(old.len() as int) =~= es);
    assert(alive@.take(old.len() as int) =~= alive@);
    out
}

/// `<label><n><tail>`.
pub fn count_line(label: &str, n: u64, tail: &str) -> (r: String)
    ensures
        r@ == label@ + decimal(n as nat) + tail@,
{
    let mut v: Vec<char> = chars_of(label);
    let d = format_u64(n);
    v.extend_from_slice(d.as_slice());
    push_str(&mut v, tail);
    string_of(v.as_slice())
}

/// The summary `sync` prints: `synced <n> projects (removed <k>)`.
pub fn sync_summary(synced: u64, removed: u64) -> (r: String)
    ensures
        r@ == "synced "@ + decimal(synced as nat) + " projects (removed "@ + decimal(removed as nat)
            + ")"@,
{
    let mut v: Vec<char> = chars_of("synced ");
    let a = format_u64(synced);
    v.extend_from_slice(a.as_slice());
    push_str(&mut v, " projects (removed ");
    let b = format_u64(removed);
    v.extend_from_slice(b.as_slice());
    push_str(&mut v, ")");
    string_of(v.as_slice())
}

// ---------------------------------------------------------------------------
// The include catalogue
// ---------------------------------------------------------------------------

/// What one line of an `include.wl` contributes to the catalogue record
/// (the description so far, the raw `provides` value so far); `None` when
/// the description is a lone quote, which `strip_quotes` cannot cut.
/// Lines that are blank, comments or not `key = value` are skipped.
pub open spec fn catalog_step(st: Option<(Seq<char>, Seq<char>)>, line: Seq<char>) -> Option<
    (Seq<char>, Seq<char>),
> {
    match st {
        None => None,
        Some((d, p)) => {
            let t = trim(line);
            if t.len() == 0 || starts_with(t, '#') {
                st
            } else {
                match match_kv(t) {
                    None => st,
                    Some((k, raw)) => if k == "description"@ {
                        if lone_quote(raw) {
                            None
                        } else {
                            Some((strip_quotes_spec(raw), p))
                        }
                    } else if k == "provides"@ {
                        Some((d, raw))
                    } else {
                        st
                    },
                }
            }
        },
    }
}

pub open spec fn catalog_scan(ls: Seq<Seq<char>>) -> Option<(Seq<char>, Seq<char>)>
    decreases ls.len(),
{
    if ls.len() == 0 {
        Some((seq![], seq![]))
    } else {
        catalog_step(catalog_scan(ls.drop_last()), ls.last())
    }
}

/// The description and the provided features that the include catalogue
/// records for an `include.wl` (the last `description` and `provides`
/// win); `None` when reading it would cut a lone quote.
pub open spec fn include_info_spec(content: Seq<char>) -> Option<(Seq<char>, Seq<Seq<char>>)> {
    match catalog_scan(lines(content)) {
        None => None,
        Some((d, p)) => if array_would_panic(p) {
            None
        } else {
            Some((d, parse_json_array_spec(p)))
        },
    }
}

/// Whether reading `content` for the catalogue has no result (see
/// `include_info_spec`).
pub fn include_info_would_panic(content: &str) -> (r: bool)
    ensures
        r == include_info_spec(content@) is None,
{
    match scan_catalog(content) {
        None => true,
        Some((_d, p)) => json_array_would_panic(p.as_slice()),
    }
}

fn scan_catalog(content: &str) -> (r: Option<(Vec<char>, Vec<char>)>)
    ensures
        r.deep_view() == catalog_scan(lines(content@)),
{
    let c = chars_of(content);
    let ls = lines_of(c.as_slice());
    let ghost lv = ls.deep_view();
    let mut desc: Vec<char> = Vec::new();
    let mut prov: Vec<char> = Vec::new();
    let mut i: usize = 0;
    assert(lv.take(0) =~= Seq::<Seq<char>>::empty());
    while i < ls.len()
        invariant
            i <= ls.len(),
            lv == ls.deep_view(),
            lv == lines(content@),
            catalog_scan(lv.take(i as int)) == Some((desc@, prov@)),
        decreases ls.len() - i,
    {
        assert(lv.take(i + 1).drop_last() =~= lv.take(i as int));
        assert(lv.take(i + 1).last() == ls@[i as int]@);
        let t = trim_chars(ls[i].as_slice());
        if t.len() == 0 || t[0] == '#' {
        } else {
            match match_key_value(t.as_slice()) {
                None => {},
                Some((k, raw)) => {
                    if str_eq(string_of(k.as_slice()).as_str(), "description") {
                        if is_lone_quote(raw.as_slice()) {
                            assert(catalog_scan(lv.take(i + 1)) is None);
                            proof {
                                lemma_catalog_none(lv, i as int + 1);
                            }
                            assert(lv.take(ls.len() as int) =~= lv);
                            return None;
                        }
                        desc = crate::wl_parser::strip_quotes_chars(raw.as_slice());
                    } else if str_eq(string_of(k.as_slice()).as_str(), "provides") {
                        prov = raw;
                    }
                },
            }
        }
        i += 1;
    }
    assert(lv.take(ls.len() as int) =~= lv);
    Some((desc, prov))
}

/// Once the scan has no result, it stays so.
proof fn lemma_catalog_none(ls: Seq<Seq<char>>, i: int)
    requires
        0 <= i <= ls.len(),
        catalog_scan(ls.take(i)) is None,
    ensures
        catalog_scan(ls) is None,
    decreases ls.len() - i,
{
    if i < ls.len() {
        assert(ls.take(i + 1).drop_last() =~= ls.take(i));
        lemma_catalog_none(ls, i + 1);
    } else {
        assert(ls.take(i) =~= ls);
    }
}

/// The description and provided features of an include, for the catalogue.
pub fn include_info(content: &str) -> (r: (String, Vec<String>))
    requires
        include_info_spec(content@) is Some,
    ensures
        include_info_spec(content@) == Some((r.0@, r.1.deep_view())),
{
    match scan_catalog(content) {
        None => (String::new(), Vec::new()),
        Some((d, p)) => {
            let ps = string_of(p.as_slice());
            let provides = parse_json_array(ps.as_str());
            (string_of(d.as_slice()), provides)
        },
    }
}

// ---------------------------------------------------------------------------
// The language catalogue
// ---------------------------------------------------------------------------

/// What the language catalogue records of a language pack found in
/// `lang_dir` (a directory named `dir_name`).
#[derive(Debug, Clone)]
pub struct LangRecord {
    /// The pack's name, else its directory's name.
    pub name: String,
    pub description: String,
    /// `<lang_dir>/flake.nix`.
    pub flake: String,
    /// The pack's `lang.wl`, with absent commands as empty strings.
    pub lang: Language,
}

/// The value of an optional command, or the empty string.
pub open spec fn or_blank(o: Option<Seq<char>>) -> Option<Seq<char>> {
    match o {
        Some(v) => Some(v),
        None => Some(seq![]),
    }
}

fn some_or_blank(o: &Option<String>) -> (r: Option<String>)
    ensures
        r.deep_view() == or_blank(o.deep_view()),
{
    match o {
        Some(v) => Some(v.clone()),
        None => Some(String::new()),
    }
}

/// The catalogue record of the language pack `lang` found in `lang_dir`.
pub fn lang_record(lang: &Language, dir_name: &str, lang_dir: &str) -> (r: LangRecord)
    ensures
        r.name@ == (if lang.name@.len() != 0 {
            lang.name@
        } else {
            dir_name@
        }),
        r.description@ == lang.desc@,
        r.flake@ == path_join(lang_dir@, "flake.nix"@),
        r.lang@ == (LanguageView {
            build: or_blank(lang@.build),
            run: or_blank(lang@.run),
            test: or_blank(lang@.test),
            check: or_blank(lang@.check),
            ..lang@
        }),
{
    let name = if !lang.name.as_str().is_empty() {
        lang.name.clone()
    } else {
        dir_name.to_owned()
    };
    LangRecord {
        name,
        description: lang.desc.clone(),
        flake: join(lang_dir, "flake.nix"),
        lang: Language {
            name: lang.name.clone(),
            desc: lang.desc.clone(),
            path: lang.path.clone(),
            direnv: lang.direnv.clone(),
            build: some_or_blank(&lang.build),
            run: some_or_blank(&lang.run),
            test: some_or_blank(&lang.test),
            check: some_or_blank(&lang.check),
        },
    }
}

} // verus!
