//! The project listings of `forge list` and `forge pick`: which projects pass
//! a tag filter, the rows shown for them, the lines handed to fzf, and what
//! a choice made in fzf asks for.

use vstd::prelude::*;
use crate::create::{comma_list, split_comma_list};
use crate::index::{EntryView, ProjectEntry, entries_view};
use crate::text::{
    ends_with, lemma_find_after, lemma_lines_join, lemma_no_char_concat, lemma_no_char_join,
    no_char, chars_of, contains_seq, contains_str, join, lines, lines_of, opt_chars, pad_right, push_joined,
    push_padded, push_str, split, split_chars, str_eq, strings_contain, string_of, take_chars, take_str, trim,
    trim_chars,
};
use crate::wl_parser::{WlFile, WlView, or_empty};

verus! {

broadcast use crate::text::lemma_chars_deep_view;

// ---------------------------------------------------------------------------
// Tag filter
// ---------------------------------------------------------------------------

/// The tags asked for by `--tags a,b` (none without the flag).
pub open spec fn tag_filter_spec(tags: Option<Seq<char>>) -> Seq<Seq<char>> {
    match tags {
        Some(s) => comma_list(s),
        None => seq![],
    }
}

/// The tags of a `--tags` argument.
pub fn parse_tag_filter(tags: Option<&str>) -> (r: Vec<String>)
    ensures
        r.deep_view() == tag_filter_spec(opt_chars(tags)),
{
    match tags {
        Some(s) => split_comma_list(s),
        None => {
            let r: Vec<String> = Vec::new();
            assert(r.deep_view() =~= Seq::<Seq<char>>::empty());
            r
        },
    }
}

/// Whether a project tagged `tags` passes the filter: it carries every tag
/// asked for (so every project passes an empty filter).
pub open spec fn passes(filter: Seq<Seq<char>>, tags: Seq<Seq<char>>) -> bool {
    forall|i: int| 0 <= i < filter.len() ==> tags.contains(#[trigger] filter[i])
}

/// Whether a project tagged `tags` passes `filter`.
pub fn has_all_tags(filter: &Vec<String>, tags: &Vec<String>) -> (r: bool)
    ensures
        r == passes(filter.deep_view(), tags.deep_view()),
{
    let mut i: usize = 0;
    while i < filter.len()
        invariant
            i <= filter.len(),
            forall|k: int| 0 <= k < i ==> tags.deep_view().contains(#[trigger] filter.deep_view()[k]),
        decreases filter.len() - i,
    {
        if !strings_contain(tags, filter[i].as_str()) {
            assert(!tags.deep_view().contains(filter.deep_view()[i as int]));
            return false;
        }
        i += 1;
    }
    true
}

// ---------------------------------------------------------------------------
// Rows
// ---------------------------------------------------------------------------

/// A project as listed: name, language and path from the index, description
/// and tags from its `.wl`.
#[derive(Debug, Clone)]
pub struct ProjectRow {
    pub name: String,
    pub lang: String,
    pub path: String,
    pub desc: String,
    pub tags: Vec<String>,
}

pub struct RowView {
    pub name: Seq<char>,
    pub lang: Seq<char>,
    pub path: Seq<char>,
    pub desc: Seq<char>,
    pub tags: Seq<Seq<char>>,
}

impl View for ProjectRow {
    type V = RowView;

    open spec fn view(&self) -> RowView {
        RowView {
            name: self.name@,
            lang: self.lang@,
            path: self.path@,
            desc: self.desc@,
            tags: self.tags.deep_view(),
        }
    }
}

pub open spec fn rows_view(v: Seq<ProjectRow>) -> Seq<RowView> {
    v.map_values(|r: ProjectRow| r@)
}

/// The parsed `.wl` of a project, `None` when it could not be read.
pub open spec fn wl_opt_view(o: Option<WlFile>) -> Option<WlView> {
    match o {
        Some(w) => Some(w@),
        None => None,
    }
}

pub open spec fn wls_view(v: Seq<Option<WlFile>>) -> Seq<Option<WlView>> {
    v.map_values(|o: Option<WlFile>| wl_opt_view(o))
}

/// A project's description: its `.wl`'s, else empty.
pub open spec fn wl_desc(w: Option<WlView>) -> Seq<char> {
    match w {
        Some(w) => or_empty(w.desc),
        None => seq![],
    }
}

/// A project's tags: its `.wl`'s, else none.
pub open spec fn wl_tags(w: Option<WlView>) -> Seq<Seq<char>> {
    match w {
        Some(w) => w.tags,
        None => seq![],
    }
}

/// The rows of the projects `es` (whose `.wl`s parsed to `ws`) that pass
/// `filter`, in index order.
pub open spec fn rows_spec(
    es: Seq<EntryView>,
    ws: Seq<Option<WlView>>,
    filter: Seq<Seq<char>>,
) -> Seq<RowView>
    decreases es.len(),
{
    if es.len() == 0 || ws.len() == 0 {
        seq![]
    } else {
        let rest = rows_spec(es.drop_last(), ws.drop_last(), filter);
        let e = es.last();
        let w = ws.last();
        if passes(filter, wl_tags(w)) {
            rest.push(RowView { name: e.name, lang: e.lang, path: e.path, desc: wl_desc(w), tags: wl_tags(w) })
        } else {
            rest
        }
    }
}

fn clone_strings(v: &Vec<String>) -> (r: Vec<String>)
    ensures
        r.deep_view() == v.deep_view(),
{
    let mut out: Vec<String> = Vec::new();
    let mut i: usize = 0;
    while i < v.len()
        invariant
            i <= v.len(),
            out.deep_view() == v.deep_view().take(i as int),
        decreases v.len() - i,
    {
        let ghost before = out.deep_view();
        out.push(v[i].clone());
        assert(out.deep_view() =~= before.push(v.deep_view()[i as int]));
        assert(v.deep_view().take(i + 1) =~= v.deep_view().take(i as int).push(v.deep_view()[i as int]));
        i += 1;
    }
    assert(v.deep_view().take(v.len() as int) =~= v.deep_view());
    out
}

fn row_of(e: &ProjectEntry, w: &Option<WlFile>) -> (r: ProjectRow)
    ensures
        r@ == (RowView {
            name: e.name@,
            lang: e.lang@,
            path: e.path@,
            desc: wl_desc(wl_opt_view(*w)),
            tags: wl_tags(wl_opt_view(*w)),
        }),
{
    let (desc, tags) = match w {
        Some(wl) => {
            let d = match &wl.desc {
                Some(d) => d.clone(),
                None => String::new(),
            };
            (d, clone_strings(&wl.tags))
        },
        None => {
            let t: Vec<String> = Vec::new();
            assert(t.deep_view() =~= Seq::<Seq<char>>::empty());
            (String::new(), t)
        },
    };
    ProjectRow {
        name: e.name.clone(),
        lang: e.lang.clone(),
        path: e.path.clone(),
        desc,
        tags,
    }
}

/// The rows of the projects that pass `filter`; `wls[i]` is the parsed `.wl`
/// of `projects[i]`.
pub fn project_rows(
    projects: &Vec<ProjectEntry>,
    wls: &Vec<Option<WlFile>>,
    filter: &Vec<String>,
) -> (r: Vec<ProjectRow>)
    requires
        wls.len() == projects.len(),
    ensures
        rows_view(r@) == rows_spec(entries_view(projects@), wls_view(wls@), filter.deep_view()),
{
    let ghost es = entries_view(projects@);
    let ghost ws = wls_view(wls@);
    let mut out: Vec<ProjectRow> = Vec::new();
    let mut i: usize = 0;
    while i < projects.len()
        invariant
            i <= projects.len(),
            wls.len() == projects.len(),
            es == entries_view(projects@),
            ws == wls_view(wls@),
            rows_view(out@) == rows_spec(es.take(i as int), ws.take(i as int), filter.deep_view()),
        decreases projects.len() - i,
    {
        assert(es.take(i + 1).drop_last() =~= es.take(i as int));
        assert(ws.take(i + 1).drop_last() =~= ws.take(i as int));
        assert(es.take(i + 1).last() == projects@[i as int]@);
        assert(ws.take(i + 1).last() == wl_opt_view(wls@[i as int]));
        let row = row_of(&projects[i], &wls[i]);
        if has_all_tags(filter, &row.tags) {
            let ghost before = rows_view(out@);
            out.push(row);
            assert(rows_view(out@) =~= before.push(out@.last()@));
        }
        i += 1;
    }
    assert(es.take(projects.len() as int) =~= es);
    assert(ws.take(projects.len() as int) =~= ws);
    out
}

// ---------------------------------------------------------------------------
// fzf
// ---------------------------------------------------------------------------

/// The line fzf shows for a row: name, path, description and the tags
/// joined with commas, separated by tabs.
pub open spec fn fzf_line_spec(r: RowView) -> Seq<char> {
    r.name + "\t"@ + r.path + "\t"@ + r.desc + "\t"@ + join(r.tags, ","@)
}

fn strings_chars(v: &Vec<String>) -> (r: Vec<Vec<char>>)
    ensures
        r.deep_view() == v.deep_view(),
{
    let mut out: Vec<Vec<char>> = Vec::new();
    let mut i: usize = 0;
    while i < v.len()
        invariant
            i <= v.len(),
            out.deep_view() == v.deep_view().take(i as int),
        decreases v.len() - i,
    {
        let ghost before = out.deep_view();
        crate::text::push_chars(&mut out, chars_of(v[i].as_str()));
        assert(v.deep_view().take(i + 1) =~= before.push(v@[i as int]@));
        i += 1;
    }
    assert(v.deep_view().take(v.len() as int) =~= v.deep_view());
    out
}

fn fzf_line(r: &ProjectRow) -> (v: Vec<char>)
    ensures
        v@ == fzf_line_spec(r@),
{
    let mut v: Vec<char> = chars_of(r.name.as_str());
    push_str(&mut v, "\t");
    push_str(&mut v, r.path.as_str());
    push_str(&mut v, "\t");
    push_str(&mut v, r.desc.as_str());
    push_str(&mut v, "\t");
    let tags = strings_chars(&r.tags);
    push_joined(&mut v, &tags, ",");
    assert(v@ =~= fzf_line_spec(r@));
    v
}

/// What fzf reads on its input: one line per row.
pub open spec fn fzf_input_spec(rows: Seq<RowView>) -> Seq<char> {
    join(rows.map_values(|r: RowView| fzf_line_spec(r)), "\n"@)
}

/// The input handed to fzf.
pub fn fzf_input(rows: &Vec<ProjectRow>) -> (r: String)
    ensures
        r@ == fzf_input_spec(rows_view(rows@)),
{
    let ghost rv = rows_view(rows@);
    let mut ls: Vec<Vec<char>> = Vec::new();
    let mut i: usize = 0;
    while i < rows.len()
        invariant
            i <= rows.len(),
            rv == rows_view(rows@),
            ls.deep_view() == rv.take(i as int).map_values(|r: RowView| fzf_line_spec(r)),
        decreases rows.len() - i,
    {
        let ghost before = ls.deep_view();
        crate::text::push_chars(&mut ls, fzf_line(&rows[i]));
        assert(rv.take(i + 1).map_values(|r: RowView| fzf_line_spec(r)) =~= before.push(
            fzf_line_spec(rv[i as int]),
        ));
        i += 1;
    }
    assert(rv.take(rows.len() as int) =~= rv);
    let mut out: Vec<char> = Vec::new();
    push_joined(&mut out, &ls, "\n");
    assert(out@ =~= fzf_input_spec(rv));
    string_of(out.as_slice())
}

/// A choice made in fzf: the key pressed and the chosen project.
#[derive(Debug, Clone)]
pub struct FzfChoice {
    pub key: String,
    pub name: String,
    pub path: String,
}

/// fzf printed something that is not a chosen row.
#[derive(Debug, Clone, Copy, PartialEq, Eq, Structural)]
pub enum PickError {
    InvalidFzfOutput,
}

/// What fzf's output (run with `--expect`) says: the first line is the key,
/// the second the chosen row, whose first two tab-separated fields are the
/// name and the path.  `Ok(None)` when no row was chosen; an error when the
/// row has fewer than two fields.
pub open spec fn fzf_choice_spec(out: Seq<char>) -> Result<
    Option<(Seq<char>, Seq<char>, Seq<char>)>,
    PickError,
> {
    let ls = lines(out);
    if ls.len() < 2 {
        Ok(None)
    } else {
        let fs = split(ls[1], '\t');
        if fs.len() < 2 {
            Err(PickError::InvalidFzfOutput)
        } else {
            Ok(Some((trim(ls[0]), fs[0], fs[1])))
        }
    }
}

pub open spec fn choice_view(r: Result<Option<FzfChoice>, PickError>) -> Result<
    Option<(Seq<char>, Seq<char>, Seq<char>)>,
    PickError,
> {
    match r {
        Ok(Some(c)) => Ok(Some((c.key@, c.name@, c.path@))),
        Ok(None) => Ok(None),
        Err(e) => Err(e),
    }
}

/// Reads fzf's output.
pub fn parse_fzf_output(out: &str) -> (r: Result<Option<FzfChoice>, PickError>)
    ensures
        choice_view(r) == fzf_choice_spec(out@),
{
    let c = chars_of(out);
    let ls = lines_of(c.as_slice());
    if ls.len() < 2 {
        return Ok(None);
    }
    assert(ls.deep_view()[1] == ls@[1]@);
    assert(ls.deep_view()[0] == ls@[0]@);
    let fs = split_chars(ls[1].as_slice(), '\t');
    if fs.len() < 2 {
        return Err(PickError::InvalidFzfOutput);
    }
    assert(fs.deep_view()[0] == fs@[0]@);
    assert(fs.deep_view()[1] == fs@[1]@);
    let key = trim_chars(ls[0].as_slice());
    Ok(
        Some(
            FzfChoice {
                key: string_of(key.as_slice()),
                name: string_of(fs[0].as_slice()),
                path: string_of(fs[1].as_slice()),
            },
        ),
    )
}

/// A row handed to fzf and chosen there reads back as that row's name and
/// path, with the key that was pressed (for a key without line breaks, and
/// a row whose name and path hold no tab and whose fields hold no line
/// break).
pub proof fn fzf_choice_roundtrip(key: Seq<char>, r: RowView)
    requires
        no_char(key, '\n'),
        !ends_with(key, '\r'),
        no_char(r.name, '\t'),
        no_char(r.path, '\t'),
        no_char(r.name, '\n'),
        no_char(r.path, '\n'),
        no_char(r.desc, '\n'),
        forall|i: int| 0 <= i < r.tags.len() ==> no_char(#[trigger] r.tags[i], '\n'),
    ensures
        fzf_choice_spec(key + "\n"@ + fzf_line_spec(r)) == Ok::<
            Option<(Seq<char>, Seq<char>, Seq<char>)>,
            PickError,
        >(Some((trim(key), r.name, r.path))),
{
    reveal_strlit("\n");
    reveal_strlit("\t");
    reveal_strlit(",");
    let tail = r.desc + "\t"@ + join(r.tags, ","@);
    let l = fzf_line_spec(r);
    assert(no_char("\t"@, '\n'));
    assert(no_char(","@, '\n'));
    lemma_no_char_join(r.tags, ","@, '\n');
    lemma_no_char_concat(r.desc, "\t"@, '\n');
    lemma_no_char_concat(r.desc + "\t"@, join(r.tags, ","@), '\n');
    lemma_no_char_concat(r.name, "\t"@, '\n');
    lemma_no_char_concat(r.name + "\t"@, r.path, '\n');
    lemma_no_char_concat(r.name + "\t"@ + r.path, "\t"@, '\n');
    lemma_no_char_concat(r.name + "\t"@ + r.path + "\t"@, tail, '\n');
    assert(l =~= r.name + "\t"@ + r.path + "\t"@ + tail);
    let xs = seq![key, l];
    assert(join(xs.drop_first(), "\n"@) == l);
    assert(join(xs, "\n"@) =~= key + "\n"@ + l);
    assert(seq!['\n'] =~= "\n"@);
    assert(l.len() > 0) by {
        assert(l =~= r.name + seq!['\t'] + (r.path + "\t"@ + tail));
    }
    lemma_lines_join(xs);
    assert(lines(key + "\n"@ + l) == xs);
    let rest = r.path + seq!['\t'] + tail;
    assert(l =~= r.name + seq!['\t'] + rest);
    lemma_find_after(r.name, '\t', rest);
    lemma_find_after(r.path, '\t', tail);
    assert(split(l, '\t') == seq![r.name] + split(rest, '\t'));
    assert(split(rest, '\t') == seq![r.path] + split(tail, '\t'));
}

/// What the key pressed in the picker asks for.
#[derive(Debug, Clone, Copy, PartialEq, Eq, Structural)]
pub enum PickAction {
    /// Enter: switch to the project's session, creating it if needed.
    Open,
    /// Ctrl-R: remove the project from the index.
    Remove,
    /// Ctrl-E: edit its `.wl`, then apply new includes.
    Edit,
    /// Ctrl-O: open its directory in the editor.
    OpenDir,
    /// Ctrl-D: print what Enter would do.
    DryRun,
    /// Ctrl-S: run its `setup.sh` and `direnv allow`.
    Setup,
    /// Any other key: nothing.
    Nothing,
}

pub open spec fn pick_action_spec(key: Seq<char>) -> PickAction {
    if key == "enter"@ || key.len() == 0 {
        PickAction::Open
    } else if key == "ctrl-r"@ {
        PickAction::Remove
    } else if key == "ctrl-e"@ {
        PickAction::Edit
    } else if key == "ctrl-o"@ {
        PickAction::OpenDir
    } else if key == "ctrl-d"@ {
        PickAction::DryRun
    } else if key == "ctrl-s"@ {
        PickAction::Setup
    } else {
        PickAction::Nothing
    }
}

/// The action asked for by `key`.
pub fn pick_action(key: &str) -> (r: PickAction)
    ensures
        r == pick_action_spec(key@),
{
    if str_eq(key, "enter") || key.is_empty() {
        PickAction::Open
    } else if str_eq(key, "ctrl-r") {
        PickAction::Remove
    } else if str_eq(key, "ctrl-e") {
        PickAction::Edit
    } else if str_eq(key, "ctrl-o") {
        PickAction::OpenDir
    } else if str_eq(key, "ctrl-d") {
        PickAction::DryRun
    } else if str_eq(key, "ctrl-s") {
        PickAction::Setup
    } else {
        PickAction::Nothing
    }
}

// ---------------------------------------------------------------------------
// Editor commands
// ---------------------------------------------------------------------------

/// The shell command that opens the editor (on `file` when given); an nvim
/// editor also gets `-c Oil`.
pub open spec fn editor_command_spec(editor: Seq<char>, file: Option<Seq<char>>) -> Seq<char> {
    let base = if contains_seq(editor, "nvim"@) {
        editor + " -c Oil"@
    } else {
        editor
    };
    match file {
        Some(f) => base + " "@ + f,
        None => base,
    }
}

/// The shell command that opens `editor`, on `file` when given.
pub fn editor_command(editor: &str, file: Option<&str>) -> (r: String)
    ensures
        r@ == editor_command_spec(editor@, opt_chars(file)),
{
    let mut v: Vec<char> = chars_of(editor);
    if contains_str(editor, "nvim") {
        push_str(&mut v, " -c Oil");
    }
    match file {
        Some(f) => {
            push_str(&mut v, " ");
            push_str(&mut v, f);
        },
        None => {},
    }
    assert(v@ =~= editor_command_spec(editor@, opt_chars(file)));
    string_of(v.as_slice())
}

/// The shell command that edits `file` in `editor`, as `forge edit` and
/// `forge create` run it.
pub fn edit_command(editor: &str, file: &str) -> (r: String)
    ensures
        r@ == editor@ + " "@ + file@,
{
    let mut v: Vec<char> = chars_of(editor);
    push_str(&mut v, " ");
    push_str(&mut v, file);
    string_of(v.as_slice())
}

// ---------------------------------------------------------------------------
// `forge list`
// ---------------------------------------------------------------------------

/// A line of the list table: name, language, description and tags in
/// columns 25, 10, 35 and 30 characters wide.
pub open spec fn table_line(a: Seq<char>, b: Seq<char>, c: Seq<char>, d: Seq<char>) -> Seq<char> {
    pad_right(a, 25) + " "@ + pad_right(b, 10) + " "@ + pad_right(c, 35) + " "@ + pad_right(d, 30)
}

/// A row of the table: the description cut to 33 characters, the tags
/// joined with commas.
pub open spec fn list_row_line(r: RowView) -> Seq<char> {
    table_line(r.name, r.lang, take_chars(r.desc, 33), join(r.tags, ","@))
}

/// The output of `forge list`: a header, a rule of 100 dashes and one line
/// per row; a notice when there are no rows.
pub open spec fn list_lines_spec(rows: Seq<RowView>) -> Seq<Seq<char>> {
    if rows.len() == 0 {
        seq!["no projects found"@]
    } else {
        seq![table_line("NAME"@, "LANG"@, "DESC"@, "TAGS"@), Seq::new(100, |i: int| '-')]
            + rows.map_values(|r: RowView| list_row_line(r))
    }
}

fn table_line_exec(a: &str, b: &str, c: &str, d: &str) -> (v: Vec<char>)
    ensures
        v@ == table_line(a@, b@, c@, d@),
{
    let mut v: Vec<char> = Vec::new();
    push_padded(&mut v, a, 25);
    push_str(&mut v, " ");
    push_padded(&mut v, b, 10);
    push_str(&mut v, " ");
    push_padded(&mut v, c, 35);
    push_str(&mut v, " ");
    push_padded(&mut v, d, 30);
    assert(v@ =~= table_line(a@, b@, c@, d@));
    v
}

fn list_row(r: &ProjectRow) -> (s: String)
    ensures
        s@ == list_row_line(r@),
{
    let desc = take_str(r.desc.as_str(), 33);
    let tags = strings_chars(&r.tags);
    let mut t: Vec<char> = Vec::new();
    push_joined(&mut t, &tags, ",");
    assert(t@ =~= join(r@.tags, ","@));
    let ts = string_of(t.as_slice());
    let v = table_line_exec(r.name.as_str(), r.lang.as_str(), desc.as_str(), ts.as_str());
    string_of(v.as_slice())
}

/// The lines `forge list` prints.
pub fn list_lines(rows: &Vec<ProjectRow>) -> (r: Vec<String>)
    ensures
        r.deep_view() == list_lines_spec(rows_view(rows@)),
{
    let ghost rv = rows_view(rows@);
    let mut out: Vec<String> = Vec::new();
    if rows.len() == 0 {
        out.push("no projects found".to_owned());
        assert(out.deep_view() =~= list_lines_spec(rv));
        return out;
    }
    let h = table_line_exec("NAME", "LANG", "DESC", "TAGS");
    out.push(string_of(h.as_slice()));
    let mut rule: Vec<char> = Vec::new();
    let mut k: usize = 0;
    while k < 100
        invariant
            k <= 100,
            rule@ == Seq::new(k as nat, |i: int| '-'),
        decreases 100 - k,
    {
        rule.push('-');
        assert(rule@ =~= Seq::new((k + 1) as nat, |i: int| '-'));
        k += 1;
    }
    out.push(string_of(rule.as_slice()));
    let ghost head = out.deep_view();
    assert(head =~= seq![table_line("NAME"@, "LANG"@, "DESC"@, "TAGS"@), Seq::new(100, |i: int| '-')]);
    let mut i: usize = 0;
    while i < rows.len()
        invariant
            i <= rows.len(),
            rv == rows_view(rows@),
            out.deep_view() == head + rv.take(i as int).map_values(|r: RowView| list_row_line(r)),
        decreases rows.len() - i,
    {
        let ghost before = out.deep_view();
        let line = list_row(&rows[i]);
        out.push(line);
        assert(out.deep_view() =~= before.push(list_row_line(rv[i as int])));
        assert(rv.take(i + 1).map_values(|r: RowView| list_row_line(r)) =~= rv.take(
            i as int,
        ).map_values(|r: RowView| list_row_line(r)).push(list_row_line(rv[i as int])));
        i += 1;
    }
    assert(rv.take(rows.len() as int) =~= rv);
    out
}

} // verus!
