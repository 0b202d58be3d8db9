//! overseer.nvim task templates: one Lua file per project task (build, run,
//! check), each running the project's command in the project's directory.

use vstd::prelude::*;
use crate::text::{chars_of, push_str, string_of};
use crate::wl_parser::{WlFile, WlView};

verus! {

broadcast use crate::text::lemma_chars_deep_view;

/// How one character is written inside a Lua double-quoted string.
pub open spec fn lua_escape_char(c: char) -> Seq<char> {
    if c == '\\' {
        seq!['\\', '\\']
    } else if c == '"' {
        seq!['\\', '"']
    } else {
        seq![c]
    }
}

/// `s` with each backslash and double quote escaped by a backslash.
pub open spec fn escape_lua_spec(s: Seq<char>) -> Seq<char>
    decreases s.len(),
{
    if s.len() == 0 {
        seq![]
    } else {
        escape_lua_spec(s.drop_last()) + lua_escape_char(s.last())
    }
}

/// Escapes `s` for a Lua double-quoted string.
pub fn escape_lua(s: &str) -> (r: String)
    ensures
        r@ == escape_lua_spec(s@),
{
    let c = chars_of(s);
    let mut v: Vec<char> = Vec::new();
    let mut i: usize = 0;
    while i < c.len()
        invariant
            i <= c.len(),
            c@ == s@,
            v@ == escape_lua_spec(s@.take(i as int)),
        decreases c.len() - i,
    {
        let ch = c[i];
        if ch == '\\' {
            v.push('\\');
            v.push('\\');
        } else if ch == '"' {
            v.push('\\');
            v.push('"');
        } else {
            v.push(ch);
        }
        assert(s@.take(i + 1).drop_last() =~= s@.take(i as int));
        assert(v@ =~= escape_lua_spec(s@.take(i + 1)));
        i += 1;
    }
    assert(s@.take(c.len() as int) =~= s@);
    string_of(v.as_slice())
}

/// The Lua source of the task `name` running `cmd` (escaped) in `cwd`,
/// tagged `overseer.TAG.<tag>`.
pub open spec fn task_template_spec(
    name: Seq<char>,
    cmd: Seq<char>,
    cwd: Seq<char>,
    tag: Seq<char>,
) -> Seq<char> {
    "return {\n  name = \""@ + name
        + "\",\n  builder = function()\n    return {\n      cmd = { \"bash\", \"-c\", \""@
        + escape_lua_spec(cmd) + "\" },\n      cwd = \""@ + cwd
        + "\",\n      components = { \"default\" },\n    }\n  end,\n  tags = { overseer.TAG."@
        + tag + " },\n  desc = \""@ + name + "\",\n}\n"@
}

/// The task name of a project's task: `<project>_<task>`.
pub open spec fn task_name(project: Seq<char>, task: Seq<char>) -> Seq<char> {
    project + "_"@ + task
}

/// The file name and the content of the template for task `task` of the
/// project `project_name` in `project_path`.
pub fn task_template(
    project_name: &str,
    project_path: &str,
    task: &str,
    cmd: &str,
    tag: &str,
) -> (r: (String, String))
    ensures
        r.0@ == task_name(project_name@, task@) + ".lua"@,
        r.1@ == task_template_spec(task_name(project_name@, task@), cmd@, project_path@, tag@),
{
    let mut name: Vec<char> = chars_of(project_name);
    push_str(&mut name, "_");
    push_str(&mut name, task);
    let ghost nm = name@;
    let mut file = name.clone();
    push_str(&mut file, ".lua");
    let escaped = escape_lua(cmd);
    let mut v: Vec<char> = chars_of("return {\n  name = \"");
    v.extend_from_slice(name.as_slice());
    push_str(
        &mut v,
        "\",\n  builder = function()\n    return {\n      cmd = { \"bash\", \"-c\", \"",
    );
    push_str(&mut v, escaped.as_str());
    push_str(&mut v, "\" },\n      cwd = \"");
    push_str(&mut v, project_path);
    push_str(
        &mut v,
        "\",\n      components = { \"default\" },\n    }\n  end,\n  tags = { overseer.TAG.",
    );
    push_str(&mut v, tag);
    push_str(&mut v, " },\n  desc = \"");
    v.extend_from_slice(name.as_slice());
    push_str(&mut v, "\",\n}\n");
    assert(nm =~= task_name(project_name@, task@));
    assert(v@ =~= task_template_spec(nm, cmd@, project_path@, tag@));
    (string_of(file.as_slice()), string_of(v.as_slice()))
}

/// The value of an optional field, or `d`.
pub open spec fn or_else(o: Option<Seq<char>>, d: Seq<char>) -> Seq<char> {
    match o {
        Some(v) => v,
        None => d,
    }
}

/// The build, run and check commands of a project: those of its `.wl` (the
/// check command is its `test`, else its `check`), each defaulting to the
/// nix command; all three defaults when the `.wl` could not be read.
pub open spec fn task_commands_spec(wl: Option<WlView>) -> (Seq<char>, Seq<char>, Seq<char>) {
    match wl {
        Some(w) => (
            or_else(w.build, "nix build"@),
            or_else(w.run, "nix run"@),
            match w.test {
                Some(t) => t,
                None => or_else(w.check, "nix flake check"@),
            },
        ),
        None => ("nix build"@, "nix run"@, "nix flake check"@),
    }
}

fn field_or(o: &Option<String>, d: &str) -> (r: String)
    ensures
        r@ == or_else(o.deep_view(), d@),
{
    match o {
        Some(v) => v.clone(),
        None => d.to_owned(),
    }
}

/// The build, run and check commands of a project whose `.wl` parsed to
/// `wl` (`None` when it could not be read).
pub fn task_commands(wl: Option<&WlFile>) -> (r: (String, String, String))
    ensures
        (r.0@, r.1@, r.2@) == task_commands_spec(
            match wl {
                Some(w) => Some(w@),
                None => None,
            },
        ),
{
    match wl {
        Some(w) => {
            let check = match &w.test {
                Some(t) => t.clone(),
                None => field_or(&w.check, "nix flake check"),
            };
            (field_or(&w.build, "nix build"), field_or(&w.run, "nix run"), check)
        },
        None => ("nix build".to_owned(), "nix run".to_owned(), "nix flake check".to_owned()),
    }
}

/// The three templates of a project (file name, content): `build` tagged
/// BUILD, `run` tagged RUN and `check` tagged TEST.
pub open spec fn project_templates_spec(
    name: Seq<char>,
    path: Seq<char>,
    wl: Option<WlView>,
) -> Seq<(Seq<char>, Seq<char>)> {
    let (b, r, c) = task_commands_spec(wl);
    seq![
        (task_name(name, "build"@) + ".lua"@, task_template_spec(task_name(name, "build"@), b, path, "BUILD"@)),
        (task_name(name, "run"@) + ".lua"@, task_template_spec(task_name(name, "run"@), r, path, "RUN"@)),
        (task_name(name, "check"@) + ".lua"@, task_template_spec(task_name(name, "check"@), c, path, "TEST"@)),
    ]
}

/// The templates to write for the project `name` in `path`.
pub fn project_templates(name: &str, path: &str, wl: Option<&WlFile>) -> (r: Vec<(String, String)>)
    ensures
        r.deep_view() == project_templates_spec(
            name@,
            path@,
            match wl {
                Some(w) => Some(w@),
                None => None,
            },
        ),
{
    let (b, rn, c) = task_commands(wl);
    let t1 = task_template(name, path, "build", b.as_str(), "BUILD");
    let t2 = task_template(name, path, "run", rn.as_str(), "RUN");
    let t3 = task_template(name, path, "check", c.as_str(), "TEST");
    let r = vec![t1, t2, t3];
    assert(r.deep_view() =~= project_templates_spec(
        name@,
        path@,
        match wl {
            Some(w) => Some(w@),
            None => None,
        },
    ));
    r
}

fn template_file(name: &str, task: &str) -> (r: String)
    ensures
        r@ == task_name(name@, task@) + ".lua"@,
{
    let mut v: Vec<char> = chars_of(name);
    push_str(&mut v, "_");
    push_str(&mut v, task);
    push_str(&mut v, ".lua");
    assert(v@ =~= task_name(name@, task@) + ".lua"@);
    string_of(v.as_slice())
}

/// The template files of project `name`, as removed by `overseer --rm`.
pub fn template_file_names(name: &str) -> (r: Vec<String>)
    ensures
        r.deep_view() == seq![
            task_name(name@, "build"@) + ".lua"@,
            task_name(name@, "run"@) + ".lua"@,
            task_name(name@, "check"@) + ".lua"@,
        ],
{
    let r = vec![template_file(name, "build"), template_file(name, "run"), template_file(name, "check")];
    assert(r.deep_view() =~= seq![
        task_name(name@, "build"@) + ".lua"@,
        task_name(name@, "run"@) + ".lua"@,
        task_name(name@, "check"@) + ".lua"@,
    ]);
    r
}

/// The build command that `overseer-def` reports: the `.wl`'s, else
/// `nix build`.
pub fn build_command(wl: &WlFile) -> (r: String)
    ensures
        r@ == or_else(wl@.build, "nix build"@),
{
    field_or(&wl.build, "nix build")
}


/// What `forge overseer` does.
#[derive(Debug, Clone)]
pub enum OverseerAction {
    /// Remove the templates of the named project.
    Remove(String),
    /// Open the task picker in nvim.
    Picker,
    /// Write the templates of the named project.
    One(String),
    /// Write the templates of every project.
    All,
}

/// `forge overseer --rm` was given no project name.
#[derive(Debug, Clone, Copy, PartialEq, Eq, Structural)]
pub enum OverseerError {
    RmNeedsName,
}

/// What `forge overseer [--regen] [--rm] [name]` does: `--rm` removes the
/// named project's templates (and needs a name); without `--regen` or a
/// name it opens the picker; otherwise it writes the templates of the named
/// project, or of all of them.
pub fn action(regen: bool, name: Option<&str>, rm: bool) -> (r: Result<OverseerAction, OverseerError>)
    ensures
        rm && name is None ==> r == Err::<OverseerAction, OverseerError>(OverseerError::RmNeedsName),
        rm && name is Some ==> (r matches Ok(OverseerAction::Remove(n)) && n@ == name->0@),
        !rm && !regen && name is None ==> (r matches Ok(OverseerAction::Picker)),
        !rm && name is Some ==> (r matches Ok(OverseerAction::One(n)) && n@ == name->0@),
        !rm && regen && name is None ==> (r matches Ok(OverseerAction::All)),
{
    if rm {
        return match name {
            Some(n) => Ok(OverseerAction::Remove(n.to_owned())),
            None => Err(OverseerError::RmNeedsName),
        };
    }
    match name {
        Some(n) => Ok(OverseerAction::One(n.to_owned())),
        None => if regen {
            Ok(OverseerAction::All)
        } else {
            Ok(OverseerAction::Picker)
        },
    }
}

/// The tasks run the project's own commands: the build task runs the
/// `.wl`'s `build` and the run task its `run` whenever the `.wl` sets them;
/// the check task runs its `test`, else its `check`; the nix command stands
/// in only for a command the `.wl` does not set, or when there is no `.wl`.
pub proof fn tasks_run_the_project_commands(wl: Option<WlView>, name: Seq<char>, path: Seq<char>)
    ensures
        wl matches Some(w) ==> {
            &&& (w.build matches Some(b) ==> task_commands_spec(wl).0 == b)
            &&& (w.build is None ==> task_commands_spec(wl).0 == "nix build"@)
            &&& (w.run matches Some(r) ==> task_commands_spec(wl).1 == r)
            &&& (w.run is None ==> task_commands_spec(wl).1 == "nix run"@)
            &&& (w.test matches Some(t) ==> task_commands_spec(wl).2 == t)
            &&& (w.test is None ==> (w.check matches Some(c) ==> task_commands_spec(wl).2 == c))
            &&& (w.test is None && w.check is None ==> task_commands_spec(wl).2 == "nix flake check"@)
        },
        wl is None ==> task_commands_spec(wl) == ("nix build"@, "nix run"@, "nix flake check"@),
        project_templates_spec(name, path, wl).len() == 3,
        project_templates_spec(name, path, wl)[0].1 == task_template_spec(
            task_name(name, "build"@),
            task_commands_spec(wl).0,
            path,
            "BUILD"@,
        ),
        project_templates_spec(name, path, wl)[1].1 == task_template_spec(
            task_name(name, "run"@),
            task_commands_spec(wl).1,
            path,
            "RUN"@,
        ),
        project_templates_spec(name, path, wl)[2].1 == task_template_spec(
            task_name(name, "check"@),
            task_commands_spec(wl).2,
            path,
            "TEST"@,
        ),
{
}

} // verus!
