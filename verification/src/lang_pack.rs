//! Language packs as `forge lang` shows and scaffolds them.

use vstd::prelude::*;
use crate::text::{chars_of, pad_right, push_padded, push_str, string_of, take_chars, take_str};
use crate::wl_parser::{Language, LanguageView};

verus! {

broadcast use crate::text::lemma_chars_deep_view;

/// The `lang.wl` that `forge lang add` writes for a new pack.
pub open spec fn lang_wl_spec(name: Seq<char>, path: Seq<char>, direnv: Seq<char>) -> Seq<char> {
    "name=\""@ + name + "\"\ndesc=\""@ + name + "\"\npath=\""@ + path + "\"\ndirenv=\""@ + direnv
        + "\"\nrequires=[]\nsetup_priority=\"10\"\nbuild=\"nix build\"\nrun=\"nix run\"\ntest=\"nix flake check\"\ncheck=\"nix flake check\"\n"@
}

/// The `lang.wl` of a new pack.
pub fn lang_wl_template(name: &str, path: &str, direnv: &str) -> (r: String)
    ensures
        r@ == lang_wl_spec(name@, path@, direnv@),
{
    let mut v: Vec<char> = chars_of("name=\"");
    push_str(&mut v, name);
    push_str(&mut v, "\"\ndesc=\"");
    push_str(&mut v, name);
    push_str(&mut v, "\"\npath=\"");
    push_str(&mut v, path);
    push_str(&mut v, "\"\ndirenv=\"");
    push_str(&mut v, direnv);
    push_str(
        &mut v,
        "\"\nrequires=[]\nsetup_priority=\"10\"\nbuild=\"nix build\"\nrun=\"nix run\"\ntest=\"nix flake check\"\ncheck=\"nix flake check\"\n",
    );
    assert(v@ =~= lang_wl_spec(name@, path@, direnv@));
    string_of(v.as_slice())
}

/// Why `forge lang add` refused its arguments.
#[derive(Debug, Clone, Copy, PartialEq, Eq, Structural)]
pub enum LangAddError {
    /// No language name was given.
    MissingName,
    /// No `--path` was given.
    MissingPath,
}

/// The name, path and direnv directive of `forge lang add`: the name and
/// the path are required (the name is asked for first); the directive
/// defaults to `none`.
pub fn lang_add_args(
    name: Option<&str>,
    path: Option<&str>,
    direnv: Option<&str>,
) -> (r: Result<(String, String, String), LangAddError>)
    ensures
        name is None ==> r == Err::<(String, String, String), LangAddError>(LangAddError::MissingName),
        name is Some && path is None ==> r == Err::<(String, String, String), LangAddError>(
            LangAddError::MissingPath,
        ),
        name is Some && path is Some ==> (r matches Ok((n, p, d)) && n@ == name->0@ && p@
            == path->0@ && d@ == match direnv {
            Some(x) => x@,
            None => "none"@,
        }),
{
    let n = match name {
        Some(n) => n,
        None => {
            return Err(LangAddError::MissingName);
        },
    };
    let p = match path {
        Some(p) => p,
        None => {
            return Err(LangAddError::MissingPath);
        },
    };
    let d = match direnv {
        Some(d) => d.to_owned(),
        None => "none".to_owned(),
    };
    Ok((n.to_owned(), p.to_owned(), d))
}

/// A line of the pack table: columns 15, 15 and 40 characters wide.
pub open spec fn pack_line(a: Seq<char>, b: Seq<char>, c: Seq<char>) -> Seq<char> {
    pad_right(a, 15) + " "@ + pad_right(b, 15) + " "@ + pad_right(c, 40)
}

/// The line of the pack in the directory `dir_name`: its path and its
/// description cut to 38 characters, or blanks when its `lang.wl` could not
/// be read.
pub open spec fn pack_row(dir_name: Seq<char>, lang: Option<LanguageView>) -> Seq<char> {
    match lang {
        Some(l) => pack_line(dir_name, l.path, take_chars(l.desc, 38)),
        None => pack_line(dir_name, seq![], seq![]),
    }
}

fn pack_line_exec(a: &str, b: &str, c: &str) -> (v: Vec<char>)
    ensures
        v@ == pack_line(a@, b@, c@),
{
    let mut v: Vec<char> = Vec::new();
    push_padded(&mut v, a, 15);
    push_str(&mut v, " ");
    push_padded(&mut v, b, 15);
    push_str(&mut v, " ");
    push_padded(&mut v, c, 40);
    assert(v@ =~= pack_line(a@, b@, c@));
    v
}

/// The table header and rule of `forge lang --list`.
pub fn pack_header() -> (r: Vec<String>)
    ensures
        r.deep_view() == seq![
            pack_line("LANGUAGE"@, "PATH"@, "DESCRIPTION"@),
            Seq::new(75, |i: int| '-'),
        ],
{
    let h = pack_line_exec("LANGUAGE", "PATH", "DESCRIPTION");
    let mut rule: Vec<char> = Vec::new();
    let mut k: usize = 0;
    while k < 75
        invariant
            k <= 75,
            rule@ == Seq::new(k as nat, |i: int| '-'),
        decreases 75 - k,
    {
        rule.push('-');
        assert(rule@ =~= Seq::new((k + 1) as nat, |i: int| '-'));
        k += 1;
    }
    let r = vec![string_of(h.as_slice()), string_of(rule.as_slice())];
    assert(r.deep_view() =~= seq![
        pack_line("LANGUAGE"@, "PATH"@, "DESCRIPTION"@),
        Seq::new(75, |i: int| '-'),
    ]);
    r
}

/// The table line of the pack in `dir_name`, whose `lang.wl` read as
/// `lang`.
pub fn pack_row_line(dir_name: &str, lang: Option<&Language>) -> (r: String)
    ensures
        r@ == pack_row(
            dir_name@,
            match lang {
                Some(l) => Some(l@),
                None => None,
            },
        ),
{
    let v = match lang {
        Some(l) => {
            let d = take_str(l.desc.as_str(), 38);
            pack_line_exec(dir_name, l.path.as_str(), d.as_str())
        },
        None => {
            proof {
                reveal_strlit("");
            }
            pack_line_exec(dir_name, "", "")
        },
    };
    string_of(v.as_slice())
}

} // verus!
