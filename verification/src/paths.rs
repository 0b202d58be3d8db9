//! Paths, held as strings, and where a new project goes.
//!
//! Joining follows `Path::join` on Unix: an absolute second path (one that
//! starts with `/`) replaces the first; otherwise a `/` is put between them
//! unless the first is empty or already ends with `/`.

use vstd::prelude::*;
use crate::text::{chars_of, ends_with, slice_chars, starts_with, string_of};
use crate::config::ForgeConfig;
use crate::wl_parser::Language;

verus! {

broadcast use crate::text::lemma_chars_deep_view;

pub open spec fn path_join(base: Seq<char>, p: Seq<char>) -> Seq<char> {
    if starts_with(p, '/') {
        p
    } else if base.len() > 0 && !ends_with(base, '/') {
        base + seq!['/'] + p
    } else {
        base + p
    }
}

pub fn join_chars(base: &[char], p: &[char]) -> (r: Vec<char>)
    ensures
        r@ == path_join(base@, p@),
{
    let mut out: Vec<char> = Vec::new();
    if p.len() > 0 && p[0] == '/' {
        out.extend_from_slice(p);
        return out;
    }
    out.extend_from_slice(base);
    if base.len() > 0 && base[base.len() - 1] != '/' {
        out.push('/');
    }
    out.extend_from_slice(p);
    out
}

/// `base` joined with `p`.
pub fn join(base: &str, p: &str) -> (r: String)
    ensures
        r@ == path_join(base@, p@),
{
    let b = chars_of(base);
    let q = chars_of(p);
    let v = join_chars(b.as_slice(), q.as_slice());
    string_of(v.as_slice())
}


/// The components of a Unix path, as `Path::components` gives them: a root
/// marker for a leading `/`, a `.` kept only as the first component of a
/// relative path, and the non-empty parts between `/`s other than `.`.
pub open spec fn components(p: Seq<char>) -> Seq<Seq<char>> {
    let parts = crate::text::split(p, '/');
    let root: Seq<Seq<char>> = if starts_with(p, '/') { seq![seq!['/']] } else { seq![] };
    let cur: Seq<Seq<char>> = if !starts_with(p, '/') && parts.len() > 0 && parts[0] == seq!['.'] {
        seq![seq!['.']]
    } else {
        seq![]
    };
    root + cur + parts.filter(|c: Seq<char>| c.len() > 0 && c != seq!['.'])
}

/// Two paths are the same path when their components are equal (how
/// `PathBuf` compares).
pub open spec fn same_path(a: Seq<char>, b: Seq<char>) -> bool {
    components(a) == components(b)
}

fn components_exec(p: &[char]) -> (r: Vec<Vec<char>>)
    ensures
        r.deep_view() == components(p@),
{
    let parts = crate::text::split_chars(p, '/');
    let ghost pv = parts.deep_view();
    let mut out: Vec<Vec<char>> = Vec::new();
    let abs = p.len() > 0 && p[0] == '/';
    if abs {
        let mut r: Vec<char> = Vec::new();
        r.push('/');
        crate::text::push_chars(&mut out, r);
    }
    if !abs && parts.len() > 0 && parts[0].len() == 1 && parts[0][0] == '.' {
        let mut c: Vec<char> = Vec::new();
        c.push('.');
        crate::text::push_chars(&mut out, c);
        assert(pv[0] == parts@[0]@);
        assert(pv[0] =~= seq!['.']);
    } else {
        proof {
            if !abs && parts.len() > 0 {
                assert(pv[0] == parts@[0]@);
                if pv[0] == seq!['.'] {
                    assert(pv[0].len() == 1 && pv[0][0] == '.');
                }
            }
        }
    }
    let ghost head = out.deep_view();
    assert(head =~= (if starts_with(p@, '/') { seq![seq!['/']] } else { Seq::<Seq<char>>::empty() })
        + (if !starts_with(p@, '/') && pv.len() > 0 && pv[0] == seq!['.'] {
        seq![seq!['.']]
    } else {
        Seq::<Seq<char>>::empty()
    }));
    let mut i: usize = 0;
    assert(pv.take(0).filter(|c: Seq<char>| c.len() > 0 && c != seq!['.']) =~= Seq::<Seq<char>>::empty());
    while i < parts.len()
        invariant
            i <= parts.len(),
            pv == parts.deep_view(),
            out.deep_view() == head + pv.take(i as int).filter(
                |c: Seq<char>| c.len() > 0 && c != seq!['.'],
            ),
        decreases parts.len() - i,
    {
        let part = &parts[i];
        assert(pv[i as int] == part@);
        assert(pv.take(i + 1).drop_last() =~= pv.take(i as int));
        reveal_with_fuel(Seq::<Seq<char>>::filter, 1);
        let keep = part.len() > 0 && !(part.len() == 1 && part[0] == '.');
        assert(keep == (part@.len() > 0 && part@ != seq!['.'])) by {
            if part@ == seq!['.'] {
                assert(part@.len() == 1 && part@[0] == '.');
            }
            if part@.len() == 1 && part@[0] == '.' {
                assert(part@ =~= seq!['.']);
            }
        }
        if keep {
            let ghost before = out.deep_view();
            crate::text::push_chars(&mut out, part.clone());
            assert(out.deep_view() =~= head + pv.take(i + 1).filter(
                |c: Seq<char>| c.len() > 0 && c != seq!['.'],
            ));
        } else {
            assert(out.deep_view() =~= head + pv.take(i + 1).filter(
                |c: Seq<char>| c.len() > 0 && c != seq!['.'],
            ));
        }
        i += 1;
    }
    assert(pv.take(parts.len() as int) == pv);
    out
}

/// Whether `a` and `b` are the same path (see `same_path`).
pub fn paths_equal(a: &str, b: &str) -> (r: bool)
    ensures
        r == same_path(a@, b@),
{
    let ca = components_exec(chars_of(a).as_slice());
    let cb = components_exec(chars_of(b).as_slice());
    if ca.len() != cb.len() {
        assert(ca.deep_view().len() != cb.deep_view().len());
        return false;
    }
    let mut i: usize = 0;
    while i < ca.len()
        invariant
            ca.len() == cb.len(),
            ca.deep_view() == components(a@),
            cb.deep_view() == components(b@),
            i <= ca.len(),
            forall|j: int| 0 <= j < i ==> ca.deep_view()[j] == cb.deep_view()[j],
        decreases ca.len() - i,
    {
        assert(ca.deep_view()[i as int] == ca@[i as int]@);
        assert(cb.deep_view()[i as int] == cb@[i as int]@);
        if !crate::text::chars_eq(ca[i].as_slice(), cb[i].as_slice()) {
            assert(ca.deep_view()[i as int] != cb.deep_view()[i as int]);
            return false;
        }
        i += 1;
    }
    assert(ca.deep_view() =~= cb.deep_view());
    true
}


// ---------------------------------------------------------------------------
// Where a new project goes
// ---------------------------------------------------------------------------

/// `s` without all leading `~/`.
pub open spec fn strip_home_prefixes(s: Seq<char>) -> Seq<char>
    decreases s.len(),
{
    if s.len() >= 2 && s[0] == '~' && s[1] == '/' {
        strip_home_prefixes(s.skip(2))
    } else {
        s
    }
}

/// `s` without all leading `~`.
pub open spec fn strip_tildes(s: Seq<char>) -> Seq<char>
    decreases s.len(),
{
    if starts_with(s, '~') {
        strip_tildes(s.drop_first())
    } else {
        s
    }
}

pub open spec fn starts_with_home(p: Seq<char>) -> bool {
    (p.len() >= 2 && p[0] == '~' && p[1] == '/') || p == seq!['~']
}

/// A path starting with `~/` (or just `~`) with the home directory in place
/// of the tilde, when the home directory is known.
pub open spec fn expand_tilde_spec(p: Seq<char>, home: Option<Seq<char>>) -> Seq<char> {
    if starts_with_home(p) {
        match home {
            Some(h) => {
                let rem = strip_tildes(strip_home_prefixes(p));
                if rem.len() > 0 {
                    path_join(h, rem)
                } else {
                    h
                }
            },
            None => p,
        }
    } else {
        p
    }
}

/// Where a project goes: an explicit path is final (its tilde expanded,
/// and relative to the sync base when relative); otherwise
/// `sync_base/lang.path/name`.
pub open spec fn project_path_spec(
    name: Seq<char>,
    lang_path: Seq<char>,
    sync_base: Seq<char>,
    explicit: Option<Seq<char>>,
    home: Option<Seq<char>>,
) -> Seq<char> {
    match explicit {
        Some(p) => {
            let e = expand_tilde_spec(p, home);
            if starts_with(e, '/') {
                e
            } else {
                path_join(sync_base, e)
            }
        },
        None => path_join(path_join(sync_base, lang_path), name),
    }
}

fn strip_home_prefixes_exec(s: &[char]) -> (r: usize)
    ensures
        r <= s.len(),
        s@.skip(r as int) == strip_home_prefixes(s@),
{
    let mut i: usize = 0;
    assert(s@.skip(0) == s@);
    while i < s.len() && s.len() - i >= 2 && s[i] == '~' && s[i + 1] == '/'
        invariant
            i <= s.len(),
            strip_home_prefixes(s@) == strip_home_prefixes(s@.skip(i as int)),
        decreases s.len() - i,
    {
        assert(s@.skip(i as int).skip(2) =~= s@.skip(i + 2));
        i += 2;
    }
    assert(strip_home_prefixes(s@.skip(i as int)) == s@.skip(i as int));
    i
}

fn strip_tildes_exec(s: &[char], from: usize) -> (r: usize)
    requires
        from <= s.len(),
    ensures
        from <= r <= s.len(),
        s@.skip(r as int) == strip_tildes(s@.skip(from as int)),
{
    let mut i = from;
    while i < s.len() && s[i] == '~'
        invariant
            from <= i <= s.len(),
            strip_tildes(s@.skip(from as int)) == strip_tildes(s@.skip(i as int)),
        decreases s.len() - i,
    {
        assert(s@.skip(i as int).drop_first() =~= s@.skip(i + 1));
        i += 1;
    }
    i
}

/// Expands a leading `~` (see `expand_tilde_spec`).
pub fn expand_tilde(p: &str, home: Option<String>) -> (r: String)
    ensures
        r@ == expand_tilde_spec(p@, home.deep_view()),
{
    let c = chars_of(p);
    let is_home = (c.len() >= 2 && c[0] == '~' && c[1] == '/') || (c.len() == 1 && c[0] == '~');
    assert(is_home == starts_with_home(c@)) by {
        if c@ == seq!['~'] {
            assert(c@.len() == 1 && c@[0] == '~');
        }
        if c@.len() == 1 && c@[0] == '~' {
            assert(c@ =~= seq!['~']);
        }
    }
    if !is_home {
        return p.to_owned();
    }
    match home {
        Some(h) => {
            let a = strip_home_prefixes_exec(c.as_slice());
            let b = strip_tildes_exec(c.as_slice(), a);
            let rem = slice_chars(c.as_slice(), b, c.len());
            assert(rem@ == c@.skip(b as int));
            if rem.len() > 0 {
                let hc = chars_of(h.as_str());
                let j = join_chars(hc.as_slice(), rem.as_slice());
                string_of(j.as_slice())
            } else {
                h
            }
        },
        None => p.to_owned(),
    }
}

/// Calls `dirs::home_dir` (the `HOME` variable when it is set and not
/// empty, else the password database) and turns the path into a string,
/// lossily.  Nothing is claimed of the result: it depends on the
/// environment, so any value may come back.
#[verifier::external_body]
fn home_dir() -> (r: Option<String>) {
    match dirs::home_dir() {
        Some(p) => Some(p.to_string_lossy().into_owned()),
        None => None,
    }
}

/// Where project `name` of language `lang` goes, given the home directory
/// `home` (see `project_path_spec`).
pub fn resolve_project_path_in(
    name: &str,
    lang: &Language,
    config: &ForgeConfig,
    explicit_path: Option<&str>,
    home: Option<String>,
) -> (r: String)
    ensures
        r@ == project_path_spec(
            name@,
            lang.path@,
            config.sync_base@,
            crate::text::opt_chars(explicit_path),
            home.deep_view(),
        ),
{
    match explicit_path {
        Some(p) => {
            let e = expand_tilde(p, home);
            let ec = chars_of(e.as_str());
            if ec.len() > 0 && ec[0] == '/' {
                e
            } else {
                join(config.sync_base.as_str(), e.as_str())
            }
        },
        None => {
            let base = join(config.sync_base.as_str(), lang.path.as_str());
            join(base.as_str(), name)
        },
    }
}

/// Where project `name` of language `lang` goes, with the home directory of
/// the environment (see `project_path_spec`).
pub fn resolve_project_path(
    name: &str,
    lang: &Language,
    config: &ForgeConfig,
    explicit_path: Option<&str>,
) -> (r: String)
    ensures
        exists|home: Option<Seq<char>>|
            r@ == #[trigger] project_path_spec(
                name@,
                lang.path@,
                config.sync_base@,
                crate::text::opt_chars(explicit_path),
                home,
            ),
        explicit_path is None ==> r@ == path_join(path_join(config.sync_base@, lang.path@), name@),
{
    let home = home_dir();
    let ghost h = home.deep_view();
    let r = resolve_project_path_in(name, lang, config, explicit_path, home);
    assert(r@ == project_path_spec(
        name@,
        lang.path@,
        config.sync_base@,
        crate::text::opt_chars(explicit_path),
        h,
    ));
    r
}

} // verus!
