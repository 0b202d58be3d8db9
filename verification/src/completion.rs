//! Shell completion: the shells `--generate-completion` knows, and the
//! arguments handled before the command line proper is parsed.

use vstd::prelude::*;
use crate::text::{chars_of, join, push_joined, push_str, str_eq, string_of};

verus! {

broadcast use crate::text::lemma_chars_deep_view;

/// A shell that completions can be generated for.
#[derive(Debug, Clone, Copy, PartialEq, Eq, Structural)]
pub enum Shell {
    Zsh,
    Bash,
    Fish,
    PowerShell,
}

/// The names of the supported shells, in the order they are listed.
pub open spec fn shell_names() -> Seq<Seq<char>> {
    seq!["zsh"@, "bash"@, "fish"@, "powershell"@]
}

/// The shell called `name`.
pub open spec fn shell_named_spec(name: Seq<char>) -> Option<Shell> {
    if name == "zsh"@ {
        Some(Shell::Zsh)
    } else if name == "bash"@ {
        Some(Shell::Bash)
    } else if name == "fish"@ {
        Some(Shell::Fish)
    } else if name == "powershell"@ {
        Some(Shell::PowerShell)
    } else {
        None
    }
}

/// The shell called `name`, if it is supported.
pub fn shell_named(name: &str) -> (r: Option<Shell>)
    ensures
        r == shell_named_spec(name@),
{
    if str_eq(name, "zsh") {
        Some(Shell::Zsh)
    } else if str_eq(name, "bash") {
        Some(Shell::Bash)
    } else if str_eq(name, "fish") {
        Some(Shell::Fish)
    } else if str_eq(name, "powershell") {
        Some(Shell::PowerShell)
    } else {
        None
    }
}

/// The supported shells, comma-separated.
pub fn list_shells() -> (r: String)
    ensures
        r@ == join(shell_names(), ", "@),
{
    let names: Vec<Vec<char>> = vec![chars_of("zsh"), chars_of("bash"), chars_of("fish"), chars_of("powershell")];
    assert(names.deep_view() =~= shell_names());
    let mut v: Vec<char> = Vec::new();
    push_joined(&mut v, &names, ", ");
    string_of(v.as_slice())
}

/// The message for a shell that is not supported.
pub fn unsupported_shell(shell: &str) -> (r: String)
    ensures
        r@ == "Unsupported shell: "@ + shell@ + ". Use: "@ + join(shell_names(), ", "@),
{
    let mut v: Vec<char> = chars_of("Unsupported shell: ");
    push_str(&mut v, shell);
    push_str(&mut v, ". Use: ");
    let l = list_shells();
    push_str(&mut v, l.as_str());
    string_of(v.as_slice())
}

/// Index of the first argument equal to `flag` (or the number of
/// arguments).
pub open spec fn first_arg(args: Seq<Seq<char>>, flag: Seq<char>) -> int
    decreases args.len(),
{
    if args.len() == 0 {
        0
    } else if args[0] == flag {
        0
    } else {
        1 + first_arg(args.drop_first(), flag)
    }
}

proof fn lemma_first_arg(args: Seq<Seq<char>>, flag: Seq<char>, r: int)
    requires
        0 <= r <= args.len(),
        forall|j: int| 0 <= j < r ==> args[j] != flag,
        r < args.len() ==> args[r] == flag,
    ensures
        first_arg(args, flag) == r,
    decreases args.len(),
{
    if args.len() > 0 && r > 0 {
        lemma_first_arg(args.drop_first(), flag, r - 1);
    }
}

/// The shell named after the first `--generate-completion` (`None` when
/// that flag is absent or is the last argument).
pub open spec fn completion_request_spec(args: Seq<Seq<char>>) -> Option<Seq<char>> {
    let i = first_arg(args, "--generate-completion"@);
    if i + 1 < args.len() {
        Some(args[i + 1])
    } else {
        None
    }
}

/// The shell that `--generate-completion <shell>` asks for, among all the
/// arguments (the program name included).
pub fn completion_request(args: &Vec<String>) -> (r: Option<String>)
    ensures
        r.deep_view() == completion_request_spec(args.deep_view()),
{
    let ghost av = args.deep_view();
    let mut i: usize = 0;
    while i < args.len()
        invariant
            i <= args.len(),
            av == args.deep_view(),
            forall|j: int| 0 <= j < i ==> av[j] != "--generate-completion"@,
        decreases args.len() - i,
    {
        assert(av[i as int] == args@[i as int]@);
        if str_eq(args[i].as_str(), "--generate-completion") {
            proof {
                lemma_first_arg(av, "--generate-completion"@, i as int);
            }
            if i + 1 < args.len() {
                assert(av[i + 1] == args@[i + 1]@);
                return Some(args[i + 1].clone());
            }
            return None;
        }
        i += 1;
    }
    proof {
        lemma_first_arg(av, "--generate-completion"@, av.len() as int);
    }
    None
}

/// Whether the arguments ask for the language directory
/// (`--print-lang-dir`).
pub fn wants_lang_dir(args: &Vec<String>) -> (r: bool)
    ensures
        r == args.deep_view().contains("--print-lang-dir"@),
{
    crate::text::strings_contain(args, "--print-lang-dir")
}

} // verus!
