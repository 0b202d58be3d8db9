//! tmux sessions: how a project's session is named, and which tmux commands
//! switch to it.  Running tmux is left to the caller.

use vstd::prelude::*;
use crate::text::{chars_of, push_str, string_of};

verus! {

/// The name of a project's session: the project name behind `forge-`.
pub open spec fn session_name_spec(name: Seq<char>) -> Seq<char> {
    "forge-"@ + name
}

/// The session name for project `name`.
pub fn session_name_for(name: &str) -> (r: String)
    ensures
        r@ == session_name_spec(name@),
{
    let mut v: Vec<char> = chars_of("forge-");
    push_str(&mut v, name);
    string_of(v.as_slice())
}

/// The argument lists of the tmux invocations that switch to `session`:
/// straight away when it exists, else after creating it detached in `path`.
pub open spec fn switch_plan(session: Seq<char>, path: Seq<char>, exists: bool) -> Seq<
    Seq<Seq<char>>,
> {
    let switch = seq!["switch-client"@, "-t"@, session];
    if exists {
        seq![switch]
    } else {
        seq![seq!["new-session"@, "-d"@, "-s"@, session, "-c"@, path], switch]
    }
}

/// The arguments of the tmux invocation that asks whether `session` exists.
pub fn has_session_args(session: &str) -> (r: Vec<String>)
    ensures
        r.deep_view() == seq!["has-session"@, "-t"@, session@],
{
    let r = vec!["has-session".to_owned(), "-t".to_owned(), session.to_owned()];
    assert(r.deep_view() =~= seq!["has-session"@, "-t"@, session@]);
    r
}

/// Switch-or-create: the tmux invocations to run for `session_name`, given
/// whether tmux reported that it exists.
pub fn switch_or_create(session_name: &str, path: &str, exists: bool) -> (r: Vec<Vec<String>>)
    ensures
        r.deep_view() == switch_plan(session_name@, path@, exists),
{
    let switch = vec!["switch-client".to_owned(), "-t".to_owned(), session_name.to_owned()];
    assert(switch.deep_view() =~= seq!["switch-client"@, "-t"@, session_name@]);
    if exists {
        let r = vec![switch];
        assert(r.deep_view() =~= switch_plan(session_name@, path@, exists));
        r
    } else {
        let create = vec![
            "new-session".to_owned(),
            "-d".to_owned(),
            "-s".to_owned(),
            session_name.to_owned(),
            "-c".to_owned(),
            path.to_owned(),
        ];
        assert(create.deep_view() =~= seq![
            "new-session"@,
            "-d"@,
            "-s"@,
            session_name@,
            "-c"@,
            path@,
        ]);
        let r = vec![create, switch];
        assert(r.deep_view() =~= switch_plan(session_name@, path@, exists));
        r
    }
}

} // verus!
