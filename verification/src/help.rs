//! `forge help <command>`: which help text is asked for.

use vstd::prelude::*;
use crate::text::{chars_of, str_eq, string_of, trim, trim_chars};

verus! {

/// A help text.
#[derive(Debug, Clone, Copy, PartialEq, Eq, Structural)]
pub enum HelpTopic {
    Global,
    Create,
    Remove,
    List,
    Sync,
    Cd,
    Session,
    Pick,
    Setup,
    Include,
    Lang,
    Overseer,
    OverseerDef,
    Edit,
    Open,
    /// No help exists for this command.
    Unknown,
}

/// The help text for the (trimmed) command `c`.
pub open spec fn topic_of(c: Seq<char>) -> HelpTopic {
    if c.len() == 0 {
        HelpTopic::Global
    } else if c == "create"@ {
        HelpTopic::Create
    } else if c == "remove"@ {
        HelpTopic::Remove
    } else if c == "list"@ {
        HelpTopic::List
    } else if c == "sync"@ {
        HelpTopic::Sync
    } else if c == "cd"@ {
        HelpTopic::Cd
    } else if c == "session"@ {
        HelpTopic::Session
    } else if c == "pick"@ {
        HelpTopic::Pick
    } else if c == "setup"@ {
        HelpTopic::Setup
    } else if c == "include"@ {
        HelpTopic::Include
    } else if c == "lang"@ {
        HelpTopic::Lang
    } else if c == "overseer"@ {
        HelpTopic::Overseer
    } else if c == "overseer-def"@ {
        HelpTopic::OverseerDef
    } else if c == "edit"@ {
        HelpTopic::Edit
    } else if c == "open"@ {
        HelpTopic::Open
    } else {
        HelpTopic::Unknown
    }
}

/// The trimmed command that help was asked on, and its topic.
pub fn help_topic(command: &str) -> (r: (String, HelpTopic))
    ensures
        r.0@ == trim(command@),
        r.1 == topic_of(trim(command@)),
{
    let t = trim_chars(chars_of(command).as_slice());
    let c = string_of(t.as_slice());
    let s = c.as_str();
    let topic = if t.len() == 0 {
        HelpTopic::Global
    } else if str_eq(s, "create") {
        HelpTopic::Create
    } else if str_eq(s, "remove") {
        HelpTopic::Remove
    } else if str_eq(s, "list") {
        HelpTopic::List
    } else if str_eq(s, "sync") {
        HelpTopic::Sync
    } else if str_eq(s, "cd") {
        HelpTopic::Cd
    } else if str_eq(s, "session") {
        HelpTopic::Session
    } else if str_eq(s, "pick") {
        HelpTopic::Pick
    } else if str_eq(s, "setup") {
        HelpTopic::Setup
    } else if str_eq(s, "include") {
        HelpTopic::Include
    } else if str_eq(s, "lang") {
        HelpTopic::Lang
    } else if str_eq(s, "overseer") {
        HelpTopic::Overseer
    } else if str_eq(s, "overseer-def") {
        HelpTopic::OverseerDef
    } else if str_eq(s, "edit") {
        HelpTopic::Edit
    } else if str_eq(s, "open") {
        HelpTopic::Open
    } else {
        HelpTopic::Unknown
    };
    (c, topic)
}

} // verus!
