//! `forge session <name>`: which session to switch to, for which project.

use vstd::prelude::*;
use crate::index::{ProjectIndex, entries_view, first_named, lemma_first_named_hit};
use crate::tmux::{session_name_for, session_name_spec};

verus! {

/// Why `forge session` cannot go on.
#[derive(Debug, Clone, Copy, PartialEq, Eq, Structural)]
pub enum SessionError {
    /// No project name was given.
    NameRequired,
    /// No project of that name is in the index.
    NotFound,
}

/// What `forge session` does: switch to (or create) `session` in `path`,
/// then record that the project at `position` of the index was opened.
#[derive(Debug, Clone)]
pub struct SessionPlan {
    pub session: String,
    pub path: String,
    pub position: usize,
}

/// The plan for `forge session` on `name`: the first project of that name
/// in the index.
pub fn run(name: Option<&str>, index: &ProjectIndex) -> (r: Result<SessionPlan, SessionError>)
    ensures
        name is None ==> r matches Err(SessionError::NameRequired),
        name matches Some(n) ==> {
            let es = entries_view(index.projects@);
            let i = first_named(es, n@);
            if i < es.len() {
                r matches Ok(p) && p.position == i && p.session@ == session_name_spec(n@) && p.path@
                    == es[i].path
            } else {
                r matches Err(SessionError::NotFound)
            }
        },
{
    let n = match name {
        Some(n) => n,
        None => {
            return Err(SessionError::NameRequired);
        },
    };
    proof {
        lemma_first_named_hit(entries_view(index.projects@), n@);
    }
    match index.find(n) {
        Some(i) => {
            assert(entries_view(index.projects@)[i as int] == index.projects@[i as int]@);
            Ok(
                SessionPlan {
                    session: session_name_for(n),
                    path: index.projects[i].path.clone(),
                    position: i,
                },
            )
        },
        None => {
            proof {
                let es = entries_view(index.projects@);
                if first_named(es, n@) < es.len() {
                    assert(es[first_named(es, n@)] == index.projects@[first_named(es, n@)]@);
                }
            }
            Err(SessionError::NotFound)
        },
    }
}

} // verus!
