//! The command line of `forge`, as plain data.  The binary parses it (with
//! its own copy of these types carrying the parser's derives) and hands it
//! over in this form.

use vstd::prelude::*;

verus! {

/// The parsed command line.
#[derive(Debug, Clone)]
pub struct Cli {
    pub command: Command,
}

/// A subcommand with its arguments and flags.
#[derive(Debug, Clone)]
pub enum Command {
    /// Create a new project.
    Create {
        name: String,
        lang: String,
        no_open: bool,
        setup: bool,
        includes: Option<String>,
        path: Option<String>,
        run: Option<String>,
        editor: bool,
        dry_run: bool,
    },
    /// Remove a project from the index.
    Remove { name: String },
    /// List all projects.
    List { tags: Option<String> },
    /// Re-scan the sync base and rebuild the index (or the catalogues).
    Sync { langs: bool, includes: bool },
    /// Print a project's path.
    Cd { name: String, print: bool },
    /// Switch to or create a project's tmux session.
    Session { name: Option<String>, setup: bool, open: bool },
    /// Interactive fzf picker.
    Pick { tags: Option<String> },
    /// Run a project's setup scripts.
    Setup { name: String, dry_run: bool },
    /// List or show include modules.
    Include { list: bool, name: Option<String> },
    /// List or add language packs.
    Lang {
        list: bool,
        add: bool,
        lang_name: Option<String>,
        path: Option<String>,
        direnv: Option<String>,
    },
    /// Write or remove overseer.nvim task templates.
    Overseer { regen: bool, name: Option<String>, rm: bool, setup: bool },
    /// Print the JSON overseer task definition of a project.
    OverseerDef { name: String },
    /// Edit a project's `.wl`.
    Edit { name: String },
    /// Open a project's directory in the editor.
    Open { name: String },
    /// Validate `.wl` files.
    Check { name: Option<String> },
    /// Check (and with `fix` repair) the index.
    Health { fix: bool },
    /// Show help on a command.
    Help { command: String },
}

/// Which catalogues `forge sync` refreshes.
#[derive(Debug, Clone, Copy)]
pub struct SyncFlags {
    pub langs: bool,
    pub includes: bool,
}

/// What `forge sync` does for `flags`: refresh the language catalogue, the
/// include catalogue, and (when neither is asked for) the project index.
pub fn sync_tasks(flags: SyncFlags) -> (r: (bool, bool, bool))
    ensures
        r == (flags.langs, flags.includes, !flags.langs && !flags.includes),
{
    (flags.langs, flags.includes, !flags.langs && !flags.includes)
}

} // verus!
