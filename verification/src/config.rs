//! Forge's configuration (`$FORGE_CONFIG_DIR/config.json`), with paths held
//! as strings.

use vstd::prelude::*;
use crate::paths::{join, path_join};

verus! {

/// Where forge keeps and finds things, and which programs it runs.
#[derive(Debug, Clone)]
pub struct ForgeConfig {
    pub sync_base: String,
    pub editor: String,
    pub tmux_bin: String,
    pub github_user: String,
    pub lang_dir: String,
    pub include_dir: String,
    pub config_dir: String,
}

impl ForgeConfig {
    /// The configuration read from `config.json`, found in `config_dir`.
    pub fn from_parts(
        sync_base: String,
        editor: String,
        tmux_bin: String,
        github_user: String,
        lang_dir: String,
        include_dir: String,
        config_dir: String,
    ) -> (r: ForgeConfig)
        ensures
            r.sync_base == sync_base,
            r.editor == editor,
            r.tmux_bin == tmux_bin,
            r.github_user == github_user,
            r.lang_dir == lang_dir,
            r.include_dir == include_dir,
            r.config_dir == config_dir,
    {
        ForgeConfig { sync_base, editor, tmux_bin, github_user, lang_dir, include_dir, config_dir }
    }

    /// Directory holding `config.json` and `index.json` (e.g. `~/.forge`).
    pub fn config_dir(&self) -> (r: String)
        ensures
            r@ == self.config_dir@,
    {
        self.config_dir.clone()
    }

    /// The project index file.
    pub fn index_path(&self) -> (r: String)
        ensures
            r@ == path_join(self.config_dir@, "index.json"@),
    {
        join(self.config_dir.as_str(), "index.json")
    }

    /// The per-project state directory.
    pub fn state_dir(&self) -> (r: String)
        ensures
            r@ == path_join(self.config_dir@, "state"@),
    {
        join(self.config_dir.as_str(), "state")
    }

    /// The root of all projects: the sync base.
    pub fn projects_dir(&self) -> (r: String)
        ensures
            r@ == self.sync_base@,
    {
        self.sync_base.clone()
    }

    /// The built-in language packs.
    pub fn lang_default_dir(&self) -> (r: String)
        ensures
            r@ == path_join(self.lang_dir@, "default"@),
    {
        join(self.lang_dir.as_str(), "default")
    }

    /// The user's own language packs.
    pub fn lang_custom_dir(&self) -> (r: String)
        ensures
            r@ == path_join(self.lang_dir@, "custom"@),
    {
        join(self.lang_dir.as_str(), "custom")
    }

    /// The built-in includes.
    pub fn include_default_dir(&self) -> (r: String)
        ensures
            r@ == path_join(self.include_dir@, "default"@),
    {
        join(self.include_dir.as_str(), "default")
    }

    /// The user's own includes.
    pub fn include_custom_dir(&self) -> (r: String)
        ensures
            r@ == path_join(self.include_dir@, "custom"@),
    {
        join(self.include_dir.as_str(), "custom")
    }

    /// Where the `lang.wl` of language `lang` may be, in the order they are
    /// looked at: among the built-in packs, then among the user's own.
    pub fn lang_file_candidates(&self, lang: &str) -> (r: Vec<String>)
        ensures
            r.deep_view() == seq![
                path_join(path_join(path_join(self.lang_dir@, "default"@), lang@), "lang.wl"@),
                path_join(path_join(path_join(self.lang_dir@, "custom"@), lang@), "lang.wl"@),
            ],
    {
        let d = join(self.lang_default_dir().as_str(), lang);
        let c = join(self.lang_custom_dir().as_str(), lang);
        let r = vec![join(d.as_str(), "lang.wl"), join(c.as_str(), "lang.wl")];
        assert(r.deep_view() =~= seq![
            path_join(path_join(path_join(self.lang_dir@, "default"@), lang@), "lang.wl"@),
            path_join(path_join(path_join(self.lang_dir@, "custom"@), lang@), "lang.wl"@),
        ]);
        r
    }

    /// Where the directory of include `name` may be, in the order they are
    /// looked at: among the built-in includes, then among the user's own.
    pub fn include_dir_candidates(&self, name: &str) -> (r: Vec<String>)
        ensures
            r.deep_view() == seq![
                path_join(path_join(self.include_dir@, "default"@), name@),
                path_join(path_join(self.include_dir@, "custom"@), name@),
            ],
    {
        let r = vec![
            join(self.include_default_dir().as_str(), name),
            join(self.include_custom_dir().as_str(), name),
        ];
        assert(r.deep_view() =~= seq![
            path_join(path_join(self.include_dir@, "default"@), name@),
            path_join(path_join(self.include_dir@, "custom"@), name@),
        ]);
        r
    }
}

/// Index of the first candidate that exists (`exists[i]` tells about
/// candidate `i`), or `None`.
pub fn first_existing(exists: &Vec<bool>) -> (r: Option<usize>)
    ensures
        r matches Some(i) ==> i < exists.len() && exists@[i as int] && forall|j: int|
            0 <= j < i ==> !exists@[j],
        r is None ==> forall|j: int| 0 <= j < exists.len() ==> !exists@[j],
{
    let mut i: usize = 0;
    while i < exists.len()
        invariant
            i <= exists.len(),
            forall|j: int| 0 <= j < i ==> !exists@[j],
        decreases exists.len() - i,
    {
        if exists[i] {
            return Some(i);
        }
        i += 1;
    }
    None
}

} // verus!
