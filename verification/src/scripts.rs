//! The environment that language and include `setup.sh` scripts run in.

use vstd::prelude::*;
use crate::config::ForgeConfig;

verus! {

broadcast use crate::text::lemma_chars_deep_view;

/// The variables every setup script gets: the project's name and path, the
/// sync base, the GitHub user, the editor, and `FORGE_DRY_RUN=0`.
pub open spec fn base_env(
    project_name: Seq<char>,
    project_path: Seq<char>,
    sync_base: Seq<char>,
    github_user: Seq<char>,
    editor: Seq<char>,
) -> Seq<(Seq<char>, Seq<char>)> {
    seq![
        ("FORGE_PROJECT_NAME"@, project_name),
        ("FORGE_PROJECT_PATH"@, project_path),
        ("FORGE_SYNC_BASE"@, sync_base),
        ("FORGE_GITHUB_USER"@, github_user),
        ("FORGE_EDITOR"@, editor),
        ("FORGE_DRY_RUN"@, "0"@),
    ]
}

fn pair(k: &str, v: &str) -> (r: (String, String))
    ensures
        r.0@ == k@,
        r.1@ == v@,
{
    (k.to_owned(), v.to_owned())
}

/// The environment of an include's `setup.sh` for the project
/// `project_name` in `project_path`.
pub fn include_env(config: &ForgeConfig, project_name: &str, project_path: &str) -> (r: Vec<(String, String)>)
    ensures
        r.deep_view() == base_env(
            project_name@,
            project_path@,
            config.sync_base@,
            config.github_user@,
            config.editor@,
        ),
{
    let r = vec![
        pair("FORGE_PROJECT_NAME", project_name),
        pair("FORGE_PROJECT_PATH", project_path),
        pair("FORGE_SYNC_BASE", config.sync_base.as_str()),
        pair("FORGE_GITHUB_USER", config.github_user.as_str()),
        pair("FORGE_EDITOR", config.editor.as_str()),
        pair("FORGE_DRY_RUN", "0"),
    ];
    assert(r.deep_view() =~= base_env(
        project_name@,
        project_path@,
        config.sync_base@,
        config.github_user@,
        config.editor@,
    ));
    r
}

/// The environment of a language's `setup.sh`: the project's name and
/// path, the language and its directory, then the rest of the common
/// variables.
pub fn lang_env(
    config: &ForgeConfig,
    project_name: &str,
    project_path: &str,
    lang: &str,
    lang_dir: &str,
) -> (r: Vec<(String, String)>)
    ensures
        r.deep_view() == seq![
            ("FORGE_PROJECT_NAME"@, project_name@),
            ("FORGE_PROJECT_PATH"@, project_path@),
            ("FORGE_LANG"@, lang@),
            ("FORGE_LANG_TEMPLATE_DIR"@, lang_dir@),
        ] + base_env(
            project_name@,
            project_path@,
            config.sync_base@,
            config.github_user@,
            config.editor@,
        ).skip(2),
{
    let r = vec![
        pair("FORGE_PROJECT_NAME", project_name),
        pair("FORGE_PROJECT_PATH", project_path),
        pair("FORGE_LANG", lang),
        pair("FORGE_LANG_TEMPLATE_DIR", lang_dir),
        pair("FORGE_SYNC_BASE", config.sync_base.as_str()),
        pair("FORGE_GITHUB_USER", config.github_user.as_str()),
        pair("FORGE_EDITOR", config.editor.as_str()),
        pair("FORGE_DRY_RUN", "0"),
    ];
    assert(r.deep_view() =~= seq![
        ("FORGE_PROJECT_NAME"@, project_name@),
        ("FORGE_PROJECT_PATH"@, project_path@),
        ("FORGE_LANG"@, lang@),
        ("FORGE_LANG_TEMPLATE_DIR"@, lang_dir@),
    ] + base_env(
        project_name@,
        project_path@,
        config.sync_base@,
        config.github_user@,
        config.editor@,
    ).skip(2));
    r
}

} // verus!
