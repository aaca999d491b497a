//! Provision and launch the marimo "Normalization TOF at VENUS" notebook
//! inside a chosen IPTS, exactly like the marimo general-tools portal does:
//! the notebook (plus its `utilities/` package) is copied into
//! `<IPTS>/shared/notebooks/imaging_marimo_<user>/` and marimo is started
//! with that folder as working directory — the notebook detects the IPTS
//! from its cwd and pre-selects it, so the user lands directly in the right
//! experiment.

use vstd::prelude::*;
use crate::text::{chars_of, slice, Class, Text};
use crate::{paths, text};

verus! {

/// The notebook used to create/edit normalization configuration files.
pub const NOTEBOOK_PATH: &'static str =
    "/SNS/VENUS/shared/software/git/marimo_notebooks/notebooks/normalization_tof_at_venus_marimo.py";

/// The marimo binary of the shared notebooks environment.
pub const MARIMO_BIN: &'static str =
    "/SNS/VENUS/shared/software/git/marimo_notebooks/.pixi/envs/default/bin/marimo";

/// The environment variable that names the session the notebook opens with.
pub const SESSION_VARIABLE: &'static str = "NORMALIZATION_TOF_CONFIG";

/// What the button that launches the notebook reads: the notebook opens
/// blank while no file is selected, and with the selected file otherwise.
pub fn launch_label(selected: bool) -> (r: &'static str)
    ensures
        r@ == (if selected {
            "✏ Edit and/or replace current configuration"@
        } else {
            "🚀 Create new configuration"@
        }),
{
    if selected {
        "✏ Edit and/or replace current configuration"
    } else {
        "🚀 Create new configuration"
    }
}

/// The folder a user's copy of the notebook lies in.
pub open spec fn user_folder(ipts: Text, user: Text) -> Text {
    paths::below(paths::below(ipts, "shared/notebooks"@), "imaging_marimo_"@ + user)
}

/// Where everything of a provisioning comes from and goes to.
pub struct Provision {
    /// The folder of the notebook's sources.
    pub sources: String,
    /// The notebook's file name.
    pub file_name: String,
    /// The user's folder.
    pub dest: String,
    /// The folder of all users' folders.
    pub notebooks: String,
}

/// Plan the copy of the notebook + its `utilities/` package into the
/// per-user notebooks folder of `ipts_path`.
pub fn provision(ipts_path: &str, user: &str) -> (r: Result<Provision, String>)
    ensures
        match r {
            Ok(p) => {
                &&& paths::parent(NOTEBOOK_PATH@) == Some(p.sources@)
                &&& paths::file_name(NOTEBOOK_PATH@) == Some(p.file_name@)
                &&& p.dest@ == user_folder(ipts_path@, user@)
                &&& p.notebooks@ == (match paths::parent(p.dest@) {
                    Some(folder) => folder,
                    None => p.dest@,
                })
            },
            Err(message) => {
                ||| paths::file_name(NOTEBOOK_PATH@) is None && message@
                    == "invalid notebook path: "@ + NOTEBOOK_PATH@
                ||| paths::file_name(NOTEBOOK_PATH@) is Some && paths::parent(NOTEBOOK_PATH@) is None
                    && message@ == "cannot determine source folder of "@ + NOTEBOOK_PATH@
            },
        },
{
    let file_name = match paths::file_name_of(NOTEBOOK_PATH) {
        Some(name) => name,
        None => return Err(text::cat2("invalid notebook path: ", NOTEBOOK_PATH)),
    };
    let sources = match paths::parent_of(NOTEBOOK_PATH) {
        Some(folder) => folder,
        None => return Err(text::cat2("cannot determine source folder of ", NOTEBOOK_PATH)),
    };
    let all = paths::join(ipts_path, "shared/notebooks");
    let own = text::cat2("imaging_marimo_", user);
    let dest = paths::join(all.as_str(), own.as_str());
    let notebooks = match paths::parent_of(dest.as_str()) {
        Some(folder) => folder,
        None => dest.clone(),
    };
    Ok(Provision { sources, file_name, dest, notebooks })
}

/// Is this a python cache folder, to be left out of a copy?
pub fn is_cache(name: &str) -> (r: bool)
    ensures
        r == (name@ == "__pycache__"@ || name@ == "__marimo__"@),
{
    text::same(name, "__pycache__") || text::same(name, "__marimo__")
}

/// The address a line of marimo's output names: from its first `http://` up
/// to the next whitespace.
pub open spec fn address(line: Text) -> Option<Text> {
    match text::find(line, "http://"@) {
        Some(i) => Some(line.subrange(i, text::run_end(line, Class::NotSpace, i))),
        None => None,
    }
}

/// The URL marimo serves the notebook at, where the line names it.
pub fn served_url(line: &str) -> (r: Option<String>)
    ensures
        text::opt_text(r) == address(line@),
{
    let v = chars_of(line);
    let pat = chars_of("http://");
    match text::find_chars(&v, &pat) {
        Some(i) => {
            let e = text::end_of_run(&v, Class::NotSpace, i);
            Some(slice(&v, i, e))
        },
        None => None,
    }
}

} // verus!
