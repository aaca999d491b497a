//! The settings window of one run: its open beams, or its output folder.

use vstd::prelude::*;
use crate::choices::{Choice, ObChoice};
use crate::files::{FileStatus, RunFiles};
use crate::labels::{label, Label, Tone, Words};
use crate::text::Text;
use crate::{beams, choices, files, labels, number, pass, paths, text};

verus! {

/// Which per-run setting a [`RunEditor`] window edits.
#[derive(Clone, Copy, Debug, PartialEq, Eq, Structural)]
pub enum EditorMode {
    /// "⇄ replace by…": the open beams the run divides by.
    OpenBeams,
    /// "✏" next to the Output column: the run's output folder.
    Output,
}

/// The per-run settings window (open beams, or output folder) being
/// edited.
pub struct RunEditor {
    pub run: u64,
    pub mode: EditorMode,
    /// Frames of the run's corrected data (open beams must match).
    pub frames: usize,
    pub choices: Vec<ObChoice>,
    /// The open-beam folders currently ticked.
    pub selected: Vec<String>,
    pub output_text: String,
}

/// What the run editor's buttons ask for.
#[derive(Clone, Copy, Debug, PartialEq, Eq, Structural)]
pub enum EditorAction {
    /// Keep the setting for this run (normalized later, by the automatic
    /// pass or ▶ normalize).
    Apply,
    /// Keep the setting and normalize the run now (re-run when done).
    ApplyAndRun,
    /// Open beams: this run now, and every upcoming run (the ticked open
    /// beams become the configuration's — new file).
    ApplyUpcomingAndRun,
    Cancel,
}

/// What an action asks for: to run now, and to switch the upcoming runs too;
/// `None` to drop the settings.
pub fn asked_by(action: EditorAction) -> (r: Option<(bool, bool)>)
    ensures
        r == match action {
            EditorAction::Apply => Some((false, false)),
            EditorAction::ApplyAndRun => Some((true, false)),
            EditorAction::ApplyUpcomingAndRun => Some((true, true)),
            EditorAction::Cancel => None,
        },
{
    match action {
        EditorAction::Apply => Some((false, false)),
        EditorAction::ApplyAndRun => Some((true, false)),
        EditorAction::ApplyUpcomingAndRun => Some((true, true)),
        EditorAction::Cancel => None,
    }
}

/// The folder whose frames the open beams must match: the run's complete
/// corrected folder, if it has one.
pub fn frames_folder(rows: &Vec<RunFiles>, run: u64) -> (r: Option<String>)
    ensures
        text::opt_text(r) == match pass::row_of(files::statuses(rows@), run, 0) {
            Some(row) => match row.corrected {
                FileStatus::Present(folder) => Some(folder),
                _ => None,
            },
            None => None,
        },
{
    match pass::find_row(rows, run) {
        Some(row) => match &row.corrected {
            FileStatus::Present(folder) => Some(folder.clone()),
            _ => None,
        },
        None => None,
    }
}

/// The title of the window.
pub open spec fn title_words(mode: EditorMode, run: u64) -> Text {
    let n = number::decimal(run as nat);
    match mode {
        EditorMode::OpenBeams => "Run "@ + n + " — replace the open beams by…"@,
        EditorMode::Output => "Run "@ + n + " — output folder"@,
    }
}

pub fn title(mode: EditorMode, run: u64) -> (r: String)
    ensures
        r@ == title_words(mode, run),
{
    let n = number::decimal_text(run);
    match mode {
        EditorMode::OpenBeams => text::cat3("Run ", n.as_str(), " — replace the open beams by…"),
        EditorMode::Output => text::cat3("Run ", n.as_str(), " — output folder"),
    }
}

/// The note above the open beams.
pub open spec fn frames_words(run: u64, frames: nat) -> Text {
    let n = number::decimal(run as nat);
    if frames > 0 {
        "The corrected data of run "@ + n + " has "@ + number::decimal(frames)
            + " frames — tick open beams with the same number of frames (1 or more)."@
    } else {
        "Run "@ + n
            + " has no complete corrected data yet — tick the open beams (1 or more) it will divide by."@
    }
}

pub fn frames_note(run: u64, frames: usize) -> (r: String)
    ensures
        r@ == frames_words(run, frames as nat),
{
    let n = number::decimal_text(run);
    if frames > 0 {
        let k = number::decimal_text(frames as u64);
        text::cat5(
            "The corrected data of run ",
            n.as_str(),
            " has ",
            k.as_str(),
            " frames — tick open beams with the same number of frames (1 or more).",
        )
    } else {
        text::cat3(
            "Run ",
            n.as_str(),
            " has no complete corrected data yet — tick the open beams (1 or more) it will divide by.",
        )
    }
}

/// The label of an open beam: its run (or its name), its frames and what
/// speaks against it.
pub open spec fn choice_words(c: Choice, frames: nat, config_obs: Seq<Text>) -> Text {
    let who = match c.run {
        Some(run) => "run "@ + number::decimal(run as nat),
        None => paths::name_of(c.folder),
    };
    let but = if !c.complete {
        "  (⏳ corrected data not complete)"@
    } else if frames > 0 && c.frames != frames {
        "  (⚠ frame count differs)"@
    } else {
        ""@
    };
    let own = if choices::path_listed(config_obs, c.folder) {
        "  [configuration's]"@
    } else {
        ""@
    };
    who + " — "@ + number::decimal(c.frames) + " frames"@ + but + own
}

pub fn choice_label(c: &ObChoice, frames: usize, config_obs: &Vec<String>) -> (r: String)
    ensures
        r@ == choice_words(c@, frames as nat, text::texts(config_obs@)),
{
    let who = match c.run {
        Some(run) => {
            let n = number::decimal_text(run);
            text::cat2("run ", n.as_str())
        },
        None => paths::name_text(c.folder.as_str()),
    };
    let k = number::decimal_text(c.frames as u64);
    let but = if !c.complete {
        "  (⏳ corrected data not complete)"
    } else if frames > 0 && c.frames != frames {
        "  (⚠ frame count differs)"
    } else {
        ""
    };
    let own = if choices::lists_path(config_obs, c.folder.as_str()) {
        "  [configuration's]"
    } else {
        ""
    };
    text::cat6(who.as_str(), " — ", k.as_str(), " frames", but, own)
}

/// The ticked folders after one is ticked or cleared.
pub open spec fn ticked(selected: Seq<Text>, folder: Text, checked: bool) -> Seq<Text> {
    if !checked {
        selected.filter(|f: Text| !paths::same_path(f, folder))
    } else if choices::path_listed(selected, folder) {
        selected
    } else {
        selected.push(folder)
    }
}

/// Tick an open beam, or clear it.
pub fn tick(selected: &mut Vec<String>, folder: &str, checked: bool)
    ensures
        text::texts(final(selected)@) == ticked(text::texts(old(selected)@), folder@, checked),
{
    if checked {
        if !choices::lists_path(selected, folder) {
            let ghost before = selected@;
            selected.push(folder.to_owned());
            assert(text::texts(selected@) =~= text::texts(before).push(folder@));
        }
        return ;
    }
    let ghost all = text::texts(selected@);
    let ghost keep = |f: Text| !paths::same_path(f, folder@);
    let mut out: Vec<String> = Vec::new();
    let mut i: usize = 0;
    proof {
        reveal(Seq::filter);
        assert(text::texts(out@) =~= all.take(0).filter(keep));
    }
    while i < selected.len()
        invariant
            i <= selected@.len(),
            selected@ == old(selected)@,
            all == text::texts(selected@),
            keep == (|f: Text| !paths::same_path(f, folder@)),
            text::texts(out@) == all.take(i as int).filter(keep),
        decreases selected@.len() - i,
    {
        reveal(Seq::filter);
        assert(all.take(i + 1).drop_last() =~= all.take(i as int));
        assert(all.take(i + 1).last() == selected@[i as int]@);
        if !paths::same_as(selected[i].as_str(), folder) {
            let ghost before = out@;
            let item = selected[i].clone();
            out.push(item);
            assert(text::texts(out@) =~= text::texts(before).push(item@));
        }
        i = i + 1;
    }
    assert(all.take(i as int) =~= all);
    *selected = out;
}

/// Clearing an open beam that was ticked when it was not gives back what was
/// ticked.
pub proof fn ticks_are_undone(selected: Seq<Text>, folder: Text)
    requires
        !choices::path_listed(selected, folder),
    ensures
        ticked(ticked(selected, folder, true), folder, false) == selected,
{
    let keep = |f: Text| !paths::same_path(f, folder);
    reveal(Seq::filter);
    assert(selected.push(folder).drop_last() =~= selected);
    lemma_filter_keeps(selected, keep);
}

proof fn lemma_filter_keeps(v: Seq<Text>, keep: spec_fn(Text) -> bool)
    requires
        forall|i: int| 0 <= i < v.len() ==> keep(#[trigger] v[i]),
    ensures
        v.filter(keep) == v,
    decreases v.len(),
{
    reveal(Seq::filter);
    if v.len() > 0 {
        let rest = v.drop_last();
        assert forall|i: int| 0 <= i < rest.len() implies keep(#[trigger] rest[i]) by {
            assert(rest[i] == v[i]);
        }
        lemma_filter_keeps(rest, keep);
        assert(v.last() == v[v.len() - 1]);
        assert(v =~= rest.push(v.last()));
    } else {
        assert(v.filter(keep) =~= v);
    }
}

/// The ticked open beams in short.
pub fn ticked_text(selected: &Vec<String>) -> (r: String)
    ensures
        r@ == if selected@.len() == 0 {
            "none ticked"@
        } else {
            "ticked: "@ + beams::beams_words(text::texts(selected@))
        },
{
    if selected.len() == 0 {
        "none ticked".to_owned()
    } else {
        let list = beams::ob_runs_text(selected);
        text::cat2("ticked: ", list.as_str())
    }
}

/// What running now is called.
pub open spec fn now_words(done: bool) -> Text {
    if done {
        "re-run now"@
    } else {
        "normalize now"@
    }
}

pub fn now_text(done: bool) -> (r: &'static str)
    ensures
        r@ == now_words(done),
{
    if done {
        "re-run now"
    } else {
        "normalize now"
    }
}

/// The state of the run that the window is about.
#[derive(Clone, Copy, Debug, PartialEq, Eq, Structural)]
pub struct RunStanding {
    pub running: bool,
    /// Is its corrected data complete?
    pub ready: bool,
    /// Is it normalized?
    pub done: bool,
}

/// What happens when the settings are applied.
pub open spec fn apply_words(what: Text, run: u64, s: RunStanding) -> Text {
    let n = number::decimal(run as nat);
    if s.running {
        "This run is being normalized — the setting applies to its next normalization"@
    } else if !s.ready {
        what + " — normalized as soon as the corrected data of run "@ + n
            + " is complete (automatically when auto normalization covers it, else with ▶ normalize)"@
    } else if s.done {
        what + " and normalize run "@ + n
            + " again at once — the result already in the target folder is kept as normalization.previous"@
    } else {
        what + " and normalize run "@ + n + " at once"@
    }
}

pub fn apply_hover(what: &str, run: u64, s: RunStanding) -> (r: String)
    ensures
        r@ == apply_words(what@, run, s),
{
    let n = number::decimal_text(run);
    if s.running {
        "This run is being normalized — the setting applies to its next normalization".to_owned()
    } else if !s.ready {
        text::cat4(
            what,
            " — normalized as soon as the corrected data of run ",
            n.as_str(),
            " is complete (automatically when auto normalization covers it, else with ▶ normalize)",
        )
    } else if s.done {
        text::cat4(
            what,
            " and normalize run ",
            n.as_str(),
            " again at once — the result already in the target folder is kept as normalization.previous",
        )
    } else {
        text::cat4(what, " and normalize run ", n.as_str(), " at once")
    }
}

/// The button that replaces the open beams of this run.
pub open spec fn replace_words(none: bool, run: u64, s: RunStanding) -> Words {
    labels::words(
        "Replace for this run & "@ + now_words(s.done),
        if none {
            "Tick at least one open beam"@
        } else {
            apply_words("Use the ticked open beams for this run only"@, run, s)
        },
        Tone::Plain,
    )
}

/// The button that replaces the open beams of this run, and whether it can
/// be pressed.
pub fn replace_button(none: bool, run: u64, s: RunStanding) -> (r: (Label, bool))
    ensures
        r.0@ == replace_words(none, run, s),
        r.1 == (!none && !s.running),
{
    let shown = text::cat2("Replace for this run & ", now_text(s.done));
    let hover = if none {
        "Tick at least one open beam".to_owned()
    } else {
        apply_hover("Use the ticked open beams for this run only", run, s)
    };
    (label(shown.as_str(), hover.as_str(), Tone::Plain), !none && !s.running)
}

/// The button that replaces the open beams of this run and of those to come.
pub open spec fn upcoming_words(none: bool, has_config: bool, run: u64, s: RunStanding) -> Words {
    labels::words(
        "Replace for this run and every upcoming run & "@ + now_words(s.done),
        if none {
            "Tick at least one open beam"@
        } else if !has_config {
            "Select a configuration file first (section 2)"@
        } else {
            apply_words("Use the ticked open beams for this run"@, run, s)
                + "\nA copy of the selected configuration with the ticked open beams is written next to it and selected: every run normalized from now on divides by them (with auto normalization ON the new file is registered in the shared autoreduction.cfg at once). Runs already normalized are not redone."@
        },
        Tone::Plain,
    )
}

/// The button that replaces the open beams of this run and of those to come,
/// and whether it can be pressed.
pub fn upcoming_button(none: bool, has_config: bool, run: u64, s: RunStanding) -> (r: (Label, bool))
    ensures
        r.0@ == upcoming_words(none, has_config, run, s),
        r.1 == (!none && !s.running && has_config),
{
    let shown = text::cat2("Replace for this run and every upcoming run & ", now_text(s.done));
    let hover = if none {
        "Tick at least one open beam".to_owned()
    } else if !has_config {
        "Select a configuration file first (section 2)".to_owned()
    } else {
        let head = apply_hover("Use the ticked open beams for this run", run, s);
        text::cat2(
            head.as_str(),
            "\nA copy of the selected configuration with the ticked open beams is written next to it and selected: every run normalized from now on divides by them (with auto normalization ON the new file is registered in the shared autoreduction.cfg at once). Runs already normalized are not redone.",
        )
    };
    (
        label(shown.as_str(), hover.as_str(), Tone::Plain),
        !none && !s.running && has_config,
    )
}

/// The button that applies the output folder and runs at once, and whether
/// it can be pressed.
pub fn output_button(run: u64, s: RunStanding) -> (r: (Label, bool))
    ensures
        r.0@ == labels::words(
            "Apply & "@ + now_words(s.done),
            apply_words("Keep this output folder"@, run, s),
            Tone::Plain,
        ),
        r.1 == !s.running,
{
    let shown = text::cat2("Apply & ", now_text(s.done));
    let hover = apply_hover("Keep this output folder", run, s);
    (label(shown.as_str(), hover.as_str(), Tone::Plain), !s.running)
}

} // verus!
