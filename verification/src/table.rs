//! The cells of the runs table.

use vstd::prelude::*;
use crate::files::{FileStatus, RunFiles};
use crate::h5::RunKind;
use crate::jobs::{Board, Phases};
use crate::labels::{label, Label, Tone, Words};
use crate::norm::{JobState, Phase};
use crate::pass::{Meta, RunMeta};
use crate::runmap::RunMap;
use crate::settings::{Plan, Settings};
use crate::text::Text;
use crate::{beams, files, jobs, labels, norm, number, order, pass, paths, settings, text};

verus! {

// ---------------------------------------------------------------------
// The run and its files

/// The hover of a run's number: why it is out of the windows.
pub open spec fn run_hover_words(rejected: bool, kind: RunKind) -> Option<Text> {
    if rejected {
        Some("Rejected — excluded from the windows"@)
    } else {
        match kind {
            RunKind::Sample => None,
            RunKind::Alignment => Some("Alignment run — no normalization needed"@),
            RunKind::OpenBeam => Some(
                "Open-beam run — a normalization input, not normalized itself"@,
            ),
        }
    }
}

pub fn run_hover(rejected: bool, kind: RunKind) -> (r: Option<&'static str>)
    ensures
        text::opt_str(r) == run_hover_words(rejected, kind),
{
    if rejected {
        Some("Rejected — excluded from the windows")
    } else {
        match kind {
            RunKind::Sample => None,
            RunKind::Alignment => Some("Alignment run — no normalization needed"),
            RunKind::OpenBeam => Some(
                "Open-beam run — a normalization input, not normalized itself",
            ),
        }
    }
}

/// The "Corrected" cell: an alignment run is never corrected by the
/// autoreduction — not checked (unless a folder is there anyway).
pub open spec fn corrected_words(kind: RunKind, status: FileStatus<Text>) -> Words {
    if kind == RunKind::Alignment && !(status is Present) {
        labels::words(
            "—"@,
            "Alignment run — the autoreduction does not correct alignment runs: nothing to wait for"@,
            Tone::Dim,
        )
    } else {
        labels::status_words(status)
    }
}

pub fn corrected_cell(kind: RunKind, status: &FileStatus) -> (r: Label)
    ensures
        r@ == corrected_words(kind, status@),
{
    let there = match status {
        FileStatus::Present(_) => true,
        _ => false,
    };
    if kind == RunKind::Alignment && !there {
        label(
            "—",
            "Alignment run — the autoreduction does not correct alignment runs: nothing to wait for",
            Tone::Dim,
        )
    } else {
        labels::status_cell(status)
    }
}

/// The hover of the "Preview" cell: what it opens, or why it opens nothing.
pub open spec fn preview_words(kind: RunKind, status: FileStatus<Text>) -> Words {
    match status {
        FileStatus::Present(folder) => labels::words(
            "👁"@,
            "Open the corrected data in the TIFF viewer\n"@ + folder,
            Tone::Plain,
        ),
        _ => labels::words(
            "—"@,
            if kind == RunKind::Alignment {
                "Alignment run — no corrected data to preview"@
            } else {
                "No corrected data yet"@
            },
            Tone::Dim,
        ),
    }
}

pub fn preview_cell(kind: RunKind, status: &FileStatus) -> (r: Label)
    ensures
        r@ == preview_words(kind, status@),
{
    match status {
        FileStatus::Present(folder) => {
            let hover = text::cat2(
                "Open the corrected data in the TIFF viewer\n",
                folder.as_str(),
            );
            label("👁", hover.as_str(), Tone::Plain)
        },
        _ => label(
            "—",
            if kind == RunKind::Alignment {
                "Alignment run — no corrected data to preview"
            } else {
                "No corrected data yet"
            },
            Tone::Dim,
        ),
    }
}

/// The reject / restore toggle — moot for an
/// alignment run, never in the windows. An
/// open-beam run is never in the windows
/// either, but rejecting it keeps it out
/// of the "new open beams" banner.
pub open spec fn use_words(kind: RunKind, rejected: bool) -> Words {
    match kind {
        RunKind::Alignment => labels::words(
            "—"@,
            "Alignment run — never part of the windows"@,
            Tone::Dim,
        ),
        RunKind::OpenBeam => if rejected {
            labels::words("↩ restore"@, "Offer this open beam again"@, Tone::Plain)
        } else {
            labels::words(
                "✖ reject"@,
                "Never offer this open-beam run as a replacement open beam"@,
                Tone::Plain,
            )
        },
        RunKind::Sample => if rejected {
            labels::words("↩ restore"@, "Put this run back in the windows"@, Tone::Plain)
        } else {
            labels::words(
                "✖ reject"@,
                "Exclude this run from the windows and their normalizations"@,
                Tone::Plain,
            )
        },
    }
}

pub fn use_cell(kind: RunKind, rejected: bool) -> (r: Label)
    ensures
        r@ == use_words(kind, rejected),
{
    match kind {
        RunKind::Alignment => label(
            "—",
            "Alignment run — never part of the windows",
            Tone::Dim,
        ),
        RunKind::OpenBeam => if rejected {
            label("↩ restore", "Offer this open beam again", Tone::Plain)
        } else {
            label(
                "✖ reject",
                "Never offer this open-beam run as a replacement open beam",
                Tone::Plain,
            )
        },
        RunKind::Sample => if rejected {
            label("↩ restore", "Put this run back in the windows", Tone::Plain)
        } else {
            label(
                "✖ reject",
                "Exclude this run from the windows and their normalizations",
                Tone::Plain,
            )
        },
    }
}

/// What rejecting or restoring a run does to the rejected runs.
pub open spec fn toggled(before: Seq<u64>, after: Seq<u64>, run: u64) -> bool {
    &&& after.contains(run) <==> !before.contains(run)
    &&& forall|n: u64| n != run ==> (#[trigger] after.contains(n) <==> before.contains(n))
}

/// Reject a run, or restore it when it is rejected.
pub fn toggle_rejected(rejected: &mut Vec<u64>, run: u64)
    requires
        order::ascending(old(rejected)@),
    ensures
        order::ascending(final(rejected)@),
        forall|n: u64|
            #![trigger final(rejected)@.contains(n)]
            final(rejected)@.contains(n) <==> (if n == run {
                !old(rejected)@.contains(run)
            } else {
                old(rejected)@.contains(n)
            }),
        toggled(old(rejected)@, final(rejected)@, run),
{
    let mut i: usize = 0;
    while i < rejected.len() && rejected[i] != run
        invariant
            i <= rejected@.len(),
            rejected@ == old(rejected)@,
            forall|k: int| 0 <= k < i ==> rejected@[k] != run,
        decreases rejected@.len() - i,
    {
        i = i + 1;
    }
    if i < rejected.len() {
        let ghost before = rejected@;
        let _ = rejected.remove(i);
        proof {
            let after = rejected@;
            assert(after =~= before.remove(i as int));
            assert(before[i as int] == run);
            assert forall|a: int, b: int| 0 <= a < b < after.len() implies after[a] < after[b] by {
                let x = if a < i {
                    a
                } else {
                    a + 1
                };
                let y = if b < i {
                    b
                } else {
                    b + 1
                };
                assert(after[a] == before[x] && after[b] == before[y]);
            }
            assert forall|n: u64| #[trigger] after.contains(n) <==> (if n == run {
                false
            } else {
                before.contains(n)
            }) by {
                if after.contains(n) {
                    let a = choose|a: int| 0 <= a < after.len() && after[a] == n;
                    let x = if a < i {
                        a
                    } else {
                        a + 1
                    };
                    assert(before[x] == n);
                    if n == run {
                        if x < i {
                            assert(before[x] < before[i as int]);
                        } else {
                            assert(before[i as int] < before[x]);
                        }
                    }
                }
                if before.contains(n) && n != run {
                    let x = choose|x: int| 0 <= x < before.len() && before[x] == n;
                    let a = if x < i {
                        x
                    } else {
                        x - 1
                    };
                    assert(after[a] == n);
                }
            }
        }
    } else {
        assert(!rejected@.contains(run));
        order::insert(rejected, run);
    }
}

// ---------------------------------------------------------------------
// The "Normalized" cell

/// What stands in the "Normalized" cell of a row.
pub enum NormalizedCell<L = Label, P = String> {
    /// A text.
    Note(L),
    /// Waiting for a free slot.
    Queued(L),
    /// The button that starts the run.
    Offer(L),
    /// The progress of the run.
    Progress(L),
    /// The result, with the buttons that open and redo it.
    Result { done: L, output: P },
    /// The failure, with the buttons that open the log and retry.
    Failure { failed: L, log: Option<P> },
}

impl View for NormalizedCell {
    type V = NormalizedCell<Words, Text>;

    open spec fn view(&self) -> NormalizedCell<Words, Text> {
        match self {
            NormalizedCell::Note(l) => NormalizedCell::Note(l@),
            NormalizedCell::Queued(l) => NormalizedCell::Queued(l@),
            NormalizedCell::Offer(l) => NormalizedCell::Offer(l@),
            NormalizedCell::Progress(l) => NormalizedCell::Progress(l@),
            NormalizedCell::Result { done, output } => NormalizedCell::Result {
                done: done@,
                output: output@,
            },
            NormalizedCell::Failure { failed, log } => NormalizedCell::Failure {
                failed: failed@,
                log: text::opt_text(*log),
            },
        }
    }
}

/// Why a run of this kind is not normalized.
pub open spec fn special_words(kind: RunKind, folder: Text) -> Words {
    match kind {
        RunKind::OpenBeam => labels::words(
            "open beam — no normalization needed"@,
            "The NeXus records this run's images under an ob folder (BL10:Exp:IM:ImageFilePath log): an open-beam run is a normalization input, not something to normalize. Once its corrected data is complete, the banner above the table offers to make it the open beam of the upcoming runs\n"@
                + folder,
            Tone::Dim,
        ),
        _ => labels::words(
            "alignment run — no normalization needed"@,
            "The NeXus records this run's images under an alignment folder (BL10:Exp:IM:ImageFilePath log): an alignment run is not corrected by the autoreduction and is not normalized — nothing to check or wait for\n"@
                + folder,
            Tone::Dim,
        ),
    }
}

fn special_label(kind: RunKind, folder: &str) -> (r: Label)
    ensures
        r@ == special_words(kind, folder@),
{
    match kind {
        RunKind::OpenBeam => {
            let hover = text::cat2(
                "The NeXus records this run's images under an ob folder (BL10:Exp:IM:ImageFilePath log): an open-beam run is a normalization input, not something to normalize. Once its corrected data is complete, the banner above the table offers to make it the open beam of the upcoming runs\n",
                folder,
            );
            label("open beam — no normalization needed", hover.as_str(), Tone::Dim)
        },
        _ => {
            let hover = text::cat2(
                "The NeXus records this run's images under an alignment folder (BL10:Exp:IM:ImageFilePath log): an alignment run is not corrected by the autoreduction and is not normalized — nothing to check or wait for\n",
                folder,
            );
            label("alignment run — no normalization needed", hover.as_str(), Tone::Dim)
        },
    }
}

/// Waiting for a free slot.
pub open spec fn queued_words(ahead: nat, running: nat) -> Words {
    labels::words(
        "⏳ queued"@,
        "Waiting for a free slot: "@ + number::decimal(running)
            + " normalization(s) running (the parallel jobs cap), "@ + number::decimal(ahead)
            + " queued ahead of this run. It starts by itself; ✖ clear queue (above the table) cancels the wait"@,
        Tone::Info,
    )
}

fn queued_label(ahead: usize, running: usize) -> (r: Label)
    ensures
        r@ == queued_words(ahead as nat, running as nat),
{
    let a = number::decimal_text(ahead as u64);
    let n = number::decimal_text(running as u64);
    let hover = text::cat5(
        "Waiting for a free slot: ",
        n.as_str(),
        " normalization(s) running (the parallel jobs cap), ",
        a.as_str(),
        " queued ahead of this run. It starts by itself; ✖ clear queue (above the table) cancels the wait",
    );
    label("⏳ queued", hover.as_str(), Tone::Info)
}

/// A run that auto normalization will pick.
pub open spec fn watched_words(corrected: FileStatus<Text>, no_config: bool) -> Words {
    match corrected {
        FileStatus::Present(_) => if no_config {
            labels::words(
                "⚠ no configuration"@,
                "Corrected data found, but no configuration file is selected (section 2) — select one to normalize this run"@,
                Tone::Warning,
            )
        } else {
            labels::words(
                "⏳ starting…"@,
                "Corrected data found — launching NeuNorm"@,
                Tone::Info,
            )
        },
        FileStatus::Writing(_) => labels::words(
            "⏳ waiting"@,
            "The corrected data is still being written — normalizing this run as soon as the folder is complete"@,
            Tone::Info,
        ),
        FileStatus::Missing(_) => labels::words(
            "⏳ waiting"@,
            "Waiting for the corrected data (autoreduction) before normalizing this run"@,
            Tone::Info,
        ),
    }
}

fn watched_label(corrected: &FileStatus, no_config: bool) -> (r: Label)
    ensures
        r@ == watched_words(corrected@, no_config),
{
    match corrected {
        FileStatus::Present(_) => if no_config {
            label(
                "⚠ no configuration",
                "Corrected data found, but no configuration file is selected (section 2) — select one to normalize this run",
                Tone::Warning,
            )
        } else {
            label("⏳ starting…", "Corrected data found — launching NeuNorm", Tone::Info)
        },
        FileStatus::Writing(_) => label(
            "⏳ waiting",
            "The corrected data is still being written — normalizing this run as soon as the folder is complete",
            Tone::Info,
        ),
        FileStatus::Missing(_) => label(
            "⏳ waiting",
            "Waiting for the corrected data (autoreduction) before normalizing this run",
            Tone::Info,
        ),
    }
}

/// A run not covered by auto normalization (older run, or auto normalization
/// OFF): it is offered to do it now, where there is something to normalize.
pub open spec fn offered(corrected: FileStatus<Text>, no_config: bool) -> NormalizedCell<Words, Text> {
    match corrected {
        FileStatus::Present(_) => if no_config {
            NormalizedCell::Note(
                labels::words(
                    "—"@,
                    "No normalized data found — select a configuration file (section 2) to normalize this run"@,
                    Tone::Dim,
                ),
            )
        } else {
            NormalizedCell::Offer(
                labels::words(
                    "▶ normalize"@,
                    "No normalized data found in the configuration's output folder — normalize this run now (configuration's sample replaced by the run)"@,
                    Tone::Plain,
                ),
            )
        },
        FileStatus::Writing(_) => NormalizedCell::Note(
            labels::words(
                "—"@,
                "Corrected data still being written — nothing to normalize yet"@,
                Tone::Dim,
            ),
        ),
        FileStatus::Missing(_) => NormalizedCell::Note(
            labels::words("—"@, "No corrected data yet — nothing to normalize"@, Tone::Dim),
        ),
    }
}

fn offer_cell(corrected: &FileStatus, no_config: bool) -> (r: NormalizedCell)
    ensures
        r@ == offered(corrected@, no_config),
{
    match corrected {
        FileStatus::Present(_) => if no_config {
            NormalizedCell::Note(
                label(
                    "—",
                    "No normalized data found — select a configuration file (section 2) to normalize this run",
                    Tone::Dim,
                ),
            )
        } else {
            NormalizedCell::Offer(
                label(
                    "▶ normalize",
                    "No normalized data found in the configuration's output folder — normalize this run now (configuration's sample replaced by the run)",
                    Tone::Plain,
                ),
            )
        },
        FileStatus::Writing(_) => NormalizedCell::Note(
            label(
                "—",
                "Corrected data still being written — nothing to normalize yet",
                Tone::Dim,
            ),
        ),
        FileStatus::Missing(_) => NormalizedCell::Note(
            label("—", "No corrected data yet — nothing to normalize", Tone::Dim),
        ),
    }
}

/// The words of a result: of several runs together, how many.
pub open spec fn done_words(output: Text, finished: Text, runs: Seq<u64>) -> Words {
    if runs.len() > 1 {
        labels::words(
            "✔ "@ + number::decimal(runs.len()) + " runs combined"@,
            "runs "@ + labels::run_list(runs) + "\nfinished "@ + finished + "\n"@ + output,
            Tone::Success,
        )
    } else {
        labels::words(
            "✔ normalization done"@,
            "finished "@ + finished + "\n"@ + output,
            Tone::Success,
        )
    }
}

fn done_label(output: &str, finished: &str, runs: &Vec<u64>) -> (r: Label)
    ensures
        r@ == done_words(output@, finished@, runs@),
{
    if runs.len() > 1 {
        let n = number::decimal_text(runs.len() as u64);
        let list = labels::run_list_text(runs);
        let shown = text::cat3("✔ ", n.as_str(), " runs combined");
        let hover = text::cat6("runs ", list.as_str(), "\nfinished ", finished, "\n", output);
        label(shown.as_str(), hover.as_str(), Tone::Success)
    } else {
        let hover = text::cat4("finished ", finished, "\n", output);
        label("✔ normalization done", hover.as_str(), Tone::Success)
    }
}

/// The "Normalized" cell of a row: `special` is the recorded image folder of
/// a run that is never normalized, `watched` tells whether auto normalization
/// picks the run, `queued` how many runs are ahead of it and how many jobs
/// run, when it waits for a slot.
pub open spec fn normalized(
    run: u64,
    corrected: FileStatus<Text>,
    phase: Option<Phase>,
    special: Option<(RunKind, Text)>,
    watched: bool,
    no_config: bool,
    queued: Option<(nat, nat)>,
) -> NormalizedCell<Words, Text> {
    let idle = phase is None || phase->0 is Idle;
    if special is Some && idle {
        NormalizedCell::Note(special_words((special->0).0, (special->0).1))
    } else if queued is Some {
        NormalizedCell::Queued(queued_words((queued->0).0, (queued->0).1))
    } else {
        match phase {
            Some(Phase::Running { runs, stage, counts, stages }) => NormalizedCell::Progress(
                labels::words(
                    labels::progress_words(stage, stages),
                    labels::progress_hover_words(
                        "normalizing run "@ + number::decimal(run as nat),
                        stage,
                        stages,
                    ),
                    Tone::Info,
                ),
            ),
            Some(Phase::Done { output, finished, runs }) => NormalizedCell::Result {
                done: done_words(output, finished, runs),
                output,
            },
            Some(Phase::Failed { message, log }) => NormalizedCell::Failure {
                failed: labels::words(
                    "✖ failed"@,
                    labels::failure_words(message, log),
                    Tone::Danger,
                ),
                log,
            },
            _ => if watched {
                NormalizedCell::Note(watched_words(corrected, no_config))
            } else {
                offered(corrected, no_config)
            },
        }
    }
}

pub open spec fn opt_special(s: Option<(RunKind, &str)>) -> Option<(RunKind, Text)> {
    match s {
        Some((kind, folder)) => Some((kind, folder@)),
        None => None,
    }
}

pub open spec fn opt_queued(q: Option<(usize, usize)>) -> Option<(nat, nat)> {
    match q {
        Some((ahead, running)) => Some((ahead as nat, running as nat)),
        None => None,
    }
}

/// The "Normalized" cell of one table row: waiting marker (or a
/// "▶ normalize" button for runs auto normalization does not cover),
/// progress bar while NeuNorm runs, view/open icons when done, error +
/// retry when failed. `watched` = auto normalization will (or did)
/// pick this run. `special` = the kind and recorded image folder of a
/// run that is never normalized (alignment, open beam). `queued` =
/// (runs ahead of it, jobs running) when the run waits for a slot.
pub fn normalized_cell(
    run: u64,
    corrected: &FileStatus,
    state: Option<&JobState>,
    special: Option<(RunKind, &str)>,
    watched: bool,
    no_config: bool,
    queued: Option<(usize, usize)>,
) -> (r: NormalizedCell)
    ensures
        r@ == normalized(
            run,
            corrected@,
            labels::opt_phase(state),
            opt_special(special),
            watched,
            no_config,
            opt_queued(queued),
        ),
{
    let idle = match state {
        None => true,
        Some(s) => match s {
            JobState::Idle => true,
            _ => false,
        },
    };
    match special {
        Some((kind, folder)) => {
            if idle {
                return NormalizedCell::Note(special_label(kind, folder));
            }
        },
        None => {},
    }
    match queued {
        Some((ahead, running)) => {
            return NormalizedCell::Queued(queued_label(ahead, running));
        },
        None => {},
    }
    match state {
        Some(JobState::Running { runs, stage, counts, stages }) => {
            let n = number::decimal_text(run);
            let what = text::cat2("normalizing run ", n.as_str());
            NormalizedCell::Progress(
                labels::progress_label(what.as_str(), stage.as_str(), stages),
            )
        },
        Some(JobState::Done { output, finished, runs }) => NormalizedCell::Result {
            done: done_label(output.as_str(), finished.as_str(), runs),
            output: output.clone(),
        },
        Some(JobState::Failed { message, log }) => {
            let hover = labels::failure_hover(message.as_str(), log);
            NormalizedCell::Failure {
                failed: label("✖ failed", hover.as_str(), Tone::Danger),
                log: text::clone_opt(log),
            }
        },
        _ => if watched {
            NormalizedCell::Note(watched_label(corrected, no_config))
        } else {
            offer_cell(corrected, no_config)
        },
    }
}

/// Only a run with complete corrected data and a configuration file that
/// auto normalization does not pick gets a start button.
pub proof fn starts_are_offered_for_ready_runs(
    run: u64,
    corrected: FileStatus<Text>,
    phase: Option<Phase>,
    special: Option<(RunKind, Text)>,
    watched: bool,
    no_config: bool,
    queued: Option<(nat, nat)>,
)
    requires
        normalized(run, corrected, phase, special, watched, no_config, queued) is Offer,
    ensures
        corrected is Present,
        !no_config,
        !watched,
        special is None,
        queued is None,
        phase is None || phase->0 is Idle,
{
}

// ---------------------------------------------------------------------
// The "Open beam" cell

/// What a run will divide by: the open beams its configuration names.
pub open spec fn planned_obs_words(obs: Seq<Text>) -> Words {
    if obs.len() == 0 {
        labels::words(
            "—"@,
            "The configuration names no open beam (or none is selected)"@,
            Tone::Dim,
        )
    } else {
        labels::words(
            beams::beams_words(obs),
            "Will divide by the configuration's open beam(s)\n"@ + text::joined(obs, "\n"@),
            Tone::Dim,
        )
    }
}

/// "Open beam" cell of the upcoming run: the configuration's open
/// beams, dimmed (what the run will divide by).
pub fn planned_obs_cell(plan: &Settings, run: u64) -> (r: Label)
    ensures
        r@ == planned_obs_words(settings::obs_for(plan@, run)),
{
    let obs = plan.config_obs_for_run(run);
    assert(text::texts(obs@).len() == obs@.len());
    if obs.len() == 0 {
        label(
            "—",
            "The configuration names no open beam (or none is selected)",
            Tone::Dim,
        )
    } else {
        let shown = beams::ob_runs_text(&obs);
        let list = beams::ob_folders_text(&obs);
        let hover = text::cat2(
            "Will divide by the configuration's open beam(s)\n",
            list.as_str(),
        );
        label(shown.as_str(), hover.as_str(), Tone::Dim)
    }
}

/// What a run's normalization was launched with, if known.
pub open spec fn opt_meta(meta: Option<&RunMeta>) -> Option<Meta> {
    match meta {
        Some(m) => Some(m@),
        None => None,
    }
}

pub open spec fn meta_in(metas: Map<u64, RunMeta>, run: u64) -> Option<Meta> {
    if metas.dom().contains(run) {
        Some(metas[run]@)
    } else {
        None
    }
}

/// The cell of an open-beam run: whether it is in use, new or older.
pub open spec fn beam_words(in_use: bool, rejected: bool, fresh: bool) -> Words {
    if in_use {
        labels::words(
            "✔ in use"@,
            "One of the configuration's open beams — every upcoming normalization divides by it"@,
            Tone::Success,
        )
    } else if rejected {
        labels::words(
            "rejected"@,
            "Never offered as a replacement open beam (↩ restore to offer it again)"@,
            Tone::Dim,
        )
    } else if fresh {
        labels::words(
            "new"@,
            "Landed after the configuration's open beams — the banner above offers to switch to it"@,
            Tone::Warning,
        )
    } else {
        labels::words(
            "not in use"@,
            "An older open beam the configuration does not name"@,
            Tone::Dim,
        )
    }
}

fn beam_label(in_use: bool, rejected: bool, fresh: bool) -> (r: Label)
    ensures
        r@ == beam_words(in_use, rejected, fresh),
{
    if in_use {
        label(
            "✔ in use",
            "One of the configuration's open beams — every upcoming normalization divides by it",
            Tone::Success,
        )
    } else if rejected {
        label(
            "rejected",
            "Never offered as a replacement open beam (↩ restore to offer it again)",
            Tone::Dim,
        )
    } else if fresh {
        label(
            "new",
            "Landed after the configuration's open beams — the banner above offers to switch to it",
            Tone::Warning,
        )
    } else {
        label(
            "not in use",
            "An older open beam the configuration does not name",
            Tone::Dim,
        )
    }
}

/// The cell of a sample run: the open beams its normalization used, else
/// those it will use.
pub open spec fn sample_obs_words(plan: Plan, run: u64, meta: Option<Meta>, done: bool) -> Words {
    if meta is Some && (meta->0).obs.len() > 0 {
        labels::words(
            beams::beams_words((meta->0).obs),
            "Open beam(s) this run's normalization divides by\n"@ + text::joined(
                (meta->0).obs,
                "\n"@,
            ),
            Tone::Plain,
        )
    } else if done {
        labels::words(
            "?"@,
            "Normalized, but its job log names no open beam (result produced by another tool, or log missing)"@,
            Tone::Dim,
        )
    } else {
        match settings::override_of(plan.overrides, run).obs {
            Some(obs) => labels::words(
                beams::beams_words(obs),
                "Will divide by the open beam(s) chosen for this run (⇄)\n"@ + text::joined(
                    obs,
                    "\n"@,
                ),
                Tone::Info,
            ),
            None => planned_obs_words(settings::obs_for(plan, run)),
        }
    }
}

fn sample_obs_label(plan: &Settings, run: u64, meta: Option<&RunMeta>, done: bool) -> (r: Label)
    ensures
        r@ == sample_obs_words(
            plan@,
            run,
            match meta {
                Some(m) => Some(m@),
                None => None,
            },
            done,
        ),
{
    match meta {
        Some(m) => {
            assert(m@.obs.len() == m.obs@.len());
            if m.obs.len() > 0 {
                let shown = beams::ob_runs_text(&m.obs);
                let list = beams::ob_folders_text(&m.obs);
                let hover = text::cat2(
                    "Open beam(s) this run's normalization divides by\n",
                    list.as_str(),
                );
                return label(shown.as_str(), hover.as_str(), Tone::Plain);
            }
        },
        None => {},
    }
    if done {
        return label(
            "?",
            "Normalized, but its job log names no open beam (result produced by another tool, or log missing)",
            Tone::Dim,
        );
    }
    match plan.own_obs(run) {
        Some(obs) => {
            let shown = beams::ob_runs_text(&obs);
            let list = beams::ob_folders_text(&obs);
            let hover = text::cat2(
                "Will divide by the open beam(s) chosen for this run (⇄)\n",
                list.as_str(),
            );
            label(shown.as_str(), hover.as_str(), Tone::Info)
        },
        None => planned_obs_cell(plan, run),
    }
}

/// The "Open beam" cell of a row.
pub open spec fn obs_words(
    run: u64,
    kind: RunKind,
    plan: Plan,
    meta: Option<Meta>,
    done: bool,
    rejected: Seq<u64>,
    rows: Seq<RunFiles<Text>>,
    image_paths: Map<u64, String>,
) -> Words {
    match kind {
        RunKind::Alignment => labels::words(
            "—"@,
            "Alignment run — not normalized, no open beam involved"@,
            Tone::Dim,
        ),
        RunKind::OpenBeam => beam_words(
            beams::beam_runs(plan.config_obs).contains(run),
            rejected.contains(run),
            is_offered(
                beams::new_beams(rows, image_paths, rejected, plan.config_obs),
                run,
            ),
        ),
        RunKind::Sample => sample_obs_words(plan, run, meta, done),
    }
}

/// Is the run among the new open beams?
pub open spec fn is_offered(beams: Seq<(u64, FileStatus<Text>)>, run: u64) -> bool {
    exists|i: int| 0 <= i < beams.len() && (#[trigger] beams[i]).0 == run
}

fn offered_beam(found: &Vec<(u64, FileStatus)>, run: u64) -> (r: bool)
    ensures
        r == is_offered(beams::beam_views(found@), run),
{
    let ghost fs = beams::beam_views(found@);
    let mut i: usize = 0;
    while i < found.len()
        invariant
            i <= found@.len(),
            fs == beams::beam_views(found@),
            forall|k: int| 0 <= k < i ==> (#[trigger] fs[k]).0 != run,
        decreases found@.len() - i,
    {
        assert(fs[i as int].0 == found@[i as int].0);
        if found[i].0 == run {
            return true;
        }
        i = i + 1;
    }
    false
}

/// "Open beam" cell of one row. Sample run: the open beams its
/// normalization used (recorded at launch, or read from the job log
/// of a result found on disk), else the configuration's, dimmed, as
/// what it will use. Open-beam run: whether it is in use, new (landed
/// after the configuration's open beams) or older. Alignment run: —.
pub fn obs_cell(
    run: u64,
    kind: RunKind,
    plan: &Settings,
    metas: &RunMap<RunMeta>,
    board: &Board,
    rejected: &Vec<u64>,
    rows: &Vec<RunFiles>,
    image_paths: &RunMap<String>,
) -> (r: Label)
    ensures
        r@ == obs_words(
            run,
            kind,
            plan@,
            meta_in(metas@, run),
            board.jobs().dom().contains(run) && board.jobs()[run] is Done,
            rejected@,
            files::statuses(rows@),
            image_paths@,
        ),
{
    match kind {
        RunKind::Alignment => label(
            "—",
            "Alignment run — not normalized, no open beam involved",
            Tone::Dim,
        ),
        RunKind::OpenBeam => {
            let in_use = beams::ob_in_use(plan.config_obs(), run);
            let found = beams::new_open_beams(rows, image_paths, rejected, plan.config_obs());
            let fresh = offered_beam(&found, run);
            beam_label(in_use, order::member(rejected, run), fresh)
        },
        RunKind::Sample => {
            let done = match board.job(run) {
                Some(state) => state.is_done(),
                None => false,
            };
            sample_obs_label(plan, run, metas.get(run), done)
        },
    }
}

// ---------------------------------------------------------------------
// The "Config" cell

/// The shown file of the "Config" cell.
pub open spec fn config_words(plan: Plan, run: u64, meta: Option<Meta>) -> (Text, Tone) {
    let own = settings::override_of(plan.overrides, run).config;
    let effective = settings::config_for(plan, run);
    let ran_with = match meta {
        Some(m) => m.config,
        None => None,
    };
    (
        match effective {
            Some(path) => labels::short(path),
            None => "— none —"@,
        },
        if own is Some {
            Tone::Info
        } else if effective is None {
            Tone::Warning
        } else if ran_with is None {
            Tone::Dim
        } else {
            Tone::Plain
        },
    )
}

/// What the "Config" cell's hover says of the file that the run is
/// normalized with.
pub open spec fn config_hover(own: Option<Text>, effective: Option<Text>) -> Text {
    match own {
        Some(path) => "Configuration picked for this run instead of the section 2 selection — its open beams, settings and output folder (unless ⇄ / ✏ say otherwise)\n"@
            + path,
        None => match effective {
            Some(path) => "The section 2 selection\n"@ + path,
            None => "No configuration file — select one in section 2 or pick one here for this run"@,
        },
    }
}

/// What it adds on the file that a normalized run ran with.
pub open spec fn ran_with_words(effective: Option<Text>, ran_with: Option<Text>, done: bool) -> Text {
    match ran_with {
        Some(path) => if effective is Some && paths::same_path(effective->0, path) {
            "\n\nThis run's normalization ran with this file"@
        } else {
            "\n\nThis run's normalization ran with another file (↻ re-run to use the one shown):\n"@
                + path
        },
        None => if done {
            "\n\nNormalized, but its job log names no configuration file (result produced by another tool, or log missing)"@
        } else {
            Seq::empty()
        },
    }
}

fn ran_with_text(effective: Option<&str>, ran_with: Option<&str>, done: bool) -> (r: String)
    ensures
        r@ == ran_with_words(text::opt_str(effective), text::opt_str(ran_with), done),
{
    match ran_with {
        Some(path) => {
            let same = match effective {
                Some(e) => paths::same_as(e, path),
                None => false,
            };
            if same {
                "\n\nThis run's normalization ran with this file".to_owned()
            } else {
                text::cat2(
                    "\n\nThis run's normalization ran with another file (↻ re-run to use the one shown):\n",
                    path,
                )
            }
        },
        None => if done {
            "\n\nNormalized, but its job log names no configuration file (result produced by another tool, or log missing)".to_owned()
        } else {
            let nothing = String::new();
            assert(nothing@ =~= Seq::<char>::empty());
            nothing
        },
    }
}

/// The first entry of the drop-down: the section 2 selection.
pub open spec fn default_words(selected: Option<Text>) -> Text {
    match selected {
        Some(path) => "(section 2) "@ + labels::short(path),
        None => "(section 2) — none selected —"@,
    }
}

pub fn default_entry(plan: &Settings) -> (r: String)
    ensures
        r@ == default_words(plan@.selected),
{
    match plan.selected() {
        Some(path) => {
            let name = labels::short_name(path);
            text::cat2("(section 2) ", name.as_str())
        },
        None => "(section 2) — none selected —".to_owned(),
    }
}

/// The "Config" cell of one sample row.
pub open spec fn config_cell_words(plan: Plan, run: u64, meta: Option<Meta>, done: bool) -> Words {
    let effective = settings::config_for(plan, run);
    let ran_with = match meta {
        Some(m) => m.config,
        None => None,
    };
    let (shown, tone) = config_words(plan, run, meta);
    labels::words(
        shown,
        config_hover(settings::override_of(plan.overrides, run).config, effective)
            + ran_with_words(effective, ran_with, done),
        tone,
    )
}

/// "Config" cell of one sample row (and of the upcoming run). The
/// run's normalization runs with the file shown. A file picked
/// for the row reads in blue; the hover also names the file a
/// normalized run actually ran with (recorded at launch, or read from
/// the job log of a result found on disk) when it differs.
pub fn run_config_cell(plan: &Settings, run: u64, meta: Option<&RunMeta>, done: bool) -> (r: Label)
    ensures
        r@ == config_cell_words(plan@, run, opt_meta(meta), done),
{
    let own = plan.own_config(run);
    let effective = plan.config_for_run(run);
    let ran_with: Option<&str> = match meta {
        Some(m) => match &m.config {
            Some(c) => Some(c.as_str()),
            None => None,
        },
        None => None,
    };
    let shown = match &effective {
        Some(path) => labels::short_name(path.as_str()),
        None => "— none —".to_owned(),
    };
    let tone = if own.is_some() {
        Tone::Info
    } else if effective.is_none() {
        Tone::Warning
    } else if ran_with.is_none() {
        Tone::Dim
    } else {
        Tone::Plain
    };
    let head = match &own {
        Some(path) => text::cat2(
            "Configuration picked for this run instead of the section 2 selection — its open beams, settings and output folder (unless ⇄ / ✏ say otherwise)\n",
            path.as_str(),
        ),
        None => match &effective {
            Some(path) => text::cat2("The section 2 selection\n", path.as_str()),
            None => "No configuration file — select one in section 2 or pick one here for this run".to_owned(),
        },
    };
    let file: Option<&str> = match &effective {
        Some(path) => Some(path.as_str()),
        None => None,
    };
    let tail = ran_with_text(file, ran_with, done);
    let hover = text::cat2(head.as_str(), tail.as_str());
    label(shown.as_str(), hover.as_str(), tone)
}

// ---------------------------------------------------------------------
// The "Output" cell

/// Where a run still to come puts its result.
pub open spec fn planned_output_words(over: Option<Text>, base: Option<Text>) -> Words {
    match over {
        Some(folder) => labels::words(
            labels::short(folder),
            "Output folder chosen for this run (✏) — the result goes to Run_<run>/normalization in there\n"@
                + folder,
            Tone::Info,
        ),
        None => match base {
            Some(b) => labels::words(
                labels::short(b),
                "The configuration's output folder — the result goes to Run_<run>/normalization in there\n"@
                    + b,
                Tone::Dim,
            ),
            None => labels::words(
                "—"@,
                "Select a configuration file (section 2)"@,
                Tone::Dim,
            ),
        },
    }
}

/// "Output" cell of a run still to come: the base folder its result
/// will land in — the row's own (✏, highlighted) or the
/// configuration's (dimmed).
pub fn planned_output_cell(plan: &Settings, run: u64, ipts_path: &str) -> (r: Label)
    ensures
        r@ == planned_output_words(
            settings::override_of(plan@.overrides, run).output,
            settings::base_for(plan@, run, ipts_path@),
        ),
{
    match plan.own_output(run) {
        Some(folder) => {
            let shown = labels::short_name(folder.as_str());
            let hover = text::cat2(
                "Output folder chosen for this run (✏) — the result goes to Run_<run>/normalization in there\n",
                folder.as_str(),
            );
            label(shown.as_str(), hover.as_str(), Tone::Info)
        },
        None => match plan.output_base_for_run(run, ipts_path) {
            Some(b) => {
                let shown = labels::short_name(b.as_str());
                let hover = text::cat2(
                    "The configuration's output folder — the result goes to Run_<run>/normalization in there\n",
                    b.as_str(),
                );
                label(shown.as_str(), hover.as_str(), Tone::Dim)
            },
            None => label("—", "Select a configuration file (section 2)", Tone::Dim),
        },
    }
}

/// The base folder that a result sits in: `<base>/Run_<run>/normalization` →
/// `<base>`.
pub open spec fn result_base(output: Text) -> Text {
    match paths::parent(output) {
        Some(row) => match paths::parent(row) {
            Some(base) => base,
            None => output,
        },
        None => output,
    }
}

/// The "Output" cell of a row.
pub open spec fn output_cell_words(
    kind: RunKind,
    plan: Plan,
    run: u64,
    ipts: Text,
    meta: Option<Meta>,
) -> Words {
    let over = settings::override_of(plan.overrides, run).output;
    if kind != RunKind::Sample {
        Words { text: "—"@, hover: None, tone: Tone::Dim }
    } else if meta is Some && (meta->0).output is Some {
        let output = (meta->0).output->0;
        labels::words(
            labels::short(result_base(output)),
            "Result folder of this run's normalization"@ + (if over is Some {
                " (output folder chosen for this run, ✏)"@
            } else {
                ""@
            }) + "\n"@ + output,
            if over is Some {
                Tone::Info
            } else {
                Tone::Plain
            },
        )
    } else {
        planned_output_words(over, settings::base_for(plan, run, ipts))
    }
}

/// "Output" cell of one row: the base folder the run's result sits
/// in (`<here>/Run_<run>/normalization`), else where it will go.
pub fn output_cell(
    kind: RunKind,
    plan: &Settings,
    run: u64,
    ipts_path: &str,
    meta: Option<&RunMeta>,
) -> (r: Label)
    ensures
        r@ == output_cell_words(kind, plan@, run, ipts_path@, opt_meta(meta)),
{
    if kind != RunKind::Sample {
        return Label { text: "—".to_owned(), hover: None, tone: Tone::Dim };
    }
    let found: Option<&String> = match meta {
        Some(m) => match &m.output {
            Some(output) => Some(output),
            None => None,
        },
        None => None,
    };
    match found {
        Some(output) => {
            let base = match paths::parent_of(output.as_str()) {
                Some(row) => match paths::parent_of(row.as_str()) {
                    Some(base) => base,
                    None => output.clone(),
                },
                None => output.clone(),
            };
            let shown = labels::short_name(base.as_str());
            let own = plan.own_output(run).is_some();
            let hover = text::cat4(
                "Result folder of this run's normalization",
                if own {
                    " (output folder chosen for this run, ✏)"
                } else {
                    ""
                },
                "\n",
                output.as_str(),
            );
            label(
                shown.as_str(),
                hover.as_str(),
                if own {
                    Tone::Info
                } else {
                    Tone::Plain
                },
            )
        },
        None => planned_output_cell(plan, run, ipts_path),
    }
}

// ---------------------------------------------------------------------
// The banner of new open beams

/// The runs of the open beams that are, or are not, complete.
pub open spec fn beams_that(found: Seq<(u64, FileStatus<Text>)>, complete: bool) -> Seq<u64>
    decreases found.len(),
{
    if found.len() == 0 {
        Seq::empty()
    } else {
        let before = beams_that(found.drop_last(), complete);
        if (found.last().1 is Present) == complete {
            before.push(found.last().0)
        } else {
            before
        }
    }
}

fn beams_which(found: &Vec<(u64, FileStatus)>, complete: bool) -> (r: Vec<u64>)
    ensures
        r@ == beams_that(beams::beam_views(found@), complete),
{
    let ghost fs = beams::beam_views(found@);
    let mut out: Vec<u64> = Vec::new();
    let mut i: usize = 0;
    assert(out@ =~= beams_that(fs.take(0), complete));
    while i < found.len()
        invariant
            i <= found@.len(),
            fs == beams::beam_views(found@),
            out@ == beams_that(fs.take(i as int), complete),
        decreases found@.len() - i,
    {
        assert(fs.take(i + 1).drop_last() =~= fs.take(i as int));
        assert(fs.take(i + 1).last() == (found@[i as int].0, found@[i as int].1@));
        let there = match &found[i].1 {
            FileStatus::Present(_) => true,
            _ => false,
        };
        if there == complete {
            out.push(found[i].0);
        }
        i = i + 1;
    }
    assert(fs.take(i as int) =~= fs);
    out
}

/// The runs of the open beams.
pub open spec fn runs_of(found: Seq<(u64, FileStatus<Text>)>) -> Seq<u64> {
    found.map_values(|b: (u64, FileStatus<Text>)| b.0)
}

fn beam_numbers(found: &Vec<(u64, FileStatus)>) -> (r: Vec<u64>)
    ensures
        r@ == runs_of(beams::beam_views(found@)),
{
    let mut out: Vec<u64> = Vec::new();
    let mut i: usize = 0;
    while i < found.len()
        invariant
            i <= found@.len(),
            out@ =~= runs_of(beams::beam_views(found@.take(i as int))),
        decreases found@.len() - i,
    {
        out.push(found[i].0);
        i = i + 1;
    }
    assert(found@.take(i as int) =~= found@);
    out
}

/// What the banner says of the new open beams.
pub open spec fn banner_words(found: Seq<(u64, FileStatus<Text>)>, config_obs: Seq<Text>) -> Words {
    labels::words(
        "🔆 New open beam run"@ + (if found.len() > 1 {
            "s"@
        } else {
            ""@
        }) + ": "@ + labels::run_list(runs_of(found)),
        "Open-beam run(s) acquired after the configuration's open beams ("@ + (if config_obs.len()
            == 0 {
            "the configuration names none"@
        } else {
            beams::beams_words(config_obs)
        }) + "). The normalizations keep using the configuration's until you switch."@,
        Tone::Warning,
    )
}

/// What it says of switching to them.
pub open spec fn switch_note(found: Seq<(u64, FileStatus<Text>)>) -> Text {
    let ready = beams_that(found, true);
    let waiting = beams_that(found, false);
    if ready.len() == 0 {
        "— ⏳ waiting for the corrected data of "@ + labels::run_list(waiting)
            + " (autoreduction)"@
    } else if waiting.len() == 0 {
        "— ⇄ replace by… on a row switches to them, for that run or for every upcoming run"@
    } else {
        "— ⇄ replace by… on a row switches to them, for that run or for every upcoming run (⏳ "@
            + labels::run_list(waiting) + " still waiting for corrected data)"@
    }
}

/// Banner above the table when open-beam run(s) landed after the
/// configuration's open beams: names them and tells how to make them the
/// open beam(s) of the normalizations to come (the ones whose
/// corrected data is complete; the others are named as waiting). `None` when
/// there are none.
pub fn new_open_beams_banner(found: &Vec<(u64, FileStatus)>, config_obs: &Vec<String>) -> (r: Option<
    (Label, String),
>)
    ensures
        match r {
            None => found@.len() == 0,
            Some((l, note)) => {
                &&& found@.len() > 0
                &&& l@ == banner_words(beams::beam_views(found@), text::texts(config_obs@))
                &&& note@ == switch_note(beams::beam_views(found@))
            },
        },
{
    if found.len() == 0 {
        return None;
    }
    let ready = beams_which(found, true);
    let waiting = beams_which(found, false);
    let all = beam_numbers(found);
    let list = labels::run_list_text(&all);
    let shown = text::cat4(
        "🔆 New open beam run",
        if found.len() > 1 {
            "s"
        } else {
            ""
        },
        ": ",
        list.as_str(),
    );
    let named = if config_obs.len() == 0 {
        "the configuration names none".to_owned()
    } else {
        beams::ob_runs_text(config_obs)
    };
    let hover = text::cat3(
        "Open-beam run(s) acquired after the configuration's open beams (",
        named.as_str(),
        "). The normalizations keep using the configuration's until you switch.",
    );
    let late = labels::run_list_text(&waiting);
    let note = if ready.len() == 0 {
        text::cat3(
            "— ⏳ waiting for the corrected data of ",
            late.as_str(),
            " (autoreduction)",
        )
    } else if waiting.len() == 0 {
        "— ⇄ replace by… on a row switches to them, for that run or for every upcoming run".to_owned()
    } else {
        text::cat3(
            "— ⇄ replace by… on a row switches to them, for that run or for every upcoming run (⏳ ",
            late.as_str(),
            " still waiting for corrected data)",
        )
    };
    Some((label(shown.as_str(), hover.as_str(), Tone::Warning), note))
}

/// How many runs are queued ahead of the run, if it is queued.
pub open spec fn place_in(queue: Seq<u64>, run: u64, i: int) -> Option<nat>
    decreases queue.len() - i,
{
    if !(0 <= i < queue.len()) {
        None
    } else if queue[i] == run {
        Some(i as nat)
    } else {
        place_in(queue, run, i + 1)
    }
}

/// How many runs are queued ahead of the run, if it is queued.
pub fn queue_place(board: &Board, run: u64) -> (r: Option<usize>)
    ensures
        match r {
            Some(n) => place_in(board.queue(), run, 0) == Some(n as nat),
            None => place_in(board.queue(), run, 0) is None,
        },
{
    let queue = board.waiting();
    let mut i: usize = 0;
    while i < queue.len()
        invariant
            i <= queue@.len(),
            queue@ == board.queue(),
            place_in(board.queue(), run, 0) == place_in(board.queue(), run, i as int),
        decreases queue@.len() - i,
    {
        if queue[i] == run {
            return Some(i);
        }
        i = i + 1;
    }
    None
}

// ---------------------------------------------------------------------
// The rows

/// Does auto normalization pick the run by itself: is it on, and did the run
/// land after it started watching, without being rejected?
pub open spec fn watches(active: bool, from: Option<u64>, run: u64, rejected: bool) -> bool {
    active && !rejected && from is Some && run > from->0
}

/// The image folder of a run that is never normalized.
pub open spec fn special_in(image_paths: Map<u64, String>, run: u64) -> Option<(RunKind, Text)> {
    if beams::kind_in(image_paths, run) != RunKind::Sample {
        Some((beams::kind_in(image_paths, run), image_paths[run]@))
    } else {
        None
    }
}

pub open spec fn phase_in(jobs: Phases, run: u64) -> Option<Phase> {
    if jobs.dom().contains(run) {
        Some(jobs[run])
    } else {
        None
    }
}

/// How many runs are queued ahead of a queued run, and how many jobs run.
pub open spec fn waits(queue: Seq<u64>, jobs: Phases, run: u64) -> Option<(nat, nat)> {
    match place_in(queue, run, 0) {
        Some(ahead) => Some((ahead, jobs::running(jobs).len())),
        None => None,
    }
}

/// The "Normalized" cell of a row of the table.
pub fn row_normalized(
    row: &RunFiles,
    board: &Board,
    plan: &Settings,
    image_paths: &RunMap<String>,
    rejected: bool,
    active: bool,
    from: Option<u64>,
) -> (r: NormalizedCell)
    ensures
        r@ == normalized(
            row.run,
            row.corrected@,
            phase_in(board.jobs(), row.run),
            special_in(image_paths@, row.run),
            watches(active, from, row.run, rejected),
            settings::config_for(plan@, row.run) is None,
            waits(board.queue(), board.jobs(), row.run),
        ),
{
    let run = row.run;
    let kind = beams::run_kind(image_paths, run);
    let special = match image_paths.get(run) {
        Some(folder) => if kind != RunKind::Sample {
            Some((kind, folder.as_str()))
        } else {
            None
        },
        None => None,
    };
    let watched = active && !rejected && match from {
        Some(f) => run > f,
        None => false,
    };
    let queued = match queue_place(board, run) {
        Some(ahead) => Some((ahead, board.running_run_jobs())),
        None => None,
    };
    let no_config = plan.config_for_run(run).is_none();
    normalized_cell(run, &row.corrected, board.job(run), special, watched, no_config, queued)
}

/// One row of the table: what its cells show. A run that is no sample run
/// has no configuration to pick.
pub struct Row<L = Label, N = NormalizedCell, H = Option<&'static str>> {
    pub run: u64,
    pub kind: RunKind,
    pub rejected: bool,
    pub hover: H,
    pub nexus: L,
    pub raw: L,
    pub corrected: L,
    pub preview: L,
    pub normalized: N,
    pub obs: L,
    pub config: Option<L>,
    pub output: L,
    pub used: L,
}

pub type RowView = Row<Words, NormalizedCell<Words, Text>, Option<Text>>;

impl View for Row {
    type V = RowView;

    open spec fn view(&self) -> RowView {
        Row {
            run: self.run,
            kind: self.kind,
            rejected: self.rejected,
            hover: text::opt_str(self.hover),
            nexus: self.nexus@,
            raw: self.raw@,
            corrected: self.corrected@,
            preview: self.preview@,
            normalized: self.normalized@,
            obs: self.obs@,
            config: labels::opt_words(self.config),
            output: self.output@,
            used: self.used@,
        }
    }
}

/// What the table is drawn from.
pub struct TableState {
    pub plan: Plan,
    pub metas: Map<u64, RunMeta>,
    pub jobs: Phases,
    pub queue: Seq<u64>,
    pub rejected: Seq<u64>,
    pub rows: Seq<RunFiles<Text>>,
    pub image_paths: Map<u64, String>,
    pub active: bool,
    pub from: Option<u64>,
    pub ipts: Text,
}

/// The row of a run.
pub open spec fn row_view(row: RunFiles<Text>, t: TableState) -> RowView {
    let run = row.run;
    let kind = beams::kind_in(t.image_paths, run);
    let rejected = t.rejected.contains(run);
    let meta = meta_in(t.metas, run);
    let done = t.jobs.dom().contains(run) && t.jobs[run] is Done;
    Row {
        run,
        kind,
        rejected,
        hover: run_hover_words(rejected, kind),
        nexus: labels::status_words(row.nexus),
        raw: labels::status_words(row.raw),
        corrected: corrected_words(kind, row.corrected),
        preview: preview_words(kind, row.corrected),
        normalized: normalized(
            run,
            row.corrected,
            phase_in(t.jobs, run),
            special_in(t.image_paths, run),
            watches(t.active, t.from, run, rejected),
            settings::config_for(t.plan, run) is None,
            waits(t.queue, t.jobs, run),
        ),
        obs: obs_words(
            run,
            kind,
            t.plan,
            meta,
            done,
            t.rejected,
            t.rows,
            t.image_paths,
        ),
        config: if kind == RunKind::Sample {
            Some(config_cell_words(t.plan, run, meta, done))
        } else {
            None
        },
        output: output_cell_words(kind, t.plan, run, t.ipts, meta),
        used: use_words(kind, rejected),
    }
}

fn table_row(
    row: &RunFiles,
    plan: &Settings,
    metas: &RunMap<RunMeta>,
    board: &Board,
    rejected: &Vec<u64>,
    rows: &Vec<RunFiles>,
    image_paths: &RunMap<String>,
    active: bool,
    from: Option<u64>,
    ipts_path: &str,
) -> (r: Row)
    ensures
        r@ == row_view(
            row@,
            (TableState {
                plan: plan@,
                metas: metas@,
                jobs: board.jobs(),
                queue: board.queue(),
                rejected: rejected@,
                rows: files::statuses(rows@),
                image_paths: image_paths@,
                active,
                from,
                ipts: ipts_path@,
            }),
        ),
{
    let run = row.run;
    let kind = beams::run_kind(image_paths, run);
    let out = order::member(rejected, run);
    let meta = metas.get(run);
    let done = match board.job(run) {
        Some(state) => state.is_done(),
        None => false,
    };
    let config = if kind == RunKind::Sample {
        Some(run_config_cell(plan, run, meta, done))
    } else {
        None
    };
    Row {
        run,
        kind,
        rejected: out,
        hover: run_hover(out, kind),
        nexus: labels::status_cell(&row.nexus),
        raw: labels::status_cell(&row.raw),
        corrected: corrected_cell(kind, &row.corrected),
        preview: preview_cell(kind, &row.corrected),
        normalized: row_normalized(row, board, plan, image_paths, out, active, from),
        obs: obs_cell(run, kind, plan, metas, board, rejected, rows, image_paths),
        config,
        output: output_cell(kind, plan, run, ipts_path, meta),
        used: use_cell(kind, out),
    }
}

pub open spec fn row_views(v: Seq<Row>) -> Seq<RowView> {
    v.map_values(|r: Row| r@)
}

/// The rows of the table, newest first.
pub open spec fn table_view(t: TableState) -> Seq<RowView> {
    Seq::new(t.rows.len(), |i: int| row_view(t.rows[t.rows.len() - 1 - i], t))
}

/// The rows of the table, newest first, right under the upcoming run.
pub fn table_rows(
    plan: &Settings,
    metas: &RunMap<RunMeta>,
    board: &Board,
    rejected: &Vec<u64>,
    rows: &Vec<RunFiles>,
    image_paths: &RunMap<String>,
    active: bool,
    from: Option<u64>,
    ipts_path: &str,
) -> (r: Vec<Row>)
    ensures
        row_views(r@) == table_view(
            (TableState {
                plan: plan@,
                metas: metas@,
                jobs: board.jobs(),
                queue: board.queue(),
                rejected: rejected@,
                rows: files::statuses(rows@),
                image_paths: image_paths@,
                active,
                from,
                ipts: ipts_path@,
            }),
        ),
{
    let ghost t = TableState {
        plan: plan@,
        metas: metas@,
        jobs: board.jobs(),
        queue: board.queue(),
        rejected: rejected@,
        rows: files::statuses(rows@),
        image_paths: image_paths@,
        active,
        from,
        ipts: ipts_path@,
    };
    let n: usize = rows.len();
    let mut out: Vec<Row> = Vec::new();
    let mut i: usize = 0;
    assert(row_views(out@) =~= table_view(t).take(0));
    while i < n
        invariant
            i <= n == rows@.len(),
            t == (TableState {
                plan: plan@,
                metas: metas@,
                jobs: board.jobs(),
                queue: board.queue(),
                rejected: rejected@,
                rows: files::statuses(rows@),
                image_paths: image_paths@,
                active,
                from,
                ipts: ipts_path@,
            }),
            row_views(out@) == table_view(t).take(i as int),
        decreases n - i,
    {
        let row = &rows[n - 1 - i];
        let shown = table_row(
            row,
            plan,
            metas,
            board,
            rejected,
            rows,
            image_paths,
            active,
            from,
            ipts_path,
        );
        assert(t.rows[n - 1 - i] == row@);
        assert(shown@ == table_view(t)[i as int]);
        let ghost before = out@;
        out.push(shown);
        assert(row_views(out@) =~= row_views(before).push(shown@));
        assert(table_view(t).take(i + 1) =~= table_view(t).take(i as int).push(
            table_view(t)[i as int],
        ));
        i = i + 1;
    }
    assert(table_view(t).take(i as int) =~= table_view(t));
    out
}

/// The row of the upcoming run: not acquired yet, its NeXus is what auto
/// normalization waits for. A configuration picked here applies once the run
/// lands.
pub struct UpcomingRow<L = Label> {
    pub nexus: L,
    pub raw: L,
    pub corrected: L,
    pub obs: L,
    pub config: L,
    pub output: L,
}

impl View for UpcomingRow {
    type V = UpcomingRow<Words>;

    open spec fn view(&self) -> UpcomingRow<Words> {
        UpcomingRow {
            nexus: self.nexus@,
            raw: self.raw@,
            corrected: self.corrected@,
            obs: self.obs@,
            config: self.config@,
            output: self.output@,
        }
    }
}

pub fn upcoming_row(
    next: &RunFiles,
    plan: &Settings,
    metas: &RunMap<RunMeta>,
    board: &Board,
    ipts_path: &str,
) -> (r: UpcomingRow)
    ensures
        r@ == (UpcomingRow::<Words> {
            nexus: labels::status_words(next.nexus@),
            raw: labels::status_words(next.raw@),
            corrected: labels::status_words(next.corrected@),
            obs: planned_obs_words(settings::obs_for(plan@, next.run)),
            config: config_cell_words(
                plan@,
                next.run,
                meta_in(metas@, next.run),
                board.jobs().dom().contains(next.run) && board.jobs()[next.run] is Done,
            ),
            output: planned_output_words(
                settings::override_of(plan@.overrides, next.run).output,
                settings::base_for(plan@, next.run, ipts_path@),
            ),
        }),
{
    let done = match board.job(next.run) {
        Some(state) => state.is_done(),
        None => false,
    };
    UpcomingRow {
        nexus: labels::status_cell(&next.nexus),
        raw: labels::status_cell(&next.raw),
        corrected: labels::status_cell(&next.corrected),
        obs: planned_obs_cell(plan, next.run),
        config: run_config_cell(plan, next.run, metas.get(next.run), done),
        output: planned_output_cell(plan, next.run, ipts_path),
    }
}

/// Every listed run keeps exactly one row, rejected or not; the rows stand in
/// the reverse order of the list.
pub proof fn each_run_has_its_row(t: TableState, i: int)
    requires
        0 <= i < t.rows.len(),
    ensures
        table_view(t).len() == t.rows.len(),
        table_view(t)[t.rows.len() - 1 - i].run == t.rows[i].run,
        table_view(t)[t.rows.len() - 1 - i] == row_view(t.rows[i], t),
{
}

} // verus!
