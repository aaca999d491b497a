//! The words of the window: section texts, hovers and job states.

use vstd::prelude::*;
use crate::config::{AutoNormConfig, Contents};
use crate::files::{FileStatus, RunFiles};
use crate::h5::RunKind;
use crate::jobs::{Board, Phases};
use crate::norm::{JobState, JobTarget, Phase, Window};
use crate::runmap::RunMap;
use crate::text::Text;
use crate::{beams, config, files, norm, number, order, paths, settings, text};

verus! {

/// How a label is coloured.
#[derive(Clone, Copy, Debug, PartialEq, Eq, Structural)]
pub enum Tone {
    Plain,
    Dim,
    Info,
    Success,
    Warning,
    Danger,
}

/// A label with its hover text.
#[derive(Debug)]
pub struct Label {
    pub text: String,
    pub hover: Option<String>,
    pub tone: Tone,
}

/// The words of a label.
pub struct Words {
    pub text: Text,
    pub hover: Option<Text>,
    pub tone: Tone,
}

impl View for Label {
    type V = Words;

    open spec fn view(&self) -> Words {
        Words { text: self.text@, hover: text::opt_text(self.hover), tone: self.tone }
    }
}

pub open spec fn words(shown: Text, hover: Text, tone: Tone) -> Words {
    Words { text: shown, hover: Some(hover), tone }
}

/// A label with a hover text.
pub fn label(shown: &str, hover: &str, tone: Tone) -> (r: Label)
    ensures
        r@ == words(shown@, hover@, tone),
{
    Label { text: shown.to_owned(), hover: Some(hover.to_owned()), tone }
}

// ---------------------------------------------------------------------
// Files

/// One ✔/✖ cell of the runs table, with the full path on hover.
pub open spec fn status_words(status: FileStatus<Text>) -> Words {
    match status {
        FileStatus::Present(path) => words("✔"@, path, Tone::Success),
        FileStatus::Writing(path) => words(
            "⏳"@,
            "being written — the folder is there but not complete yet: the Spectra.txt rows must match the frames (raw: .fits minus the SummedImg; corrected: .tif, plus summary.json)\n"@
                + path,
            Tone::Warning,
        ),
        FileStatus::Missing(path) => words(
            "✖"@,
            "not there yet — expected at\n"@ + path,
            Tone::Dim,
        ),
    }
}

pub fn status_cell(status: &FileStatus) -> (r: Label)
    ensures
        r@ == status_words(status@),
{
    match status {
        FileStatus::Present(path) => label("✔", path.as_str(), Tone::Success),
        FileStatus::Writing(path) => {
            let hover = text::cat2(
                "being written — the folder is there but not complete yet: the Spectra.txt rows must match the frames (raw: .fits minus the SummedImg; corrected: .tif, plus summary.json)\n",
                path.as_str(),
            );
            label("⏳", hover.as_str(), Tone::Warning)
        },
        FileStatus::Missing(path) => {
            let hover = text::cat2("not there yet — expected at\n", path.as_str());
            label("✖", hover.as_str(), Tone::Dim)
        },
    }
}

/// The lines, each indented.
pub open spec fn indented(lines: Seq<Text>) -> Seq<Text> {
    lines.map_values(|l: Text| "      "@ + l)
}

/// The plot draws hover text left-anchored at the pointer tip, where
/// the arrow cursor covers the first characters — indent every line so
/// the text starts clear of the cursor.
pub fn hover_indent(s: &str) -> (r: String)
    ensures
        r@ == text::joined(indented(text::lines_of(s@)), "\n"@),
{
    let lines = text::lines(s);
    let ghost ls = text::lines_of(s@);
    let mut out: Vec<String> = Vec::new();
    let mut i: usize = 0;
    while i < lines.len()
        invariant
            i <= lines@.len(),
            ls == text::texts(lines@),
            text::texts(out@) =~= indented(ls.take(i as int)),
        decreases lines@.len() - i,
    {
        let ghost before = out@;
        let l = text::cat2("      ", lines[i].as_str());
        out.push(l);
        assert(text::texts(out@) =~= text::texts(before).push(l@));
        i = i + 1;
    }
    assert(ls.take(i as int) =~= ls);
    text::join(&out, "\n")
}

/// The file name of a path (the whole path when it has none).
pub open spec fn short(path: Text) -> Text {
    match paths::file_name(path) {
        Some(name) => name,
        None => path,
    }
}

pub fn short_name(path: &str) -> (r: String)
    ensures
        r@ == short(path@),
{
    match paths::file_name_of(path) {
        Some(name) => name,
        None => path.to_owned(),
    }
}

// ---------------------------------------------------------------------
// Auto normalization

/// The words of the ON/OFF button.
pub open spec fn switch_words(active: bool, can_turn_on: bool) -> Words {
    if active {
        words(
            "Auto normalization: ON"@,
            "Every upcoming run is normalized automatically — click to turn OFF"@,
            Tone::Success,
        )
    } else if can_turn_on {
        words(
            "Auto normalization: OFF"@,
            "Click to normalize every upcoming run with the selected configuration"@,
            Tone::Danger,
        )
    } else {
        words(
            "Auto normalization: OFF"@,
            "Select a normalization configuration file first"@,
            Tone::Danger,
        )
    }
}

/// The ON/OFF button; it can be pressed when auto normalization is on or a
/// configuration file is selected.
pub fn switch_label(active: bool, can_turn_on: bool) -> (r: Label)
    ensures
        r@ == switch_words(active, can_turn_on),
{
    if active {
        label(
            "Auto normalization: ON",
            "Every upcoming run is normalized automatically — click to turn OFF",
            Tone::Success,
        )
    } else if can_turn_on {
        label(
            "Auto normalization: OFF",
            "Click to normalize every upcoming run with the selected configuration",
            Tone::Danger,
        )
    } else {
        label(
            "Auto normalization: OFF",
            "Select a normalization configuration file first",
            Tone::Danger,
        )
    }
}

pub open spec fn or_unknown(value: Option<Text>) -> Text {
    match value {
        Some(v) => v,
        None => "?"@,
    }
}

/// What fires while auto normalization is on.
pub open spec fn firing(live: bool, rolling: bool) -> Text {
    if live && rolling {
        " — live reduction + rolling combine & compare windows"@
    } else if live {
        " — live reduction only"@
    } else if rolling {
        " — rolling combine & compare windows only"@
    } else {
        " — nothing fires from here: check 4. and/or 5. below"@
    }
}

/// What the shared configuration registers while auto normalization is on:
/// it may point at another experiment or file than the one selected here.
pub open spec fn registered_words(cfg: Contents) -> Words {
    let ipts = or_unknown(config::value_of(cfg.entries, "ipts"@));
    let file = or_unknown(config::value_of(cfg.entries, "user_autoreduction_config_file"@));
    words(
        "Active on "@ + ipts + " with "@ + short(file) + firing(
            cfg.live_reduction,
            cfg.rolling_combine,
        ),
        file,
        Tone::Dim,
    )
}

pub fn registered_label(cfg: &AutoNormConfig) -> (r: Label)
    ensures
        r@ == registered_words(cfg@),
{
    let ipts = match cfg.get("ipts") {
        Some(v) => v,
        None => "?",
    };
    let file = match cfg.get("user_autoreduction_config_file") {
        Some(v) => v,
        None => "?",
    };
    let what = if cfg.live_reduction && cfg.rolling_combine {
        " — live reduction + rolling combine & compare windows"
    } else if cfg.live_reduction {
        " — live reduction only"
    } else if cfg.rolling_combine {
        " — rolling combine & compare windows only"
    } else {
        " — nothing fires from here: check 4. and/or 5. below"
    };
    let name = short_name(file);
    let shown = text::cat5("Active on ", ipts, " with ", name.as_str(), what);
    label(shown.as_str(), file, Tone::Dim)
}

// ---------------------------------------------------------------------
// The rolling windows

/// What the windows look at.
pub open spec fn windows_words(live: bool, active: bool) -> Text {
    if live {
        "Live: the windows follow the latest run of the IPTS, and the normalizations fire when a new NeXus shows up (auto normalization ON + configuration selected)."@
    } else if active {
        "Hybrid: the windows look at the listed runs, new runs join the list as they land, and the normalizations fire on each new NeXus."@
    } else {
        "The windows look at the listed runs only — launch by hand (turn auto normalization ON to have new runs join the list)."@
    }
}

pub fn windows_caption(live: bool, active: bool) -> (r: &'static str)
    ensures
        r@ == windows_words(live, active),
{
    if live {
        "Live: the windows follow the latest run of the IPTS, and the normalizations fire when a new NeXus shows up (auto normalization ON + configuration selected)."
    } else if active {
        "Hybrid: the windows look at the listed runs, new runs join the list as they land, and the normalizations fire on each new NeXus."
    } else {
        "The windows look at the listed runs only — launch by hand (turn auto normalization ON to have new runs join the list)."
    }
}

/// The runs in decimal, with commas.
pub open spec fn run_list(runs: Seq<u64>) -> Text {
    text::joined(number::decimals(runs), ", "@)
}

pub fn run_list_text(runs: &Vec<u64>) -> (r: String)
    ensures
        r@ == run_list(runs@),
{
    let list = number::decimal_texts(runs);
    text::join(&list, ", ")
}

/// How many runs a window spells out.
pub const RUNS_SPELLED_OUT: usize = 8;

/// Which runs a window holds. A range ("23640–23642") only when truly
/// contiguous — with a hole (e.g. a rejected run) the actual numbers are
/// spelled out.
pub open spec fn window_words(runs: Seq<u64>) -> Text {
    if runs.len() == 0 {
        "no run in window"@
    } else {
        let first = number::decimal(runs[0] as nat);
        let last = number::decimal(runs.last() as nat);
        let n = number::decimal(runs.len());
        if runs[0] == runs.last() {
            "1 run ("@ + first + ")"@
        } else if runs.last() - runs[0] + 1 == runs.len() {
            n + " runs ("@ + first + "–"@ + last + ")"@
        } else if runs.len() <= RUNS_SPELLED_OUT {
            n + " runs ("@ + run_list(runs) + ")"@
        } else {
            n + " runs ("@ + first + ", …, "@ + last + ")"@
        }
    }
}

/// Which runs a window currently holds.
pub fn window_summary(runs: &Vec<u64>) -> (r: String)
    requires
        order::non_descending(runs@),
    ensures
        r@ == window_words(runs@),
{
    let count: usize = runs.len();
    if count == 0 {
        return "no run in window".to_owned();
    }
    let (a, b) = (runs[0], runs[count - 1]);
    assert(runs@[0] <= runs@[count - 1]);
    let first = number::decimal_text(a);
    let last = number::decimal_text(b);
    let n = number::decimal_text(count as u64);
    if a == b {
        text::cat3("1 run (", first.as_str(), ")")
    } else if b - a == (count - 1) as u64 {
        text::cat6(n.as_str(), " runs (", first.as_str(), "–", last.as_str(), ")")
    } else if count <= RUNS_SPELLED_OUT {
        let list = run_list_text(runs);
        text::cat4(n.as_str(), " runs (", list.as_str(), ")")
    } else {
        text::cat6(n.as_str(), " runs (", first.as_str(), ", …, ", last.as_str(), ")")
    }
}

/// The time of day of a wall-clock text.
pub open spec fn time_of_day(clock: Text) -> Text {
    match text::cut(clock, " "@) {
        Some((_, time)) => time,
        None => clock,
    }
}

fn day_time(clock: &str) -> (r: String)
    ensures
        r@ == time_of_day(clock@),
{
    match text::split_once(clock, " ") {
        Some((_, time)) => time,
        None => clock.to_owned(),
    }
}

/// The hover of a failed job.
pub open spec fn failure_words(message: Text, log: Option<Text>) -> Text {
    match log {
        Some(l) => message + "\n\nfull log: "@ + l,
        None => message,
    }
}

pub fn failure_hover(message: &str, log: &Option<String>) -> (r: String)
    ensures
        r@ == failure_words(message@, text::opt_text(*log)),
{
    match log {
        Some(l) => text::cat3(message, "\n\nfull log: ", l.as_str()),
        None => message.to_owned(),
    }
}

/// The state of a window that is not being normalized.
pub open spec fn window_state_words(phase: Phase) -> Option<Words> {
    match phase {
        Phase::Idle => Some(Words { text: "—"@, hover: None, tone: Tone::Dim }),
        Phase::Running { .. } => None,
        Phase::Done { output, finished, runs } => Some(
            words(
                "✔ "@ + time_of_day(finished) + " ("@ + number::decimal(runs.len()) + " run(s))"@,
                output,
                Tone::Success,
            ),
        ),
        Phase::Failed { message, log } => Some(
            words("✖ failed"@, failure_words(message, log), Tone::Danger),
        ),
    }
}

pub open spec fn opt_words(l: Option<Label>) -> Option<Words> {
    match l {
        Some(label) => Some(label@),
        None => None,
    }
}

/// The status of a window; `None` while it is being normalized (a progress
/// bar stands there).
pub fn window_state_label(state: &JobState) -> (r: Option<Label>)
    ensures
        opt_words(r) == window_state_words(state@),
{
    match state {
        JobState::Idle => Some(Label { text: "—".to_owned(), hover: None, tone: Tone::Dim }),
        JobState::Running { .. } => None,
        JobState::Done { output, finished, runs } => {
            let time = day_time(finished.as_str());
            let n = number::decimal_text(runs.len() as u64);
            let shown = text::cat5("✔ ", time.as_str(), " (", n.as_str(), " run(s))");
            Some(label(shown.as_str(), output.as_str(), Tone::Success))
        },
        JobState::Failed { message, log } => {
            let hover = failure_hover(message.as_str(), log);
            Some(label("✖ failed", hover.as_str(), Tone::Danger))
        },
    }
}

/// Does some window hold a run?
pub open spec fn holds_runs(windows: Seq<Window>) -> bool {
    exists|i: int| 0 <= i < windows.len() && (#[trigger] windows[i]).runs@.len() > 0
}

/// Can the windows be normalized by hand: with a configuration file
/// selected, and a run in one of them?
pub fn windows_launchable(windows: &Vec<Window>, config_selected: bool) -> (r: bool)
    ensures
        r == (config_selected && holds_runs(windows@)),
{
    if !config_selected {
        return false;
    }
    let mut i: usize = 0;
    while i < windows.len()
        invariant
            i <= windows@.len(),
            config_selected,
            forall|k: int| 0 <= k < i ==> (#[trigger] windows@[k]).runs@.len() == 0,
        decreases windows@.len() - i,
    {
        if windows[i].runs.len() > 0 {
            assert(windows@[i as int].runs@.len() > 0);
            return true;
        }
        i = i + 1;
    }
    false
}

/// The results of the windows that have one, in order.
pub open spec fn window_results(windows: Seq<Window>) -> Seq<Text>
    decreases windows.len(),
{
    if windows.len() == 0 {
        Seq::empty()
    } else {
        let before = window_results(windows.drop_last());
        match windows.last().state@ {
            Phase::Done { output, .. } => before.push(output),
            _ => before,
        }
    }
}

/// The results of the windows that have one: what the comparison opens.
pub fn windows_done(windows: &Vec<Window>) -> (r: Vec<String>)
    ensures
        text::texts(r@) == window_results(windows@),
{
    let mut out: Vec<String> = Vec::new();
    let mut i: usize = 0;
    assert(text::texts(out@) =~= window_results(windows@.take(0)));
    while i < windows.len()
        invariant
            i <= windows@.len(),
            text::texts(out@) == window_results(windows@.take(i as int)),
        decreases windows@.len() - i,
    {
        assert(windows@.take(i + 1).drop_last() =~= windows@.take(i as int));
        assert(windows@.take(i + 1).last() == windows@[i as int]);
        match &windows[i].state {
            JobState::Done { output, .. } => {
                let ghost before = out@;
                let item = output.clone();
                out.push(item);
                assert(text::texts(out@) =~= text::texts(before).push(item@));
            },
            _ => {},
        }
        i = i + 1;
    }
    assert(windows@.take(i as int) =~= windows@);
    out
}

/// The comparison button: it needs every window normalized.
pub open spec fn compare_words(done: nat, total: nat) -> Words {
    let n = number::decimal(total);
    if done == total {
        words(
            "👁 Compare all "@ + n + " (ready)"@,
            "Open ONE TIFF viewer with the windows side by side (shared colorscale, regions mirrored)"@,
            Tone::Plain,
        )
    } else {
        words(
            "👁 Compare all "@ + n,
            "All windows must be normalized first ("@ + number::decimal(done) + " of "@ + n
                + " ready)"@,
            Tone::Plain,
        )
    }
}

/// The button that compares the windows, and whether it can be clicked: every
/// window must be normalized.
pub fn compare_label(done: usize, total: usize) -> (r: (Label, bool))
    ensures
        r.0@ == compare_words(done as nat, total as nat),
        r.1 == (done == total),
{
    let n = number::decimal_text(total as u64);
    if done == total {
        let shown = text::cat3("👁 Compare all ", n.as_str(), " (ready)");
        let words = label(
            shown.as_str(),
            "Open ONE TIFF viewer with the windows side by side (shared colorscale, regions mirrored)",
            Tone::Plain,
        );
        (words, true)
    } else {
        let shown = text::cat2("👁 Compare all ", n.as_str());
        let k = number::decimal_text(done as u64);
        let hover = text::cat5(
            "All windows must be normalized first (",
            k.as_str(),
            " of ",
            n.as_str(),
            " ready)",
        );
        (label(shown.as_str(), hover.as_str(), Tone::Plain), false)
    }
}

// ---------------------------------------------------------------------
// Progress

/// The mark of a stage: done, under way, or to come.
pub open spec fn stage_mark(i: int, k: int) -> Text {
    if i < k {
        "✔"@
    } else if i == k {
        "▶"@
    } else {
        "·"@
    }
}

/// The list of the stages, the `k`-th under way.
pub open spec fn stages_words(stages: Seq<Text>, k: int) -> Text
    decreases stages.len(),
{
    if stages.len() == 0 {
        Seq::empty()
    } else {
        stages_words(stages.drop_last(), k) + "\n "@ + stage_mark(stages.len() as int, k) + " "@
            + stages.last()
    }
}

/// The hover of a job's progress: every stage, the done ones ticked, once
/// they are announced.
pub open spec fn progress_hover_words(what: Text, stage: Text, stages: Seq<Text>) -> Text {
    match norm::place_of(stages, stage, 0) {
        Some(i) => what + "\nstage "@ + number::decimal((i + 1) as nat) + "/"@ + number::decimal(
            stages.len(),
        ) + stages_words(stages, i + 1),
        None => what + "\n"@ + stage,
    }
}

/// The text next to a job's progress bar.
pub open spec fn progress_words(stage: Text, stages: Seq<Text>) -> Text {
    match norm::place_of(stages, stage, 0) {
        Some(i) => number::decimal((i + 1) as nat) + "/"@ + number::decimal(stages.len()) + " "@
            + stage,
        None => stage,
    }
}

/// Overall progress of a job: "stage k/n" of the whole workflow once the
/// script announced its stages, the current stage alone before that. Hover:
/// every stage, the done ones ticked.
pub fn progress_label(what: &str, stage: &str, stages: &Vec<String>) -> (r: Label)
    ensures
        r@ == words(
            progress_words(stage@, text::texts(stages@)),
            progress_hover_words(what@, stage@, text::texts(stages@)),
            Tone::Info,
        ),
{
    match norm::overall_progress(stages, stage) {
        None => {
            let hover = text::cat3(what, "\n", stage);
            label(stage, hover.as_str(), Tone::Info)
        },
        Some((k, n)) => {
            let ghost ss = text::texts(stages@);
            let kt = number::decimal_text(k as u64);
            let nt = number::decimal_text(n as u64);
            let shown = text::cat5(kt.as_str(), "/", nt.as_str(), " ", stage);
            let mut hover = text::cat5(what, "\nstage ", kt.as_str(), "/", nt.as_str());
            let ghost head = hover@;
            let mut i: usize = 0;
            assert(ss.take(0) =~= Seq::empty());
            assert(head + stages_words(ss.take(0), k as int) =~= head);
            while i < stages.len()
                invariant
                    i <= stages@.len(),
                    ss == text::texts(stages@),
                    hover@ == head + stages_words(ss.take(i as int), k as int),
                decreases stages@.len() - i,
            {
                assert(ss.take(i + 1).drop_last() =~= ss.take(i as int));
                assert(ss.take(i + 1).last() == stages@[i as int]@);
                let mark = if i + 1 < k {
                    "✔"
                } else if i + 1 == k {
                    "▶"
                } else {
                    "·"
                };
                hover.append("\n ");
                hover.append(mark);
                hover.append(" ");
                hover.append(stages[i].as_str());
                assert(hover@ =~= head + stages_words(ss.take(i + 1), k as int));
                i = i + 1;
            }
            assert(ss.take(i as int) =~= ss);
            label(shown.as_str(), hover.as_str(), Tone::Info)
        },
    }
}

// ---------------------------------------------------------------------
// The output panel

/// The heading of the output of a job.
pub open spec fn output_words(target: JobTarget, windows: Seq<Window>) -> Text {
    match target {
        JobTarget::Run(run) => "Output — run "@ + number::decimal(run as nat),
        JobTarget::Window(i) => if i < windows.len() {
            "Output — window last "@ + number::decimal(windows[i as int].minutes as nat) + " min"@
        } else {
            "Output"@
        },
    }
}

pub fn output_title(target: JobTarget, windows: &Vec<Window>) -> (r: String)
    ensures
        r@ == output_words(target, windows@),
{
    match target {
        JobTarget::Run(run) => {
            let n = number::decimal_text(run);
            text::cat2("Output — run ", n.as_str())
        },
        JobTarget::Window(i) => if i < windows.len() {
            let n = number::decimal_text(windows[i].minutes as u64);
            text::cat3("Output — window last ", n.as_str(), " min")
        } else {
            "Output".to_owned()
        },
    }
}

/// What to say when no line was streamed: a job refused before the
/// script even started only has its failure message; a result found
/// on disk was produced elsewhere.
pub open spec fn no_output_words(phase: Option<Phase>) -> (Text, Tone) {
    match phase {
        Some(Phase::Running { .. }) => ("no output yet…"@, Tone::Info),
        Some(Phase::Failed { message, log }) => match log {
            None => (
                "The normalization was refused before NeuNorm started — nothing to stream. Reason:\n\n"@
                    + message,
                Tone::Danger,
            ),
            Some(l) => (message + "\n\nfull log: "@ + l, Tone::Danger),
        },
        Some(Phase::Done { output, .. }) => (
            "Result found on disk — normalized in another session or by the workflow runner, so there is no output to show here.\n"@
                + output,
            Tone::Dim,
        ),
        _ => ("no output kept for this job"@, Tone::Dim),
    }
}

pub open spec fn opt_phase(s: Option<&JobState>) -> Option<Phase> {
    match s {
        Some(state) => Some(state@),
        None => None,
    }
}

pub fn no_output_note(state: Option<&JobState>) -> (r: (String, Tone))
    ensures
        (r.0@, r.1) == no_output_words(opt_phase(state)),
{
    match state {
        Some(JobState::Running { .. }) => ("no output yet…".to_owned(), Tone::Info),
        Some(JobState::Failed { message, log }) => match log {
            None => (
                text::cat2(
                    "The normalization was refused before NeuNorm started — nothing to stream. Reason:\n\n",
                    message.as_str(),
                ),
                Tone::Danger,
            ),
            Some(l) => (
                text::cat3(message.as_str(), "\n\nfull log: ", l.as_str()),
                Tone::Danger,
            ),
        },
        Some(JobState::Done { output, .. }) => (
            text::cat2(
                "Result found on disk — normalized in another session or by the workflow runner, so there is no output to show here.\n",
                output.as_str(),
            ),
            Tone::Dim,
        ),
        _ => ("no output kept for this job".to_owned(), Tone::Dim),
    }
}

/// Pressing the output button of a job shows its output, or hides it when
/// it is shown.
pub fn toggle_output_view(shown: Option<JobTarget>, target: JobTarget) -> (r: Option<JobTarget>)
    ensures
        r == if shown == Some(target) {
            None::<JobTarget>
        } else {
            Some(target)
        },
{
    match shown {
        Some(t) => if t == target {
            None
        } else {
            Some(target)
        },
        None => Some(target),
    }
}

// ---------------------------------------------------------------------
// The live reduction

/// How many of the listed runs are rejected.
pub open spec fn rejected_count(rows: Seq<RunFiles<Text>>, rejected: Seq<u64>) -> nat
    decreases rows.len(),
{
    if rows.len() == 0 {
        0
    } else if rejected.contains(rows.last().run) {
        rejected_count(rows.drop_last(), rejected) + 1
    } else {
        rejected_count(rows.drop_last(), rejected)
    }
}

pub fn count_rejected(rows: &Vec<RunFiles>, rejected: &Vec<u64>) -> (r: usize)
    ensures
        r == rejected_count(files::statuses(rows@), rejected@),
        r <= rows@.len(),
{
    let ghost rs = files::statuses(rows@);
    let mut n: usize = 0;
    let mut i: usize = 0;
    while i < rows.len()
        invariant
            n <= i <= rows@.len(),
            rs == files::statuses(rows@),
            n == rejected_count(rs.take(i as int), rejected@),
        decreases rows@.len() - i,
    {
        assert(rs.take(i + 1).drop_last() =~= rs.take(i as int));
        assert(rs.take(i + 1).last() == rows@[i as int]@);
        if order::member(rejected, rows[i].run) {
            n = n + 1;
        }
        i = i + 1;
    }
    assert(rs.take(i as int) =~= rs);
    n
}

/// Is there nothing to show under the heading: opted out, or no run yet?
pub open spec fn folded(live: bool, rows: nat, upcoming: bool) -> bool {
    !live || (rows == 0 && !upcoming)
}

pub fn is_folded(live: bool, rows: &Vec<RunFiles>, upcoming: bool) -> (r: bool)
    ensures
        r == folded(live, rows@.len(), upcoming),
{
    !live || (rows.len() == 0 && !upcoming)
}

/// The heading of the live reduction.
pub open spec fn heading_words(live: bool, rows: nat, rejected: nat, upcoming: bool) -> Text {
    if folded(live, rows, upcoming) {
        "5. Live reduction"@
    } else if rows == 0 {
        "5. Live reduction — next auto-normalized run"@
    } else if rejected > 0 {
        "5. Live reduction ("@ + number::decimal((rows - rejected) as nat) + " runs, "@
            + number::decimal(rejected) + " rejected)"@
    } else {
        "5. Live reduction ("@ + number::decimal(rows) + " runs)"@
    }
}

pub fn live_heading(live: bool, rows: &Vec<RunFiles>, rejected: &Vec<u64>, upcoming: bool) -> (r: String)
    ensures
        r@ == heading_words(
            live,
            rows@.len(),
            rejected_count(files::statuses(rows@), rejected@),
            upcoming,
        ),
{
    let n: usize = rows.len();
    if is_folded(live, rows, upcoming) {
        return "5. Live reduction".to_owned();
    }
    if n == 0 {
        return "5. Live reduction — next auto-normalized run".to_owned();
    }
    let out = count_rejected(rows, rejected);
    if out > 0 {
        let left = number::decimal_text((n - out) as u64);
        let gone = number::decimal_text(out as u64);
        text::cat5("5. Live reduction (", left.as_str(), " runs, ", gone.as_str(), " rejected)")
    } else {
        let all = number::decimal_text(n as u64);
        text::cat3("5. Live reduction (", all.as_str(), " runs)")
    }
}

/// Has the run its corrected data and no result yet?
pub open spec fn lacks_result(
    row: RunFiles<Text>,
    jobs: Phases,
    rejected: Seq<u64>,
    image_paths: Map<u64, String>,
) -> bool {
    &&& row.corrected is Present
    &&& !rejected.contains(row.run)
    &&& beams::kind_in(image_paths, row.run) == RunKind::Sample
    &&& !(jobs.dom().contains(row.run) && (jobs[row.run] is Done || jobs[row.run] is Running))
}

/// The runs to normalize, newest first.
pub open spec fn missing(
    rows: Seq<RunFiles<Text>>,
    jobs: Phases,
    rejected: Seq<u64>,
    image_paths: Map<u64, String>,
) -> Seq<u64>
    decreases rows.len(),
{
    if rows.len() == 0 {
        Seq::empty()
    } else {
        let older = missing(rows.drop_last(), jobs, rejected, image_paths);
        if lacks_result(rows.last(), jobs, rejected, image_paths) {
            seq![rows.last().run] + older
        } else {
            older
        }
    }
}

/// Every listed run with complete corrected data and no result
/// yet, newest first: what "normalize all missing" queues.
pub fn missing_runs(
    rows: &Vec<RunFiles>,
    board: &Board,
    rejected: &Vec<u64>,
    image_paths: &RunMap<String>,
) -> (r: Vec<u64>)
    ensures
        r@ == missing(files::statuses(rows@), board.jobs(), rejected@, image_paths@),
{
    let ghost rs = files::statuses(rows@);
    let mut out: Vec<u64> = Vec::new();
    let mut i: usize = rows.len();
    assert(rs.take(i as int) =~= rs);
    while i > 0
        invariant
            i <= rows@.len(),
            rs == files::statuses(rows@),
            out@ + missing(rs.take(i as int), board.jobs(), rejected@, image_paths@) == missing(
                rs,
                board.jobs(),
                rejected@,
                image_paths@,
            ),
        decreases i,
    {
        proof {
            assert(rs.take(i as int).drop_last() =~= rs.take(i - 1));
            assert(rs.take(i as int).last() == rows@[i - 1]@);
        }
        i = i - 1;
        let run = rows[i].run;
        let ready = match &rows[i].corrected {
            FileStatus::Present(_) => true,
            _ => false,
        };
        let taken = match board.job(run) {
            Some(state) => state.is_done() || state.is_running(),
            None => false,
        };
        if ready && !order::member(rejected, run) && !beams::skips_normalization(image_paths, run)
            && !taken {
            let ghost before = out@;
            let ghost older = missing(rs.take(i as int), board.jobs(), rejected@, image_paths@);
            out.push(run);
            assert(out@ + older =~= before + (seq![run] + older));
        }
    }
    assert(rs.take(0) =~= Seq::empty());
    assert(out@ + Seq::<u64>::empty() =~= out@);
    out
}

/// Has one of the runs a configuration file to be normalized with?
pub open spec fn some_configured(runs: Seq<u64>, plan: settings::Plan) -> bool {
    exists|i: int| 0 <= i < runs.len() && settings::config_for(plan, #[trigger] runs[i]) is Some
}

pub fn any_configured(runs: &Vec<u64>, plan: &settings::Settings) -> (r: bool)
    ensures
        r == some_configured(runs@, plan@),
{
    let mut i: usize = 0;
    while i < runs.len()
        invariant
            i <= runs@.len(),
            forall|k: int|
                0 <= k < i ==> settings::config_for(plan@, #[trigger] runs@[k]) is None,
        decreases runs@.len() - i,
    {
        if plan.config_for_run(runs[i]).is_some() {
            assert(settings::config_for(plan@, runs@[i as int]) is Some);
            return true;
        }
        i = i + 1;
    }
    false
}

/// The "normalize all missing" button.
pub open spec fn missing_words(count: nat, enabled: bool, parallel: nat) -> Words {
    words(
        "▶ normalize all missing ("@ + number::decimal(count) + ")"@,
        if enabled {
            "Normalize every listed run that has its corrected data and no result yet — newest first, up to "@
                + number::decimal(parallel) + " at a time"@
        } else {
            "Nothing to do: every listed run is normalized, running, or waiting for its corrected data (or no configuration is selected)"@
        },
        Tone::Plain,
    )
}

pub fn missing_label(count: usize, enabled: bool, parallel: usize) -> (r: Label)
    ensures
        r@ == missing_words(count as nat, enabled, parallel as nat),
{
    let n = number::decimal_text(count as u64);
    let shown = text::cat3("▶ normalize all missing (", n.as_str(), ")");
    let hover = if enabled {
        let p = number::decimal_text(parallel as u64);
        text::cat3(
            "Normalize every listed run that has its corrected data and no result yet — newest first, up to ",
            p.as_str(),
            " at a time",
        )
    } else {
        "Nothing to do: every listed run is normalized, running, or waiting for its corrected data (or no configuration is selected)".to_owned()
    };
    label(shown.as_str(), hover.as_str(), Tone::Plain)
}

/// The words next to the setting of the parallel jobs.
pub fn parallel_label(running: usize) -> (r: String)
    ensures
        r@ == if running == 0 {
            "parallel jobs"@
        } else {
            "parallel jobs ("@ + number::decimal(running as nat) + " running)"@
        },
{
    if running == 0 {
        "parallel jobs".to_owned()
    } else {
        let n = number::decimal_text(running as u64);
        text::cat3("parallel jobs (", n.as_str(), " running)")
    }
}

/// What "normalize all missing" queues has its corrected data, is a sample
/// run that is not rejected, and is neither normalized nor being normalized.
pub proof fn missing_runs_are_ready(
    rows: Seq<RunFiles<Text>>,
    jobs: Phases,
    rejected: Seq<u64>,
    image_paths: Map<u64, String>,
    run: u64,
)
    requires
        missing(rows, jobs, rejected, image_paths).contains(run),
    ensures
        exists|i: int|
            0 <= i < rows.len() && (#[trigger] rows[i]).run == run && lacks_result(
                rows[i],
                jobs,
                rejected,
                image_paths,
            ),
    decreases rows.len(),
{
    let all = missing(rows, jobs, rejected, image_paths);
    if rows.len() > 0 {
        let older = missing(rows.drop_last(), jobs, rejected, image_paths);
        let k = choose|k: int| 0 <= k < all.len() && all[k] == run;
        assert(rows[rows.len() - 1] == rows.last());
        if !(lacks_result(rows.last(), jobs, rejected, image_paths) && rows.last().run == run) {
            if lacks_result(rows.last(), jobs, rejected, image_paths) {
                assert(older[k - 1] == run);
            }
            assert(older.contains(run));
            missing_runs_are_ready(rows.drop_last(), jobs, rejected, image_paths, run);
            let i = choose|i: int|
                0 <= i < rows.drop_last().len() && (#[trigger] rows.drop_last()[i]).run == run
                    && lacks_result(rows.drop_last()[i], jobs, rejected, image_paths);
            assert(rows[i] == rows.drop_last()[i]);
        }
    }
}

} // verus!
