//! NeuNorm normalizations run through the VENUS workflow-runner script
//! (`normalize_tof.py`):
//!
//! - **Per-run**: a run normalized on its own, with the configuration
//!   file's sample replaced by that run — automatically for every new run
//!   when auto normalization is ON (as soon as its detector-corrected
//!   folder shows up), on demand for older runs. Output goes under the
//!   configuration's output folder, in a folder named after the run's
//!   corrected (input) folder: `<config output folder>/<corrected folder
//!   name>/normalization` (`<IPTS>/shared/autoreduce/normalized/…` when
//!   the configuration names no output folder). A result the workflow
//!   runner or an older version of this tool left in the legacy layout
//!   (`Run_<run>/normalization`) is found there and not redone.
//! - **Rolling windows**: the runs acquired within the last N minutes
//!   (acquisition time from the NeXus `end_time`) normalized together, one
//!   job per time window. Output:
//!   `<IPTS>/shared/autoreduce/normalized/rolling/anchor_<run>/last_<N>min`.
//!
//! Sample inputs are the runs' detector-corrected folders; open-beam
//! folders come from the normalization configuration file. Every job runs
//! the workflow runner's process: a result already there is never redone,
//! the inputs are pre-cropped on disk when the configuration has a crop
//! region, the script's output is streamed into `logs/<name>.log` next to
//! the result, the job stages into a `.partial` folder and is promoted on
//! success. Every job also appends a human-readable summary — sample,
//! open beams, configuration and its settings, output folder, start and
//! end times — to one `autoreduction.log` at the top of the output folder
//! (see [`SUMMARY_LOG`]), written live: the start block when the job
//! launches, the end line when it finishes.

use vstd::prelude::*;
use crate::clock::{is_within, Moment};
use crate::h5::ConfigInfo;
use crate::text::{Class, Text};
use crate::laws::prepared;
use crate::{clock, files, h5, number, order, paths, quoting, text};

verus! {

/// The headless NeuNorm normalization of the VENUS workflow runner.
pub const NORMALIZE_SCRIPT: &'static str =
    "/SNS/VENUS/shared/software/git/rust_workflow_runner/scripts/normalize_tof.py";

/// Python of the marimo_notebooks pixi environment (has neunorm/scipp/h5py).
pub const PYTHON_BIN: &'static str =
    "/SNS/VENUS/shared/software/git/marimo_notebooks/.pixi/envs/default/bin/python";

/// What a job normalizes: one rolling window (by index) or one run.
#[derive(Clone, Copy, Debug, PartialEq, Eq, Hash, Structural)]
pub enum JobTarget {
    Window(usize),
    Run(u64),
}

/// How far a stage has come, as the script's PROGRESS line counts it: the
/// texts of `<done>/<total>`.
#[derive(Debug)]
pub struct Counts {
    pub done: String,
    pub total: String,
}

/// Lifecycle of one normalization job (a window's or a run's).
pub enum JobState {
    Idle,
    Running {
        /// Runs the job was launched with (the window may drift meanwhile).
        runs: Vec<u64>,
        /// Current NeuNorm stage (from the script's PROGRESS lines).
        stage: String,
        /// Progress within the stage, as last counted.
        counts: Option<Counts>,
        /// The whole workflow, in order (from the script's STAGES line);
        /// empty until announced.
        stages: Vec<String>,
    },
    Done {
        output: String,
        /// When the job finished, as wall-clock text.
        finished: String,
        runs: Vec<u64>,
    },
    Failed {
        message: String,
        /// The job's log file, when the job got far enough to open one.
        log: Option<String>,
    },
}

/// The phase of one normalization job.
pub enum Phase {
    Idle,
    Running { runs: Seq<u64>, stage: Text, counts: Option<(Text, Text)>, stages: Seq<Text> },
    Done { output: Text, finished: Text, runs: Seq<u64> },
    Failed { message: Text, log: Option<Text> },
}

pub open spec fn opt_counts(c: Option<Counts>) -> Option<(Text, Text)> {
    match c {
        Some(c) => Some((c.done@, c.total@)),
        None => None,
    }
}

impl View for JobState {
    type V = Phase;

    open spec fn view(&self) -> Phase {
        match self {
            JobState::Idle => Phase::Idle,
            JobState::Running { runs, stage, counts, stages } => Phase::Running {
                runs: runs@,
                stage: stage@,
                counts: opt_counts(*counts),
                stages: text::texts(stages@),
            },
            JobState::Done { output, finished, runs } => Phase::Done {
                output: output@,
                finished: finished@,
                runs: runs@,
            },
            JobState::Failed { message, log } => Phase::Failed {
                message: message@,
                log: text::opt_text(*log),
            },
        }
    }
}

impl JobState {
    pub fn is_running(&self) -> (r: bool)
        ensures
            r == (self@ is Running),
    {
        match self {
            JobState::Running { .. } => true,
            _ => false,
        }
    }

    pub fn is_done(&self) -> (r: bool)
        ensures
            r == (self@ is Done),
    {
        match self {
            JobState::Done { .. } => true,
            _ => false,
        }
    }
}

/// The phase of a job that was just launched for these runs.
pub open spec fn starting(runs: Seq<u64>) -> Phase {
    Phase::Running { runs, stage: "starting…"@, counts: None, stages: Seq::empty() }
}

/// The state of a job that was just launched for these runs.
pub fn starting_state(runs: Vec<u64>) -> (r: JobState)
    ensures
        r@ == starting(runs@),
{
    let r = JobState::Running {
        runs,
        stage: "starting…".to_owned(),
        counts: None,
        stages: Vec::new(),
    };
    assert(text::texts(Seq::<String>::empty()) =~= Seq::<Text>::empty());
    r
}

/// One rolling time window ("the last N minutes of acquisition").
pub struct Window {
    pub minutes: u32,
    /// Runs whose acquisition ended within the window (newest anchor run
    /// included), ascending.
    pub runs: Vec<u64>,
    pub state: JobState,
}

impl Window {
    pub fn new(minutes: u32) -> (r: Self)
        ensures
            r.minutes == minutes,
            r.runs@.len() == 0,
            r.state is Idle,
    {
        Self { minutes, runs: Vec::new(), state: JobState::Idle }
    }
}

// ---------------------------------------------------------------------
// The script's messages

/// The label and the counts of a PROGRESS line.
pub open spec fn progress(line: Text) -> Option<(Text, Text, Text)> {
    match text::after_prefix(line, "PROGRESS "@) {
        Some(rest) => match text::cut(rest, " "@) {
            Some((counts, label)) => match text::cut(counts, "/"@) {
                Some((done, total)) => Some((text::trimmed(label), done, total)),
                None => None,
            },
            None => None,
        },
        None => None,
    }
}

/// Parse one `PROGRESS <done>/<total> <label>` line of the normalization
/// script (`total` is `-` when unknown) into the label and the counts.
pub fn parse_progress(line: &str) -> (r: Option<(String, Counts)>)
    ensures
        match r {
            Some((label, counts)) => progress(line@) == Some((label@, counts.done@, counts.total@)),
            None => progress(line@) is None,
        },
{
    match text::strip_prefix(line, "PROGRESS ") {
        Some(rest) => match text::split_once(rest.as_str(), " ") {
            Some((counts, label)) => match text::split_once(counts.as_str(), "/") {
                Some((done, total)) => Some((text::trim(label.as_str()), Counts { done, total })),
                None => None,
            },
            None => None,
        },
        None => None,
    }
}

/// The stages of a STAGES line: the labels between bars, without blank ones.
pub open spec fn stage_list(rest: Text) -> Seq<Text> {
    text::pieces(rest, Class::Not('|')).map_values(|s: Text| text::trimmed(s)).filter(
        |s: Text| s.len() > 0,
    )
}

pub open spec fn stages(line: Text) -> Option<Seq<Text>> {
    match text::after_prefix(line, "STAGES "@) {
        Some(rest) => if stage_list(rest).len() > 0 {
            Some(stage_list(rest))
        } else {
            None
        },
        None => None,
    }
}

/// Parse the script's `STAGES <label>|<label>|...` line.
pub fn parse_stages(line: &str) -> (r: Option<Vec<String>>)
    ensures
        match r {
            Some(list) => stages(line@) == Some(text::texts(list@)),
            None => stages(line@) is None,
        },
{
    let rest = match text::strip_prefix(line, "STAGES ") {
        Some(rest) => rest,
        None => return None,
    };
    let parts = text::split(rest.as_str(), Class::Not('|'));
    let ghost ps = text::pieces(rest@, Class::Not('|')).map_values(|s: Text| text::trimmed(s));
    let ghost keep = |s: Text| s.len() > 0;
    let mut out: Vec<String> = Vec::new();
    let mut i: usize = 0;
    while i < parts.len()
        invariant
            i <= parts@.len(),
            text::texts(parts@) == text::pieces(rest@, Class::Not('|')),
            ps == text::pieces(rest@, Class::Not('|')).map_values(|s: Text| text::trimmed(s)),
            keep == (|s: Text| s.len() > 0),
            text::texts(out@) == ps.take(i as int).filter(keep),
        decreases parts@.len() - i,
    {
        proof {
            reveal(Seq::filter);
            assert(ps.take(i + 1).drop_last() =~= ps.take(i as int));
            assert(text::texts(parts@)[i as int] == parts@[i as int]@);
            assert(ps.take(i + 1).last() == text::trimmed(parts@[i as int]@));
        }
        let stage = text::trim(parts[i].as_str());
        if !stage.as_str().is_empty() {
            let ghost before = out@;
            out.push(stage);
            assert(text::texts(out@) =~= text::texts(before).push(stage@));
        }
        i = i + 1;
    }
    assert(ps.take(i as int) =~= ps);
    assert(text::texts(out@).len() == out@.len());
    if out.len() == 0 {
        None
    } else {
        Some(out)
    }
}

/// The place of the first `stage`, from index `i` on.
pub open spec fn place_of(stages: Seq<Text>, stage: Text, i: int) -> Option<int>
    decreases stages.len() - i,
{
    if !(0 <= i < stages.len()) {
        None
    } else if stages[i] == stage {
        Some(i)
    } else {
        place_of(stages, stage, i + 1)
    }
}

/// Overall progress of a job: the place of the current stage, counted from
/// one, and the number of stages. `None` before the stages are known or for
/// a stage outside the announced list.
pub fn overall_progress(stages: &Vec<String>, stage: &str) -> (r: Option<(usize, usize)>)
    ensures
        match r {
            Some((k, n)) => {
                &&& n == stages@.len()
                &&& place_of(text::texts(stages@), stage@, 0) == Some(k - 1)
                &&& 1 <= k <= n
            },
            None => place_of(text::texts(stages@), stage@, 0) is None,
        },
{
    let ghost ss = text::texts(stages@);
    let mut i: usize = 0;
    while i < stages.len()
        invariant
            i <= stages@.len(),
            ss == text::texts(stages@),
            place_of(ss, stage@, 0) == place_of(ss, stage@, i as int),
        decreases stages@.len() - i,
    {
        assert(ss[i as int] == stages@[i as int]@);
        if text::same(stages[i].as_str(), stage) {
            return Some((i + 1, stages.len()));
        }
        i = i + 1;
    }
    None
}

// ---------------------------------------------------------------------
// Rolling windows

/// The latest moment of a list.
pub open spec fn latest(times: Seq<(u64, Moment)>) -> Option<Moment>
    decreases times.len(),
{
    if times.len() == 0 {
        None
    } else {
        match latest(times.drop_last()) {
            Some(t) => if clock::at_or_before(t, times.last().1) {
                Some(times.last().1)
            } else {
                Some(t)
            },
            None => Some(times.last().1),
        }
    }
}

/// The latest moment is one of the list, and none is after it.
pub proof fn latest_is_latest(times: Seq<(u64, Moment)>)
    ensures
        match latest(times) {
            Some(t) => {
                &&& exists|i: int| 0 <= i < times.len() && #[trigger] times[i].1 == t
                &&& forall|i: int|
                    0 <= i < times.len() ==> clock::at_or_before(#[trigger] times[i].1, t)
            },
            None => times.len() == 0,
        },
    decreases times.len(),
{
    if times.len() > 0 {
        let rest = times.drop_last();
        latest_is_latest(rest);
        let last = times[times.len() - 1].1;
        match latest(rest) {
            Some(t) => {
                let i = choose|i: int| 0 <= i < rest.len() && #[trigger] rest[i].1 == t;
                assert(times[i].1 == t);
                assert forall|j: int| 0 <= j < times.len() implies clock::at_or_before(
                    #[trigger] times[j].1,
                    latest(times)->0,
                ) by {
                    if j < rest.len() {
                        assert(rest[j].1 == times[j].1);
                    }
                }
            },
            None => {
                assert(times[0].1 == last);
            },
        }
    }
}

/// The runs of the moments no earlier than `minutes` before the anchor, in
/// the order of the list.
pub open spec fn runs_within(times: Seq<(u64, Moment)>, anchor: Moment, minutes: nat) -> Seq<u64>
    decreases times.len(),
{
    if times.len() == 0 {
        Seq::empty()
    } else if clock::within(times.last().1, anchor, minutes) {
        runs_within(times.drop_last(), anchor, minutes).push(times.last().0)
    } else {
        runs_within(times.drop_last(), anchor, minutes)
    }
}

/// The runs a window of `minutes` covers.
pub open spec fn covered(times: Seq<(u64, Moment)>, minutes: nat) -> Seq<u64> {
    match latest(times) {
        Some(anchor) => runs_within(times, anchor, minutes),
        None => Seq::empty(),
    }
}

fn find_latest(times: &Vec<(u64, Moment)>) -> (r: Option<Moment>)
    ensures
        r == latest(times@),
{
    let mut best: Option<Moment> = None;
    let mut i: usize = 0;
    while i < times.len()
        invariant
            i <= times@.len(),
            best == latest(times@.take(i as int)),
        decreases times@.len() - i,
    {
        assert(times@.take(i + 1).drop_last() =~= times@.take(i as int));
        assert(times@.take(i + 1).last() == times@[i as int]);
        let t = times[i].1;
        best = match best {
            Some(b) => if b.not_after(&t) {
                Some(t)
            } else {
                Some(b)
            },
            None => Some(t),
        };
        i = i + 1;
    }
    assert(times@.take(i as int) =~= times@);
    best
}

/// The runs a window of `minutes` covers, ascending.
pub fn window_runs(times: &Vec<(u64, Moment)>, minutes: u32) -> (r: Vec<u64>)
    ensures
        order::non_descending(r@),
        r@.to_multiset() == covered(times@, minutes as nat).to_multiset(),
{
    let mut runs: Vec<u64> = Vec::new();
    match find_latest(times) {
        Some(anchor) => {
            let mut i: usize = 0;
            while i < times.len()
                invariant
                    i <= times@.len(),
                    runs@ == runs_within(times@.take(i as int), anchor, minutes as nat),
                decreases times@.len() - i,
            {
                assert(times@.take(i + 1).drop_last() =~= times@.take(i as int));
                assert(times@.take(i + 1).last() == times@[i as int]);
                if is_within(&times[i].1, &anchor, minutes) {
                    runs.push(times[i].0);
                }
                i = i + 1;
            }
            assert(times@.take(i as int) =~= times@);
        },
        None => {},
    }
    assert(runs@ =~= covered(times@, minutes as nat));
    order::sort(&runs)
}

/// Fill each window with the runs whose acquisition ended within its last
/// N minutes, anchored at the most recent end time of `end_times`
/// (`(run, end_time)` pairs). Runs without a readable end time are ignored.
pub fn assign_windows(windows: &mut Vec<Window>, end_times: &Vec<(u64, Moment)>)
    ensures
        final(windows)@.len() == old(windows)@.len(),
        forall|i: int|
            0 <= i < old(windows)@.len() ==> {
                let w = #[trigger] final(windows)@[i];
                &&& w.minutes == old(windows)@[i].minutes
                &&& w.state == old(windows)@[i].state
                &&& order::non_descending(w.runs@)
                &&& w.runs@.to_multiset() == covered(end_times@, w.minutes as nat).to_multiset()
            },
{
    let mut i: usize = 0;
    while i < windows.len()
        invariant
            i <= windows@.len(),
            windows@.len() == old(windows)@.len(),
            forall|k: int|
                0 <= k < i ==> {
                    let w = #[trigger] windows@[k];
                    &&& w.minutes == old(windows)@[k].minutes
                    &&& w.state == old(windows)@[k].state
                    &&& order::non_descending(w.runs@)
                    &&& w.runs@.to_multiset() == covered(end_times@, w.minutes as nat).to_multiset()
                },
            forall|k: int| i <= k < windows@.len() ==> #[trigger] windows@[k] == old(windows)@[k],
        decreases windows@.len() - i,
    {
        let runs = window_runs(end_times, windows[i].minutes);
        windows[i].runs = runs;
        i = i + 1;
    }
}

proof fn lemma_runs_within(times: Seq<(u64, Moment)>, anchor: Moment, minutes: nat, run: u64)
    ensures
        runs_within(times, anchor, minutes).contains(run) <==> exists|i: int|
            0 <= i < times.len() && #[trigger] times[i].0 == run && clock::within(
                times[i].1,
                anchor,
                minutes,
            ),
    decreases times.len(),
{
    if times.len() > 0 {
        let rest = times.drop_last();
        lemma_runs_within(rest, anchor, minutes, run);
        let before = runs_within(rest, anchor, minutes);
        let all = runs_within(times, anchor, minutes);
        let n = times.len() - 1;
        if all.contains(run) {
            let k = choose|k: int| 0 <= k < all.len() && all[k] == run;
            if k < before.len() {
                assert(before[k] == run);
                assert(before.contains(run));
                let i = choose|i: int|
                    0 <= i < rest.len() && #[trigger] rest[i].0 == run && clock::within(
                        rest[i].1,
                        anchor,
                        minutes,
                    );
                assert(times[i].0 == run);
            } else {
                assert(times[n].0 == run);
            }
        }
        if exists|i: int|
            0 <= i < times.len() && #[trigger] times[i].0 == run && clock::within(
                times[i].1,
                anchor,
                minutes,
            ) {
            let i = choose|i: int|
                0 <= i < times.len() && #[trigger] times[i].0 == run && clock::within(
                    times[i].1,
                    anchor,
                    minutes,
                );
            if i < n {
                assert(rest[i].0 == run);
                let k = choose|k: int| 0 <= k < before.len() && before[k] == run;
                assert(all[k] == run);
            } else {
                assert(all[before.len() as int] == run);
            }
        }
    }
}

/// A wider window covers every run a narrower one does.
pub proof fn windows_are_nested(times: Seq<(u64, Moment)>, narrow: nat, wide: nat, run: u64)
    requires
        narrow <= wide,
        covered(times, narrow).contains(run),
    ensures
        covered(times, wide).contains(run),
{
    match latest(times) {
        Some(anchor) => {
            lemma_runs_within(times, anchor, narrow, run);
            lemma_runs_within(times, anchor, wide, run);
            let i = choose|i: int|
                0 <= i < times.len() && #[trigger] times[i].0 == run && clock::within(
                    times[i].1,
                    anchor,
                    narrow,
                );
            assert(times[i].0 == run && clock::within(times[i].1, anchor, wide));
        },
        None => {},
    }
}

/// The run acquired last is in every window.
pub proof fn windows_hold_the_anchor(times: Seq<(u64, Moment)>, minutes: nat, i: int)
    requires
        0 <= i < times.len(),
        latest(times) == Some(times[i].1),
    ensures
        covered(times, minutes).contains(times[i].0),
{
    let anchor = times[i].1;
    lemma_runs_within(times, anchor, minutes, times[i].0);
    assert(times[i].0 == times[i].0 && clock::within(times[i].1, anchor, minutes));
}

/// The windows depend only on when each run was acquired: a run is covered
/// where its acquisition ended no earlier than the window's start.
pub proof fn windows_cover_by_time(times: Seq<(u64, Moment)>, minutes: nat, run: u64)
    ensures
        covered(times, minutes).contains(run) <==> latest(times) is Some && exists|i: int|
            0 <= i < times.len() && #[trigger] times[i].0 == run && clock::within(
                times[i].1,
                latest(times)->0,
                minutes,
            ),
{
    match latest(times) {
        Some(anchor) => {
            lemma_runs_within(times, anchor, minutes, run);
        },
        None => {},
    }
}

// ---------------------------------------------------------------------
// Where results go

/// The folder under which a window's results lie, inside an IPTS folder.
pub open spec fn window_output(ipts: Text, anchor_run: u64, minutes: u32) -> Text {
    paths::below(
        ipts,
        "shared/autoreduce/normalized/rolling/anchor_"@ + number::decimal(anchor_run as nat)
            + "/last_"@ + number::decimal(minutes as nat) + "min"@,
    )
}

/// Output folder of one window's normalization.
pub fn output_dir(ipts_path: &str, anchor_run: u64, minutes: u32) -> (r: String)
    ensures
        r@ == window_output(ipts_path@, anchor_run, minutes),
{
    let a = number::decimal_text(anchor_run);
    let m = number::decimal_text(minutes as u64);
    let rest = text::cat5(
        "shared/autoreduce/normalized/rolling/anchor_",
        a.as_str(),
        "/last_",
        m.as_str(),
        "min",
    );
    paths::join(ipts_path, rest.as_str())
}

/// The base folder of the per-run results.
pub open spec fn base_of(ipts: Text, output_folder: Option<Text>) -> Text {
    match output_folder {
        Some(folder) => folder,
        None => paths::below(ipts, "shared/autoreduce/normalized"@),
    }
}

/// Base folder the per-run results go under: the configuration's output
/// folder, else `<IPTS>/shared/autoreduce/normalized`.
pub fn output_base(ipts_path: &str, config_info: &ConfigInfo) -> (r: String)
    ensures
        r@ == base_of(ipts_path@, config_info@.output_folder),
{
    match &config_info.output_folder {
        Some(folder) => folder.clone(),
        None => paths::join(ipts_path, "shared/autoreduce/normalized"),
    }
}

/// `Run_<run>`.
pub open spec fn run_folder(run: u64) -> Text {
    "Run_"@ + number::decimal(run as nat)
}

/// The name of a run's row folder.
pub open spec fn row_name(run: u64, corrected: Option<Text>) -> Text {
    match corrected {
        Some(folder) => match paths::file_name(folder) {
            Some(name) => if name.len() > 0 {
                name
            } else {
                run_folder(run)
            },
            None => run_folder(run),
        },
        None => run_folder(run),
    }
}

fn run_folder_text(run: u64) -> (r: String)
    ensures
        r@ == run_folder(run),
{
    let n = number::decimal_text(run);
    text::cat2("Run_", n.as_str())
}

/// Name of a run's row folder under the output base: the name of its
/// corrected (input) folder, e.g. `20260921_Run_30340_sample_3_000AngsMin_0`
/// — `Run_<run>` when the corrected folder is not known (yet).
pub fn run_row_name(run: u64, corrected: Option<&str>) -> (r: String)
    ensures
        r@ == row_name(run, text::opt_str(corrected)),
{
    match corrected {
        Some(folder) => match paths::file_name_of(folder) {
            Some(name) => if !name.as_str().is_empty() {
                name
            } else {
                run_folder_text(run)
            },
            None => run_folder_text(run),
        },
        None => run_folder_text(run),
    }
}

/// The folder of a row's result.
pub open spec fn result_of(base: Text, row: Text) -> Text {
    paths::below(paths::below(base, row), "normalization"@)
}

pub(crate) fn result_dir(base: &str, row: &str) -> (r: String)
    ensures
        r@ == result_of(base@, row@),
{
    let folder = paths::join(base, row);
    paths::join(folder.as_str(), "normalization")
}

/// Does a folder with these names hold a finished normalization: at least
/// one TIFF?
pub open spec fn done(names: Seq<Text>) -> bool {
    exists|i: int| 0 <= i < names.len() && #[trigger] files::is_tiff(names[i])
}

/// Is a normalization output folder complete (holds at least one TIFF)?
/// A folder still being written is a `.partial` sibling, so any TIFF in
/// the final folder means the job finished. `names` are the folder's
/// entries, none where it is missing or cannot be read.
pub fn output_is_done(names: &Vec<String>) -> (r: bool)
    ensures
        r == done(text::texts(names@)),
{
    let ghost ns = text::texts(names@);
    let mut i: usize = 0;
    while i < names.len()
        invariant
            i <= names@.len(),
            ns == text::texts(names@),
            forall|k: int| 0 <= k < i ==> !#[trigger] files::is_tiff(ns[k]),
        decreases names@.len() - i,
    {
        assert(ns[i as int] == names@[i as int]@);
        if files::tiff_name(names[i].as_str()) {
            assert(files::is_tiff(ns[i as int]));
            return true;
        }
        i = i + 1;
    }
    false
}

/// The folder a run's result lies in or goes to, where `fresh_done` and
/// `legacy_done` tell whether a finished result lies at the new and at the
/// legacy place.
pub open spec fn run_output(
    base: Text,
    run: u64,
    corrected: Option<Text>,
    fresh_done: bool,
    legacy_done: bool,
) -> Text {
    let row = row_name(run, corrected);
    if row != run_folder(run) && !fresh_done && legacy_done {
        result_of(base, run_folder(run))
    } else {
        result_of(base, row)
    }
}

/// The places to look for a run's result: the new one and the legacy one.
pub fn run_output_places(
    ipts_path: &str,
    run: u64,
    corrected: Option<&str>,
    config_info: &ConfigInfo,
) -> (r: (String, String))
    ensures
        r.0@ == result_of(
            base_of(ipts_path@, config_info@.output_folder),
            row_name(run, text::opt_str(corrected)),
        ),
        r.1@ == result_of(base_of(ipts_path@, config_info@.output_folder), run_folder(run)),
{
    let base = output_base(ipts_path, config_info);
    let row = run_row_name(run, corrected);
    let legacy = run_folder_text(run);
    (result_dir(base.as_str(), row.as_str()), result_dir(base.as_str(), legacy.as_str()))
}

/// Output folder of one run's own normalization: `<output base>/<corrected
/// folder name>/normalization` (see [`run_row_name`]). A complete result
/// left in the legacy layout — `<output base>/Run_<run>/normalization`, the
/// workflow runner's and this tool's before 2026-09-24 — is returned
/// instead when nothing sits at the new place, so it is found and never
/// redone. `fresh` and `legacy` are the names of the entries at the two
/// places of [`run_output_places`].
pub fn run_output_dir(
    ipts_path: &str,
    run: u64,
    corrected: Option<&str>,
    config_info: &ConfigInfo,
    fresh: &Vec<String>,
    legacy: &Vec<String>,
) -> (r: String)
    ensures
        r@ == run_output(
            base_of(ipts_path@, config_info@.output_folder),
            run,
            text::opt_str(corrected),
            done(text::texts(fresh@)),
            done(text::texts(legacy@)),
        ),
{
    let (new_place, old_place) = run_output_places(ipts_path, run, corrected, config_info);
    let row = run_row_name(run, corrected);
    let old_row = run_folder_text(run);
    if !text::same(row.as_str(), old_row.as_str()) && !output_is_done(fresh) && output_is_done(
        legacy,
    ) {
        old_place
    } else {
        new_place
    }
}

/// A finished result is found wherever it lies: at the new place before the
/// legacy one, and at the legacy one where the new place has none.
pub proof fn finished_results_are_found(
    base: Text,
    run: u64,
    corrected: Option<Text>,
    fresh_done: bool,
    legacy_done: bool,
)
    ensures
        fresh_done ==> run_output(base, run, corrected, fresh_done, legacy_done) == result_of(
            base,
            row_name(run, corrected),
        ),
        !fresh_done && legacy_done ==> run_output(base, run, corrected, fresh_done, legacy_done)
            == result_of(base, run_folder(run)),
        !fresh_done && !legacy_done ==> run_output(base, run, corrected, fresh_done, legacy_done)
            == result_of(base, row_name(run, corrected)),
{
}

/// A duration in words: `41 s`, `8 min 41 s`, `1 h 02 min 05 s`.
pub open spec fn duration_words(seconds: int) -> Text {
    let s = if seconds > 0 {
        seconds
    } else {
        0
    };
    let hours = (s / 3600) as nat;
    let minutes = ((s % 3600) / 60) as nat;
    let rest = (s % 60) as nat;
    if hours == 0 && minutes == 0 {
        number::decimal(rest) + " s"@
    } else if hours == 0 {
        number::decimal(minutes) + " min "@ + number::two_digits(rest) + " s"@
    } else {
        number::decimal(hours) + " h "@ + number::two_digits(minutes) + " min "@
            + number::two_digits(rest) + " s"@
    }
}

/// A duration in seconds as `41 s`, `8 min 41 s`, `1 h 02 min 05 s`.
pub fn duration_text(seconds: i64) -> (r: String)
    ensures
        r@ == duration_words(seconds as int),
{
    let s: u64 = if seconds > 0 {
        seconds as u64
    } else {
        0
    };
    let hours: u64 = s / 3600;
    let minutes: u64 = (s % 3600) / 60;
    let rest: u64 = s % 60;
    let h = number::decimal_text(hours);
    if hours == 0 && minutes == 0 {
        let t = number::decimal_text(rest);
        text::cat2(t.as_str(), " s")
    } else if hours == 0 {
        let m = number::decimal_text(minutes);
        let t = number::two_digit_text(rest);
        text::cat4(m.as_str(), " min ", t.as_str(), " s")
    } else {
        let m = number::two_digit_text(minutes);
        let t = number::two_digit_text(rest);
        text::cat6(h.as_str(), " h ", m.as_str(), " min ", t.as_str(), " s")
    }
}


// ---------------------------------------------------------------------
// Jobs

/// Name of the summary log every job appends to, at the top of the
/// output folder (`<output folder>/autoreduction.log` for the per-run
/// normalizations, `<IPTS>/shared/autoreduce/normalized/rolling/
/// autoreduction.log` for the rolling windows).
pub const SUMMARY_LOG: &'static str = "autoreduction.log";

/// Everything a normalization job needs, resolved up-front so problems are
/// reported before any thread is spawned.
pub struct JobSpec {
    pub target: JobTarget,
    pub runs: Vec<u64>,
    /// (corrected folder, NeXus file) per sample run.
    pub samples: Vec<(String, String)>,
    /// (corrected folder, NeXus file) per open-beam run.
    pub obs: Vec<(String, String)>,
    pub config: String,
    /// Final result folder (`<row>/normalization`, or a window's folder).
    pub output: String,
    /// The job's log file (`<row>/logs/<name>.log`).
    pub log: String,
    /// The summary log the job appends to (`<base>/autoreduction.log`).
    pub summary: String,
    /// What the job normalizes, for the summary log: `Run 30340` or
    /// `Runs 30338, 30339, 30340 (last 5 min window)`.
    pub what: String,
    /// The configuration's settings, as text, for the summary log.
    pub parameters: Vec<(String, String)>,
    /// Pre-crop region from the configuration, and where the cropped
    /// copies of the inputs go (`<base>/cropped_x0…_y1…/<folder name>`).
    pub crop: Option<(h5::Region, String)>,
}

/// A job.
pub struct Job {
    pub target: JobTarget,
    pub runs: Seq<u64>,
    pub samples: Seq<(Text, Text)>,
    pub obs: Seq<(Text, Text)>,
    pub config: Text,
    pub output: Text,
    pub log: Text,
    pub summary: Text,
    pub what: Text,
    pub parameters: Seq<(Text, Text)>,
    pub crop: Option<(h5::Region, Text)>,
}

pub open spec fn opt_crop(c: Option<(h5::Region, String)>) -> Option<(h5::Region, Text)> {
    match c {
        Some((region, parent)) => Some((region, parent@)),
        None => None,
    }
}

impl View for JobSpec {
    type V = Job;

    open spec fn view(&self) -> Job {
        Job {
            target: self.target,
            runs: self.runs@,
            samples: text::pair_texts(self.samples@),
            obs: text::pair_texts(self.obs@),
            config: self.config@,
            output: self.output@,
            log: self.log@,
            summary: self.summary@,
            what: self.what@,
            parameters: text::pair_texts(self.parameters@),
            crop: opt_crop(self.crop),
        }
    }
}

/// The folders of a list of inputs.
pub open spec fn folders_of(inputs: Seq<(Text, Text)>) -> Seq<Text> {
    inputs.map_values(|p: (Text, Text)| p.0)
}

impl JobSpec {
    /// The open-beam folders the job normalizes with.
    pub fn ob_folders(&self) -> (r: Vec<String>)
        ensures
            text::texts(r@) == folders_of(self@.obs),
    {
        let mut out: Vec<String> = Vec::new();
        let mut i: usize = 0;
        while i < self.obs.len()
            invariant
                i <= self.obs@.len(),
                text::texts(out@) =~= folders_of(self@.obs.take(i as int)),
            decreases self.obs@.len() - i,
        {
            let folder = self.obs[i].0.clone();
            let ghost before = out@;
            out.push(folder);
            assert(text::texts(out@) =~= text::texts(before).push(self@.obs[i as int].0));
            i = i + 1;
        }
        assert(self@.obs.take(i as int) =~= self@.obs);
        out
    }

    /// The configuration file the job normalizes with.
    pub fn config(&self) -> (r: &str)
        ensures
            r@ == self@.config,
    {
        self.config.as_str()
    }

    /// The final result folder of the job.
    pub fn output(&self) -> (r: &str)
        ensures
            r@ == self@.output,
    {
        self.output.as_str()
    }
}

/// The crop-copy parent folder for a region.
pub open spec fn crop_folder(base: Text, region: h5::Region) -> Text {
    paths::below(
        base,
        "cropped_x0"@ + number::decimal(region.0 as nat) + "_y0"@ + number::decimal(
            region.1 as nat,
        ) + "_x1"@ + number::decimal(region.2 as nat) + "_y1"@ + number::decimal(region.3 as nat),
    )
}

/// The workflow runner's crop-copy parent folder for a region.
pub fn crop_parent(base: &str, region: h5::Region) -> (r: String)
    ensures
        r@ == crop_folder(base@, region),
{
    let x0 = number::decimal_text(region.0 as u64);
    let y0 = number::decimal_text(region.1 as u64);
    let x1 = number::decimal_text(region.2 as u64);
    let y1 = number::decimal_text(region.3 as u64);
    let front = text::cat4("cropped_x0", x0.as_str(), "_y0", y0.as_str());
    let name = text::cat5(front.as_str(), "_x1", x1.as_str(), "_y1", y1.as_str());
    paths::join(base, name.as_str())
}

pub open spec fn crop_of(region: Option<h5::Region>, base: Text) -> Option<(h5::Region, Text)> {
    match region {
        Some(r) => Some((r, crop_folder(base, r))),
        None => None,
    }
}

pub(crate) fn crop_in(region: Option<h5::Region>, base: &str) -> (r: Option<(h5::Region, String)>)
    ensures
        opt_crop(r) == crop_of(region, base@),
{
    match region {
        Some(region) => Some((region, crop_parent(base, region))),
        None => None,
    }
}

/// The IPTS folder an open-beam folder belongs to: that of the first of its
/// components that names one, else the IPTS of the samples.
pub open spec fn ob_ipts(parts: Seq<Text>, i: int, ipts: Text) -> Text
    decreases parts.len() - i,
{
    if !(0 <= i < parts.len()) {
        ipts
    } else if text::begins(parts[i], "IPTS-"@) {
        paths::below("/SNS/VENUS"@, parts[i])
    } else {
        ob_ipts(parts, i + 1, ipts)
    }
}

/// The inputs an open-beam folder stands for, or why it stands for none.
pub open spec fn ob_input(ipts: Text, folder: Text) -> Result<(Text, Text), Text> {
    let name = paths::name_of(folder);
    match files::run_in_name(name) {
        Some(run) => Ok(
            (
                folder,
                files::nexus_file(ob_ipts(paths::components(folder), 0, ipts), run),
            ),
        ),
        None => Err("no run number in OB folder name '"@ + name + "'"@),
    }
}

/// The inputs of the first `n` open-beam folders, or the message about the
/// first of them that has none.
pub open spec fn ob_inputs(ipts: Text, folders: Seq<Text>) -> Result<Seq<(Text, Text)>, Text>
    decreases folders.len(),
{
    if folders.len() == 0 {
        Ok(Seq::empty())
    } else {
        match ob_inputs(ipts, folders.drop_last()) {
            Ok(before) => match ob_input(ipts, folders.last()) {
                Ok(input) => Ok(before.push(input)),
                Err(message) => Err(message),
            },
            Err(message) => Err(message),
        }
    }
}

/// The open beams of a configuration.
pub open spec fn resolved(ipts: Text, folders: Seq<Text>) -> Result<Seq<(Text, Text)>, Text> {
    if folders.len() == 0 {
        Err("the configuration file names no open-beam folder"@)
    } else {
        ob_inputs(ipts, folders)
    }
}

fn ipts_of(folder: &str, ipts_path: &str) -> (r: String)
    ensures
        r@ == ob_ipts(paths::components(folder@), 0, ipts_path@),
{
    let parts = paths::component_texts(folder);
    let ghost ps = paths::components(folder@);
    let mut i: usize = 0;
    while i < parts.len()
        invariant
            i <= parts@.len(),
            ps == text::texts(parts@),
            ps == paths::components(folder@),
            ob_ipts(ps, 0, ipts_path@) == ob_ipts(ps, i as int, ipts_path@),
        decreases parts@.len() - i,
    {
        assert(ps[i as int] == parts@[i as int]@);
        if text::starts_with(parts[i].as_str(), "IPTS-") {
            return paths::join("/SNS/VENUS", parts[i].as_str());
        }
        i = i + 1;
    }
    ipts_path.to_owned()
}

/// If the first folders cannot be resolved, neither can all of them.
proof fn lemma_ob_inputs_err(ipts: Text, folders: Seq<Text>, i: int)
    requires
        0 <= i <= folders.len(),
        ob_inputs(ipts, folders.take(i)) is Err,
    ensures
        ob_inputs(ipts, folders) == ob_inputs(ipts, folders.take(i)),
    decreases folders.len() - i,
{
    if i < folders.len() {
        assert(folders.take(i + 1).drop_last() =~= folders.take(i));
        lemma_ob_inputs_err(ipts, folders, i + 1);
    } else {
        assert(folders.take(i) =~= folders);
    }
}

/// Open beams: folder from the config; NeXus derived from the folder (run
/// number in its name, IPTS from its path — OBs may live in another IPTS
/// than the samples).
pub fn resolve_obs(ipts_path: &str, config_info: &ConfigInfo) -> (r: Result<
    Vec<(String, String)>,
    String,
>)
    ensures
        match r {
            Ok(obs) => resolved(ipts_path@, config_info@.ob_folders) == Ok::<
                Seq<(Text, Text)>,
                Text,
            >(text::pair_texts(obs@)),
            Err(message) => resolved(ipts_path@, config_info@.ob_folders) == Err::<
                Seq<(Text, Text)>,
                Text,
            >(message@),
        },
{
    let ghost fs = config_info@.ob_folders;
    if config_info.ob_folders.len() == 0 {
        return Err("the configuration file names no open-beam folder".to_owned());
    }
    let mut obs: Vec<(String, String)> = Vec::new();
    let mut i: usize = 0;
    assert(fs.take(0) =~= Seq::empty());
    assert(text::pair_texts(obs@) =~= Seq::empty());
    while i < config_info.ob_folders.len()
        invariant
            i <= config_info.ob_folders@.len(),
            config_info.ob_folders@.len() > 0,
            fs == config_info@.ob_folders,
            ob_inputs(ipts_path@, fs.take(i as int)) == Ok::<Seq<(Text, Text)>, Text>(
                text::pair_texts(obs@),
            ),
        decreases config_info.ob_folders@.len() - i,
    {
        let folder = config_info.ob_folders[i].as_str();
        proof {
            assert(fs.take(i + 1).drop_last() =~= fs.take(i as int));
            assert(fs.take(i + 1).last() == folder@);
        }
        let name = paths::name_text(folder);
        match files::run_number_in_name(name.as_str()) {
            None => {
                proof {
                    lemma_ob_inputs_err(ipts_path@, fs, i + 1);
                }
                return Err(text::cat3("no run number in OB folder name '", name.as_str(), "'"));
            },
            Some(run) => {
                let ipts = ipts_of(folder, ipts_path);
                let nexus = files::nexus_path(ipts.as_str(), run);
                let ghost before = obs@;
                let path = folder.to_owned();
                obs.push((path, nexus));
                assert(text::pair_texts(obs@) =~= text::pair_texts(before).push((path@, nexus@)));
            },
        }
        i = i + 1;
    }
    assert(fs.take(i as int) =~= fs);
    Ok(obs)
}

// ---------------------------------------------------------------------
// Matching stacks

/// The numbers of TIFF images of folders, by path.
pub type Images = Vec<(String, usize)>;

/// The number of images counted in a folder; none where it was not counted.
pub open spec fn images_in(images: Seq<(String, usize)>, folder: Text, i: int) -> nat
    decreases images.len() - i,
{
    if !(0 <= i < images.len()) {
        0
    } else if images[i].0@ == folder {
        images[i].1 as nat
    } else {
        images_in(images, folder, i + 1)
    }
}

fn count_images(images: &Images, folder: &str) -> (r: usize)
    ensures
        r == images_in(images@, folder@, 0),
{
    let mut i: usize = 0;
    while i < images.len()
        invariant
            i <= images@.len(),
            images_in(images@, folder@, 0) == images_in(images@, folder@, i as int),
        decreases images@.len() - i,
    {
        if text::same(images[i].0.as_str(), folder) {
            return images[i].1;
        }
        i = i + 1;
    }
    0
}

/// How an input is called: `run <number>`, or its folder's name.
pub open spec fn called(folder: Text) -> Text {
    match files::run_in_name(paths::name_of(folder)) {
        Some(run) => "run "@ + number::decimal(run as nat),
        None => paths::name_of(folder),
    }
}

/// An input and its number of images, in words.
pub open spec fn described(folder: Text, images: Seq<(String, usize)>) -> Text {
    called(folder) + ": "@ + number::decimal(images_in(images, folder, 0)) + " images"@
}

pub open spec fn described_all(inputs: Seq<(Text, Text)>, images: Seq<(String, usize)>) -> Seq<
    Text,
> {
    inputs.map_values(|p: (Text, Text)| described(p.0, images))
}

/// Do all the inputs have as many images as the first sample?
pub open spec fn same_images(
    samples: Seq<(Text, Text)>,
    obs: Seq<(Text, Text)>,
    images: Seq<(String, usize)>,
) -> bool {
    let first = if samples.len() > 0 {
        images_in(images, samples[0].0, 0)
    } else {
        0
    };
    &&& forall|i: int|
        0 <= i < samples.len() ==> images_in(images, #[trigger] samples[i].0, 0) == first
    &&& forall|i: int| 0 <= i < obs.len() ==> images_in(images, #[trigger] obs[i].0, 0) == first
}

pub open spec fn mismatch(
    samples: Seq<(Text, Text)>,
    obs: Seq<(Text, Text)>,
    images: Seq<(String, usize)>,
) -> Text {
    "sample and open beam do not have the same number of images — sample "@ + text::joined(
        described_all(samples, images),
        ", "@,
    ) + "; open beam "@ + text::joined(described_all(obs, images), ", "@)
        + ". NeuNorm needs matching stacks: pick open beams acquired with the same settings (and re-save the configuration from the notebook so it names them)"@
}

fn describe(folder: &str, images: &Images) -> (r: String)
    ensures
        r@ == described(folder@, images@),
{
    let name = paths::name_text(folder);
    let n = number::decimal_text(count_images(images, folder) as u64);
    match files::run_number_in_name(name.as_str()) {
        Some(run) => {
            let d = number::decimal_text(run);
            let what = text::cat2("run ", d.as_str());
            text::cat4(what.as_str(), ": ", n.as_str(), " images")
        },
        None => text::cat4(name.as_str(), ": ", n.as_str(), " images"),
    }
}

fn describe_all(inputs: &Vec<(String, String)>, images: &Images) -> (r: String)
    ensures
        r@ == text::joined(described_all(text::pair_texts(inputs@), images@), ", "@),
{
    let ghost ins = text::pair_texts(inputs@);
    let mut out: Vec<String> = Vec::new();
    let mut i: usize = 0;
    while i < inputs.len()
        invariant
            i <= inputs@.len(),
            ins == text::pair_texts(inputs@),
            text::texts(out@) =~= described_all(ins.take(i as int), images@),
        decreases inputs@.len() - i,
    {
        let item = describe(inputs[i].0.as_str(), images);
        let ghost before = out@;
        out.push(item);
        assert(text::texts(out@) =~= text::texts(before).push(item@));
        assert(ins[i as int].0 == inputs@[i as int].0@);
        i = i + 1;
    }
    assert(ins.take(i as int) =~= ins);
    text::join(&out, ", ")
}

fn all_have(inputs: &Vec<(String, String)>, images: &Images, count: usize) -> (r: bool)
    ensures
        r == forall|i: int|
            0 <= i < inputs@.len() ==> images_in(
                images@,
                #[trigger] text::pair_texts(inputs@)[i].0,
                0,
            ) == count,
{
    let ghost ins = text::pair_texts(inputs@);
    let mut i: usize = 0;
    while i < inputs.len()
        invariant
            i <= inputs@.len(),
            ins == text::pair_texts(inputs@),
            forall|k: int| 0 <= k < i ==> images_in(images@, #[trigger] ins[k].0, 0) == count,
        decreases inputs@.len() - i,
    {
        assert(ins[i as int].0 == inputs@[i as int].0@);
        if count_images(images, inputs[i].0.as_str()) != count {
            return false;
        }
        i = i + 1;
    }
    true
}

/// NeuNorm divides the sample stack by the open-beam stack frame by frame:
/// every sample and OB folder must hold the same number of images, or the
/// run fails deep inside the pipeline ("Mismatch in coordinate 'tof'").
/// The notebook refuses to launch on that (its Data Quality Check); so
/// does this, with the counts spelled out.
pub fn check_frame_counts(
    samples: &Vec<(String, String)>,
    obs: &Vec<(String, String)>,
    images: &Images,
) -> (r: Result<(), String>)
    ensures
        match r {
            Ok(()) => same_images(text::pair_texts(samples@), text::pair_texts(obs@), images@),
            Err(message) => {
                &&& !same_images(text::pair_texts(samples@), text::pair_texts(obs@), images@)
                &&& message@ == mismatch(
                    text::pair_texts(samples@),
                    text::pair_texts(obs@),
                    images@,
                )
            },
        },
        r is Ok ==> forall|i: int, j: int|
            0 <= i < samples@.len() && 0 <= j < obs@.len() ==> images_in(
                images@,
                #[trigger] samples@[i].0@,
                0,
            ) == images_in(images@, #[trigger] obs@[j].0@, 0),
        r is Ok ==> forall|i: int, j: int|
            0 <= i < samples@.len() && 0 <= j < samples@.len() ==> images_in(
                images@,
                #[trigger] samples@[i].0@,
                0,
            ) == images_in(images@, #[trigger] samples@[j].0@, 0),
{
    let ghost ss = text::pair_texts(samples@);
    let ghost os = text::pair_texts(obs@);
    let first: usize = if samples.len() > 0 {
        assert(ss[0].0 == samples@[0].0@);
        count_images(images, samples[0].0.as_str())
    } else {
        0
    };
    if all_have(samples, images, first) && all_have(obs, images, first) {
        proof {
            assert forall|i: int| 0 <= i < samples@.len() implies images_in(
                images@,
                #[trigger] samples@[i].0@,
                0,
            ) == first by {
                assert(ss[i].0 == samples@[i].0@);
            }
            assert forall|j: int| 0 <= j < obs@.len() implies images_in(
                images@,
                #[trigger] obs@[j].0@,
                0,
            ) == first by {
                assert(os[j].0 == obs@[j].0@);
            }
        }
        return Ok(());
    }
    let a = describe_all(samples, images);
    let b = describe_all(obs, images);
    Err(
        text::cat5(
            "sample and open beam do not have the same number of images — sample ",
            a.as_str(),
            "; open beam ",
            b.as_str(),
            ". NeuNorm needs matching stacks: pick open beams acquired with the same settings (and re-save the configuration from the notebook so it names them)",
        ),
    )
}

// ---------------------------------------------------------------------
// Preparing jobs

/// The highest run of a list.
pub open spec fn highest(runs: Seq<u64>) -> u64
    decreases runs.len(),
{
    if runs.len() <= 1 {
        runs[0]
    } else if highest(runs.drop_last()) > runs.last() {
        highest(runs.drop_last())
    } else {
        runs.last()
    }
}

/// The highest run is one of the list and none is above it.
pub proof fn highest_is_highest(runs: Seq<u64>)
    requires
        runs.len() > 0,
    ensures
        runs.contains(highest(runs)),
        forall|i: int| 0 <= i < runs.len() ==> runs[i] <= highest(runs),
    decreases runs.len(),
{
    if runs.len() == 1 {
        assert(runs[0] == highest(runs));
    } else {
        let rest = runs.drop_last();
        highest_is_highest(rest);
        let i = choose|i: int| 0 <= i < rest.len() && rest[i] == highest(rest);
        assert(runs[i] == highest(rest));
        assert(runs[runs.len() - 1] == runs.last());
        assert forall|j: int| 0 <= j < runs.len() implies runs[j] <= highest(runs) by {
            if j < rest.len() {
                assert(rest[j] == runs[j]);
            }
        }
    }
}

pub(crate) fn highest_run(runs: &Vec<u64>) -> (r: u64)
    requires
        runs@.len() > 0,
    ensures
        r == highest(runs@),
{
    let mut best: u64 = runs[0];
    let mut i: usize = 1;
    assert(runs@.take(1)[0] == runs@[0]);
    while i < runs.len()
        invariant
            1 <= i <= runs@.len(),
            best == highest(runs@.take(i as int)),
        decreases runs@.len() - i,
    {
        assert(runs@.take(i + 1).drop_last() =~= runs@.take(i as int));
        assert(runs@.take(i + 1).last() == runs@[i as int]);
        if !(best > runs[i]) {
            best = runs[i];
        }
        i = i + 1;
    }
    assert(runs@.take(i as int) =~= runs@);
    best
}

/// The sample inputs of the runs whose corrected folder is complete.
pub open spec fn ready(ipts: Text, statuses: Seq<files::RunFiles<Text>>) -> Seq<(Text, Text)>
    decreases statuses.len(),
{
    if statuses.len() == 0 {
        Seq::empty()
    } else {
        let before = ready(ipts, statuses.drop_last());
        match statuses.last().corrected {
            files::FileStatus::Present(folder) => before.push(
                (folder, files::nexus_file(ipts, statuses.last().run)),
            ),
            _ => before,
        }
    }
}

/// The runs whose corrected folder is not complete, in decimal.
pub open spec fn not_ready(statuses: Seq<files::RunFiles<Text>>) -> Seq<Text>
    decreases statuses.len(),
{
    if statuses.len() == 0 {
        Seq::empty()
    } else {
        let before = not_ready(statuses.drop_last());
        match statuses.last().corrected {
            files::FileStatus::Present(_) => before,
            _ => before.push(number::decimal(statuses.last().run as nat)),
        }
    }
}

/// Where the rolling windows' results lie, inside an IPTS folder.
pub open spec fn rolling_folder(ipts: Text) -> Text {
    paths::below(ipts, "shared/autoreduce/normalized/rolling"@)
}

/// The job of a window with these inputs.
pub open spec fn window_job(
    index: usize,
    runs: Seq<u64>,
    minutes: u32,
    ipts: Text,
    config: Text,
    info: h5::Info,
    samples: Seq<(Text, Text)>,
    obs: Seq<(Text, Text)>,
) -> Job {
    let output = window_output(ipts, highest(runs), minutes);
    let m = number::decimal(minutes as nat);
    let logs = paths::below(paths::parent(output)->0, "logs"@);
    Job {
        target: JobTarget::Window(index),
        runs,
        samples,
        obs,
        config,
        output,
        log: paths::below(logs, "last_"@ + m + "min.log"@),
        summary: paths::below(rolling_folder(ipts), SUMMARY_LOG@),
        what: "Runs "@ + text::joined(number::decimals(runs), ", "@) + " (last "@ + m
            + " min window)"@,
        parameters: info.parameters,
        crop: crop_of(info.crop_region, rolling_folder(ipts)),
    }
}

/// The job of a window, or what is missing for it: every run of the window
/// must have its corrected data.
pub open spec fn window_plan(
    index: usize,
    runs: Seq<u64>,
    minutes: u32,
    ipts: Text,
    config: Text,
    info: h5::Info,
    seen: files::Seen,
    images: Seq<(String, usize)>,
) -> Result<Job, Text> {
    if runs.len() == 0 {
        Err("no run in the window"@)
    } else {
        match resolved(ipts, info.ob_folders) {
            Err(message) => Err(message),
            Ok(obs) => {
                let statuses = runs.map_values(|run: u64| files::run_status(ipts, run, seen));
                let samples = ready(ipts, statuses);
                if not_ready(statuses).len() > 0 {
                    Err(
                        "no corrected data yet for run(s) "@ + text::joined(
                            not_ready(statuses),
                            ", "@,
                        ),
                    )
                } else if !same_images(samples, obs, images) {
                    Err(mismatch(samples, obs, images))
                } else {
                    Ok(window_job(index, runs, minutes, ipts, config, info, samples, obs))
                }
            },
        }
    }
}

/// The text of a result's job or message.
pub open spec fn job_result(r: Result<JobSpec, String>) -> Result<Job, Text> {
    match r {
        Ok(spec) => Ok(spec@),
        Err(message) => Err(message@),
    }
}

proof fn lemma_all_ready(ipts: Text, statuses: Seq<files::RunFiles<Text>>)
    requires
        not_ready(statuses).len() == 0,
    ensures
        ready(ipts, statuses).len() == statuses.len(),
        forall|i: int|
            0 <= i < statuses.len() ==> statuses[i].corrected == files::FileStatus::Present(
                (#[trigger] ready(ipts, statuses)[i]).0,
            ) && ready(ipts, statuses)[i].1 == files::nexus_file(ipts, statuses[i].run),
    decreases statuses.len(),
{
    if statuses.len() > 0 {
        lemma_all_ready(ipts, statuses.drop_last());
        let all = ready(ipts, statuses);
        let rest = ready(ipts, statuses.drop_last());
        assert forall|i: int| 0 <= i < statuses.len() implies statuses[i].corrected
            == files::FileStatus::Present((#[trigger] all[i]).0) && all[i].1 == files::nexus_file(
            ipts,
            statuses[i].run,
        ) by {
            if i < statuses.len() - 1 {
                assert(all[i] == rest[i]);
                assert(statuses.drop_last()[i] == statuses[i]);
            }
        }
    }
}

/// A window is only normalized whole: every run that the job names is among
/// its samples, in order, with its complete corrected folder.
pub proof fn windows_are_normalized_whole(
    index: usize,
    runs: Seq<u64>,
    minutes: u32,
    ipts: Text,
    config: Text,
    info: h5::Info,
    seen: files::Seen,
    images: Seq<(String, usize)>,
    i: int,
)
    requires
        window_plan(index, runs, minutes, ipts, config, info, seen, images) is Ok,
        0 <= i < runs.len(),
    ensures
        ({
            let job = window_plan(index, runs, minutes, ipts, config, info, seen, images)->Ok_0;
            &&& job.runs == runs
            &&& job.samples.len() == runs.len()
            &&& files::run_status(ipts, runs[i], seen).corrected == files::FileStatus::Present(
                job.samples[i].0,
            )
            &&& job.samples[i].1 == files::nexus_file(ipts, runs[i])
        }),
{
    let statuses = runs.map_values(|run: u64| files::run_status(ipts, run, seen));
    lemma_all_ready(ipts, statuses);
    let one = ready(ipts, statuses)[i];
    assert(statuses[i] == files::run_status(ipts, runs[i], seen));
}

proof fn lemma_window_output_has_parent(ipts: Text, run: u64, minutes: u32)
    ensures
        paths::parent(window_output(ipts, run, minutes)) is Some,
{
    reveal_strlit("shared/autoreduce/normalized/rolling/anchor_");
    reveal_strlit("/last_");
    reveal_strlit("last_");
    reveal_strlit("min");
    let d = number::decimal(run as nat);
    let m = number::decimal(minutes as nat);
    number::lemma_decimal(run as nat);
    number::lemma_decimal(minutes as nat);
    let folder = "shared/autoreduce/normalized/rolling/anchor_"@ + d;
    let name = "last_"@ + m + "min"@;
    assert forall|i: int| 0 <= i < name.len() implies text::in_class(
        #[trigger] name[i],
        Class::Not('/'),
    ) by {
        if 5 <= i < 5 + m.len() {
            assert(name[i] == m[i - 5]);
            assert(text::in_class(m[i - 5], Class::Digit));
        }
    }
    assert(name.len() > 1);
    paths::parent_of_below(paths::below(ipts, folder), name);
    assert(folder[0] == 's');
    assert(folder.last() == d.last());
    assert(text::in_class(d[d.len() - 1], Class::Digit));
    assert(paths::below(paths::below(ipts, folder), name) =~= window_output(ipts, run, minutes));
}

/// Resolve one window into a launchable job. Errors name what is missing
/// (no runs, runs without corrected data, config problems, …). `seen` is
/// what was seen on disk of the window's runs, `images` the numbers of
/// TIFFs of the folders the job reads.
pub fn prepare_job(
    window_index: usize,
    window: &Window,
    ipts_path: &str,
    config_path: &str,
    config_info: &ConfigInfo,
    seen: &files::Seen,
    images: &Images,
) -> (r: Result<JobSpec, String>)
    ensures
        job_result(r) == window_plan(
            window_index,
            window.runs@,
            window.minutes,
            ipts_path@,
            config_path@,
            config_info@,
            *seen,
            images@,
        ),
        r matches Ok(spec) ==> {
            &&& spec@.runs == window.runs@
            &&& spec@.samples.len() == window.runs@.len()
            &&& forall|i: int|
                0 <= i < window.runs@.len() ==> (#[trigger] spec@.samples[i]).1
                    == files::nexus_file(ipts_path@, window.runs@[i])
            &&& prepared::follows_the_configuration(
                spec@,
                config_path@,
                config_info@,
                images@,
            )
            &&& prepared::crops_as_configured(spec@, config_info@)
        },
{
    proof {
        if window_plan(
            window_index,
            window.runs@,
            window.minutes,
            ipts_path@,
            config_path@,
            config_info@,
            *seen,
            images@,
        ) is Ok {
            prepared::window_jobs_normalize_their_runs(
                window_index,
                window.runs@,
                window.minutes,
                ipts_path@,
                config_path@,
                config_info@,
                *seen,
                images@,
            );
        }
    }
    if window.runs.len() == 0 {
        return Err("no run in the window".to_owned());
    }
    let obs = match resolve_obs(ipts_path, config_info) {
        Ok(obs) => obs,
        Err(message) => return Err(message),
    };
    // Corrected folders of the window's runs; every run must be there (a
    // missing folder means the autoreduction has not caught up yet).
    let status = files::check_runs(ipts_path, &window.runs, seen);
    let ghost sts = window.runs@.map_values(
        |run: u64| files::run_status(ipts_path@, run, *seen),
    );
    let mut samples: Vec<(String, String)> = Vec::new();
    let mut missing: Vec<String> = Vec::new();
    let mut i: usize = 0;
    assert(sts.take(0) =~= Seq::empty());
    assert(text::pair_texts(samples@) =~= Seq::empty());
    assert(text::texts(missing@) =~= Seq::empty());
    while i < status.len()
        invariant
            i <= status@.len(),
            sts == files::statuses(status@),
            text::pair_texts(samples@) == ready(ipts_path@, sts.take(i as int)),
            text::texts(missing@) == not_ready(sts.take(i as int)),
        decreases status@.len() - i,
    {
        proof {
            assert(sts.take(i + 1).drop_last() =~= sts.take(i as int));
            assert(sts.take(i + 1).last() == status@[i as int]@);
        }
        match &status[i].corrected {
            files::FileStatus::Present(folder) => {
                let path = folder.clone();
                let nexus = files::nexus_path(ipts_path, status[i].run);
                let ghost before = samples@;
                samples.push((path, nexus));
                assert(text::pair_texts(samples@) =~= text::pair_texts(before).push(
                    (path@, nexus@),
                ));
            },
            _ => {
                let n = number::decimal_text(status[i].run);
                let ghost before = missing@;
                missing.push(n);
                assert(text::texts(missing@) =~= text::texts(before).push(n@));
            },
        }
        i = i + 1;
    }
    assert(sts.take(i as int) =~= sts);
    assert(text::texts(missing@).len() == missing@.len());
    if missing.len() > 0 {
        let list = text::join(&missing, ", ");
        return Err(text::cat2("no corrected data yet for run(s) ", list.as_str()));
    }
    match check_frame_counts(&samples, &obs, images) {
        Ok(()) => {},
        Err(message) => return Err(message),
    }
    let anchor_run = highest_run(&window.runs);
    let output = output_dir(ipts_path, anchor_run, window.minutes);
    proof {
        lemma_window_output_has_parent(ipts_path@, anchor_run, window.minutes);
    }
    let anchor_dir = match paths::parent_of(output.as_str()) {
        Some(dir) => dir,
        None => String::new(),
    };
    let rolling = paths::join(ipts_path, "shared/autoreduce/normalized/rolling");
    let runs_text = number::decimal_texts(&window.runs);
    let list = text::join(&runs_text, ", ");
    let m = number::decimal_text(window.minutes as u64);
    let logs = paths::join(anchor_dir.as_str(), "logs");
    let log_name = text::cat3("last_", m.as_str(), "min.log");
    Ok(
        JobSpec {
            target: JobTarget::Window(window_index),
            runs: order::copy(&window.runs),
            samples,
            obs,
            config: config_path.to_owned(),
            log: paths::join(logs.as_str(), log_name.as_str()),
            summary: paths::join(rolling.as_str(), SUMMARY_LOG),
            what: text::cat5("Runs ", list.as_str(), " (last ", m.as_str(), " min window)"),
            parameters: text::clone_pairs(&config_info.parameters),
            crop: crop_in(config_info.crop_region, rolling.as_str()),
            output,
        },
    )
}

/// The job of a run with these open beams, its result at `output`.
pub open spec fn run_job(
    run: u64,
    corrected: Text,
    ipts: Text,
    config: Text,
    info: h5::Info,
    obs: Seq<(Text, Text)>,
    output: Text,
) -> Job {
    let row = paths::parent(output)->0;
    let base = paths::parent(row)->0;
    Job {
        target: JobTarget::Run(run),
        runs: seq![run],
        samples: seq![(corrected, files::nexus_file(ipts, run))],
        obs,
        config,
        output,
        log: paths::below(paths::below(row, "logs"@), "normalization.log"@),
        summary: paths::below(base, SUMMARY_LOG@),
        what: "Run "@ + number::decimal(run as nat),
        parameters: info.parameters,
        crop: crop_of(info.crop_region, base),
    }
}

/// The job of a run, or what is missing for it.
pub open spec fn run_plan(
    run: u64,
    corrected: Text,
    ipts: Text,
    config: Text,
    info: h5::Info,
    images: Seq<(String, usize)>,
    fresh_done: bool,
    legacy_done: bool,
) -> Result<Job, Text> {
    match resolved(ipts, info.ob_folders) {
        Err(message) => Err(message),
        Ok(obs) => {
            let samples = seq![(corrected, files::nexus_file(ipts, run))];
            if !same_images(samples, obs, images) {
                Err(mismatch(samples, obs, images))
            } else {
                let base = base_of(ipts, info.output_folder);
                let output = run_output(base, run, Some(corrected), fresh_done, legacy_done);
                Ok(run_job(run, corrected, ipts, config, info, obs, output))
            }
        },
    }
}

/// A row's name is one plain component.
proof fn lemma_row_is_plain(run: u64, corrected: Option<Text>)
    ensures
        paths::plain_name(row_name(run, corrected)),
        paths::plain_name(run_folder(run)),
{
    reveal_strlit("Run_");
    let d = number::decimal(run as nat);
    number::lemma_decimal(run as nat);
    let n = run_folder(run);
    assert forall|i: int| 0 <= i < n.len() implies text::in_class(
        #[trigger] n[i],
        Class::Not('/'),
    ) by {
        if i >= 4 {
            assert(n[i] == d[i - 4]);
            assert(text::in_class(d[i - 4], Class::Digit));
        }
    }
    assert(n.len() > 1);
    match corrected {
        Some(folder) => {
            paths::file_names_are_plain(folder);
        },
        None => {},
    }
}

/// The results of two rows never share a folder.
pub proof fn rows_lie_apart(base: Text, run: u64, corrected: Option<Text>)
    ensures
        row_name(run, corrected) != run_folder(run) ==> result_of(base, row_name(run, corrected))
            != result_of(base, run_folder(run)),
{
    results_lie_under_the_base(base, run, corrected);
    lemma_row_is_plain(run, corrected);
    paths::file_name_of_below(base, row_name(run, corrected));
    paths::file_name_of_below(base, run_folder(run));
}

/// The result of a row lies in the row's folder, which lies in the base.
pub proof fn results_lie_under_the_base(base: Text, run: u64, corrected: Option<Text>)
    ensures
        ({
            let row = row_name(run, corrected);
            let output = result_of(base, row);
            &&& paths::parent(output) == Some(paths::below(base, row))
            &&& paths::parent(paths::below(base, row)) == Some(paths::tidy(base))
        }),
        ({
            let output = result_of(base, run_folder(run));
            &&& paths::parent(output) == Some(paths::below(base, run_folder(run)))
            &&& paths::parent(paths::below(base, run_folder(run))) == Some(paths::tidy(base))
        }),
{
    lemma_row_is_plain(run, corrected);
    reveal_strlit("normalization");
    let row = row_name(run, corrected);
    paths::parent_of_below(base, row);
    paths::parent_of_below(base, run_folder(run));
    paths::parent_of_below(paths::below(base, row), "normalization"@);
    paths::parent_of_below(paths::below(base, run_folder(run)), "normalization"@);
}

/// Resolve one run's own normalization: the configuration's sample is
/// replaced by that run's corrected folder, everything else (open beams,
/// settings) comes from the configuration file. The result goes to
/// `<output base>/<corrected folder name>/normalization`. `images` are the
/// numbers of TIFFs of the folders the job reads, `fresh` and `legacy` the
/// names of the entries at the two places of [`run_output_places`].
pub fn prepare_run_job(
    run: u64,
    corrected_folder: &str,
    ipts_path: &str,
    config_path: &str,
    config_info: &ConfigInfo,
    images: &Images,
    fresh: &Vec<String>,
    legacy: &Vec<String>,
) -> (r: Result<JobSpec, String>)
    ensures
        job_result(r) == run_plan(
            run,
            corrected_folder@,
            ipts_path@,
            config_path@,
            config_info@,
            images@,
            done(text::texts(fresh@)),
            done(text::texts(legacy@)),
        ),
        r matches Ok(spec) ==> {
            &&& spec@.runs == seq![run]
            &&& spec@.samples == seq![(corrected_folder@, files::nexus_file(ipts_path@, run))]
            &&& prepared::follows_the_configuration(
                spec@,
                config_path@,
                config_info@,
                images@,
            )
            &&& prepared::crops_as_configured(spec@, config_info@)
        },
{
    proof {
        if run_plan(
            run,
            corrected_folder@,
            ipts_path@,
            config_path@,
            config_info@,
            images@,
            done(text::texts(fresh@)),
            done(text::texts(legacy@)),
        ) is Ok {
            prepared::run_jobs_normalize_their_run(
                run,
                corrected_folder@,
                ipts_path@,
                config_path@,
                config_info@,
                images@,
                done(text::texts(fresh@)),
                done(text::texts(legacy@)),
            );
        }
    }
    let obs = match resolve_obs(ipts_path, config_info) {
        Ok(obs) => obs,
        Err(message) => return Err(message),
    };
    let mut samples: Vec<(String, String)> = Vec::new();
    let nexus = files::nexus_path(ipts_path, run);
    let folder = corrected_folder.to_owned();
    samples.push((folder, nexus));
    assert(text::pair_texts(samples@) =~= seq![
        (corrected_folder@, files::nexus_file(ipts_path@, run)),
    ]);
    match check_frame_counts(&samples, &obs, images) {
        Ok(()) => {},
        Err(message) => return Err(message),
    }
    let output = run_output_dir(
        ipts_path,
        run,
        Some(corrected_folder),
        config_info,
        fresh,
        legacy,
    );
    proof {
        results_lie_under_the_base(
            base_of(ipts_path@, config_info@.output_folder),
            run,
            Some(corrected_folder@),
        );
    }
    let row_dir = match paths::parent_of(output.as_str()) {
        Some(dir) => dir,
        None => String::new(),
    };
    let base = match paths::parent_of(row_dir.as_str()) {
        Some(dir) => dir,
        None => String::new(),
    };
    let logs = paths::join(row_dir.as_str(), "logs");
    let n = number::decimal_text(run);
    let mut runs: Vec<u64> = Vec::new();
    runs.push(run);
    assert(runs@ =~= seq![run]);
    Ok(
        JobSpec {
            target: JobTarget::Run(run),
            runs,
            samples,
            obs,
            config: config_path.to_owned(),
            log: paths::join(logs.as_str(), "normalization.log"),
            summary: paths::join(base.as_str(), SUMMARY_LOG),
            what: text::cat2("Run ", n.as_str()),
            parameters: text::clone_pairs(&config_info.parameters),
            crop: crop_in(config_info.crop_region, base.as_str()),
            output,
        },
    )
}

// ---------------------------------------------------------------------
// Reading a job log back

/// What a finished normalization was launched with, read back from its
/// job log (`<row>/logs/normalization.log`, written by this tool and by
/// the workflow runner alike): the `running: "python" "script" "--config"
/// "<file>" … "--ob" "<folder>" …` line — its last occurrence, the one of
/// the launch that produced the result.
#[derive(Debug)]
pub struct LaunchInfo {
    /// The `--config` file, when the line names one.
    pub config: Option<String>,
    /// The `--ob` folders, in order.
    pub obs: Vec<String>,
}

/// A launch.
pub struct Launch {
    pub config: Option<Text>,
    pub obs: Seq<Text>,
}

impl View for LaunchInfo {
    type V = Launch;

    open spec fn view(&self) -> Launch {
        Launch { config: text::opt_text(self.config), obs: text::texts(self.obs@) }
    }
}

/// The strings that stand right after the string `flag`.
pub open spec fn values_after(tokens: Seq<Text>, flag: Text) -> Seq<Text>
    decreases tokens.len(),
{
    if tokens.len() < 2 {
        Seq::empty()
    } else if tokens[0] == flag {
        seq![tokens[1]] + values_after(tokens.drop_first(), flag)
    } else {
        values_after(tokens.drop_first(), flag)
    }
}

/// The launch a line of a job log records.
pub open spec fn line_launch(line: Text) -> Launch {
    let tokens = quoting::outside(line, 0);
    let configs = values_after(tokens, "--config"@);
    Launch {
        config: if configs.len() > 0 {
            Some(configs[0])
        } else {
            None
        },
        obs: values_after(tokens, "--ob"@),
    }
}

/// The launch the last of the lines that records one records.
pub open spec fn last_launch(lines: Seq<Text>) -> Option<Launch>
    decreases lines.len(),
{
    if lines.len() == 0 {
        None
    } else {
        let launch = line_launch(lines.last());
        if text::has(lines.last(), "running:"@) && (launch.obs.len() > 0 || launch.config is Some) {
            Some(launch)
        } else {
            last_launch(lines.drop_last())
        }
    }
}

fn collect_after(tokens: &Vec<String>, flag: &str) -> (r: Vec<String>)
    ensures
        text::texts(r@) == values_after(text::texts(tokens@), flag@),
{
    let ghost ts = text::texts(tokens@);
    let n: usize = tokens.len();
    let mut out: Vec<String> = Vec::new();
    let mut i: usize = 0;
    assert(ts.skip(0) =~= ts);
    assert(text::texts(out@) + values_after(ts.skip(0), flag@) =~= values_after(ts, flag@));
    while i < n && i + 1 < n
        invariant
            i <= n == tokens@.len(),
            ts == text::texts(tokens@),
            text::texts(out@) + values_after(ts.skip(i as int), flag@) == values_after(ts, flag@),
        decreases n - i,
    {
        proof {
            assert(ts.skip(i as int).drop_first() =~= ts.skip(i + 1));
            assert(ts.skip(i as int)[0] == tokens@[i as int]@);
            assert(ts.skip(i as int)[1] == tokens@[i + 1]@);
        }
        if text::same(tokens[i].as_str(), flag) {
            let value = tokens[i + 1].clone();
            let ghost before = out@;
            out.push(value);
            assert(text::texts(out@) =~= text::texts(before).push(value@));
            assert(text::texts(before) + values_after(ts.skip(i as int), flag@) =~= text::texts(
                out@,
            ) + values_after(ts.skip(i + 1), flag@));
        }
        i = i + 1;
    }
    assert(values_after(ts.skip(i as int), flag@) =~= Seq::empty());
    assert(text::texts(out@) =~= values_after(ts, flag@));
    out
}

/// The `--config` / `--ob` arguments of a `running: …` log line: every
/// argument is quoted (`"--ob" "/path/x"`), so the tokens are the quoted
/// strings in order, and a value is the token after its flag.
fn launch_from_command_line(line: &str) -> (r: LaunchInfo)
    ensures
        r@ == line_launch(line@),
{
    let tokens = quoting::quoted_tokens(line);
    let configs = collect_after(&tokens, "--config");
    let obs = collect_after(&tokens, "--ob");
    assert(text::texts(configs@).len() == configs@.len());
    let config = if configs.len() > 0 {
        assert(text::texts(configs@)[0] == configs@[0]@);
        Some(configs[0].clone())
    } else {
        None
    };
    LaunchInfo { config, obs }
}

/// The launch a job log records (see [`LaunchInfo`]), from the log's text.
/// `None` when the log has no `running:` line naming an open beam or a
/// configuration.
pub fn launch_from_log(log: &str) -> (r: Option<LaunchInfo>)
    ensures
        match r {
            Some(info) => last_launch(text::lines_of(log@)) == Some(info@),
            None => last_launch(text::lines_of(log@)) is None,
        },
{
    let lines = text::lines(log);
    let ghost ls = text::lines_of(log@);
    let mut i: usize = lines.len();
    assert(ls.take(i as int) =~= ls);
    while i > 0
        invariant
            i <= lines@.len(),
            ls == text::texts(lines@),
            ls == text::lines_of(log@),
            last_launch(ls) == last_launch(ls.take(i as int)),
        decreases i,
    {
        proof {
            assert(ls.take(i as int).drop_last() =~= ls.take(i - 1));
            assert(ls.take(i as int).last() == lines@[i - 1]@);
        }
        i = i - 1;
        if text::contains(lines[i].as_str(), "running:") {
            let info = launch_from_command_line(lines[i].as_str());
            assert(info@.obs.len() == info.obs@.len());
            if info.obs.len() > 0 || info.config.is_some() {
                return Some(info);
            }
        }
    }
    None
}

// ---------------------------------------------------------------------
// Failures

/// Start of the failure message of a job whose python process was killed
/// by a signal (the OOM killer, in practice) — see [`killed_by_system`].
pub const KILLED_PREFIX: &'static str = "normalization process killed by the system";

/// Was this job's failure a kill by the system (SIGKILL & co.) rather
/// than an error of the script? Such a failure is transient (memory
/// pressure) and worth one automatic retry.
pub fn killed_by_system(message: &str) -> (r: bool)
    ensures
        r == text::begins(message@, KILLED_PREFIX@),
{
    text::starts_with(message, KILLED_PREFIX)
}

} // verus!
