//! The board of normalization jobs: which runs are being normalized, which
//! wait for a free slot, and what becomes of each job's messages.

use vstd::prelude::*;
use crate::clock::Moment;
use crate::norm::{starting_state, Counts, JobState, JobTarget, Phase, Window};
use crate::runmap::RunMap;
use crate::text::Text;
use crate::{norm, order, paths, runmap, text};

verus! {

/// How many per-run normalizations may run side by side (the queue and
/// the automatic pass respect it). Each NeuNorm job is a python process
/// of its own: a few in parallel is cheap on the analysis machines (100+
/// cores, >1 TB), the shared filesystem is the limit.
pub const DEFAULT_PARALLEL_JOBS: usize = 4;

/// Upper bound of the "parallel jobs" setting.
pub const MAX_PARALLEL_JOBS: usize = 16;

/// Output lines kept per normalization job for the output panel.
pub const OUTPUT_LINES_KEPT: usize = 600;

/// The phases of the runs' jobs.
pub type Phases = Map<u64, Phase>;

/// The runs being normalized.
pub open spec fn running(jobs: Phases) -> Set<u64> {
    jobs.dom().filter(|run: u64| jobs[run] is Running)
}

/// How many may be normalized at once: the setting, at least one.
pub open spec fn cap(parallel: usize) -> nat {
    if parallel == 0 {
        1
    } else {
        parallel as nat
    }
}

/// The output kept of each job.
pub type Outputs = Map<JobTarget, Seq<Text>>;

/// The jobs, their queue and their output.
pub struct Board {
    /// Rolling combine-normalization windows (default last 5/15/30 min).
    windows: Vec<Window>,
    /// Per-run normalizations: state of each run's own job, keyed by run
    /// number — Running while NeuNorm works, Done (output folder) or Failed
    /// afterwards. Done also marks a result found on disk (workflow runner,
    /// previous session).
    jobs: RunMap<JobState>,
    /// Runs waiting for a free slot, the first to start first.
    queue: Vec<u64>,
    /// Runs whose normalization was killed by the system (SIGKILL: memory
    /// pressure) and already retried once — no second automatic retry.
    retried: Vec<u64>,
    /// How many per-run normalizations may run at the same time (queue
    /// and automatic pass alike).
    parallel: usize,
    /// Output lines of each job (script output + runner steps), newest
    /// last, capped — shown in the output panel.
    output: Vec<(JobTarget, Vec<String>)>,
}

/// A window: its minutes, its runs and its job's phase.
pub type WindowView = (u32, Seq<u64>, Phase);

pub open spec fn window_views(ws: Seq<Window>) -> Seq<WindowView> {
    ws.map_values(|w: Window| (w.minutes, w.runs@, w.state@))
}

pub open spec fn phases(m: Map<u64, JobState>) -> Phases {
    m.map_values(|s: JobState| s@)
}

/// The output lines kept of a job, from index `i` of the list on.
pub open spec fn lines_kept(output: Seq<(JobTarget, Vec<String>)>, target: JobTarget, i: int) -> Seq<
    Text,
>
    decreases output.len() - i,
{
    if !(0 <= i < output.len()) {
        Seq::empty()
    } else if output[i].0 == target {
        text::texts(output[i].1@)
    } else {
        lines_kept(output, target, i + 1)
    }
}

/// The last of the lines that are kept.
pub open spec fn capped(lines: Seq<Text>) -> Seq<Text> {
    if lines.len() > OUTPUT_LINES_KEPT {
        lines.skip(lines.len() - OUTPUT_LINES_KEPT)
    } else {
        lines
    }
}

/// What becomes of a manual start.
#[derive(Clone, Copy, Debug, PartialEq, Eq, Structural)]
pub enum Request {
    /// The run is being normalized already.
    Ignored,
    /// A slot is free: start it now.
    Start,
    /// Every slot is busy: it waits in the queue.
    Queued,
}

/// What a re-run takes.
pub enum Rerun {
    /// Already running (started meanwhile): never twice at once.
    Never,
    /// The result already sits where the new one goes: move it aside first.
    MoveAside { output: String, previous: String },
    /// Normalize the run.
    Go,
}

/// A job's result: its output folder, or what went wrong.
pub enum Outcome {
    Done { output: String },
    Failed { message: String },
}

/// What a job tells while it runs.
pub enum JobMessage {
    /// The script's STAGES line: the workflow's stages, in order.
    Stages { target: JobTarget, stages: Vec<String> },
    /// A PROGRESS line of the normalization script, or a step of the runner
    /// (which counts nothing).
    Progress { target: JobTarget, stage: String, counts: Option<Counts> },
    /// Any other output line of the job (script output, runner steps).
    Output { target: JobTarget, line: String },
    /// The job ended; `log` is its log file (what happened, in full).
    Finished { target: JobTarget, runs: Vec<u64>, outcome: Outcome, log: String },
}

/// The slot of a job.
pub open spec fn slot(windows: Seq<WindowView>, jobs: Phases, target: JobTarget) -> Option<Phase> {
    match target {
        JobTarget::Window(i) => if i < windows.len() {
            Some(windows[i as int].2)
        } else {
            None
        },
        JobTarget::Run(run) => if jobs.dom().contains(run) {
            Some(jobs[run])
        } else {
            None
        },
    }
}

/// The windows with the phase of one job replaced, where it has a slot.
pub open spec fn windows_with(windows: Seq<WindowView>, target: JobTarget, phase: Phase) -> Seq<
    WindowView,
> {
    match target {
        JobTarget::Window(i) => if i < windows.len() {
            windows.update(i as int, (windows[i as int].0, windows[i as int].1, phase))
        } else {
            windows
        },
        JobTarget::Run(_) => windows,
    }
}

/// The runs' jobs with the phase of one job replaced, where it has a slot.
pub open spec fn jobs_with(jobs: Phases, target: JobTarget, phase: Phase) -> Phases {
    match target {
        JobTarget::Window(_) => jobs,
        JobTarget::Run(run) => if jobs.dom().contains(run) {
            jobs.insert(run, phase)
        } else {
            jobs
        },
    }
}

/// Is this the failure of a run whose process was killed by the system?
pub open spec fn killed(target: JobTarget, outcome: Outcome) -> bool {
    target is Run && outcome is Failed && text::begins(outcome->message@, norm::KILLED_PREFIX@)
}

/// Is a finished job to be retried: killed, and not retried before?
pub open spec fn retries(target: JobTarget, outcome: Outcome, retried: Seq<u64>) -> bool {
    killed(target, outcome) && !retried.contains(target->Run_0)
}

/// The phase of a job after it finished.
pub open spec fn finished_phase(
    outcome: Outcome,
    retry: bool,
    runs: Seq<u64>,
    log: Text,
    now: Text,
) -> Phase {
    match outcome {
        Outcome::Done { output } => Phase::Done { output: output@, finished: now, runs },
        Outcome::Failed { message } => Phase::Failed {
            message: if retry {
                message@ + "\n\n→ queued for one automatic retry"@
            } else {
                message@
            },
            log: Some(log),
        },
    }
}

impl Board {
    pub closed spec fn windows(&self) -> Seq<WindowView> {
        window_views(self.windows@)
    }

    pub closed spec fn jobs(&self) -> Phases {
        phases(self.jobs@)
    }

    pub closed spec fn queue(&self) -> Seq<u64> {
        self.queue@
    }

    pub closed spec fn retried(&self) -> Seq<u64> {
        self.retried@
    }

    pub closed spec fn parallel(&self) -> usize {
        self.parallel
    }

    pub closed spec fn output(&self, target: JobTarget) -> Seq<Text> {
        lines_kept(self.output@, target, 0)
    }

    /// May one more per-run normalization start now?
    pub open spec fn free_slot(&self) -> bool {
        running(self.jobs()).len() < cap(self.parallel())
    }

    /// Are the two boards the same but for the output?
    pub open spec fn same_jobs(&self, other: &Board) -> bool {
        &&& self.windows() == other.windows()
        &&& self.jobs() == other.jobs()
        &&& self.queue() == other.queue()
        &&& self.retried() == other.retried()
        &&& self.parallel() == other.parallel()
    }

    pub open spec fn same_output(&self, other: &Board) -> bool {
        forall|target: JobTarget| #[trigger] self.output(target) == other.output(target)
    }

    /// A board with these windows, no jobs and the default parallel jobs.
    pub fn new(windows: Vec<Window>) -> (r: Board)
        ensures
            r.windows() == window_views(windows@),
            r.jobs() == Map::<u64, Phase>::empty(),
            r.queue().len() == 0,
            r.retried().len() == 0,
            r.parallel() == DEFAULT_PARALLEL_JOBS,
            forall|target: JobTarget| (#[trigger] r.output(target)).len() == 0,
    {
        let r = Board {
            windows,
            jobs: RunMap::new(),
            queue: Vec::new(),
            retried: Vec::new(),
            parallel: DEFAULT_PARALLEL_JOBS,
            output: Vec::new(),
        };
        assert(r.jobs() =~= Map::<u64, Phase>::empty());
        r
    }

    /// Number of per-run normalizations currently running.
    pub fn running_run_jobs(&self) -> (r: usize)
        ensures
            r == running(self.jobs()).len(),
            self.jobs().dom().finite(),
    {
        let n: usize = self.jobs.len();
        let mut count: usize = 0;
        let mut i: usize = 0;
        let ghost items = self.jobs.list();
        while i < n
            invariant
                i <= n == items.len(),
                items == self.jobs.list(),
                runmap::keys_ascend(items),
                count <= i,
                running_list(items.take(i as int)).finite(),
                count == running_list(items.take(i as int)).len(),
            decreases n - i,
        {
            let (run, state) = self.jobs.at(i);
            proof {
                assert(items.take(i + 1).drop_last() =~= items.take(i as int));
                assert(items.take(i + 1).last() == items[i as int]);
                lemma_running_list(items.take(i as int));
                if running_list(items.take(i as int)).contains(run) {
                    let k = choose|k: int|
                        0 <= k < i && (#[trigger] items.take(i as int)[k]).0 == run;
                    assert(items[k].0 < items[i as int].0);
                }
            }
            if state.is_running() {
                count = count + 1;
            }
            i = i + 1;
        }
        proof {
            assert(items.take(i as int) =~= items);
            lemma_running_list(items);
            assert(self.jobs().dom() =~= self.jobs@.dom());
            let all = running_list(items);
            let want = running(self.jobs());
            assert forall|run: u64| all.contains(run) <==> want.contains(run) by {
                if want.contains(run) {
                    let k = choose|k: int| 0 <= k < items.len() && (#[trigger] items[k]).0 == run;
                    assert(self.jobs@[items[k].0] == items[k].1);
                }
                if all.contains(run) {
                    let k = choose|k: int|
                        0 <= k < items.len() && (#[trigger] items[k]).0 == run && items[k].1@ is Running;
                    assert(self.jobs@[items[k].0] == items[k].1);
                }
            }
            assert(all =~= want);
        }
        count
    }

    /// May one more per-run normalization start now?
    pub fn has_free_job_slot(&self) -> (r: bool)
        ensures
            r == self.free_slot(),
            self.jobs().dom().finite(),
    {
        let most: usize = if self.parallel == 0 {
            1
        } else {
            self.parallel
        };
        self.running_run_jobs() < most
    }

    fn is_queued(&self, run: u64) -> (r: bool)
        ensures
            r == self.queue().contains(run),
    {
        order::member(&self.queue, run)
    }

    fn run_is_running(&self, run: u64) -> (r: bool)
        ensures
            r == running(self.jobs()).contains(run),
    {
        match self.jobs.get(run) {
            Some(state) => state.is_running(),
            None => false,
        }
    }

    /// A manual start (▶ normalize, ↻ re-run, "normalize now" in the run
    /// editor): run now when a slot is free, else wait in the queue — the
    /// parallel jobs are a hard cap, manual starts included.
    pub fn request_run(&mut self, run: u64) -> (r: Request)
        ensures
            final(self).windows() == old(self).windows(),
            final(self).jobs() == old(self).jobs(),
            final(self).retried() == old(self).retried(),
            final(self).parallel() == old(self).parallel(),
            final(self).same_output(old(self)),
            r == (if running(old(self).jobs()).contains(run) {
                Request::Ignored
            } else if old(self).free_slot() {
                Request::Start
            } else {
                Request::Queued
            }),
            final(self).queue() == (if r == Request::Queued && !old(self).queue().contains(run) {
                old(self).queue().push(run)
            } else {
                old(self).queue()
            }),
            requests(*old(self), *final(self), run, r),
    {
        if self.run_is_running(run) {
            return Request::Ignored;
        }
        if self.has_free_job_slot() {
            return Request::Start;
        }
        if !self.is_queued(run) {
            self.queue.push(run);
        }
        Request::Queued
    }

    /// The next queued run to start, where a slot is free: the first of the
    /// queue, which leaves it.
    pub fn take_queued(&mut self) -> (r: Option<u64>)
        ensures
            final(self).windows() == old(self).windows(),
            final(self).jobs() == old(self).jobs(),
            final(self).retried() == old(self).retried(),
            final(self).parallel() == old(self).parallel(),
            final(self).same_output(old(self)),
            match r {
                Some(run) => {
                    &&& old(self).free_slot()
                    &&& old(self).queue().len() > 0
                    &&& run == old(self).queue()[0]
                    &&& final(self).queue() == old(self).queue().skip(1)
                },
                None => {
                    &&& !old(self).free_slot() || old(self).queue().len() == 0
                    &&& final(self).queue() == old(self).queue()
                },
            },
            takes_waiting(*old(self), *final(self), r),
    {
        if self.queue.len() == 0 || !self.has_free_job_slot() {
            return None;
        }
        let run = self.queue.remove(0);
        assert(self.queue@ =~= old(self).queue@.skip(1));
        assert(old(self).queue() =~= seq![run] + self.queue());
        Some(run)
    }

    /// Queue these runs, after those already waiting.
    pub fn queue_all(&mut self, runs: &Vec<u64>)
        ensures
            final(self).windows() == old(self).windows(),
            final(self).jobs() == old(self).jobs(),
            final(self).retried() == old(self).retried(),
            final(self).parallel() == old(self).parallel(),
            final(self).same_output(old(self)),
            final(self).queue() == old(self).queue() + runs@,
    {
        let mut queue = order::copy(&self.queue);
        let mut i: usize = 0;
        while i < runs.len()
            invariant
                i <= runs@.len(),
                queue@ =~= old(self).queue@ + runs@.take(i as int),
            decreases runs@.len() - i,
        {
            queue.push(runs[i]);
            i = i + 1;
        }
        assert(runs@.take(i as int) =~= runs@);
        self.queue = queue;
    }

    /// "✖ clear queue".
    pub fn clear_queue(&mut self)
        ensures
            final(self).windows() == old(self).windows(),
            final(self).jobs() == old(self).jobs(),
            final(self).retried() == old(self).retried(),
            final(self).parallel() == old(self).parallel(),
            final(self).same_output(old(self)),
            final(self).queue() == Seq::<u64>::empty(),
    {
        self.queue = Vec::new();
        assert(self.queue@ =~= Seq::<u64>::empty());
    }

    /// Set how many per-run normalizations may run at once.
    pub fn set_parallel(&mut self, parallel: usize)
        ensures
            final(self).windows() == old(self).windows(),
            final(self).jobs() == old(self).jobs(),
            final(self).queue() == old(self).queue(),
            final(self).retried() == old(self).retried(),
            final(self).same_output(old(self)),
            final(self).parallel() == parallel,
    {
        self.parallel = parallel;
    }

    /// What re-running a run takes, where its result would go to `planned`.
    /// A result sitting where the new one will go is moved aside first as
    /// `normalization.previous`; a result elsewhere (other output folder) is
    /// left alone.
    pub fn rerun_run(&self, run: u64, planned: Option<&str>) -> (r: Rerun)
        ensures
            match r {
                Rerun::Never => running(self.jobs()).contains(run),
                Rerun::MoveAside { output, previous } => {
                    &&& self.jobs().dom().contains(run)
                    &&& self.jobs()[run] is Done
                    &&& output@ == self.jobs()[run]->output
                    &&& planned matches Some(p) && paths::same_path(p@, output@)
                    &&& previous@ == paths::with_ext(output@, "previous"@)
                },
                Rerun::Go => {
                    &&& !running(self.jobs()).contains(run)
                    &&& self.jobs().dom().contains(run) && self.jobs()[run] is Done ==> !(
                    planned matches Some(p) && paths::same_path(p@, self.jobs()[run]->output))
                },
            },
            reruns(*self, run, text::opt_str(planned), r),
    {
        match self.jobs.get(run) {
            Some(JobState::Running { .. }) => Rerun::Never,
            Some(JobState::Done { output, .. }) => match planned {
                Some(p) => {
                    if paths::same_as(p, output.as_str()) {
                        Rerun::MoveAside {
                            output: output.clone(),
                            previous: paths::with_extension(output.as_str(), "previous"),
                        }
                    } else {
                        Rerun::Go
                    }
                },
                None => Rerun::Go,
            },
            _ => Rerun::Go,
        }
    }

    /// Set the state of a run's job.
    pub fn set_job(&mut self, run: u64, state: JobState)
        ensures
            final(self).windows() == old(self).windows(),
            final(self).jobs() == old(self).jobs().insert(run, state@),
            final(self).queue() == old(self).queue(),
            final(self).retried() == old(self).retried(),
            final(self).parallel() == old(self).parallel(),
            final(self).same_output(old(self)),
    {
        let mut jobs: RunMap<JobState> = RunMap::new();
        std::mem::swap(&mut jobs, &mut self.jobs);
        jobs.insert(run, state);
        self.jobs = jobs;
        assert(self.jobs() =~= old(self).jobs().insert(run, state@));
    }

    /// A run's job was launched for these runs: it runs, and its old output
    /// is dropped.
    pub fn start(&mut self, run: u64, runs: Vec<u64>)
        ensures
            final(self).windows() == old(self).windows(),
            final(self).jobs() == old(self).jobs().insert(run, norm::starting(runs@)),
            final(self).queue() == old(self).queue(),
            final(self).retried() == old(self).retried(),
            final(self).parallel() == old(self).parallel(),
            final(self).output(JobTarget::Run(run)).len() == 0,
            forall|t: JobTarget|
                t != JobTarget::Run(run) ==> #[trigger] final(self).output(t) == old(self).output(t),
    {
        self.set_job(run, starting_state(runs));
        self.drop_output(JobTarget::Run(run));
    }

    /// A run's job is forgotten.
    pub fn forget(&mut self, run: u64)
        ensures
            final(self).windows() == old(self).windows(),
            final(self).jobs() == old(self).jobs().remove(run),
            final(self).queue() == old(self).queue(),
            final(self).retried() == old(self).retried(),
            final(self).parallel() == old(self).parallel(),
            final(self).same_output(old(self)),
    {
        let mut jobs: RunMap<JobState> = RunMap::new();
        std::mem::swap(&mut jobs, &mut self.jobs);
        let _ = jobs.remove(run);
        self.jobs = jobs;
        assert(self.jobs() =~= old(self).jobs().remove(run));
    }

    /// The state of a run's job.
    pub fn job(&self, run: u64) -> (r: Option<&JobState>)
        ensures
            match r {
                Some(state) => self.jobs().dom().contains(run) && state@ == self.jobs()[run],
                None => !self.jobs().dom().contains(run),
            },
    {
        self.jobs.get(run)
    }

    /// Forget the output of a job.
    pub fn drop_output(&mut self, target: JobTarget)
        ensures
            final(self).same_jobs(old(self)),
            final(self).output(target).len() == 0,
            forall|t: JobTarget|
                t != target ==> #[trigger] final(self).output(t) == old(self).output(t),
    {
        let ghost before = self.output@;
        let n: usize = self.output.len();
        let mut i: usize = 0;
        let mut output: Vec<(JobTarget, Vec<String>)> = Vec::new();
        std::mem::swap(&mut output, &mut self.output);
        while i < n && output[i].0 != target
            invariant
                i <= n == output@.len(),
                output@ == before,
                forall|k: int| 0 <= k < i ==> (#[trigger] before[k]).0 != target,
            decreases n - i,
        {
            i = i + 1;
        }
        if i < n {
            output.set(i, (target, Vec::new()));
        }
        self.output = output;
        proof {
            assert forall|t: JobTarget| #[trigger] lines_kept(self.output@, t, 0) == (if t == target {
                Seq::<Text>::empty()
            } else {
                lines_kept(before, t, 0)
            }) by {
                lemma_lines_set(before, self.output@, target, i as int, t, 0);
                if t == target {
                    if i < n {
                        assert(text::texts(self.output@[i as int].1@) =~= Seq::<Text>::empty());
                    }
                }
            }
        }
    }

    /// An output line of a job arrived.
    pub fn on_output(&mut self, target: JobTarget, line: String)
        ensures
            takes_output(*old(self), *final(self), target, line@),
    {
        let ghost before = self.output@;
        let n: usize = self.output.len();
        let mut i: usize = 0;
        let mut output: Vec<(JobTarget, Vec<String>)> = Vec::new();
        std::mem::swap(&mut output, &mut self.output);
        while i < n && output[i].0 != target
            invariant
                i <= n == output@.len(),
                output@ == before,
                forall|k: int| 0 <= k < i ==> (#[trigger] before[k]).0 != target,
            decreases n - i,
        {
            i = i + 1;
        }
        if i == n {
            let mut lines: Vec<String> = Vec::new();
            lines.push(line);
            assert(text::texts(lines@) =~= Seq::<Text>::empty().push(line@));
            output.push((target, lines));
            proof {
                lemma_lines_none(before, target, 0);
                assert forall|t: JobTarget| #[trigger] lines_kept(output@, t, 0) == (if t == target {
                    text::texts(lines@)
                } else {
                    lines_kept(before, t, 0)
                }) by {
                    lemma_lines_push(before, output@, target, t, 0);
                }
            }
        } else {
            let lines = add_line(&output[i].1, line);
            output.set(i, (target, lines));
            proof {
                lemma_lines_at(before, target, i as int, 0);
                assert forall|t: JobTarget| #[trigger] lines_kept(output@, t, 0) == (if t == target {
                    text::texts(lines@)
                } else {
                    lines_kept(before, t, 0)
                }) by {
                    lemma_lines_set(before, output@, target, i as int, t, 0);
                }
            }
        }
        self.output = output;
    }

    /// The output lines kept of a job.
    pub fn output_lines(&self, target: JobTarget) -> (r: Vec<String>)
        ensures
            text::texts(r@) == self.output(target),
    {
        let mut i: usize = 0;
        while i < self.output.len()
            invariant
                i <= self.output@.len(),
                self.output(target) == lines_kept(self.output@, target, i as int),
            decreases self.output@.len() - i,
        {
            if self.output[i].0 == target {
                return text::clone_all(&self.output[i].1);
            }
            i = i + 1;
        }
        let none: Vec<String> = Vec::new();
        assert(text::texts(none@) =~= Seq::<Text>::empty());
        none
    }
}


/// What asking for a run does to a board, and what the answer is: a run that
/// runs already is left alone, another starts where a job may run, and waits
/// behind the others where none may.
pub open spec fn requests(before: Board, after: Board, run: u64, answer: Request) -> bool {
    &&& after.windows() == before.windows()
    &&& after.jobs() == before.jobs()
    &&& after.retried() == before.retried()
    &&& after.parallel() == before.parallel()
    &&& after.same_output(&before)
    &&& match answer {
        Request::Ignored => running(before.jobs()).contains(run) && after.queue()
            == before.queue(),
        Request::Start => !running(before.jobs()).contains(run) && before.free_slot()
            && after.queue() == before.queue(),
        Request::Queued => !running(before.jobs()).contains(run) && !before.free_slot()
            && after.queue() == (if before.queue().contains(run) {
            before.queue()
        } else {
            before.queue().push(run)
        }),
    }
}

/// What taking a run out of the queue does to a board: the first one leaves
/// where a job may run, and nothing happens otherwise.
pub open spec fn takes_waiting(before: Board, after: Board, taken: Option<u64>) -> bool {
    &&& after.windows() == before.windows()
    &&& after.jobs() == before.jobs()
    &&& after.retried() == before.retried()
    &&& after.parallel() == before.parallel()
    &&& after.same_output(&before)
    &&& taken is Some <==> before.free_slot() && before.queue().len() > 0
    &&& match taken {
        Some(run) => before.queue() == seq![run] + after.queue(),
        None => after.queue() == before.queue(),
    }
}

/// What running a run again asks for: nothing while it runs, its earlier
/// result out of the way where the new one is to lie, and nothing else.
pub open spec fn reruns(board: Board, run: u64, planned: Option<Text>, answer: Rerun) -> bool {
    let state = if board.jobs().dom().contains(run) {
        Some(board.jobs()[run])
    } else {
        None
    };
    match (state, planned) {
        (Some(Phase::Running { .. }), _) => answer is Never,
        (Some(Phase::Done { output, .. }), Some(place)) => if paths::same_path(place, output) {
            answer is MoveAside && answer->output@ == output && answer->previous@
                == paths::with_ext(output, "previous"@)
        } else {
            answer is Go
        },
        _ => answer is Go,
    }
}

/// A phase with the workflow's stages known, while it runs.
pub open spec fn with_stages(phase: Phase, stages: Seq<Text>) -> Phase {
    match phase {
        Phase::Running { runs, stage, counts, .. } => Phase::Running { runs, stage, counts, stages },
        _ => phase,
    }
}

/// A phase with the current stage and its counts known, while it runs.
pub open spec fn with_progress(phase: Phase, stage: Text, counts: Option<(Text, Text)>) -> Phase {
    match phase {
        Phase::Running { runs, stages, .. } => Phase::Running { runs, stage, counts, stages },
        _ => phase,
    }
}

fn put_stages(state: JobState, list: Vec<String>) -> (r: JobState)
    ensures
        r@ == with_stages(state@, text::texts(list@)),
{
    match state {
        JobState::Running { runs, stage, counts, stages } => JobState::Running {
            runs,
            stage,
            counts,
            stages: list,
        },
        other => other,
    }
}

fn put_progress(state: JobState, now: String, at: Option<Counts>) -> (r: JobState)
    ensures
        r@ == with_progress(state@, now@, norm::opt_counts(at)),
{
    match state {
        JobState::Running { runs, stage, counts, stages } => JobState::Running {
            runs,
            stage: now,
            counts: at,
            stages,
        },
        other => other,
    }
}

/// Replace the phase of a job by what `f` makes of it, where it has a slot:
/// the windows and the runs' jobs after that.
pub open spec fn changed(old_board: Board, new_board: Board, target: JobTarget, phase: Phase) -> bool {
    &&& new_board.windows() == windows_with(old_board.windows(), target, phase)
    &&& new_board.jobs() == jobs_with(old_board.jobs(), target, phase)
}

/// An output line was taken: it stands at the end of the job's output, of
/// which the newest lines are kept.
pub open spec fn takes_output(old_board: Board, new_board: Board, target: JobTarget, line: Text) -> bool {
    &&& new_board.same_jobs(&old_board)
    &&& new_board.output(target) == capped(old_board.output(target).push(line))
    &&& forall|t: JobTarget|
        t != target ==> #[trigger] new_board.output(t) == old_board.output(t)
}

/// The state of a job was changed by its messages, where it has one; nothing
/// else was.
pub open spec fn moves_on(
    old_board: Board,
    new_board: Board,
    target: JobTarget,
    next: spec_fn(Phase) -> Phase,
) -> bool {
    &&& new_board.queue() == old_board.queue()
    &&& new_board.retried() == old_board.retried()
    &&& new_board.parallel() == old_board.parallel()
    &&& new_board.same_output(&old_board)
    &&& match slot(old_board.windows(), old_board.jobs(), target) {
        Some(phase) => changed(old_board, new_board, target, next(phase)),
        None => new_board.windows() == old_board.windows() && new_board.jobs()
            == old_board.jobs(),
    }
}

/// The stages of a job were taken.
pub open spec fn takes_stages(
    old_board: Board,
    new_board: Board,
    target: JobTarget,
    stages: Seq<Text>,
) -> bool {
    moves_on(old_board, new_board, target, |phase: Phase| with_stages(phase, stages))
}

/// The progress of a job was taken.
pub open spec fn takes_progress(
    old_board: Board,
    new_board: Board,
    target: JobTarget,
    stage: Text,
    counts: Option<(Text, Text)>,
) -> bool {
    moves_on(old_board, new_board, target, |phase: Phase| with_progress(phase, stage, counts))
}

/// The end of a job was taken. A process killed by the system is queued for
/// one retry; a success clears the mark of the retry.
pub open spec fn takes_ending(
    old_board: Board,
    new_board: Board,
    target: JobTarget,
    runs: Seq<u64>,
    outcome: Outcome,
    log: Text,
    now: Text,
) -> bool {
    let retry = retries(target, outcome, old_board.retried());
    let phase = finished_phase(outcome, retry, runs, log, now);
    &&& new_board.parallel() == old_board.parallel()
    &&& new_board.same_output(&old_board)
    &&& changed(old_board, new_board, target, phase)
    &&& new_board.queue() == (if retry && !old_board.queue().contains(target->Run_0) {
        old_board.queue().push(target->Run_0)
    } else {
        old_board.queue()
    })
    &&& forall|run: u64| #[trigger]
        new_board.retried().contains(run) <==> (if target == JobTarget::Run(run) && killed(
            target,
            outcome,
        ) {
            true
        } else if target == JobTarget::Run(run) && outcome is Done {
            false
        } else {
            old_board.retried().contains(run)
        })
}

/// A message of a job was taken.
pub open spec fn takes(old_board: Board, new_board: Board, message: JobMessage, now: Text) -> bool {
    match message {
        JobMessage::Stages { target, stages } => takes_stages(
            old_board,
            new_board,
            target,
            text::texts(stages@),
        ),
        JobMessage::Progress { target, stage, counts } => takes_progress(
            old_board,
            new_board,
            target,
            stage@,
            norm::opt_counts(counts),
        ),
        JobMessage::Output { target, line } => takes_output(old_board, new_board, target, line@),
        JobMessage::Finished { target, runs, outcome, log } => takes_ending(
            old_board,
            new_board,
            target,
            runs@,
            outcome,
            log@,
            now,
        ),
    }
}

impl Board {
    /// Take a job's state out of its slot; `None` where it has none.
    fn take_state(&mut self, target: JobTarget) -> (r: Option<JobState>)
        ensures
            final(self).queue@ == old(self).queue@,
            final(self).retried@ == old(self).retried@,
            final(self).parallel == old(self).parallel,
            final(self).output@ == old(self).output@,
            match r {
                Some(state) => {
                    &&& slot(old(self).windows(), old(self).jobs(), target) == Some(state@)
                    &&& final(self).windows() == windows_with(
                        old(self).windows(),
                        target,
                        Phase::Idle,
                    )
                    &&& final(self).jobs() == jobs_with(old(self).jobs(), target, Phase::Idle)
                },
                None => {
                    &&& slot(old(self).windows(), old(self).jobs(), target) is None
                    &&& final(self).windows() == old(self).windows()
                    &&& final(self).jobs() == old(self).jobs()
                },
            },
    {
        match target {
            JobTarget::Window(i) => {
                if i >= self.windows.len() {
                    return None;
                }
                let mut state = JobState::Idle;
                std::mem::swap(&mut state, &mut self.windows[i].state);
                assert(self.windows() =~= windows_with(old(self).windows(), target, Phase::Idle));
                Some(state)
            },
            JobTarget::Run(run) => {
                let mut jobs: RunMap<JobState> = RunMap::new();
                std::mem::swap(&mut jobs, &mut self.jobs);
                let taken = jobs.remove(run);
                match taken {
                    Some(state) => {
                        jobs.insert(run, JobState::Idle);
                        self.jobs = jobs;
                        assert(self.jobs() =~= jobs_with(old(self).jobs(), target, Phase::Idle));
                        Some(state)
                    },
                    None => {
                        self.jobs = jobs;
                        assert(self.jobs() =~= old(self).jobs());
                        None
                    },
                }
            },
        }
    }

    /// Put a job's state into its slot.
    fn put_state(&mut self, target: JobTarget, state: JobState)
        ensures
            final(self).queue@ == old(self).queue@,
            final(self).retried@ == old(self).retried@,
            final(self).parallel == old(self).parallel,
            final(self).output@ == old(self).output@,
            changed(*old(self), *final(self), target, state@),
    {
        match target {
            JobTarget::Window(i) => {
                if i < self.windows.len() {
                    self.windows[i].state = state;
                }
                assert(self.windows() =~= windows_with(old(self).windows(), target, state@));
            },
            JobTarget::Run(run) => {
                if self.jobs.contains(run) {
                    self.jobs.insert(run, state);
                }
                assert(self.jobs() =~= jobs_with(old(self).jobs(), target, state@));
            },
        }
    }

    /// The script's STAGES line of a job arrived.
    pub fn on_stages(&mut self, target: JobTarget, list: Vec<String>)
        ensures
            takes_stages(*old(self), *final(self), target, text::texts(list@)),
    {
        match self.take_state(target) {
            Some(state) => {
                let state = put_stages(state, list);
                self.put_state(target, state);
                assert(self.windows() =~= windows_with(old(self).windows(), target, state@));
                assert(self.jobs() =~= jobs_with(old(self).jobs(), target, state@));
            },
            None => {},
        }
    }

    /// A PROGRESS line of a job arrived.
    pub fn on_progress(&mut self, target: JobTarget, stage: String, counts: Option<Counts>)
        ensures
            takes_progress(*old(self), *final(self), target, stage@, norm::opt_counts(counts)),
    {
        match self.take_state(target) {
            Some(state) => {
                let state = put_progress(state, stage, counts);
                self.put_state(target, state);
                assert(self.windows() =~= windows_with(old(self).windows(), target, state@));
                assert(self.jobs() =~= jobs_with(old(self).jobs(), target, state@));
            },
            None => {},
        }
    }

    /// A job finished at the wall-clock time `now`. A process killed by the
    /// system (memory pressure) is retried once, through the queue (it waits
    /// for a slot). A success clears the one-retry mark: a later re-run of
    /// this row gets its own retry again.
    pub fn on_finished(
        &mut self,
        target: JobTarget,
        runs: Vec<u64>,
        outcome: Outcome,
        log: String,
        now: &str,
    )
        ensures
            takes_ending(*old(self), *final(self), target, runs@, outcome, log@, now@),
    {
        let mut retry: Option<u64> = None;
        match (&target, &outcome) {
            (JobTarget::Run(run), Outcome::Failed { message }) => {
                if norm::killed_by_system(message.as_str()) && !order::member(&self.retried, *run) {
                    retry = Some(*run);
                    self.retried.push(*run);
                }
            },
            _ => {},
        }
        let ghost marked = self.retried@;
        proof {
            let again = retries(target, outcome, old(self).retried());
            assert(again == retry.is_some());
            assert forall|run: u64| #[trigger] marked.contains(run) <==> (if target
                == JobTarget::Run(run) && killed(target, outcome) {
                true
            } else {
                old(self).retried@.contains(run)
            }) by {
                let o = old(self).retried@;
                if o.contains(run) {
                    let k = choose|k: int| 0 <= k < o.len() && o[k] == run;
                    assert(marked[k] == run);
                }
                if again {
                    assert(marked[o.len() as int] == target->Run_0);
                }
                if marked.contains(run) {
                    let k = choose|k: int| 0 <= k < marked.len() && marked[k] == run;
                    if k < o.len() {
                        assert(o[k] == run);
                    }
                }
            }
        }
        let succeeded = match &outcome {
            Outcome::Done { .. } => true,
            Outcome::Failed { .. } => false,
        };
        let state = match outcome {
            Outcome::Done { output } => JobState::Done { output, finished: now.to_owned(), runs },
            Outcome::Failed { message } => JobState::Failed {
                message: if retry.is_some() {
                    text::cat2(message.as_str(), "\n\n→ queued for one automatic retry")
                } else {
                    message
                },
                log: Some(log),
            },
        };
        assert(state@ == finished_phase(
            outcome,
            retries(target, outcome, old(self).retried()),
            runs@,
            log@,
            now@,
        ));
        self.put_state(target, state);
        match retry {
            Some(run) => {
                if !order::member(&self.queue, run) {
                    self.queue.push(run);
                }
            },
            None => match target {
                JobTarget::Run(run) => {
                    if succeeded {
                        self.retried = without(&self.retried, run);
                    }
                },
                JobTarget::Window(_) => {},
            },
        }
    }

    /// A message of a job arrived at the wall-clock time `now`.
    pub fn on_message(&mut self, message: JobMessage, now: &str)
        ensures
            takes(*old(self), *final(self), message, now@),
    {
        match message {
            JobMessage::Stages { target, stages } => self.on_stages(target, stages),
            JobMessage::Progress { target, stage, counts } => self.on_progress(
                target,
                stage,
                counts,
            ),
            JobMessage::Output { target, line } => self.on_output(target, line),
            JobMessage::Finished { target, runs, outcome, log } => self.on_finished(
                target,
                runs,
                outcome,
                log,
                now,
            ),
        }
    }
}

/// The jobs of the runs that are being normalized.
pub open spec fn only_running(jobs: Phases) -> Phases {
    jobs.restrict(running(jobs))
}

/// The windows with these runs in them.
pub open spec fn windows_filled(
    before: Seq<WindowView>,
    after: Seq<WindowView>,
    times: Seq<(u64, Moment)>,
) -> bool {
    &&& after.len() == before.len()
    &&& forall|i: int|
        0 <= i < before.len() ==> {
            let w = #[trigger] after[i];
            &&& w.0 == before[i].0
            &&& w.2 == before[i].2
            &&& order::non_descending(w.1)
            &&& w.1.to_multiset() == norm::covered(times, w.0 as nat).to_multiset()
        }
}

impl Board {
    /// Fill the windows with the runs of these end times.
    pub fn assign(&mut self, kept: &Vec<(u64, Moment)>)
        ensures
            windows_filled(old(self).windows(), final(self).windows(), kept@),
            final(self).jobs() == old(self).jobs(),
            final(self).queue() == old(self).queue(),
            final(self).retried() == old(self).retried(),
            final(self).parallel() == old(self).parallel(),
            final(self).same_output(old(self)),
    {
        norm::assign_windows(&mut self.windows, kept);
        proof {
            let before = old(self).windows();
            let after = self.windows();
            assert forall|i: int| 0 <= i < before.len() implies {
                let w = #[trigger] after[i];
                &&& w.0 == before[i].0
                &&& w.2 == before[i].2
                &&& order::non_descending(w.1)
                &&& w.1.to_multiset() == norm::covered(kept@, w.0 as nat).to_multiset()
            } by {
                assert(after[i] == (
                    self.windows@[i].minutes,
                    self.windows@[i].runs@,
                    self.windows@[i].state@,
                ));
            }
        }
    }

    /// Change how far back a window looks.
    pub fn set_minutes(&mut self, i: usize, minutes: u32)
        requires
            i < old(self).windows().len(),
        ensures
            final(self).windows() == old(self).windows().update(
                i as int,
                (minutes, old(self).windows()[i as int].1, old(self).windows()[i as int].2),
            ),
            final(self).jobs() == old(self).jobs(),
            final(self).queue() == old(self).queue(),
            final(self).retried() == old(self).retried(),
            final(self).parallel() == old(self).parallel(),
            final(self).same_output(old(self)),
    {
        self.windows[i].minutes = minutes;
        assert(self.windows() =~= old(self).windows().update(
            i as int,
            (minutes, old(self).windows()[i as int].1, old(self).windows()[i as int].2),
        ));
    }

    /// Set the state of a window's job.
    pub fn set_window(&mut self, i: usize, state: JobState)
        requires
            i < old(self).windows().len(),
        ensures
            final(self).windows() == windows_with(
                old(self).windows(),
                JobTarget::Window(i),
                state@,
            ),
            final(self).jobs() == old(self).jobs(),
            final(self).queue() == old(self).queue(),
            final(self).retried() == old(self).retried(),
            final(self).parallel() == old(self).parallel(),
            final(self).same_output(old(self)),
    {
        self.put_state(JobTarget::Window(i), state);
    }

    /// The windows.
    pub fn window_list(&self) -> (r: &Vec<Window>)
        ensures
            window_views(r@) == self.windows(),
    {
        &self.windows
    }

    /// The runs waiting for a free slot.
    pub fn waiting(&self) -> (r: &Vec<u64>)
        ensures
            r@ == self.queue(),
    {
        &self.queue
    }

    /// How many per-run normalizations may run at once.
    pub fn parallel_jobs(&self) -> (r: usize)
        ensures
            r == self.parallel(),
    {
        self.parallel
    }

    /// Another configuration file was selected: what was found on disk with
    /// the previous one is dropped, what runs goes on.
    pub fn keep_running(&mut self)
        ensures
            final(self).windows() == old(self).windows(),
            final(self).jobs() == only_running(old(self).jobs()),
            final(self).queue() == old(self).queue(),
            final(self).retried() == old(self).retried(),
            final(self).parallel() == old(self).parallel(),
            final(self).same_output(old(self)),
    {
        let runs = self.jobs.runs();
        let ghost all = self.jobs();
        let mut i: usize = 0;
        while i < runs.len()
            invariant
                i <= runs@.len(),
                all == old(self).jobs(),
                self.windows() == old(self).windows(),
                self.queue() == old(self).queue(),
                self.retried() == old(self).retried(),
                self.parallel() == old(self).parallel(),
                self.same_output(old(self)),
                forall|run: u64| #[trigger] runs@.contains(run) <==> all.dom().contains(run),
                forall|run: u64| #[trigger]
                    self.jobs().dom().contains(run) <==> all.dom().contains(run) && !(runs@.take(
                        i as int,
                    ).contains(run) && !(all[run] is Running)),
                forall|run: u64| #[trigger]
                    self.jobs().dom().contains(run) ==> self.jobs()[run] == all[run],
            decreases runs@.len() - i,
        {
            let run = runs[i];
            let ghost before = self.jobs();
            if !self.run_is_running(run) {
                self.forget(run);
            }
            proof {
                let t = runs@.take(i + 1);
                assert(runs@.contains(run)) by {
                    assert(runs@[i as int] == run);
                }
                assert forall|n: u64| t.contains(n) <==> (runs@.take(i as int).contains(n) || n
                    == run) by {
                    if runs@.take(i as int).contains(n) {
                        let k = choose|k: int| 0 <= k < i && runs@.take(i as int)[k] == n;
                        assert(t[k] == n);
                    }
                    if n == run {
                        assert(t[i as int] == n);
                    }
                    if t.contains(n) {
                        let k = choose|k: int| 0 <= k < t.len() && t[k] == n;
                        if k < i {
                            assert(runs@.take(i as int)[k] == n);
                        }
                    }
                }
                assert(running(before).contains(run) <==> before.dom().contains(run) && before[run] is Running);
                assert forall|n: u64| #[trigger]
                    self.jobs().dom().contains(n) <==> all.dom().contains(n) && !(t.contains(n) && !(
                    all[n] is Running)) by {
                    assert(before.dom().contains(n) <==> all.dom().contains(n) && !(runs@.take(
                        i as int,
                    ).contains(n) && !(all[n] is Running)));
                    assert(t.contains(n) <==> (runs@.take(i as int).contains(n) || n == run));
                    assert(before.dom().contains(run) ==> before[run] == all[run]);
                }
            }
            i = i + 1;
        }
        proof {
            assert(runs@.take(i as int) =~= runs@);
            assert(self.jobs() =~= only_running(all)) by {
                assert forall|run: u64| #[trigger] self.jobs().dom().contains(run) <==> only_running(
                    all,
                ).dom().contains(run) by {
                    assert(runs@.contains(run) <==> all.dom().contains(run));
                }
            }
        }
    }

    /// Another experiment was selected: nothing is kept but the setting of
    /// the parallel jobs and the windows' minutes.
    pub fn reset(&mut self)
        ensures
            final(self).windows() == old(self).windows().map_values(
                |w: WindowView| (w.0, Seq::<u64>::empty(), Phase::Idle),
            ),
            final(self).jobs() == Map::<u64, Phase>::empty(),
            final(self).queue() == Seq::<u64>::empty(),
            final(self).retried() == Seq::<u64>::empty(),
            final(self).parallel() == old(self).parallel(),
            forall|target: JobTarget| (#[trigger] final(self).output(target)).len() == 0,
    {
        let mut windows: Vec<Window> = Vec::new();
        let mut i: usize = 0;
        let ghost f = |w: WindowView| (w.0, Seq::<u64>::empty(), Phase::Idle);
        while i < self.windows.len()
            invariant
                i <= self.windows@.len(),
                *self == *old(self),
                f == (|w: WindowView| (w.0, Seq::<u64>::empty(), Phase::Idle)),
                window_views(windows@) =~= old(self).windows().take(i as int).map_values(f),
            decreases self.windows@.len() - i,
        {
            let w = Window::new(self.windows[i].minutes);
            let ghost before = windows@;
            windows.push(w);
            assert(w.runs@ =~= Seq::<u64>::empty());
            assert(window_views(windows@) =~= window_views(before).push(
                (w.minutes, w.runs@, w.state@),
            ));
            i = i + 1;
        }
        assert(old(self).windows().take(i as int) =~= old(self).windows());
        self.windows = windows;
        self.jobs = RunMap::new();
        self.queue = Vec::new();
        self.retried = Vec::new();
        self.output = Vec::new();
        assert(self.jobs() =~= Map::<u64, Phase>::empty());
        assert(self.queue() =~= Seq::<u64>::empty());
        assert(self.retried() =~= Seq::<u64>::empty());
    }

    /// Does any job run, of a window or of a run?
    pub fn any_running(&self) -> (r: bool)
        ensures
            r == (running(self.jobs()).len() > 0 || exists|i: int|
                0 <= i < self.windows().len() && (#[trigger] self.windows()[i]).2 is Running),
    {
        let mut i: usize = 0;
        while i < self.windows.len()
            invariant
                i <= self.windows@.len(),
                forall|k: int| 0 <= k < i ==> !((#[trigger] self.windows()[k]).2 is Running),
            decreases self.windows@.len() - i,
        {
            if self.windows[i].state.is_running() {
                assert(self.windows()[i as int].2 is Running);
                return true;
            }
            i = i + 1;
        }
        self.running_run_jobs() > 0
    }
}

/// The numbers of a list but one.
fn without(v: &Vec<u64>, x: u64) -> (r: Vec<u64>)
    ensures
        forall|y: u64| #[trigger] r@.contains(y) <==> v@.contains(y) && y != x,
{
    let mut out: Vec<u64> = Vec::new();
    let mut i: usize = 0;
    while i < v.len()
        invariant
            i <= v@.len(),
            forall|y: u64| #[trigger]
                out@.contains(y) <==> v@.take(i as int).contains(y) && y != x,
        decreases v@.len() - i,
    {
        let ghost before = out@;
        if v[i] != x {
            out.push(v[i]);
        }
        assert forall|y: u64| #[trigger] out@.contains(y) <==> v@.take(i + 1).contains(y) && y != x by {
            let t = v@.take(i + 1);
            if before.contains(y) {
                let k = choose|k: int| 0 <= k < before.len() && before[k] == y;
                assert(out@[k] == y);
                let m = choose|m: int| 0 <= m < i && v@.take(i as int)[m] == y;
                assert(t[m] == y);
            }
            if v@[i as int] == y && y != x {
                assert(out@[before.len() as int] == y);
                assert(t[i as int] == y);
            }
            if t.contains(y) && y != x {
                let m = choose|m: int| 0 <= m < t.len() && t[m] == y;
                if m < i {
                    assert(v@.take(i as int)[m] == y);
                    assert(before.contains(y));
                }
            }
            if out@.contains(y) && !before.contains(y) {
                let k = choose|k: int| 0 <= k < out@.len() && out@[k] == y;
                if k < before.len() {
                    assert(before[k] == y);
                }
            }
        }
        i = i + 1;
    }
    assert(v@.take(i as int) =~= v@);
    out
}

// ---------------------------------------------------------------------
// Laws

/// Starting a run while a slot is free keeps within the cap.
pub proof fn starts_keep_the_cap(jobs: Phases, run: u64, phase: Phase, parallel: usize)
    requires
        jobs.dom().finite(),
        running(jobs).len() < cap(parallel),
    ensures
        running(jobs.insert(run, phase)).len() <= cap(parallel),
{
    lemma_running_insert(jobs, run, phase);
}

/// Recording that a job ended, or forgetting it, starts nothing.
pub proof fn endings_start_nothing(jobs: Phases, run: u64, phase: Phase)
    requires
        jobs.dom().finite(),
        !(phase is Running),
    ensures
        running(jobs.insert(run, phase)).len() <= running(jobs).len(),
        running(jobs.remove(run)).len() <= running(jobs).len(),
{
    let all = running(jobs);
    vstd::set_lib::lemma_set_subset_finite(jobs.dom(), all);
    assert(running(jobs.insert(run, phase)) =~= all.remove(run));
    assert(running(jobs.remove(run)) =~= all.remove(run));
}

proof fn lemma_running_insert(jobs: Phases, run: u64, phase: Phase)
    requires
        jobs.dom().finite(),
    ensures
        running(jobs.insert(run, phase)).len() <= running(jobs).len() + 1,
{
    let all = running(jobs);
    vstd::set_lib::lemma_set_subset_finite(jobs.dom(), all);
    if phase is Running {
        assert(running(jobs.insert(run, phase)) =~= all.insert(run));
    } else {
        assert(running(jobs.insert(run, phase)) =~= all.remove(run));
    }
}

/// A killed run is retried by itself at most once: a second kill of the same
/// run, with no success in between, asks for nothing.
pub proof fn one_retry_per_kill(
    run: u64,
    first: Outcome,
    second: Outcome,
    before: Seq<u64>,
    between: Seq<u64>,
)
    requires
        killed(JobTarget::Run(run), first),
        killed(JobTarget::Run(run), second),
        // What the first end leaves of the marks.
        forall|n: u64| #[trigger]
            between.contains(n) <==> (if n == run {
                true
            } else {
                before.contains(n)
            }),
    ensures
        !retries(JobTarget::Run(run), second, between),
        !before.contains(run) ==> retries(JobTarget::Run(run), first, before),
{
}

/// A run waits in the queue at most once: manual starts and retries never
/// queue a run that already waits.
pub proof fn queued_once(queue: Seq<u64>, run: u64)
    requires
        queue.no_duplicates(),
        !queue.contains(run),
    ensures
        queue.push(run).no_duplicates(),
        queue.len() > 0 ==> queue.skip(1).no_duplicates(),
{
    let q = queue.push(run);
    assert forall|i: int, j: int| 0 <= i < q.len() && 0 <= j < q.len() && i != j implies q[i]
        != q[j] by {
        if i < queue.len() && j < queue.len() {
            assert(queue[i] != queue[j]);
        } else if i < queue.len() {
            assert(queue.contains(queue[i]));
        } else {
            assert(queue.contains(queue[j]));
        }
    }
}

/// The output kept of a job is the end of what it printed, at most the
/// number of lines kept.
pub proof fn output_is_capped(lines: Seq<Text>, line: Text)
    requires
        lines.len() <= OUTPUT_LINES_KEPT,
    ensures
        capped(lines.push(line)).len() <= OUTPUT_LINES_KEPT,
        capped(lines.push(line)).last() == line,
{
}

/// The runs of the list that are being normalized.
pub open spec fn running_list(items: Seq<(u64, JobState)>) -> Set<u64>
    decreases items.len(),
{
    if items.len() == 0 {
        Set::empty()
    } else if items.last().1@ is Running {
        running_list(items.drop_last()).insert(items.last().0)
    } else {
        running_list(items.drop_last())
    }
}

proof fn lemma_running_list(items: Seq<(u64, JobState)>)
    ensures
        running_list(items).finite(),
        forall|run: u64| #[trigger]
            running_list(items).contains(run) <==> exists|k: int|
                0 <= k < items.len() && (#[trigger] items[k]).0 == run && items[k].1@ is Running,
    decreases items.len(),
{
    if items.len() > 0 {
        let rest = items.drop_last();
        let n = items.len() - 1;
        lemma_running_list(rest);
        assert forall|run: u64| #[trigger] running_list(items).contains(run) <==> exists|k: int|
            0 <= k < items.len() && (#[trigger] items[k]).0 == run && items[k].1@ is Running by {
            if running_list(items).contains(run) {
                if running_list(rest).contains(run) {
                    let k = choose|k: int|
                        0 <= k < rest.len() && (#[trigger] rest[k]).0 == run && rest[k].1@ is Running;
                    assert(items[k].0 == run);
                } else {
                    assert(items[n].0 == run);
                }
            }
            if exists|k: int|
                0 <= k < items.len() && (#[trigger] items[k]).0 == run && items[k].1@ is Running {
                let k = choose|k: int|
                    0 <= k < items.len() && (#[trigger] items[k]).0 == run && items[k].1@ is Running;
                if k < n {
                    assert(rest[k].0 == run);
                }
            }
        }
    }
}

proof fn lemma_lines_none(output: Seq<(JobTarget, Vec<String>)>, target: JobTarget, i: int)
    requires
        0 <= i,
        forall|k: int| i <= k < output.len() ==> (#[trigger] output[k]).0 != target,
    ensures
        lines_kept(output, target, i) == Seq::<Text>::empty(),
    decreases output.len() - i,
{
    if i < output.len() {
        assert(output[i].0 != target);
        lemma_lines_none(output, target, i + 1);
    }
}

proof fn lemma_lines_at(output: Seq<(JobTarget, Vec<String>)>, target: JobTarget, at: int, i: int)
    requires
        0 <= i <= at < output.len(),
        output[at].0 == target,
        forall|k: int| i <= k < at ==> (#[trigger] output[k]).0 != target,
    ensures
        lines_kept(output, target, i) == text::texts(output[at].1@),
    decreases at - i,
{
    if i < at {
        assert(output[i].0 != target);
        lemma_lines_at(output, target, at, i + 1);
    }
}

proof fn lemma_lines_set(
    before: Seq<(JobTarget, Vec<String>)>,
    after: Seq<(JobTarget, Vec<String>)>,
    target: JobTarget,
    at: int,
    t: JobTarget,
    i: int,
)
    requires
        0 <= i,
        0 <= at <= before.len(),
        after.len() == before.len(),
        forall|k: int| 0 <= k < at ==> (#[trigger] before[k]).0 != target,
        forall|k: int| 0 <= k < before.len() && k != at ==> #[trigger] after[k] == before[k],
        at < before.len() ==> before[at].0 == target && after[at].0 == target,
    ensures
        t != target ==> lines_kept(after, t, i) == lines_kept(before, t, i),
        t == target && i <= at && at < before.len() ==> lines_kept(after, t, i) == text::texts(
            after[at].1@,
        ),
        t == target && at == before.len() ==> lines_kept(after, t, i) == Seq::<Text>::empty(),
    decreases before.len() - i,
{
    if i < before.len() {
        lemma_lines_set(before, after, target, at, t, i + 1);
        if i != at {
            assert(after[i] == before[i]);
        }
        if i < at {
            assert(before[i].0 != target);
        }
    }
}

proof fn lemma_lines_push(
    before: Seq<(JobTarget, Vec<String>)>,
    after: Seq<(JobTarget, Vec<String>)>,
    target: JobTarget,
    t: JobTarget,
    i: int,
)
    requires
        0 <= i <= before.len(),
        after.len() == before.len() + 1,
        forall|k: int| 0 <= k < before.len() ==> (#[trigger] before[k]).0 != target,
        forall|k: int| 0 <= k < before.len() ==> #[trigger] after[k] == before[k],
        after[before.len() as int].0 == target,
    ensures
        t != target ==> lines_kept(after, t, i) == lines_kept(before, t, i),
        t == target ==> lines_kept(after, t, i) == text::texts(after[before.len() as int].1@),
    decreases before.len() - i,
{
    if i < before.len() {
        lemma_lines_push(before, after, target, t, i + 1);
        assert(after[i] == before[i]);
        assert(before[i].0 != target);
    } else {
        assert(lines_kept(after, t, i + 1) == Seq::<Text>::empty());
    }
}

/// The lines with one more, capped.
fn add_line(lines: &Vec<String>, line: String) -> (r: Vec<String>)
    ensures
        text::texts(r@) == capped(text::texts(lines@).push(line@)),
{
    let mut all = text::clone_all(lines);
    let ghost before = text::texts(all@);
    all.push(line);
    assert(text::texts(all@) =~= before.push(line@));
    let ghost full = text::texts(all@);
    let n: usize = all.len();
    assert(full.len() == n);
    if n <= OUTPUT_LINES_KEPT {
        return all;
    }
    let extra: usize = n - OUTPUT_LINES_KEPT;
    let rest = all.split_off(extra);
    assert(text::texts(rest@) =~= full.skip(extra as int));
    rest
}

} // verus!
