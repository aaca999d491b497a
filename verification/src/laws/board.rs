//! What the messages of running jobs do to the board.

use vstd::prelude::*;
use crate::clock::Moment;
use crate::jobs::{Board, JobMessage, Outcome, Phases, Request, Rerun, WindowView};
use crate::norm::{JobTarget, Phase};
use crate::text::Text;
use crate::{jobs, norm, paths, text};

verus! {

/// The state of a job, window or run, on a board.
pub open spec fn state_of(board: Board, target: JobTarget) -> Option<Phase> {
    match target {
        JobTarget::Window(i) => if i < board.windows().len() {
            Some(board.windows()[i as int].2)
        } else {
            None
        },
        JobTarget::Run(run) => if board.jobs().dom().contains(run) {
            Some(board.jobs()[run])
        } else {
            None
        },
    }
}

/// Progress moves the running job it is about to the stage and the counts it
/// tells, keeping its runs and its list of stages; a job that does not run,
/// and every other job, is left as it is.
pub proof fn progress_moves_its_job(
    before: Board,
    after: Board,
    target: JobTarget,
    stage: Text,
    counts: Option<(Text, Text)>,
    other: JobTarget,
)
    requires
        jobs::takes_progress(before, after, target, stage, counts),
    ensures
        state_of(before, target) matches Some(Phase::Running { runs, stages, .. }) ==> state_of(
            after,
            target,
        ) == Some(Phase::Running { runs, stage, counts, stages }),
        !(state_of(before, target) matches Some(Phase::Running { .. })) ==> state_of(after, target)
            == state_of(before, target),
        other != target ==> state_of(after, other) == state_of(before, other),
        after.queue() == before.queue(),
        after.retried() == before.retried(),
        after.parallel() == before.parallel(),
        after.output(other) == before.output(other),
{
}

/// The announced stages become those of the running job they are about, and
/// change nothing else of it nor of any other job.
pub proof fn stages_are_kept_by_their_job(
    before: Board,
    after: Board,
    target: JobTarget,
    list: Seq<Text>,
    other: JobTarget,
)
    requires
        jobs::takes_stages(before, after, target, list),
    ensures
        state_of(before, target) matches Some(Phase::Running { runs, stage, counts, .. })
            ==> state_of(after, target) == Some(
            Phase::Running { runs, stage, counts, stages: list },
        ),
        !(state_of(before, target) matches Some(Phase::Running { .. })) ==> state_of(after, target)
            == state_of(before, target),
        other != target ==> state_of(after, other) == state_of(before, other),
        after.queue() == before.queue(),
{
}

/// A line of output is the last one kept of its job, behind the lines before
/// it, of which only the oldest may have gone; the output of the other jobs
/// stays, and so does every state.
pub proof fn output_is_kept_in_order(
    before: Board,
    after: Board,
    target: JobTarget,
    line: Text,
    other: JobTarget,
)
    requires
        jobs::takes_output(before, after, target, line),
    ensures
        after.output(target).len() > 0 && after.output(target).last() == line,
        after.output(target).len() <= 600,
        before.output(target).len() < 600 ==> after.output(target) == before.output(target).push(
            line,
        ),
        exists|k: int|
            0 <= k <= before.output(target).len() && after.output(target) == (
            #[trigger] before.output(target).skip(k)).push(line),
        other != target ==> after.output(other) == before.output(other),
        state_of(after, other) == state_of(before, other),
        after.queue() == before.queue(),
{
    let lines = before.output(target);
    let all = lines.push(line);
    if all.len() > jobs::OUTPUT_LINES_KEPT {
        let k = all.len() - jobs::OUTPUT_LINES_KEPT;
        assert(jobs::capped(all) =~= lines.skip(k).push(line));
    } else {
        assert(lines.skip(0) =~= lines);
        assert(jobs::capped(all) == lines.skip(0).push(line));
    }
}

/// A job that ended is done, with its output and its runs, or failed, with
/// its message and its log, according to its outcome; every other job is left
/// as it is.
pub proof fn endings_are_of_their_job(
    before: Board,
    after: Board,
    target: JobTarget,
    runs: Seq<u64>,
    outcome: Outcome,
    log: Text,
    now: Text,
    other: JobTarget,
)
    requires
        jobs::takes_ending(before, after, target, runs, outcome, log, now),
    ensures
        state_of(before, target) is Some && outcome is Done ==> state_of(after, target) == Some(
            Phase::Done { output: outcome->output@, finished: now, runs },
        ),
        state_of(before, target) is Some && outcome is Failed ==> {
            &&& state_of(after, target) matches Some(Phase::Failed { message, log: kept })
                && kept == Some(log) && text::begins(message, outcome->message@)
        },
        state_of(before, target) is None ==> state_of(after, target) is None,
        other != target ==> state_of(after, other) == state_of(before, other),
        after.output(other) == before.output(other),
{
    if outcome is Failed {
        let m = outcome->message@;
        assert(m.subrange(0, m.len() as int) =~= m);
        let told = m + "\n\n→ queued for one automatic retry"@;
        assert(told.subrange(0, m.len() as int) =~= m);
    }
}

/// A failed job tells its message as it is, and below it whether the run is
/// tried once more.
pub proof fn retries_are_announced(
    before: Board,
    after: Board,
    target: JobTarget,
    runs: Seq<u64>,
    outcome: Outcome,
    log: Text,
    now: Text,
    run: u64,
)
    requires
        jobs::takes_ending(before, after, target, runs, outcome, log, now),
        state_of(before, target) is Some,
        outcome is Failed,
    ensures
        target == JobTarget::Run(run) && !before.retried().contains(run) && after.retried().contains(
            run,
        ) ==> state_of(after, target) == Some(
            Phase::Failed {
                message: outcome->message@ + "\n\n→ queued for one automatic retry"@,
                log: Some(log),
            },
        ),
        target is Window || target == JobTarget::Run(run) && (before.retried().contains(run)
            || !after.retried().contains(run)) ==> state_of(after, target) == Some(
            Phase::Failed { message: outcome->message@, log: Some(log) },
        ),
{
}

/// A run whose job the system killed is queued once more, behind what waits
/// already, and marked; killed again it is not. Nothing else that ends is
/// queued, and a job that succeeds clears the mark of its run.
pub proof fn kills_are_retried_once(
    before: Board,
    after: Board,
    target: JobTarget,
    runs: Seq<u64>,
    outcome: Outcome,
    log: Text,
    now: Text,
    run: u64,
    other: u64,
)
    requires
        jobs::takes_ending(before, after, target, runs, outcome, log, now),
    ensures
        target == JobTarget::Run(run) && outcome is Failed && text::begins(
            outcome->message@,
            "normalization process killed by the system"@,
        ) && !before.retried().contains(run) ==> after.queue().contains(run)
            && after.retried().contains(run),
        target == JobTarget::Run(run) && before.retried().contains(run) ==> after.queue()
            == before.queue(),
        outcome is Done || target is Window ==> after.queue() == before.queue(),
        outcome is Failed && !text::begins(
            outcome->message@,
            "normalization process killed by the system"@,
        ) ==> after.queue() == before.queue(),
        target == JobTarget::Run(run) && outcome is Done ==> !after.retried().contains(run),
        target != JobTarget::Run(other) ==> (after.retried().contains(other)
            <==> before.retried().contains(other)),
        before.queue().len() <= after.queue().len(),
        after.queue().take(before.queue().len() as int) == before.queue(),
        before.queue().no_duplicates() ==> after.queue().no_duplicates(),
{
    let q = before.queue();
    match target {
        JobTarget::Run(run) => {
            assert(q.push(run).take(q.len() as int) =~= q);
            assert(q.push(run)[q.len() as int] == run);
            assert(q.take(q.len() as int) =~= q);
            if jobs::retries(target, outcome, before.retried()) {
                assert(jobs::killed(target, outcome));
            }
        },
        JobTarget::Window(_) => {
            assert(q.take(q.len() as int) =~= q);
        },
    }
}

/// A run asked for starts when it does not run and a job may run, and waits
/// when none may; a run that runs is neither started nor queued again. Who
/// waits already keeps its place, and nobody waits twice.
pub proof fn asked_runs_start_or_wait(before: Board, after: Board, run: u64, answer: Request)
    requires
        jobs::requests(before, after, run, answer),
    ensures
        jobs::running(before.jobs()).contains(run) ==> after.queue() == before.queue() && answer
            != Request::Start,
        !jobs::running(before.jobs()).contains(run) && jobs::running(before.jobs()).len()
            < jobs::cap(before.parallel()) ==> answer == Request::Start,
        !jobs::running(before.jobs()).contains(run) && jobs::running(before.jobs()).len()
            >= jobs::cap(before.parallel()) ==> after.queue().contains(run) && answer
            != Request::Start,
        after.queue().take(before.queue().len() as int) == before.queue(),
        after.queue().len() <= before.queue().len() + 1,
        before.queue().no_duplicates() ==> after.queue().no_duplicates(),
        after.jobs() == before.jobs(),
{
    let q = before.queue();
    assert(q.take(q.len() as int) =~= q);
    assert(q.push(run).take(q.len() as int) =~= q);
    assert(q.push(run)[q.len() as int] == run);
}

/// A run that is started because it was asked for, or because its turn came,
/// never brings more jobs to run than are allowed.
pub proof fn starts_never_exceed_the_cap(
    before: Board,
    after: Board,
    run: u64,
    answer: Request,
    taken: Option<u64>,
    runs: Seq<u64>,
)
    requires
        before.jobs().dom().finite(),
        jobs::requests(before, after, run, answer) && answer == Request::Start
            || jobs::takes_waiting(before, after, taken) && taken == Some(run),
    ensures
        jobs::running(after.jobs().insert(run, norm::starting(runs))).len() <= jobs::cap(
            before.parallel(),
        ),
{
    jobs::starts_keep_the_cap(before.jobs(), run, norm::starting(runs), before.parallel());
}

/// The queue is served in order: the run taken is the one that waited
/// longest, the others move up, and one is taken whenever a job may run.
pub proof fn the_queue_is_served_in_order(
    before: Board,
    after: Board,
    taken: Option<u64>,
    i: int,
)
    requires
        jobs::takes_waiting(before, after, taken),
    ensures
        taken matches Some(run) ==> before.queue().len() > 0 && run == before.queue()[0]
            && after.queue().len() == before.queue().len() - 1,
        taken is Some && 0 <= i < after.queue().len() ==> after.queue()[i] == before.queue()[i + 1],
        taken is None ==> after.queue() == before.queue(),
        taken is None && before.queue().len() > 0 ==> jobs::running(before.jobs()).len()
            >= jobs::cap(before.parallel()),
        taken is Some ==> jobs::running(before.jobs()).len() < jobs::cap(before.parallel()),
{
    if taken is Some {
        assert(before.queue()[0] == taken->0);
        if 0 <= i < after.queue().len() {
            assert(before.queue()[i + 1] == after.queue()[i]);
        }
    }
}

/// A run that runs is never run again at the same time, and a result is moved
/// aside, under its name with `.previous` behind it, exactly when the new one
/// is to lie where it lies.
pub proof fn reruns_keep_the_earlier_result(
    board: Board,
    run: u64,
    planned: Option<Text>,
    answer: Rerun,
)
    requires
        jobs::reruns(board, run, planned, answer),
    ensures
        answer is Never <==> state_of(board, JobTarget::Run(run)) matches Some(
            Phase::Running { .. },
        ),
        answer is MoveAside ==> {
            &&& state_of(board, JobTarget::Run(run)) matches Some(Phase::Done { output, .. })
                && output == answer->output@
            &&& planned is Some && paths::components(planned->0) == paths::components(
                answer->output@,
            )
            &&& answer->previous@ == paths::with_ext(answer->output@, "previous"@)
        },
        state_of(board, JobTarget::Run(run)) matches Some(Phase::Done { output, .. }) ==> (
        planned == Some(output) ==> answer is MoveAside),
{
}

/// Keeping only what runs keeps every running job as it is, and nothing
/// else.
pub proof fn what_runs_is_kept(jobs: Phases, run: u64)
    ensures
        jobs::only_running(jobs).dom().contains(run) <==> jobs.dom().contains(run)
            && jobs[run] is Running,
        jobs::only_running(jobs).dom().contains(run) ==> jobs::only_running(jobs)[run] == jobs[run],
{
}

/// At least one job may always run, and as many as were allowed.
pub proof fn one_job_may_always_run(parallel: usize, jobs: Phases)
    ensures
        jobs::cap(parallel) >= 1,
        parallel >= 1 ==> jobs::cap(parallel) == parallel,
        (forall|run: u64| jobs.dom().contains(run) ==> !(#[trigger] jobs[run] is Running))
            ==> jobs::running(jobs).len() < jobs::cap(parallel),
{
    if forall|run: u64| jobs.dom().contains(run) ==> !(#[trigger] jobs[run] is Running) {
        assert(jobs::running(jobs) =~= Set::empty());
    }
}

/// A job that was just started runs, with its runs, and has told nothing
/// yet.
pub proof fn started_jobs_run(runs: Seq<u64>)
    ensures
        norm::starting(runs) matches Phase::Running { runs: taken, counts, stages, .. } && taken
            == runs && counts is None && stages.len() == 0,
{
}

/// Every window takes in the runs that ended within its minutes of the
/// latest end, and keeps its minutes and its state.
pub proof fn windows_take_in_their_runs(
    before: Seq<WindowView>,
    after: Seq<WindowView>,
    times: Seq<(u64, Moment)>,
    i: int,
    run: u64,
)
    requires
        jobs::windows_filled(before, after, times),
        0 <= i < before.len(),
    ensures
        after.len() == before.len(),
        after[i].0 == before[i].0,
        after[i].2 == before[i].2,
        after[i].1.contains(run) <==> norm::covered(times, before[i].0 as nat).contains(run),
        forall|j: int, k: int| 0 <= j <= k < after[i].1.len() ==> after[i].1[j] <= after[i].1[k],
{
    broadcast use vstd::seq_lib::group_to_multiset_ensures;

    let w = after[i];
    let c = norm::covered(times, w.0 as nat);
    assert(w.1.to_multiset().count(run) == c.to_multiset().count(run));
}

/// A message does what its kind asks for, to its own job.
pub proof fn messages_reach_their_job(before: Board, after: Board, message: JobMessage, now: Text)
    requires
        jobs::takes(before, after, message, now),
    ensures
        message matches JobMessage::Stages { target, stages } ==> jobs::takes_stages(
            before,
            after,
            target,
            text::texts(stages@),
        ),
        message matches JobMessage::Progress { target, stage, counts } ==> jobs::takes_progress(
            before,
            after,
            target,
            stage@,
            match counts {
                Some(c) => Some((c.done@, c.total@)),
                None => None,
            },
        ),
        message matches JobMessage::Output { target, line } ==> jobs::takes_output(
            before,
            after,
            target,
            line@,
        ),
        message matches JobMessage::Finished { target, runs, outcome, log } ==> jobs::takes_ending(
            before,
            after,
            target,
            runs@,
            outcome,
            log@,
            now,
        ),
{
}

/// Four jobs run in parallel unless another number was chosen, of at most
/// sixteen.
pub proof fn a_few_jobs_run_in_parallel()
    ensures
        jobs::cap(jobs::DEFAULT_PARALLEL_JOBS) == 4,
        jobs::cap(jobs::MAX_PARALLEL_JOBS) == 16,
{
}

} // verus!
