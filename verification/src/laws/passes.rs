//! What a pass over the runs starts, and what it leaves alone.

use vstd::prelude::*;
use crate::files::{FileStatus, RunFiles};
use crate::h5::{Info, RunKind};
use crate::jobs::{Phases, WindowView};
use crate::laws::{lists, prepared};
use crate::norm::{Job, JobTarget, Phase};
use crate::pass::{AfterApply, Looked, Place};
use crate::settings::Plan;
use crate::text::Text;
use crate::{beams, config, files, jobs, norm, number, pass, paths, settings, text};

verus! {

/// The newest runs are looked back at from the last one on, one by one, at
/// most thirty of them.
pub proof fn the_newest_runs_come_first(runs: Seq<u64>, i: int)
    ensures
        pass::looked_back(runs).len() == (if runs.len() > 30 {
            30
        } else {
            runs.len()
        }),
        0 <= i < pass::looked_back(runs).len() ==> pass::looked_back(runs)[i] == runs[runs.len() - 1
            - i],
{
}

/// The newest corrected run is the highest number among the rows whose
/// corrected data is there.
pub proof fn the_newest_corrected_run_is_the_highest(rows: Seq<RunFiles<Text>>)
    ensures
        forall|i: int|
            0 <= i < rows.len() && (#[trigger] rows[i]).corrected is Present ==> rows[i].run
                <= pass::newest_corrected(rows),
        pass::newest_corrected(rows) > 0 ==> exists|i: int|
            0 <= i < rows.len() && (#[trigger] rows[i]).corrected is Present && rows[i].run
                == pass::newest_corrected(rows),
    decreases rows.len(),
{
    if rows.len() > 0 {
        let rest = rows.drop_last();
        the_newest_corrected_run_is_the_highest(rest);
        assert forall|i: int|
            0 <= i < rows.len() && (#[trigger] rows[i]).corrected is Present implies rows[i].run
            <= pass::newest_corrected(rows) by {
            if i < rest.len() {
                assert(rest[i] == rows[i]);
            }
        }
        if pass::newest_corrected(rows) > 0 {
            if pass::newest_corrected(rows) == pass::newest_corrected(rest) {
                let i = choose|i: int|
                    0 <= i < rest.len() && (#[trigger] rest[i]).corrected is Present
                        && rest[i].run == pass::newest_corrected(rest);
                assert(rows[i] == rest[i]);
            } else {
                assert(rows[rows.len() - 1].run == pass::newest_corrected(rows));
            }
        }
    }
}

/// Switching the live mode on remembers the newest run of that moment, keeps
/// it while it stays on, and forgets it when it is switched off; a lost
/// connection changes nothing.
pub proof fn live_mode_starts_behind_the_newest_run(from: Option<u64>, newest: u64)
    ensures
        pass::armed_from(None, Some(true), newest) == Some(newest),
        from is Some ==> pass::armed_from(from, Some(true), newest) == from,
        pass::armed_from(from, Some(false), newest) is None,
        pass::armed_from(from, None, newest) == from,
{
}

/// The pass starts a run by itself exactly when it is newer than the run the
/// live mode began behind, was not rejected, and a job may run.
pub proof fn only_new_runs_are_started(
    run: u64,
    from: Option<u64>,
    rejected: Seq<u64>,
    free_slot: bool,
)
    ensures
        from is None ==> !pass::may_start(run, from, rejected, free_slot),
        from matches Some(f) && run <= f ==> !pass::may_start(run, from, rejected, free_slot),
        rejected.contains(run) ==> !pass::may_start(run, from, rejected, free_slot),
        !free_slot ==> !pass::may_start(run, from, rejected, free_slot),
        from is Some && run > from->0 && !rejected.contains(run) && free_slot ==> pass::may_start(
            run,
            from,
            rejected,
            free_slot,
        ),
{
}

/// The pass looks at the rows that have no job yet, are samples and have a
/// configuration: all of them, each with its own configuration, and no
/// others.
pub proof fn every_pending_run_is_looked_at(
    rows: Seq<RunFiles<Text>>,
    jobs: Phases,
    image_paths: Map<u64, String>,
    plan: Plan,
    run: u64,
    config: Text,
)
    ensures
        pass::pending(rows, jobs, image_paths, plan).contains((run, config)) <==> {
            &&& exists|i: int| 0 <= i < rows.len() && (#[trigger] rows[i]).run == run
            &&& !jobs.dom().contains(run)
            &&& beams::kind_in(image_paths, run) == RunKind::Sample
            &&& settings::config_for(plan, run) == Some(config)
        },
    decreases rows.len(),
{
    if rows.len() > 0 {
        let rest = rows.drop_last();
        every_pending_run_is_looked_at(rest, jobs, image_paths, plan, run, config);
        let last = rows.last().run;
        assert(rows[rows.len() - 1].run == last);
        if exists|i: int| 0 <= i < rest.len() && (#[trigger] rest[i]).run == run {
            let i = choose|i: int| 0 <= i < rest.len() && (#[trigger] rest[i]).run == run;
            assert(rows[i].run == run);
        }
        if exists|i: int| 0 <= i < rows.len() && (#[trigger] rows[i]).run == run {
            let i = choose|i: int| 0 <= i < rows.len() && (#[trigger] rows[i]).run == run;
            if i < rest.len() {
                assert(rest[i].run == run);
            }
        }
        if pass::is_pending(last, jobs, image_paths, plan) {
            lists::pushed_holds(
                pass::pending(rest, jobs, image_paths, plan),
                (last, settings::config_for(plan, last)->0),
                (run, config),
            );
        }
    }
}

/// A run is normalized from the corrected folder of its own row, and only
/// when that folder is complete.
pub proof fn runs_use_their_own_corrected_folder(rows: Seq<RunFiles<Text>>, run: u64, k: int)
    ensures
        0 <= k < rows.len() && rows[k].run == run && (forall|j: int|
            0 <= j < k ==> (#[trigger] rows[j]).run != run) ==> {
            &&& rows[k].corrected matches FileStatus::Present(folder) ==> pass::corrected_or_why(
                rows,
                run,
            ) == Ok::<Text, Text>(folder)
            &&& !(rows[k].corrected is Present) ==> pass::corrected_or_why(rows, run) is Err
        },
        (forall|j: int| 0 <= j < rows.len() ==> (#[trigger] rows[j]).run != run)
            ==> pass::corrected_or_why(rows, run) is Err,
{
    if 0 <= k < rows.len() && rows[k].run == run && (forall|j: int|
        0 <= j < k ==> (#[trigger] rows[j]).run != run) {
        lemma_row_at(rows, run, 0, k);
    }
    if forall|j: int| 0 <= j < rows.len() ==> (#[trigger] rows[j]).run != run {
        lemma_no_row(rows, run, 0);
    }
}

proof fn lemma_row_at(rows: Seq<RunFiles<Text>>, run: u64, i: int, k: int)
    requires
        0 <= i <= k < rows.len(),
        rows[k].run == run,
        forall|j: int| 0 <= j < k ==> (#[trigger] rows[j]).run != run,
    ensures
        pass::row_of(rows, run, i) == Some(rows[k]),
    decreases k - i,
{
    if i < k {
        assert(rows[i].run != run);
        lemma_row_at(rows, run, i + 1, k);
    }
}

proof fn lemma_no_row(rows: Seq<RunFiles<Text>>, run: u64, i: int)
    requires
        0 <= i,
        forall|j: int| 0 <= j < rows.len() ==> (#[trigger] rows[j]).run != run,
    ensures
        pass::row_of(rows, run, i) is None,
    decreases rows.len() - i,
{
    if i < rows.len() {
        lemma_no_row(rows, run, i + 1);
    }
}

/// The job of a run that is started takes the run's own open beams and
/// output folder where it has them, and those of the configuration otherwise.
pub proof fn jobs_follow_the_overrides(
    rows: Seq<RunFiles<Text>>,
    plan: Plan,
    run: u64,
    ipts: Text,
    config: Text,
    info: Info,
    images: Seq<(String, usize)>,
    fresh_done: bool,
    legacy_done: bool,
)
    requires
        pass::own_run_plan(
            rows,
            plan,
            run,
            ipts,
            config,
            info,
            images,
            fresh_done,
            legacy_done,
        ) is Ok,
    ensures
        ({
            let job = pass::own_run_plan(
                rows,
                plan,
                run,
                ipts,
                config,
                info,
                images,
                fresh_done,
                legacy_done,
            )->Ok_0;
            let over = settings::override_of(plan.overrides, run);
            &&& job.target == JobTarget::Run(run)
            &&& job.runs == seq![run]
            &&& pass::corrected_or_why(rows, run) == Ok::<Text, Text>(job.samples[0].0)
            &&& job.samples.len() == 1
            &&& job.samples[0].1 == files::nexus_file(ipts, run)
            &&& job.config == config
            &&& job.parameters == info.parameters
            &&& norm::folders_of(job.obs) == (match over.obs {
                Some(obs) => obs,
                None => info.ob_folders,
            })
            &&& prepared::crops_as_configured(job, info)
            &&& over.output matches Some(folder) ==> paths::parent(paths::parent(job.output)->0)
                == Some(paths::tidy(folder))
        }),
{
    let own = settings::with_own(info, settings::override_of(plan.overrides, run));
    let folder = pass::corrected_or_why(rows, run)->Ok_0;
    prepared::run_jobs_normalize_their_run(
        run,
        folder,
        ipts,
        config,
        own,
        images,
        fresh_done,
        legacy_done,
    );
    let job = norm::run_plan(
        run,
        folder,
        ipts,
        config,
        own,
        images,
        fresh_done,
        legacy_done,
    )->Ok_0;
    assert(norm::folders_of(job.obs) =~= own.ob_folders) by {
        assert forall|i: int| 0 <= i < job.obs.len() implies #[trigger] norm::folders_of(job.obs)[i]
            == own.ob_folders[i] by {
            assert(job.obs[i].0 == own.ob_folders[i]);
        }
    }
    norm::results_lie_under_the_base(norm::base_of(ipts, own.output_folder), run, Some(folder));
}

/// What is remembered of a job is its open beams, its configuration and its
/// output; of a result that was found, those its log tells, and where it is.
pub proof fn jobs_are_remembered(job: Job, launch: Option<norm::Launch>, output: Text, i: int)
    ensures
        pass::meta_of_job(job).obs.len() == job.obs.len(),
        0 <= i < job.obs.len() ==> pass::meta_of_job(job).obs[i] == job.obs[i].0,
        pass::meta_of_job(job).config == Some(job.config),
        pass::meta_of_job(job).output == Some(job.output),
        pass::meta_of_result(launch, output).output == Some(output),
        launch is Some ==> pass::meta_of_result(launch, output).obs == launch->0.obs
            && pass::meta_of_result(launch, output).config == launch->0.config,
        launch is None ==> pass::meta_of_result(launch, output).obs.len() == 0
            && pass::meta_of_result(launch, output).config is None,
{
}

/// A run that is looked at is recorded as what became of it: done where its
/// result is, running when its job was started, failed when its job could not
/// be prepared; without a result, a complete folder and leave to start,
/// nothing changes.
pub proof fn looking_at_a_run_settles_it(
    before: Looked,
    rows: Seq<RunFiles<Text>>,
    plan: Plan,
    run: u64,
    ipts: Text,
    config: Text,
    info: Info,
    fresh: Place,
    legacy: Place,
    images: Seq<(String, usize)>,
    starts: bool,
)
    requires
        before.launched is None,
    ensures
        ({
            let after = pass::looked_at(
                before,
                rows,
                plan,
                run,
                ipts,
                config,
                info,
                fresh,
                legacy,
                images,
                starts,
            );
            &&& after.launched matches Some(job) ==> {
                &&& job.target == JobTarget::Run(run)
                &&& after.jobs.dom().contains(run)
                &&& after.jobs[run] == norm::starting(seq![run])
                &&& after.metas.dom().contains(run)
                &&& after.metas[run].output == Some(job.output)
                &&& !fresh.holds_result()
            }
            &&& !starts && !fresh.holds_result() && !legacy.holds_result() ==> after == before
            &&& pass::corrected_or_why(rows, run) is Err && !fresh.holds_result()
                && !legacy.holds_result() ==> after == before
            &&& fresh.holds_result() ==> after.jobs[run] is Done && after.jobs[run]->finished
                == fresh.finished@ && after.jobs[run]->Done_runs == seq![run]
        }),
{
    let own = settings::with_own(info, settings::override_of(plan.overrides, run));
    let corrected = pass::corrected_or_why(rows, run);
    if pass::own_run_plan(
        rows,
        plan,
        run,
        ipts,
        config,
        info,
        images,
        fresh.holds_result(),
        legacy.holds_result(),
    ) is Ok {
        prepared::run_jobs_normalize_their_run(
            run,
            corrected->Ok_0,
            ipts,
            config,
            own,
            images,
            fresh.holds_result(),
            legacy.holds_result(),
        );
    }
}

/// A result is a folder with an image in it.
pub proof fn results_hold_an_image(names: Seq<Text>)
    ensures
        norm::done(names) <==> exists|i: int|
            0 <= i < names.len() && (text::ends(text::lowered(#[trigger] names[i]), ".tif"@)
                || text::ends(text::lowered(names[i]), ".tiff"@)),
{
    if norm::done(names) {
        let i = choose|i: int| 0 <= i < names.len() && #[trigger] files::is_tiff(names[i]);
        assert(text::ends(text::lowered(names[i]), ".tif"@) || text::ends(
            text::lowered(names[i]),
            ".tiff"@,
        ));
    }
    if exists|i: int|
        0 <= i < names.len() && (text::ends(text::lowered(#[trigger] names[i]), ".tif"@)
            || text::ends(text::lowered(names[i]), ".tiff"@)) {
        let i = choose|i: int|
            0 <= i < names.len() && (text::ends(text::lowered(#[trigger] names[i]), ".tif"@)
                || text::ends(text::lowered(names[i]), ".tiff"@));
        assert(files::is_tiff(names[i]));
    }
}

/// Launching the windows leaves the running ones alone, starts those whose
/// job can be prepared, each with its own runs, and says of the others why
/// not; runs and minutes stay.
pub proof fn windows_are_launched_one_by_one(
    i: usize,
    w: WindowView,
    ipts: Text,
    config: Text,
    info: Info,
    seen: files::Seen,
    images: Seq<(String, usize)>,
)
    ensures
        ({
            let after = pass::launched(i, w, ipts, config, info, seen, images);
            let plan = norm::window_plan(i, w.1, w.0, ipts, config, info, seen, images);
            &&& after.0 == w.0
            &&& after.1 == w.1
            &&& w.2 is Running ==> after.2 == w.2
            &&& !(w.2 is Running) && plan is Ok ==> after.2 == norm::starting(w.1)
            &&& !(w.2 is Running) && plan is Err ==> after.2 == (Phase::Failed {
                message: plan->Err_0,
                log: None,
            })
        }),
{
}

/// The output lines start anew for a window that is launched; those of a
/// window that runs, of one whose job cannot be prepared, and of every run
/// are kept.
pub proof fn lines_start_anew_with_their_window(
    windows: Seq<WindowView>,
    i: usize,
    run: u64,
    ipts: Text,
    config: Text,
    info: Info,
    seen: files::Seen,
    images: Seq<(String, usize)>,
)
    requires
        i < windows.len(),
    ensures
        pass::launches(windows, JobTarget::Window(i), ipts, config, info, seen, images)
            ==> pass::launched(i, windows[i as int], ipts, config, info, seen, images).2
            == norm::starting(windows[i as int].1),
        windows[i as int].2 is Running ==> !pass::launches(
            windows,
            JobTarget::Window(i),
            ipts,
            config,
            info,
            seen,
            images,
        ),
        !(windows[i as int].2 is Running) && norm::window_plan(
            i,
            windows[i as int].1,
            windows[i as int].0,
            ipts,
            config,
            info,
            seen,
            images,
        ) is Ok ==> pass::launches(
            windows,
            JobTarget::Window(i),
            ipts,
            config,
            info,
            seen,
            images,
        ),
        !pass::launches(windows, JobTarget::Run(run), ipts, config, info, seen, images),
{
}

/// Every window that does not run and whose job can be prepared gives one
/// job, that of its own index; nothing else gives one.
pub proof fn every_ready_window_gives_its_job(
    windows: Seq<WindowView>,
    ipts: Text,
    config: Text,
    info: Info,
    seen: files::Seen,
    images: Seq<(String, usize)>,
    job: Job,
)
    requires
        windows.len() <= usize::MAX,
    ensures
        pass::window_jobs(windows, ipts, config, info, seen, images).contains(job) <==> exists|
            i: int,
        |
            0 <= i < windows.len() && !((#[trigger] windows[i]).2 is Running) && norm::window_plan(
                i as usize,
                windows[i].1,
                windows[i].0,
                ipts,
                config,
                info,
                seen,
                images,
            ) == Ok::<Job, Text>(job),
        pass::window_jobs(windows, ipts, config, info, seen, images).len() <= windows.len(),
    decreases windows.len(),
{
    if windows.len() > 0 {
        let rest = windows.drop_last();
        every_ready_window_gives_its_job(rest, ipts, config, info, seen, images, job);
        let n = (windows.len() - 1) as usize;
        let w = windows[n as int];
        let plan = norm::window_plan(n, w.1, w.0, ipts, config, info, seen, images);
        if !(w.2 is Running) && plan is Ok {
            lists::pushed_holds(
                pass::window_jobs(rest, ipts, config, info, seen, images),
                plan->Ok_0,
                job,
            );
        }
        if exists|i: int|
            0 <= i < rest.len() && !((#[trigger] rest[i]).2 is Running) && norm::window_plan(
                i as usize,
                rest[i].1,
                rest[i].0,
                ipts,
                config,
                info,
                seen,
                images,
            ) == Ok::<Job, Text>(job) {
            let i = choose|i: int|
                0 <= i < rest.len() && !((#[trigger] rest[i]).2 is Running) && norm::window_plan(
                    i as usize,
                    rest[i].1,
                    rest[i].0,
                    ipts,
                    config,
                    info,
                    seen,
                    images,
                ) == Ok::<Job, Text>(job);
            assert(windows[i] == rest[i]);
        }
        if exists|i: int|
            0 <= i < windows.len() && !((#[trigger] windows[i]).2 is Running) && norm::window_plan(
                i as usize,
                windows[i].1,
                windows[i].0,
                ipts,
                config,
                info,
                seen,
                images,
            ) == Ok::<Job, Text>(job) {
            let i = choose|i: int|
                0 <= i < windows.len() && !((#[trigger] windows[i]).2 is Running)
                    && norm::window_plan(
                    i as usize,
                    windows[i].1,
                    windows[i].0,
                    ipts,
                    config,
                    info,
                    seen,
                    images,
                ) == Ok::<Job, Text>(job);
            if i < rest.len() {
                assert(rest[i] == windows[i]);
            }
        }
    }
}

/// Applying a change to a run that runs does nothing; to another it asks for
/// a run when one was wanted and the corrected data is there, and looks its
/// result up again otherwise.
pub proof fn running_runs_are_left_alone(running: bool, run_now: bool, ready: bool)
    ensures
        pass::after_apply(running, run_now, ready) == AfterApply::Nothing <==> running,
        pass::after_apply(running, run_now, ready) == AfterApply::Request <==> !running && run_now
            && ready,
{
}

/// The selected configuration is registered whenever the automatic
/// normalization is on and another one, or none, is registered.
pub proof fn the_selected_configuration_is_registered(cfg: config::Contents, selected: Text)
    ensures
        !cfg.activate ==> !pass::registers_another(cfg, selected),
        cfg.activate && config::value_of(cfg.entries, "user_autoreduction_config_file"@) is None
            ==> pass::registers_another(cfg, selected),
        config::value_of(cfg.entries, "user_autoreduction_config_file"@) == Some(selected)
            ==> !pass::registers_another(cfg, selected),
{
}

/// A job that was prepared is launched, runs under its run, and is
/// remembered; one that could not be is recorded as failed with the reason,
/// and forgotten. Other runs are left alone.
pub proof fn prepared_jobs_are_launched(
    jobs: Phases,
    metas: Map<u64, pass::Meta>,
    run: u64,
    plan: Result<Job, Text>,
    other: u64,
)
    ensures
        ({
            let after = pass::started(jobs, metas, run, plan);
            &&& plan matches Ok(job) ==> after.launched == Some(job) && after.jobs.dom().contains(
                run,
            ) && after.jobs[run] is Running && after.jobs[run]->Running_runs == job.runs
                && after.metas.dom().contains(run) && after.metas[run].config == Some(job.config)
                && after.metas[run].output == Some(job.output)
            &&& plan matches Err(why) ==> after.launched is None && after.jobs.dom().contains(run)
                && after.jobs[run] is Failed && after.jobs[run]->message == why
                && !after.metas.dom().contains(run)
            &&& other != run ==> after.jobs.dom().contains(other) == jobs.dom().contains(other)
            &&& other != run && jobs.dom().contains(other) ==> after.jobs[other] == jobs[other]
        }),
{
}

/// A run without corrected data is told of only when it was asked for; one
/// the pass waits for is left to a later pass.
pub proof fn awaited_runs_are_not_failed(run: u64, from: Option<u64>)
    ensures
        from is None ==> pass::asked_for(run, from),
        from matches Some(f) ==> (pass::asked_for(run, from) <==> run <= f),
{
}

} // verus!
