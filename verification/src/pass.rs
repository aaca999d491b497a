//! The automatic pass: what is done with each listed run, and the starts of
//! the jobs.

use vstd::prelude::*;
use crate::config::AutoNormConfig;
use crate::files::{FileStatus, RunFiles};
use crate::h5::{ConfigInfo, RunKind};
use crate::jobs::{Board, Phases, WindowView};
use crate::norm::{Images, Job, JobSpec, JobState, JobTarget, Launch, Phase};
use crate::runmap::RunMap;
use crate::settings::{Plan, Settings};
use crate::text::Text;
use crate::{beams, config, files, h5, jobs, norm, number, order, paths, settings, text};

verus! {

// ---------------------------------------------------------------------
// What a run's normalization was launched with

/// What one run's normalization was launched with (recorded when the job
/// starts here; read back from the job log for a result found on disk).
pub struct RunMeta {
    /// The open-beam folders it divides by.
    pub obs: Vec<String>,
    /// The configuration file (settings) it runs with.
    pub config: Option<String>,
    /// Its result folder (`…/Run_<run>/normalization`).
    pub output: Option<String>,
}

/// What a run's normalization was launched with.
pub struct Meta {
    pub obs: Seq<Text>,
    pub config: Option<Text>,
    pub output: Option<Text>,
}

impl View for RunMeta {
    type V = Meta;

    open spec fn view(&self) -> Meta {
        Meta {
            obs: text::texts(self.obs@),
            config: text::opt_text(self.config),
            output: text::opt_text(self.output),
        }
    }
}

pub open spec fn metas_of(m: Map<u64, RunMeta>) -> Map<u64, Meta> {
    m.map_values(|v: RunMeta| v@)
}

/// What a result on disk was launched with, as its log tells.
pub open spec fn meta_of_result(launch: Option<Launch>, output: Text) -> Meta {
    match launch {
        Some(l) => Meta { obs: l.obs, config: l.config, output: Some(output) },
        None => Meta { obs: Seq::empty(), config: None, output: Some(output) },
    }
}

/// What a job is launched with.
pub open spec fn meta_of_job(job: Job) -> Meta {
    Meta { obs: norm::folders_of(job.obs), config: Some(job.config), output: Some(job.output) }
}

// ---------------------------------------------------------------------
// Following the selected configuration

/// Is another file than this one registered in the shared configuration of
/// an auto normalization that is on?
pub open spec fn registers_another(cfg: config::Contents, selected: Text) -> bool {
    cfg.activate && match config::value_of(cfg.entries, "user_autoreduction_config_file"@) {
        Some(file) => !paths::same_path(file, selected),
        None => true,
    }
}

/// Auto normalization ON and a different file selected: the
/// shared autoreduction.cfg must follow, or the autoreduction
/// keeps normalizing with the previous configuration.
pub fn must_register(cfg: &AutoNormConfig, selected: &str) -> (r: bool)
    ensures
        r == registers_another(cfg@, selected@),
{
    if !cfg.activate {
        return false;
    }
    match cfg.get("user_autoreduction_config_file") {
        Some(file) => !paths::same_as(file, selected),
        None => true,
    }
}

/// Another configuration file was selected: what was found on disk with the
/// previous one is dropped; what runs goes on, and what it was launched with
/// is still known.
pub fn drop_found(board: &mut Board, metas: &mut RunMap<RunMeta>)
    ensures
        final(board).windows() == old(board).windows(),
        final(board).jobs() == jobs::only_running(old(board).jobs()),
        final(board).queue() == old(board).queue(),
        final(board).retried() == old(board).retried(),
        final(board).parallel() == old(board).parallel(),
        final(board).same_output(old(board)),
        final(metas)@ == old(metas)@.restrict(jobs::running(old(board).jobs())),
{
    board.keep_running();
    let ghost left = jobs::running(old(board).jobs());
    assert forall|run: u64| board.jobs().dom().contains(run) <==> left.contains(run) by {}
    let runs = metas.runs();
    let ghost all = metas@;
    let mut i: usize = 0;
    while i < runs.len()
        invariant
            i <= runs@.len(),
            forall|run: u64| #[trigger] runs@.contains(run) <==> all.dom().contains(run),
            forall|run: u64| board.jobs().dom().contains(run) <==> left.contains(run),
            forall|run: u64| #[trigger]
                metas@.dom().contains(run) <==> all.dom().contains(run) && !(runs@.take(
                    i as int,
                ).contains(run) && !left.contains(run)),
            forall|run: u64| #[trigger]
                metas@.dom().contains(run) ==> metas@[run] == all[run],
        decreases runs@.len() - i,
    {
        let run = runs[i];
        let ghost before = metas@;
        if board.job(run).is_none() {
            let _ = metas.remove(run);
        }
        proof {
            let t = runs@.take(i as int);
            let u = runs@.take(i + 1);
            assert forall|n: u64| u.contains(n) <==> (t.contains(n) || n == run) by {
                if t.contains(n) {
                    let k = choose|k: int| 0 <= k < t.len() && t[k] == n;
                    assert(u[k] == n);
                }
                if n == run {
                    assert(u[i as int] == n);
                }
                if u.contains(n) {
                    let k = choose|k: int| 0 <= k < u.len() && u[k] == n;
                    if k < i {
                        assert(t[k] == n);
                    }
                }
            }
            assert forall|n: u64| #[trigger]
                metas@.dom().contains(n) <==> all.dom().contains(n) && !(u.contains(n)
                    && !left.contains(n)) by {
                assert(before.dom().contains(n) <==> all.dom().contains(n) && !(t.contains(n)
                    && !left.contains(n)));
                assert(u.contains(n) <==> (t.contains(n) || n == run));
                assert(board.jobs().dom().contains(run) <==> left.contains(run));
            }
        }
        i = i + 1;
    }
    proof {
        assert(runs@.take(i as int) =~= runs@);
        let want = all.restrict(left);
        assert forall|run: u64| #[trigger] metas@.dom().contains(run) <==> want.dom().contains(run) by {
            assert(runs@.contains(run) <==> all.dom().contains(run));
        }
        assert(metas@ =~= want);
    }
}

// ---------------------------------------------------------------------
// Which runs are new

/// How many of the newest runs are looked at when the pass is armed.
pub const LOOKBACK: usize = 30;

/// The runs to look at when the pass is armed, the newest first.
pub open spec fn looked_back(runs: Seq<u64>) -> Seq<u64> {
    let r = runs.reverse();
    if r.len() > LOOKBACK {
        r.take(LOOKBACK as int)
    } else {
        r
    }
}

pub fn newest_runs(runs: &Vec<u64>) -> (r: Vec<u64>)
    ensures
        r@ == looked_back(runs@),
{
    let mut out: Vec<u64> = Vec::new();
    let n: usize = runs.len();
    let mut i: usize = 0;
    while i < n && i < LOOKBACK
        invariant
            n == runs@.len(),
            i <= n,
            i <= LOOKBACK,
            out@ =~= runs@.reverse().take(i as int),
        decreases n - i,
    {
        out.push(runs[n - 1 - i]);
        i = i + 1;
    }
    assert(runs@.reverse().take(n as int) =~= runs@.reverse());
    out
}

/// The newest of the runs whose corrected folder is complete; zero when none
/// has one.
pub open spec fn newest_corrected(rows: Seq<RunFiles<Text>>) -> u64
    decreases rows.len(),
{
    if rows.len() == 0 {
        0
    } else {
        let before = newest_corrected(rows.drop_last());
        if rows.last().corrected is Present && rows.last().run > before {
            rows.last().run
        } else {
            before
        }
    }
}

/// The newest run of the experiment whose corrected folder already exists,
/// among the runs looked at (older ones are irrelevant for the
/// arming). 0 when none of them has corrected data yet — then every
/// run is new.
pub fn newest_corrected_run(rows: &Vec<RunFiles>) -> (r: u64)
    ensures
        r == newest_corrected(files::statuses(rows@)),
{
    let ghost rs = files::statuses(rows@);
    let mut best: u64 = 0;
    let mut i: usize = 0;
    while i < rows.len()
        invariant
            i <= rows@.len(),
            rs == files::statuses(rows@),
            best == newest_corrected(rs.take(i as int)),
        decreases rows@.len() - i,
    {
        assert(rs.take(i + 1).drop_last() =~= rs.take(i as int));
        assert(rs.take(i + 1).last() == rows@[i as int]@);
        match &rows[i].corrected {
            FileStatus::Present(_) => {
                if rows[i].run > best {
                    best = rows[i].run;
                }
            },
            _ => {},
        }
        i = i + 1;
    }
    assert(rs.take(i as int) =~= rs);
    best
}

/// Does the pass have to find out which runs are new? `live` tells whether
/// auto normalization and the live reduction are on, `None` that the shared
/// configuration cannot be read.
pub fn must_arm(from: Option<u64>, live: Option<bool>) -> (r: bool)
    ensures
        r == (from is None && live == Some(true)),
{
    match (from, live) {
        (None, Some(on)) => on,
        _ => false,
    }
}

/// The run after which runs are new: the newest normalizable one when the
/// pass is armed, and none while it is off. While the shared configuration
/// cannot be read, what was found before stands.
pub open spec fn armed_from(from: Option<u64>, live: Option<bool>, newest: u64) -> Option<u64> {
    match live {
        Some(true) => match from {
            Some(run) => Some(run),
            None => Some(newest),
        },
        Some(false) => None,
        None => from,
    }
}

/// First look while active: everything already normalizable is old news —
/// the "▶ normalize" button covers it. A run whose corrected data is not
/// there yet is still in flight: it will be normalized. Off (or live
/// reduction opted out): re-armed when it resumes. Unreadable shared
/// configuration (transient on the shared filesystem): keep the current
/// arming, do not lose track of the runs that landed meanwhile.
pub fn arm_runs(from: Option<u64>, live: Option<bool>, newest: u64) -> (r: Option<u64>)
    ensures
        r == armed_from(from, live, newest),
{
    match live {
        Some(on) => if on {
            match from {
                Some(run) => Some(run),
                None => Some(newest),
            }
        } else {
            None
        },
        None => from,
    }
}

/// Once armed, the pass keeps its arming for as long as it stays on, whatever
/// is normalized meanwhile, and through looks at which the shared
/// configuration cannot be read.
pub proof fn arming_lasts(from: Option<u64>, live: Option<bool>, newest: u64, later: u64)
    requires
        live != Some(false),
        armed_from(from, live, newest) is Some,
    ensures
        armed_from(armed_from(from, live, newest), Some(true), later) == armed_from(
            from,
            live,
            newest,
        ),
        armed_from(armed_from(from, live, newest), None, later) == armed_from(from, live, newest),
{
}

// ---------------------------------------------------------------------
// The runs of a pass

/// Is there something to look up or normalize for the run?
pub open spec fn is_pending(
    run: u64,
    jobs: Phases,
    image_paths: Map<u64, String>,
    plan: Plan,
) -> bool {
    &&& !jobs.dom().contains(run)
    &&& beams::kind_in(image_paths, run) == RunKind::Sample
    &&& settings::config_for(plan, run) is Some
}

/// The runs to look up or normalize, with the configuration file of each.
pub open spec fn pending(
    rows: Seq<RunFiles<Text>>,
    jobs: Phases,
    image_paths: Map<u64, String>,
    plan: Plan,
) -> Seq<(u64, Text)>
    decreases rows.len(),
{
    if rows.len() == 0 {
        Seq::empty()
    } else {
        let before = pending(rows.drop_last(), jobs, image_paths, plan);
        let run = rows.last().run;
        if is_pending(run, jobs, image_paths, plan) {
            before.push((run, settings::config_for(plan, run)->0))
        } else {
            before
        }
    }
}

pub open spec fn run_texts(v: Seq<(u64, String)>) -> Seq<(u64, Text)> {
    v.map_values(|p: (u64, String)| (p.0, p.1@))
}

/// Alignment and open-beam runs are left alone: nothing to look up
/// or normalize. A run without any configuration (none selected in
/// section 2, none picked in its Config drop-down) has nothing to
/// look up or normalize with — retried next refresh.
pub fn pending_runs(
    rows: &Vec<RunFiles>,
    board: &Board,
    image_paths: &RunMap<String>,
    plan: &Settings,
) -> (r: Vec<(u64, String)>)
    ensures
        run_texts(r@) == pending(files::statuses(rows@), board.jobs(), image_paths@, plan@),
{
    let ghost rs = files::statuses(rows@);
    let mut out: Vec<(u64, String)> = Vec::new();
    let mut i: usize = 0;
    assert(run_texts(out@) =~= pending(rs.take(0), board.jobs(), image_paths@, plan@));
    while i < rows.len()
        invariant
            i <= rows@.len(),
            rs == files::statuses(rows@),
            run_texts(out@) == pending(rs.take(i as int), board.jobs(), image_paths@, plan@),
        decreases rows@.len() - i,
    {
        assert(rs.take(i + 1).drop_last() =~= rs.take(i as int));
        assert(rs.take(i + 1).last() == rows@[i as int]@);
        let run = rows[i].run;
        if board.job(run).is_none() && !beams::skips_normalization(image_paths, run) {
            match plan.config_for_run(run) {
                Some(file) => {
                    let ghost before = out@;
                    out.push((run, file));
                    assert(run_texts(out@) =~= run_texts(before).push((run, file@)));
                },
                None => {},
            }
        }
        i = i + 1;
    }
    assert(rs.take(i as int) =~= rs);
    out
}

/// The configuration file of a run cannot be read: the problem is surfaced on
/// the run that needs it.
pub fn unreadable(board: &mut Board, run: u64, message: String)
    ensures
        final(board).windows() == old(board).windows(),
        final(board).jobs() == old(board).jobs().insert(
            run,
            Phase::Failed { message: message@, log: None },
        ),
        final(board).queue() == old(board).queue(),
        final(board).retried() == old(board).retried(),
        final(board).parallel() == old(board).parallel(),
        final(board).same_output(old(board)),
{
    board.set_job(run, JobState::Failed { message, log: None });
}

/// Did the run land after the pass started watching, and may it start?
pub open spec fn may_start(
    run: u64,
    from: Option<u64>,
    rejected: Seq<u64>,
    free_slot: bool,
) -> bool {
    from is Some && run > from->0 && !rejected.contains(run) && free_slot
}

/// May the pass start the run now? Only then does a look at it need the
/// numbers of images.
pub fn may_start_now(board: &Board, run: u64, from: Option<u64>, rejected: &Vec<u64>) -> (r: bool)
    ensures
        r == may_start(run, from, rejected@, board.free_slot()),
{
    match from {
        Some(f) => run > f && !order::member(rejected, run) && board.has_free_job_slot(),
        None => false,
    }
}

/// Look at the place of a pending run's result, whose entries are `names`. A
/// result that is already there (workflow runner, previous session) is marked
/// Done — never redone — and its job log `log` tells what it was launched
/// with; `finished` is when it was written, and `runs` are the runs it was
/// made of. Else the pass starts the run if
/// it landed after the pass started watching, is not rejected, and a slot is
/// free; at the cap the run is simply not registered: the next pass picks it
/// up once a slot frees up. Tells whether the run is to be started.
pub fn settle_run(
    board: &mut Board,
    metas: &mut RunMap<RunMeta>,
    run: u64,
    runs: &Vec<u64>,
    output: &str,
    names: &Vec<String>,
    log: Option<&str>,
    finished: &str,
    from: Option<u64>,
    rejected: &Vec<u64>,
) -> (r: bool)
    ensures
        final(board).windows() == old(board).windows(),
        final(board).queue() == old(board).queue(),
        final(board).retried() == old(board).retried(),
        final(board).parallel() == old(board).parallel(),
        final(board).same_output(old(board)),
        norm::done(text::texts(names@)) ==> {
            &&& !r
            &&& final(board).jobs() == old(board).jobs().insert(
                run,
                Phase::Done { output: output@, finished: finished@, runs: runs@ },
            )
            &&& metas_of(final(metas)@) == metas_of(old(metas)@).insert(
                run,
                meta_of_result(
                    match log {
                        Some(l) => norm::last_launch(text::lines_of(l@)),
                        None => None,
                    },
                    output@,
                ),
            )
        },
        !norm::done(text::texts(names@)) ==> {
            &&& r == may_start(run, from, rejected@, old(board).free_slot())
            &&& final(board).jobs() == old(board).jobs()
            &&& final(metas)@ == old(metas)@
        },
{
    if norm::output_is_done(names) {
        let launch = match log {
            Some(l) => norm::launch_from_log(l),
            None => None,
        };
        let meta = match launch {
            Some(info) => RunMeta {
                obs: info.obs,
                config: info.config,
                output: Some(output.to_owned()),
            },
            None => RunMeta { obs: Vec::new(), config: None, output: Some(output.to_owned()) },
        };
        assert(text::texts(Seq::<String>::empty()) =~= Seq::<Text>::empty());
        let ghost before = metas_of(metas@);
        metas.insert(run, meta);
        assert(metas_of(metas@) =~= before.insert(run, meta@));
        board.set_job(
            run,
            JobState::Done {
                output: output.to_owned(),
                finished: finished.to_owned(),
                runs: order::copy(runs),
            },
        );
        return false;
    }
    may_start_now(board, run, from, rejected)
}

// ---------------------------------------------------------------------
// Starting a run

/// The row of a run, from index `i` on.
pub open spec fn row_of(rows: Seq<RunFiles<Text>>, run: u64, i: int) -> Option<RunFiles<Text>>
    decreases rows.len() - i,
{
    if !(0 <= i < rows.len()) {
        None
    } else if rows[i].run == run {
        Some(rows[i])
    } else {
        row_of(rows, run, i + 1)
    }
}

/// The complete corrected folder of a run, or why there is none.
pub open spec fn corrected_or_why(rows: Seq<RunFiles<Text>>, run: u64) -> Result<Text, Text> {
    let n = number::decimal(run as nat);
    match row_of(rows, run, 0) {
        Some(row) => match row.corrected {
            FileStatus::Present(folder) => Ok(folder),
            FileStatus::Writing(folder) => Err(
                "the corrected data of run "@ + n
                    + " is still being written — retried automatically once the folder is complete\n"@
                    + folder,
            ),
            FileStatus::Missing(expected) => Err(
                "no corrected data for run "@ + n + " yet (autoreduction) — expected under "@
                    + expected,
            ),
        },
        None => Err("run "@ + n + " is not listed in the table"@),
    }
}

pub open spec fn text_result(r: Result<String, String>) -> Result<Text, Text> {
    match r {
        Ok(s) => Ok(s@),
        Err(s) => Err(s@),
    }
}

/// The row of a run.
pub fn find_row(rows: &Vec<RunFiles>, run: u64) -> (r: Option<&RunFiles>)
    ensures
        match r {
            Some(row) => row_of(files::statuses(rows@), run, 0) == Some(row@),
            None => row_of(files::statuses(rows@), run, 0) is None,
        },
{
    let ghost rs = files::statuses(rows@);
    let mut i: usize = 0;
    while i < rows.len()
        invariant
            i <= rows@.len(),
            rs == files::statuses(rows@),
            row_of(rs, run, 0) == row_of(rs, run, i as int),
        decreases rows@.len() - i,
    {
        assert(rs[i as int] == rows@[i as int]@);
        if rows[i].run == run {
            return Some(&rows[i]);
        }
        i = i + 1;
    }
    None
}

/// The complete corrected folder that a run is normalized from, or why there
/// is none.
pub fn corrected_folder(rows: &Vec<RunFiles>, run: u64) -> (r: Result<String, String>)
    ensures
        text_result(r) == corrected_or_why(files::statuses(rows@), run),
{
    let n = number::decimal_text(run);
    match find_row(rows, run) {
        Some(row) => match &row.corrected {
            FileStatus::Present(folder) => Ok(folder.clone()),
            FileStatus::Writing(folder) => Err(
                text::cat4(
                    "the corrected data of run ",
                    n.as_str(),
                    " is still being written — retried automatically once the folder is complete\n",
                    folder.as_str(),
                ),
            ),
            FileStatus::Missing(expected) => Err(
                text::cat4(
                    "no corrected data for run ",
                    n.as_str(),
                    " yet (autoreduction) — expected under ",
                    expected.as_str(),
                ),
            ),
        },
        None => Err(text::cat3("run ", n.as_str(), " is not listed in the table")),
    }
}

/// Was the run asked for, rather than found by the pass?
pub open spec fn asked_for(run: u64, from: Option<u64>) -> bool {
    from is None || run <= from->0
}

/// A run cannot start for want of corrected data. Only a run someone asked
/// for explicitly gets the message (the automatic pass simply retries next
/// refresh).
pub fn no_corrected(board: &mut Board, run: u64, from: Option<u64>, message: String)
    ensures
        final(board).windows() == old(board).windows(),
        final(board).jobs() == (if asked_for(run, from) {
            old(board).jobs().insert(run, Phase::Failed { message: message@, log: None })
        } else {
            old(board).jobs()
        }),
        final(board).queue() == old(board).queue(),
        final(board).retried() == old(board).retried(),
        final(board).parallel() == old(board).parallel(),
        final(board).same_output(old(board)),
{
    let asked = match from {
        Some(f) => run <= f,
        None => true,
    };
    if asked {
        board.set_job(run, JobState::Failed { message, log: None });
    }
}

/// Start the job prepared for a run, or note why it could not be prepared.
/// Gives the job to launch.
pub(crate) fn start_prepared(
    board: &mut Board,
    metas: &mut RunMap<RunMeta>,
    run: u64,
    prepared: Result<JobSpec, String>,
) -> (r: Option<JobSpec>)
    requires
        prepared matches Ok(spec) ==> spec@.target == JobTarget::Run(run),
    ensures
        final(board).windows() == old(board).windows(),
        final(board).queue() == old(board).queue(),
        final(board).retried() == old(board).retried(),
        final(board).parallel() == old(board).parallel(),
        match prepared {
            Ok(spec) => {
                &&& r == Some(spec)
                &&& final(board).jobs() == old(board).jobs().insert(run, norm::starting(spec@.runs))
                &&& final(board).output(JobTarget::Run(run)).len() == 0
                &&& forall|t: JobTarget|
                    t != JobTarget::Run(run) ==> #[trigger] final(board).output(t) == old(
                        board,
                    ).output(t)
                &&& metas_of(final(metas)@) == metas_of(old(metas)@).insert(run, meta_of_job(spec@))
            },
            Err(message) => {
                &&& r is None
                &&& final(board).jobs() == old(board).jobs().insert(
                    run,
                    Phase::Failed { message: message@, log: None },
                )
                &&& final(board).same_output(old(board))
                &&& metas_of(final(metas)@) == metas_of(old(metas)@).remove(run)
            },
        },
{
    let ghost before = metas_of(metas@);
    match prepared {
        Ok(spec) => {
            let meta = RunMeta {
                obs: spec.ob_folders(),
                config: Some(spec.config().to_owned()),
                output: Some(spec.output().to_owned()),
            };
            metas.insert(run, meta);
            assert(metas_of(metas@) =~= before.insert(run, meta@));
            board.start(run, order::copy(&spec.runs));
            Some(spec)
        },
        Err(message) => {
            let _ = metas.remove(run);
            assert(metas_of(metas@) =~= before.remove(run));
            board.set_job(run, JobState::Failed { message, log: None });
            None
        },
    }
}

/// The job of a listed run with its own settings (✏), or why there is none.
pub open spec fn own_run_plan(
    rows: Seq<RunFiles<Text>>,
    plan: Plan,
    run: u64,
    ipts: Text,
    config: Text,
    info: h5::Info,
    images: Seq<(String, usize)>,
    fresh_done: bool,
    legacy_done: bool,
) -> Result<Job, Text> {
    match corrected_or_why(rows, run) {
        Err(message) => Err(message),
        Ok(folder) => norm::run_plan(
            run,
            folder,
            ipts,
            config,
            settings::with_own(info, settings::override_of(plan.overrides, run)),
            images,
            fresh_done,
            legacy_done,
        ),
    }
}

/// Normalize one run on its own (configuration's sample replaced by the
/// run) if its corrected folder is there. The row's own settings (✏) replace
/// the configuration's open beams / output folder for this run. Without
/// corrected data nothing happens — the next pass retries — unless someone
/// asked for the run. `images` are the numbers of TIFFs of the folders the
/// job reads, `fresh` and `legacy` the names of the entries at the two places
/// of [`planned_places`]. Gives the job to launch.
pub fn start_run_job(
    board: &mut Board,
    metas: &mut RunMap<RunMeta>,
    rows: &Vec<RunFiles>,
    plan: &Settings,
    from: Option<u64>,
    run: u64,
    ipts_path: &str,
    config: &str,
    info: &ConfigInfo,
    images: &Images,
    fresh: &Vec<String>,
    legacy: &Vec<String>,
) -> (r: Option<JobSpec>)
    ensures
        final(board).windows() == old(board).windows(),
        final(board).queue() == old(board).queue(),
        final(board).retried() == old(board).retried(),
        final(board).parallel() == old(board).parallel(),
        ({
            let result = own_run_plan(
                files::statuses(rows@),
                plan@,
                run,
                ipts_path@,
                config@,
                info@,
                images@,
                norm::done(text::texts(fresh@)),
                norm::done(text::texts(legacy@)),
            );
            let waits = corrected_or_why(files::statuses(rows@), run) is Err && !asked_for(run, from);
            match result {
                Ok(job) => {
                    &&& r is Some && r->0@ == job
                    &&& final(board).jobs() == old(board).jobs().insert(
                        run,
                        norm::starting(job.runs),
                    )
                    &&& final(board).output(JobTarget::Run(run)).len() == 0
                    &&& forall|t: JobTarget|
                        t != JobTarget::Run(run) ==> #[trigger] final(board).output(t) == old(
                            board,
                        ).output(t)
                    &&& metas_of(final(metas)@) == metas_of(old(metas)@).insert(
                        run,
                        meta_of_job(job),
                    )
                },
                Err(message) => {
                    &&& r is None
                    &&& final(board).jobs() == (if waits {
                        old(board).jobs()
                    } else {
                        old(board).jobs().insert(run, Phase::Failed { message, log: None })
                    })
                    &&& final(board).same_output(old(board))
                    &&& metas_of(final(metas)@) == (if corrected_or_why(
                        files::statuses(rows@),
                        run,
                    ) is Err {
                        metas_of(old(metas)@)
                    } else {
                        metas_of(old(metas)@).remove(run)
                    })
                },
            }
        }),
        corrected_or_why(files::statuses(rows@), run) is Ok ==> (Looked {
            jobs: final(board).jobs(),
            metas: metas_of(final(metas)@),
            launched: opt_job(r),
        }) == started(
            old(board).jobs(),
            metas_of(old(metas)@),
            run,
            own_run_plan(
                files::statuses(rows@),
                plan@,
                run,
                ipts_path@,
                config@,
                info@,
                images@,
                norm::done(text::texts(fresh@)),
                norm::done(text::texts(legacy@)),
            ),
        ),
{
    let folder = match corrected_folder(rows, run) {
        Ok(folder) => folder,
        Err(message) => {
            no_corrected(board, run, from, message);
            return None;
        },
    };
    let own = plan.effective_info(run, info);
    let prepared = norm::prepare_run_job(
        run,
        folder.as_str(),
        ipts_path,
        config,
        &own,
        images,
        fresh,
        legacy,
    );
    start_prepared(board, metas, run, prepared)
}

// ---------------------------------------------------------------------
// Starting the windows

/// Start the job prepared for a window, or note why it could not be
/// prepared. Gives the job to launch.
fn start_window_job(board: &mut Board, i: usize, prepared: Result<JobSpec, String>) -> (r: Option<
    JobSpec,
>)
    requires
        i < old(board).windows().len(),
        prepared matches Ok(spec) ==> spec@.target == JobTarget::Window(i),
    ensures
        final(board).jobs() == old(board).jobs(),
        final(board).queue() == old(board).queue(),
        final(board).retried() == old(board).retried(),
        final(board).parallel() == old(board).parallel(),
        match prepared {
            Ok(spec) => {
                &&& r == Some(spec)
                &&& final(board).windows() == jobs::windows_with(
                    old(board).windows(),
                    JobTarget::Window(i),
                    norm::starting(spec@.runs),
                )
                &&& final(board).output(JobTarget::Window(i)).len() == 0
                &&& forall|t: JobTarget|
                    t != JobTarget::Window(i) ==> #[trigger] final(board).output(t) == old(
                        board,
                    ).output(t)
            },
            Err(message) => {
                &&& r is None
                &&& final(board).windows() == jobs::windows_with(
                    old(board).windows(),
                    JobTarget::Window(i),
                    Phase::Failed { message: message@, log: None },
                )
                &&& final(board).same_output(old(board))
            },
        },
{
    match prepared {
        Ok(spec) => {
            let runs = order::copy(&spec.runs);
            board.set_window(i, norm::starting_state(runs));
            board.drop_output(JobTarget::Window(i));
            Some(spec)
        },
        Err(message) => {
            board.set_window(i, JobState::Failed { message, log: None });
            None
        },
    }
}

/// What becomes of a window when the windows are launched.
pub open spec fn launched(
    i: usize,
    w: WindowView,
    ipts: Text,
    config: Text,
    info: h5::Info,
    seen: files::Seen,
    images: Seq<(String, usize)>,
) -> WindowView {
    if w.2 is Running {
        w
    } else {
        match norm::window_plan(i, w.1, w.0, ipts, config, info, seen, images) {
            Ok(job) => (w.0, w.1, norm::starting(job.runs)),
            Err(message) => (w.0, w.1, Phase::Failed { message, log: None }),
        }
    }
}

/// The jobs of the windows that are launched, in order.
pub open spec fn window_jobs(
    windows: Seq<WindowView>,
    ipts: Text,
    config: Text,
    info: h5::Info,
    seen: files::Seen,
    images: Seq<(String, usize)>,
) -> Seq<Job>
    decreases windows.len(),
{
    if windows.len() == 0 {
        Seq::empty()
    } else {
        let before = window_jobs(windows.drop_last(), ipts, config, info, seen, images);
        let i = (windows.len() - 1) as usize;
        let w = windows.last();
        match norm::window_plan(i, w.1, w.0, ipts, config, info, seen, images) {
            Ok(job) => if w.2 is Running {
                before
            } else {
                before.push(job)
            },
            Err(_) => before,
        }
    }
}

/// Is a job launched for this target when the windows are launched?
pub open spec fn launches(
    windows: Seq<WindowView>,
    target: JobTarget,
    ipts: Text,
    config: Text,
    info: h5::Info,
    seen: files::Seen,
    images: Seq<(String, usize)>,
) -> bool {
    match target {
        JobTarget::Window(i) => {
            &&& i < windows.len()
            &&& !(windows[i as int].2 is Running)
            &&& norm::window_plan(
                i,
                windows[i as int].1,
                windows[i as int].0,
                ipts,
                config,
                info,
                seen,
                images,
            ) is Ok
        },
        JobTarget::Run(_) => false,
    }
}

pub open spec fn job_views(v: Seq<JobSpec>) -> Seq<Job> {
    v.map_values(|j: JobSpec| j@)
}

/// Launch the combine normalization of every window that has runs and
/// is not already running. `seen` is what was seen on disk of the windows'
/// runs, `images` the numbers of TIFFs of the folders the jobs read. Gives
/// the jobs to launch; the output lines of their targets start anew.
pub fn launch_windows(
    board: &mut Board,
    ipts_path: &str,
    config: &str,
    info: &ConfigInfo,
    seen: &files::Seen,
    images: &Images,
) -> (r: Vec<JobSpec>)
    ensures
        job_views(r@) == window_jobs(
            old(board).windows(),
            ipts_path@,
            config@,
            info@,
            *seen,
            images@,
        ),
        final(board).windows().len() == old(board).windows().len(),
        forall|i: int|
            0 <= i < old(board).windows().len() ==> #[trigger] final(board).windows()[i] == launched(
                i as usize,
                old(board).windows()[i],
                ipts_path@,
                config@,
                info@,
                *seen,
                images@,
            ),
        final(board).jobs() == old(board).jobs(),
        final(board).queue() == old(board).queue(),
        final(board).retried() == old(board).retried(),
        final(board).parallel() == old(board).parallel(),
        forall|t: JobTarget| #[trigger]
            final(board).output(t) == (if launches(
                old(board).windows(),
                t,
                ipts_path@,
                config@,
                info@,
                *seen,
                images@,
            ) {
                Seq::empty()
            } else {
                old(board).output(t)
            }),
{
    let n: usize = board.window_list().len();
    let ghost ws = board.windows();
    let mut out: Vec<JobSpec> = Vec::new();
    let mut i: usize = 0;
    assert(job_views(out@) =~= window_jobs(
        ws.take(0),
        ipts_path@,
        config@,
        info@,
        *seen,
        images@,
    ));
    while i < n
        invariant
            i <= n == ws.len(),
            ws == old(board).windows(),
            board.windows().len() == n,
            forall|k: int|
                0 <= k < i ==> #[trigger] board.windows()[k] == launched(
                    k as usize,
                    ws[k],
                    ipts_path@,
                    config@,
                    info@,
                    *seen,
                    images@,
                ),
            forall|k: int| i <= k < n ==> #[trigger] board.windows()[k] == ws[k],
            job_views(out@) == window_jobs(
                ws.take(i as int),
                ipts_path@,
                config@,
                info@,
                *seen,
                images@,
            ),
            board.jobs() == old(board).jobs(),
            board.queue() == old(board).queue(),
            board.retried() == old(board).retried(),
            board.parallel() == old(board).parallel(),
            forall|t: JobTarget| #[trigger]
                board.output(t) == (if launches(
                    ws.take(i as int),
                    t,
                    ipts_path@,
                    config@,
                    info@,
                    *seen,
                    images@,
                ) {
                    Seq::empty()
                } else {
                    old(board).output(t)
                }),
        decreases n - i,
    {
        proof {
            assert(ws.take(i + 1).drop_last() =~= ws.take(i as int));
            assert(ws.take(i + 1).last() == ws[i as int]);
            assert(board.windows()[i as int] == ws[i as int]);
        }
        let ghost before = board.windows();
        let ghost board_before = *board;
        let (is_running, prepared) = {
            let w = &board.window_list()[i];
            if w.state.is_running() {
                (true, Err(String::new()))
            } else {
                (
                    false,
                    norm::prepare_job(i, w, ipts_path, config, info, seen, images),
                )
            }
        };
        if !is_running {
            let ghost o = out@;
            match start_window_job(board, i, prepared) {
                Some(spec) => {
                    out.push(spec);
                    assert(job_views(out@) =~= job_views(o).push(spec@));
                },
                None => {},
            }
            assert forall|k: int| 0 <= k < n && k != i implies #[trigger] board.windows()[k] == before[k] by {}
        }
        assert forall|t: JobTarget| #[trigger] board.output(t) == (if launches(
            ws.take(i + 1),
            t,
            ipts_path@,
            config@,
            info@,
            *seen,
            images@,
        ) {
            Seq::empty()
        } else {
            old(board).output(t)
        }) by {
            assert(board_before.output(t) == (if launches(
                ws.take(i as int),
                t,
                ipts_path@,
                config@,
                info@,
                *seen,
                images@,
            ) {
                Seq::empty()
            } else {
                old(board).output(t)
            }));
            if t == JobTarget::Window(i) && board.output(t).len() == 0 {
                assert(board.output(t) =~= Seq::empty());
            }
        }
        i = i + 1;
    }
    assert(ws.take(i as int) =~= ws);
    out
}

/// The configuration of the windows cannot be read: every window tells.
pub fn fail_windows(board: &mut Board, message: &str)
    ensures
        final(board).windows() == old(board).windows().map_values(
            |w: WindowView| (w.0, w.1, Phase::Failed { message: message@, log: None }),
        ),
        final(board).jobs() == old(board).jobs(),
        final(board).queue() == old(board).queue(),
        final(board).retried() == old(board).retried(),
        final(board).parallel() == old(board).parallel(),
        final(board).same_output(old(board)),
{
    let n: usize = board.window_list().len();
    let ghost ws = old(board).windows();
    let ghost failed = Phase::Failed { message: message@, log: None };
    let mut i: usize = 0;
    while i < n
        invariant
            i <= n == ws.len(),
            ws == old(board).windows(),
            failed == (Phase::Failed { message: message@, log: None }),
            board.windows().len() == n,
            forall|k: int| 0 <= k < i ==> #[trigger] board.windows()[k] == (ws[k].0, ws[k].1, failed),
            forall|k: int| i <= k < n ==> #[trigger] board.windows()[k] == ws[k],
            board.jobs() == old(board).jobs(),
            board.queue() == old(board).queue(),
            board.retried() == old(board).retried(),
            board.parallel() == old(board).parallel(),
            board.same_output(old(board)),
        decreases n - i,
    {
        board.set_window(i, JobState::Failed { message: message.to_owned(), log: None });
        i = i + 1;
    }
    assert(board.windows() =~= ws.map_values(
        |w: WindowView| (w.0, w.1, Phase::Failed { message: message@, log: None }),
    ));
}

// ---------------------------------------------------------------------
// Applying a run's settings

/// What follows when a run's settings were applied.
pub enum AfterApply {
    /// The run is being normalized: the settings apply to its next run.
    Nothing,
    /// The run is to be normalized now.
    Request,
    /// What was found of the run is dropped, and looked up again.
    LookUp,
}

/// What follows when a run's settings were applied: `run_now` tells whether
/// the run was to be normalized at once.
pub open spec fn after_apply(running: bool, run_now: bool, corrected_ready: bool) -> AfterApply {
    if running {
        AfterApply::Nothing
    } else if run_now && corrected_ready {
        AfterApply::Request
    } else {
        AfterApply::LookUp
    }
}

/// The settings of a run were applied: either normalize the run now — only
/// once its corrected data is complete — or let the automatic pass / the
/// ▶ normalize button use the new settings. A result found on disk with the
/// old settings is looked up again.
pub fn apply_run(
    board: &mut Board,
    metas: &mut RunMap<RunMeta>,
    rows: &Vec<RunFiles>,
    run: u64,
    run_now: bool,
) -> (r: AfterApply)
    ensures
        r == after_apply(
            jobs::running(old(board).jobs()).contains(run),
            run_now,
            corrected_or_why(files::statuses(rows@), run) is Ok,
        ),
        final(board).windows() == old(board).windows(),
        final(board).jobs() == (if r is LookUp {
            old(board).jobs().remove(run)
        } else {
            old(board).jobs()
        }),
        final(board).queue() == old(board).queue(),
        final(board).retried() == old(board).retried(),
        final(board).parallel() == old(board).parallel(),
        final(board).same_output(old(board)),
        final(metas)@ == (if r is LookUp {
            old(metas)@.remove(run)
        } else {
            old(metas)@
        }),
{
    let is_running = match board.job(run) {
        Some(state) => state.is_running(),
        None => false,
    };
    if is_running {
        return AfterApply::Nothing;
    }
    let ready = match find_row(rows, run) {
        Some(row) => match &row.corrected {
            FileStatus::Present(_) => true,
            _ => false,
        },
        None => false,
    };
    if run_now && ready {
        AfterApply::Request
    } else {
        board.forget(run);
        let _ = metas.remove(run);
        AfterApply::LookUp
    }
}

/// Another configuration was picked for a run: what was found of it is looked
/// up again — the other configuration may keep its results elsewhere — unless
/// it is being normalized (the new file then applies to its next run). Tells
/// whether it was dropped.
pub fn repick(board: &mut Board, metas: &mut RunMap<RunMeta>, run: u64) -> (r: bool)
    ensures
        r == !jobs::running(old(board).jobs()).contains(run),
        final(board).windows() == old(board).windows(),
        final(board).jobs() == (if r {
            old(board).jobs().remove(run)
        } else {
            old(board).jobs()
        }),
        final(board).queue() == old(board).queue(),
        final(board).retried() == old(board).retried(),
        final(board).parallel() == old(board).parallel(),
        final(board).same_output(old(board)),
        final(metas)@ == (if r {
            old(metas)@.remove(run)
        } else {
            old(metas)@
        }),
{
    let is_running = match board.job(run) {
        Some(state) => state.is_running(),
        None => false,
    };
    if !is_running {
        board.forget(run);
        let _ = metas.remove(run);
    }
    !is_running
}

/// Where a run's result goes with the current settings (configuration
/// + the row's overrides): the two places to look at, from the contents of
/// the run's configuration.
pub fn planned_places(
    plan: &Settings,
    run: u64,
    ipts_path: &str,
    corrected: Option<&str>,
    info: &ConfigInfo,
) -> (r: (String, String))
    ensures
        ({
            let own = settings::with_own(info@, settings::override_of(plan@.overrides, run));
            let base = norm::base_of(ipts_path@, own.output_folder);
            &&& r.0@ == norm::result_of(base, norm::row_name(run, text::opt_str(corrected)))
            &&& r.1@ == norm::result_of(base, norm::run_folder(run))
        }),
{
    let own = plan.effective_info(run, info);
    norm::run_output_places(ipts_path, run, corrected, &own)
}

/// Where a run's result goes with the current settings, from the entries at
/// the two places of [`planned_places`].
pub fn planned_output(
    plan: &Settings,
    run: u64,
    ipts_path: &str,
    corrected: Option<&str>,
    info: &ConfigInfo,
    fresh: &Vec<String>,
    legacy: &Vec<String>,
) -> (r: String)
    ensures
        ({
            let own = settings::with_own(info@, settings::override_of(plan@.overrides, run));
            r@ == norm::run_output(
                norm::base_of(ipts_path@, own.output_folder),
                run,
                text::opt_str(corrected),
                norm::done(text::texts(fresh@)),
                norm::done(text::texts(legacy@)),
            )
        }),
{
    let own = plan.effective_info(run, info);
    norm::run_output_dir(ipts_path, run, corrected, &own, fresh, legacy)
}

// ---------------------------------------------------------------------
// Laws

/// The pass never starts a run that was there when it started watching, a
/// rejected run, or one past the cap.
pub proof fn the_pass_starts_only_new_runs(
    run: u64,
    from: Option<u64>,
    live: Option<bool>,
    newest: u64,
    rejected: Seq<u64>,
    jobs: Phases,
    parallel: usize,
)
    requires
        jobs.dom().finite(),
        from is None,
        may_start(
            run,
            armed_from(from, live, newest),
            rejected,
            jobs::running(jobs).len() < jobs::cap(parallel),
        ),
    ensures
        live == Some(true),
        run > newest,
        !rejected.contains(run),
        jobs::running(jobs.insert(run, norm::starting(seq![run]))).len() <= jobs::cap(parallel),
{
    jobs::starts_keep_the_cap(jobs, run, norm::starting(seq![run]), parallel);
}

/// A run whose corrected data was complete when the pass was armed is not
/// new: only a request normalizes it.
pub proof fn corrected_runs_are_old_news(rows: Seq<RunFiles<Text>>, i: int, rejected: Seq<u64>)
    requires
        0 <= i < rows.len(),
        rows[i].corrected is Present,
    ensures
        !may_start(
            rows[i].run,
            armed_from(None, Some(true), newest_corrected(rows)),
            rejected,
            true,
        ),
{
    lemma_newest_corrected(rows, i);
}

proof fn lemma_newest_corrected(rows: Seq<RunFiles<Text>>, i: int)
    requires
        0 <= i < rows.len(),
        rows[i].corrected is Present,
    ensures
        rows[i].run <= newest_corrected(rows),
    decreases rows.len(),
{
    if i < rows.len() - 1 {
        assert(rows.drop_last()[i] == rows[i]);
        lemma_newest_corrected(rows.drop_last(), i);
    }
}

// ---------------------------------------------------------------------
// One run of the pass

/// The configuration file of a pending run was read, or could not be: what it
/// holds is kept where the run does not follow the selection, and the problem
/// is surfaced on the run that needs the file. Tells whether there is
/// something to go by.
pub fn take_reading(
    board: &mut Board,
    plan: &mut Settings,
    run: u64,
    config: &str,
    read: &Result<ConfigInfo, String>,
) -> (r: bool)
    ensures
        r == read is Ok,
        final(board).windows() == old(board).windows(),
        final(board).queue() == old(board).queue(),
        final(board).retried() == old(board).retried(),
        final(board).parallel() == old(board).parallel(),
        final(board).same_output(old(board)),
        final(plan)@ == (Plan { infos: final(plan)@.infos, ..old(plan)@ }),
        match *read {
            Ok(info) => {
                &&& final(board).jobs() == old(board).jobs()
                &&& forall|c: Text| #[trigger]
                    settings::info_in(final(plan)@.infos, c, 0) == if paths::same_path(c, config@)
                        && !settings::same_choice(Some(config@), old(plan)@.selected) {
                        Some(info@)
                    } else {
                        settings::info_in(old(plan)@.infos, c, 0)
                    }
            },
            Err(message) => {
                &&& final(board).jobs() == old(board).jobs().insert(
                    run,
                    Phase::Failed { message: message@, log: None },
                )
                &&& final(plan)@ == old(plan)@
            },
        },
{
    match read {
        Ok(info) => {
            if !settings::same_chosen(Some(config), plan.selected()) {
                plan.keep_info(config, info.copy());
            }
            true
        },
        Err(message) => {
            unreadable(board, run, message.clone());
            false
        },
    }
}

/// What lies at a place where a result may lie.
pub struct Place {
    /// The names of its entries, none where there is nothing.
    pub names: Vec<String>,
    /// The text of the job log next to it, if it can be read.
    pub log: Option<String>,
    /// When it was last written.
    pub finished: String,
}

impl Place {
    /// Does a finished result lie there?
    pub open spec fn holds_result(&self) -> bool {
        norm::done(text::texts(self.names@))
    }

    /// What the result there was launched with, as its log tells.
    pub open spec fn launch(&self) -> Option<Launch> {
        match self.log {
            Some(log) => norm::last_launch(text::lines_of(log@)),
            None => None,
        }
    }
}

/// What a look at a run leaves behind: the jobs, what they were launched
/// with, and the job to launch.
pub struct Looked {
    pub jobs: Phases,
    pub metas: Map<u64, Meta>,
    pub launched: Option<Job>,
}

/// The result at `output` is already there: never redone.
pub open spec fn found(
    jobs: Phases,
    metas: Map<u64, Meta>,
    run: u64,
    runs: Seq<u64>,
    output: Text,
    place: Place,
) -> Looked {
    Looked {
        jobs: jobs.insert(run, Phase::Done { output, finished: place.finished@, runs }),
        metas: metas.insert(run, meta_of_result(place.launch(), output)),
        launched: None,
    }
}

/// A job is started for the run, or it is noted why there is none.
pub open spec fn started(
    jobs: Phases,
    metas: Map<u64, Meta>,
    run: u64,
    plan: Result<Job, Text>,
) -> Looked {
    match plan {
        Ok(job) => Looked {
            jobs: jobs.insert(run, norm::starting(job.runs)),
            metas: metas.insert(run, meta_of_job(job)),
            launched: Some(job),
        },
        Err(message) => Looked {
            jobs: jobs.insert(run, Phase::Failed { message, log: None }),
            metas: metas.remove(run),
            launched: None,
        },
    }
}

/// The place of a run's own result: the one of its row, or the legacy one.
pub open spec fn own_place(
    ipts: Text,
    run: u64,
    corrected: Option<Text>,
    own: h5::Info,
    fresh: Place,
    legacy: Place,
) -> (Text, Place) {
    let base = norm::base_of(ipts, own.output_folder);
    let output = norm::run_output(
        base,
        run,
        corrected,
        fresh.holds_result(),
        legacy.holds_result(),
    );
    if output == norm::result_of(base, norm::row_name(run, corrected)) {
        (output, fresh)
    } else {
        (output, legacy)
    }
}

pub open spec fn ok_part(r: Result<Text, Text>) -> Option<Text> {
    match r {
        Ok(s) => Some(s),
        Err(_) => None,
    }
}

/// What the pass makes of a pending run that is normalized on its own, given
/// what its configuration holds and what lies at the two places of its
/// result.
pub open spec fn looked_at(
    before: Looked,
    rows: Seq<RunFiles<Text>>,
    plan: Plan,
    run: u64,
    ipts: Text,
    config: Text,
    info: h5::Info,
    fresh: Place,
    legacy: Place,
    images: Seq<(String, usize)>,
    starts: bool,
) -> Looked {
    let own = settings::with_own(info, settings::override_of(plan.overrides, run));
    let corrected = corrected_or_why(rows, run);
    let (output, place) = own_place(ipts, run, ok_part(corrected), own, fresh, legacy);
    if place.holds_result() {
        found(before.jobs, before.metas, run, seq![run], output, place)
    } else if starts && corrected is Ok {
        started(
            before.jobs,
            before.metas,
            run,
            own_run_plan(
                rows,
                plan,
                run,
                ipts,
                config,
                info,
                images,
                fresh.holds_result(),
                legacy.holds_result(),
            ),
        )
    } else {
        before
    }
}

pub open spec fn opt_job(spec: Option<JobSpec>) -> Option<Job> {
    match spec {
        Some(s) => Some(s@),
        None => None,
    }
}

/// Look at a pending run that is normalized on its own: mark it done where
/// its result is there already, start it where it landed after the pass
/// started watching, is not rejected, a slot is free and its corrected data
/// is complete, and leave it to the next pass otherwise. `fresh` and `legacy`
/// are what lies at the two places of [`planned_places`], `images` the
/// numbers of TIFFs of the folders a job would read. Gives the job to launch.
pub fn visit_run(
    board: &mut Board,
    metas: &mut RunMap<RunMeta>,
    rows: &Vec<RunFiles>,
    plan: &Settings,
    from: Option<u64>,
    rejected: &Vec<u64>,
    run: u64,
    ipts_path: &str,
    config: &str,
    info: &ConfigInfo,
    fresh: &Place,
    legacy: &Place,
    images: &Images,
) -> (r: Option<JobSpec>)
    ensures
        final(board).windows() == old(board).windows(),
        final(board).queue() == old(board).queue(),
        final(board).retried() == old(board).retried(),
        final(board).parallel() == old(board).parallel(),
        (Looked {
            jobs: final(board).jobs(),
            metas: metas_of(final(metas)@),
            launched: opt_job(r),
        }) == looked_at(
            (Looked { jobs: old(board).jobs(), metas: metas_of(old(metas)@), launched: None }),
            files::statuses(rows@),
            plan@,
            run,
            ipts_path@,
            config@,
            info@,
            *fresh,
            *legacy,
            images@,
            may_start(run, from, rejected@, old(board).free_slot()),
        ),
        r is None ==> final(board).same_output(old(board)),
        r is Some ==> {
            &&& final(board).output(JobTarget::Run(run)).len() == 0
            &&& forall|t: JobTarget|
                t != JobTarget::Run(run) ==> #[trigger] final(board).output(t) == old(board).output(
                    t,
                )
        },
{
    let corrected = match corrected_folder(rows, run) {
        Ok(folder) => Some(folder),
        Err(_) => None,
    };
    let known = match &corrected {
        Some(folder) => Some(folder.as_str()),
        None => None,
    };
    let (at_row, _) = planned_places(plan, run, ipts_path, known, info);
    let output = planned_output(
        plan,
        run,
        ipts_path,
        known,
        info,
        &fresh.names,
        &legacy.names,
    );
    let place = if text::same(output.as_str(), at_row.as_str()) {
        fresh
    } else {
        legacy
    };
    let log = match &place.log {
        Some(l) => Some(l.as_str()),
        None => None,
    };
    let mut runs: Vec<u64> = Vec::new();
    runs.push(run);
    assert(runs@ =~= seq![run]);
    let start = settle_run(
        board,
        metas,
        run,
        &runs,
        output.as_str(),
        &place.names,
        log,
        place.finished.as_str(),
        from,
        rejected,
    );
    if start {
        start_run_job(
            board,
            metas,
            rows,
            plan,
            from,
            run,
            ipts_path,
            config,
            info,
            images,
            &fresh.names,
            &legacy.names,
        )
    } else {
        None
    }
}

/// A result that is already there, at the place of the run's row or at the
/// legacy one, is never redone: a look at its run launches nothing and shows
/// it as done. (Without corrected data the two places are one.)
pub proof fn results_are_never_redone(
    before: Looked,
    rows: Seq<RunFiles<Text>>,
    plan: Plan,
    run: u64,
    ipts: Text,
    config: Text,
    info: h5::Info,
    fresh: Place,
    legacy: Place,
    images: Seq<(String, usize)>,
    starts: bool,
)
    requires
        fresh.holds_result() || legacy.holds_result(),
        norm::row_name(run, ok_part(corrected_or_why(rows, run))) == norm::run_folder(run) ==> fresh
            == legacy,
        before.launched is None,
    ensures
        ({
            let after = looked_at(
                before,
                rows,
                plan,
                run,
                ipts,
                config,
                info,
                fresh,
                legacy,
                images,
                starts,
            );
            after.launched is None && after.jobs[run] is Done
        }),
{
    let own = settings::with_own(info, settings::override_of(plan.overrides, run));
    let corrected = ok_part(corrected_or_why(rows, run));
    let base = norm::base_of(ipts, own.output_folder);
    norm::rows_lie_apart(base, run, corrected);
}

/// The pass launches a job only where one may start, from complete corrected
/// data, and leaves every other run as it is.
pub proof fn passes_touch_one_run(
    before: Looked,
    rows: Seq<RunFiles<Text>>,
    plan: Plan,
    run: u64,
    ipts: Text,
    config: Text,
    info: h5::Info,
    fresh: Place,
    legacy: Place,
    images: Seq<(String, usize)>,
    starts: bool,
    other: u64,
)
    requires
        before.launched is None,
        other != run,
    ensures
        ({
            let after = looked_at(
                before,
                rows,
                plan,
                run,
                ipts,
                config,
                info,
                fresh,
                legacy,
                images,
                starts,
            );
            &&& after.launched is Some ==> starts && corrected_or_why(rows, run) is Ok
            &&& after.jobs.dom().contains(other) == before.jobs.dom().contains(other)
            &&& after.jobs.dom().contains(other) ==> after.jobs[other] == before.jobs[other]
            &&& after.metas.dom().contains(other) == before.metas.dom().contains(other)
            &&& after.metas.dom().contains(other) ==> after.metas[other] == before.metas[other]
        }),
{
}

} // verus!
