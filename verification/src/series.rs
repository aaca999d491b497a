//! Consecutive runs of one series, normalized together.

use vstd::prelude::*;
use crate::clock::Moment;
use crate::files::{FileStatus, RunFiles};
use crate::h5::{ConfigInfo, Info, RunKind};
use crate::jobs::Board;
use crate::laws::prepared;
use crate::norm::{Images, Job, JobSpec, JobTarget, SUMMARY_LOG};
use crate::pass::{Looked, Place, RunMeta};
use crate::runmap::RunMap;
use crate::text::{chars_of, slice, Class, Text};
use crate::{beams, clock, files, labels, norm, number, order, pass, paths, text};

verus! {

// ---------------------------------------------------------------------
// Which runs belong together

/// What is known of a run when a series is looked for.
pub struct RunFacts {
    pub run: u64,
    pub kind: RunKind,
    pub rejected: bool,
    /// The name of its corrected folder; `None` while the folder or the
    /// NeXus file cannot be read.
    pub folder_name: Option<String>,
    /// How long it was acquired for, in milliseconds.
    pub duration: Option<u64>,
    /// Its proton charge, in whole units of the log.
    pub charge: Option<u64>,
}

/// What is known of a run.
pub struct Facts {
    pub run: u64,
    pub kind: RunKind,
    pub rejected: bool,
    pub folder_name: Option<Text>,
    pub duration: Option<u64>,
    pub charge: Option<u64>,
}

impl View for RunFacts {
    type V = Facts;

    open spec fn view(&self) -> Facts {
        Facts {
            run: self.run,
            kind: self.kind,
            rejected: self.rejected,
            folder_name: text::opt_text(self.folder_name),
            duration: self.duration,
            charge: self.charge,
        }
    }
}

pub open spec fn facts_views(v: Seq<RunFacts>) -> Seq<Facts> {
    v.map_values(|f: RunFacts| f@)
}

/// Do two numbers differ by no more than 2 % of the larger?
pub open spec fn close(a: u64, b: u64) -> bool {
    if a <= b {
        (b - a) * 50 <= b
    } else {
        (a - b) * 50 <= a
    }
}

pub open spec fn both_close(a: Option<u64>, b: Option<u64>) -> bool {
    a is Some && b is Some && close(a->0, b->0)
}

fn are_close(a: Option<u64>, b: Option<u64>) -> (r: bool)
    ensures
        r == both_close(a, b),
{
    match (a, b) {
        (Some(x), Some(y)) => {
            let (low, high) = if x <= y {
                (x, y)
            } else {
                (y, x)
            };
            (high - low) as u128 * 50 <= high as u128
        },
        _ => false,
    }
}

/// Were two runs acquired with the same settings: the same acquisition name
/// (title, sample-environment setpoint and chopper setting), the same
/// starting wavelength, and the same acquisition time or the same proton
/// charge (a run is acquired for a set time or a set charge, and the other
/// one follows the beam)?
pub open spec fn same_settings(a: Facts, b: Facts) -> bool {
    &&& a.folder_name is Some && b.folder_name is Some
    &&& files::acquisition(a.folder_name->0) is Some
    &&& files::acquisition(a.folder_name->0) == files::acquisition(b.folder_name->0)
    &&& files::wavelength(a.folder_name->0) == files::wavelength(b.folder_name->0)
    &&& both_close(a.duration, b.duration) || both_close(a.charge, b.charge)
}

fn same_opt(a: &Option<String>, b: &Option<String>) -> (r: bool)
    ensures
        r == (text::opt_text(*a) == text::opt_text(*b)),
{
    match (a, b) {
        (Some(x), Some(y)) => text::same(x.as_str(), y.as_str()),
        (None, None) => true,
        _ => false,
    }
}

pub fn have_same_settings(a: &RunFacts, b: &RunFacts) -> (r: bool)
    ensures
        r == same_settings(a@, b@),
{
    match (&a.folder_name, &b.folder_name) {
        (Some(x), Some(y)) => {
            let p = files::acquisition_name(x.as_str());
            let q = files::acquisition_name(y.as_str());
            let v = files::starting_wavelength_in_name(x.as_str());
            let w = files::starting_wavelength_in_name(y.as_str());
            p.is_some() && same_opt(&p, &q) && same_opt(&v, &w) && (are_close(
                a.duration,
                b.duration,
            ) || are_close(a.charge, b.charge))
        },
        _ => false,
    }
}

/// Open-beam, alignment and rejected runs neither join nor break a series.
pub open spec fn passed_over(f: Facts) -> bool {
    f.kind != RunKind::Sample || f.rejected
}

/// The runs right before the run `next` that were acquired with the settings
/// of `last`, up to the first run with others (or that cannot be read yet):
/// a gap in the run numbers, too, stands for runs that cannot be read yet.
pub open spec fn runs_before(before: Seq<Facts>, next: u64, last: Facts) -> Seq<u64>
    decreases before.len(),
{
    if before.len() == 0 {
        Seq::empty()
    } else {
        let f = before.last();
        if f.run + 1 != next {
            Seq::empty()
        } else if passed_over(f) {
            runs_before(before.drop_last(), f.run, last)
        } else if same_settings(f, last) {
            runs_before(before.drop_last(), f.run, last).push(f.run)
        } else {
            Seq::empty()
        }
    }
}

/// The runs that a run is normalized together with: the consecutive runs
/// before it acquired with the same settings, and itself.
pub open spec fn series(facts: Seq<Facts>, i: int) -> Seq<u64> {
    runs_before(facts.take(i), facts[i].run, facts[i]).push(facts[i].run)
}

/// Every new sample run is normalized together with the consecutive runs
/// before it acquired with the same settings, until a run with other
/// settings (or one that cannot be read yet, listed or not) starts a new
/// series. `facts` are in the order of the runs.
pub fn series_of(facts: &Vec<RunFacts>, i: usize) -> (r: Vec<u64>)
    requires
        i < facts@.len(),
    ensures
        r@ == series(facts_views(facts@), i as int),
{
    let ghost fs = facts_views(facts@);
    let last = &facts[i];
    let ghost all = runs_before(fs.take(i as int), last.run, last@);
    let mut back: Vec<u64> = Vec::new();
    let mut next: u64 = last.run;
    let mut j: usize = i;
    assert(fs[i as int] == last@);
    assert(back@.reverse() =~= Seq::empty());
    assert(all + back@.reverse() =~= all);
    if j == 0 {
        assert(fs.take(0) =~= Seq::empty());
    }
    while j > 0
        invariant
            j <= i < facts@.len(),
            fs == facts_views(facts@),
            last@ == fs[i as int],
            all == runs_before(fs.take(j as int), next, last@) + back@.reverse(),
            j == 0 ==> all == back@.reverse(),
        ensures
            all == back@.reverse(),
        decreases j,
    {
        proof {
            assert(fs.take(j as int).drop_last() =~= fs.take(j - 1));
            assert(fs.take(j as int).last() == facts@[j - 1]@);
        }
        let f = &facts[j - 1];
        if f.run == u64::MAX || f.run + 1 != next {
            assert(Seq::<u64>::empty() + back@.reverse() =~= back@.reverse());
            break;
        }
        let over = f.kind != RunKind::Sample || f.rejected;
        if !over {
            if !have_same_settings(f, last) {
                assert(Seq::<u64>::empty() + back@.reverse() =~= back@.reverse());
                break;
            }
            let ghost inner = runs_before(fs.take(j - 1), f.run, last@);
            let ghost b = back@;
            back.push(f.run);
            assert(back@.reverse() =~= seq![f.run] + b.reverse());
            assert(inner.push(f.run) + b.reverse() =~= inner + back@.reverse());
        }
        next = f.run;
        j = j - 1;
        if j == 0 {
            assert(fs.take(0) =~= Seq::empty());
            assert(Seq::<u64>::empty() + back@.reverse() =~= back@.reverse());
        }
    }
    let mut out: Vec<u64> = Vec::new();
    let n: usize = back.len();
    let mut k: usize = 0;
    while k < n
        invariant
            k <= n == back@.len(),
            out@ =~= back@.reverse().take(k as int),
        decreases n - k,
    {
        out.push(back[n - 1 - k]);
        k = k + 1;
    }
    assert(back@.reverse().take(n as int) =~= back@.reverse());
    out.push(last.run);
    out
}

/// A series ends with the run itself; the others were acquired with its
/// settings, and are neither rejected nor alignment or open-beam runs.
pub proof fn series_share_settings(facts: Seq<Facts>, i: int, run: u64)
    requires
        0 <= i < facts.len(),
        series(facts, i).contains(run),
    ensures
        series(facts, i).last() == facts[i].run,
        run == facts[i].run || exists|j: int|
            0 <= j < i && (#[trigger] facts[j]).run == run && !passed_over(facts[j]) && same_settings(
                facts[j],
                facts[i],
            ),
{
    let all = series(facts, i);
    let before = runs_before(facts.take(i), facts[i].run, facts[i]);
    let k = choose|k: int| 0 <= k < all.len() && all[k] == run;
    if k < before.len() {
        assert(before[k] == run);
        lemma_before(facts.take(i), facts[i].run, facts[i], run);
        let j = choose|j: int|
            0 <= j < facts.take(i).len() && (#[trigger] facts.take(i)[j]).run == run && !passed_over(
                facts.take(i)[j],
            ) && same_settings(facts.take(i)[j], facts[i]);
        assert(facts[j] == facts.take(i)[j]);
    }
}

proof fn lemma_before(before: Seq<Facts>, next: u64, last: Facts, run: u64)
    requires
        runs_before(before, next, last).contains(run),
    ensures
        exists|j: int|
            0 <= j < before.len() && (#[trigger] before[j]).run == run && !passed_over(before[j])
                && same_settings(before[j], last),
    decreases before.len(),
{
    if before.len() > 0 {
        let f = before.last();
        let rest = before.drop_last();
        let all = runs_before(before, next, last);
        let inner = runs_before(rest, f.run, last);
        let k = choose|k: int| 0 <= k < all.len() && all[k] == run;
        assert(before[before.len() - 1] == f);
        if passed_over(f) || k < inner.len() {
            assert(inner[k] == run);
            assert(inner.contains(run));
            lemma_before(rest, f.run, last, run);
            let j = choose|j: int|
                0 <= j < rest.len() && (#[trigger] rest[j]).run == run && !passed_over(rest[j])
                    && same_settings(rest[j], last);
            assert(before[j] == rest[j]);
        }
    }
}

/// A rejected, alignment or open-beam run between two runs neither joins nor
/// breaks a series: the later run's series reaches back over it.
pub proof fn passed_over_runs_do_not_break_a_series(
    before: Seq<Facts>,
    f: Facts,
    next: u64,
    last: Facts,
)
    requires
        passed_over(f),
        f.run + 1 == next,
    ensures
        runs_before(before.push(f), next, last) == runs_before(before, f.run, last),
{
    assert(before.push(f).drop_last() =~= before);
}

/// The runs of a series are consecutive: every run from one of them to the
/// last is listed, and is itself of the series or passed over.
pub proof fn series_are_consecutive(facts: Seq<Facts>, i: int, run: u64, between: u64)
    requires
        0 <= i < facts.len(),
        series(facts, i).contains(run),
        run <= between <= facts[i].run,
    ensures
        exists|j: int|
            0 <= j <= i && (#[trigger] facts[j]).run == between && (passed_over(facts[j]) || series(
                facts,
                i,
            ).contains(between)),
{
    let all = series(facts, i);
    let before = runs_before(facts.take(i), facts[i].run, facts[i]);
    let k = choose|k: int| 0 <= k < all.len() && all[k] == run;
    if between == facts[i].run {
        assert(all[all.len() - 1] == between);
    } else {
        assert(k < before.len());
        assert(before[k] == run);
        lemma_no_gap(facts.take(i), facts[i].run, facts[i], run, between);
        let j = choose|j: int|
            0 <= j < facts.take(i).len() && (#[trigger] facts.take(i)[j]).run == between && (
            passed_over(facts.take(i)[j]) || before.contains(between));
        assert(facts[j] == facts.take(i)[j]);
        if before.contains(between) {
            let m = choose|m: int| 0 <= m < before.len() && before[m] == between;
            assert(all[m] == between);
        }
    }
}

proof fn lemma_no_gap(before: Seq<Facts>, next: u64, last: Facts, run: u64, between: u64)
    requires
        runs_before(before, next, last).contains(run),
        run <= between < next,
    ensures
        exists|j: int|
            0 <= j < before.len() && (#[trigger] before[j]).run == between && (passed_over(
                before[j],
            ) || runs_before(before, next, last).contains(between)),
    decreases before.len(),
{
    if before.len() > 0 {
        let f = before.last();
        let rest = before.drop_last();
        let all = runs_before(before, next, last);
        let inner = runs_before(rest, f.run, last);
        let k = choose|k: int| 0 <= k < all.len() && all[k] == run;
        assert(before[before.len() - 1] == f);
        if between == f.run {
            if !passed_over(f) {
                assert(all[all.len() - 1] == between);
            }
        } else {
            assert(k < inner.len());
            assert(inner[k] == run);
            lemma_no_gap(rest, f.run, last, run, between);
            let j = choose|j: int|
                0 <= j < rest.len() && (#[trigger] rest[j]).run == between && (passed_over(
                    rest[j],
                ) || inner.contains(between));
            assert(before[j] == rest[j]);
            if inner.contains(between) {
                let m = choose|m: int| 0 <= m < inner.len() && inner[m] == between;
                assert(all[m] == between);
            }
        }
    }
}

// ---------------------------------------------------------------------
// Where the combined result goes

/// `Run_<first>_to_<last>` in the name of the first run's folder.
pub open spec fn combined_name(first_name: Text, last: u64) -> Text {
    match text::find(first_name, "Run_"@) {
        Some(i) => {
            let e = text::run_end(first_name, Class::Digit, i + 4);
            first_name.take(e) + "_to_"@ + number::decimal(last as nat) + first_name.skip(e)
        },
        None => first_name + "_to_"@ + number::decimal(last as nat),
    }
}

/// The name of a combined result's folder: the first run's folder name with
/// `Run_<first>_to_<last>`
/// (`20260921_Run_30340_to_30342_reptRib_…_0`).
pub fn combined_row_name(first_name: &str, last: u64) -> (r: String)
    ensures
        r@ == combined_name(first_name@, last),
{
    let n = number::decimal_text(last);
    let v = chars_of(first_name);
    let count: usize = v.len();
    let pat = chars_of("Run_");
    proof {
        reveal_strlit("Run_");
        text::find_is_the_first(first_name@, "Run_"@);
    }
    match text::find_chars(&v, &pat) {
        Some(i) => {
            assert(i + 4 <= count);
            let e = text::end_of_run(&v, Class::Digit, i + 4);
            let head = slice(&v, 0, e);
            let tail = slice(&v, e, v.len());
            assert(head@ =~= first_name@.take(e as int));
            assert(tail@ =~= first_name@.skip(e as int));
            text::cat4(head.as_str(), "_to_", n.as_str(), tail.as_str())
        },
        None => text::cat3(first_name, "_to_", n.as_str()),
    }
}

/// The folder of a combined result still carries the first run's number.
pub proof fn combined_names_carry_the_first_run(first_name: Text, last: u64)
    requires
        files::run_in_name(first_name) is Some,
    ensures
        files::run_in_name(combined_name(first_name, last)) == files::run_in_name(first_name),
{
    reveal_strlit("Run_");
    reveal_strlit("_to_");
    let i = text::find(first_name, "Run_"@)->0;
    text::find_is_the_first(first_name, "Run_"@);
    text::run_end_is_maximal(first_name, Class::Digit, i + 4);
    let e = text::run_end(first_name, Class::Digit, i + 4);
    let s = combined_name(first_name, last);
    text::find_is_the_first(s, "Run_"@);
    assert(s.subrange(i, i + 4) =~= first_name.subrange(i, i + 4));
    assert(text::occurs_at(s, "Run_"@, i));
    assert forall|j: int| 0 <= j < i implies !#[trigger] text::occurs_at(s, "Run_"@, j) by {
        assert(s.subrange(j, j + 4) =~= first_name.subrange(j, j + 4));
        assert(!text::occurs_at(first_name, "Run_"@, j));
    }
    let k = text::find(s, "Run_"@)->0;
    assert(text::find(s, "Run_"@) is Some);
    assert(k == i) by {
        if k < i {
            assert(text::occurs_at(s, "Run_"@, k));
        } else if k > i {
            assert(!text::occurs_at(s, "Run_"@, i));
        }
    }
    assert(s[e] == '_');
    assert(s.subrange(i + 4, e) =~= first_name.subrange(i + 4, e));
    text::run_end_is(s, Class::Digit, i + 4, e);
}

/// A combined result takes no earlier result's folder: not the first run's,
/// not a shorter series' and not that of any folder named after another run.
pub proof fn combined_results_keep_the_earlier_ones(
    first_name: Text,
    last: u64,
    shorter: u64,
    other: Text,
)
    requires
        files::run_in_name(first_name) is Some,
        last != shorter,
        files::run_in_name(other) != files::run_in_name(first_name),
    ensures
        combined_name(first_name, last) != first_name,
        combined_name(first_name, last) != combined_name(first_name, shorter),
        combined_name(first_name, last) != other,
{
    reveal_strlit("Run_");
    reveal_strlit("_to_");
    combined_names_carry_the_first_run(first_name, last);
    let i = text::find(first_name, "Run_"@)->0;
    text::find_is_the_first(first_name, "Run_"@);
    text::run_end_is_maximal(first_name, Class::Digit, i + 4);
    let e = text::run_end(first_name, Class::Digit, i + 4);
    let head = first_name.take(e) + "_to_"@;
    let tail = first_name.skip(e);
    let a = number::decimal(last as nat);
    let b = number::decimal(shorter as nat);
    let x = combined_name(first_name, last);
    let y = combined_name(first_name, shorter);
    assert(x =~= head + a + tail);
    assert(y =~= head + b + tail);
    assert(x.len() > first_name.len());
    if x == y {
        assert(a.len() == b.len());
        assert(a =~= x.subrange(head.len() as int, (head.len() + a.len()) as int));
        assert(b =~= y.subrange(head.len() as int, (head.len() + a.len()) as int));
        number::decimal_reads_back(last);
        number::decimal_reads_back(shorter);
    }
}

/// The inputs of the runs.
pub open spec fn member_inputs(ipts: Text, members: Seq<(u64, Text)>) -> Seq<(Text, Text)> {
    members.map_values(|m: (u64, Text)| (m.1, files::nexus_file(ipts, m.0)))
}

pub open spec fn member_runs(members: Seq<(u64, Text)>) -> Seq<u64> {
    members.map_values(|m: (u64, Text)| m.0)
}

/// The folder of a combined result's row: named after the first run's folder.
pub open spec fn combined_row(members: Seq<(u64, Text)>) -> Text {
    combined_name(norm::row_name(members[0].0, Some(members[0].1)), members.last().0)
}

/// Where the combined result of the runs goes.
pub open spec fn combined_output(base: Text, members: Seq<(u64, Text)>) -> Text {
    norm::result_of(base, combined_row(members))
}

/// The place of the combined result of the runs, given with their corrected
/// folders.
pub fn combined_place(
    ipts_path: &str,
    config_info: &ConfigInfo,
    members: &Vec<(u64, String)>,
) -> (r: String)
    requires
        members@.len() > 0,
    ensures
        r@ == combined_output(
            norm::base_of(ipts_path@, config_info@.output_folder),
            pass::run_texts(members@),
        ),
{
    let base = norm::output_base(ipts_path, config_info);
    let name = norm::run_row_name(members[0].0, Some(members[0].1.as_str()));
    let row = combined_row_name(name.as_str(), members[members.len() - 1].0);
    norm::result_dir(base.as_str(), row.as_str())
}

/// The job of several runs together.
pub open spec fn combined_job(
    members: Seq<(u64, Text)>,
    ipts: Text,
    config: Text,
    info: Info,
    obs: Seq<(Text, Text)>,
) -> Job {
    let base = norm::base_of(ipts, info.output_folder);
    let row = paths::below(base, combined_row(members));
    let runs = member_runs(members);
    Job {
        target: JobTarget::Run(members.last().0),
        runs,
        samples: member_inputs(ipts, members),
        obs,
        config,
        output: combined_output(base, members),
        log: paths::below(paths::below(row, "logs"@), "normalization.log"@),
        summary: paths::below(base, SUMMARY_LOG@),
        what: "Runs "@ + labels::run_list(runs) + " (combined)"@,
        parameters: info.parameters,
        crop: norm::crop_of(info.crop_region, base),
    }
}

/// The job of several runs together, or what is missing for it.
pub open spec fn combined_plan(
    members: Seq<(u64, Text)>,
    ipts: Text,
    config: Text,
    info: Info,
    images: Seq<(String, usize)>,
) -> Result<Job, Text> {
    match norm::resolved(ipts, info.ob_folders) {
        Err(message) => Err(message),
        Ok(obs) => {
            let samples = member_inputs(ipts, members);
            if !norm::same_images(samples, obs, images) {
                Err(norm::mismatch(samples, obs, images))
            } else {
                Ok(combined_job(members, ipts, config, info, obs))
            }
        },
    }
}

/// Resolve the normalization of several runs together: the configuration's
/// sample is replaced by their corrected folders. The result gets its own
/// folder; every earlier result — the single runs, the shorter series — is
/// kept.
pub fn prepare_combined_job(
    members: &Vec<(u64, String)>,
    ipts_path: &str,
    config_path: &str,
    config_info: &ConfigInfo,
    images: &Images,
) -> (r: Result<JobSpec, String>)
    requires
        members@.len() > 0,
    ensures
        norm::job_result(r) == combined_plan(
            pass::run_texts(members@),
            ipts_path@,
            config_path@,
            config_info@,
            images@,
        ),
        r matches Ok(spec) ==> {
            &&& spec@.samples.len() == members@.len()
            &&& forall|i: int|
                0 <= i < members@.len() ==> #[trigger] spec@.samples[i] == (
                    members@[i].1@,
                    files::nexus_file(ipts_path@, members@[i].0),
                )
            &&& prepared::follows_the_configuration(
                spec@,
                config_path@,
                config_info@,
                images@,
            )
            &&& prepared::crops_as_configured(spec@, config_info@)
        },
{
    let ghost ms = pass::run_texts(members@);
    proof {
        if combined_plan(ms, ipts_path@, config_path@, config_info@, images@) is Ok {
            prepared::combined_jobs_normalize_every_member(
                ms,
                ipts_path@,
                config_path@,
                config_info@,
                images@,
            );
        }
    }
    let obs = match norm::resolve_obs(ipts_path, config_info) {
        Ok(obs) => obs,
        Err(message) => return Err(message),
    };
    let mut samples: Vec<(String, String)> = Vec::new();
    let mut runs: Vec<u64> = Vec::new();
    let mut i: usize = 0;
    while i < members.len()
        invariant
            i <= members@.len(),
            ms == pass::run_texts(members@),
            text::pair_texts(samples@) =~= member_inputs(ipts_path@, ms.take(i as int)),
            runs@ =~= member_runs(ms.take(i as int)),
        decreases members@.len() - i,
    {
        let ghost before = samples@;
        let nexus = files::nexus_path(ipts_path, members[i].0);
        let folder = members[i].1.clone();
        samples.push((folder, nexus));
        assert(text::pair_texts(samples@) =~= text::pair_texts(before).push((folder@, nexus@)));
        runs.push(members[i].0);
        assert(ms.take(i + 1) =~= ms.take(i as int).push(ms[i as int]));
        i = i + 1;
    }
    assert(ms.take(i as int) =~= ms);
    match norm::check_frame_counts(&samples, &obs, images) {
        Ok(()) => {},
        Err(message) => return Err(message),
    }
    let base = norm::output_base(ipts_path, config_info);
    let name = norm::run_row_name(members[0].0, Some(members[0].1.as_str()));
    let last = members[members.len() - 1].0;
    let row = combined_row_name(name.as_str(), last);
    let output = norm::result_dir(base.as_str(), row.as_str());
    let row_dir = paths::join(base.as_str(), row.as_str());
    let logs = paths::join(row_dir.as_str(), "logs");
    let list = labels::run_list_text(&runs);
    Ok(
        JobSpec {
            target: JobTarget::Run(last),
            what: text::cat3("Runs ", list.as_str(), " (combined)"),
            runs,
            samples,
            obs,
            config: config_path.to_owned(),
            log: paths::join(logs.as_str(), "normalization.log"),
            summary: paths::join(base.as_str(), SUMMARY_LOG),
            parameters: text::clone_pairs(&config_info.parameters),
            crop: norm::crop_in(config_info.crop_region, base.as_str()),
            output,
        },
    )
}

/// Start the normalization of several runs together: it stands on the row of
/// the last run. Gives the job to launch.
pub fn start_combined_job(
    board: &mut Board,
    metas: &mut RunMap<RunMeta>,
    members: &Vec<(u64, String)>,
    ipts_path: &str,
    config: &str,
    info: &ConfigInfo,
    images: &Images,
) -> (r: Option<JobSpec>)
    requires
        members@.len() > 0,
    ensures
        final(board).windows() == old(board).windows(),
        final(board).queue() == old(board).queue(),
        final(board).retried() == old(board).retried(),
        final(board).parallel() == old(board).parallel(),
        ({
            let last = members@.last().0;
            match combined_plan(
                pass::run_texts(members@),
                ipts_path@,
                config@,
                info@,
                images@,
            ) {
                Ok(job) => {
                    &&& r is Some && r->0@ == job
                    &&& final(board).jobs() == old(board).jobs().insert(
                        last,
                        norm::starting(member_runs(pass::run_texts(members@))),
                    )
                    &&& final(board).output(JobTarget::Run(last)).len() == 0
                    &&& forall|t: JobTarget|
                        t != JobTarget::Run(last) ==> #[trigger] final(board).output(t) == old(
                            board,
                        ).output(t)
                    &&& pass::metas_of(final(metas)@) == pass::metas_of(old(metas)@).insert(
                        last,
                        pass::meta_of_job(job),
                    )
                },
                Err(message) => {
                    &&& r is None
                    &&& final(board).jobs() == old(board).jobs().insert(
                        last,
                        norm::Phase::Failed { message, log: None },
                    )
                    &&& final(board).same_output(old(board))
                    &&& pass::metas_of(final(metas)@) == pass::metas_of(old(metas)@).remove(last)
                },
            }
        }),
        (Looked {
            jobs: final(board).jobs(),
            metas: pass::metas_of(final(metas)@),
            launched: pass::opt_job(r),
        }) == pass::started(
            old(board).jobs(),
            pass::metas_of(old(metas)@),
            members@.last().0,
            combined_plan(pass::run_texts(members@), ipts_path@, config@, info@, images@),
        ),
{
    let prepared = prepare_combined_job(members, ipts_path, config, info, images);
    let last = members[members.len() - 1].0;
    assert(pass::run_texts(members@).last().0 == last);
    pass::start_prepared(board, metas, last, prepared)
}

/// What the pass makes of a pending run that is normalized together with
/// others, given what its configuration holds and what lies at the place of
/// the combined result.
pub open spec fn series_looked_at(
    before: Looked,
    members: Seq<(u64, Text)>,
    ipts: Text,
    config: Text,
    info: Info,
    place: Place,
    images: Seq<(String, usize)>,
    starts: bool,
) -> Looked {
    let last = members.last().0;
    if place.holds_result() {
        pass::found(
            before.jobs,
            before.metas,
            last,
            member_runs(members),
            combined_output(norm::base_of(ipts, info.output_folder), members),
            place,
        )
    } else if starts {
        pass::started(
            before.jobs,
            before.metas,
            last,
            combined_plan(members, ipts, config, info, images),
        )
    } else {
        before
    }
}

/// Look at a pending run that is normalized together with others: mark it
/// done where the combined result is there already, start the normalization
/// where the run landed after the pass started watching, is not rejected and
/// a slot is free, and leave it to the next pass otherwise. `place` is what
/// lies at [`combined_place`]. Gives the job to launch.
pub fn visit_series(
    board: &mut Board,
    metas: &mut RunMap<RunMeta>,
    members: &Vec<(u64, String)>,
    from: Option<u64>,
    rejected: &Vec<u64>,
    ipts_path: &str,
    config: &str,
    info: &ConfigInfo,
    place: &Place,
    images: &Images,
) -> (r: Option<JobSpec>)
    requires
        members@.len() > 0,
    ensures
        final(board).windows() == old(board).windows(),
        final(board).queue() == old(board).queue(),
        final(board).retried() == old(board).retried(),
        final(board).parallel() == old(board).parallel(),
        (Looked {
            jobs: final(board).jobs(),
            metas: pass::metas_of(final(metas)@),
            launched: pass::opt_job(r),
        }) == series_looked_at(
            (Looked {
                jobs: old(board).jobs(),
                metas: pass::metas_of(old(metas)@),
                launched: None,
            }),
            pass::run_texts(members@),
            ipts_path@,
            config@,
            info@,
            *place,
            images@,
            pass::may_start(members@.last().0, from, rejected@, old(board).free_slot()),
        ),
        r is None ==> final(board).same_output(old(board)),
        r is Some ==> {
            let target = JobTarget::Run(members@.last().0);
            &&& final(board).output(target).len() == 0
            &&& forall|t: JobTarget|
                t != target ==> #[trigger] final(board).output(t) == old(board).output(t)
        },
{
    let last = members[members.len() - 1].0;
    let ghost all = pass::run_texts(members@);
    assert(all.last().0 == last);
    let output = combined_place(ipts_path, info, members);
    let log = match &place.log {
        Some(l) => Some(l.as_str()),
        None => None,
    };
    let mut runs: Vec<u64> = Vec::new();
    let mut i: usize = 0;
    while i < members.len()
        invariant
            i <= members@.len(),
            all == pass::run_texts(members@),
            runs@ =~= member_runs(all).take(i as int),
        decreases members@.len() - i,
    {
        assert(member_runs(all)[i as int] == members@[i as int].0);
        runs.push(members[i].0);
        i = i + 1;
    }
    assert(member_runs(all).take(i as int) =~= member_runs(all));
    let start = pass::settle_run(
        board,
        metas,
        last,
        &runs,
        output.as_str(),
        &place.names,
        log,
        place.finished.as_str(),
        from,
        rejected,
    );
    if start {
        start_combined_job(board, metas, members, ipts_path, config, info, images)
    } else {
        None
    }
}

// ---------------------------------------------------------------------
// The series of a row

/// How long an acquisition took, in whole milliseconds, where it is known
/// and can be counted.
pub open spec fn acquired_for(times: Map<u64, (Moment, Moment)>, run: u64) -> Option<u64> {
    if times.dom().contains(run) {
        let (start, end) = times[run];
        let nanos = clock::nanos_between(start, end);
        if 0 <= nanos && nanos / 1_000_000 <= u64::MAX {
            Some((nanos / 1_000_000) as u64)
        } else {
            None
        }
    } else {
        None
    }
}

fn acquisition_time(times: &RunMap<(Moment, Moment)>, run: u64) -> (r: Option<u64>)
    ensures
        r == acquired_for(times@, run),
{
    match times.get(run) {
        Some(t) => {
            let nanos: i128 = clock::elapsed(&t.0, &t.1);
            if nanos >= 0 && nanos / 1_000_000 <= u64::MAX as i128 {
                Some((nanos / 1_000_000) as u64)
            } else {
                None
            }
        },
        None => None,
    }
}

/// What a row of the table tells about its run: `times` are the acquisition
/// times read from the NeXus files so far, `charges` their proton charges.
/// A run whose NeXus file or corrected folder cannot be read yet has no
/// folder name.
pub open spec fn row_facts(
    row: RunFiles<Text>,
    times: Map<u64, (Moment, Moment)>,
    charges: Map<u64, u64>,
    rejected: Seq<u64>,
    image_paths: Map<u64, String>,
) -> Facts {
    Facts {
        run: row.run,
        kind: beams::kind_in(image_paths, row.run),
        rejected: rejected.contains(row.run),
        folder_name: match row.corrected {
            FileStatus::Present(folder) => if times.dom().contains(row.run) {
                paths::file_name(folder)
            } else {
                None
            },
            _ => None,
        },
        duration: acquired_for(times, row.run),
        charge: if charges.dom().contains(row.run) {
            Some(charges[row.run])
        } else {
            None
        },
    }
}

/// What the rows tell about their runs, in the order of the rows.
pub open spec fn table_facts(
    rows: Seq<RunFiles<Text>>,
    times: Map<u64, (Moment, Moment)>,
    charges: Map<u64, u64>,
    rejected: Seq<u64>,
    image_paths: Map<u64, String>,
) -> Seq<Facts> {
    rows.map_values(|row: RunFiles<Text>| row_facts(row, times, charges, rejected, image_paths))
}

pub fn gather_facts(
    rows: &Vec<RunFiles>,
    times: &RunMap<(Moment, Moment)>,
    charges: &RunMap<u64>,
    rejected: &Vec<u64>,
    image_paths: &RunMap<String>,
) -> (r: Vec<RunFacts>)
    ensures
        facts_views(r@) == table_facts(
            files::statuses(rows@),
            times@,
            charges@,
            rejected@,
            image_paths@,
        ),
{
    let ghost rs = files::statuses(rows@);
    let ghost all = table_facts(rs, times@, charges@, rejected@, image_paths@);
    let mut out: Vec<RunFacts> = Vec::new();
    let mut i: usize = 0;
    assert(facts_views(out@) =~= all.take(0));
    while i < rows.len()
        invariant
            i <= rows@.len(),
            rs == files::statuses(rows@),
            all == table_facts(rs, times@, charges@, rejected@, image_paths@),
            facts_views(out@) == all.take(i as int),
        decreases rows@.len() - i,
    {
        let row = &rows[i];
        let folder_name = match &row.corrected {
            FileStatus::Present(folder) => if times.contains(row.run) {
                paths::file_name_of(folder.as_str())
            } else {
                None
            },
            _ => None,
        };
        let charge = match charges.get(row.run) {
            Some(c) => Some(*c),
            None => None,
        };
        let facts = RunFacts {
            run: row.run,
            kind: beams::run_kind(image_paths, row.run),
            rejected: order::member(rejected, row.run),
            folder_name,
            duration: acquisition_time(times, row.run),
            charge,
        };
        assert(rs[i as int] == row@);
        assert(facts@ == all[i as int]);
        let ghost before = out@;
        out.push(facts);
        assert(facts_views(out@) =~= facts_views(before).push(facts@));
        assert(all.take(i + 1) =~= all.take(i as int).push(all[i as int]));
        i = i + 1;
    }
    assert(all.take(i as int) =~= all);
    out
}

/// The runs with their complete corrected folders; `None` when one has none.
pub open spec fn with_folders(rows: Seq<RunFiles<Text>>, runs: Seq<u64>) -> Option<
    Seq<(u64, Text)>,
>
    decreases runs.len(),
{
    if runs.len() == 0 {
        Some(Seq::empty())
    } else {
        match (with_folders(rows, runs.drop_last()), pass::corrected_or_why(rows, runs.last())) {
            (Some(before), Ok(folder)) => Some(before.push((runs.last(), folder))),
            _ => None,
        }
    }
}

/// Where a run stands among the facts.
pub open spec fn place_of(facts: Seq<Facts>, run: u64, i: int) -> Option<int>
    decreases facts.len() - i,
{
    if !(0 <= i < facts.len()) {
        None
    } else if facts[i].run == run {
        Some(i)
    } else {
        place_of(facts, run, i + 1)
    }
}

/// The runs that a run is normalized together with, with their corrected
/// folders; `None` when it is normalized on its own — no run before it
/// belongs to its series, or corrected data is still missing.
pub open spec fn companions(
    rows: Seq<RunFiles<Text>>,
    facts: Seq<Facts>,
    run: u64,
) -> Option<Seq<(u64, Text)>> {
    match place_of(facts, run, 0) {
        Some(i) => if series(facts, i).len() > 1 {
            with_folders(rows, series(facts, i))
        } else {
            None
        },
        None => None,
    }
}

pub open spec fn opt_members(m: Option<Vec<(u64, String)>>) -> Option<Seq<(u64, Text)>> {
    match m {
        Some(v) => Some(pass::run_texts(v@)),
        None => None,
    }
}

fn folders_of(rows: &Vec<RunFiles>, runs: &Vec<u64>) -> (r: Option<Vec<(u64, String)>>)
    ensures
        opt_members(r) == with_folders(files::statuses(rows@), runs@),
{
    let ghost rs = files::statuses(rows@);
    let mut out: Vec<(u64, String)> = Vec::new();
    let mut i: usize = 0;
    assert(pass::run_texts(out@) =~= Seq::empty());
    assert(runs@.take(0) =~= Seq::empty());
    while i < runs.len()
        invariant
            i <= runs@.len(),
            rs == files::statuses(rows@),
            with_folders(rs, runs@.take(i as int)) == Some(pass::run_texts(out@)),
        decreases runs@.len() - i,
    {
        proof {
            assert(runs@.take(i + 1).drop_last() =~= runs@.take(i as int));
            assert(runs@.take(i + 1).last() == runs@[i as int]);
        }
        match pass::corrected_folder(rows, runs[i]) {
            Ok(folder) => {
                let ghost before = out@;
                let ghost member = (runs@[i as int], folder@);
                out.push((runs[i], folder));
                assert(pass::run_texts(out@) =~= pass::run_texts(before).push(member));
            },
            Err(_) => {
                proof {
                    lemma_folders_lost(rs, runs@, i + 1);
                }
                return None;
            },
        }
        i = i + 1;
    }
    assert(runs@.take(i as int) =~= runs@);
    Some(out)
}

proof fn lemma_folders_lost(rows: Seq<RunFiles<Text>>, runs: Seq<u64>, n: int)
    requires
        0 <= n <= runs.len(),
        with_folders(rows, runs.take(n)) is None,
    ensures
        with_folders(rows, runs) is None,
    decreases runs.len() - n,
{
    if n == runs.len() {
        assert(runs.take(n) =~= runs);
    } else {
        assert(runs.take(n + 1).drop_last() =~= runs.take(n));
        lemma_folders_lost(rows, runs, n + 1);
    }
}

/// The runs that a run of the table is normalized together with when
/// consecutive runs are combined.
pub fn companions_of(rows: &Vec<RunFiles>, facts: &Vec<RunFacts>, run: u64) -> (r: Option<
    Vec<(u64, String)>,
>)
    ensures
        opt_members(r) == companions(files::statuses(rows@), facts_views(facts@), run),
{
    let ghost fs = facts_views(facts@);
    let mut i: usize = 0;
    while i < facts.len()
        invariant
            i <= facts@.len(),
            fs == facts_views(facts@),
            place_of(fs, run, 0) == place_of(fs, run, i as int),
        decreases facts@.len() - i,
    {
        assert(fs[i as int] == facts@[i as int]@);
        if facts[i].run == run {
            let runs = series_of(facts, i);
            if runs.len() > 1 {
                return folders_of(rows, &runs);
            }
            return None;
        }
        i = i + 1;
    }
    None
}

/// The runs normalized together are the whole series of the run, each with
/// the complete corrected folder of its row.
pub proof fn companions_are_the_series(rows: Seq<RunFiles<Text>>, runs: Seq<u64>)
    ensures
        with_folders(rows, runs) matches Some(m) ==> {
            &&& member_runs(m) == runs
            &&& forall|i: int|
                0 <= i < m.len() ==> pass::corrected_or_why(rows, runs[i]) == Ok::<Text, Text>(
                    (#[trigger] m[i]).1,
                )
        },
    decreases runs.len(),
{
    if runs.len() == 0 {
        assert(member_runs(Seq::empty()) =~= runs);
    } else {
        companions_are_the_series(rows, runs.drop_last());
        match with_folders(rows, runs) {
            Some(m) => {
                let before = with_folders(rows, runs.drop_last())->0;
                assert(m =~= before.push((runs.last(), m.last().1)));
                assert(member_runs(before).len() == before.len());
                assert(member_runs(m) =~= member_runs(before).push(runs.last()));
                assert(member_runs(m) =~= runs);
                assert forall|i: int| 0 <= i < m.len() implies pass::corrected_or_why(rows, runs[i])
                    == Ok::<Text, Text>((#[trigger] m[i]).1) by {
                    if i < before.len() {
                        assert(runs.drop_last()[i] == runs[i]);
                        assert(m[i] == before[i]);
                    }
                }
            },
            None => {},
        }
    }
}

} // verus!
