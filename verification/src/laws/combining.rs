//! Which runs are combined, and under which name.

use vstd::prelude::*;
use crate::clock::Moment;
use crate::files::{FileStatus, RunFiles};
use crate::h5::{Info, RunKind};
use crate::laws::{lists, prepared};
use crate::norm::JobTarget;
use crate::pass::{Looked, Place};
use crate::series::Facts;
use crate::text::{Class, Text};
use crate::{beams, clock, files, norm, number, pass, paths, series, text};

verus! {

/// Two amounts are close when they differ by at most a fiftieth of the
/// larger one, whichever it is.
pub proof fn close_amounts_differ_by_a_fiftieth(a: u64, b: u64)
    ensures
        series::close(a, b) <==> series::close(b, a),
        a <= b ==> (series::close(a, b) <==> 50 * (b - a) <= b),
        series::close(a, a),
        a > 0 ==> !series::close(a, 0),
{
}

/// Runs with the same settings are alike in both directions: same
/// acquisition, same starting wavelength, and a close duration or charge.
pub proof fn same_settings_go_both_ways(a: Facts, b: Facts)
    ensures
        series::same_settings(a, b) <==> series::same_settings(b, a),
        series::same_settings(a, b) ==> {
            &&& a.folder_name is Some && b.folder_name is Some
            &&& files::acquisition(a.folder_name->0) is Some
            &&& files::acquisition(a.folder_name->0) == files::acquisition(b.folder_name->0)
            &&& files::wavelength(a.folder_name->0) == files::wavelength(b.folder_name->0)
            &&& (a.duration is Some && b.duration is Some && series::close(
                a.duration->0,
                b.duration->0,
            )) || (a.charge is Some && b.charge is Some && series::close(a.charge->0, b.charge->0))
        },
        a.folder_name is Some && a.folder_name == b.folder_name && files::acquisition(
            a.folder_name->0,
        ) is Some && (a.duration is Some && a.duration == b.duration || a.charge is Some && a.charge
            == b.charge) ==> series::same_settings(a, b),
        a.folder_name is None || b.folder_name is None ==> !series::same_settings(a, b),
        a.folder_name is Some && b.folder_name is Some && files::acquisition(a.folder_name->0)
            != files::acquisition(b.folder_name->0) ==> !series::same_settings(a, b),
        a.folder_name is Some && b.folder_name is Some && files::wavelength(a.folder_name->0)
            != files::wavelength(b.folder_name->0) ==> !series::same_settings(a, b),
{
}

/// Open beams, alignments and rejected runs are passed over, samples are
/// not.
pub proof fn only_samples_are_combined(f: Facts)
    ensures
        series::passed_over(f) <==> f.rejected || f.kind == RunKind::OpenBeam || f.kind
            == RunKind::Alignment,
{
}

proof fn lemma_reached(before: Seq<Facts>, next: u64, last: Facts, k: int)
    requires
        0 <= k < before.len(),
        forall|j: int|
            k <= j < before.len() ==> (#[trigger] before[j]).run + (before.len() - j) == next,
        forall|j: int|
            k <= j < before.len() ==> series::passed_over(#[trigger] before[j])
                || series::same_settings(before[j], last),
        !series::passed_over(before[k]),
    ensures
        series::runs_before(before, next, last).contains(before[k].run),
    decreases before.len(),
{
    let f = before[before.len() - 1];
    let rest = before.drop_last();
    let inner = series::runs_before(rest, f.run, last);
    assert(f.run + 1 == next);
    assert(series::passed_over(f) || series::same_settings(f, last));
    if k == before.len() - 1 {
        lists::pushed_holds(inner, f.run, f.run);
    } else {
        assert forall|j: int| k <= j < rest.len() implies (#[trigger] rest[j]).run + (rest.len()
            - j) == f.run by {
            assert(rest[j] == before[j]);
        }
        assert forall|j: int| k <= j < rest.len() implies series::passed_over(#[trigger] rest[j])
            || series::same_settings(rest[j], last) by {
            assert(rest[j] == before[j]);
        }
        assert(rest[k] == before[k]);
        lemma_reached(rest, f.run, last, k);
        lists::pushed_holds(inner, f.run, before[k].run);
    }
}

/// The series of a run reaches back as far as it can: every sample before it
/// belongs to it as long as no run number is missing in between and every
/// sample in between has the settings of the last one. The run itself closes
/// its series.
pub proof fn series_reach_back_as_far_as_they_can(facts: Seq<Facts>, i: int, k: int)
    requires
        0 <= k < i < facts.len(),
        forall|j: int| k <= j < i ==> (#[trigger] facts[j]).run + (i - j) == facts[i].run,
        forall|j: int|
            k <= j < i ==> series::passed_over(#[trigger] facts[j]) || series::same_settings(
                facts[j],
                facts[i],
            ),
        !series::passed_over(facts[k]),
    ensures
        series::series(facts, i).contains(facts[k].run),
        series::series(facts, i).last() == facts[i].run,
{
    let before = facts.take(i);
    assert forall|j: int| k <= j < before.len() implies (#[trigger] before[j]).run + (before.len()
        - j) == facts[i].run by {
        assert(before[j] == facts[j]);
    }
    assert forall|j: int| k <= j < before.len() implies series::passed_over(#[trigger] before[j])
        || series::same_settings(before[j], facts[i]) by {
        assert(before[j] == facts[j]);
    }
    assert(before[k] == facts[k]);
    lemma_reached(before, facts[i].run, facts[i], k);
    lists::pushed_holds(
        series::runs_before(before, facts[i].run, facts[i]),
        facts[i].run,
        facts[k].run,
    );
}

proof fn lemma_below(before: Seq<Facts>, next: u64, last: Facts, a: int)
    requires
        0 <= a < series::runs_before(before, next, last).len(),
    ensures
        series::runs_before(before, next, last)[a] < next,
    decreases before.len(),
{
    if before.len() > 0 {
        let f = before.last();
        let inner = series::runs_before(before.drop_last(), f.run, last);
        if a < inner.len() {
            lemma_below(before.drop_last(), f.run, last, a);
        }
    }
}

proof fn lemma_ascends(before: Seq<Facts>, next: u64, last: Facts, a: int, b: int)
    requires
        0 <= a < b < series::runs_before(before, next, last).len(),
    ensures
        series::runs_before(before, next, last)[a] < series::runs_before(before, next, last)[b],
    decreases before.len(),
{
    if before.len() > 0 {
        let f = before.last();
        let inner = series::runs_before(before.drop_last(), f.run, last);
        if b < inner.len() {
            lemma_ascends(before.drop_last(), f.run, last, a, b);
        } else {
            lemma_below(before.drop_last(), f.run, last, a);
        }
    }
}

/// The runs of a series ascend, none twice, up to its last one.
pub proof fn series_ascend(facts: Seq<Facts>, i: int, a: int, b: int)
    requires
        0 <= i < facts.len(),
        0 <= a < b < series::series(facts, i).len(),
    ensures
        series::series(facts, i)[a] < series::series(facts, i)[b],
{
    let before = series::runs_before(facts.take(i), facts[i].run, facts[i]);
    lemma_below(facts.take(i), facts[i].run, facts[i], a);
    if b < before.len() {
        lemma_ascends(facts.take(i), facts[i].run, facts[i], a, b);
    }
}

/// What is known of a row for combining: its number, kind and rejection, the
/// name of its corrected folder once that is complete and its times are
/// known, its duration in whole milliseconds and its charge.
pub proof fn facts_are_those_of_the_row(
    row: RunFiles<Text>,
    times: Map<u64, (Moment, Moment)>,
    charges: Map<u64, u64>,
    rejected: Seq<u64>,
    image_paths: Map<u64, String>,
)
    ensures
        ({
            let f = series::row_facts(row, times, charges, rejected, image_paths);
            &&& f.run == row.run
            &&& f.kind == beams::kind_in(image_paths, row.run)
            &&& f.rejected == rejected.contains(row.run)
            &&& f.folder_name is Some ==> row.corrected is Present && times.dom().contains(row.run)
            &&& row.corrected matches FileStatus::Present(folder) ==> times.dom().contains(row.run)
                ==> f.folder_name == paths::file_name(folder)
            &&& charges.dom().contains(row.run) ==> f.charge == Some(charges[row.run])
            &&& !charges.dom().contains(row.run) ==> f.charge is None
            &&& !times.dom().contains(row.run) ==> f.duration is None
            &&& times.dom().contains(row.run) ==> (f.duration is Some <==> 0
                <= clock::nanos_between(times[row.run].0, times[row.run].1) < (u64::MAX + 1)
                * 1_000_000)
            &&& f.duration matches Some(ms) ==> ms * 1_000_000 <= clock::nanos_between(
                times[row.run].0,
                times[row.run].1,
            ) < (ms + 1) * 1_000_000
        }),
{
}

/// The members of a series are found with their corrected folders: all of
/// them, or the series is not combined.
pub proof fn members_have_their_folders(rows: Seq<RunFiles<Text>>, runs: Seq<u64>, i: int)
    requires
        0 <= i < runs.len(),
    ensures
        pass::corrected_or_why(rows, runs[i]) is Err ==> series::with_folders(rows, runs) is None,
        series::with_folders(rows, runs) matches Some(members) ==> members.len() == runs.len()
            && members[i].0 == runs[i] && pass::corrected_or_why(rows, runs[i]) == Ok::<Text, Text>(
            members[i].1,
        ),
    decreases runs.len(),
{
    let rest = runs.drop_last();
    if i < rest.len() {
        assert(rest[i] == runs[i]);
        members_have_their_folders(rows, rest, i);
    }
    series::companions_are_the_series(rows, runs);
    match series::with_folders(rows, runs) {
        Some(members) => {
            assert(series::member_runs(members)[i] == runs[i]);
            assert(members[i].0 == runs[i]);
        },
        None => {},
    }
}

/// A combined result is named after the folder of its first member, with the
/// number of the last one behind that of the first.
pub proof fn combined_rows_name_the_first_and_the_last_run(
    before: Text,
    first: u64,
    after: Text,
    last: u64,
)
    requires
        after.len() > 0 ==> !('0' <= after[0] <= '9'),
        forall|k: int|
            0 <= k < before.len() ==> !(#[trigger] text::occurs_at(
                before + "Run_"@ + number::decimal(first as nat) + after,
                "Run_"@,
                k,
            )),
    ensures
        series::combined_name(before + "Run_"@ + number::decimal(first as nat) + after, last)
            == before + "Run_"@ + number::decimal(first as nat) + "_to_"@ + number::decimal(
            last as nat,
        ) + after,
{
    let d = number::decimal(first as nat);
    let s = before + "Run_"@ + d + after;
    reveal_strlit("Run_");
    number::lemma_decimal(first as nat);
    let i = before.len() as int;
    assert(s.subrange(i, i + 4) =~= "Run_"@);
    text::find_is_the_first(s, "Run_"@);
    assert(text::occurs_at(s, "Run_"@, i));
    assert(text::has(s, "Run_"@));
    let j = text::find(s, "Run_"@)->0;
    if j < i {
        assert(text::occurs_at(s, "Run_"@, j));
    } else if i < j {
        assert(!text::occurs_at(s, "Run_"@, i));
    }
    let e = i + 4 + d.len();
    assert(s.subrange(i + 4, e) =~= d);
    text::run_end_is(s, Class::Digit, i + 4, e);
    assert(s.take(e) =~= before + "Run_"@ + d);
    assert(s.skip(e) =~= after);
}

/// A combined job's result, log and summary lie as those of a single run do,
/// in the row of the series.
pub proof fn combined_results_lie_in_their_row(
    members: Seq<(u64, Text)>,
    ipts: Text,
    config: Text,
    info: Info,
    images: Seq<(String, usize)>,
    dir: Text,
    name: Text,
)
    requires
        series::combined_plan(members, ipts, config, info, images) is Ok,
        members.len() > 0,
        members[0].1 == paths::below(dir, name),
        paths::plain_name(name),
        name != seq!['.', '.'],
    ensures
        ({
            let job = series::combined_plan(members, ipts, config, info, images)->Ok_0;
            let base = match info.output_folder {
                Some(folder) => folder,
                None => paths::below(ipts, "shared/autoreduce/normalized"@),
            };
            let row = paths::below(
                base,
                series::combined_name(name, members[members.len() - 1].0),
            );
            &&& job.output == paths::below(row, "normalization"@)
            &&& job.log == paths::below(paths::below(row, "logs"@), "normalization.log"@)
            &&& job.summary == paths::below(base, "autoreduction.log"@)
            &&& job.crop matches Some((region, parent)) ==> parent == norm::crop_folder(
                base,
                region,
            )
        }),
{
    paths::file_name_of_below(dir, name);
}

/// A run alone is not combined.
pub proof fn a_run_alone_is_not_combined(rows: Seq<RunFiles<Text>>, facts: Seq<Facts>, run: u64)
    ensures
        series::companions(rows, facts, run) matches Some(members) ==> members.len() > 1
            && members[members.len() - 1].0 == run,
{
    match series::place_of(facts, run, 0) {
        Some(i) => {
            lemma_place(facts, run, 0);
            let s = series::series(facts, i);
            series::companions_are_the_series(rows, s);
            if series::companions(rows, facts, run) is Some {
                let m = series::companions(rows, facts, run)->0;
                assert(series::member_runs(m) == s);
                assert(series::member_runs(m)[m.len() - 1] == s[s.len() - 1]);
            }
        },
        None => {},
    }
}

proof fn lemma_place(facts: Seq<Facts>, run: u64, i: int)
    requires
        0 <= i,
    ensures
        series::place_of(facts, run, i) matches Some(k) ==> i <= k < facts.len() && facts[k].run
            == run,
    decreases facts.len() - i,
{
    if i < facts.len() {
        lemma_place(facts, run, i + 1);
    }
}

/// A series that is looked at is recorded under its last run: done with all
/// its runs where its result lies, running with all of them when its job was
/// started, and left for later when it may not start.
pub proof fn looking_at_a_series_settles_it(
    before: Looked,
    members: Seq<(u64, Text)>,
    ipts: Text,
    config: Text,
    info: Info,
    place: Place,
    images: Seq<(String, usize)>,
    starts: bool,
    other: u64,
)
    requires
        members.len() > 0,
        before.launched is None,
    ensures
        ({
            let after = series::series_looked_at(
                before,
                members,
                ipts,
                config,
                info,
                place,
                images,
                starts,
            );
            let last = members[members.len() - 1].0;
            let runs = members.map_values(|m: (u64, Text)| m.0);
            &&& place.holds_result() ==> after.launched is None && after.jobs.dom().contains(last)
                && after.jobs[last] is Done && after.jobs[last]->Done_runs == runs
                && after.jobs[last]->finished == place.finished@
            &&& after.launched matches Some(job) ==> {
                &&& starts && !place.holds_result()
                &&& job.target == JobTarget::Run(last)
                &&& job.runs == runs
                &&& job.samples.len() == members.len()
                &&& after.jobs.dom().contains(last)
                &&& after.jobs[last] == norm::starting(runs)
            }
            &&& !starts && !place.holds_result() ==> after == before
            &&& other != last ==> {
                &&& after.jobs.dom().contains(other) == before.jobs.dom().contains(other)
                &&& before.jobs.dom().contains(other) ==> after.jobs[other] == before.jobs[other]
            }
        }),
{
    let runs = members.map_values(|m: (u64, Text)| m.0);
    assert(series::member_runs(members) =~= runs);
    if series::combined_plan(members, ipts, config, info, images) is Ok {
        prepared::combined_jobs_normalize_every_member(members, ipts, config, info, images);
    }
}

/// What is known of a table is known row by row.
pub proof fn every_row_has_its_facts(
    rows: Seq<RunFiles<Text>>,
    times: Map<u64, (Moment, Moment)>,
    charges: Map<u64, u64>,
    rejected: Seq<u64>,
    image_paths: Map<u64, String>,
    i: int,
)
    requires
        0 <= i < rows.len(),
    ensures
        series::table_facts(rows, times, charges, rejected, image_paths).len() == rows.len(),
        series::table_facts(rows, times, charges, rejected, image_paths)[i].run == rows[i].run,
        series::table_facts(rows, times, charges, rejected, image_paths)[i] == series::row_facts(
            rows[i],
            times,
            charges,
            rejected,
            image_paths,
        ),
{
}

} // verus!
