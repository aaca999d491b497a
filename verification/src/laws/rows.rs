//! What the table, the labels and the editor show.

use vstd::prelude::*;
use crate::choices::Choice;
use crate::editor::{EditorMode, RunStanding};
use crate::files::{FileStatus, RunFiles};
use crate::h5::RunKind;
use crate::jobs::Phases;
use crate::labels::Tone;
use crate::laws::lists;
use crate::norm::{JobTarget, Phase, Window};
use crate::pass::Meta;
use crate::settings::Plan;
use crate::table::{NormalizedCell, TableState};
use crate::text::{Class, Text};
use crate::{
    beams, choices, config, editor, ipts, jobs, labels, norm, number, paths, settings, spans, table,
    text, timeline,
};

verus! {

/// Does a text show another somewhere?
pub open spec fn shows(whole: Text, part: Text) -> bool {
    text::has(whole, part)
}

proof fn lemma_shows(a: Text, p: Text, b: Text)
    ensures
        shows(a + p + b, p),
{
    let s = a + p + b;
    let i = a.len() as int;
    assert(s.subrange(i, i + p.len()) =~= p);
    assert(text::occurs_at(s, p, i));
}

proof fn lemma_shows_end(a: Text, p: Text)
    ensures
        shows(a + p, p),
        shows(p + a, p),
        shows(p, p),
{
    let none = Seq::<char>::empty();
    assert(a + p + none =~= a + p);
    assert(none + p + a =~= p + a);
    assert(none + p + none =~= p);
    lemma_shows(a, p, none);
    lemma_shows(none, p, a);
    lemma_shows(none, p, none);
}

// ---------------------------------------------------------------------
// The states of files

/// The state of a file is told by its mark and its tone, which differ from
/// state to state, and its path is shown.
pub proof fn states_of_files_are_told_apart(path: Text)
    ensures
        labels::status_words(FileStatus::Present(path)).tone == Tone::Success,
        labels::status_words(FileStatus::Writing(path)).tone == Tone::Warning,
        labels::status_words(FileStatus::Missing(path)).tone == Tone::Dim,
        labels::status_words(FileStatus::Present(path)).text == "✔"@,
        labels::status_words(FileStatus::Writing(path)).text == "⏳"@,
        labels::status_words(FileStatus::Missing(path)).text == "✖"@,
        shows(labels::status_words(FileStatus::Present(path)).hover->0, path),
        shows(labels::status_words(FileStatus::Writing(path)).hover->0, path),
        shows(labels::status_words(FileStatus::Missing(path)).hover->0, path),
{
    lemma_shows_end(
        "being written — the folder is there but not complete yet: the Spectra.txt rows must match the frames (raw: .fits minus the SummedImg; corrected: .tif, plus summary.json)\n"@,
        path,
    );
    lemma_shows_end("not there yet — expected at\n"@, path);
}

// ---------------------------------------------------------------------
// The normalized cell

/// What a row shows of its normalization is what its job is: its progress
/// while it runs, its output when it is done, its log when it failed, as long
/// as it does not wait in the queue.
pub proof fn rows_show_their_job(
    run: u64,
    corrected: FileStatus<Text>,
    phase: Phase,
    special: Option<(RunKind, Text)>,
    watched: bool,
    no_config: bool,
)
    ensures
        ({
            let cell = table::normalized(
                run,
                corrected,
                Some(phase),
                special,
                watched,
                no_config,
                None,
            );
            &&& phase is Running ==> cell is Progress
            &&& phase matches Phase::Done { output, finished, runs } ==> (
            cell matches NormalizedCell::Result { done, output: shown } && shown == output
                && done.tone == Tone::Success && shows(done.hover->0, output))
            &&& phase matches Phase::Failed { message, log } ==> (
            cell matches NormalizedCell::Failure { failed, log: kept } && kept == log
                && failed.tone == Tone::Danger && shows(failed.hover->0, message))
        }),
{
    match phase {
        Phase::Done { output, finished, runs } => {
            lemma_shows_end(
                "runs "@ + labels::run_list(runs) + "\nfinished "@ + finished + "\n"@,
                output,
            );
            lemma_shows_end("finished "@ + finished + "\n"@, output);
        },
        Phase::Failed { message, log } => {
            lemma_shows_end(Seq::empty(), message);
            match log {
                Some(l) => {
                    lemma_shows_end("\n\nfull log: "@, message);
                    lemma_shows_on(message + "\n\nfull log: "@, l, message);
                },
                None => {},
            }
        },
        _ => {},
    }
}

/// A run that waits in the queue is shown as queued, with its place; an open
/// beam or an alignment without a job is never offered nor queued; a run that
/// may be normalized by hand is offered.
pub proof fn waiting_rows_show_their_place(
    run: u64,
    corrected: FileStatus<Text>,
    phase: Option<Phase>,
    special: Option<(RunKind, Text)>,
    watched: bool,
    no_config: bool,
    queued: Option<(nat, nat)>,
)
    ensures
        ({
            let cell = table::normalized(
                run,
                corrected,
                phase,
                special,
                watched,
                no_config,
                queued,
            );
            let idle = phase is None || phase->0 is Idle;
            &&& special is None && queued is Some ==> (cell matches NormalizedCell::Queued(l)
                && shows(l.hover->0, number::decimal((queued->0).0) + " queued ahead"@))
            &&& special is Some && idle ==> cell is Note
            &&& special is None && queued is None && idle && !watched && corrected is Present
                && !no_config ==> cell is Offer
            &&& special is None && queued is None && idle && !(corrected is Present) ==> cell
                is Note
            &&& special is None && queued is None && idle && no_config ==> cell is Note
            &&& special is None && queued is None && idle && watched ==> cell is Note
        }),
{
    if queued is Some {
        let (ahead, running) = queued->0;
        let front = "Waiting for a free slot: "@ + number::decimal(running)
            + " normalization(s) running (the parallel jobs cap), "@;
        let tail =
            " queued ahead of this run. It starts by itself; ✖ clear queue (above the table) cancels the wait"@;
        let part = number::decimal(ahead) + " queued ahead"@;
        reveal_strlit(
            " queued ahead of this run. It starts by itself; ✖ clear queue (above the table) cancels the wait",
        );
        reveal_strlit(" queued ahead");
        assert(tail =~= " queued ahead"@ + tail.skip(13));
        let hover = front + number::decimal(ahead) + tail;
        assert(hover =~= front + part + tail.skip(13));
        lemma_shows(front, part, tail.skip(13));
    }
}

/// The place in the queue is the number of runs ahead: the first place the
/// run stands at, and none for a run that does not wait.
pub proof fn the_place_is_the_number_ahead(queue: Seq<u64>, run: u64, i: int, k: int)
    requires
        0 <= i,
    ensures
        i <= k < queue.len() && queue[k] == run && (forall|j: int|
            i <= j < k ==> #[trigger] queue[j] != run) ==> table::place_in(queue, run, i) == Some(
            k as nat,
        ),
        (forall|j: int| i <= j < queue.len() ==> #[trigger] queue[j] != run) ==> table::place_in(
            queue,
            run,
            i,
        ) is None,
    decreases queue.len() - i,
{
    if i < queue.len() {
        the_place_is_the_number_ahead(queue, run, i + 1, k);
        if i <= k < queue.len() && queue[k] == run && (forall|j: int|
            i <= j < k ==> #[trigger] queue[j] != run) {
            if i < k {
                assert(queue[i] != run);
            }
        }
        if forall|j: int| i <= j < queue.len() ==> #[trigger] queue[j] != run {
            assert(queue[i] != run);
        }
    }
}

/// A row tells of its own run: its number, its kind, its rejection, the
/// states of its own files, and its own configuration when it is a sample.
pub proof fn rows_tell_of_their_run(row: RunFiles<Text>, t: TableState)
    ensures
        ({
            let r = table::row_view(row, t);
            &&& r.run == row.run
            &&& r.kind == beams::kind_in(t.image_paths, row.run)
            &&& r.rejected <==> t.rejected.contains(row.run)
            &&& r.nexus == labels::status_words(row.nexus)
            &&& r.raw == labels::status_words(row.raw)
            &&& r.kind != RunKind::Alignment ==> r.corrected == labels::status_words(row.corrected)
            &&& r.config is Some <==> r.kind == RunKind::Sample
            &&& t.jobs.dom().contains(row.run) && t.jobs[row.run] is Running
                && !t.queue.contains(row.run) ==> r.normalized is Progress
            &&& row.corrected matches FileStatus::Present(folder) ==> shows(
                r.preview.hover->0,
                folder,
            )
            &&& t.rejected.contains(row.run) ==> r.hover is Some
        }),
{
    match row.corrected {
        FileStatus::Present(folder) => {
            lemma_shows_end("Open the corrected data in the TIFF viewer\n"@, folder);
        },
        _ => {},
    }
    if !t.queue.contains(row.run) {
        the_place_is_the_number_ahead(t.queue, row.run, 0, 0);
    }
}

/// A run is watched for exactly when the automatic normalization is on, the
/// run is newer than the one the live mode began behind, and it was not
/// rejected.
pub proof fn new_runs_are_watched_for(active: bool, from: Option<u64>, run: u64, rejected: bool)
    ensures
        table::watches(active, from, run, rejected) ==> active && !rejected && from is Some && run
            > from->0,
        active && !rejected && from is Some && run > from->0 ==> table::watches(
            active,
            from,
            run,
            rejected,
        ),
{
}

/// The open beams of a row are those its result was divided by, once it has
/// one that tells; before, those chosen for the run, or the configuration's.
pub proof fn rows_show_their_open_beams(plan: Plan, run: u64, meta: Option<Meta>, done: bool)
    ensures
        meta is Some && (meta->0).obs.len() > 0 ==> table::sample_obs_words(
            plan,
            run,
            meta,
            done,
        ).text == beams::beams_words((meta->0).obs),
        (meta is None || (meta->0).obs.len() == 0) && !done && settings::override_of(
            plan.overrides,
            run,
        ).obs is Some ==> table::sample_obs_words(plan, run, meta, done).text == beams::beams_words(
            settings::override_of(plan.overrides, run).obs->0,
        ),
        (meta is None || (meta->0).obs.len() == 0) && !done && settings::override_of(
            plan.overrides,
            run,
        ).obs is None && settings::obs_for(plan, run).len() > 0 ==> table::sample_obs_words(
            plan,
            run,
            meta,
            done,
        ).text == beams::beams_words(settings::obs_for(plan, run)),
{
}

/// Open beams are told by their run numbers, in order; only when none has
/// one, by their names.
pub proof fn open_beams_are_told_by_their_runs(folders: Seq<Text>, run: u64)
    ensures
        beams::beam_runs(folders).len() > 0 ==> beams::beams_words(folders) == text::joined(
            number::decimals(beams::beam_runs(folders)),
            ", "@,
        ),
        beams::beam_runs(folders).len() == 0 ==> beams::beams_words(folders) == text::joined(
            beams::beam_names(folders),
            ", "@,
        ),
        number::decimals(seq![run]) == seq![number::decimal(run as nat)],
{
    assert(number::decimals(seq![run]) =~= seq![number::decimal(run as nat)]);
}

/// The banner tells every new open beam, those that can be used at once apart
/// from those that still wait for their corrected data.
pub proof fn banners_part_ready_from_waiting(
    found: Seq<(u64, FileStatus<Text>)>,
    complete: bool,
    run: u64,
)
    ensures
        table::beams_that(found, complete).contains(run) <==> exists|i: int|
            0 <= i < found.len() && (#[trigger] found[i]).0 == run && ((found[i].1 is Present)
                <==> complete),
        table::beams_that(found, true).len() + table::beams_that(found, false).len() == found.len(),
    decreases found.len(),
{
    if found.len() > 0 {
        let rest = found.drop_last();
        let last = found[found.len() - 1];
        banners_part_ready_from_waiting(rest, complete, run);
        lists::pushed_holds(table::beams_that(rest, complete), last.0, run);
        if exists|i: int|
            0 <= i < rest.len() && (#[trigger] rest[i]).0 == run && ((rest[i].1 is Present)
                <==> complete) {
            let i = choose|i: int|
                0 <= i < rest.len() && (#[trigger] rest[i]).0 == run && ((rest[i].1 is Present)
                    <==> complete);
            assert(found[i] == rest[i]);
        }
        if exists|i: int|
            0 <= i < found.len() && (#[trigger] found[i]).0 == run && ((found[i].1 is Present)
                <==> complete) {
            let i = choose|i: int|
                0 <= i < found.len() && (#[trigger] found[i]).0 == run && ((found[i].1 is Present)
                    <==> complete);
            if i < rest.len() {
                assert(rest[i] == found[i]);
            }
        }
    }
}

// ---------------------------------------------------------------------
// Labels

/// The runs that lack a result are the listed samples with corrected data
/// that were not rejected and are neither done nor running: all of them and
/// no others.
pub proof fn every_run_without_a_result_is_missing(
    rows: Seq<RunFiles<Text>>,
    jobs: Phases,
    rejected: Seq<u64>,
    image_paths: Map<u64, String>,
    run: u64,
)
    ensures
        labels::missing(rows, jobs, rejected, image_paths).contains(run) <==> {
            &&& exists|i: int|
                0 <= i < rows.len() && (#[trigger] rows[i]).run == run && rows[i].corrected
                    is Present
            &&& !rejected.contains(run)
            &&& beams::kind_in(image_paths, run) == RunKind::Sample
            &&& !(jobs.dom().contains(run) && jobs[run] is Done)
            &&& !(jobs.dom().contains(run) && jobs[run] is Running)
        },
    decreases rows.len(),
{
    if rows.len() > 0 {
        let rest = rows.drop_last();
        let last = rows[rows.len() - 1];
        every_run_without_a_result_is_missing(rest, jobs, rejected, image_paths, run);
        let older = labels::missing(rest, jobs, rejected, image_paths);
        let all = labels::missing(rows, jobs, rejected, image_paths);
        if labels::lacks_result(last, jobs, rejected, image_paths) {
            assert(all[0] == last.run);
            if older.contains(run) {
                let i = choose|i: int| 0 <= i < older.len() && older[i] == run;
                assert(all[i + 1] == run);
            }
            if all.contains(run) && run != last.run {
                let i = choose|i: int| 0 <= i < all.len() && all[i] == run;
                assert(older[i - 1] == run);
            }
        }
        if exists|i: int|
            0 <= i < rest.len() && (#[trigger] rest[i]).run == run && rest[i].corrected
                is Present {
            let i = choose|i: int|
                0 <= i < rest.len() && (#[trigger] rest[i]).run == run && rest[i].corrected
                    is Present;
            assert(rows[i] == rest[i]);
        }
        if exists|i: int|
            0 <= i < rows.len() && (#[trigger] rows[i]).run == run && rows[i].corrected
                is Present {
            let i = choose|i: int|
                0 <= i < rows.len() && (#[trigger] rows[i]).run == run && rows[i].corrected
                    is Present;
            if i < rest.len() {
                assert(rest[i] == rows[i]);
            }
        }
    }
}

/// The missing runs come newest first.
pub proof fn missing_runs_come_newest_first(
    rows: Seq<RunFiles<Text>>,
    row: RunFiles<Text>,
    jobs: Phases,
    rejected: Seq<u64>,
    image_paths: Map<u64, String>,
)
    ensures
        labels::missing(rows.push(row), jobs, rejected, image_paths).contains(row.run)
            && !labels::missing(rows, jobs, rejected, image_paths).contains(row.run)
            ==> labels::missing(rows.push(row), jobs, rejected, image_paths)[0] == row.run,
        labels::missing(rows.push(row), jobs, rejected, image_paths).len() >= labels::missing(
            rows,
            jobs,
            rejected,
            image_paths,
        ).len(),
{
    assert(rows.push(row).drop_last() =~= rows);
}

/// The results of the windows are the outputs of those that are done, in the
/// order of the windows.
pub proof fn window_results_are_those_done(windows: Seq<Window>, window: Window, output: Text)
    ensures
        labels::window_results(windows.push(window)) == (match window.state@ {
            Phase::Done { output, .. } => labels::window_results(windows).push(output),
            _ => labels::window_results(windows),
        }),
        labels::window_results(windows).contains(output) <==> exists|i: int|
            0 <= i < windows.len() && ((#[trigger] windows[i]).state@ matches Phase::Done {
                output: o,
                ..
            } && o == output),
        labels::window_results(windows).len() <= windows.len(),
    decreases windows.len(),
{
    assert(windows.push(window).drop_last() =~= windows);
    if windows.len() > 0 {
        let rest = windows.drop_last();
        let last = windows[windows.len() - 1];
        window_results_are_those_done(rest, window, output);
        match last.state@ {
            Phase::Done { output: o, .. } => {
                lists::pushed_holds(labels::window_results(rest), o, output);
            },
            _ => {},
        }
        if exists|i: int|
            0 <= i < rest.len() && ((#[trigger] rest[i]).state@ matches Phase::Done {
                output: o,
                ..
            } && o == output) {
            let i = choose|i: int|
                0 <= i < rest.len() && ((#[trigger] rest[i]).state@ matches Phase::Done {
                    output: o,
                    ..
                } && o == output);
            assert(windows[i] == rest[i]);
        }
        if exists|i: int|
            0 <= i < windows.len() && ((#[trigger] windows[i]).state@ matches Phase::Done {
                output: o,
                ..
            } && o == output) {
            let i = choose|i: int|
                0 <= i < windows.len() && ((#[trigger] windows[i]).state@ matches Phase::Done {
                    output: o,
                    ..
                } && o == output);
            if i < rest.len() {
                assert(rest[i] == windows[i]);
            }
        }
    }
}

/// The rejected rows are counted one by one.
pub proof fn rejected_rows_are_counted(
    rows: Seq<RunFiles<Text>>,
    row: RunFiles<Text>,
    rejected: Seq<u64>,
)
    ensures
        labels::rejected_count(Seq::empty(), rejected) == 0,
        rejected.contains(row.run) ==> labels::rejected_count(rows.push(row), rejected)
            == labels::rejected_count(rows, rejected) + 1,
        !rejected.contains(row.run) ==> labels::rejected_count(rows.push(row), rejected)
            == labels::rejected_count(rows, rejected),
{
    assert(rows.push(row).drop_last() =~= rows);
}

/// A window tells how many runs it holds and which: one by its number,
/// consecutive ones by the first and the last, a few others one by one.
pub proof fn windows_tell_their_runs(runs: Seq<u64>, run: u64)
    requires
        forall|i: int, j: int| 0 <= i < j < runs.len() ==> runs[i] < runs[j],
    ensures
        labels::window_words(seq![run]) == "1 run ("@ + number::decimal(run as nat) + ")"@,
        labels::window_words(Seq::empty()) == "no run in window"@,
        runs.len() > 1 && runs[runs.len() - 1] - runs[0] == runs.len() - 1 ==> labels::window_words(
            runs,
        ) == number::decimal(runs.len()) + " runs ("@ + number::decimal(runs[0] as nat) + "–"@
            + number::decimal(runs[runs.len() - 1] as nat) + ")"@,
        1 < runs.len() <= 8 && runs[runs.len() - 1] - runs[0] != runs.len() - 1
            ==> labels::window_words(runs) == number::decimal(runs.len()) + " runs ("@
            + text::joined(number::decimals(runs), ", "@) + ")"@,
        runs.len() > 8 && runs[runs.len() - 1] - runs[0] != runs.len() - 1
            ==> labels::window_words(runs) == number::decimal(runs.len()) + " runs ("@
            + number::decimal(runs[0] as nat) + ", …, "@ + number::decimal(
            runs[runs.len() - 1] as nat,
        ) + ")"@,
{
    if runs.len() > 1 {
        assert(runs[0] < runs[runs.len() - 1]);
    }
}

proof fn lemma_shows_two(a: Text, b: Text, c: Text)
    ensures
        shows(a + b + c, b + c),
{
    assert(a + b + c =~= a + (b + c));
    lemma_shows_end(a, b + c);
}

proof fn lemma_shows_in_six(a: Text, b: Text, c: Text, d: Text, e: Text, f: Text)
    ensures
        shows(a + b + c + d + e + f, c + d),
        shows(a + b + c + d + e + f, e),
        shows(a + b + c + d + e + f, f),
{
    lemma_shows_two(a + b, c, d);
    lemma_shows_on(a + b + c + d, e, c + d);
    lemma_shows_on(a + b + c + d + e, f, c + d);
    lemma_shows_end(a + b + c + d, e);
    lemma_shows_on(a + b + c + d + e, f, e);
    lemma_shows_end(a + b + c + d + e, f);
}

proof fn lemma_shows_tail(a: Text, b: Text, c: Text, d: Text, e: Text)
    ensures
        shows(a + b + c + d + e, b + c + d + e),
{
    let t = b + c + d + e;
    assert(a + b + c + d + e =~= a + t);
    lemma_shows_end(a, t);
}

/// All windows can be compared exactly when every one is done, and the label
/// tells how many are.
pub proof fn comparing_waits_for_every_window(done: nat, total: nat)
    ensures
        done == total ==> shows(labels::compare_words(done, total).text, " (ready)"@),
        done != total ==> shows(
            labels::compare_words(done, total).hover->0,
            number::decimal(done) + " of "@ + number::decimal(total) + " ready)"@,
        ),
{
    lemma_shows_end("👁 Compare all "@ + number::decimal(total), " (ready)"@);
    lemma_shows_tail(
        "All windows must be normalized first ("@,
        number::decimal(done),
        " of "@,
        number::decimal(total),
        " ready)"@,
    );
}

/// Progress is told as the place of the stage among the announced ones.
pub proof fn progress_is_told_by_the_stage(stages: Seq<Text>, k: int)
    requires
        0 <= k < stages.len(),
        forall|j: int| 0 <= j < k ==> #[trigger] stages[j] != stages[k],
    ensures
        labels::progress_words(stages[k], stages) == number::decimal((k + 1) as nat) + "/"@
            + number::decimal(stages.len()) + " "@ + stages[k],
{
    crate::laws::running::stages_stand_at_their_place(stages, stages[k], 0, k);
}

/// A stage before the current one is ticked off, the current one points, and
/// a later one is still to come.
pub proof fn stages_are_marked_by_their_place(i: int, current: int)
    ensures
        labels::stage_mark(i, current) == "✔"@ <==> i < current,
        labels::stage_mark(i, current) == "▶"@ <==> i == current,
        labels::stage_mark(i, current) == "·"@ <==> i > current,
{
    reveal_strlit("✔");
    reveal_strlit("▶");
    reveal_strlit("·");
    assert("✔"@[0] == '✔' && "▶"@[0] == '▶' && "·"@[0] == '·');
}

// ---------------------------------------------------------------------
// The editor

/// Ticking a folder puts it among the selected ones, unticking takes it out,
/// and the other folders stay as they are.
pub proof fn ticks_choose_one_folder(selected: Seq<Text>, folder: Text, other: Text)
    ensures
        choices::path_listed(editor::ticked(selected, folder, true), folder),
        !choices::path_listed(editor::ticked(selected, folder, false), folder),
        !paths::same_path(other, folder) ==> {
            &&& choices::path_listed(editor::ticked(selected, folder, true), other)
                <==> choices::path_listed(selected, other)
            &&& choices::path_listed(editor::ticked(selected, folder, false), other)
                <==> choices::path_listed(selected, other)
        },
{
    let on = editor::ticked(selected, folder, true);
    let off = editor::ticked(selected, folder, false);
    let keep = |f: Text| !paths::same_path(f, folder);
    if !choices::path_listed(selected, folder) {
        assert(on[selected.len() as int] == folder);
        assert(paths::same_path(on[selected.len() as int], folder));
    }
    if choices::path_listed(off, folder) {
        let i = choose|i: int| 0 <= i < off.len() && paths::same_path(#[trigger] off[i], folder);
        lists::filtered_holds(selected, keep, off[i]);
        assert(off.contains(off[i]));
    }
    if !paths::same_path(other, folder) {
        if choices::path_listed(selected, other) {
            let i = choose|i: int|
                0 <= i < selected.len() && paths::same_path(#[trigger] selected[i], other);
            assert(on[i] == selected[i]);
            lists::filtered_holds(selected, keep, selected[i]);
            let k = choose|k: int| 0 <= k < off.len() && off[k] == selected[i];
            assert(paths::same_path(off[k], other));
        }
        if choices::path_listed(on, other) {
            let i = choose|i: int| 0 <= i < on.len() && paths::same_path(#[trigger] on[i], other);
            if i < selected.len() {
                assert(selected[i] == on[i]);
            }
        }
        if choices::path_listed(off, other) {
            let i = choose|i: int| 0 <= i < off.len() && paths::same_path(#[trigger] off[i], other);
            lists::filtered_holds(selected, keep, off[i]);
            assert(off.contains(off[i]));
            let k = choose|k: int| 0 <= k < selected.len() && selected[k] == off[i];
            assert(paths::same_path(selected[k], other));
        }
    }
}

/// An open beam offered for a run warns when its data is not complete, and
/// when its number of frames differs from the run's; otherwise it does not.
pub proof fn unfit_open_beams_are_marked(c: Choice, frames: nat, config_obs: Seq<Text>)
    ensures
        !c.complete ==> shows(
            editor::choice_words(c, frames, config_obs),
            "  (⏳ corrected data not complete)"@,
        ),
        c.complete && frames > 0 && c.frames != frames ==> shows(
            editor::choice_words(c, frames, config_obs),
            "  (⚠ frame count differs)"@,
        ),
        choices::path_listed(config_obs, c.folder) ==> shows(
            editor::choice_words(c, frames, config_obs),
            "  [configuration's]"@,
        ),
        shows(
            editor::choice_words(c, frames, config_obs),
            number::decimal(c.frames) + " frames"@,
        ),
{
    let who = match c.run {
        Some(run) => "run "@ + number::decimal(run as nat),
        None => paths::name_of(c.folder),
    };
    let but = if !c.complete {
        "  (⏳ corrected data not complete)"@
    } else if frames > 0 && c.frames != frames {
        "  (⚠ frame count differs)"@
    } else {
        ""@
    };
    let own = if choices::path_listed(config_obs, c.folder) {
        "  [configuration's]"@
    } else {
        ""@
    };
    lemma_shows_in_six(who, " — "@, number::decimal(c.frames), " frames"@, but, own);
}

proof fn lemma_joined_shows(parts: Seq<Text>, sep: Text, i: int)
    requires
        0 <= i < parts.len(),
    ensures
        shows(text::joined(parts, sep), parts[i]),
    decreases parts.len(),
{
    if parts.len() == 1 {
        lemma_shows_end(Seq::empty(), parts[0]);
    } else {
        let rest = parts.drop_last();
        let last = parts[parts.len() - 1];
        if i < rest.len() {
            assert(rest[i] == parts[i]);
            lemma_joined_shows(rest, sep, i);
            lemma_shows_on(text::joined(rest, sep), sep + last, parts[i]);
            assert(text::joined(rest, sep) + sep + last =~= text::joined(rest, sep) + (sep
                + last));
        } else {
            lemma_shows_end(text::joined(rest, sep) + sep, last);
        }
    }
}

proof fn lemma_shows_on(a: Text, b: Text, p: Text)
    ensures
        shows(a, p) ==> shows(a + b, p),
        shows(b, p) ==> shows(a + b, p),
{
    let s = a + b;
    if shows(a, p) {
        let i = choose|i: int| text::occurs_at(a, p, i);
        assert(s.subrange(i, i + p.len()) =~= a.subrange(i, i + p.len()));
        assert(text::occurs_at(s, p, i));
    }
    if shows(b, p) {
        let i = choose|i: int| text::occurs_at(b, p, i);
        let k = a.len() + i;
        assert(s.subrange(k, k + p.len()) =~= b.subrange(i, i + p.len()));
        assert(text::occurs_at(s, p, k));
    }
}

/// A list of runs shows every one of them.
pub proof fn lists_show_every_run(runs: Seq<u64>, i: int)
    requires
        0 <= i < runs.len(),
    ensures
        shows(labels::run_list(runs), number::decimal(runs[i] as nat)),
{
    lemma_joined_shows(number::decimals(runs), ", "@, i);
    assert(number::decimals(runs)[i] == number::decimal(runs[i] as nat));
}

/// A folder is shown by its last name.
pub proof fn folders_are_shown_by_their_name(dir: Text, name: Text)
    requires
        paths::plain_name(name),
        name != seq!['.', '.'],
    ensures
        labels::short(paths::below(dir, name)) == name,
        ipts::called(paths::below(dir, name)) == name,
{
    paths::file_name_of_below(dir, name);
}

/// The heading counts the rows, the rejected ones apart.
pub proof fn the_heading_counts_the_rows(rows: nat, rejected: nat, upcoming: bool)
    requires
        0 < rows,
        rejected <= rows,
    ensures
        rejected == 0 ==> labels::heading_words(true, rows, rejected, upcoming)
            == "5. Live reduction ("@ + number::decimal(rows) + " runs)"@,
        rejected > 0 ==> labels::heading_words(true, rows, rejected, upcoming)
            == "5. Live reduction ("@ + number::decimal((rows - rejected) as nat) + " runs, "@
            + number::decimal(rejected) + " rejected)"@,
        labels::folded(false, rows, upcoming),
        !labels::folded(true, rows, upcoming),
        labels::folded(true, 0, false),
        !labels::folded(true, 0, true),
{
}

/// A run can be rejected when it is not, and restored when it is; an
/// alignment can be neither.
pub proof fn rejected_runs_can_be_restored(kind: RunKind, rejected: bool)
    ensures
        kind != RunKind::Alignment && rejected ==> table::use_words(kind, rejected).text
            == "↩ restore"@,
        kind != RunKind::Alignment && !rejected ==> table::use_words(kind, rejected).text
            == "✖ reject"@,
        kind == RunKind::Alignment ==> table::use_words(kind, rejected).text == "—"@,
        table::run_hover_words(rejected, kind) is None <==> !rejected && kind == RunKind::Sample,
{
}

/// The corrected data of an alignment that has none is nothing to wait for;
/// of every other run it has its state.
pub proof fn alignments_wait_for_nothing(kind: RunKind, status: FileStatus<Text>)
    ensures
        kind != RunKind::Alignment || status is Present ==> table::corrected_words(kind, status)
            == labels::status_words(status),
        kind == RunKind::Alignment && !(status is Present) ==> table::corrected_words(
            kind,
            status,
        ).tone == Tone::Dim && table::corrected_words(kind, status).text == "—"@,
        status matches FileStatus::Present(folder) ==> shows(
            table::preview_words(kind, status).hover->0,
            folder,
        ) && table::preview_words(kind, status).text == "👁"@,
        !(status is Present) ==> table::preview_words(kind, status).text == "—"@,
{
    match status {
        FileStatus::Present(folder) => {
            lemma_shows_end("Open the corrected data in the TIFF viewer\n"@, folder);
        },
        _ => {},
    }
}

/// An open beam is in use when the configuration names it; otherwise it is
/// rejected, new or not in use, in this order.
pub proof fn open_beams_tell_whether_they_are_used(
    run: u64,
    plan: Plan,
    meta: Option<Meta>,
    done: bool,
    rejected: Seq<u64>,
    rows: Seq<RunFiles<Text>>,
    image_paths: Map<u64, String>,
)
    ensures
        ({
            let cell = table::obs_words(
                run,
                RunKind::OpenBeam,
                plan,
                meta,
                done,
                rejected,
                rows,
                image_paths,
            );
            let used = beams::beam_runs(plan.config_obs).contains(run);
            let fresh = table::is_offered(
                beams::new_beams(rows, image_paths, rejected, plan.config_obs),
                run,
            );
            &&& used ==> cell.text == "✔ in use"@ && cell.tone == Tone::Success
            &&& !used && rejected.contains(run) ==> cell.text == "rejected"@
            &&& !used && !rejected.contains(run) && fresh ==> cell.text == "new"@ && cell.tone
                == Tone::Warning
            &&& !used && !rejected.contains(run) && !fresh ==> cell.text == "not in use"@
        }),
{
}

/// A row shows the configuration its run will be normalized with, by its
/// name and its path, and tells an own one from the selected one.
pub proof fn rows_show_their_configuration(plan: Plan, run: u64, meta: Option<Meta>, done: bool)
    ensures
        ({
            let cell = table::config_cell_words(plan, run, meta, done);
            &&& settings::config_for(plan, run) matches Some(path) ==> cell.text == labels::short(
                path,
            ) && shows(cell.hover->0, path)
            &&& settings::config_for(plan, run) is None ==> cell.text == "— none —"@ && cell.tone
                == Tone::Warning
            &&& cell.tone == Tone::Info <==> settings::override_of(plan.overrides, run).config
                is Some
            &&& meta is Some && (meta->0).config is Some && settings::config_for(plan, run) is Some
                && !paths::same_path(settings::config_for(plan, run)->0, (meta->0).config->0)
                ==> shows(cell.hover->0, (meta->0).config->0)
        }),
{
    let own = settings::override_of(plan.overrides, run).config;
    let effective = settings::config_for(plan, run);
    let ran = match meta {
        Some(m) => m.config,
        None => None,
    };
    let a = table::config_hover(own, effective);
    let b = table::ran_with_words(effective, ran, done);
    match effective {
        Some(path) => {
            lemma_shows_end(
                "Configuration picked for this run instead of the section 2 selection — its open beams, settings and output folder (unless ⇄ / ✏ say otherwise)\n"@,
                path,
            );
            lemma_shows_end("The section 2 selection\n"@, path);
            lemma_shows_on(a, b, path);
        },
        None => {},
    }
    match ran {
        Some(path) => {
            lemma_shows_end(
                "\n\nThis run's normalization ran with another file (↻ re-run to use the one shown):\n"@,
                path,
            );
            lemma_shows_on(a, b, path);
        },
        None => {},
    }
}

/// A sample's row shows where its result lies once it has one, and where it
/// will lie before: the folder chosen for the run, or the configuration's.
pub proof fn rows_show_their_output(
    plan: Plan,
    run: u64,
    ipts: Text,
    meta: Option<Meta>,
    base: Text,
    row: Text,
)
    requires
        paths::plain_name(row),
    ensures
        meta is Some && (meta->0).output is Some ==> shows(
            table::output_cell_words(RunKind::Sample, plan, run, ipts, meta).hover->0,
            (meta->0).output->0,
        ),
        (meta is None || (meta->0).output is None) && settings::override_of(
            plan.overrides,
            run,
        ).output is Some ==> {
            let cell = table::output_cell_words(RunKind::Sample, plan, run, ipts, meta);
            let folder = settings::override_of(plan.overrides, run).output->0;
            cell.text == labels::short(folder) && shows(cell.hover->0, folder) && cell.tone
                == Tone::Info
        },
        (meta is None || (meta->0).output is None) && settings::override_of(
            plan.overrides,
            run,
        ).output is None && settings::base_for(plan, run, ipts) is Some ==> {
            let cell = table::output_cell_words(RunKind::Sample, plan, run, ipts, meta);
            let folder = settings::base_for(plan, run, ipts)->0;
            cell.text == labels::short(folder) && shows(cell.hover->0, folder)
        },
        table::result_base(paths::below(paths::below(base, row), "normalization"@)) == paths::tidy(
            base,
        ),
{
    assert(paths::plain_name("normalization"@)) by {
        reveal_strlit("normalization");
        assert("normalization"@.len() == 13);
    }
    paths::parent_of_below(base, row);
    paths::parent_of_below(paths::below(base, row), "normalization"@);
    if meta is Some && (meta->0).output is Some {
        let output = (meta->0).output->0;
        let over = settings::override_of(plan.overrides, run).output;
        lemma_shows_end(
            "Result folder of this run's normalization"@ + (if over is Some {
                " (output folder chosen for this run, ✏)"@
            } else {
                ""@
            }) + "\n"@,
            output,
        );
    }
    match settings::override_of(plan.overrides, run).output {
        Some(folder) => {
            lemma_shows_end(
                "Output folder chosen for this run (✏) — the result goes to Run_<run>/normalization in there\n"@,
                folder,
            );
        },
        None => {},
    }
    match settings::base_for(plan, run, ipts) {
        Some(folder) => {
            lemma_shows_end(
                "The configuration's output folder — the result goes to Run_<run>/normalization in there\n"@,
                folder,
            );
        },
        None => {},
    }
}

/// The banner shows every new open beam, and its note those still waiting.
pub proof fn banners_show_every_new_open_beam(
    found: Seq<(u64, FileStatus<Text>)>,
    config_obs: Seq<Text>,
    i: int,
    k: int,
)
    requires
        0 <= i < found.len(),
    ensures
        shows(
            table::banner_words(found, config_obs).text,
            number::decimal(found[i].0 as nat),
        ),
        0 <= k < table::beams_that(found, false).len() ==> shows(
            table::switch_note(found),
            number::decimal(table::beams_that(found, false)[k] as nat),
        ),
{
    let runs = table::runs_of(found);
    assert(runs[i] == found[i].0);
    lists_show_every_run(runs, i);
    let front = "🔆 New open beam run"@ + (if found.len() > 1 {
        "s"@
    } else {
        ""@
    }) + ": "@;
    lemma_shows_on(front, labels::run_list(runs), number::decimal(found[i].0 as nat));
    let waiting = table::beams_that(found, false);
    if 0 <= k < waiting.len() {
        let n = number::decimal(waiting[k] as nat);
        let list = labels::run_list(waiting);
        lists_show_every_run(waiting, k);
        let a = "— ⏳ waiting for the corrected data of "@;
        lemma_shows_on(a, list, n);
        lemma_shows_on(a + list, " (autoreduction)"@, n);
        let b =
            "— ⇄ replace by… on a row switches to them, for that run or for every upcoming run (⏳ "@;
        lemma_shows_on(b, list, n);
        lemma_shows_on(b + list, " still waiting for corrected data)"@, n);
    }
}

/// A window shows when it was normalized and of how many runs, or that it
/// failed and why.
pub proof fn windows_show_their_state(phase: Phase)
    ensures
        labels::window_state_words(phase) is None <==> phase is Running,
        phase matches Phase::Done { output, finished, runs } ==> (labels::window_state_words(
            phase,
        ) matches Some(w) && w.tone == Tone::Success && w.hover == Some(output) && shows(
            w.text,
            number::decimal(runs.len()) + " run(s))"@,
        )),
        phase matches Phase::Failed { message, log } ==> (labels::window_state_words(
            phase,
        ) matches Some(w) && w.tone == Tone::Danger && shows(w.hover->0, message)),
{
    match phase {
        Phase::Done { output, finished, runs } => {
            lemma_shows_two(
                "✔ "@ + labels::time_of_day(finished) + " ("@,
                number::decimal(runs.len()),
                " run(s))"@,
            );
        },
        Phase::Failed { message, log } => {
            lemma_shows_end(Seq::empty(), message);
            match log {
                Some(l) => {
                    lemma_shows_end("\n\nfull log: "@, message);
                    lemma_shows_on(message + "\n\nfull log: "@, l, message);
                },
                None => {},
            }
        },
        _ => {},
    }
}

/// Without output to show, a failed job shows its message, and a result found
/// on disk where it lies.
pub proof fn jobs_without_output_say_why(phase: Phase)
    ensures
        phase matches Phase::Failed { message, log } ==> shows(
            labels::no_output_words(Some(phase)).0,
            message,
        ) && labels::no_output_words(Some(phase)).1 == Tone::Danger,
        phase matches Phase::Done { output, .. } ==> shows(
            labels::no_output_words(Some(phase)).0,
            output,
        ),
        phase is Running ==> labels::no_output_words(Some(phase)).1 == Tone::Info,
{
    match phase {
        Phase::Failed { message, log } => {
            lemma_shows_end(
                "The normalization was refused before NeuNorm started — nothing to stream. Reason:\n\n"@,
                message,
            );
            match log {
                Some(l) => {
                    lemma_shows_end("\n\nfull log: "@, message);
                    lemma_shows_on(message + "\n\nfull log: "@, l, message);
                },
                None => {},
            }
        },
        Phase::Done { output, .. } => {
            lemma_shows_end(
                "Result found on disk — normalized in another session or by the workflow runner, so there is no output to show here.\n"@,
                output,
            );
        },
        _ => {},
    }
}

/// The switch shows whether the automatic normalization is on, and what is
/// registered shows its proposal and its configuration.
pub proof fn the_switch_shows_what_is_on(active: bool, can: bool, cfg: config::Contents)
    ensures
        labels::switch_words(active, can).text == (if active {
            "Auto normalization: ON"@
        } else {
            "Auto normalization: OFF"@
        }),
        labels::switch_words(active, can).tone == (if active {
            Tone::Success
        } else {
            Tone::Danger
        }),
        config::value_of(cfg.entries, "ipts"@) matches Some(ipts) ==> shows(
            labels::registered_words(cfg).text,
            ipts,
        ),
        config::value_of(cfg.entries, "user_autoreduction_config_file"@) matches Some(file)
            ==> labels::registered_words(cfg).hover == Some(file) && shows(
            labels::registered_words(cfg).text,
            labels::short(file),
        ),
        shows(
            labels::registered_words(cfg).text,
            labels::firing(cfg.live_reduction, cfg.rolling_combine),
        ),
{
    let ipts = labels::or_unknown(config::value_of(cfg.entries, "ipts"@));
    let file = labels::short(
        labels::or_unknown(config::value_of(cfg.entries, "user_autoreduction_config_file"@)),
    );
    let what = labels::firing(cfg.live_reduction, cfg.rolling_combine);
    let all = labels::registered_words(cfg).text;
    lemma_shows_end("Active on "@, ipts);
    lemma_shows_on("Active on "@ + ipts, " with "@, ipts);
    lemma_shows_on("Active on "@ + ipts + " with "@, file, ipts);
    lemma_shows_on("Active on "@ + ipts + " with "@ + file, what, ipts);
    lemma_shows_end("Active on "@ + ipts + " with "@, file);
    lemma_shows_on("Active on "@ + ipts + " with "@ + file, what, file);
    lemma_shows_end("Active on "@ + ipts + " with "@ + file, what);
    assert(all == "Active on "@ + ipts + " with "@ + file + what);
}

/// What fires from here is told differently for each of the four settings.
pub proof fn what_fires_is_told_apart(live: bool, rolling: bool, live2: bool, rolling2: bool)
    requires
        labels::firing(live, rolling) == labels::firing(live2, rolling2),
    ensures
        live == live2,
        rolling == rolling2,
{
    reveal_strlit(" — live reduction + rolling combine & compare windows");
    reveal_strlit(" — live reduction only");
    reveal_strlit(" — rolling combine & compare windows only");
    reveal_strlit(" — nothing fires from here: check 4. and/or 5. below");
    assert(labels::firing(true, true)[3] == 'l' && labels::firing(true, true)[18] == '+');
    assert(labels::firing(true, false)[3] == 'l' && labels::firing(true, false)[18] == 'o');
    assert(labels::firing(false, true)[3] == 'r');
    assert(labels::firing(false, false)[3] == 'n');
}

/// The offer to normalize what is missing tells how many runs it is about.
pub proof fn the_offer_counts_the_missing_runs(count: nat, enabled: bool, parallel: nat)
    ensures
        labels::missing_words(count, enabled, parallel).text == "▶ normalize all missing ("@
            + number::decimal(count) + ")"@,
        enabled ==> shows(
            labels::missing_words(count, enabled, parallel).hover->0,
            number::decimal(parallel) + " at a time"@,
        ),
{
    lemma_shows_two(
        "Normalize every listed run that has its corrected data and no result yet — newest first, up to "@,
        number::decimal(parallel),
        " at a time"@,
    );
}

/// A bar of the timeline shows its run, and why it is left out when it is.
pub proof fn bars_show_their_run(run: u64, why: Text)
    ensures
        timeline::bar_words(run, None) == "run "@ + number::decimal(run as nat),
        timeline::bar_words(run, Some(why)) == "run "@ + number::decimal(run as nat) + " ("@ + why
            + ")"@,
{
    reveal_strlit("");
    assert(timeline::bar_words(run, None) =~= "run "@ + number::decimal(run as nat));
    assert(timeline::bar_words(run, Some(why)) =~= "run "@ + number::decimal(run as nat) + " ("@
        + why + ")"@);
}

/// The editor's buttons tell what they do: a run that is done is run again,
/// another is normalized; nothing ticked asks for a tick.
pub proof fn buttons_tell_what_they_do(none: bool, has_config: bool, run: u64, s: RunStanding)
    ensures
        s.done ==> shows(editor::replace_words(none, run, s).text, "re-run now"@),
        !s.done ==> shows(editor::replace_words(none, run, s).text, "normalize now"@),
        none ==> editor::replace_words(none, run, s).hover == Some("Tick at least one open beam"@),
        none ==> editor::upcoming_words(none, has_config, run, s).hover == Some(
            "Tick at least one open beam"@,
        ),
        !none && !has_config ==> editor::upcoming_words(none, has_config, run, s).hover == Some(
            "Select a configuration file first (section 2)"@,
        ),
        !none && !s.running ==> shows(
            editor::replace_words(none, run, s).hover->0,
            number::decimal(run as nat),
        ),
        shows(editor::title_words(EditorMode::OpenBeams, run), number::decimal(run as nat)),
        shows(editor::title_words(EditorMode::Output, run), number::decimal(run as nat)),
{
    let n = number::decimal(run as nat);
    lemma_shows_end("Replace for this run & "@, "re-run now"@);
    lemma_shows_end("Replace for this run & "@, "normalize now"@);
    lemma_shows("Run "@, n, " — replace the open beams by…"@);
    lemma_shows("Run "@, n, " — output folder"@);
    let what = "Use the ticked open beams for this run only"@;
    lemma_shows(
        what + " — normalized as soon as the corrected data of run "@,
        n,
        " is complete (automatically when auto normalization covers it, else with ▶ normalize)"@,
    );
    lemma_shows(
        what + " and normalize run "@,
        n,
        " again at once — the result already in the target folder is kept as normalization.previous"@,
    );
    lemma_shows(what + " and normalize run "@, n, " at once"@);
}

/// A typed proposal is refused when its folder is not there or may not be
/// entered, and taken otherwise; the message names its folder.
pub proof fn typed_proposals_must_be_there(path: Text, is_dir: bool, allowed: bool)
    ensures
        ipts::manual_refusal(path, is_dir, allowed) is None <==> is_dir && allowed,
        ipts::manual_refusal(path, is_dir, allowed) matches Some(why) ==> shows(why, path),
{
    lemma_shows_end(" does not exist"@, path);
    lemma_shows_end("no permission to access "@, path);
}

/// Rejecting a run twice changes nothing, and other runs are left alone.
pub proof fn rejecting_twice_restores(
    before: Seq<u64>,
    between: Seq<u64>,
    after: Seq<u64>,
    run: u64,
    n: u64,
)
    requires
        table::toggled(before, between, run),
        table::toggled(between, after, run),
    ensures
        after.contains(n) <==> before.contains(n),
        between.contains(run) <==> !before.contains(run),
        n != run ==> (between.contains(n) <==> before.contains(n)),
{
}

/// The table lists the typed runs where there are any, and otherwise every
/// run that was in a span so far: none is forgotten.
pub proof fn tables_forget_no_run(
    list: Seq<u64>,
    before: Seq<u64>,
    after: Seq<u64>,
    span: Seq<u64>,
    listed: Seq<u64>,
    run: u64,
)
    requires
        spans::tables(list, before, after, span, listed),
    ensures
        list.len() > 0 ==> listed == list,
        list.len() == 0 ==> (listed.contains(run) <==> before.contains(run) || span.contains(run)),
        before.contains(run) ==> after.contains(run),
        list.len() == 0 ==> forall|i: int, j: int|
            0 <= i < j < listed.len() ==> listed[i] < listed[j],
{
}

/// The output view is titled after its job: the run, or the minutes of the
/// window.
pub proof fn outputs_are_titled_after_their_job(run: u64, i: usize, windows: Seq<Window>)
    ensures
        labels::output_words(JobTarget::Run(run), windows) == "Output — run "@ + number::decimal(
            run as nat,
        ),
        i < windows.len() ==> labels::output_words(JobTarget::Window(i), windows)
            == "Output — window last "@ + number::decimal(windows[i as int].minutes as nat)
            + " min"@,
{
}

proof fn lemma_stages_show(stages: Seq<Text>, k: int, i: int)
    requires
        0 <= i < stages.len(),
    ensures
        shows(labels::stages_words(stages, k), labels::stage_mark(i + 1, k) + " "@ + stages[i]),
    decreases stages.len(),
{
    let rest = stages.drop_last();
    let last = stages[stages.len() - 1];
    let before = labels::stages_words(rest, k);
    let mark = labels::stage_mark(stages.len() as int, k);
    if i < rest.len() {
        assert(rest[i] == stages[i]);
        lemma_stages_show(rest, k, i);
        let p = labels::stage_mark(i + 1, k) + " "@ + stages[i];
        lemma_shows_on(before, "\n "@, p);
        lemma_shows_on(before + "\n "@, mark, p);
        lemma_shows_on(before + "\n "@ + mark, " "@, p);
        lemma_shows_on(before + "\n "@ + mark + " "@, last, p);
    } else {
        lemma_shows_three(before + "\n "@, mark, " "@, last);
    }
}

proof fn lemma_shows_three(a: Text, b: Text, c: Text, d: Text)
    ensures
        shows(a + b + c + d, b + c + d),
{
    assert(a + b + c + d =~= a + (b + c + d));
    lemma_shows_end(a, b + c + d);
}

/// The progress of a job shows every stage with its mark: ticked off before
/// the current one, pointing at it, and still to come behind it.
pub proof fn progress_shows_every_stage(what: Text, stages: Seq<Text>, k: int, i: int)
    requires
        0 <= k < stages.len(),
        0 <= i < stages.len(),
        forall|j: int| 0 <= j < k ==> #[trigger] stages[j] != stages[k],
    ensures
        ({
            let hover = labels::progress_hover_words(what, stages[k], stages);
            &&& i < k ==> shows(hover, "✔"@ + " "@ + stages[i])
            &&& i == k ==> shows(hover, "▶"@ + " "@ + stages[i])
            &&& i > k ==> shows(hover, "·"@ + " "@ + stages[i])
            &&& shows(hover, what)
        }),
{
    crate::laws::running::stages_stand_at_their_place(stages, stages[k], 0, k);
    let front = what + "\nstage "@ + number::decimal((k + 1) as nat) + "/"@ + number::decimal(
        stages.len(),
    );
    let all = labels::stages_words(stages, k + 1);
    lemma_stages_show(stages, k + 1, i);
    lemma_shows_on(front, all, labels::stage_mark(i + 1, k + 1) + " "@ + stages[i]);
    lemma_shows_end(Seq::empty(), what);
    lemma_shows_on(what, "\nstage "@, what);
    lemma_shows_on(what + "\nstage "@, number::decimal((k + 1) as nat), what);
    lemma_shows_on(what + "\nstage "@ + number::decimal((k + 1) as nat), "/"@, what);
    lemma_shows_on(
        what + "\nstage "@ + number::decimal((k + 1) as nat) + "/"@,
        number::decimal(stages.len()),
        what,
    );
    lemma_shows_on(front, all, what);
}

/// An open beam or an alignment shows the folder of its images, and each says
/// which of the two it is.
pub proof fn special_rows_show_their_folder(folder: Text)
    ensures
        shows(table::special_words(RunKind::OpenBeam, folder).hover->0, folder),
        shows(table::special_words(RunKind::Alignment, folder).hover->0, folder),
        table::special_words(RunKind::OpenBeam, folder).text
            == "open beam — no normalization needed"@,
        table::special_words(RunKind::Alignment, folder).text
            == "alignment run — no normalization needed"@,
{
    lemma_shows_end(
        "The NeXus records this run's images under an ob folder (BL10:Exp:IM:ImageFilePath log): an open-beam run is a normalization input, not something to normalize. Once its corrected data is complete, the banner above the table offers to make it the open beam of the upcoming runs\n"@,
        folder,
    );
    lemma_shows_end(
        "The NeXus records this run's images under an alignment folder (BL10:Exp:IM:ImageFilePath log): an alignment run is not corrected by the autoreduction and is not normalized — nothing to check or wait for\n"@,
        folder,
    );
}

/// A watched run waits for its corrected data, starts once it is there, and
/// asks for a configuration when it has none.
pub proof fn watched_rows_tell_what_they_wait_for(folder: Text, no_config: bool)
    ensures
        table::watched_words(FileStatus::Present(folder), false).text == "⏳ starting…"@,
        table::watched_words(FileStatus::Present(folder), true).text == "⚠ no configuration"@,
        table::watched_words(FileStatus::Writing(folder), no_config).text == "⏳ waiting"@,
        table::watched_words(FileStatus::Missing(folder), no_config).text == "⏳ waiting"@,
{
}

/// Windows can be launched by hand when one of them holds a run.
pub proof fn windows_with_runs_can_be_launched(windows: Seq<Window>, i: int)
    ensures
        0 <= i < windows.len() && windows[i].runs@.len() > 0 ==> labels::holds_runs(windows),
        (forall|j: int| 0 <= j < windows.len() ==> (#[trigger] windows[j]).runs@.len() == 0)
            ==> !labels::holds_runs(windows),
{
}

/// The planned open beams are told by their runs, and each folder is shown.
pub proof fn planned_open_beams_are_shown(obs: Seq<Text>, i: int)
    requires
        0 <= i < obs.len(),
    ensures
        table::planned_obs_words(obs).text == beams::beams_words(obs),
        shows(table::planned_obs_words(obs).hover->0, obs[i]),
{
    lemma_joined_shows(obs, "\n"@, i);
    lemma_shows_on(
        "Will divide by the configuration's open beam(s)\n"@,
        text::joined(obs, "\n"@),
        obs[i],
    );
}

/// A refusal for different numbers of images tells every input with its own
/// number.
pub proof fn refusals_name_every_input(
    samples: Seq<(Text, Text)>,
    obs: Seq<(Text, Text)>,
    images: Seq<(String, usize)>,
    i: int,
    j: int,
)
    requires
        0 <= i < samples.len(),
        0 <= j < obs.len(),
    ensures
        shows(norm::mismatch(samples, obs, images), norm::described(samples[i].0, images)),
        shows(norm::mismatch(samples, obs, images), norm::described(obs[j].0, images)),
{
    let a = norm::described_all(samples, images);
    let b = norm::described_all(obs, images);
    assert(a[i] == norm::described(samples[i].0, images));
    assert(b[j] == norm::described(obs[j].0, images));
    lemma_joined_shows(a, ", "@, i);
    lemma_joined_shows(b, ", "@, j);
    let p0 = "sample and open beam do not have the same number of images — sample "@;
    let p1 = text::joined(a, ", "@);
    let p2 = "; open beam "@;
    let p3 = text::joined(b, ", "@);
    let p4 =
        ". NeuNorm needs matching stacks: pick open beams acquired with the same settings (and re-save the configuration from the notebook so it names them)"@;
    lemma_shows_on(p0, p1, a[i]);
    lemma_shows_on(p0 + p1, p2, a[i]);
    lemma_shows_on(p0 + p1 + p2, p3, a[i]);
    lemma_shows_on(p0 + p1 + p2 + p3, p4, a[i]);
    lemma_shows_on(p0 + p1 + p2, p3, b[j]);
    lemma_shows_on(p0 + p1 + p2 + p3, p4, b[j]);
}

/// Only runs that are no samples are told by their kind.
pub proof fn kinds_are_told_apart(kind: RunKind)
    ensures
        beams::kind_words(kind) is None <==> kind == RunKind::Sample,
        beams::kind_words(RunKind::OpenBeam) == Some("open beam"@),
        beams::kind_words(RunKind::Alignment) == Some("alignment"@),
{
}

/// The selected configuration is shown by its name where a run may go back to
/// it.
pub proof fn the_selected_configuration_is_shown(path: Text)
    ensures
        shows(table::default_words(Some(path)), labels::short(path)),
{
    lemma_shows_end("(section 2) "@, labels::short(path));
}

/// Some run can be normalized exactly when one of them has a configuration.
pub proof fn one_configuration_is_enough(runs: Seq<u64>, plan: Plan, i: int)
    ensures
        0 <= i < runs.len() && settings::config_for(plan, runs[i]) is Some
            ==> labels::some_configured(runs, plan),
        plan.selected is Some && runs.len() > 0 ==> labels::some_configured(runs, plan),
        runs.len() == 0 ==> !labels::some_configured(runs, plan),
{
    if plan.selected is Some && runs.len() > 0 {
        assert(settings::config_for(plan, runs[0]) is Some);
    }
}

/// What is told of a failure shows its message and its log, where there is
/// one.
pub proof fn failures_point_to_their_log(message: Text, log: Option<Text>)
    ensures
        shows(labels::failure_words(message, log), message),
        log matches Some(l) ==> shows(labels::failure_words(message, log), l),
        log is None ==> labels::failure_words(message, log) == message,
{
    lemma_shows_end(message, message);
    match log {
        Some(l) => {
            lemma_shows_end("\n\nfull log: "@, message);
            lemma_shows_on(message + "\n\nfull log: "@, l, message);
            lemma_shows_end(message + "\n\nfull log: "@, l);
        },
        None => {},
    }
}

/// A button of the editor tells what it does to a run that does not run: set
/// what it sets, and normalize the run at once, again, or once its data are
/// there.
pub proof fn settings_tell_when_they_apply(what: Text, run: u64, s: RunStanding)
    ensures
        !s.running ==> shows(editor::apply_words(what, run, s), what),
        !s.running && s.ready && !s.done ==> shows(
            editor::apply_words(what, run, s),
            "normalize run "@ + number::decimal(run as nat) + " at once"@,
        ),
        !s.running && s.ready && s.done ==> shows(
            editor::apply_words(what, run, s),
            "normalize run "@ + number::decimal(run as nat) + " again at once"@,
        ),
        !s.running && !s.ready ==> shows(
            editor::apply_words(what, run, s),
            "as soon as the corrected data of run "@ + number::decimal(run as nat)
                + " is complete"@,
        ),
{
    let n = number::decimal(run as nat);
    reveal_strlit(" and normalize run ");
    reveal_strlit("normalize run ");
    reveal_strlit(" at once");
    reveal_strlit(" again at once");
    reveal_strlit(
        " again at once — the result already in the target folder is kept as normalization.previous",
    );
    reveal_strlit(" — normalized as soon as the corrected data of run ");
    reveal_strlit("as soon as the corrected data of run ");
    reveal_strlit(" is complete");
    reveal_strlit(
        " is complete (automatically when auto normalization covers it, else with ▶ normalize)",
    );
    if s.ready && s.done {
        lemma_shows_within(
            what,
            " and normalize run "@,
            n,
            " again at once — the result already in the target folder is kept as normalization.previous"@,
            "normalize run "@,
            " again at once"@,
        );
    } else if s.ready {
        lemma_shows_within(
            what,
            " and normalize run "@,
            n,
            " at once"@,
            "normalize run "@,
            " at once"@,
        );
    } else {
        lemma_shows_within(
            what,
            " — normalized as soon as the corrected data of run "@,
            n,
            " is complete (automatically when auto normalization covers it, else with ▶ normalize)"@,
            "as soon as the corrected data of run "@,
            " is complete"@,
        );
    }
}

/// A text of four parts shows its first one, and the third one between the
/// end of the second and the beginning of the fourth.
proof fn lemma_shows_within(a: Text, b: Text, c: Text, d: Text, p: Text, q: Text)
    requires
        p.len() <= b.len(),
        q.len() <= d.len(),
        b.skip(b.len() - p.len()) =~= p,
        d.take(q.len() as int) =~= q,
    ensures
        shows(a + b + c + d, a),
        shows(a + b + c + d, p + c + q),
{
    let front = a + b.take(b.len() - p.len());
    let back = d.skip(q.len() as int);
    let s = a + b + c + d;
    assert(b =~= b.take(b.len() - p.len()) + p);
    assert(d =~= q + back);
    assert(s =~= front + (p + c + q) + back);
    lemma_shows(front, p + c + q, back);
    assert(s =~= a + (b + c + d));
    lemma_shows_end(b + c + d, a);
}

/// The editor tells how many frames an open beam needs for a run.
pub proof fn the_frames_needed_are_told(run: u64, frames: nat)
    requires
        frames > 0,
    ensures
        shows(editor::frames_words(run, frames), number::decimal(frames) + " frames"@),
{
    let n = number::decimal(run as nat);
    let tail = " frames — tick open beams with the same number of frames (1 or more)."@;
    reveal_strlit(" frames");
    reveal_strlit(" frames — tick open beams with the same number of frames (1 or more).");
    let none = Seq::<char>::empty();
    lemma_shows_within(
        "The corrected data of run "@ + n + " has "@,
        none,
        number::decimal(frames),
        tail,
        none,
        " frames"@,
    );
    assert("The corrected data of run "@ + n + " has "@ + none =~= "The corrected data of run "@ + n
        + " has "@);
    assert(none + number::decimal(frames) + " frames"@ =~= number::decimal(frames) + " frames"@);
}

/// A combined result tells how many runs it combines, and which; every result
/// tells when it was finished and where it lies.
pub proof fn results_tell_their_runs(output: Text, finished: Text, runs: Seq<u64>)
    ensures
        runs.len() > 1 ==> shows(
            table::done_words(output, finished, runs).text,
            number::decimal(runs.len()) + " runs combined"@,
        ),
        runs.len() > 1 ==> shows(
            table::done_words(output, finished, runs).hover->0,
            labels::run_list(runs),
        ),
        shows(table::done_words(output, finished, runs).hover->0, finished),
        shows(table::done_words(output, finished, runs).hover->0, output),
{
    if runs.len() > 1 {
        let list = labels::run_list(runs);
        lemma_shows_two("✔ "@, number::decimal(runs.len()), " runs combined"@);
        lemma_shows_in_six("runs "@, list, "\nfinished "@, finished, "\n"@, output);
        lemma_shows_end("\nfinished "@, finished);
        lemma_shows_on("runs "@ + list, "\nfinished "@, list);
        lemma_shows_end("runs "@, list);
        lemma_shows_on("runs "@ + list + "\nfinished "@, finished, list);
        lemma_shows_end("runs "@ + list + "\nfinished "@, finished);
        lemma_shows_on("runs "@ + list + "\nfinished "@ + finished, "\n"@, list);
        lemma_shows_on("runs "@ + list + "\nfinished "@ + finished, "\n"@, finished);
        lemma_shows_on("runs "@ + list + "\nfinished "@ + finished + "\n"@, output, list);
        lemma_shows_on("runs "@ + list + "\nfinished "@ + finished + "\n"@, output, finished);
    } else {
        lemma_shows_end("finished "@, finished);
        lemma_shows_on("finished "@ + finished, "\n"@, finished);
        lemma_shows_on("finished "@ + finished + "\n"@, output, finished);
        lemma_shows_end("finished "@ + finished + "\n"@, output);
    }
}

/// A run that waits tells how many wait ahead of it and how many run; one that
/// does not wait tells neither.
pub proof fn waiting_runs_know_their_place(queue: Seq<u64>, jobs: Phases, run: u64)
    ensures
        table::waits(queue, jobs, run) is Some <==> table::place_in(queue, run, 0) is Some,
        table::waits(queue, jobs, run) matches Some((ahead, busy)) ==> table::place_in(
            queue,
            run,
            0,
        ) == Some(ahead) && busy == jobs::running(jobs).len(),
{
}

/// Indenting moves every line in, and keeps each as it is.
pub proof fn indented_lines_are_kept(lines: Seq<Text>, i: int)
    requires
        0 <= i < lines.len(),
    ensures
        labels::indented(lines).len() == lines.len(),
        labels::indented(lines)[i].len() == lines[i].len() + 6,
        labels::indented(lines)[i].skip(6) == lines[i],
        text::all_in(labels::indented(lines)[i].take(6), Class::Space),
{
    reveal_strlit("      ");
    let line = "      "@ + lines[i];
    assert(labels::indented(lines)[i] == line);
    assert(line.skip(6) =~= lines[i]);
    assert(line.take(6) =~= "      "@);
}

} // verus!
