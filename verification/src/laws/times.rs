//! What windows, spans and clocks tell.

use vstd::prelude::*;
use crate::clock::{LocalTime, Moment};
use crate::files::RunFiles;
use crate::h5::RunKind;
use crate::laws::lists;
use crate::norm::Window;
use crate::spans::Ends;
use crate::text::{Class, Text};
use crate::timeline::BarView;
use crate::{beams, clock, files, norm, number, order, spans, text, timeline};

verus! {

// ---------------------------------------------------------------------
// The clock

/// An end lies within a number of minutes of an anchor exactly when it is no
/// further back than that, to the nanosecond; leap seconds aside.
pub proof fn within_is_no_further_back(t: Moment, anchor: Moment, minutes: nat)
    requires
        t.nanos < 1_000_000_000,
        anchor.nanos < 1_000_000_000,
    ensures
        clock::within(t, anchor, minutes) <==> (anchor.secs - t.secs) * 1_000_000_000
            + anchor.nanos - t.nanos <= minutes * 60 * 1_000_000_000,
{
}

/// The time from one moment to another is the difference of the two, and
/// turns its sign with their order; leap seconds aside.
pub proof fn elapsed_time_is_the_difference(from: Moment, to: Moment)
    requires
        from.nanos < 1_000_000_000,
        to.nanos < 1_000_000_000,
    ensures
        clock::nanos_between(from, to) == (to.secs - from.secs) * 1_000_000_000 + to.nanos
            - from.nanos,
        clock::nanos_between(to, from) == -clock::nanos_between(from, to),
        clock::at_or_before(from, to) <==> clock::nanos_between(from, to) >= 0,
{
}

/// The time of day is told in hours, minutes and seconds, two digits each,
/// whatever the day.
pub proof fn clock_times_are_told_by_the_day(
    day: int,
    hour: int,
    minute: int,
    second: int,
    ahead: int,
    m: Moment,
)
    requires
        0 <= hour < 24,
        0 <= minute < 60,
        0 <= second < 60,
        m.nanos < 1_000_000_000,
        m.secs + ahead == day * 86_400 + hour * 3600 + minute * 60 + second,
    ensures
        clock::time_of_day(m, ahead) == number::two_digits(hour as nat) + ":"@ + number::two_digits(
            minute as nat,
        ) + ":"@ + number::two_digits(second as nat),
{
    let s = hour * 3600 + minute * 60 + second;
    assert((m.secs + ahead) % 86_400 == s) by {
        assert((day * 86_400 + s) % 86_400 == s) by (nonlinear_arith)
            requires
                0 <= s < 86_400,
        ;
    }
    assert(s / 3600 == hour);
    assert(s / 60 % 60 == minute);
    assert(s % 60 == second);
}

/// How long a job took is told in seconds, in minutes and seconds, or in
/// hours, minutes and seconds, whichever is the shortest that holds it.
pub proof fn durations_are_told_in_full(hours: nat, minutes: nat, seconds: nat)
    requires
        minutes < 60,
        seconds < 60,
    ensures
        hours > 0 ==> norm::duration_words((hours * 3600 + minutes * 60 + seconds) as int)
            == number::decimal(hours) + " h "@ + number::two_digits(minutes) + " min "@
            + number::two_digits(seconds) + " s"@,
        minutes > 0 ==> norm::duration_words((minutes * 60 + seconds) as int) == number::decimal(
            minutes,
        ) + " min "@ + number::two_digits(seconds) + " s"@,
        norm::duration_words(seconds as int) == number::decimal(seconds) + " s"@,
        norm::duration_words(-(seconds as int)) == number::decimal(0) + " s"@,
{
    let s = hours * 3600 + minutes * 60 + seconds;
    assert(s / 3600 == hours);
    assert((s % 3600) / 60 == minutes);
    assert(s % 60 == seconds);
    let t = minutes * 60 + seconds;
    assert(t / 3600 == 0);
    assert((t % 3600) / 60 == minutes);
    assert(t % 60 == seconds);
}

// ---------------------------------------------------------------------
// The spans

proof fn lemma_live(runs: Seq<u64>, ends: Ends, minutes: nat, a: Moment, i: int)
    requires
        0 <= i < runs.len(),
        ends(runs[i]) is Some,
        order::ascending(runs),
    ensures
        spans::span_times(runs, ends, true, minutes, Some(a)).contains((runs[i], ends(runs[i])->0))
            <==> forall|j: int|
            i <= j < runs.len() && ends(#[trigger] runs[j]) is Some ==> clock::within(
                ends(runs[j])->0,
                a,
                minutes,
            ),
    decreases runs.len(),
{
    let rest = runs.drop_last();
    let last = runs.last();
    let x = (runs[i], ends(runs[i])->0);
    let all = spans::span_times(runs, ends, true, minutes, Some(a));
    assert(runs[runs.len() - 1] == last);
    if i < rest.len() {
        assert(rest[i] == runs[i]);
        lemma_live(rest, ends, minutes, a, i);
        if forall|j: int|
            i <= j < runs.len() && ends(#[trigger] runs[j]) is Some ==> clock::within(
                ends(runs[j])->0,
                a,
                minutes,
            ) {
            assert forall|j: int| i <= j < rest.len() && ends(#[trigger] rest[j]) is Some implies
                clock::within(ends(rest[j])->0, a, minutes) by {
                assert(rest[j] == runs[j]);
            }
        }
        if forall|j: int|
            i <= j < rest.len() && ends(#[trigger] rest[j]) is Some ==> clock::within(
                ends(rest[j])->0,
                a,
                minutes,
            ) {
            assert forall|j: int| i <= j < rest.len() && ends(#[trigger] runs[j]) is Some implies
                clock::within(ends(runs[j])->0, a, minutes) by {
                assert(rest[j] == runs[j]);
            }
        }
    }
    match ends(last) {
        None => {},
        Some(time) => {
            if clock::within(time, a, minutes) {
                let inner = spans::span_times(rest, ends, true, minutes, Some(a));
                assert(all[0] == (last, time));
                if inner.contains(x) {
                    let k = choose|k: int| 0 <= k < inner.len() && inner[k] == x;
                    assert(all[k + 1] == x);
                }
                if all.contains(x) && x != (last, time) {
                    let k = choose|k: int| 0 <= k < all.len() && all[k] == x;
                    assert(inner[k - 1] == x);
                }
            }
        },
    }
}

proof fn lemma_live_start(runs: Seq<u64>, ends: Ends, minutes: nat, i: int)
    requires
        0 <= i < runs.len(),
        ends(runs[i]) is Some,
    ensures
        spans::newest_end(runs, ends) is Some,
        spans::span_times(runs, ends, true, minutes, None) == spans::span_times(
            runs,
            ends,
            true,
            minutes,
            spans::newest_end(runs, ends),
        ),
    decreases runs.len(),
{
    if ends(runs.last()) is None {
        assert(runs.drop_last()[i] == runs[i]);
        lemma_live_start(runs.drop_last(), ends, minutes, i);
    }
}

/// In live mode the span reaches back from the newest run without a gap: a
/// run is in it exactly when it and every newer run with a known end ended
/// within the minutes of the newest end.
pub proof fn live_spans_reach_back_without_a_gap(
    runs: Seq<u64>,
    ends: Ends,
    minutes: nat,
    i: int,
)
    requires
        0 <= i < runs.len(),
        ends(runs[i]) is Some,
        order::ascending(runs),
    ensures
        spans::newest_end(runs, ends) is Some,
        spans::span_times(runs, ends, true, minutes, None).contains((runs[i], ends(runs[i])->0))
            <==> forall|j: int|
            i <= j < runs.len() && ends(#[trigger] runs[j]) is Some ==> clock::within(
                ends(runs[j])->0,
                spans::newest_end(runs, ends)->0,
                minutes,
            ),
{
    lemma_live_start(runs, ends, minutes, i);
    lemma_live(runs, ends, minutes, spans::newest_end(runs, ends)->0, i);
}

/// The newest end is that of the last run of the list whose end is known.
pub proof fn the_newest_end_is_of_the_last_run(runs: Seq<u64>, ends: Ends, i: int)
    requires
        0 <= i < runs.len(),
        ends(runs[i]) is Some,
        forall|j: int| i < j < runs.len() ==> ends(#[trigger] runs[j]) is None,
    ensures
        spans::newest_end(runs, ends) == ends(runs[i]),
    decreases runs.len(),
{
    if i < runs.len() - 1 {
        assert(ends(runs[runs.len() - 1]) is None);
        let rest = runs.drop_last();
        assert forall|j: int| i < j < rest.len() implies ends(#[trigger] rest[j]) is None by {
            assert(rest[j] == runs[j]);
        }
        the_newest_end_is_of_the_last_run(rest, ends, i);
    }
}

/// The widest window is at least as wide as every window, and is one of
/// them.
pub proof fn the_widest_window_is_the_widest(windows: Seq<Window>)
    ensures
        forall|i: int|
            0 <= i < windows.len() ==> (#[trigger] windows[i]).minutes <= spans::widest(windows),
        spans::widest(windows) > 0 ==> exists|i: int|
            0 <= i < windows.len() && (#[trigger] windows[i]).minutes == spans::widest(windows),
    decreases windows.len(),
{
    if windows.len() > 0 {
        let rest = windows.drop_last();
        the_widest_window_is_the_widest(rest);
        assert forall|i: int| 0 <= i < windows.len() implies (#[trigger] windows[i]).minutes
            <= spans::widest(windows) by {
            if i < rest.len() {
                assert(rest[i] == windows[i]);
            }
        }
        if windows.last().minutes > spans::widest(rest) {
            assert(windows[windows.len() - 1].minutes == spans::widest(windows));
        } else if spans::widest(windows) > 0 {
            let i = choose|i: int|
                0 <= i < rest.len() && (#[trigger] rest[i]).minutes == spans::widest(rest);
            assert(windows[i].minutes == spans::widest(windows));
        }
    }
}

/// The windows look at every sample run that was not rejected, at no
/// rejected run, no open beam and no alignment, and at each with its own end.
pub proof fn windows_look_at_samples(
    times: Seq<(u64, Moment)>,
    rejected: Seq<u64>,
    image_paths: Map<u64, String>,
    run: u64,
    time: Moment,
)
    ensures
        spans::kept(times, rejected, image_paths).contains((run, time)) <==> times.contains(
            (run, time),
        ) && !rejected.contains(run) && beams::kind_in(image_paths, run) == RunKind::Sample,
{
    let p = |t: (u64, Moment)|
        !rejected.contains(t.0) && beams::kind_in(image_paths, t.0) == RunKind::Sample;
    lists::filtered_holds(times, p, (run, time));
}

/// The anchor of the windows is the highest run of any of them; there is
/// none only when all are empty.
pub proof fn the_anchor_is_the_newest_run(windows: Seq<Window>)
    ensures
        spans::newest_in(windows) is None <==> forall|i: int|
            0 <= i < windows.len() ==> (#[trigger] windows[i]).runs@.len() == 0,
        spans::newest_in(windows) matches Some(newest) ==> {
            &&& forall|i: int, k: int|
                0 <= i < windows.len() && 0 <= k < windows[i].runs@.len()
                    ==> #[trigger] windows[i].runs@[k] <= newest
            &&& exists|i: int|
                0 <= i < windows.len() && (#[trigger] windows[i]).runs@.contains(newest)
        },
    decreases windows.len(),
{
    if windows.len() > 0 {
        let rest = windows.drop_last();
        the_anchor_is_the_newest_run(rest);
        let last = windows[windows.len() - 1];
        let runs = last.runs@;
        assert(rest.push(last) =~= windows);
        if runs.len() > 0 {
            norm::highest_is_highest(runs);
            assert(runs.contains(beams::newest(runs)));
        }
        match spans::newest_in(windows) {
            Some(newest) => {
                assert forall|i: int, k: int|
                    0 <= i < windows.len() && 0 <= k < windows[i].runs@.len() implies
                    #[trigger] windows[i].runs@[k] <= newest by {
                    if i < rest.len() {
                        assert(rest[i].runs@[k] == windows[i].runs@[k]);
                        assert(rest[i].runs@.len() > 0);
                    }
                }
                if runs.len() > 0 && newest == beams::newest(runs) {
                    assert(last.runs@.contains(newest));
                } else {
                    let i = choose|i: int|
                        0 <= i < rest.len() && (#[trigger] rest[i]).runs@.contains(newest);
                    assert(windows[i].runs@.contains(newest));
                }
                if forall|i: int|
                    0 <= i < windows.len() ==> (#[trigger] windows[i]).runs@.len() == 0 {
                    assert forall|i: int| 0 <= i < rest.len() implies (
                    #[trigger] rest[i]).runs@.len() == 0 by {
                        assert(rest[i] == windows[i]);
                    }
                    assert(last.runs@.len() == 0);
                }
            },
            None => {
                assert forall|i: int| 0 <= i < windows.len() implies (
                #[trigger] windows[i]).runs@.len() == 0 by {
                    if i < rest.len() {
                        assert(rest[i] == windows[i]);
                    }
                }
            },
        }
    }
}

/// The windows are launched by themselves exactly when this is switched on
/// and the anchor has passed the one remembered; what is remembered never
/// goes back, and is forgotten when it is switched off.
pub proof fn windows_launch_on_a_new_anchor(last: Option<u64>, on: bool, anchor: Option<u64>)
    ensures
        spans::armed(last, on, anchor).1 <==> on && last is Some && anchor is Some && anchor->0
            > last->0,
        spans::armed(last, on, anchor).1 ==> spans::armed(last, on, anchor).0 == anchor,
        on && last is Some ==> spans::armed(last, on, anchor).0 is Some && spans::armed(
            last,
            on,
            anchor,
        ).0->0 >= last->0,
        on && last is None ==> spans::armed(last, on, anchor).0 == anchor,
        !on ==> spans::armed(last, on, anchor).0 is None,
{
}

/// A list of runs is extended by the landed runs that are newer than its
/// last one, all of them and no others.
pub proof fn lists_take_in_every_newer_run(runs: Seq<u64>, landed: Seq<u64>, run: u64)
    requires
        runs.len() > 0,
    ensures
        (runs + spans::newer(landed, runs.last())).contains(run) <==> runs.contains(run) || (
        landed.contains(run) && run > runs.last()),
        (runs + spans::newer(landed, runs.last())).take(runs.len() as int) == runs,
{
    let more = spans::newer(landed, runs.last());
    lists::filtered_holds(landed, |r: u64| r > runs.last(), run);
    let all = runs + more;
    assert(all.take(runs.len() as int) =~= runs);
    if runs.contains(run) {
        let i = choose|i: int| 0 <= i < runs.len() && runs[i] == run;
        assert(all[i] == run);
    }
    if more.contains(run) {
        let i = choose|i: int| 0 <= i < more.len() && more[i] == run;
        assert(all[runs.len() + i] == run);
    }
    if all.contains(run) {
        let i = choose|i: int| 0 <= i < all.len() && all[i] == run;
        if i < runs.len() {
            assert(runs[i] == run);
        } else {
            assert(more[i - runs.len()] == run);
        }
    }
}

// ---------------------------------------------------------------------
// The timeline

/// The timeline shows a bar for every row whose times are known, from its
/// start to its end, and says of a rejected run, an open beam and an
/// alignment that it is left out.
pub proof fn every_timed_row_has_its_bar(
    rows: Seq<RunFiles<Text>>,
    times: Map<u64, (Moment, Moment)>,
    rejected: Seq<u64>,
    image_paths: Map<u64, String>,
    bar: BarView,
)
    ensures
        timeline::bars(rows, times, rejected, image_paths).contains(bar) <==> {
            &&& exists|i: int| 0 <= i < rows.len() && (#[trigger] rows[i]).run == bar.run
            &&& times.dom().contains(bar.run)
            &&& bar.start == times[bar.run].0
            &&& bar.end == times[bar.run].1
            &&& bar.out == (if rejected.contains(bar.run) {
                Some("rejected"@)
            } else {
                match beams::kind_in(image_paths, bar.run) {
                    RunKind::Sample => None,
                    RunKind::OpenBeam => Some("open beam"@),
                    RunKind::Alignment => Some("alignment"@),
                }
            })
        },
        timeline::bars(rows, times, rejected, image_paths).len() <= rows.len(),
    decreases rows.len(),
{
    if rows.len() > 0 {
        let rest = rows.drop_last();
        every_timed_row_has_its_bar(rest, times, rejected, image_paths, bar);
        let before = timeline::bars(rest, times, rejected, image_paths);
        let all = timeline::bars(rows, times, rejected, image_paths);
        let run = rows.last().run;
        assert(rows[rows.len() - 1].run == run);
        if before.contains(bar) {
            let i = choose|i: int| 0 <= i < before.len() && before[i] == bar;
            assert(all[i] == bar);
        }
        if exists|i: int| 0 <= i < rest.len() && (#[trigger] rest[i]).run == bar.run {
            let i = choose|i: int| 0 <= i < rest.len() && (#[trigger] rest[i]).run == bar.run;
            assert(rows[i].run == bar.run);
        }
        if exists|i: int| 0 <= i < rows.len() && (#[trigger] rows[i]).run == bar.run {
            let i = choose|i: int| 0 <= i < rows.len() && (#[trigger] rows[i]).run == bar.run;
            if i < rest.len() {
                assert(rest[i].run == bar.run);
            }
        }
        if all.contains(bar) && !before.contains(bar) {
            let i = choose|i: int| 0 <= i < all.len() && all[i] == bar;
            if i < before.len() {
                assert(before[i] == bar);
            }
        }
        if times.dom().contains(run) {
            assert(all[all.len() - 1].run == run);
        }
    }
}

/// The axis of the timeline ends at the end of a bar: of one that is not
/// left out, when there is one.
pub proof fn the_axis_ends_at_a_bar(bars: Seq<BarView>)
    ensures
        timeline::zero(bars) is None <==> bars.len() == 0,
        timeline::zero(bars) matches Some(end) ==> exists|i: int|
            0 <= i < bars.len() && (#[trigger] bars[i]).end == end && (bars[i].out is None || (
            forall|j: int| 0 <= j < bars.len() ==> (#[trigger] bars[j]).out is Some)),
{
    lemma_latest_end(bars, true);
    lemma_latest_end(bars, false);
}

proof fn lemma_latest_end(bars: Seq<BarView>, inside: bool)
    ensures
        timeline::latest_end(bars, inside) is None <==> forall|j: int|
            0 <= j < bars.len() ==> inside && (#[trigger] bars[j]).out is Some,
        timeline::latest_end(bars, inside) matches Some(end) ==> exists|i: int|
            0 <= i < bars.len() && (#[trigger] bars[i]).end == end && !(inside && bars[i].out
                is Some),
    decreases bars.len(),
{
    if bars.len() > 0 {
        let rest = bars.drop_last();
        let last = bars[bars.len() - 1];
        lemma_latest_end(rest, inside);
        if timeline::latest_end(rest, inside) is Some {
            let end = timeline::latest_end(rest, inside)->0;
            let i = choose|i: int|
                0 <= i < rest.len() && (#[trigger] rest[i]).end == end && !(inside && rest[i].out
                    is Some);
            assert(bars[i] == rest[i]);
        } else {
            assert forall|j: int| 0 <= j < rest.len() implies inside && (#[trigger] bars[j]).out
                is Some by {
                assert(rest[j] == bars[j]);
            }
        }
    }
}

/// A time read from a file is the one it names, whatever spaces stand around
/// it, and its offset is read with it.
pub proof fn times_are_read_without_the_spaces(before: Text, s: Text, after: Text)
    requires
        text::all_in(before, Class::Space),
        text::all_in(after, Class::Space),
    ensures
        clock::moment(before + s + after) == clock::moment(s),
        clock::zone(before + s + after) == clock::zone(s),
        clock::moment(s) is Some <==> clock::zone(s) is Some,
        clock::rfc3339(text::trimmed(s)) matches Some((secs, nanos, ahead)) ==> clock::moment(s)
            == Some(Moment { secs, nanos }) && clock::zone(s) == Some(ahead),
{
    text::trimmed_ignores_ends(before, s, after, Class::Space);
}

/// How long a job took is told in whole seconds, rounded down; leap seconds
/// aside.
pub proof fn jobs_are_timed_in_whole_seconds(
    started: LocalTime,
    ended: LocalTime,
    seconds: int,
    rest: int,
)
    requires
        started.moment().nanos < 1_000_000_000,
        ended.moment().nanos < 1_000_000_000,
        0 <= seconds,
        0 <= rest < 1_000_000_000,
        (ended.moment().secs - started.moment().secs) * 1_000_000_000 + ended.moment().nanos
            - started.moment().nanos == seconds * 1_000_000_000 + rest,
    ensures
        clock::whole_seconds(started, ended) == seconds,
{
    elapsed_time_is_the_difference(started.moment(), ended.moment());
}

/// Landed runs join a list of runs, and the text it was typed as, exactly
/// when there is a list and the automatic normalization is on; then all that
/// are newer than its last run join, and the text names what the list holds.
pub proof fn landed_runs_join_the_list(
    before: (Seq<u64>, Text),
    after: (Seq<u64>, Text),
    active: bool,
    landed: Seq<u64>,
    run: u64,
)
    requires
        spans::extends_list(before, after, active, landed),
    ensures
        before.0.len() == 0 || !active ==> after == before,
        before.0.len() > 0 && active ==> (after.0.contains(run) <==> before.0.contains(run) || (
        landed.contains(run) && run > before.0.last())),
        before.0.len() > 0 && active && !files::list_names(before.1, run) ==> (files::list_names(
            after.1,
            run,
        ) <==> landed.contains(run) && run > before.0.last()),
        files::list_names(before.1, run) ==> files::list_names(after.1, run),
{
    if before.0.len() > 0 && active {
        lists_take_in_every_newer_run(before.0, landed, run);
        lists::filtered_holds(landed, |r: u64| r > before.0.last(), run);
        spans::extended_text_reads_back(
            before.1,
            spans::newer(landed, before.0.last()),
            run,
        );
    }
}

/// The next run is expected only while the automatic normalization is on and
/// the windows are live: the one after the latest.
pub proof fn the_next_run_follows_the_latest(active: bool, live: bool, latest: Option<u64>)
    ensures
        spans::expected(active, live, latest) matches Some(run) ==> active && live && latest is Some
            && run == latest->0 + 1,
        active && live && latest is Some ==> spans::expected(active, live, latest) is Some,
{
}

/// A whole minute before a leap second is a whole minute before the second
/// that follows it.
pub proof fn leap_seconds_count_as_the_next_second(t: Moment, next: Moment, minutes: nat)
    requires
        t.nanos >= 1_000_000_000,
        next.secs == t.secs + 1,
        next.nanos == t.nanos - 1_000_000_000,
        next.nanos < 1_000_000_000,
        minutes > 0,
    ensures
        clock::minutes_before(t, minutes) == clock::minutes_before(next, minutes),
        clock::minutes_before(next, minutes).0 == next.secs - 60 * minutes,
{
}

} // verus!
