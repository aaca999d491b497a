//! Which runs are looked at: those the rolling windows span, and those the
//! table lists.

use vstd::prelude::*;
use crate::clock::Moment;
use crate::h5::RunKind;
use crate::norm::Window;
use crate::runmap::RunMap;
use crate::text::{Class, Text};
use crate::{beams, clock, files, number, order, text};

verus! {

// ---------------------------------------------------------------------
// The span of the windows

/// When each run's acquisition ended, where its NeXus file tells.
pub type Ends = spec_fn(u64) -> Option<Moment>;

/// The runs of the list, newest first, that ended no earlier than `minutes`
/// before the anchor, with their end times. The newest run with an end time
/// is the anchor. In live mode nothing is looked at past the first run that
/// ended earlier.
pub open spec fn span_times(
    runs: Seq<u64>,
    ends: Ends,
    live: bool,
    minutes: nat,
    anchor: Option<Moment>,
) -> Seq<(u64, Moment)>
    decreases runs.len(),
{
    if runs.len() == 0 {
        Seq::empty()
    } else {
        let rest = runs.drop_last();
        match ends(runs.last()) {
            None => span_times(rest, ends, live, minutes, anchor),
            Some(time) => {
                let newest = match anchor {
                    Some(a) => a,
                    None => time,
                };
                if clock::within(time, newest, minutes) {
                    seq![(runs.last(), time)] + span_times(rest, ends, live, minutes, Some(newest))
                } else if live {
                    Seq::empty()
                } else {
                    span_times(rest, ends, live, minutes, Some(newest))
                }
            },
        }
    }
}

/// A scan for the runs that the widest window spans, one run at a time:
/// [`SpanScan::next`] names the run, [`SpanScan::feed`] takes its end time.
pub struct SpanScan {
    /// The runs still to be looked at, ascending.
    left: Vec<u64>,
    live: bool,
    minutes: u32,
    anchor: Option<Moment>,
    times: Vec<(u64, Moment)>,
}

impl SpanScan {
    pub closed spec fn to_look_at(&self) -> Seq<u64> {
        self.left@
    }

    pub closed spec fn has_times(&self) -> Seq<(u64, Moment)> {
        self.times@
    }

    /// The end times of the span, if these are the runs' end times.
    pub closed spec fn outcome(&self, ends: Ends) -> Seq<(u64, Moment)> {
        self.times@ + span_times(self.left@, ends, self.live, self.minutes as nat, self.anchor)
    }

    /// Newest runs first; the first readable end time is the anchor and,
    /// in live mode, the scan stops at the first run older than the
    /// widest window (no point opening thousands of old NeXus files).
    pub fn new(candidates: &Vec<u64>, live: bool, minutes: u32) -> (r: SpanScan)
        ensures
            r.to_look_at() == candidates@,
            forall|ends: Ends| #[trigger]
                r.outcome(ends) == span_times(candidates@, ends, live, minutes as nat, None),
    {
        let r = SpanScan {
            left: order::copy(candidates),
            live,
            minutes,
            anchor: None,
            times: Vec::new(),
        };
        assert forall|ends: Ends| #[trigger] r.outcome(ends) == span_times(
            candidates@,
            ends,
            live,
            minutes as nat,
            None,
        ) by {
            assert(r.outcome(ends) =~= span_times(candidates@, ends, live, minutes as nat, None));
        }
        r
    }

    /// The run to look at, or `None` when the scan is over.
    pub fn next(&self) -> (r: Option<u64>)
        ensures
            match r {
                Some(run) => self.to_look_at().len() > 0 && run == self.to_look_at().last(),
                None => self.to_look_at().len() == 0 && forall|ends: Ends| #[trigger]
                    self.outcome(ends) == self.has_times(),
            },
    {
        if self.left.len() == 0 {
            assert forall|ends: Ends| #[trigger] self.outcome(ends) == self.has_times() by {
                assert(self.outcome(ends) =~= self.has_times());
            }
            None
        } else {
            Some(self.left[self.left.len() - 1])
        }
    }

    /// Take the end time of the run that [`SpanScan::next`] named; `None`
    /// where its NeXus file is missing or still being written.
    pub fn feed(&mut self, time: Option<Moment>)
        requires
            old(self).to_look_at().len() > 0,
        ensures
            final(self).to_look_at().len() < old(self).to_look_at().len(),
            forall|ends: Ends|
                ends(old(self).to_look_at().last()) == time ==> #[trigger] final(self).outcome(ends)
                    == old(self).outcome(ends),
    {
        let run = match self.left.pop() {
            Some(run) => run,
            None => {
                return ;
            },
        };
        assert(old(self).left@.drop_last() =~= self.left@);
        match time {
            None => {},
            Some(t) => {
                let newest = match self.anchor {
                    Some(a) => a,
                    None => t,
                };
                self.anchor = Some(newest);
                if clock::is_within(&t, &newest, self.minutes) {
                    self.times.push((run, t));
                } else if self.live {
                    self.left = Vec::new();
                }
            },
        }
        assert forall|ends: Ends|
            ends(old(self).to_look_at().last()) == time implies #[trigger] self.outcome(ends)
            == old(self).outcome(ends) by {
            assert(self.outcome(ends) =~= old(self).outcome(ends));
        }
    }

    /// The runs of the span with their end times, newest first.
    pub fn end_times(&self) -> (r: &Vec<(u64, Moment)>)
        ensures
            r@ == self.has_times(),
    {
        &self.times
    }
}

/// Every run of the span is one of the list, with the end time its file
/// tells.
pub proof fn spans_hold_listed_runs(
    runs: Seq<u64>,
    ends: Ends,
    live: bool,
    minutes: nat,
    anchor: Option<Moment>,
)
    ensures
        forall|i: int|
            0 <= i < span_times(runs, ends, live, minutes, anchor).len() ==> {
                let (run, time) = #[trigger] span_times(runs, ends, live, minutes, anchor)[i];
                runs.contains(run) && ends(run) == Some(time)
            },
    decreases runs.len(),
{
    if runs.len() > 0 {
        let rest = runs.drop_last();
        let run = runs.last();
        let next = match ends(run) {
            None => anchor,
            Some(time) => Some(
                match anchor {
                    Some(a) => a,
                    None => time,
                },
            ),
        };
        spans_hold_listed_runs(rest, ends, live, minutes, next);
        let inner = span_times(rest, ends, live, minutes, next);
        let all = span_times(runs, ends, live, minutes, anchor);
        assert forall|i: int| 0 <= i < all.len() implies {
            let (r, time) = #[trigger] all[i];
            runs.contains(r) && ends(r) == Some(time)
        } by {
            assert(runs[runs.len() - 1] == run);
            let k = if all.len() == inner.len() {
                i
            } else {
                i - 1
            };
            if all == inner || i > 0 {
                assert(all[i] == inner[k]);
                let (r, time) = inner[k];
                let j = choose|j: int| 0 <= j < rest.len() && rest[j] == r;
                assert(runs[j] == r);
            }
        }
    }
}

/// The end time of the newest run that has one.
pub open spec fn newest_end(runs: Seq<u64>, ends: Ends) -> Option<Moment>
    decreases runs.len(),
{
    if runs.len() == 0 {
        None
    } else {
        match ends(runs.last()) {
            Some(time) => Some(time),
            None => newest_end(runs.drop_last(), ends),
        }
    }
}

/// Of a list given by the user, the span holds exactly the runs that ended no
/// earlier than the widest window before the newest run, rejected or not.
pub proof fn lists_are_spanned_by_time(runs: Seq<u64>, ends: Ends, minutes: nat, i: int)
    requires
        0 <= i < runs.len(),
        ends(runs[i]) is Some,
    ensures
        newest_end(runs, ends) is Some,
        span_times(runs, ends, false, minutes, None).contains((runs[i], ends(runs[i])->0))
            <==> clock::within(ends(runs[i])->0, newest_end(runs, ends)->0, minutes),
{
    lemma_newest_end(runs, ends, i);
    lemma_spanned(runs, ends, minutes, None, i);
}

proof fn lemma_newest_end(runs: Seq<u64>, ends: Ends, i: int)
    requires
        0 <= i < runs.len(),
        ends(runs[i]) is Some,
    ensures
        newest_end(runs, ends) is Some,
    decreases runs.len(),
{
    if ends(runs.last()) is None {
        assert(runs.drop_last()[i] == runs[i]);
        lemma_newest_end(runs.drop_last(), ends, i);
    }
}

proof fn lemma_spanned(runs: Seq<u64>, ends: Ends, minutes: nat, anchor: Option<Moment>, i: int)
    requires
        0 <= i < runs.len(),
        ends(runs[i]) is Some,
    ensures
        ({
            let a = match anchor {
                Some(a) => a,
                None => newest_end(runs, ends)->0,
            };
            span_times(runs, ends, false, minutes, anchor).contains((runs[i], ends(runs[i])->0))
                <==> clock::within(ends(runs[i])->0, a, minutes)
        }),
    decreases runs.len(),
{
    let rest = runs.drop_last();
    let last = runs.last();
    let x = (runs[i], ends(runs[i])->0);
    let all = span_times(runs, ends, false, minutes, anchor);
    match ends(last) {
        None => {
            assert(rest[i] == runs[i]);
            lemma_spanned(rest, ends, minutes, anchor, i);
        },
        Some(time) => {
            let a = match anchor {
                Some(a) => a,
                None => time,
            };
            let inner = span_times(rest, ends, false, minutes, Some(a));
            if clock::within(time, a, minutes) {
                assert(all[0] == (last, time));
                if inner.contains(x) {
                    let k = choose|k: int| 0 <= k < inner.len() && inner[k] == x;
                    assert(all[k + 1] == x);
                }
                if all.contains(x) && x != (last, time) {
                    let k = choose|k: int| 0 <= k < all.len() && all[k] == x;
                    assert(inner[k - 1] == x);
                }
            }
            if i < rest.len() {
                assert(rest[i] == runs[i]);
                lemma_spanned(rest, ends, minutes, Some(a), i);
            } else if !clock::within(time, a, minutes) {
                lemma_not_spanned(rest, ends, minutes, a, last, time);
            }
        },
    }
}

proof fn lemma_not_spanned(
    runs: Seq<u64>,
    ends: Ends,
    minutes: nat,
    anchor: Moment,
    run: u64,
    time: Moment,
)
    requires
        !clock::within(time, anchor, minutes),
    ensures
        !span_times(runs, ends, false, minutes, Some(anchor)).contains((run, time)),
    decreases runs.len(),
{
    if runs.len() > 0 {
        let rest = runs.drop_last();
        lemma_not_spanned(rest, ends, minutes, anchor, run, time);
        let all = span_times(runs, ends, false, minutes, Some(anchor));
        let inner = span_times(rest, ends, false, minutes, Some(anchor));
        if all.contains((run, time)) {
            let k = choose|k: int| 0 <= k < all.len() && all[k] == (run, time);
            if all != inner && k > 0 {
                assert(inner[k - 1] == (run, time));
            }
        }
    }
}

/// The minutes of the widest window; zero without windows.
pub open spec fn widest(windows: Seq<Window>) -> u32
    decreases windows.len(),
{
    if windows.len() == 0 {
        0
    } else if windows.last().minutes > widest(windows.drop_last()) {
        windows.last().minutes
    } else {
        widest(windows.drop_last())
    }
}

pub fn widest_minutes(windows: &Vec<Window>) -> (r: u32)
    ensures
        r == widest(windows@),
{
    let mut best: u32 = 0;
    let mut i: usize = 0;
    while i < windows.len()
        invariant
            i <= windows@.len(),
            best == widest(windows@.take(i as int)),
        decreases windows@.len() - i,
    {
        assert(windows@.take(i + 1).drop_last() =~= windows@.take(i as int));
        assert(windows@.take(i + 1).last() == windows@[i as int]);
        if windows[i].minutes > best {
            best = windows[i].minutes;
        }
        i = i + 1;
    }
    assert(windows@.take(i as int) =~= windows@);
    best
}

/// The runs of the span that may enter the windows.
pub open spec fn kept(
    times: Seq<(u64, Moment)>,
    rejected: Seq<u64>,
    image_paths: Map<u64, String>,
) -> Seq<(u64, Moment)> {
    times.filter(
        |t: (u64, Moment)|
            !rejected.contains(t.0) && beams::kind_in(image_paths, t.0) == RunKind::Sample,
    )
}

/// Rejected runs never enter the windows (the windows anchor on the
/// newest kept run inside the span), but stay in the table span so
/// they can be restored; alignment and open-beam runs likewise
/// (nothing to normalize: no corrected data would ever come for an
/// alignment run, and an open beam is an input). When every run of
/// the span is out the windows are simply empty until a new run
/// lands.
pub fn kept_times(
    times: &Vec<(u64, Moment)>,
    rejected: &Vec<u64>,
    image_paths: &RunMap<String>,
) -> (r: Vec<(u64, Moment)>)
    ensures
        r@ == kept(times@, rejected@, image_paths@),
{
    reveal(Seq::filter);
    let mut out: Vec<(u64, Moment)> = Vec::new();
    let mut i: usize = 0;
    while i < times.len()
        invariant
            i <= times@.len(),
            out@ == kept(times@.take(i as int), rejected@, image_paths@),
        decreases times@.len() - i,
    {
        reveal(Seq::filter);
        assert(times@.take(i + 1).drop_last() =~= times@.take(i as int));
        let t = times[i];
        if !order::member(rejected, t.0) && !beams::skips_normalization(image_paths, t.0) {
            out.push(t);
        }
        i = i + 1;
    }
    assert(times@.take(i as int) =~= times@);
    out
}

/// The runs of the span.
pub open spec fn span_runs(times: Seq<(u64, Moment)>) -> Seq<u64> {
    times.map_values(|t: (u64, Moment)| t.0)
}

/// The runs of the span, sorted.
pub fn window_span(times: &Vec<(u64, Moment)>) -> (r: Vec<u64>)
    ensures
        order::non_descending(r@),
        r@.to_multiset() == span_runs(times@).to_multiset(),
{
    let mut runs: Vec<u64> = Vec::new();
    let mut i: usize = 0;
    while i < times.len()
        invariant
            i <= times@.len(),
            runs@ =~= span_runs(times@.take(i as int)),
        decreases times@.len() - i,
    {
        runs.push(times[i].0);
        i = i + 1;
    }
    assert(times@.take(i as int) =~= times@);
    order::sort(&runs)
}

// ---------------------------------------------------------------------
// When the windows are normalized

/// The newest run of the windows, if they hold any.
pub open spec fn newest_in(windows: Seq<Window>) -> Option<u64>
    decreases windows.len(),
{
    if windows.len() == 0 {
        None
    } else {
        let before = newest_in(windows.drop_last());
        let runs = windows.last().runs@;
        if runs.len() == 0 {
            before
        } else if before is Some && before->0 > beams::newest(runs) {
            before
        } else {
            Some(beams::newest(runs))
        }
    }
}

pub fn anchor_run(windows: &Vec<Window>) -> (r: Option<u64>)
    ensures
        r == newest_in(windows@),
{
    let mut best: Option<u64> = None;
    let mut i: usize = 0;
    while i < windows.len()
        invariant
            i <= windows@.len(),
            best == newest_in(windows@.take(i as int)),
        decreases windows@.len() - i,
    {
        assert(windows@.take(i + 1).drop_last() =~= windows@.take(i as int));
        assert(windows@.take(i + 1).last() == windows@[i as int]);
        if windows[i].runs.len() > 0 {
            let n = beams::newest_run(&windows[i].runs);
            best = match best {
                Some(b) => if b > n {
                    Some(b)
                } else {
                    Some(n)
                },
                None => Some(n),
            };
        }
        i = i + 1;
    }
    assert(windows@.take(i as int) =~= windows@);
    best
}

/// The last anchor run after a look at the windows, and whether the look
/// fires their normalizations: `on` tells whether the windows are opted in,
/// `anchor` is their newest run.
pub open spec fn armed(last: Option<u64>, on: bool, anchor: Option<u64>) -> (Option<u64>, bool) {
    if !on {
        (None, false)
    } else {
        match (anchor, last) {
            (Some(a), None) => (Some(a), false),
            (Some(a), Some(prev)) => if a > prev {
                (Some(a), true)
            } else {
                (last, false)
            },
            (None, _) => (last, false),
        }
    }
}

/// A new anchor run (a NeXus that just showed up) fires the window
/// normalizations — only when the user opted the windows into the auto
/// normalization; otherwise the auto normalization does the plain per-run
/// work alone. The first anchor seen only arms the trigger — nothing fires
/// for a run that landed before anyone was watching. Off, the trigger is
/// armed anew when the auto normalization (or the opt-in) resumes.
pub fn arm(last: Option<u64>, on: bool, anchor: Option<u64>) -> (r: (Option<u64>, bool))
    ensures
        r == armed(last, on, anchor),
{
    if !on {
        return (None, false);
    }
    match (anchor, last) {
        (Some(a), None) => (Some(a), false),
        (Some(a), Some(prev)) => if a > prev {
            (Some(a), true)
        } else {
            (last, false)
        },
        (None, _) => (last, false),
    }
}

/// A look at the same windows again fires nothing, and neither does the
/// first look after the windows were opted in.
pub proof fn anchors_fire_once(last: Option<u64>, on: bool, anchor: Option<u64>)
    ensures
        !armed(armed(last, on, anchor).0, on, anchor).1,
        !armed(armed(last, false, anchor).0, true, anchor).1,
{
}

// ---------------------------------------------------------------------
// The runs of the table

/// The runs above `newest`, in order.
pub open spec fn newer(listed: Seq<u64>, newest: u64) -> Seq<u64> {
    listed.filter(|run: u64| run > newest)
}

/// The text field with a run more.
pub open spec fn with_run_text(field: Text, run: u64) -> Text {
    if text::trimmed(field).len() > 0 {
        field + ", "@ + number::decimal(run as nat)
    } else {
        number::decimal(run as nat)
    }
}

/// The text field with these runs more.
pub open spec fn with_runs_text(field: Text, runs: Seq<u64>) -> Text
    decreases runs.len(),
{
    if runs.len() == 0 {
        field
    } else {
        with_run_text(with_runs_text(field, runs.drop_last()), runs.last())
    }
}

/// What landed runs do to a list of runs and to the text it was typed as:
/// where there is a list and the automatic normalization is on, the runs
/// newer than its last one join both.
pub open spec fn extends_list(
    before: (Seq<u64>, Text),
    after: (Seq<u64>, Text),
    active: bool,
    landed: Seq<u64>,
) -> bool {
    if before.0.len() > 0 && active {
        let more = newer(landed, before.0.last());
        after == (before.0 + more, with_runs_text(before.1, more))
    } else {
        after == before
    }
}

/// Hybrid mode: when the user gave a run list AND auto normalization is
/// ON, every run that lands after the newest listed one joins the list
/// (and the text field) automatically, so the windows and the table
/// follow the acquisition. `landed` are the runs of the experiment.
pub fn extend_run_list(runs: &mut Vec<u64>, field: &mut String, active: bool, landed: &Vec<u64>)
    ensures
        old(runs)@.len() == 0 || !active ==> final(runs)@ == old(runs)@ && final(field)@ == old(field)@,
        old(runs)@.len() > 0 && active ==> {
            let more = newer(landed@, old(runs)@.last());
            &&& final(runs)@ == old(runs)@ + more
            &&& final(field)@ == with_runs_text(old(field)@, more)
        },
        extends_list(
            (old(runs)@, old(field)@),
            (final(runs)@, final(field)@),
            active,
            landed@,
        ),
{
    if runs.len() == 0 || !active {
        return ;
    }
    let newest = runs[runs.len() - 1];
    let ghost before = runs@;
    let ghost typed = field@;
    let mut i: usize = 0;
    proof {
        reveal(Seq::filter);
        assert(newer(landed@.take(0), newest) =~= Seq::empty());
        assert(runs@ =~= before + newer(landed@.take(0), newest));
    }
    while i < landed.len()
        invariant
            i <= landed@.len(),
            runs@ == before + newer(landed@.take(i as int), newest),
            field@ == with_runs_text(typed, newer(landed@.take(i as int), newest)),
        decreases landed@.len() - i,
    {
        reveal(Seq::filter);
        assert(landed@.take(i + 1).drop_last() =~= landed@.take(i as int));
        assert(landed@.take(i + 1).last() == landed@[i as int]);
        let run = landed[i];
        if run > newest {
            let ghost more = newer(landed@.take(i as int), newest);
            runs.push(run);
            let bare = text::trim(field.as_str());
            let n = number::decimal_text(run);
            if !bare.as_str().is_empty() {
                field.append(", ");
                field.append(n.as_str());
            } else {
                *field = n;
            }
            assert(newer(landed@.take(i + 1), newest) =~= more.push(run));
            assert(more.push(run).drop_last() =~= more);
            assert(runs@ =~= before + newer(landed@.take(i + 1), newest));
        }
        i = i + 1;
    }
    assert(landed@.take(i as int) =~= landed@);
}

/// The list stays sorted when runs join it, and no run joins it twice that
/// landed once.
pub proof fn extended_lists_stay_sorted(runs: Seq<u64>, landed: Seq<u64>)
    requires
        runs.len() > 0,
        order::ascending(runs),
        order::non_descending(landed),
    ensures
        order::non_descending(runs + newer(landed, runs.last())),
        order::ascending(landed) ==> order::ascending(runs + newer(landed, runs.last())),
{
    let newest = runs.last();
    lemma_newer(landed, newest);
    let more = newer(landed, newest);
    let all = runs + more;
    assert forall|i: int, j: int| 0 <= i < j < all.len() implies all[i] <= all[j] && (
    order::ascending(landed) ==> all[i] < all[j]) by {
        assert(runs[runs.len() - 1] == newest);
        if j < runs.len() {
            assert(runs[i] < runs[j]);
        } else if i < runs.len() {
            assert(all[j] == more[j - runs.len()]);
            if i < runs.len() - 1 {
                assert(runs[i] < runs[runs.len() - 1]);
            }
        } else {
            assert(all[i] == more[i - runs.len()] && all[j] == more[j - runs.len()]);
        }
    }
}

proof fn lemma_newer(listed: Seq<u64>, newest: u64)
    requires
        order::non_descending(listed),
    ensures
        order::non_descending(newer(listed, newest)),
        order::ascending(listed) ==> order::ascending(newer(listed, newest)),
        forall|i: int| 0 <= i < newer(listed, newest).len() ==> #[trigger] newer(listed, newest)[i] > newest,
        forall|i: int|
            0 <= i < newer(listed, newest).len() ==> listed.contains(
                #[trigger] newer(listed, newest)[i],
            ),
    decreases listed.len(),
{
    reveal(Seq::filter);
    if listed.len() > 0 {
        let rest = listed.drop_last();
        let inner = newer(rest, newest);
        let all = newer(listed, newest);
        assert forall|i: int, j: int| 0 <= i <= j < rest.len() implies rest[i] <= rest[j] by {
            assert(rest[i] == listed[i] && rest[j] == listed[j]);
        }
        if order::ascending(listed) {
            assert forall|i: int, j: int| 0 <= i < j < rest.len() implies rest[i] < rest[j] by {
                assert(rest[i] == listed[i] && rest[j] == listed[j]);
            }
        }
        lemma_newer(rest, newest);
        assert forall|i: int| 0 <= i < all.len() implies #[trigger] all[i] > newest && listed.contains(
            all[i],
        ) by {
            if i < inner.len() {
                assert(all[i] == inner[i]);
                let k = choose|k: int| 0 <= k < rest.len() && rest[k] == inner[i];
                assert(listed[k] == all[i]);
            } else {
                assert(listed[listed.len() - 1] == all[i]);
            }
        }
        assert forall|i: int, j: int| 0 <= i < j < all.len() implies all[i] <= all[j] && (
        order::ascending(listed) ==> all[i] < all[j]) by {
            if j < inner.len() {
                assert(all[i] == inner[i] && all[j] == inner[j]);
            } else {
                assert(all[i] == inner[i]);
                let k = choose|k: int| 0 <= k < rest.len() && rest[k] == inner[i];
                assert(listed[k] <= listed[listed.len() - 1]);
            }
        }
    }
}

/// The text field names the runs that it named and those that joined it, and
/// stays readable.
pub proof fn extended_text_reads_back(field: Text, runs: Seq<u64>, run: u64)
    ensures
        files::list_names(with_runs_text(field, runs), run) <==> files::list_names(field, run)
            || runs.contains(run),
        files::first_error(files::tokens(field), 0) is None ==> files::first_error(
            files::tokens(with_runs_text(field, runs)),
            0,
        ) is None,
    decreases runs.len(),
{
    if runs.len() > 0 {
        let rest = runs.drop_last();
        extended_text_reads_back(field, rest, run);
        lemma_one_more(with_runs_text(field, rest), runs.last(), run);
        assert(runs[runs.len() - 1] == runs.last());
        if runs.contains(run) {
            let k = choose|k: int| 0 <= k < runs.len() && runs[k] == run;
            if k < rest.len() {
                assert(rest[k] == run);
            }
        }
        if rest.contains(run) {
            let k = choose|k: int| 0 <= k < rest.len() && rest[k] == run;
            assert(runs[k] == run);
        }
    }
}

proof fn lemma_one_more(field: Text, last: u64, run: u64)
    ensures
        files::list_names(with_run_text(field, last), run) <==> files::list_names(field, run) || run
            == last,
        files::first_error(files::tokens(field), 0) is None ==> files::first_error(
            files::tokens(with_run_text(field, last)),
            0,
        ) is None,
{
    let k = Class::NotSpaceOrComma;
    let d = number::decimal(last as nat);
    let ts = files::tokens(field);
    lemma_number_token(last);
    number::lemma_decimal(last as nat);
    assert(text::all_in(d, k)) by {
        assert forall|i: int| 0 <= i < d.len() implies text::in_class(#[trigger] d[i], k) by {
            assert(text::in_class(d[i], Class::Digit));
        }
    }
    text::pieces_single(d, k);
    if text::trimmed(field).len() > 0 {
        reveal_strlit(", ");
        let e = Seq::<char>::empty();
        let whole = field + ", "@ + d;
        assert(whole =~= field + seq![','] + (e + seq![' '] + d));
        text::pieces_joined(field, ',', e + seq![' '] + d, k);
        text::pieces_joined(e, ' ', d, k);
        text::pieces_single(e, k);
        let all = files::tokens(whole);
        assert(all =~= ts + seq![e, d]);
        assert(all[ts.len() as int] == e);
        assert(all[ts.len() as int + 1] == d);
        if files::list_names(field, run) {
            let i = choose|i: int| 0 <= i < ts.len() && files::token_names(#[trigger] ts[i], run);
            assert(files::token_names(all[i], run));
        }
        if files::list_names(whole, run) {
            let i = choose|i: int| 0 <= i < all.len() && files::token_names(#[trigger] all[i], run);
            if i < ts.len() {
                assert(files::token_names(ts[i], run));
            }
        }
        if run == last {
            assert(files::token_names(all[ts.len() as int + 1], run));
        }
        if files::first_error(ts, 0) is None {
            lemma_no_error(ts, seq![e, d], 0);
        }
    } else {
        text::trimmed_to_nothing(field, Class::Space);
        assert forall|j: int| 0 <= j < field.len() implies !text::in_class(#[trigger] field[j], k) by {
            assert(text::in_class(field[j], Class::Space));
        }
        text::pieces_of_nothing(field, k, 0);
        let all = files::tokens(d);
        assert(all =~= seq![d]);
        assert(all[0] == d);
        if run == last {
            assert(files::token_names(all[0], run));
        }
        lemma_no_error(Seq::<Text>::empty(), seq![d], 0);
        assert(Seq::<Text>::empty() + seq![d] =~= all);
    }
}

proof fn lemma_no_error(ts: Seq<Text>, more: Seq<Text>, i: int)
    requires
        0 <= i <= ts.len(),
        files::first_error(ts, i) is None,
        forall|j: int|
            0 <= j < more.len() ==> (#[trigger] more[j]).len() == 0 || files::token_range(more[j]) is Ok,
    ensures
        files::first_error(ts + more, i) is None,
    decreases ts.len() - i,
{
    let all = ts + more;
    if i < ts.len() {
        assert(all[i] == ts[i]);
        lemma_no_error(ts, more, i + 1);
    } else {
        lemma_no_error_more(ts, more, i);
    }
}

proof fn lemma_no_error_more(ts: Seq<Text>, more: Seq<Text>, i: int)
    requires
        ts.len() <= i <= ts.len() + more.len(),
        forall|j: int|
            0 <= j < more.len() ==> (#[trigger] more[j]).len() == 0 || files::token_range(more[j]) is Ok,
    ensures
        files::first_error(ts + more, i) is None,
    decreases ts.len() + more.len() - i,
{
    let all = ts + more;
    if i < all.len() {
        assert(all[i] == more[i - ts.len()]);
        lemma_no_error_more(ts, more, i + 1);
    }
}

/// A run number alone names the run.
proof fn lemma_number_token(run: u64)
    ensures
        files::token_range(number::decimal(run as nat)) == Ok::<(u64, u64), Text>((run, run)),
        number::decimal(run as nat).len() > 0,
{
    let d = number::decimal(run as nat);
    number::lemma_decimal(run as nat);
    number::decimal_reads_back(run);
    text::find_is_the_first(d, "-"@);
    reveal_strlit("-");
    if text::find(d, "-"@) is Some {
        let i = text::find(d, "-"@)->0;
        assert(d.subrange(i, i + 1)[0] == '-');
        assert(text::in_class(d[i], Class::Digit));
        assert(false);
    }
}

/// What the table lists: the runs of the list where there is one, else every
/// run shown so far and those of the span, which are remembered.
pub open spec fn tables(
    list: Seq<u64>,
    before: Seq<u64>,
    after: Seq<u64>,
    span: Seq<u64>,
    listed: Seq<u64>,
) -> bool {
    if list.len() > 0 {
        listed == list && after == before
    } else {
        &&& listed == after
        &&& order::ascending(after)
        &&& forall|run: u64| #[trigger]
            after.contains(run) <==> before.contains(run) || span.contains(run)
    }
}

/// The runs that the table lists: the user's list, or what the windows
/// span. The span only grows during the session: a run stays listed
/// once shown, even after the windows slid past it.
pub fn table_runs(list: &Vec<u64>, shown: &mut Vec<u64>, span: &Vec<u64>) -> (r: Vec<u64>)
    requires
        order::ascending(old(shown)@),
    ensures
        order::ascending(final(shown)@),
        list@.len() > 0 ==> r@ == list@ && final(shown)@ == old(shown)@,
        list@.len() == 0 ==> {
            &&& r@ == final(shown)@
            &&& forall|run: u64| #[trigger]
                final(shown)@.contains(run) <==> (old(shown)@.contains(run) || span@.contains(run))
        },
        tables(list@, old(shown)@, final(shown)@, span@, r@),
{
    if list.len() > 0 {
        return order::copy(list);
    }
    let mut i: usize = 0;
    while i < span.len()
        invariant
            i <= span@.len(),
            order::ascending(shown@),
            forall|run: u64| #[trigger]
                shown@.contains(run) <==> (old(shown)@.contains(run) || span@.take(
                    i as int,
                ).contains(run)),
        decreases span@.len() - i,
    {
        let ghost before = shown@;
        order::insert(shown, span[i]);
        proof {
            let t = span@.take(i as int);
            let u = span@.take(i + 1);
            assert forall|run: u64| u.contains(run) <==> (t.contains(run) || run == span@[i as int]) by {
                if t.contains(run) {
                    let k = choose|k: int| 0 <= k < t.len() && t[k] == run;
                    assert(u[k] == run);
                }
                if run == span@[i as int] {
                    assert(u[i as int] == run);
                }
                if u.contains(run) {
                    let k = choose|k: int| 0 <= k < u.len() && u[k] == run;
                    if k < i {
                        assert(t[k] == run);
                    }
                }
            }
            assert forall|run: u64| #[trigger]
                shown@.contains(run) <==> (old(shown)@.contains(run) || u.contains(run)) by {
                assert(before.contains(run) <==> (old(shown)@.contains(run) || t.contains(run)));
                assert(u.contains(run) <==> (t.contains(run) || run == span@[i as int]));
            }
        }
        i = i + 1;
    }
    assert(span@.take(i as int) =~= span@);
    order::copy(shown)
}

/// The run that is expected next, while runs are waited for.
pub open spec fn expected(active: bool, live: bool, latest: Option<u64>) -> Option<int> {
    if active && live && latest is Some {
        Some(latest->0 + 1)
    } else {
        None
    }
}

/// The next run whose NeXus will land in the experiment (latest one + 1):
/// what auto-normalization will process next, when it is on.
pub fn next_run(active: bool, live: bool, latest: Option<u64>) -> (r: Option<u64>)
    requires
        latest != Some(u64::MAX),
    ensures
        r == match latest {
            Some(n) => if active && live {
                Some((n + 1) as u64)
            } else {
                None
            },
            None => None,
        },
        match r {
            Some(run) => expected(active, live, latest) == Some(run as int),
            None => expected(active, live, latest) is None,
        },
{
    match latest {
        Some(n) => if active && live {
            Some(n + 1)
        } else {
            None
        },
        None => None,
    }
}

} // verus!
