//! The acquisition timeline: when the runs were acquired.

use vstd::prelude::*;
use crate::clock::Moment;
use crate::files::RunFiles;
use crate::runmap::RunMap;
use crate::text::Text;
use crate::{beams, clock, files, ipts, number, order, text};

verus! {

/// A run on the timeline.
pub struct TimelineBar {
    pub run: u64,
    pub start: Moment,
    pub end: Moment,
    /// Why the run is not in the windows (rejected, alignment, open beam).
    pub out: Option<&'static str>,
}

/// A run on the timeline.
pub struct BarView {
    pub run: u64,
    pub start: Moment,
    pub end: Moment,
    pub out: Option<Text>,
}

impl View for TimelineBar {
    type V = BarView;

    open spec fn view(&self) -> BarView {
        BarView { run: self.run, start: self.start, end: self.end, out: text::opt_str(self.out) }
    }
}

pub open spec fn bar_views(v: Seq<TimelineBar>) -> Seq<BarView> {
    v.map_values(|b: TimelineBar| b@)
}

/// Why a run is not in the windows.
pub open spec fn out_words(run: u64, rejected: Seq<u64>, image_paths: Map<u64, String>) -> Option<
    Text,
> {
    if rejected.contains(run) {
        Some("rejected"@)
    } else {
        beams::kind_words(beams::kind_in(image_paths, run))
    }
}

pub fn out_label(run: u64, rejected: &Vec<u64>, image_paths: &RunMap<String>) -> (r: Option<
    &'static str,
>)
    ensures
        text::opt_str(r) == out_words(run, rejected@, image_paths@),
{
    if order::member(rejected, run) {
        Some("rejected")
    } else {
        beams::kind_label(beams::run_kind(image_paths, run))
    }
}

/// The listed runs whose acquisition times are known.
pub open spec fn bars(
    rows: Seq<RunFiles<Text>>,
    times: Map<u64, (Moment, Moment)>,
    rejected: Seq<u64>,
    image_paths: Map<u64, String>,
) -> Seq<BarView>
    decreases rows.len(),
{
    if rows.len() == 0 {
        Seq::empty()
    } else {
        let before = bars(rows.drop_last(), times, rejected, image_paths);
        let run = rows.last().run;
        if times.dom().contains(run) {
            before.push(
                BarView {
                    run,
                    start: times[run].0,
                    end: times[run].1,
                    out: out_words(run, rejected, image_paths),
                },
            )
        } else {
            before
        }
    }
}

/// The bars of the timeline, in table order.
pub fn timeline_bars(
    rows: &Vec<RunFiles>,
    times: &RunMap<(Moment, Moment)>,
    rejected: &Vec<u64>,
    image_paths: &RunMap<String>,
) -> (r: Vec<TimelineBar>)
    ensures
        bar_views(r@) == bars(files::statuses(rows@), times@, rejected@, image_paths@),
{
    let ghost rs = files::statuses(rows@);
    let mut out: Vec<TimelineBar> = Vec::new();
    let mut i: usize = 0;
    assert(bar_views(out@) =~= bars(rs.take(0), times@, rejected@, image_paths@));
    while i < rows.len()
        invariant
            i <= rows@.len(),
            rs == files::statuses(rows@),
            bar_views(out@) == bars(rs.take(i as int), times@, rejected@, image_paths@),
        decreases rows@.len() - i,
    {
        assert(rs.take(i + 1).drop_last() =~= rs.take(i as int));
        assert(rs.take(i + 1).last() == rows@[i as int]@);
        let run = rows[i].run;
        match times.get(run) {
            Some(t) => {
                let bar = TimelineBar {
                    run,
                    start: t.0,
                    end: t.1,
                    out: out_label(run, rejected, image_paths),
                };
                let ghost before = out@;
                out.push(bar);
                assert(bar_views(out@) =~= bar_views(before).push(bar@));
            },
            None => {},
        }
        i = i + 1;
    }
    assert(rs.take(i as int) =~= rs);
    out
}

/// The latest end of the bars, of those in the windows only or of all.
pub open spec fn latest_end(bars: Seq<BarView>, inside: bool) -> Option<Moment>
    decreases bars.len(),
{
    if bars.len() == 0 {
        None
    } else {
        let before = latest_end(bars.drop_last(), inside);
        let b = bars.last();
        if inside && b.out is Some {
            before
        } else {
            match before {
                Some(m) => if clock::at_or_before(m, b.end) {
                    Some(b.end)
                } else {
                    Some(m)
                },
                None => Some(b.end),
            }
        }
    }
}

fn last_end(bars: &Vec<TimelineBar>, inside: bool) -> (r: Option<Moment>)
    ensures
        r == latest_end(bar_views(bars@), inside),
{
    let ghost bs = bar_views(bars@);
    let mut best: Option<Moment> = None;
    let mut i: usize = 0;
    while i < bars.len()
        invariant
            i <= bars@.len(),
            bs == bar_views(bars@),
            best == latest_end(bs.take(i as int), inside),
        decreases bars@.len() - i,
    {
        assert(bs.take(i + 1).drop_last() =~= bs.take(i as int));
        assert(bs.take(i + 1).last() == bars@[i as int]@);
        let skip = inside && bars[i].out.is_some();
        if !skip {
            let end = bars[i].end;
            best = match best {
                Some(m) => if m.not_after(&end) {
                    Some(end)
                } else {
                    Some(m)
                },
                None => Some(end),
            };
        }
        i = i + 1;
    }
    assert(bs.take(i as int) =~= bs);
    best
}

/// The zero of the time axis.
pub open spec fn zero(bars: Seq<BarView>) -> Option<Moment> {
    match latest_end(bars, true) {
        Some(m) => Some(m),
        None => latest_end(bars, false),
    }
}

/// Same anchor as the windows: newest end among the runs that are in them,
/// else among all; `None` without a bar.
pub fn timeline_anchor(bars: &Vec<TimelineBar>) -> (r: Option<Moment>)
    ensures
        r == zero(bar_views(bars@)),
{
    match last_end(bars, true) {
        Some(m) => Some(m),
        None => last_end(bars, false),
    }
}

/// Every run in the windows ended at or before the zero of the axis.
pub proof fn the_axis_ends_at_the_latest_run(bars: Seq<BarView>, i: int)
    requires
        0 <= i < bars.len(),
        bars[i].out is None,
    ensures
        zero(bars) is Some,
        clock::at_or_before(bars[i].end, zero(bars)->0),
{
    lemma_latest(bars, i);
}

proof fn lemma_latest(bars: Seq<BarView>, i: int)
    requires
        0 <= i < bars.len(),
        bars[i].out is None,
    ensures
        latest_end(bars, true) is Some,
        clock::at_or_before(bars[i].end, latest_end(bars, true)->0),
    decreases bars.len(),
{
    let rest = bars.drop_last();
    if i < bars.len() - 1 {
        assert(rest[i] == bars[i]);
        lemma_latest(rest, i);
    } else {
        assert(bars.last() == bars[i]);
    }
}

/// The first line of a run's hover.
pub open spec fn bar_words(run: u64, out: Option<Text>) -> Text {
    "run "@ + number::decimal(run as nat) + (match out {
        Some(why) => " ("@ + why + ")"@,
        None => ""@,
    })
}

pub fn bar_title(bar: &TimelineBar) -> (r: String)
    ensures
        r@ == bar_words(bar.run, bar@.out),
{
    let n = number::decimal_text(bar.run);
    match bar.out {
        Some(why) => {
            let tail = text::cat3(" (", why, ")");
            text::cat3("run ", n.as_str(), tail.as_str())
        },
        None => text::cat3("run ", n.as_str(), ""),
    }
}

/// When a run was acquired, each end on the clock it was recorded with:
/// `zones` tells how far the two clocks were ahead of UTC, in seconds.
pub fn bar_span(bar: &TimelineBar, zones: (i32, i32)) -> (r: String)
    ensures
        r@ == clock::time_of_day(bar.start, zones.0 as int) + " – "@ + clock::time_of_day(
            bar.end,
            zones.1 as int,
        ),
{
    let from = clock::clock_time(&bar.start, zones.0);
    let to = clock::clock_time(&bar.end, zones.1);
    text::cat3(from.as_str(), " – ", to.as_str())
}

/// The hover of a window's band.
pub fn band_title(minutes: u32, runs: usize) -> (r: String)
    ensures
        r@ == "last "@ + number::decimal(minutes as nat) + " min — "@ + number::decimal(runs as nat)
            + " run(s) in the window"@,
{
    let m = number::decimal_text(minutes as u64);
    let n = number::decimal_text(runs as u64);
    text::cat5("last ", m.as_str(), " min — ", n.as_str(), " run(s) in the window")
}

/// The name of a log on the right-hand axis: without the prefix that all
/// share.
pub fn log_label(name: &str, note: &str) -> (r: String)
    ensures
        r@ == ipts::without_all(name@, "BL10:SE:ND2:"@) + note@,
{
    proof {
        reveal_strlit("BL10:SE:ND2:");
    }
    let bare = ipts::strip_all(name, "BL10:SE:ND2:");
    text::cat2(bare.as_str(), note)
}

} // verus!
