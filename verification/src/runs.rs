//! Discovery of reduced runs from the autoreduction log folder
//! (`/SNS/VENUS/<ipts>/shared/autoreduce/reduction_log`).
//!
//! Each reduced run leaves `VENUS_<run>.nxs.h5.log` (and, when something went
//! wrong, `VENUS_<run>.nxs.h5.err`) in that folder. Runs are grouped by run
//! number and ordered by the modification time of their files, newest first.

use vstd::prelude::*;
use crate::clock::Moment;
use crate::text::Text;
use crate::{clock, number, text};

verus! {

/// The run and the kind of a file of the log folder.
pub open spec fn log_name(name: Text) -> Option<(u64, Text)> {
    match text::after_prefix(name, "VENUS_"@) {
        Some(rest) => match text::cut(rest, ".nxs.h5."@) {
            Some((run, suffix)) => match number::parsed(run) {
                Some(run) => Some((run, suffix)),
                None => None,
            },
            None => None,
        },
        None => None,
    }
}

/// Parse `VENUS_20343.nxs.h5.err` → `(20343, "err")`.
pub fn parse_file_name(name: &str) -> (r: Option<(u64, String)>)
    ensures
        match r {
            Some((run, suffix)) => log_name(name@) == Some((run, suffix@)),
            None => log_name(name@) is None,
        },
{
    match text::strip_prefix(name, "VENUS_") {
        Some(rest) => match text::split_once(rest.as_str(), ".nxs.h5.") {
            Some((run, suffix)) => match number::parse_u64(run.as_str()) {
                Some(run) => Some((run, suffix)),
                None => None,
            },
            None => None,
        },
        None => None,
    }
}

/// A file of the log folder.
pub struct LogFile {
    pub name: String,
    pub path: String,
    pub modified: Moment,
}

/// One reduced run: its number and the log/error files found for it.
#[derive(Debug)]
pub struct RunEntry {
    pub run_number: u64,
    pub log_path: Option<String>,
    pub err_path: Option<String>,
    /// Most recent modification time among the run's files (sort key).
    pub mtime: Moment,
}

/// A reduced run.
pub struct Reduced {
    pub run_number: u64,
    pub log_path: Option<Text>,
    pub err_path: Option<Text>,
    pub mtime: Moment,
}

impl View for RunEntry {
    type V = Reduced;

    open spec fn view(&self) -> Reduced {
        Reduced {
            run_number: self.run_number,
            log_path: text::opt_text(self.log_path),
            err_path: text::opt_text(self.err_path),
            mtime: self.mtime,
        }
    }
}

pub open spec fn later(a: Moment, b: Moment) -> Moment {
    if clock::at_or_before(b, a) {
        a
    } else {
        b
    }
}

/// The entry of a run with one more file of it.
pub open spec fn with_file(e: Option<Reduced>, run: u64, kind: Text, file: LogFile) -> Reduced {
    let base = match e {
        Some(e) => e,
        None => Reduced {
            run_number: run,
            log_path: None,
            err_path: None,
            mtime: file.modified,
        },
    };
    Reduced {
        run_number: run,
        log_path: if kind == "log"@ {
            Some(file.path@)
        } else {
            base.log_path
        },
        err_path: if kind == "err"@ {
            Some(file.path@)
        } else {
            base.err_path
        },
        mtime: later(base.mtime, file.modified),
    }
}

/// The entry of a run, from the files of the folder in their order; none
/// where no file belongs to it.
pub open spec fn entry_of(files: Seq<LogFile>, run: u64) -> Option<Reduced>
    decreases files.len(),
{
    if files.len() == 0 {
        None
    } else {
        let before = entry_of(files.drop_last(), run);
        match log_name(files.last().name@) {
            Some((n, kind)) => if n == run {
                Some(with_file(before, run, kind, files.last()))
            } else {
                before
            },
            None => before,
        }
    }
}

/// Does `a` come before `b`: modified later, or at the same time with a
/// higher run number?
pub open spec fn comes_before(a: Reduced, b: Reduced) -> bool {
    if a.mtime == b.mtime {
        a.run_number > b.run_number
    } else {
        clock::at_or_before(b.mtime, a.mtime)
    }
}

pub open spec fn reduced(v: Seq<RunEntry>) -> Seq<Reduced> {
    v.map_values(|e: RunEntry| e@)
}

/// Each one before all that follow.
pub open spec fn ranked(v: Seq<Reduced>) -> bool {
    forall|i: int, j: int| 0 <= i < j < v.len() ==> comes_before(#[trigger] v[i], #[trigger] v[j])
}

pub open spec fn has_entry(v: Seq<Reduced>, run: u64) -> bool {
    exists|i: int| 0 <= i < v.len() && (#[trigger] v[i]).run_number == run
}

/// Is every entry of the list the one the files give?
pub open spec fn faithful(v: Seq<Reduced>, files: Seq<LogFile>) -> bool {
    forall|i: int|
        0 <= i < v.len() ==> entry_of(files, (#[trigger] v[i]).run_number) == Some(v[i])
}

proof fn lemma_entry_run(files: Seq<LogFile>, run: u64)
    ensures
        entry_of(files, run) matches Some(e) ==> e.run_number == run,
    decreases files.len(),
{
    if files.len() > 0 {
        lemma_entry_run(files.drop_last(), run);
    }
}

fn rank_before(a: &RunEntry, b: &RunEntry) -> (r: bool)
    ensures
        r == comes_before(a@, b@),
{
    if a.mtime == b.mtime {
        a.run_number > b.run_number
    } else {
        b.mtime.not_after(&a.mtime)
    }
}

/// Put an entry where it ranks.
fn insert_ranked(v: &mut Vec<RunEntry>, e: RunEntry)
    requires
        ranked(reduced(old(v)@)),
        !has_entry(reduced(old(v)@), e.run_number),
    ensures
        ranked(reduced(final(v)@)),
        final(v)@.len() == old(v)@.len() + 1,
        exists|i: int|
            0 <= i <= old(v)@.len() && reduced(final(v)@) == #[trigger] reduced(old(v)@).insert(
                i,
                e@,
            ),
{
    let ghost o = reduced(v@);
    let ghost x = e@;
    let mut i: usize = v.len();
    while i > 0 && !rank_before(&v[i - 1], &e)
        invariant
            i <= v@.len(),
            v@ == old(v)@,
            o == reduced(v@),
            x == e@,
            ranked(o),
            forall|k: int| i <= k < o.len() ==> !comes_before(#[trigger] o[k], x),
        decreases i,
    {
        assert(o[i - 1] == v@[i - 1]@);
        i = i - 1;
    }
    if i > 0 {
        assert(o[i - 1] == v@[i - 1]@);
    }
    v.insert(i, e);
    proof {
        let t = reduced(v@);
        assert(t =~= o.insert(i as int, x));
        assert forall|a: int, b: int| 0 <= a < b < t.len() implies comes_before(
            #[trigger] t[a],
            #[trigger] t[b],
        ) by {
            if a == i {
                assert(t[b] == o[b - 1]);
                assert(!comes_before(o[b - 1], x));
                assert(o[b - 1].run_number != x.run_number);
            } else if b == i {
                assert(t[a] == o[a]);
                if a < i - 1 {
                    assert(comes_before(o[a], o[i - 1]));
                }
            } else if a < i && b > i {
                assert(t[a] == o[a] && t[b] == o[b - 1]);
            } else if a > i {
                assert(t[a] == o[a - 1] && t[b] == o[b - 1]);
            } else {
                assert(t[a] == o[a] && t[b] == o[b]);
            }
        }
    }
}

/// Group the files by run.
fn group(files: &Vec<LogFile>) -> (r: Vec<RunEntry>)
    ensures
        faithful(reduced(r@), files@),
        forall|run: u64| #[trigger]
            has_entry(reduced(r@), run) <==> entry_of(files@, run) is Some,
        forall|i: int, j: int|
            0 <= i < j < r@.len() ==> (#[trigger] r@[i]).run_number != (#[trigger] r@[j]).run_number,
{
    let mut out: Vec<RunEntry> = Vec::new();
    let mut i: usize = 0;
    while i < files.len()
        invariant
            i <= files@.len(),
            faithful(reduced(out@), files@.take(i as int)),
            forall|run: u64| #[trigger]
                has_entry(reduced(out@), run) <==> entry_of(files@.take(i as int), run) is Some,
            forall|a: int, b: int|
                0 <= a < b < out@.len() ==> (#[trigger] out@[a]).run_number != (
                #[trigger] out@[b]).run_number,
        decreases files@.len() - i,
    {
        let ghost seen = files@.take(i as int);
        let ghost next = files@.take(i + 1);
        proof {
            assert(next.drop_last() =~= seen);
            assert(next.last() == files@[i as int]);
        }
        match parse_file_name(files[i].name.as_str()) {
            Some((run, kind)) => {
                add_file(&mut out, run, kind.as_str(), &files[i], Ghost(seen));
                assert(seen.push(files@[i as int]) =~= next);
            },
            None => {
                assert forall|run: u64| #[trigger] entry_of(next, run) == entry_of(seen, run) by {}
                assert(faithful(reduced(out@), next));
            },
        }
        i = i + 1;
    }
    assert(files@.take(i as int) =~= files@);
    out
}

/// Add one file of a run to the entries.
fn add_file(
    out: &mut Vec<RunEntry>,
    run: u64,
    kind: &str,
    file: &LogFile,
    Ghost(seen): Ghost<Seq<LogFile>>,
)
    requires
        log_name(file.name@) == Some((run, kind@)),
        faithful(reduced(old(out)@), seen),
        forall|n: u64| #[trigger]
            has_entry(reduced(old(out)@), n) <==> entry_of(seen, n) is Some,
        forall|a: int, b: int|
            0 <= a < b < old(out)@.len() ==> (#[trigger] old(out)@[a]).run_number != (
            #[trigger] old(out)@[b]).run_number,
    ensures
        faithful(reduced(final(out)@), seen.push(*file)),
        forall|n: u64| #[trigger]
            has_entry(reduced(final(out)@), n) <==> entry_of(seen.push(*file), n) is Some,
        forall|a: int, b: int|
            0 <= a < b < final(out)@.len() ==> (#[trigger] final(out)@[a]).run_number != (
            #[trigger] final(out)@[b]).run_number,
{
    let ghost o = reduced(out@);
    let ghost next = seen.push(*file);
    proof {
        assert(next.drop_last() =~= seen);
        assert(next.last() == *file);
        lemma_entry_run(seen, run);
    }
    let mut at: usize = 0;
    while at < out.len() && out[at].run_number != run
        invariant
            at <= out@.len(),
            out@ == old(out)@,
            forall|k: int| 0 <= k < at ==> (#[trigger] out@[k]).run_number != run,
        decreases out@.len() - at,
    {
        at = at + 1;
    }
    let is_log = text::same(kind, "log");
    let is_err = text::same(kind, "err");
    if at == out.len() {
        proof {
            if has_entry(o, run) {
                let k = choose|k: int| 0 <= k < o.len() && (#[trigger] o[k]).run_number == run;
                assert(o[k] == old(out)@[k]@);
            }
        }
        let entry = RunEntry {
            run_number: run,
            log_path: if is_log {
                Some(file.path.clone())
            } else {
                None
            },
            err_path: if is_err {
                Some(file.path.clone())
            } else {
                None
            },
            mtime: file.modified,
        };
        assert(entry@ == with_file(None, run, kind@, *file));
        out.push(entry);
        proof {
            let t = reduced(out@);
            assert(t =~= o.push(entry@));
            lemma_added(o, t, seen, next, run, o.len() as int, entry@);
        }
    } else {
        let log_path = if is_log {
            Some(file.path.clone())
        } else {
            text::clone_opt(&out[at].log_path)
        };
        let err_path = if is_err {
            Some(file.path.clone())
        } else {
            text::clone_opt(&out[at].err_path)
        };
        let old_time = out[at].mtime;
        let mtime = if file.modified.not_after(&old_time) {
            old_time
        } else {
            file.modified
        };
        let entry = RunEntry { run_number: run, log_path, err_path, mtime };
        proof {
            assert(o[at as int] == old(out)@[at as int]@);
            assert(entry_of(seen, run) == Some(o[at as int]));
            assert(entry@ == with_file(Some(o[at as int]), run, kind@, *file));
        }
        out.set(at, entry);
        proof {
            let t = reduced(out@);
            assert(t =~= o.update(at as int, entry@));
            lemma_added(o, t, seen, next, run, at as int, entry@);
        }
    }
}

proof fn lemma_added(
    o: Seq<Reduced>,
    t: Seq<Reduced>,
    seen: Seq<LogFile>,
    next: Seq<LogFile>,
    run: u64,
    at: int,
    e: Reduced,
)
    requires
        next.len() > 0,
        next.drop_last() == seen,
        log_name(next.last().name@) is Some,
        (log_name(next.last().name@)->0).0 == run,
        faithful(o, seen),
        forall|n: u64| #[trigger] has_entry(o, n) <==> entry_of(seen, n) is Some,
        forall|a: int, b: int|
            0 <= a < b < o.len() ==> (#[trigger] o[a]).run_number != (#[trigger] o[b]).run_number,
        0 <= at <= o.len(),
        at < o.len() ==> o[at].run_number == run && t == o.update(at, e),
        at == o.len() ==> !has_entry(o, run) && t == o.push(e),
        e.run_number == run,
        entry_of(next, run) == Some(e),
    ensures
        faithful(t, next),
        forall|n: u64| #[trigger] has_entry(t, n) <==> entry_of(next, n) is Some,
{
    assert forall|k: int| 0 <= k < t.len() implies entry_of(next, (#[trigger] t[k]).run_number)
        == Some(t[k]) by {
        if k != at {
            assert(t[k] == o[k]);
            if o[k].run_number == run {
                assert(has_entry(o, run));
            }
            assert(o[k].run_number != run);
            assert(entry_of(next, o[k].run_number) == entry_of(seen, o[k].run_number));
        }
    }
    assert forall|n: u64| #[trigger] has_entry(t, n) <==> entry_of(next, n) is Some by {
        if n == run {
            assert(t[at].run_number == run);
        } else {
            assert(entry_of(next, n) == entry_of(seen, n));
            if has_entry(o, n) {
                let k = choose|k: int| 0 <= k < o.len() && (#[trigger] o[k]).run_number == n;
                assert(t[k].run_number == n);
            }
            if has_entry(t, n) {
                let k = choose|k: int| 0 <= k < t.len() && (#[trigger] t[k]).run_number == n;
                assert(o[k].run_number == n);
            }
        }
    }
}

/// The `count` most recently modified runs of the log folder's files, newest
/// first.
pub fn last_runs(files: &Vec<LogFile>, count: usize) -> (r: Vec<RunEntry>)
    ensures
        r@.len() <= count,
        faithful(reduced(r@), files@),
        ranked(reduced(r@)),
        forall|run: u64|
            entry_of(files@, run) is Some && !#[trigger] has_entry(reduced(r@), run) ==> {
                &&& r@.len() == count
                &&& forall|i: int|
                    0 <= i < r@.len() ==> comes_before(
                        #[trigger] reduced(r@)[i],
                        entry_of(files@, run)->0,
                    )
            },
{
    let mut groups = group(files);
    let ghost all = reduced(groups@);
    let mut out: Vec<RunEntry> = Vec::new();
    assert(reduced(out@) =~= Seq::empty());
    while groups.len() > 0
        invariant
            faithful(reduced(groups@), files@),
            faithful(reduced(out@), files@),
            ranked(reduced(out@)),
            forall|run: u64|
                entry_of(files@, run) is Some ==> #[trigger] has_entry(reduced(groups@), run)
                    || has_entry(reduced(out@), run),
            forall|i: int, j: int|
                0 <= i < j < groups@.len() ==> (#[trigger] groups@[i]).run_number != (
                #[trigger] groups@[j]).run_number,
            forall|i: int|
                0 <= i < groups@.len() ==> !has_entry(
                    reduced(out@),
                    (#[trigger] groups@[i]).run_number,
                ),
        decreases groups@.len(),
    {
        let ghost g = reduced(groups@);
        let ghost gs = groups@;
        let ghost o = reduced(out@);
        match groups.pop() {
            Some(e) => {
                let ghost x = e@;
                assert(gs[gs.len() - 1] == e);
                assert(g[g.len() - 1] == x);
                insert_ranked(&mut out, e);
                proof {
                    let at = choose|i: int|
                        0 <= i <= o.len() && reduced(out@) == #[trigger] o.insert(i, x);
                    let t = reduced(out@);
                    assert forall|k: int| 0 <= k < t.len() implies entry_of(
                        files@,
                        (#[trigger] t[k]).run_number,
                    ) == Some(t[k]) by {
                        if k < at {
                            assert(t[k] == o[k]);
                        } else if k > at {
                            assert(t[k] == o[k - 1]);
                        }
                    }
                    assert forall|k: int| 0 <= k < reduced(groups@).len() implies entry_of(
                        files@,
                        (#[trigger] reduced(groups@)[k]).run_number,
                    ) == Some(reduced(groups@)[k]) by {
                        assert(reduced(groups@)[k] == g[k]);
                    }
                    assert forall|run: u64| entry_of(files@, run) is Some implies #[trigger] has_entry(
                        reduced(groups@),
                        run,
                    ) || has_entry(t, run) by {
                        if has_entry(o, run) {
                            let k = choose|k: int|
                                0 <= k < o.len() && (#[trigger] o[k]).run_number == run;
                            if k < at {
                                assert(t[k].run_number == run);
                            } else {
                                assert(t[k + 1].run_number == run);
                            }
                        } else {
                            assert(has_entry(g, run));
                            let k = choose|k: int|
                                0 <= k < g.len() && (#[trigger] g[k]).run_number == run;
                            if k < g.len() - 1 {
                                assert(reduced(groups@)[k].run_number == run);
                            } else {
                                assert(t[at].run_number == run);
                            }
                        }
                    }
                    assert forall|i: int| 0 <= i < groups@.len() implies !has_entry(
                        t,
                        (#[trigger] groups@[i]).run_number,
                    ) by {
                        let n = groups@[i].run_number;
                        assert(groups@[i] == gs[i]);
                        assert(!has_entry(o, n));
                        if has_entry(t, n) {
                            let k = choose|k: int|
                                0 <= k < t.len() && (#[trigger] t[k]).run_number == n;
                            if k < at {
                                assert(o[k].run_number == n);
                            } else if k > at {
                                assert(o[k - 1].run_number == n);
                            }
                        }
                    }
                }
            },
            None => {},
        }
    }
    let ghost full = reduced(out@);
    proof {
        assert forall|run: u64| entry_of(files@, run) is Some implies has_entry(full, run) by {
            if has_entry(reduced(groups@), run) {
                let k = choose|k: int|
                    0 <= k < reduced(groups@).len() && (#[trigger] reduced(groups@)[k]).run_number
                        == run;
            }
        }
    }
    if out.len() > count {
        out.truncate(count);
    }
    proof {
        let t = reduced(out@);
        assert(t =~= full.take(out@.len() as int));
        assert forall|k: int| 0 <= k < t.len() implies entry_of(
            files@,
            (#[trigger] t[k]).run_number,
        ) == Some(t[k]) by {
            assert(t[k] == full[k]);
        }
        assert forall|a: int, b: int| 0 <= a < b < t.len() implies comes_before(
            #[trigger] t[a],
            #[trigger] t[b],
        ) by {
            assert(t[a] == full[a] && t[b] == full[b]);
        }
        assert forall|run: u64| entry_of(files@, run) is Some && !#[trigger] has_entry(t, run) implies {
            &&& out@.len() == count
            &&& forall|i: int|
                0 <= i < out@.len() ==> comes_before(#[trigger] t[i], entry_of(files@, run)->0)
        } by {
            assert(has_entry(full, run));
            let k = choose|k: int| 0 <= k < full.len() && (#[trigger] full[k]).run_number == run;
            if k < t.len() {
                assert(t[k].run_number == run);
            }
            assert(entry_of(files@, full[k].run_number) == Some(full[k]));
            assert forall|i: int| 0 <= i < out@.len() implies comes_before(
                #[trigger] t[i],
                entry_of(files@, run)->0,
            ) by {
                assert(t[i] == full[i]);
                assert(comes_before(full[i], full[k]));
            }
        }
    }
    out
}

// ---------------------------------------------------------------------
// Log contents

/// Data folders a reduction reported in its log file.
#[derive(Debug)]
pub struct LogFolders {
    /// Detector-efficiency-corrected data: `Writing data to <path>`.
    pub corrected: Option<String>,
    /// Normalized data (written by the normalization tool):
    /// `Writing normalized data to <path>`.
    pub normalized: Option<String>,
}

/// What follows one of two spellings at the start of a line.
pub open spec fn after_either(line: Text, a: Text, b: Text) -> Option<Text> {
    match text::after_prefix(line, a) {
        Some(rest) => Some(rest),
        None => text::after_prefix(line, b),
    }
}

/// The folder of normalized data a line reports.
pub open spec fn normalized_in(line: Text) -> Option<Text> {
    match after_either(line, "Writing normalized data to "@, "Writting normalized data to "@) {
        Some(path) => Some(text::trimmed(path)),
        None => None,
    }
}

/// The folder of corrected data a line reports.
pub open spec fn corrected_in(line: Text) -> Option<Text> {
    match after_either(line, "Writing data to "@, "Writting data to "@) {
        Some(path) => Some(text::trimmed(path)),
        None => None,
    }
}

/// The folders the lines report, corrected and normalized; the last of each
/// kind counts.
pub open spec fn reported(lines: Seq<Text>) -> (Option<Text>, Option<Text>)
    decreases lines.len(),
{
    if lines.len() == 0 {
        (None, None)
    } else {
        let before = reported(lines.drop_last());
        match normalized_in(lines.last()) {
            Some(path) => (before.0, Some(path)),
            None => match corrected_in(lines.last()) {
                Some(path) => (Some(path), before.1),
                None => before,
            },
        }
    }
}

fn strip_either(line: &str, a: &str, b: &str) -> (r: Option<String>)
    ensures
        text::opt_text(r) == (match after_either(line@, a@, b@) {
            Some(path) => Some(text::trimmed(path)),
            None => None,
        }),
{
    match text::strip_prefix(line, a) {
        Some(rest) => Some(text::trim(rest.as_str())),
        None => match text::strip_prefix(line, b) {
            Some(rest) => Some(text::trim(rest.as_str())),
            None => None,
        },
    }
}

/// Parse the data-folder lines out of a run's log. For each kind the
/// last matching line wins if the log ever contains several. A missing or
/// unreadable log has no lines.
pub fn folders_from_log(content: &str) -> (r: LogFolders)
    ensures
        (text::opt_text(r.corrected), text::opt_text(r.normalized)) == reported(
            text::lines_of(content@),
        ),
{
    let lines = text::lines(content);
    let ghost ls = text::lines_of(content@);
    let mut corrected: Option<String> = None;
    let mut normalized: Option<String> = None;
    let mut i: usize = 0;
    while i < lines.len()
        invariant
            i <= lines@.len(),
            ls == text::texts(lines@),
            (text::opt_text(corrected), text::opt_text(normalized)) == reported(ls.take(i as int)),
        decreases lines@.len() - i,
    {
        proof {
            assert(ls.take(i + 1).drop_last() =~= ls.take(i as int));
            assert(ls.take(i + 1).last() == lines@[i as int]@);
        }
        // Tolerate the historical "Writting" spelling.
        match strip_either(
            lines[i].as_str(),
            "Writing normalized data to ",
            "Writting normalized data to ",
        ) {
            Some(path) => {
                normalized = Some(path);
            },
            None => match strip_either(lines[i].as_str(), "Writing data to ", "Writting data to ") {
                Some(path) => {
                    corrected = Some(path);
                },
                None => {},
            },
        }
        i = i + 1;
    }
    assert(ls.take(i as int) =~= ls);
    LogFolders { corrected, normalized }
}

} // verus!
