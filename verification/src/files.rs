//! Run-list parsing and discovery of a run's files on disk.
//!
//! For a VENUS run `N` inside an IPTS folder (`/SNS/VENUS/IPTS-x`):
//! - NeXus:      `nexus/VENUS_N.nxs.h5` (a file, exact path)
//! - Raw:        a folder named `*_Run_N_*` somewhere under `images/`
//!               (e.g. `images/tpx1/raw/radiography/<title>/<date>_Run_N_<title>_<i>`)
//! - Corrected:  same folder-name pattern under `shared/autoreduce/images/`
//!               (the autoreduction mirrors the raw tree there)

use vstd::prelude::*;
use crate::laws::folders;
use crate::{number, order, paths, text};
use crate::text::{chars_of, slice, Class, Text};

verus! {

// ---------------------------------------------------------------------
// Run lists

/// What a token of a run list names: the runs from the first number to the
/// second, or a message about why it names none.
pub open spec fn token_range(token: Text) -> Result<(u64, u64), Text> {
    match text::cut(token, "-"@) {
        Some((a, b)) => match (number::parsed(a), number::parsed(b)) {
            (Some(first), Some(last)) => if first > last || last - first > 10_000 {
                Err("invalid range '"@ + token + "'"@)
            } else {
                Ok((first, last))
            },
            _ => Err(bad_token(token)),
        },
        None => match number::parsed(token) {
            Some(run) => Ok((run, run)),
            None => Err(bad_token(token)),
        },
    }
}

pub open spec fn bad_token(token: Text) -> Text {
    "cannot parse '"@ + token + "' — expected run numbers like 23642 or 23615-23620"@
}

/// The tokens of a run list, with an empty one between two separators.
pub open spec fn tokens(list: Text) -> Seq<Text> {
    text::pieces(list, Class::NotSpaceOrComma)
}

/// Does the token name the run?
pub open spec fn token_names(token: Text, run: u64) -> bool {
    token.len() > 0 && match token_range(token) {
        Ok((first, last)) => first <= run <= last,
        Err(_) => false,
    }
}

/// The message about the first token, from index `i` on, that names no runs.
pub open spec fn first_error(tokens: Seq<Text>, i: int) -> Option<Text>
    decreases tokens.len() - i,
{
    if !(0 <= i < tokens.len()) {
        None
    } else {
        match (tokens[i].len() > 0, token_range(tokens[i])) {
            (true, Err(message)) => Some(message),
            _ => first_error(tokens, i + 1),
        }
    }
}

/// Does some token of the list name the run?
pub open spec fn list_names(list: Text, run: u64) -> bool {
    exists|i: int| 0 <= i < tokens(list).len() && token_names(#[trigger] tokens(list)[i], run)
}

fn bad(token: &str) -> (r: String)
    ensures
        r@ == bad_token(token@),
{
    text::cat3(
        "cannot parse '",
        token,
        "' — expected run numbers like 23642 or 23615-23620",
    )
}

fn parse_token(token: &str) -> (r: Result<(u64, u64), String>)
    ensures
        match r {
            Ok(range) => token_range(token@) == Ok::<(u64, u64), Text>(range) && range.0 <= range.1,
            Err(message) => token_range(token@) == Err::<(u64, u64), Text>(message@),
        },
{
    match text::split_once(token, "-") {
        Some((a, b)) => {
            let first = match number::parse_u64(a.as_str()) {
                Some(n) => n,
                None => return Err(bad(token)),
            };
            let last = match number::parse_u64(b.as_str()) {
                Some(n) => n,
                None => return Err(bad(token)),
            };
            if first > last || last - first > 10_000 {
                return Err(text::cat3("invalid range '", token, "'"));
            }
            Ok((first, last))
        },
        None => match number::parse_u64(token) {
            Some(run) => Ok((run, run)),
            None => Err(bad(token)),
        },
    }
}

/// What a typed list of runs comes to: every run it names, once and
/// ascending, or the first error of its tokens.
pub open spec fn parses(list: Text, r: Result<Seq<u64>, Text>) -> bool {
    match r {
        Ok(runs) => {
            &&& first_error(tokens(list), 0) is None
            &&& order::ascending(runs)
            &&& forall|run: u64| #[trigger] runs.contains(run) <==> list_names(list, run)
        },
        Err(message) => first_error(tokens(list), 0) == Some(message),
    }
}

pub open spec fn runs_result(r: Result<Vec<u64>, String>) -> Result<Seq<u64>, Text> {
    match r {
        Ok(runs) => Ok(runs@),
        Err(message) => Err(message@),
    }
}

/// Parse a user-typed run list: comma/space separated numbers and `a-b`
/// ranges, e.g. `"23615-23618, 23642"`. Returns the sorted, de-duplicated
/// run numbers, or a message describing the first token that failed.
pub fn parse_run_list(list: &str) -> (r: Result<Vec<u64>, String>)
    ensures
        match r {
            Ok(runs) => {
                &&& first_error(tokens(list@), 0) is None
                &&& order::ascending(runs@)
                &&& forall|run: u64| runs@.contains(run) <==> list_names(list@, run)
            },
            Err(message) => first_error(tokens(list@), 0) == Some(message@),
        },
        parses(list@, runs_result(r)),
{
    let parts = text::split(list, Class::NotSpaceOrComma);
    let ghost ts = tokens(list@);
    let mut runs: Vec<u64> = Vec::new();
    let mut i: usize = 0;
    while i < parts.len()
        invariant
            i <= parts@.len(),
            text::texts(parts@) == ts,
            ts == tokens(list@),
            first_error(ts, 0) == first_error(ts, i as int),
            forall|run: u64|
                #![trigger runs@.contains(run)]
                runs@.contains(run) <==> exists|k: int|
                    0 <= k < i && token_names(#[trigger] ts[k], run),
        decreases parts@.len() - i,
    {
        assert(parts@[i as int]@ == ts[i as int]);
        let ghost before = runs@;
        let mut lo: u64 = 1;
        let mut hi: u64 = 0;
        if !parts[i].as_str().is_empty() {
            match parse_token(parts[i].as_str()) {
                Ok((first, last)) => {
                    lo = first;
                    hi = last;
                    push_range(&mut runs, first, last);
                },
                Err(message) => {
                    return Err(message);
                },
            }
        }
        assert forall|run: u64| #[trigger] runs@.contains(run) <==> exists|k: int|
            0 <= k < i + 1 && token_names(#[trigger] ts[k], run) by {
            if before.contains(run) {
                let k = choose|k: int| 0 <= k < i && token_names(#[trigger] ts[k], run);
                assert(token_names(ts[k], run));
            }
            if lo <= run <= hi {
                assert(token_names(ts[i as int], run));
            }
            if exists|k: int| 0 <= k < i + 1 && token_names(#[trigger] ts[k], run) {
                let k = choose|k: int| 0 <= k < i + 1 && token_names(#[trigger] ts[k], run);
                if k < i {
                    assert(token_names(ts[k], run));
                }
            }
        }
        i = i + 1;
    }
    let sorted = order::sorted_set(&runs);
    assert forall|run: u64| sorted@.contains(run) <==> list_names(list@, run) by {
        assert(sorted@.contains(run) <==> runs@.contains(run));
    }
    Ok(sorted)
}

fn push_range(runs: &mut Vec<u64>, first: u64, last: u64)
    requires
        first <= last,
    ensures
        forall|run: u64| #[trigger]
            final(runs)@.contains(run) <==> (old(runs)@.contains(run) || first <= run <= last),
{
    let mut n: u64 = first;
    loop
        invariant_except_break
            first <= n <= last,
            forall|run: u64| #[trigger]
                runs@.contains(run) <==> (old(runs)@.contains(run) || first <= run < n),
        ensures
            forall|run: u64| #[trigger]
                runs@.contains(run) <==> (old(runs)@.contains(run) || first <= run <= last),
        decreases last - n,
    {
        let ghost before = runs@;
        runs.push(n);
        assert forall|run: u64| #[trigger] runs@.contains(run) <==> (before.contains(run) || run == n) by {
            if before.contains(run) {
                let k = choose|k: int| 0 <= k < before.len() && before[k] == run;
                assert(runs@[k] == run);
            }
            if run == n {
                assert(runs@[before.len() as int] == run);
            }
        }
        if n == last {
            break;
        }
        n = n + 1;
    }
}

// ---------------------------------------------------------------------
// What a run folder's name tells

/// The run number of a folder name: the digits after its first `Run_`.
pub open spec fn run_in_name(name: Text) -> Option<u64> {
    match text::find(name, "Run_"@) {
        Some(i) => number::parsed(name.subrange(i + 4, text::run_end(name, Class::Digit, i + 4))),
        None => None,
    }
}

/// Extract the run number out of a folder name like
/// `20260613_Run_23642_LF99D_Rnd2_..._0` (`Run_<digits>` token; the digits
/// must end at a non-digit so `Run_2364` never matches run 23642).
pub fn run_number_in_name(name: &str) -> (r: Option<u64>)
    ensures
        r == run_in_name(name@),
{
    proof {
        reveal_strlit("Run_");
    }
    let v = chars_of(name);
    let n: usize = v.len();
    let pat = chars_of("Run_");
    match text::find_chars(&v, &pat) {
        Some(i) => {
            let from: usize = i + 4;
            let to = text::end_of_run(&v, Class::Digit, from);
            let digits = slice(&v, from, to);
            number::parse_u64(digits.as_str())
        },
        None => None,
    }
}

/// A text without a trailing `_<digits>`.
pub open spec fn without_index(s: Text) -> Text {
    let k = text::run_start(s, Class::Digit, s.len() as int);
    if k < s.len() && k > 0 && s[k - 1] == '_' {
        s.take(k - 1)
    } else {
        s
    }
}

/// The acquisition name of a run folder's name.
pub open spec fn acquisition(name: Text) -> Option<Text> {
    match text::find(name, "_Run_"@) {
        Some(i) => {
            let e = text::run_end(name, Class::Digit, i + 5);
            if e == i + 5 || e >= name.len() || name[e] != '_' {
                None
            } else {
                let kept = without_index(name.skip(e + 1));
                if kept.len() == 0 {
                    None
                } else {
                    Some(kept)
                }
            }
        },
        None => None,
    }
}

/// The acquisition name of a run folder — what the DAQ was told to call
/// the measurement — without the `<date>_Run_<run>_` prefix and the
/// trailing `_<index>` (the run's rank among those of the same name):
/// `20260921_Run_30340_reptRib_PFV468_2_900C_3_000AngsMin_0` →
/// `reptRib_PFV468_2_900C_3_000AngsMin`. Consecutive runs of one series
/// share it (title, sample environment setpoint, chopper setting); a
/// different sample or setpoint changes it. `None` when the name does not
/// follow the pattern.
pub fn acquisition_name(name: &str) -> (r: Option<String>)
    ensures
        text::opt_text(r) == acquisition(name@),
{
    proof {
        reveal_strlit("_Run_");
    }
    let v = chars_of(name);
    let n: usize = v.len();
    let pat = chars_of("_Run_");
    match text::find_chars(&v, &pat) {
        Some(i) => {
            let from: usize = i + 5;
            let e = text::end_of_run(&v, Class::Digit, from);
            if e == from || e >= n || v[e] != '_' {
                return None;
            }
            let rest = slice(&v, e + 1, n);
            assert(rest@ =~= name@.skip(e + 1));
            let w = chars_of(rest.as_str());
            let k = text::start_of_run(&w, Class::Digit, w.len());
            let kept = if k < w.len() && k > 0 && w[k - 1] == '_' {
                let t = slice(&w, 0, k - 1);
                assert(t@ =~= rest@.take(k - 1));
                t
            } else {
                rest
            };
            if kept.as_str().is_empty() {
                None
            } else {
                Some(kept)
            }
        },
        None => None,
    }
}

/// The starting wavelength of a folder name, as a decimal text: the digits,
/// an underscore for the decimal point, and the digits before `AngsMin`.
pub open spec fn wavelength(name: Text) -> Option<Text> {
    match text::find(name, "AngsMin"@) {
        Some(i) => {
            let f = text::run_start(name, Class::Digit, i);
            if f == i || f == 0 || name[f - 1] != '_' {
                None
            } else {
                let w = text::run_start(name, Class::Digit, f - 1);
                if w == f - 1 {
                    None
                } else {
                    Some(name.subrange(w, f - 1) + "."@ + name.subrange(f, i))
                }
            }
        },
        None => None,
    }
}

/// Extract the starting wavelength (Å) the DAQ bakes into a run's folder
/// name, e.g. `..._2_900C_3_000AngsMin_...` → `3.000` (the `AngsMin`
/// token; the underscore between its two digit groups stands for the
/// decimal point — not to be confused with an unrelated digit group
/// earlier in the name, like a temperature such as `2_900C` here).
/// `None` when the name carries no such token.
pub fn starting_wavelength_in_name(name: &str) -> (r: Option<String>)
    ensures
        text::opt_text(r) == wavelength(name@),
{
    let v = chars_of(name);
    let pat = chars_of("AngsMin");
    match text::find_chars(&v, &pat) {
        Some(i) => {
            let f = text::start_of_run(&v, Class::Digit, i);
            if f == i || f == 0 || v[f - 1] != '_' {
                return None;
            }
            let w = text::start_of_run(&v, Class::Digit, f - 1);
            if w == f - 1 {
                return None;
            }
            let whole = slice(&v, w, f - 1);
            let frac = slice(&v, f, i);
            Some(text::cat3(whole.as_str(), ".", frac.as_str()))
        },
        None => None,
    }
}

// ---------------------------------------------------------------------
// Finding run folders

/// How deep below the scan root a run folder can sit
/// (`tpx1/raw/radiography/<title>/<run folder>` = 5 levels).
pub const MAX_SCAN_DEPTH: usize = 6;

/// An entry of a folder: its name, and whether it is a folder.
pub struct Entry {
    pub name: String,
    pub is_dir: bool,
}

/// An entry of a folder, as its name and whether it is a folder.
pub open spec fn entry(e: Entry) -> (Text, bool) {
    (e.name@, e.is_dir)
}

pub open spec fn entries(es: Seq<Entry>) -> Seq<(Text, bool)> {
    es.map_values(|e: Entry| entry(e))
}

/// What each folder of a tree holds, by its path; a folder that is missing
/// or cannot be read holds nothing.
pub type Tree = spec_fn(Text) -> Seq<(Text, bool)>;

/// The folders found so far, with their run numbers.
pub type Found = Seq<(u64, Text)>;

/// Is a folder of this run among the found ones?
pub open spec fn has_run(found: Found, run: u64) -> bool {
    exists|i: int| 0 <= i < found.len() && #[trigger] found[i].0 == run
}

/// `found` with the folder of a run, unless one was found before.
pub open spec fn with_run(found: Found, run: u64, path: Text) -> Found {
    if has_run(found, run) {
        found
    } else {
        found.push((run, path))
    }
}

/// Hidden entries and plain files are not looked at.
pub open spec fn looked_at(e: (Text, bool)) -> bool {
    e.1 && !(e.0.len() > 0 && e.0[0] == '.')
}

pub fn is_looked_at(e: &Entry) -> (r: bool)
    ensures
        r == looked_at(entry(*e)),
{
    proof {
        reveal_strlit(".");
        let n = e.name@;
        if n.len() > 0 {
            assert(n.subrange(0, 1)[0] == n[0]);
            if n[0] == '.' {
                assert(n.subrange(0, 1) =~= "."@);
            }
        }
    }
    e.is_dir && !text::starts_with(e.name.as_str(), ".")
}

/// What a walk through the folder `dir` adds to `found`: the folders that
/// carry a wanted run number, the first of each; a folder with a run number
/// is not descended into, and nothing is read once every run is found. `dir`
/// lies `depth` levels below the root; what is found lies one level deeper.
pub open spec fn walk(tree: Tree, dir: Text, depth: int, wanted: Seq<u64>, found: Found) -> Found
    decreases MAX_SCAN_DEPTH - depth, tree(dir).len() + 1,
{
    if depth >= MAX_SCAN_DEPTH || found.len() == wanted.len() {
        found
    } else {
        visit(tree, dir, 0, depth, wanted, found)
    }
}

/// What the entries of `dir`, from index `i` on, add to `found`.
pub open spec fn visit(
    tree: Tree,
    dir: Text,
    i: int,
    depth: int,
    wanted: Seq<u64>,
    found: Found,
) -> Found
    decreases MAX_SCAN_DEPTH - depth, tree(dir).len() - i,
    when 0 <= i && depth < MAX_SCAN_DEPTH
{
    if i >= tree(dir).len() {
        found
    } else {
        visit(tree, dir, i + 1, depth, wanted, visit_one(tree, dir, i, depth, wanted, found))
    }
}

/// What the entry of `dir` at index `i` adds to `found`.
pub open spec fn visit_one(
    tree: Tree,
    dir: Text,
    i: int,
    depth: int,
    wanted: Seq<u64>,
    found: Found,
) -> Found
    decreases MAX_SCAN_DEPTH - depth, tree(dir).len() - i - 1,
    when 0 <= i < tree(dir).len() && depth < MAX_SCAN_DEPTH
{
    let e = tree(dir)[i];
    let path = paths::below(dir, e.0);
    if !looked_at(e) {
        found
    } else {
        match run_in_name(e.0) {
            Some(run) => if wanted.contains(run) {
                with_run(found, run, path)
            } else {
                found
            },
            None => walk(tree, path, depth + 1, wanted, found),
        }
    }
}

/// What a scan of `root` finds.
pub open spec fn scan(tree: Tree, root: Text, wanted: Seq<u64>) -> Found {
    walk(tree, root, 0, wanted, Seq::empty())
}

/// A folder that waits to be looked at.
pub struct Pending {
    pub dir: String,
    pub name: String,
    pub depth: usize,
}

/// A waiting folder: the folder that holds it, its name, and how deep the
/// folder that holds it lies.
pub type Waiting = (Text, Text, int);

pub open spec fn waiting(p: Pending) -> Waiting {
    (p.dir@, p.name@, p.depth as int)
}

pub open spec fn all_waiting(ps: Seq<Pending>) -> Seq<Waiting> {
    ps.map_values(|p: Pending| waiting(p))
}

/// The found folders of a scan.
pub open spec fn found_of(v: Seq<(u64, String)>) -> Found {
    v.map_values(|f: (u64, String)| (f.0, f.1@))
}

/// What one waiting folder adds to `found`.
pub open spec fn settle(tree: Tree, w: Waiting, wanted: Seq<u64>, found: Found) -> Found {
    match run_in_name(w.1) {
        Some(run) => if wanted.contains(run) {
            with_run(found, run, paths::below(w.0, w.1))
        } else {
            found
        },
        None => walk(tree, paths::below(w.0, w.1), w.2 + 1, wanted, found),
    }
}

/// What all waiting folders, the last first, add to `found`.
pub open spec fn settle_all(
    tree: Tree,
    stack: Seq<Waiting>,
    wanted: Seq<u64>,
    found: Found,
) -> Found
    decreases stack.len(),
{
    if stack.len() == 0 {
        found
    } else {
        settle_all(tree, stack.drop_last(), wanted, settle(tree, stack.last(), wanted, found))
    }
}

/// The looked-at entries of a folder, the first last.
pub open spec fn stacked(dir: Text, es: Seq<(Text, bool)>, depth: int, i: int) -> Seq<Waiting>
    decreases es.len() - i,
{
    if !(0 <= i < es.len()) {
        Seq::empty()
    } else if looked_at(es[i]) {
        stacked(dir, es, depth, i + 1).push((dir, es[i].0, depth))
    } else {
        stacked(dir, es, depth, i + 1)
    }
}

/// A scan for run folders, one folder listing at a time: [`Scan::next`] names
/// the folder to list, [`Scan::feed`] takes its entries.
pub struct Scan {
    wanted: Vec<u64>,
    found: Vec<(u64, String)>,
    stack: Vec<Pending>,
    /// The folder whose listing was asked for, and its depth.
    asked: Option<(String, usize)>,
}

impl Scan {
    pub closed spec fn wants(&self) -> Seq<u64> {
        self.wanted@
    }

    pub closed spec fn has_found(&self) -> Found {
        found_of(self.found@)
    }

    pub closed spec fn waits_for(&self) -> Option<(Text, int)> {
        match self.asked {
            Some((dir, depth)) => Some((dir@, depth as int)),
            None => None,
        }
    }

    pub closed spec fn left(&self) -> Seq<Waiting> {
        all_waiting(self.stack@)
    }

    /// What the scan will have found in the end, if the tree is `tree`.
    pub open spec fn outcome(&self, tree: Tree) -> Found {
        let found = match self.waits_for() {
            Some((dir, depth)) => walk(tree, dir, depth, self.wants(), self.has_found()),
            None => self.has_found(),
        };
        settle_all(tree, self.left(), self.wants(), found)
    }

    pub closed spec fn valid(&self) -> bool {
        &&& order::ascending(self.wanted@)
        &&& forall|i: int| 0 <= i < self.stack@.len() ==> (#[trigger] self.stack@[i]).depth
            < MAX_SCAN_DEPTH
        &&& self.asked matches Some((dir, depth)) ==> depth < MAX_SCAN_DEPTH
            && self.found@.len() != self.wanted@.len()
    }

    /// The found folders.
    pub fn found(&self) -> (r: &Vec<(u64, String)>)
        ensures
            found_of(r@) == self.has_found(),
    {
        &self.found
    }

    /// The folder to list next, or `None` when the scan is over.
    pub fn next(&mut self) -> (r: Option<String>)
        requires
            old(self).valid(),
        ensures
            final(self).valid(),
            final(self).wants() == old(self).wants(),
            forall|tree: Tree| #[trigger] final(self).outcome(tree) == old(self).outcome(tree),
            match r {
                Some(dir) => final(self).waits_for() is Some && (final(self).waits_for()->0).0 == dir@,
                None => forall|tree: Tree| #[trigger] final(self).outcome(tree) == final(self).has_found(),
            },
    {
        match &self.asked {
            Some((dir, depth)) => {
                return Some(dir.clone());
            },
            None => {},
        }
        loop
            invariant
                self.valid(),
                self.asked is None,
                self.wants() == old(self).wants(),
                forall|tree: Tree| #[trigger] self.outcome(tree) == old(self).outcome(tree),
            decreases self.stack@.len(),
        {
            let ghost before = *self;
            match self.stack.pop() {
                None => {
                    assert forall|tree: Tree| #[trigger] self.outcome(tree) == old(self).outcome(tree) by {
                        assert(before.outcome(tree) == old(self).outcome(tree));
                    }
                    return None;
                },
                Some(p) => {
                    let ghost w = waiting(p);
                    assert(before.left().last() == w);
                    assert(self.left() =~= before.left().drop_last());
                    let path = paths::join(p.dir.as_str(), p.name.as_str());
                    match run_number_in_name(p.name.as_str()) {
                        Some(run) => {
                            if order::member(&self.wanted, run) && !self.is_found(run) {
                                self.found.push((run, path));
                                assert(self.has_found() =~= before.has_found().push((run, path@)));
                            }
                        },
                        None => {
                            if p.depth + 1 < MAX_SCAN_DEPTH && self.found.len() != self.wanted.len() {
                                let dir = path.clone();
                                self.asked = Some((path, p.depth + 1));
                                assert forall|tree: Tree| #[trigger] self.outcome(tree) == old(self).outcome(tree) by {
                                    assert(before.outcome(tree) == old(self).outcome(tree));
                                }
                                return Some(dir);
                            }
                        },
                    }
                    assert forall|tree: Tree| #[trigger] self.outcome(tree) == old(self).outcome(tree) by {
                        assert(before.outcome(tree) == old(self).outcome(tree));
                    }
                },
            }
        }
    }

    fn is_found(&self, run: u64) -> (r: bool)
        ensures
            r == has_run(self.has_found(), run),
    {
        let mut i: usize = 0;
        while i < self.found.len()
            invariant
                i <= self.found@.len(),
                forall|k: int| 0 <= k < i ==> (#[trigger] found_of(self.found@)[k]).0 != run,
            decreases self.found@.len() - i,
        {
            if self.found[i].0 == run {
                assert(found_of(self.found@)[i as int].0 == run);
                return true;
            }
            i = i + 1;
        }
        false
    }

    /// Take the entries of the folder that [`Scan::next`] named (none where
    /// it is missing or cannot be read).
    pub fn feed(&mut self, listing: &Vec<Entry>)
        requires
            old(self).valid(),
            old(self).waits_for() is Some,
        ensures
            final(self).valid(),
            final(self).wants() == old(self).wants(),
            final(self).waits_for() is None,
            forall|tree: Tree|
                tree((old(self).waits_for()->0).0) == entries(listing@)
                    ==> #[trigger] final(self).outcome(tree) == old(self).outcome(tree),
    {
        let (dir, depth) = match self.asked.take() {
            Some(asked) => asked,
            None => {
                return ;
            },
        };
        let ghost es = entries(listing@);
        let ghost base = self.left();
        let mut i: usize = listing.len();
        while i > 0
            invariant
                i <= listing@.len(),
                es == entries(listing@),
                self.valid(),
                self.asked is None,
                self.wanted@ == old(self).wanted@,
                self.found@ == old(self).found@,
                depth < MAX_SCAN_DEPTH,
                self.left() =~= base + stacked(dir@, es, depth as int, i as int),
            decreases i,
        {
            i = i - 1;
            assert(es[i as int] == entry(listing@[i as int]));
            if is_looked_at(&listing[i]) {
                let ghost before = self.left();
                self.stack.push(
                    Pending { dir: dir.clone(), name: listing[i].name.clone(), depth },
                );
                assert(self.left() =~= before.push((dir@, es[i as int].0, depth as int)));
            }
        }
        assert forall|tree: Tree| tree((old(self).waits_for()->0).0) == es implies #[trigger] self.outcome(
            tree,
        ) == old(self).outcome(tree) by {
            lemma_settle_stacked(tree, base, dir@, depth as int, 0, self.wants(), self.has_found());
        }
    }
}

/// Settling the stacked entries of a folder is visiting them.
proof fn lemma_settle_stacked(
    tree: Tree,
    base: Seq<Waiting>,
    dir: Text,
    depth: int,
    i: int,
    wanted: Seq<u64>,
    found: Found,
)
    requires
        0 <= i <= tree(dir).len(),
        depth < MAX_SCAN_DEPTH,
    ensures
        settle_all(tree, base + stacked(dir, tree(dir), depth, i), wanted, found) == settle_all(
            tree,
            base,
            wanted,
            visit(tree, dir, i, depth, wanted, found),
        ),
    decreases tree(dir).len() - i,
{
    let es = tree(dir);
    let stack = base + stacked(dir, es, depth, i);
    if i < es.len() {
        let next = visit_one(tree, dir, i, depth, wanted, found);
        lemma_settle_stacked(tree, base, dir, depth, i + 1, wanted, next);
        if looked_at(es[i]) {
            assert(stack.drop_last() =~= base + stacked(dir, es, depth, i + 1));
            assert(stack.last() == (dir, es[i].0, depth));
            assert(settle(tree, stack.last(), wanted, found) == next);
        }
    } else {
        assert(stack =~= base);
    }
}

/// Start a scan of `root` (depth-limited) that maps each wanted run number to
/// the first folder found whose name carries it. Matched folders are not
/// descended into. A missing/unreadable root simply yields nothing.
pub fn scan_run_dirs(root: &str, wanted: &Vec<u64>) -> (r: Scan)
    ensures
        r.valid(),
        order::ascending(r.wants()),
        forall|run: u64| r.wants().contains(run) <==> wanted@.contains(run),
        forall|tree: Tree| #[trigger] r.outcome(tree) == scan(tree, root@, r.wants()),
{
    let wanted = order::sorted_set(wanted);
    let asked = if wanted.len() == 0 {
        None
    } else {
        Some((root.to_owned(), 0usize))
    };
    let r = Scan { wanted, found: Vec::new(), stack: Vec::new(), asked };
    assert(r.has_found() =~= Seq::empty());
    assert(r.left() =~= Seq::empty());
    r
}

/// A scan finds each run at most once, only wanted runs, and for each a
/// folder whose name carries the run's number.
pub proof fn scan_finds_wanted_runs(tree: Tree, root: Text, wanted: Seq<u64>)
    ensures
        found_well(scan(tree, root, wanted), wanted),
{
    lemma_walk_well(tree, root, 0, wanted, Seq::empty());
}

/// Does the folder's name carry the run's number?
pub open spec fn carries(path: Text, run: u64) -> bool {
    exists|dir: Text, name: Text| path == #[trigger] paths::below(dir, name) && run_in_name(name)
        == Some(run)
}

pub open spec fn found_well(found: Found, wanted: Seq<u64>) -> bool {
    &&& forall|i: int|
        0 <= i < found.len() ==> wanted.contains((#[trigger] found[i]).0) && carries(
            found[i].1,
            found[i].0,
        )
    &&& forall|i: int, j: int| 0 <= i < j < found.len() ==> found[i].0 != found[j].0
}

proof fn lemma_walk_well(tree: Tree, dir: Text, depth: int, wanted: Seq<u64>, found: Found)
    requires
        found_well(found, wanted),
    ensures
        found_well(walk(tree, dir, depth, wanted, found), wanted),
    decreases MAX_SCAN_DEPTH - depth, tree(dir).len() + 1,
{
    if !(depth >= MAX_SCAN_DEPTH || found.len() == wanted.len()) {
        lemma_visit_well(tree, dir, 0, depth, wanted, found);
    }
}

proof fn lemma_visit_one_well(
    tree: Tree,
    dir: Text,
    i: int,
    depth: int,
    wanted: Seq<u64>,
    found: Found,
)
    requires
        found_well(found, wanted),
        0 <= i < tree(dir).len(),
        depth < MAX_SCAN_DEPTH,
    ensures
        found_well(visit_one(tree, dir, i, depth, wanted, found), wanted),
    decreases MAX_SCAN_DEPTH - depth, tree(dir).len() - i - 1,
{
    let e = tree(dir)[i];
    let path = paths::below(dir, e.0);
    if looked_at(e) {
        match run_in_name(e.0) {
            Some(run) => {
                if wanted.contains(run) && !has_run(found, run) {
                    assert(carries(path, run));
                    let next = found.push((run, path));
                    assert forall|a: int, b: int| 0 <= a < b < next.len() implies next[a].0
                        != next[b].0 by {
                        assert(found[a] == next[a]);
                    }
                    assert(found_well(next, wanted));
                }
            },
            None => {
                lemma_walk_well(tree, path, depth + 1, wanted, found);
            },
        }
    }
}

proof fn lemma_visit_well(
    tree: Tree,
    dir: Text,
    i: int,
    depth: int,
    wanted: Seq<u64>,
    found: Found,
)
    requires
        found_well(found, wanted),
        0 <= i,
        depth < MAX_SCAN_DEPTH,
    ensures
        found_well(visit(tree, dir, i, depth, wanted, found), wanted),
    decreases MAX_SCAN_DEPTH - depth, tree(dir).len() - i,
{
    if i < tree(dir).len() {
        lemma_visit_one_well(tree, dir, i, depth, wanted, found);
        lemma_visit_well(
            tree,
            dir,
            i + 1,
            depth,
            wanted,
            visit_one(tree, dir, i, depth, wanted, found),
        );
    }
}

/// Does a folder of the run sit at `path`, at most `levels` levels below
/// `dir`, under plain folders alone?
pub open spec fn sits(tree: Tree, dir: Text, levels: int, run: u64, path: Text) -> bool
    decreases levels,
{
    levels > 0 && exists|i: int|
        0 <= i < tree(dir).len() && looked_at(#[trigger] tree(dir)[i]) && match run_in_name(
            tree(dir)[i].0,
        ) {
            Some(number) => number == run && path == paths::below(dir, tree(dir)[i].0),
            None => sits(tree, paths::below(dir, tree(dir)[i].0), levels - 1, run, path),
        }
}

/// Every folder a scan finds sits at most [`MAX_SCAN_DEPTH`] levels below the
/// root.
pub proof fn found_folders_sit_near(tree: Tree, root: Text, wanted: Seq<u64>, k: int)
    requires
        0 <= k < scan(tree, root, wanted).len(),
    ensures
        sits(
            tree,
            root,
            MAX_SCAN_DEPTH as int,
            scan(tree, root, wanted)[k].0,
            scan(tree, root, wanted)[k].1,
        ),
{
    lemma_walk_extends(tree, root, 0, wanted, Seq::empty());
}

/// A wanted run is missing from a scan only if no folder of it sits within
/// reach of the root.
pub proof fn scan_misses_no_run_within_reach(
    tree: Tree,
    root: Text,
    wanted: Seq<u64>,
    run: u64,
    path: Text,
)
    requires
        order::ascending(wanted),
        wanted.contains(run),
        sits(tree, root, MAX_SCAN_DEPTH as int, run, path),
    ensures
        has_run(scan(tree, root, wanted), run),
{
    lemma_walk_complete(tree, root, 0, wanted, Seq::empty(), run, path);
}

/// `next` is `found` with more folders, all of them sitting below `dir`.
spec fn extends(tree: Tree, dir: Text, levels: int, found: Found, next: Found) -> bool {
    &&& found.len() <= next.len()
    &&& forall|k: int| 0 <= k < found.len() ==> #[trigger] next[k] == found[k]
    &&& forall|k: int|
        found.len() <= k < next.len() ==> sits(
            tree,
            dir,
            levels,
            (#[trigger] next[k]).0,
            next[k].1,
        )
}

proof fn lemma_walk_extends(tree: Tree, dir: Text, depth: int, wanted: Seq<u64>, found: Found)
    ensures
        extends(
            tree,
            dir,
            MAX_SCAN_DEPTH - depth,
            found,
            walk(tree, dir, depth, wanted, found),
        ),
    decreases MAX_SCAN_DEPTH - depth, tree(dir).len() + 1,
{
    if !(depth >= MAX_SCAN_DEPTH || found.len() == wanted.len()) {
        lemma_visit_extends(tree, dir, 0, depth, wanted, found);
    }
}

proof fn lemma_visit_extends(
    tree: Tree,
    dir: Text,
    i: int,
    depth: int,
    wanted: Seq<u64>,
    found: Found,
)
    requires
        0 <= i,
        depth < MAX_SCAN_DEPTH,
    ensures
        extends(
            tree,
            dir,
            MAX_SCAN_DEPTH - depth,
            found,
            visit(tree, dir, i, depth, wanted, found),
        ),
    decreases MAX_SCAN_DEPTH - depth, tree(dir).len() - i,
{
    if i < tree(dir).len() {
        let e = tree(dir)[i];
        let path = paths::below(dir, e.0);
        let next = visit_one(tree, dir, i, depth, wanted, found);
        if looked_at(e) && run_in_name(e.0) is None {
            lemma_walk_extends(tree, path, depth + 1, wanted, found);
        }
        assert(extends(tree, dir, MAX_SCAN_DEPTH - depth, found, next));
        lemma_visit_extends(tree, dir, i + 1, depth, wanted, next);
        let last = visit(tree, dir, i + 1, depth, wanted, next);
        assert forall|k: int| 0 <= k < found.len() implies #[trigger] last[k] == found[k] by {
            assert(next[k] == found[k]);
        }
        assert forall|k: int| found.len() <= k < last.len() implies sits(
            tree,
            dir,
            MAX_SCAN_DEPTH - depth,
            (#[trigger] last[k]).0,
            last[k].1,
        ) by {
            if k < next.len() {
                assert(last[k] == next[k]);
            }
        }
    }
}

proof fn lemma_still_found(tree: Tree, dir: Text, levels: int, found: Found, next: Found, run: u64)
    requires
        extends(tree, dir, levels, found, next),
        has_run(found, run),
    ensures
        has_run(next, run),
{
    let k = choose|k: int| 0 <= k < found.len() && #[trigger] found[k].0 == run;
    assert(next[k] == found[k]);
}

/// As many runs found as wanted: every wanted run is found.
proof fn lemma_all_found(wanted: Seq<u64>, found: Found, run: u64)
    requires
        order::ascending(wanted),
        found_well(found, wanted),
        found.len() == wanted.len(),
        wanted.contains(run),
    ensures
        has_run(found, run),
{
    let runs = found.map_values(|f: (u64, Text)| f.0);
    assert(runs.no_duplicates());
    assert(wanted.no_duplicates());
    runs.unique_seq_to_set();
    wanted.unique_seq_to_set();
    vstd::seq_lib::seq_to_set_is_finite(runs);
    vstd::seq_lib::seq_to_set_is_finite(wanted);
    assert forall|r: u64| runs.to_set().contains(r) implies wanted.to_set().contains(r) by {
        let k = choose|k: int| 0 <= k < runs.len() && runs[k] == r;
        assert(wanted.contains(found[k].0));
    }
    vstd::set_lib::lemma_subset_equality(runs.to_set(), wanted.to_set());
    assert(wanted.to_set().contains(run));
    let k = choose|k: int| 0 <= k < runs.len() && runs[k] == run;
    assert(found[k].0 == run);
}

proof fn lemma_walk_complete(
    tree: Tree,
    dir: Text,
    depth: int,
    wanted: Seq<u64>,
    found: Found,
    run: u64,
    path: Text,
)
    requires
        order::ascending(wanted),
        wanted.contains(run),
        found_well(found, wanted),
        sits(tree, dir, MAX_SCAN_DEPTH - depth, run, path),
    ensures
        has_run(walk(tree, dir, depth, wanted, found), run),
    decreases MAX_SCAN_DEPTH - depth, tree(dir).len() + 1,
{
    if found.len() == wanted.len() {
        lemma_all_found(wanted, found, run);
    } else {
        let at = choose|i: int|
            0 <= i < tree(dir).len() && looked_at(#[trigger] tree(dir)[i]) && match run_in_name(
                tree(dir)[i].0,
            ) {
                Some(number) => number == run && path == paths::below(dir, tree(dir)[i].0),
                None => sits(
                    tree,
                    paths::below(dir, tree(dir)[i].0),
                    MAX_SCAN_DEPTH - depth - 1,
                    run,
                    path,
                ),
            };
        lemma_visit_complete(tree, dir, 0, at, depth, wanted, found, run, path);
    }
}

proof fn lemma_visit_complete(
    tree: Tree,
    dir: Text,
    i: int,
    at: int,
    depth: int,
    wanted: Seq<u64>,
    found: Found,
    run: u64,
    path: Text,
)
    requires
        order::ascending(wanted),
        wanted.contains(run),
        found_well(found, wanted),
        0 <= i <= at < tree(dir).len(),
        depth < MAX_SCAN_DEPTH,
        looked_at(tree(dir)[at]),
        match run_in_name(tree(dir)[at].0) {
            Some(number) => number == run,
            None => sits(
                tree,
                paths::below(dir, tree(dir)[at].0),
                MAX_SCAN_DEPTH - depth - 1,
                run,
                path,
            ),
        },
    ensures
        has_run(visit(tree, dir, i, depth, wanted, found), run),
    decreases MAX_SCAN_DEPTH - depth, tree(dir).len() - i,
{
    let e = tree(dir)[i];
    let next = visit_one(tree, dir, i, depth, wanted, found);
    if i == at {
        match run_in_name(e.0) {
            Some(number) => {
                assert(next == with_run(found, run, paths::below(dir, e.0)));
                if !has_run(found, run) {
                    assert(next[found.len() as int].0 == run);
                }
            },
            None => {
                lemma_walk_complete(
                    tree,
                    paths::below(dir, e.0),
                    depth + 1,
                    wanted,
                    found,
                    run,
                    path,
                );
            },
        }
        lemma_visit_extends(tree, dir, i + 1, depth, wanted, next);
        lemma_still_found(
            tree,
            dir,
            MAX_SCAN_DEPTH - depth,
            next,
            visit(tree, dir, i + 1, depth, wanted, next),
            run,
        );
    } else {
        lemma_visit_one_well(tree, dir, i, depth, wanted, found);
        lemma_visit_complete(tree, dir, i + 1, at, depth, wanted, next, run, path);
    }
}

// ---------------------------------------------------------------------
// NeXus files

/// The name of a run's NeXus file.
pub open spec fn nexus_name(run: u64) -> Text {
    "VENUS_"@ + number::decimal(run as nat) + ".nxs.h5"@
}

/// The path of a run's NeXus file inside an IPTS folder.
pub open spec fn nexus_file(ipts: Text, run: u64) -> Text {
    paths::below(ipts, "nexus/"@ + nexus_name(run))
}

/// The run a file name of the NeXus folder belongs to.
pub open spec fn nexus_run(name: Text) -> Option<u64> {
    match text::after_prefix(name, "VENUS_"@) {
        Some(rest) => match text::before_suffix(rest, ".nxs.h5"@) {
            Some(run) => number::parsed(run),
            None => None,
        },
        None => None,
    }
}

/// The runs of the names that belong to one, in the order of the names.
pub open spec fn nexus_runs(names: Seq<Text>) -> Seq<u64>
    decreases names.len(),
{
    if names.len() == 0 {
        Seq::empty()
    } else {
        match nexus_run(names.last()) {
            Some(run) => nexus_runs(names.drop_last()).push(run),
            None => nexus_runs(names.drop_last()),
        }
    }
}

/// The NeXus file of a run is listed as that run, under its own folder.
pub proof fn nexus_file_is_listed(ipts: Text, run: u64)
    ensures
        paths::file_name(nexus_file(ipts, run)) == Some(nexus_name(run)),
        nexus_run(nexus_name(run)) == Some(run),
{
    reveal_strlit("VENUS_");
    reveal_strlit(".nxs.h5");
    reveal_strlit("nexus");
    reveal_strlit("nexus/");
    let d = number::decimal(run as nat);
    let name = nexus_name(run);
    number::lemma_decimal(run as nat);
    number::decimal_reads_back(run);
    assert(name.subrange(0, 6) =~= "VENUS_"@);
    let rest = d + ".nxs.h5"@;
    assert(name.skip(6) =~= rest);
    assert(rest.subrange(rest.len() - 7, rest.len() as int) =~= ".nxs.h5"@);
    assert(rest.take(rest.len() - 7) =~= d);
    assert forall|i: int| 0 <= i < name.len() implies text::in_class(
        #[trigger] name[i],
        Class::Not('/'),
    ) by {
        if 6 <= i < 6 + d.len() {
            assert(name[i] == d[i - 6]);
            assert(text::in_class(d[i - 6], Class::Digit));
        }
    }
    assert(name[0] == 'V');
    let folder = paths::below(ipts, "nexus"@);
    assert("nexus"@[0] == 'n');
    assert(folder.last() == 's');
    paths::file_name_of_below(folder, name);
    assert(paths::below(folder, name) =~= nexus_file(ipts, run));
}

/// Path of a run's NeXus file inside an IPTS folder.
pub fn nexus_path(ipts_path: &str, run: u64) -> (r: String)
    ensures
        r@ == nexus_file(ipts_path@, run),
{
    let n = number::decimal_text(run);
    let rest = text::cat4("nexus/", "VENUS_", n.as_str(), ".nxs.h5");
    assert(rest@ =~= "nexus/"@ + nexus_name(run));
    paths::join(ipts_path, rest.as_str())
}

fn nexus_run_of(name: &str) -> (r: Option<u64>)
    ensures
        r == nexus_run(name@),
{
    match text::strip_prefix(name, "VENUS_") {
        Some(rest) => match text::strip_suffix(rest.as_str(), ".nxs.h5") {
            Some(run) => number::parse_u64(run.as_str()),
            None => None,
        },
        None => None,
    }
}

/// Every run number among the file names of `<IPTS>/nexus`
/// (`VENUS_<run>.nxs.h5` files), sorted ascending. A missing/unreadable
/// folder has no names.
pub fn list_nexus_runs(names: &Vec<String>) -> (r: Vec<u64>)
    ensures
        order::non_descending(r@),
        r@.to_multiset() == nexus_runs(text::texts(names@)).to_multiset(),
{
    let mut runs: Vec<u64> = Vec::new();
    let ghost ns = text::texts(names@);
    let mut i: usize = 0;
    while i < names.len()
        invariant
            i <= names@.len(),
            ns == text::texts(names@),
            runs@ == nexus_runs(ns.take(i as int)),
        decreases names@.len() - i,
    {
        assert(ns.take(i + 1).drop_last() =~= ns.take(i as int));
        assert(ns.take(i + 1).last() == names@[i as int]@);
        match nexus_run_of(names[i].as_str()) {
            Some(run) => {
                runs.push(run);
            },
            None => {},
        }
        i = i + 1;
    }
    assert(ns.take(i as int) =~= ns);
    order::sort(&runs)
}

/// Highest run number already present in `<IPTS>/nexus` — the next
/// acquired run will be this + 1. `None` when the folder is missing,
/// empty, or holds no VENUS NeXus file.
pub fn latest_nexus_run(names: &Vec<String>) -> (r: Option<u64>)
    ensures
        match r {
            Some(run) => {
                &&& nexus_runs(text::texts(names@)).contains(run)
                &&& forall|other: u64|
                    nexus_runs(text::texts(names@)).contains(other) ==> other <= run
            },
            None => nexus_runs(text::texts(names@)).len() == 0,
        },
{
    let runs = list_nexus_runs(names);
    let ghost all = nexus_runs(text::texts(names@));
    proof {
        broadcast use vstd::seq_lib::group_to_multiset_ensures;

        assert(runs@.len() == runs@.to_multiset().len());
        assert(all.len() == all.to_multiset().len());
        assert forall|run: u64| all.contains(run) <==> runs@.contains(run) by {
            assert(all.to_multiset().contains(run) <==> runs@.to_multiset().contains(run));
        }
    }
    if runs.len() == 0 {
        None
    } else {
        let last = runs[runs.len() - 1];
        assert(runs@.contains(last));
        Some(last)
    }
}

// ---------------------------------------------------------------------
// Completeness of a run folder

/// Which run folder a completeness check looks at — each has its own
/// image format and end-of-run files.
#[derive(Clone, Copy, Debug, PartialEq, Eq, Structural)]
pub enum FolderKind {
    /// DAQ output (`<IPTS>/images`): one `.fits` per frame plus the
    /// integrated `*_SummedImg.fits`; the `*_Spectra.txt` (no header, one
    /// row per frame) lands last.
    Raw,
    /// Reduction output (`shared/autoreduce/images`): one `.tif` per frame;
    /// its `*_Spectra.txt` has a header line, then one row per frame;
    /// `summary.json` lands last.
    Corrected,
}

/// A TIFF image, by its name.
pub open spec fn is_tiff(name: Text) -> bool {
    text::ends(text::lowered(name), ".tif"@) || text::ends(text::lowered(name), ".tiff"@)
}

/// A frame of a run folder, by its name.
pub open spec fn is_frame(name: Text, kind: FolderKind) -> bool {
    match kind {
        FolderKind::Raw => text::ends(text::lowered(name), ".fits"@) && !text::has(
            text::lowered(name),
            "summedimg"@,
        ),
        FolderKind::Corrected => is_tiff(name),
    }
}

/// The number of frames among the names.
pub open spec fn frame_count(names: Seq<Text>, kind: FolderKind) -> nat {
    names.filter(|n: Text| is_frame(n, kind)).len()
}

pub open spec fn is_spectra(name: Text) -> bool {
    text::ends(text::lowered(name), "_spectra.txt"@)
}

pub open spec fn is_summary(name: Text) -> bool {
    text::lowered(name) == "summary.json"@
}

/// The first spectra file from index `i` on.
pub open spec fn spectra_from(names: Seq<Text>, i: int) -> Option<Text>
    decreases names.len() - i,
{
    if !(0 <= i < names.len()) {
        None
    } else if is_spectra(names[i]) {
        Some(names[i])
    } else {
        spectra_from(names, i + 1)
    }
}

/// A data row of a spectra file: its first character is a digit, a sign or
/// a dot.
pub open spec fn data_row(line: Text) -> bool {
    let i = text::run_end(line, Class::Space, 0);
    i < line.len() && (text::is_digit(line[i]) || line[i] == '-' || line[i] == '+' || line[i] == '.')
}

/// The number of data rows of a spectra file.
pub open spec fn row_count(content: Text) -> nat {
    text::lines_of(content).filter(|l: Text| data_row(l)).len()
}

/// Is a folder with these names complete, where its spectra file, if it
/// could be read, holds `spectra`?
pub open spec fn complete(names: Seq<Text>, kind: FolderKind, spectra: Option<Text>) -> bool {
    &&& frame_count(names, kind) > 0
    &&& kind == FolderKind::Corrected ==> exists|i: int|
        0 <= i < names.len() && #[trigger] is_summary(names[i])
    &&& spectra_from(names, 0) is Some
    &&& spectra matches Some(content) && row_count(content) == frame_count(names, kind)
}

pub fn tiff_name(name: &str) -> (r: bool)
    ensures
        r == is_tiff(name@),
{
    let n = text::lowercase(name);
    text::ends_with(n.as_str(), ".tif") || text::ends_with(n.as_str(), ".tiff")
}

fn frame_name(name: &str, kind: FolderKind) -> (r: bool)
    ensures
        r == is_frame(name@, kind),
{
    match kind {
        FolderKind::Raw => {
            let n = text::lowercase(name);
            text::ends_with(n.as_str(), ".fits") && !text::contains(n.as_str(), "summedimg")
        },
        FolderKind::Corrected => tiff_name(name),
    }
}

/// The name of the spectra file to read for a completeness check.
pub fn spectra_file(names: &Vec<String>) -> (r: Option<String>)
    ensures
        text::opt_text(r) == spectra_from(text::texts(names@), 0),
{
    let ghost ns = text::texts(names@);
    let mut i: usize = 0;
    while i < names.len()
        invariant
            i <= names@.len(),
            ns == text::texts(names@),
            spectra_from(ns, 0) == spectra_from(ns, i as int),
        decreases names@.len() - i,
    {
        assert(ns[i as int] == names@[i as int]@);
        let n = text::lowercase(names[i].as_str());
        if text::ends_with(n.as_str(), "_spectra.txt") {
            return Some(names[i].clone());
        }
        i = i + 1;
    }
    None
}

fn count_frames(names: &Vec<String>, kind: FolderKind) -> (r: usize)
    ensures
        r == frame_count(text::texts(names@), kind),
{
    let ghost ns = text::texts(names@);
    let ghost keep = |n: Text| is_frame(n, kind);
    let mut n: usize = 0;
    let mut i: usize = 0;
    while i < names.len()
        invariant
            i <= names@.len(),
            n <= i,
            ns == text::texts(names@),
            keep == (|n: Text| is_frame(n, kind)),
            n == ns.take(i as int).filter(keep).len(),
        decreases names@.len() - i,
    {
        proof {
            reveal(Seq::filter);
            assert(ns.take(i + 1).drop_last() =~= ns.take(i as int));
            assert(ns.take(i + 1).last() == names@[i as int]@);
        }
        if frame_name(names[i].as_str(), kind) {
            n = n + 1;
        }
        i = i + 1;
    }
    assert(ns.take(i as int) =~= ns);
    n
}

/// Is a run folder complete? The DAQ / the reduction create the folder
/// first, write the frames, then the sidecars. Complete = the Spectra file
/// is there and its number of data rows equals the number of frames (raw:
/// `.fits` files minus the SummedImg one; corrected: `.tif` files) — and,
/// for a corrected folder, `summary.json` (written last) is there too.
/// `names` are the folder's entries (none where it cannot be read),
/// `spectra` what the file named by [`spectra_file`] holds, if it could be
/// read.
pub fn folder_complete(names: &Vec<String>, kind: FolderKind, spectra: &Option<String>) -> (r: bool)
    ensures
        r == complete(text::texts(names@), kind, text::opt_text(*spectra)),
        r && kind == FolderKind::Corrected ==> exists|i: int|
            0 <= i < names@.len() && text::lowered((#[trigger] names@[i])@) == "summary.json"@,
        r ==> exists|i: int|
            0 <= i < names@.len() && text::ends(
                text::lowered((#[trigger] names@[i])@),
                "_spectra.txt"@,
            ),
{
    let ghost ns = text::texts(names@);
    proof {
        if complete(ns, kind, text::opt_text(*spectra)) {
            folders::complete_folders_have_every_part(ns, kind, text::opt_text(*spectra));
            assert forall|i: int| 0 <= i < ns.len() implies #[trigger] ns[i] == names@[i]@ by {}
        }
    }
    let frames = count_frames(names, kind);
    if frames == 0 {
        return false;
    }
    if kind == FolderKind::Corrected {
        let mut found = false;
        let mut i: usize = 0;
        while i < names.len() && !found
            invariant
                i <= names@.len(),
                ns == text::texts(names@),
                found <==> exists|k: int| 0 <= k < i && #[trigger] is_summary(ns[k]),
            decreases names@.len() - i,
        {
            assert(ns[i as int] == names@[i as int]@);
            let n = text::lowercase(names[i].as_str());
            found = text::same(n.as_str(), "summary.json");
            assert(found == is_summary(ns[i as int]));
            i = i + 1;
        }
        if !found {
            return false;
        }
    }
    match (spectra_file(names), spectra) {
        (Some(_), Some(content)) => spectra_rows(content.as_str()) == frames,
        _ => false,
    }
}

/// Number of data rows of a `*_Spectra.txt` file (header lines — anything
/// not starting with a digit, sign or dot — and blank lines excluded).
pub fn spectra_rows(content: &str) -> (r: usize)
    ensures
        r == row_count(content@),
{
    let lines = text::lines(content);
    let ghost ls = text::lines_of(content@);
    let ghost keep = |l: Text| data_row(l);
    let mut n: usize = 0;
    let mut i: usize = 0;
    while i < lines.len()
        invariant
            i <= lines@.len(),
            n <= i,
            ls == text::texts(lines@),
            keep == (|l: Text| data_row(l)),
            n == ls.take(i as int).filter(keep).len(),
        decreases lines@.len() - i,
    {
        proof {
            reveal(Seq::filter);
            assert(ls.take(i + 1).drop_last() =~= ls.take(i as int));
            assert(ls.take(i + 1).last() == lines@[i as int]@);
        }
        let v = chars_of(lines[i].as_str());
        let k = text::end_of_run(&v, Class::Space, 0);
        if k < v.len() && (text::digit(v[k]) || v[k] == '-' || v[k] == '+' || v[k] == '.') {
            n = n + 1;
        }
        i = i + 1;
    }
    assert(ls.take(i as int) =~= ls);
    n
}

/// Number of TIFF images among the names of a folder.
pub fn tiff_count(names: &Vec<String>) -> (r: usize)
    ensures
        r == frame_count(text::texts(names@), FolderKind::Corrected),
{
    count_frames(names, FolderKind::Corrected)
}

// ---------------------------------------------------------------------
// Status of a run's files

/// Presence of one of a run's files/folders on disk.
#[derive(Debug)]
pub enum FileStatus<P = String> {
    /// The file exists / the folder is complete at this path.
    Present(P),
    /// The folder exists but is still being written: no image yet, or the
    /// end-of-run sidecar (`*_Spectra.txt` for a raw folder, `summary.json`
    /// for a corrected one — written last) is not there yet. Not usable as
    /// an input.
    Writing(P),
    /// Not found; the path is where it was expected / searched for.
    Missing(P),
}

impl View for FileStatus {
    type V = FileStatus<Text>;

    open spec fn view(&self) -> FileStatus<Text> {
        match self {
            FileStatus::Present(p) => FileStatus::Present(p@),
            FileStatus::Writing(p) => FileStatus::Writing(p@),
            FileStatus::Missing(p) => FileStatus::Missing(p@),
        }
    }
}

impl FileStatus {
    pub fn copy(&self) -> (r: FileStatus)
        ensures
            r@ == self@,
    {
        match self {
            FileStatus::Present(p) => FileStatus::Present(p.clone()),
            FileStatus::Writing(p) => FileStatus::Writing(p.clone()),
            FileStatus::Missing(p) => FileStatus::Missing(p.clone()),
        }
    }
}

/// Status of every tracked file of one run.
#[derive(Debug)]
pub struct RunFiles<P = String> {
    pub run: u64,
    pub nexus: FileStatus<P>,
    pub raw: FileStatus<P>,
    pub corrected: FileStatus<P>,
}

impl View for RunFiles {
    type V = RunFiles<Text>;

    open spec fn view(&self) -> RunFiles<Text> {
        RunFiles {
            run: self.run,
            nexus: self.nexus@,
            raw: self.raw@,
            corrected: self.corrected@,
        }
    }
}

/// A run folder as it was seen on disk: its path, the names of its entries
/// and what its spectra file holds.
pub struct FolderSeen {
    pub run: u64,
    pub path: String,
    pub names: Vec<String>,
    pub spectra: Option<String>,
}

/// What was seen on disk of the runs of an IPTS.
pub struct Seen {
    /// The runs whose NeXus file is there.
    pub nexus: Vec<u64>,
    /// The raw folders found.
    pub raw: Vec<FolderSeen>,
    /// The corrected folders found.
    pub corrected: Vec<FolderSeen>,
}

/// The index of the first folder of the run, from `i` on.
pub open spec fn folder_of(seen: Seq<FolderSeen>, run: u64, i: int) -> Option<int>
    decreases seen.len() - i,
{
    if !(0 <= i < seen.len()) {
        None
    } else if seen[i].run == run {
        Some(i)
    } else {
        folder_of(seen, run, i + 1)
    }
}

/// The status of a run's folder of one kind.
pub open spec fn folder_status(
    seen: Seq<FolderSeen>,
    run: u64,
    root: Text,
    kind: FolderKind,
) -> FileStatus<Text> {
    match folder_of(seen, run, 0) {
        Some(i) => if complete(text::texts(seen[i].names@), kind, text::opt_text(seen[i].spectra)) {
            FileStatus::Present(seen[i].path@)
        } else {
            FileStatus::Writing(seen[i].path@)
        },
        None => FileStatus::Missing(
            paths::below(root, "**/*Run_"@ + number::decimal(run as nat) + "*"@),
        ),
    }
}

/// Where the raw folders of an IPTS lie.
pub open spec fn raw_root(ipts: Text) -> Text {
    paths::below(ipts, "images"@)
}

/// Where the corrected folders of an IPTS lie.
pub open spec fn corrected_root(ipts: Text) -> Text {
    paths::below(ipts, "shared/autoreduce/images"@)
}

/// The status of every file of a run.
pub open spec fn run_status(ipts: Text, run: u64, seen: Seen) -> RunFiles<Text> {
    RunFiles {
        run,
        nexus: if seen.nexus@.contains(run) {
            FileStatus::Present(nexus_file(ipts, run))
        } else {
            FileStatus::Missing(nexus_file(ipts, run))
        },
        raw: folder_status(seen.raw@, run, raw_root(ipts), FolderKind::Raw),
        corrected: folder_status(
            seen.corrected@,
            run,
            corrected_root(ipts),
            FolderKind::Corrected,
        ),
    }
}

pub open spec fn statuses(v: Seq<RunFiles>) -> Seq<RunFiles<Text>> {
    v.map_values(|f: RunFiles| f@)
}

/// The folders of an IPTS to scan for raw and for corrected run folders.
pub fn scan_roots(ipts_path: &str) -> (r: (String, String))
    ensures
        r.0@ == raw_root(ipts_path@),
        r.1@ == corrected_root(ipts_path@),
{
    (paths::join(ipts_path, "images"), paths::join(ipts_path, "shared/autoreduce/images"))
}

/// The states of the files of a list of runs.
pub open spec fn all_status(ipts: Text, runs: Seq<u64>, seen: Seen) -> Seq<RunFiles<Text>> {
    runs.map_values(|run: u64| run_status(ipts, run, seen))
}

/// Check NeXus/raw/corrected for every run in `runs`, inside the IPTS
/// folder `ipts_path` (e.g. `/SNS/VENUS/IPTS-36967`), from what was seen
/// there.
pub fn check_runs(ipts_path: &str, runs: &Vec<u64>, seen: &Seen) -> (r: Vec<RunFiles>)
    ensures
        statuses(r@) == runs@.map_values(|run: u64| run_status(ipts_path@, run, *seen)),
        statuses(r@) == all_status(ipts_path@, runs@, *seen),
{
    let (raw, corrected) = scan_roots(ipts_path);
    let mut out: Vec<RunFiles> = Vec::new();
    let mut i: usize = 0;
    while i < runs.len()
        invariant
            i <= runs@.len(),
            raw@ == raw_root(ipts_path@),
            corrected@ == corrected_root(ipts_path@),
            statuses(out@) =~= runs@.take(i as int).map_values(
                |run: u64| run_status(ipts_path@, run, *seen),
            ),
        decreases runs@.len() - i,
    {
        let run = runs[i];
        let nexus = nexus_path(ipts_path, run);
        let item = RunFiles {
            run,
            nexus: if order::member(&seen.nexus, run) {
                FileStatus::Present(nexus)
            } else {
                FileStatus::Missing(nexus)
            },
            raw: dir_status(&seen.raw, run, raw.as_str(), FolderKind::Raw),
            corrected: dir_status(
                &seen.corrected,
                run,
                corrected.as_str(),
                FolderKind::Corrected,
            ),
        };
        let ghost before = out@;
        assert(item@ == run_status(ipts_path@, run, *seen));
        out.push(item);
        assert(statuses(out@) =~= statuses(before).push(item@));
        i = i + 1;
    }
    assert(runs@.take(i as int) =~= runs@);
    out
}

fn dir_status(seen: &Vec<FolderSeen>, run: u64, root: &str, kind: FolderKind) -> (r: FileStatus)
    ensures
        r@ == folder_status(seen@, run, root@, kind),
{
    let mut i: usize = 0;
    while i < seen.len()
        invariant
            i <= seen@.len(),
            folder_of(seen@, run, 0) == folder_of(seen@, run, i as int),
        decreases seen@.len() - i,
    {
        if seen[i].run == run {
            let path = seen[i].path.clone();
            return if folder_complete(&seen[i].names, kind, &seen[i].spectra) {
                FileStatus::Present(path)
            } else {
                FileStatus::Writing(path)
            };
        }
        i = i + 1;
    }
    let n = number::decimal_text(run);
    let pattern = text::cat3("**/*Run_", n.as_str(), "*");
    FileStatus::Missing(paths::join(root, pattern.as_str()))
}

} // verus!
