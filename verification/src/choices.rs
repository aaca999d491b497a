//! The open-beam folders that a run can be normalized with.

use vstd::multiset::Multiset;
use vstd::prelude::*;
use crate::files::{Entry, FolderKind, Tree};
use crate::text::Text;
use crate::{beams, files, paths, text};

verus! {

/// How deep below an `ob` folder the folder of an open-beam run can sit.
pub const MAX_BEAM_DEPTH: usize = 2;

// ---------------------------------------------------------------------
// Looking for the folders

/// The folders of open-beam runs among the entries of `dir` and, where an
/// entry is not one, below it.
pub open spec fn beams_below(tree: Tree, dir: Text, es: Seq<(Text, bool)>, depth: int) -> Multiset<
    Text,
>
    decreases MAX_BEAM_DEPTH - depth, es.len(),
{
    if es.len() == 0 || depth >= MAX_BEAM_DEPTH {
        Multiset::empty()
    } else {
        let e = es.last();
        let path = paths::below(dir, e.0);
        let here = if !files::looked_at(e) {
            Multiset::empty()
        } else if files::run_in_name(e.0) is Some {
            Multiset::singleton(path)
        } else if depth + 1 < MAX_BEAM_DEPTH {
            beams_below(tree, path, tree(path), depth + 1)
        } else {
            Multiset::empty()
        };
        beams_below(tree, dir, es.drop_last(), depth).add(here)
    }
}

/// What lies below the folders that are still to be listed.
pub open spec fn beams_left(tree: Tree, left: Seq<(Text, int)>) -> Multiset<Text>
    decreases left.len(),
{
    if left.len() == 0 {
        Multiset::empty()
    } else {
        beams_left(tree, left.drop_last()).add(
            beams_below(tree, left.last().0, tree(left.last().0), left.last().1),
        )
    }
}

/// The folders of runs among the entries.
pub open spec fn found_here(dir: Text, es: Seq<(Text, bool)>) -> Seq<Text>
    decreases es.len(),
{
    if es.len() == 0 {
        Seq::empty()
    } else {
        let before = found_here(dir, es.drop_last());
        if files::looked_at(es.last()) && files::run_in_name(es.last().0) is Some {
            before.push(paths::below(dir, es.last().0))
        } else {
            before
        }
    }
}

/// The folders among the entries to look into.
pub open spec fn deeper(dir: Text, es: Seq<(Text, bool)>, depth: int) -> Seq<(Text, int)>
    decreases es.len(),
{
    if es.len() == 0 {
        Seq::empty()
    } else {
        let before = deeper(dir, es.drop_last(), depth);
        if files::looked_at(es.last()) && files::run_in_name(es.last().0) is None && depth + 1
            < MAX_BEAM_DEPTH {
            before.push((paths::below(dir, es.last().0), depth + 1))
        } else {
            before
        }
    }
}

proof fn lemma_below(tree: Tree, dir: Text, es: Seq<(Text, bool)>, depth: int)
    requires
        depth < MAX_BEAM_DEPTH,
    ensures
        beams_below(tree, dir, es, depth) == found_here(dir, es).to_multiset().add(
            beams_left(tree, deeper(dir, es, depth)),
        ),
    decreases es.len(),
{
    broadcast use vstd::seq_lib::group_to_multiset_ensures;

    if es.len() == 0 {
        assert(beams_below(tree, dir, es, depth) =~= found_here(dir, es).to_multiset().add(
            beams_left(tree, deeper(dir, es, depth)),
        ));
    } else {
        let rest = es.drop_last();
        lemma_below(tree, dir, rest, depth);
        let d = deeper(dir, es, depth);
        let f = found_here(dir, es);
        if files::looked_at(es.last()) {
            let path = paths::below(dir, es.last().0);
            if files::run_in_name(es.last().0) is Some {
                assert(f == found_here(dir, rest).push(path));
            } else if depth + 1 < MAX_BEAM_DEPTH {
                assert(d.drop_last() =~= deeper(dir, rest, depth));
                assert(d.last() == (path, depth + 1));
            }
        }
        assert(beams_below(tree, dir, es, depth) =~= f.to_multiset().add(beams_left(tree, d)));
    }
}

proof fn lemma_left_adds(tree: Tree, a: Seq<(Text, int)>, b: Seq<(Text, int)>)
    ensures
        beams_left(tree, a + b) == beams_left(tree, a).add(beams_left(tree, b)),
    decreases b.len(),
{
    if b.len() == 0 {
        assert(a + b =~= a);
        assert(beams_left(tree, a + b) =~= beams_left(tree, a).add(beams_left(tree, b)));
    } else {
        lemma_left_adds(tree, a, b.drop_last());
        assert((a + b).drop_last() =~= a + b.drop_last());
        assert((a + b).last() == b.last());
        assert(beams_left(tree, a + b) =~= beams_left(tree, a).add(beams_left(tree, b)));
    }
}

proof fn lemma_multiset_adds(a: Seq<Text>, b: Seq<Text>)
    ensures
        (a + b).to_multiset() == a.to_multiset().add(b.to_multiset()),
    decreases b.len(),
{
    broadcast use vstd::seq_lib::group_to_multiset_ensures;

    if b.len() == 0 {
        assert(a + b =~= a);
        assert((a + b).to_multiset() =~= a.to_multiset().add(b.to_multiset()));
    } else {
        let rest = b.drop_last();
        lemma_multiset_adds(a, rest);
        assert(a + b =~= (a + rest).push(b.last()));
        assert(b =~= rest.push(b.last()));
        assert((a + b).to_multiset() =~= a.to_multiset().add(b.to_multiset()));
    }
}

/// The folders of an IPTS whose entries are the detectors' folders.
pub fn detectors_root(ipts_path: &str) -> (r: String)
    ensures
        r@ == files::corrected_root(ipts_path@),
{
    paths::join(ipts_path, "shared/autoreduce/images")
}

/// The folders to look into at first: the `ob` folder of each detector.
pub open spec fn beam_roots(detectors: Seq<Text>) -> Seq<(Text, int)> {
    detectors.map_values(|d: Text| (paths::below(d, "ob"@), 0int))
}

/// A search for the folders of open-beam runs, one folder listing at a time:
/// [`BeamScan::next`] names the folder to list, [`BeamScan::feed`] takes its
/// entries.
pub struct BeamScan {
    found: Vec<String>,
    left: Vec<(String, usize)>,
    asked: Option<(String, usize)>,
}

pub open spec fn left_views(v: Seq<(String, usize)>) -> Seq<(Text, int)> {
    v.map_values(|p: (String, usize)| (p.0@, p.1 as int))
}

impl BeamScan {
    pub closed spec fn has_found(&self) -> Seq<Text> {
        text::texts(self.found@)
    }

    pub closed spec fn to_list(&self) -> Seq<(Text, int)> {
        left_views(self.left@)
    }

    pub closed spec fn waits_for(&self) -> Option<(Text, int)> {
        match self.asked {
            Some((dir, depth)) => Some((dir@, depth as int)),
            None => None,
        }
    }

    pub closed spec fn valid(&self) -> bool {
        self.asked matches Some((dir, depth)) ==> depth < MAX_BEAM_DEPTH
    }

    /// What will have been found in the end, if the tree is `tree`.
    pub open spec fn outcome(&self, tree: Tree) -> Multiset<Text> {
        let left = match self.waits_for() {
            Some(asked) => self.to_list().push(asked),
            None => self.to_list(),
        };
        self.has_found().to_multiset().add(beams_left(tree, left))
    }

    /// Start below the `ob` folder of each detector.
    pub fn new(detectors: &Vec<String>) -> (r: BeamScan)
        ensures
            r.valid(),
            forall|tree: Tree| #[trigger]
                r.outcome(tree) == beams_left(tree, beam_roots(text::texts(detectors@))),
    {
        let mut left: Vec<(String, usize)> = Vec::new();
        let mut i: usize = 0;
        let ghost ds = text::texts(detectors@);
        while i < detectors.len()
            invariant
                i <= detectors@.len(),
                ds == text::texts(detectors@),
                left_views(left@) =~= beam_roots(ds.take(i as int)),
            decreases detectors@.len() - i,
        {
            let ghost before = left@;
            let dir = paths::join(detectors[i].as_str(), "ob");
            left.push((dir, 0));
            assert(left_views(left@) =~= left_views(before).push((dir@, 0)));
            assert(ds.take(i + 1) =~= ds.take(i as int).push(ds[i as int]));
            i = i + 1;
        }
        assert(ds.take(i as int) =~= ds);
        let r = BeamScan { found: Vec::new(), left, asked: None };
        proof {
            broadcast use vstd::seq_lib::group_to_multiset_ensures;

            assert(r.has_found() =~= Seq::empty());
            assert forall|tree: Tree| #[trigger] r.outcome(tree) == beams_left(
                tree,
                beam_roots(ds),
            ) by {
                assert(r.outcome(tree) =~= beams_left(tree, beam_roots(ds)));
            }
        }
        r
    }

    /// The folder to list next, or `None` when the search is over.
    pub fn next(&mut self) -> (r: Option<String>)
        requires
            old(self).valid(),
        ensures
            final(self).valid(),
            forall|tree: Tree| #[trigger] final(self).outcome(tree) == old(self).outcome(tree),
            match r {
                Some(dir) => final(self).waits_for() is Some && (final(self).waits_for()->0).0 == dir@,
                None => forall|tree: Tree| #[trigger]
                    final(self).outcome(tree) == final(self).has_found().to_multiset(),
            },
    {
        match &self.asked {
            Some((dir, depth)) => {
                return Some(dir.clone());
            },
            None => {},
        }
        loop
            invariant
                self.asked is None,
                forall|tree: Tree| #[trigger] self.outcome(tree) == old(self).outcome(tree),
            decreases self.left@.len(),
        {
            let ghost before = *self;
            match self.left.pop() {
                None => {
                    proof {
                        assert forall|tree: Tree| #[trigger] self.outcome(tree)
                            == self.has_found().to_multiset() by {
                            assert(self.outcome(tree) =~= self.has_found().to_multiset());
                        }
                        assert forall|tree: Tree| #[trigger] self.outcome(tree) == old(
                            self,
                        ).outcome(tree) by {
                            assert(before.outcome(tree) == old(self).outcome(tree));
                        }
                    }
                    return None;
                },
                Some((dir, depth)) => {
                    assert(before.to_list() =~= self.to_list().push((dir@, depth as int)));
                    if depth >= MAX_BEAM_DEPTH {
                        assert forall|tree: Tree| #[trigger] self.outcome(tree) == old(self).outcome(
                            tree,
                        ) by {
                            assert(before.outcome(tree) == old(self).outcome(tree));
                            assert(before.to_list().drop_last() =~= self.to_list());
                            assert(before.outcome(tree) =~= self.outcome(tree));
                        }
                    } else {
                        let r = dir.clone();
                        self.asked = Some((dir, depth));
                        assert forall|tree: Tree| #[trigger] self.outcome(tree) == old(self).outcome(
                            tree,
                        ) by {
                            assert(before.outcome(tree) == old(self).outcome(tree));
                        }
                        return Some(r);
                    }
                },
            }
        }
    }

    /// Take the entries of the folder that [`BeamScan::next`] named (none
    /// where it is missing or cannot be read).
    pub fn feed(&mut self, listing: &Vec<Entry>)
        requires
            old(self).valid(),
            old(self).waits_for() is Some,
        ensures
            final(self).valid(),
            final(self).waits_for() is None,
            forall|tree: Tree|
                tree((old(self).waits_for()->0).0) == files::entries(listing@)
                    ==> #[trigger] final(self).outcome(tree) == old(self).outcome(tree),
    {
        let (dir, depth) = match self.asked.take() {
            Some(asked) => asked,
            None => {
                return ;
            },
        };
        let ghost es = files::entries(listing@);
        let ghost f0 = self.has_found();
        let ghost l0 = self.to_list();
        let mut i: usize = 0;
        assert(found_here(dir@, es.take(0)) =~= Seq::empty());
        assert(deeper(dir@, es.take(0), depth as int) =~= Seq::empty());
        while i < listing.len()
            invariant
                i <= listing@.len(),
                es == files::entries(listing@),
                self.asked is None,
                depth < MAX_BEAM_DEPTH,
                self.has_found() =~= f0 + found_here(dir@, es.take(i as int)),
                self.to_list() =~= l0 + deeper(dir@, es.take(i as int), depth as int),
            decreases listing@.len() - i,
        {
            let ghost before = *self;
            assert(es.take(i + 1).drop_last() =~= es.take(i as int));
            assert(es.take(i + 1).last() == files::entry(listing@[i as int]));
            if files::is_looked_at(&listing[i]) {
                let path = paths::join(dir.as_str(), listing[i].name.as_str());
                match files::run_number_in_name(listing[i].name.as_str()) {
                    Some(_) => {
                        self.found.push(path);
                        assert(self.has_found() =~= before.has_found().push(path@));
                    },
                    None => {
                        if depth + 1 < MAX_BEAM_DEPTH {
                            self.left.push((path, depth + 1));
                            assert(self.to_list() =~= before.to_list().push((path@, depth + 1)));
                        }
                    },
                }
            }
            i = i + 1;
        }
        assert(es.take(i as int) =~= es);
        assert forall|tree: Tree| tree((old(self).waits_for()->0).0) == es implies #[trigger] self.outcome(
            tree,
        ) == old(self).outcome(tree) by {
            let fs = found_here(dir@, es);
            let ds = deeper(dir@, es, depth as int);
            lemma_below(tree, dir@, es, depth as int);
            lemma_left_adds(tree, l0, ds);
            lemma_multiset_adds(f0, fs);
            let asked = l0.push((dir@, depth as int));
            assert(asked.drop_last() =~= l0);
            assert(asked.last() == (dir@, depth as int));
            assert(self.outcome(tree) =~= old(self).outcome(tree));
        }
    }

    /// The folders found, and after them those of `extra` that are not among
    /// them.
    pub fn candidates(&self, extra: &Vec<String>) -> (r: Vec<String>)
        ensures
            text::texts(r@) == with_extra(self.has_found(), text::texts(extra@)),
    {
        let mut out = text::clone_all(&self.found);
        let ghost xs = text::texts(extra@);
        let mut i: usize = 0;
        assert(xs.take(0) =~= Seq::empty());
        while i < extra.len()
            invariant
                i <= extra@.len(),
                xs == text::texts(extra@),
                text::texts(out@) == with_extra(self.has_found(), xs.take(i as int)),
            decreases extra@.len() - i,
        {
            assert(xs.take(i + 1).drop_last() =~= xs.take(i as int));
            assert(xs.take(i + 1).last() == extra@[i as int]@);
            if !lists_path(&out, extra[i].as_str()) {
                let ghost before = out@;
                let item = extra[i].clone();
                out.push(item);
                assert(text::texts(out@) =~= text::texts(before).push(item@));
            }
            i = i + 1;
        }
        assert(xs.take(i as int) =~= xs);
        out
    }
}

/// Is the path in the list?
pub open spec fn path_listed(list: Seq<Text>, path: Text) -> bool {
    exists|i: int| 0 <= i < list.len() && paths::same_path(#[trigger] list[i], path)
}

/// The list with the paths of `extra` that are not in it.
pub open spec fn with_extra(list: Seq<Text>, extra: Seq<Text>) -> Seq<Text>
    decreases extra.len(),
{
    if extra.len() == 0 {
        list
    } else {
        let before = with_extra(list, extra.drop_last());
        if path_listed(before, extra.last()) {
            before
        } else {
            before.push(extra.last())
        }
    }
}

pub fn lists_path(list: &Vec<String>, path: &str) -> (r: bool)
    ensures
        r == path_listed(text::texts(list@), path@),
{
    let ghost ls = text::texts(list@);
    let mut i: usize = 0;
    while i < list.len()
        invariant
            i <= list@.len(),
            ls == text::texts(list@),
            forall|k: int| 0 <= k < i ==> !paths::same_path(#[trigger] ls[k], path@),
        decreases list@.len() - i,
    {
        assert(ls[i as int] == list@[i as int]@);
        if paths::same_as(list[i].as_str(), path) {
            return true;
        }
        i = i + 1;
    }
    false
}

// ---------------------------------------------------------------------
// The choices

/// One corrected open-beam folder offered to a run.
pub struct ObChoice {
    pub folder: String,
    /// Run number in the folder name (sort key, display).
    pub run: Option<u64>,
    /// Complete (usable)? An incomplete one is listed but cannot be ticked.
    pub complete: bool,
    /// Number of tiff frames in the folder: every open beam of one
    /// normalization must have as many as the sample's run.
    pub frames: usize,
}

/// An open-beam folder offered to a run.
pub struct Choice {
    pub folder: Text,
    pub run: Option<u64>,
    pub complete: bool,
    pub frames: nat,
}

impl View for ObChoice {
    type V = Choice;

    open spec fn view(&self) -> Choice {
        Choice {
            folder: self.folder@,
            run: self.run,
            complete: self.complete,
            frames: self.frames as nat,
        }
    }
}

pub open spec fn choice_views(v: Seq<ObChoice>) -> Seq<Choice> {
    v.map_values(|c: ObChoice| c@)
}

/// A folder as it was seen on disk.
pub struct Listed {
    pub folder: String,
    pub names: Vec<String>,
    /// What its spectra file holds.
    pub spectra: Option<String>,
}

/// The choice that a folder is.
pub open spec fn choice_of(l: Listed) -> Choice {
    Choice {
        folder: l.folder@,
        run: beams::beam_run(l.folder@),
        complete: files::complete(
            text::texts(l.names@),
            FolderKind::Corrected,
            text::opt_text(l.spectra),
        ),
        frames: files::frame_count(text::texts(l.names@), FolderKind::Corrected),
    }
}

/// The order the choices are offered in: the newest run first, folders
/// without a run number last, and by path where the runs are the same.
pub open spec fn choice_order(a: Choice, b: Choice) -> bool {
    run_key(a.run) > run_key(b.run) || (run_key(a.run) == run_key(b.run) && paths::path_order(
        a.folder,
        b.folder,
    ))
}

pub open spec fn run_key(run: Option<u64>) -> int {
    match run {
        Some(n) => n as int,
        None => -1,
    }
}

pub open spec fn choices_in_order(v: Seq<Choice>) -> bool {
    forall|i: int, j: int| 0 <= i <= j < v.len() ==> choice_order(#[trigger] v[i], #[trigger] v[j])
}

proof fn lemma_choice_order(a: Choice, b: Choice, c: Choice)
    ensures
        choice_order(a, a),
        choice_order(a, b) || choice_order(b, a),
        choice_order(a, b) && choice_order(b, c) ==> choice_order(a, c),
{
    paths::path_order_is_total(a.folder, b.folder, c.folder);
}

fn in_choice_order(a: &ObChoice, b: &ObChoice) -> (r: bool)
    ensures
        r == choice_order(a@, b@),
{
    let (newer, same) = match (a.run, b.run) {
        (Some(x), Some(y)) => (x > y, x == y),
        (Some(_), None) => (true, false),
        (None, Some(_)) => (false, false),
        (None, None) => (false, true),
    };
    newer || (same && paths::in_path_order(a.folder.as_str(), b.folder.as_str()))
}

fn place_choice(v: &mut Vec<ObChoice>, item: ObChoice)
    requires
        choices_in_order(choice_views(old(v)@)),
    ensures
        choices_in_order(choice_views(final(v)@)),
        choice_views(final(v)@).to_multiset() =~= choice_views(old(v)@).to_multiset().insert(item@),
{
    let ghost o = choice_views(v@);
    let mut i: usize = v.len();
    while i > 0 && !in_choice_order(&v[i - 1], &item)
        invariant
            i <= v@.len(),
            v@ == old(v)@,
            o == choice_views(v@),
            choices_in_order(o),
            forall|k: int| i <= k < o.len() ==> !choice_order(#[trigger] o[k], item@),
        decreases i,
    {
        assert(o[i - 1] == v@[i - 1]@);
        i = i - 1;
    }
    let ghost x = item@;
    if i > 0 {
        assert(o[i - 1] == v@[i - 1]@);
    }
    v.insert(i, item);
    proof {
        broadcast use vstd::seq_lib::group_to_multiset_ensures;

        let t = choice_views(v@);
        assert(t =~= o.insert(i as int, x));
        assert forall|a: int, b: int| 0 <= a <= b < t.len() implies choice_order(
            #[trigger] t[a],
            #[trigger] t[b],
        ) by {
            lemma_choice_order(x, x, x);
            if a == i && b > i {
                assert(t[b] == o[b - 1]);
                lemma_choice_order(o[b - 1], x, x);
            } else if a < i && b == i {
                assert(t[a] == o[a]);
                assert(choice_order(o[a], o[i - 1]));
                lemma_choice_order(o[a], o[i - 1], x);
            } else if a < i && b > i {
                assert(t[a] == o[a] && t[b] == o[b - 1]);
            } else if a > i {
                assert(t[a] == o[a - 1] && t[b] == o[b - 1]);
            } else if b < i {
                assert(t[a] == o[a] && t[b] == o[b]);
            }
        }
        assert(t.remove(i as int) =~= o);
        assert(t[i as int] == x);
        assert(t.to_multiset().contains(x));
    }
}

/// The choices that the folders are, the newest run first.
pub fn scan_ob_choices(folders: &Vec<Listed>) -> (r: Vec<ObChoice>)
    ensures
        choices_in_order(choice_views(r@)),
        choice_views(r@).to_multiset() == folders@.map_values(|l: Listed| choice_of(l)).to_multiset(),
{
    let ghost all = folders@.map_values(|l: Listed| choice_of(l));
    let mut out: Vec<ObChoice> = Vec::new();
    let mut i: usize = 0;
    proof {
        broadcast use vstd::seq_lib::group_to_multiset_ensures;

        assert(all.take(0) =~= Seq::empty());
        assert(choice_views(out@) =~= Seq::empty());
    }
    while i < folders.len()
        invariant
            i <= folders@.len(),
            all == folders@.map_values(|l: Listed| choice_of(l)),
            choices_in_order(choice_views(out@)),
            choice_views(out@).to_multiset() == all.take(i as int).to_multiset(),
        decreases folders@.len() - i,
    {
        let l = &folders[i];
        let item = ObChoice {
            folder: l.folder.clone(),
            run: beams::run_of_beam(l.folder.as_str()),
            complete: files::folder_complete(&l.names, FolderKind::Corrected, &l.spectra),
            frames: files::tiff_count(&l.names),
        };
        assert(item@ == all[i as int]);
        place_choice(&mut out, item);
        proof {
            broadcast use vstd::seq_lib::group_to_multiset_ensures;

            assert(all.take(i + 1) =~= all.take(i as int).push(all[i as int]));
        }
        i = i + 1;
    }
    assert(all.take(i as int) =~= all);
    out
}

} // verus!
