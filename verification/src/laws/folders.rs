//! What the names and folders of runs tell.

use vstd::prelude::*;
use crate::files::{FileStatus, FolderKind, Seen, Tree};
use crate::text::{Class, Text};
use crate::{files, order, paths, text};

verus! {

proof fn lemma_filter_push(s: Seq<Text>, x: Text, p: spec_fn(Text) -> bool)
    ensures
        s.push(x).filter(p) == (if p(x) {
            s.filter(p).push(x)
        } else {
            s.filter(p)
        }),
{
    reveal(Seq::filter);
    assert(s.push(x).drop_last() =~= s);
}

proof fn lemma_filter_some(s: Seq<Text>, p: spec_fn(Text) -> bool)
    ensures
        s.filter(p).len() > 0 <==> exists|i: int| 0 <= i < s.len() && p(#[trigger] s[i]),
        s.filter(p).len() <= s.len(),
    decreases s.len(),
{
    reveal(Seq::filter);
    if s.len() > 0 {
        let rest = s.drop_last();
        lemma_filter_some(rest, p);
        assert(rest.push(s.last()) =~= s);
        if s.filter(p).len() > 0 {
            if p(s.last()) {
                assert(p(s[s.len() - 1]));
            } else {
                let i = choose|i: int| 0 <= i < rest.len() && p(#[trigger] rest[i]);
                assert(p(s[i]));
            }
        }
        if exists|i: int| 0 <= i < s.len() && p(#[trigger] s[i]) {
            let i = choose|i: int| 0 <= i < s.len() && p(#[trigger] s[i]);
            if i < rest.len() {
                assert(p(rest[i]));
            }
        }
    }
}

proof fn lemma_folder_at(seen: Seq<files::FolderSeen>, run: u64, i: int, k: int)
    requires
        0 <= i <= k < seen.len(),
        seen[k].run == run,
        forall|j: int| 0 <= j < k ==> (#[trigger] seen[j]).run != run,
    ensures
        files::folder_of(seen, run, i) == Some(k),
    decreases k - i,
{
    if i < k {
        assert(seen[i].run != run);
        lemma_folder_at(seen, run, i + 1, k);
    }
}

proof fn lemma_no_folder(seen: Seq<files::FolderSeen>, run: u64, i: int)
    requires
        0 <= i,
        forall|j: int| 0 <= j < seen.len() ==> (#[trigger] seen[j]).run != run,
    ensures
        files::folder_of(seen, run, i) is None,
    decreases seen.len() - i,
{
    if i < seen.len() {
        lemma_no_folder(seen, run, i + 1);
    }
}

/// A corrected folder none of whose entries is called `summary.json`, in any
/// case, is never complete, whatever its frames and its spectra file, and its
/// run has no usable corrected data yet: its status is Writing.
pub proof fn no_summary_no_corrected_data(
    names: Seq<Text>,
    spectra: Option<Text>,
    ipts: Text,
    run: u64,
    seen: Seen,
    k: int,
)
    requires
        forall|i: int| 0 <= i < names.len() ==> text::lowered(#[trigger] names[i])
            != "summary.json"@,
        0 <= k < seen.corrected@.len(),
        seen.corrected@[k].run == run,
        forall|j: int| 0 <= j < k ==> (#[trigger] seen.corrected@[j]).run != run,
        text::texts(seen.corrected@[k].names@) == names,
    ensures
        !files::complete(names, FolderKind::Corrected, spectra),
        files::run_status(ipts, run, seen).corrected == FileStatus::<Text>::Writing(
            seen.corrected@[k].path@,
        ),
{
    assert forall|i: int| 0 <= i < names.len() implies !(#[trigger] files::is_summary(
        names[i],
    )) by {}
    lemma_folder_at(seen.corrected@, run, 0, k);
}

/// A folder is complete only when it has a frame, a spectra file whose text
/// is at hand, and, a corrected one, the summary.
pub proof fn complete_folders_have_every_part(
    names: Seq<Text>,
    kind: FolderKind,
    spectra: Option<Text>,
)
    requires
        files::complete(names, kind, spectra),
    ensures
        spectra is Some,
        exists|i: int|
            0 <= i < names.len() && text::ends(
                text::lowered(#[trigger] names[i]),
                "_spectra.txt"@,
            ),
        kind == FolderKind::Corrected ==> exists|i: int|
            0 <= i < names.len() && text::lowered(#[trigger] names[i]) == "summary.json"@,
        kind == FolderKind::Corrected ==> exists|i: int|
            0 <= i < names.len() && (text::ends(text::lowered(#[trigger] names[i]), ".tif"@)
                || text::ends(text::lowered(names[i]), ".tiff"@)),
        kind == FolderKind::Raw ==> exists|i: int|
            0 <= i < names.len() && text::ends(text::lowered(#[trigger] names[i]), ".fits"@)
                && !text::has(text::lowered(names[i]), "summedimg"@),
{
    let p = |n: Text| files::is_frame(n, kind);
    lemma_filter_some(names, p);
    let i = choose|i: int| 0 <= i < names.len() && p(#[trigger] names[i]);
    assert(p(names[i]));
    lemma_spectra_there(names, 0);
    if kind == FolderKind::Corrected {
        let j = choose|j: int| 0 <= j < names.len() && #[trigger] files::is_summary(names[j]);
        assert(text::lowered(names[j]) == "summary.json"@);
    }
}

proof fn lemma_spectra_there(names: Seq<Text>, i: int)
    requires
        0 <= i,
    ensures
        files::spectra_from(names, i) is Some <==> exists|j: int|
            i <= j < names.len() && text::ends(
                text::lowered(#[trigger] names[j]),
                "_spectra.txt"@,
            ),
    decreases names.len() - i,
{
    if i < names.len() {
        lemma_spectra_there(names, i + 1);
        if files::is_spectra(names[i]) {
            assert(text::ends(text::lowered(names[i]), "_spectra.txt"@));
        }
    }
}

/// Completeness is lost when one more frame appears that the spectra file
/// has no row for, and when the spectra file has more or fewer rows than
/// there are frames.
pub proof fn every_frame_has_its_row(
    names: Seq<Text>,
    kind: FolderKind,
    spectra: Option<Text>,
    frame: Text,
    other: Text,
)
    requires
        files::complete(names, kind, spectra),
    ensures
        (kind == FolderKind::Corrected && text::ends(text::lowered(frame), ".tif"@))
            ==> !files::complete(names.push(frame), kind, spectra),
        (kind == FolderKind::Corrected && text::ends(text::lowered(frame), ".tiff"@))
            ==> !files::complete(names.push(frame), kind, spectra),
        (kind == FolderKind::Raw && text::ends(text::lowered(frame), ".fits"@) && !text::has(
            text::lowered(frame),
            "summedimg"@,
        )) ==> !files::complete(names.push(frame), kind, spectra),
        text::lines_of(other).filter(|l: Text| files::data_row(l)).len() != text::lines_of(
            spectra->0,
        ).filter(|l: Text| files::data_row(l)).len() ==> !files::complete(
            names,
            kind,
            Some(other),
        ),
{
    lemma_filter_push(names, frame, |n: Text| files::is_frame(n, kind));
}

/// An entry that is neither a frame nor the spectra file nor the summary
/// does not bear on whether a folder is complete: not the summed image of a
/// raw folder, not a hidden or a stray file.
pub proof fn other_entries_do_not_matter(
    names: Seq<Text>,
    kind: FolderKind,
    spectra: Option<Text>,
    stray: Text,
)
    requires
        text::lowered(stray) != "summary.json"@,
        !text::ends(text::lowered(stray), "_spectra.txt"@),
        kind == FolderKind::Corrected ==> !text::ends(text::lowered(stray), ".tif"@)
            && !text::ends(text::lowered(stray), ".tiff"@),
        kind == FolderKind::Raw ==> !text::ends(text::lowered(stray), ".fits"@) || text::has(
            text::lowered(stray),
            "summedimg"@,
        ),
    ensures
        files::complete(names.push(stray), kind, spectra) == files::complete(names, kind, spectra),
{
    let more = names.push(stray);
    lemma_filter_push(names, stray, |n: Text| files::is_frame(n, kind));
    lemma_spectra_there(names, 0);
    lemma_spectra_there(more, 0);
    if files::spectra_from(more, 0) is Some {
        let j = choose|j: int|
            0 <= j < more.len() && text::ends(text::lowered(#[trigger] more[j]), "_spectra.txt"@);
        assert(names[j] == more[j]);
    }
    if files::spectra_from(names, 0) is Some {
        let j = choose|j: int|
            0 <= j < names.len() && text::ends(text::lowered(#[trigger] names[j]), "_spectra.txt"@);
        assert(names[j] == more[j]);
    }
    if exists|i: int| 0 <= i < names.len() && #[trigger] files::is_summary(names[i]) {
        let i = choose|i: int| 0 <= i < names.len() && #[trigger] files::is_summary(names[i]);
        assert(files::is_summary(more[i]));
    }
    if exists|i: int| 0 <= i < more.len() && #[trigger] files::is_summary(more[i]) {
        let i = choose|i: int| 0 <= i < more.len() && #[trigger] files::is_summary(more[i]);
        assert(files::is_summary(names[i]));
    }
}

/// A folder that holds frames, as many as its spectra file has rows, is
/// complete, a corrected one once it also holds the summary.
pub proof fn finished_folders_are_complete(
    names: Seq<Text>,
    kind: FolderKind,
    content: Text,
    frame: int,
    spectra: int,
    summary: int,
)
    requires
        0 <= frame < names.len(),
        kind == FolderKind::Corrected ==> text::ends(text::lowered(names[frame]), ".tif"@)
            || text::ends(text::lowered(names[frame]), ".tiff"@),
        kind == FolderKind::Raw ==> text::ends(text::lowered(names[frame]), ".fits"@)
            && !text::has(text::lowered(names[frame]), "summedimg"@),
        0 <= spectra < names.len(),
        text::ends(text::lowered(names[spectra]), "_spectra.txt"@),
        kind == FolderKind::Corrected ==> 0 <= summary < names.len() && text::lowered(
            names[summary],
        ) == "summary.json"@,
        files::row_count(content) == files::frame_count(names, kind),
    ensures
        files::complete(names, kind, Some(content)),
{
    let p = |n: Text| files::is_frame(n, kind);
    assert(p(names[frame]));
    lemma_filter_some(names, p);
    lemma_spectra_there(names, 0);
    if kind == FolderKind::Corrected {
        assert(files::is_summary(names[summary]));
    }
}

/// A run's files are told apart: its NeXus file is present exactly when its
/// number was listed, and its raw and corrected folders each have the state
/// of the first folder found for it, at that folder's path, or are missing
/// when none was found.
pub proof fn statuses_are_of_the_run(ipts: Text, run: u64, seen: Seen, r: int, c: int)
    requires
        0 <= r < seen.raw@.len() && seen.raw@[r].run == run,
        forall|j: int| 0 <= j < r ==> (#[trigger] seen.raw@[j]).run != run,
        0 <= c < seen.corrected@.len() && seen.corrected@[c].run == run,
        forall|j: int| 0 <= j < c ==> (#[trigger] seen.corrected@[j]).run != run,
    ensures
        files::run_status(ipts, run, seen).run == run,
        files::run_status(ipts, run, seen).nexus is Present <==> seen.nexus@.contains(run),
        files::run_status(ipts, run, seen).nexus is Missing <==> !seen.nexus@.contains(run),
        files::run_status(ipts, run, seen).raw == (if files::complete(
            text::texts(seen.raw@[r].names@),
            FolderKind::Raw,
            text::opt_text(seen.raw@[r].spectra),
        ) {
            FileStatus::<Text>::Present(seen.raw@[r].path@)
        } else {
            FileStatus::<Text>::Writing(seen.raw@[r].path@)
        }),
        files::run_status(ipts, run, seen).corrected == (if files::complete(
            text::texts(seen.corrected@[c].names@),
            FolderKind::Corrected,
            text::opt_text(seen.corrected@[c].spectra),
        ) {
            FileStatus::<Text>::Present(seen.corrected@[c].path@)
        } else {
            FileStatus::<Text>::Writing(seen.corrected@[c].path@)
        }),
{
    lemma_folder_at(seen.raw@, run, 0, r);
    lemma_folder_at(seen.corrected@, run, 0, c);
}

/// A run for which no folder was found misses it: neither present nor being
/// written.
pub proof fn folders_not_found_are_missing(ipts: Text, run: u64, seen: Seen)
    ensures
        (forall|j: int| 0 <= j < seen.raw@.len() ==> (#[trigger] seen.raw@[j]).run != run)
            ==> files::run_status(ipts, run, seen).raw is Missing,
        (forall|j: int|
            0 <= j < seen.corrected@.len() ==> (#[trigger] seen.corrected@[j]).run != run)
            ==> files::run_status(ipts, run, seen).corrected is Missing,
{
    if forall|j: int| 0 <= j < seen.raw@.len() ==> (#[trigger] seen.raw@[j]).run != run {
        lemma_no_folder(seen.raw@, run, 0);
    }
    if forall|j: int|
        0 <= j < seen.corrected@.len() ==> (#[trigger] seen.corrected@[j]).run != run {
        lemma_no_folder(seen.corrected@, run, 0);
    }
}

/// A line of a spectra file is a row when its first character that is no
/// space is a digit, a sign or a point; a heading and a blank line are none.
pub proof fn rows_begin_like_numbers(indent: Text, first: char, rest: Text)
    requires
        text::all_in(indent, Class::Space),
        !text::is_space(first),
    ensures
        files::data_row(indent + seq![first] + rest) <==> ('0' <= first <= '9' || first == '-'
            || first == '+' || first == '.'),
        !files::data_row(indent),
{
    let line = indent + seq![first] + rest;
    assert(line.subrange(0, indent.len() as int) =~= indent);
    text::run_end_is(line, Class::Space, 0, indent.len() as int);
    assert(indent.subrange(0, indent.len() as int) =~= indent);
    text::run_end_is(indent, Class::Space, 0, indent.len() as int);
    assert(line[indent.len() as int] == first);
}

/// A further line of a spectra file adds one row exactly when it begins like
/// a number.
pub proof fn lines_add_their_rows(content: Text, line: Text)
    requires
        content.len() == 0 || content.last() == '\n',
        text::all_in(line, Class::Not('\n')),
    ensures
        files::row_count(content + line + seq!['\n']) == files::row_count(content) + (
        if files::data_row(text::without_return(line)) {
            1nat
        } else {
            0nat
        }),
{
    let none = Seq::<char>::empty();
    let p = |l: Text| files::data_row(l);
    text::a_line_in_between_is_read(content, line, none);
    assert(content + line + seq!['\n'] + none =~= content + line + seq!['\n']);
    text::pieces_single(none, Class::Not('\n'));
    assert(text::lines_of(none) =~= Seq::<Text>::empty());
    assert(text::lines_of(content) + seq![text::without_return(line)] + Seq::<Text>::empty()
        =~= text::lines_of(content).push(text::without_return(line)));
    lemma_filter_push(text::lines_of(content), text::without_return(line), p);
}

/// Frames are counted one by one: a corrected folder's TIFF files, a raw
/// folder's FITS files but for the summed image, and nothing else.
pub proof fn frames_are_counted_one_by_one(names: Seq<Text>, name: Text)
    ensures
        files::frame_count(Seq::empty(), FolderKind::Raw) == 0,
        files::frame_count(Seq::empty(), FolderKind::Corrected) == 0,
        files::frame_count(names.push(name), FolderKind::Corrected) == files::frame_count(
            names,
            FolderKind::Corrected,
        ) + (if text::ends(text::lowered(name), ".tif"@) || text::ends(
            text::lowered(name),
            ".tiff"@,
        ) {
            1nat
        } else {
            0nat
        }),
        files::frame_count(names.push(name), FolderKind::Raw) == files::frame_count(
            names,
            FolderKind::Raw,
        ) + (if text::ends(text::lowered(name), ".fits"@) && !text::has(
            text::lowered(name),
            "summedimg"@,
        ) {
            1nat
        } else {
            0nat
        }),
{
    reveal(Seq::filter);
    lemma_filter_push(names, name, |n: Text| files::is_frame(n, FolderKind::Corrected));
    lemma_filter_push(names, name, |n: Text| files::is_frame(n, FolderKind::Raw));
}

/// An empty spectra file has no rows.
pub proof fn empty_files_have_no_rows()
    ensures
        files::row_count(Seq::empty()) == 0,
{
    reveal(Seq::filter);
    let none = Seq::<char>::empty();
    text::pieces_single(none, Class::Not('\n'));
    assert(text::lines_of(none) =~= Seq::<Text>::empty());
}

/// Every wanted run with a folder within six levels below the root is found,
/// and none is found deeper.
pub proof fn six_levels_are_scanned(tree: Tree, root: Text, wanted: Seq<u64>, run: u64, path: Text)
    requires
        order::ascending(wanted),
        wanted.contains(run),
    ensures
        files::sits(tree, root, 6, run, path) ==> exists|i: int|
            0 <= i < files::scan(tree, root, wanted).len() && (#[trigger] files::scan(
                tree,
                root,
                wanted,
            )[i]).0 == run,
        files::scan(tree, root, wanted).contains((run, path)) ==> files::sits(
            tree,
            root,
            6,
            run,
            path,
        ),
{
    let found = files::scan(tree, root, wanted);
    if files::sits(tree, root, 6, run, path) {
        files::scan_misses_no_run_within_reach(tree, root, wanted, run, path);
        let i = choose|i: int| 0 <= i < found.len() && #[trigger] found[i].0 == run;
        assert(found[i].0 == run);
    }
    if found.contains((run, path)) {
        let k = choose|k: int| 0 <= k < found.len() && found[k] == (run, path);
        files::found_folders_sit_near(tree, root, wanted, k);
    }
}

/// A folder sits below another when its name carries the run and it is not
/// hidden, or when it sits below a folder in there that carries no run.
pub proof fn folders_sit_below_their_parents(
    tree: Tree,
    dir: Text,
    levels: int,
    run: u64,
    path: Text,
    k: int,
)
    requires
        0 <= k < tree(dir).len(),
        tree(dir)[k].1,
        !(tree(dir)[k].0.len() > 0 && tree(dir)[k].0[0] == '.'),
        levels > 0,
    ensures
        files::run_in_name(tree(dir)[k].0) == Some(run) ==> files::sits(
            tree,
            dir,
            levels,
            run,
            paths::below(dir, tree(dir)[k].0),
        ),
        files::run_in_name(tree(dir)[k].0) is None && files::sits(
            tree,
            paths::below(dir, tree(dir)[k].0),
            levels - 1,
            run,
            path,
        ) ==> files::sits(tree, dir, levels, run, path),
{
    assert(files::looked_at(tree(dir)[k]));
}

/// Every run of a list has its state, in the order of the list.
pub proof fn every_run_has_its_state(ipts: Text, runs: Seq<u64>, seen: Seen, i: int)
    requires
        0 <= i < runs.len(),
    ensures
        files::all_status(ipts, runs, seen).len() == runs.len(),
        files::all_status(ipts, runs, seen)[i].run == runs[i],
        files::all_status(ipts, runs, seen)[i] == files::run_status(ipts, runs[i], seen),
{
}

/// The spectra file of a folder is the first entry called so.
pub proof fn the_first_spectra_file_is_taken(names: Seq<Text>, i: int, k: int)
    requires
        0 <= i <= k < names.len(),
        text::ends(text::lowered(names[k]), "_spectra.txt"@),
        forall|j: int|
            i <= j < k ==> !text::ends(text::lowered(#[trigger] names[j]), "_spectra.txt"@),
    ensures
        files::spectra_from(names, i) == Some(names[k]),
    decreases k - i,
{
    if i < k {
        assert(!text::ends(text::lowered(names[i]), "_spectra.txt"@));
        the_first_spectra_file_is_taken(names, i + 1, k);
    }
}

} // verus!
