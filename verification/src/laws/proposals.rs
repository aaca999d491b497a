//! What is found of proposals, configurations and open beams.

use vstd::prelude::*;
use crate::choices::Listed;
use crate::clock::Moment;
use crate::files::Tree;
use crate::ipts::Candidate;
use crate::laws::{lists, names};
use crate::text::{Class, Text};
use crate::{beams, choices, clock, files, ipts, notebook, number, order, paths, text};

verus! {

// ---------------------------------------------------------------------
// Proposals

proof fn lemma_accessible(entries: Seq<(Text, bool)>, name: Text)
    ensures
        ipts::accessible(entries).contains(name) <==> entries.contains((name, true))
            && text::begins(name, "IPTS-"@),
    decreases entries.len(),
{
    if entries.len() > 0 {
        let rest = entries.drop_last();
        let last = entries[entries.len() - 1];
        lemma_accessible(rest, name);
        assert(rest.push(last) =~= entries);
        lists::pushed_holds(rest, last, (name, true));
        if last.1 && text::begins(last.0, "IPTS-"@) {
            lists::pushed_holds(ipts::accessible(rest), last.0, name);
        }
    }
}

/// The proposals are the folders called `IPTS-…` that may be entered, all of
/// them and no others, in the order of their numbers.
pub proof fn accessible_proposals_are_listed(
    entries: Seq<(Text, bool)>,
    name: Text,
    i: int,
    j: int,
)
    ensures
        ({
            let list = order::by_key(ipts::accessible(entries), ipts::ipts_key());
            &&& list.contains(name) <==> entries.contains((name, true)) && text::begins(
                name,
                "IPTS-"@,
            )
            &&& 0 <= i < j < list.len() ==> ipts::ipts_number(list[i]) <= ipts::ipts_number(list[j])
        }),
{
    broadcast use vstd::seq_lib::group_to_multiset_ensures;

    let found = ipts::accessible(entries);
    let key = ipts::ipts_key();
    let list = order::by_key(found, key);
    order::by_key_sorts(found, key);
    lemma_accessible(entries, name);
    assert(list.to_multiset().count(name) == found.to_multiset().count(name));
    if 0 <= i < j < list.len() {
        assert(key(list[i]) <= key(list[j]));
    }
}

/// The number of a proposal is the one behind `IPTS-`; names without one come
/// last.
pub proof fn proposals_have_their_number(n: u64, rest: Text)
    ensures
        ipts::ipts_number("IPTS-"@ + number::decimal(n as nat)) == n,
        number::parsed(rest) is None ==> ipts::ipts_number("IPTS-"@ + rest) == u64::MAX,
{
    reveal_strlit("IPTS-");
    let d = number::decimal(n as nat);
    let s = "IPTS-"@ + d;
    number::decimal_reads_back(n);
    assert(s.subrange(0, 5) =~= "IPTS-"@);
    assert(s.skip(5) =~= d);
    let t = "IPTS-"@ + rest;
    assert(t.subrange(0, 5) =~= "IPTS-"@);
    assert(t.skip(5) =~= rest);
}

/// A typed number names its proposal, with or without `IPTS-` before it, in
/// capitals or not, and with spaces around it; anything but digits is
/// refused.
pub proof fn typed_numbers_name_their_proposal(n: u64, before: Text, after: Text)
    requires
        text::all_in(before, Class::Space),
        text::all_in(after, Class::Space),
    ensures
        ipts::manual_name(before + number::decimal(n as nat) + after) == Ok::<Text, Text>(
            "IPTS-"@ + number::decimal(n as nat),
        ),
        ipts::manual_name(before + ("IPTS-"@ + number::decimal(n as nat)) + after) == Ok::<
            Text,
            Text,
        >("IPTS-"@ + number::decimal(n as nat)),
        ipts::manual_name(before + ("ipts-"@ + number::decimal(n as nat)) + after) == Ok::<
            Text,
            Text,
        >("IPTS-"@ + number::decimal(n as nat)),
{
    reveal_strlit("IPTS-");
    reveal_strlit("ipts-");
    let d = number::decimal(n as nat);
    number::lemma_decimal(n as nat);
    assert(text::in_class(d[0], Class::Digit));
    assert(text::in_class(d[d.len() - 1], Class::Digit));
    lemma_not_begun(d);
    lemma_framed(before, d, after);
    let a = "IPTS-"@ + d;
    lemma_framed(before, a, after);
    assert(a.subrange(0, 5) =~= "IPTS-"@);
    assert(a.skip(5) =~= d);
    assert(ipts::without_all(a, "IPTS-"@) == ipts::without_all(d, "IPTS-"@));
    let b = "ipts-"@ + d;
    lemma_framed(before, b, after);
    assert(b.subrange(0, 5) =~= "ipts-"@);
    assert(b.skip(5) =~= d);
    assert(!text::begins(b, "IPTS-"@)) by {
        assert(b.subrange(0, 5)[0] == 'i');
        assert("IPTS-"@[0] == 'I');
    }
    assert(ipts::without_all(b, "IPTS-"@) == b);
    assert(ipts::without_all(b, "ipts-"@) == ipts::without_all(d, "ipts-"@));
}

proof fn lemma_not_begun(d: Text)
    requires
        d.len() > 0,
        text::is_digit(d[0]),
    ensures
        ipts::without_all(d, "IPTS-"@) == d,
        ipts::without_all(d, "ipts-"@) == d,
{
    reveal_strlit("IPTS-");
    reveal_strlit("ipts-");
    if text::begins(d, "IPTS-"@) {
        assert(d.subrange(0, 5)[0] == d[0]);
        assert("IPTS-"@[0] == 'I');
    }
    if text::begins(d, "ipts-"@) {
        assert(d.subrange(0, 5)[0] == d[0]);
        assert("ipts-"@[0] == 'i');
    }
}

proof fn lemma_framed(before: Text, s: Text, after: Text)
    requires
        text::all_in(before, Class::Space),
        text::all_in(after, Class::Space),
        s.len() > 0,
        !text::is_space(s[0]),
        !text::is_space(s.last()),
    ensures
        text::trimmed(before + s + after) == s,
{
    let all = before + s + after;
    let i = before.len() as int;
    let j = i + s.len();
    assert forall|x: int| 0 <= x < i implies text::in_class(#[trigger] all[x], Class::Space) by {
        assert(text::in_class(before[x], Class::Space));
    }
    assert forall|x: int| j <= x < all.len() implies text::in_class(
        #[trigger] all[x],
        Class::Space,
    ) by {
        assert(text::in_class(after[x - j], Class::Space));
    }
    assert(all[i] == s[0]);
    assert(all[j - 1] == s.last());
    text::trimmed_is(all, Class::Space, i, j);
    assert(all.subrange(i, j) =~= s);
}

/// A typed proposal is always `IPTS-` and digits, or refused.
pub proof fn typed_proposals_are_numbers(typed: Text)
    ensures
        ipts::manual_name(typed) matches Ok(name) ==> text::begins(name, "IPTS-"@) && name.len() > 5
            && text::all_in(name.skip(5), Class::Digit),
{
    reveal_strlit("IPTS-");
    let n = ipts::typed_number(typed);
    let name = "IPTS-"@ + n;
    assert(name.subrange(0, 5) =~= "IPTS-"@);
    assert(name.skip(5) =~= n);
}

/// Typing narrows the list to the proposals that hold what was typed.
pub proof fn typing_narrows_the_list(list: Seq<Text>, typed: Text, name: Text)
    ensures
        ipts::matching(list, typed).contains(name) <==> list.contains(name) && text::has(
            name,
            ipts::typed_number(typed),
        ),
        ipts::matching(list, typed).len() <= list.len(),
{
    lists::filtered_holds(list, |n: Text| text::has(n, ipts::typed_number(typed)), name);
}

// ---------------------------------------------------------------------
// Configurations

/// A configuration is a file whose extension is `h5`, in any case.
pub proof fn configurations_are_h5_files(front: Text, ext: Text)
    requires
        front.len() > 0,
        text::all_in(ext, Class::Not('.')),
    ensures
        ipts::is_h5(front + seq!['.'] + ext) <==> text::lowered(ext) == "h5"@,
{
    let s = front + seq!['.'] + ext;
    let d = front.len() as int + 1;
    assert(s.subrange(d, s.len() as int) =~= ext);
    assert(s[d - 1] == '.');
    text::run_start_is(s, Class::Not('.'), d, s.len() as int);
    assert(s.skip(d) =~= ext);
}

/// The configurations are the `h5` files seen, all of them and no others,
/// each with its own path, name and age.
pub proof fn every_h5_file_is_a_configuration(seen: Seq<Candidate>, file: ipts::ConfigView)
    ensures
        ipts::config_files(seen).contains(file) <==> exists|i: int|
            0 <= i < seen.len() && ipts::is_h5((#[trigger] seen[i]).name@) && seen[i].is_file
                && seen[i].path@ == file.0 && seen[i].name@ == file.1 && seen[i].mtime == file.2,
    decreases seen.len(),
{
    if seen.len() > 0 {
        let rest = seen.drop_last();
        let c = seen[seen.len() - 1];
        every_h5_file_is_a_configuration(rest, file);
        if ipts::is_h5(c.name@) && c.is_file {
            lists::pushed_holds(ipts::config_files(rest), (c.path@, c.name@, c.mtime), file);
        }
        if exists|i: int|
            0 <= i < rest.len() && ipts::is_h5((#[trigger] rest[i]).name@) && rest[i].is_file
                && rest[i].path@ == file.0 && rest[i].name@ == file.1 && rest[i].mtime == file.2 {
            let i = choose|i: int|
                0 <= i < rest.len() && ipts::is_h5((#[trigger] rest[i]).name@) && rest[i].is_file
                    && rest[i].path@ == file.0 && rest[i].name@ == file.1 && rest[i].mtime
                    == file.2;
            assert(seen[i] == rest[i]);
        }
        if exists|i: int|
            0 <= i < seen.len() && ipts::is_h5((#[trigger] seen[i]).name@) && seen[i].is_file
                && seen[i].path@ == file.0 && seen[i].name@ == file.1 && seen[i].mtime == file.2 {
            let i = choose|i: int|
                0 <= i < seen.len() && ipts::is_h5((#[trigger] seen[i]).name@) && seen[i].is_file
                    && seen[i].path@ == file.0 && seen[i].name@ == file.1 && seen[i].mtime
                    == file.2;
            if i < rest.len() {
                assert(rest[i] == seen[i]);
            }
        }
    }
}

/// The detectors of a proposal are the folders of its layout that are not
/// hidden.
pub proof fn detectors_are_the_folders(entries: Seq<(Text, bool)>, name: Text)
    ensures
        ipts::detectors(entries).contains(name) <==> entries.contains((name, true)) && !(name.len()
            > 0 && name[0] == '.'),
    decreases entries.len(),
{
    if entries.len() > 0 {
        let rest = entries.drop_last();
        let last = entries[entries.len() - 1];
        detectors_are_the_folders(rest, name);
        assert(rest.push(last) =~= entries);
        lists::pushed_holds(rest, last, (name, true));
        if files::looked_at(last) {
            lists::pushed_holds(ipts::detectors(rest), last.0, name);
        }
    }
}

// ---------------------------------------------------------------------
// The viewer

proof fn lemma_compared(folders: Seq<Text>)
    ensures
        ipts::compared(folders).len() == 2 * folders.len(),
        forall|i: int|
            0 <= i < folders.len() ==> ipts::compared(folders).subrange(2 * i, 2 * i + 2) == seq![
                "--compare"@,
                #[trigger] folders[i],
            ],
    decreases folders.len(),
{
    if folders.len() > 0 {
        let rest = folders.drop_last();
        lemma_compared(rest);
        let a = ipts::compared(rest);
        let b = ipts::compared(folders);
        assert forall|i: int| 0 <= i < folders.len() implies b.subrange(2 * i, 2 * i + 2) == seq![
            "--compare"@,
            #[trigger] folders[i],
        ] by {
            if i < rest.len() {
                assert(rest[i] == folders[i]);
                assert(b.subrange(2 * i, 2 * i + 2) =~= a.subrange(2 * i, 2 * i + 2));
            } else {
                assert(b.subrange(2 * i, 2 * i + 2) =~= seq!["--compare"@, folders[i]]);
            }
        }
    }
}

/// The viewer is handed the first folder, every further one to compare with
/// it, in order, and the detector when it is known.
pub proof fn viewers_get_every_folder(folders: Seq<Text>, detector: Option<Text>, i: int)
    requires
        folders.len() > 0,
        0 < i < folders.len() || i == 0,
    ensures
        ({
            let args = ipts::viewer_words(folders, detector);
            &&& args.len() == 2 * folders.len() - 1 + (if detector is Some {
                2int
            } else {
                0int
            })
            &&& args[0] == folders[0]
            &&& i > 0 ==> args.subrange(2 * i - 1, 2 * i + 1) == seq!["--compare"@, folders[i]]
            &&& detector is Some ==> args.skip(args.len() - 2) == seq!["--detector"@, detector->0]
        }),
{
    let more = folders.skip(1);
    lemma_compared(more);
    let c = ipts::compared(more);
    let args = ipts::viewer_words(folders, detector);
    if i > 0 {
        assert(more[i - 1] == folders[i]);
        assert(c.subrange(2 * (i - 1), 2 * (i - 1) + 2) == seq!["--compare"@, folders[i]]);
        assert(args.subrange(2 * i - 1, 2 * i + 1) =~= c.subrange(2 * (i - 1), 2 * (i - 1) + 2));
    }
    match detector {
        Some(d) => {
            assert(args.skip(args.len() - 2) =~= seq!["--detector"@, d]);
        },
        None => {},
    }
}

// ---------------------------------------------------------------------
// Open beams to choose from

/// Folders in use that were not found are added to the choices, behind those
/// found, and none is listed twice for it.
pub proof fn folders_in_use_can_be_chosen(list: Seq<Text>, extra: Seq<Text>, path: Text)
    ensures
        choices::path_listed(choices::with_extra(list, extra), path) <==> choices::path_listed(
            list,
            path,
        ) || choices::path_listed(extra, path),
        choices::with_extra(list, extra).len() >= list.len(),
        choices::with_extra(list, extra).take(list.len() as int) == list,
    decreases extra.len(),
{
    if extra.len() == 0 {
        assert(list.take(list.len() as int) =~= list);
    } else {
        let rest = extra.drop_last();
        let last = extra[extra.len() - 1];
        folders_in_use_can_be_chosen(list, rest, path);
        let before = choices::with_extra(list, rest);
        let after = choices::with_extra(list, extra);
        if choices::path_listed(before, path) {
            let i = choose|i: int|
                0 <= i < before.len() && paths::same_path(#[trigger] before[i], path);
            assert(after[i] == before[i]);
        }
        if choices::path_listed(rest, path) {
            let i = choose|i: int|
                0 <= i < rest.len() && paths::same_path(#[trigger] rest[i], path);
            assert(extra[i] == rest[i]);
        }
        if choices::path_listed(extra, path) {
            let i = choose|i: int|
                0 <= i < extra.len() && paths::same_path(#[trigger] extra[i], path);
            if i < rest.len() {
                assert(rest[i] == extra[i]);
            } else if choices::path_listed(before, last) {
                let k = choose|k: int|
                    0 <= k < before.len() && paths::same_path(#[trigger] before[k], last);
                assert(paths::same_path(after[k], path));
            } else {
                assert(after[before.len() as int] == last);
            }
        }
        if choices::path_listed(after, path) {
            let i = choose|i: int|
                0 <= i < after.len() && paths::same_path(#[trigger] after[i], path);
            if i < before.len() {
                assert(before[i] == after[i]);
            } else {
                assert(paths::same_path(extra[extra.len() - 1], path));
            }
        }
        assert(after.take(list.len() as int) =~= before.take(list.len() as int));
    }
}

/// A choice tells its folder, the run its folder is named after, whether it
/// is complete and how many frames it holds; choices come newest first.
pub proof fn choices_tell_their_folder(l: Listed, a: choices::Choice, b: choices::Choice)
    ensures
        choices::choice_of(l).folder == l.folder@,
        choices::choice_of(l).run == beams::beam_run(l.folder@),
        choices::choice_of(l).complete == files::complete(
            text::texts(l.names@),
            files::FolderKind::Corrected,
            text::opt_text(l.spectra),
        ),
        choices::choice_of(l).frames == files::frame_count(
            text::texts(l.names@),
            files::FolderKind::Corrected,
        ),
        a.run is Some && b.run is Some && a.run->0 > b.run->0 ==> choices::choice_order(a, b)
            && !choices::choice_order(b, a),
        a.run is Some && b.run is None ==> choices::choice_order(a, b) && !choices::choice_order(
            b,
            a,
        ),
{
}

proof fn lemma_beam_there(tree: Tree, dir: Text, es: Seq<(Text, bool)>, depth: int, k: int)
    requires
        0 <= k < es.len(),
        0 <= depth < choices::MAX_BEAM_DEPTH,
        es[k].1,
        !(es[k].0.len() > 0 && es[k].0[0] == '.'),
    ensures
        files::run_in_name(es[k].0) is Some ==> choices::beams_below(tree, dir, es, depth).count(
            paths::below(dir, es[k].0),
        ) > 0,
        forall|path: Text|
            files::run_in_name(es[k].0) is None && depth + 1 < choices::MAX_BEAM_DEPTH
                && #[trigger] choices::beams_below(
                tree,
                paths::below(dir, es[k].0),
                tree(paths::below(dir, es[k].0)),
                depth + 1,
            ).count(path) > 0 ==> choices::beams_below(tree, dir, es, depth).count(path) > 0,
    decreases es.len(),
{
    broadcast use vstd::multiset::group_multiset_axioms;

    if k < es.len() - 1 {
        assert(es.drop_last()[k] == es[k]);
        lemma_beam_there(tree, dir, es.drop_last(), depth, k);
    }
}

/// Every open beam directly in a detector's `ob` folder, or in a folder right
/// in there, can be chosen.
pub proof fn open_beams_near_the_detector_are_found(
    tree: Tree,
    root: Text,
    k: int,
    inner: int,
)
    requires
        0 <= k < tree(root).len(),
        tree(root)[k].1,
        !(tree(root)[k].0.len() > 0 && tree(root)[k].0[0] == '.'),
    ensures
        files::run_in_name(tree(root)[k].0) is Some ==> choices::beams_below(
            tree,
            root,
            tree(root),
            0,
        ).count(paths::below(root, tree(root)[k].0)) > 0,
        ({
            let sub = paths::below(root, tree(root)[k].0);
            files::run_in_name(tree(root)[k].0) is None && 0 <= inner < tree(sub).len() && tree(
                sub,
            )[inner].1 && !(tree(sub)[inner].0.len() > 0 && tree(sub)[inner].0[0] == '.')
                && files::run_in_name(tree(sub)[inner].0) is Some ==> choices::beams_below(
                tree,
                root,
                tree(root),
                0,
            ).count(paths::below(sub, tree(sub)[inner].0)) > 0
        }),
{
    lemma_beam_there(tree, root, tree(root), 0, k);
    let sub = paths::below(root, tree(root)[k].0);
    if files::run_in_name(tree(root)[k].0) is None && 0 <= inner < tree(sub).len() && tree(
        sub,
    )[inner].1 && !(tree(sub)[inner].0.len() > 0 && tree(sub)[inner].0[0] == '.')
        && files::run_in_name(tree(sub)[inner].0) is Some {
        lemma_beam_there(tree, sub, tree(sub), 1, inner);
    }
}

/// The address a notebook is served at is the one its output names, up to
/// the next space.
pub proof fn addresses_are_read_from_the_output(before: Text, rest: Text, after: Text)
    requires
        text::all_in(rest, Class::NotSpace),
        after.len() > 0 ==> text::is_space(after[0]),
        forall|k: int|
            0 <= k < before.len() ==> !(#[trigger] text::occurs_at(
                before + "http://"@ + rest + after,
                "http://"@,
                k,
            )),
    ensures
        notebook::address(before + "http://"@ + rest + after) == Some("http://"@ + rest),
{
    let s = before + "http://"@ + rest + after;
    let i = before.len() as int;
    let url = "http://"@ + rest;
    let e = i + url.len();
    assert(s.subrange(i, i + "http://"@.len()) =~= "http://"@);
    names::texts_are_found_where_they_first_occur(s, "http://"@, i);
    assert(s.subrange(i, e) =~= url);
    assert(text::all_in(url, Class::NotSpace)) by {
        reveal_strlit("http://");
        assert forall|k: int| 0 <= k < url.len() implies text::in_class(
            #[trigger] url[k],
            Class::NotSpace,
        ) by {
            if k >= 7 {
                assert(text::in_class(rest[k - 7], Class::NotSpace));
            }
        }
    }
    assert(e < s.len() ==> s[e] == after[0]);
    text::run_end_is(s, Class::NotSpace, i, e);
}

/// The selected configuration stays selected while it is listed or its file
/// is there, and is then in the list; the rest of the list stays. Without a
/// selection nothing is selected.
pub proof fn selections_outlast_a_new_list(
    before: Seq<ipts::ConfigView>,
    after: Seq<ipts::ConfigView>,
    selected: Option<Text>,
    mtime: Option<Moment>,
    kept: Option<Text>,
)
    requires
        ipts::keeps_selection(before, after, selected, mtime, kept),
    ensures
        kept is Some ==> kept == selected && exists|i: int|
            0 <= i < after.len() && paths::same_path((#[trigger] after[i]).0, kept->0),
        selected is Some && mtime is Some ==> kept == selected,
        selected is Some && (exists|i: int|
            0 <= i < before.len() && paths::same_path((#[trigger] before[i]).0, selected->0))
            ==> kept == selected && after == before,
        selected is None ==> kept is None,
        after.len() >= before.len(),
        after.take(before.len() as int) == before,
{
    assert(before.take(before.len() as int) =~= before);
    if selected is Some && !ipts::config_listed(before, selected->0) && mtime is Some {
        let n = before.len() as int;
        assert(after[n].0 == selected->0);
        assert(paths::same_path(after[n].0, selected->0));
        assert(after.take(n) =~= before);
    }
}

/// The detector is told only when the layout has a single one.
pub proof fn a_single_detector_is_told(entries: Seq<(Text, bool)>, name: Text)
    ensures
        ipts::only_detector(entries) == Some(name) ==> entries.contains((name, true)),
        ipts::only_detector(entries) is Some <==> ipts::detectors(entries).len() == 1,
{
    detectors_are_the_folders(entries, name);
    if ipts::only_detector(entries) == Some(name) {
        assert(ipts::detectors(entries)[0] == name);
    }
}

/// The configuration taken by itself is the newest of those seen.
pub proof fn the_newest_configuration_is_taken(seen: Seq<Candidate>, i: int)
    requires
        0 <= i < seen.len(),
        ipts::is_h5(seen[i].name@),
        seen[i].is_file,
    ensures
        ({
            let list = order::by_key(ipts::config_files(seen), ipts::age_key());
            &&& ipts::first_config(list) is Some
            &&& exists|k: int|
                0 <= k < list.len() && (#[trigger] list[k]).0 == ipts::first_config(list)->0
                    && clock::at_or_before(seen[i].mtime, list[k].2)
        }),
        ipts::first_config(Seq::empty()) is None,
{
    ipts::newest_configuration_comes_first(seen, i);
    let list = order::by_key(ipts::config_files(seen), ipts::age_key());
    assert(list[0].0 == ipts::first_config(list)->0);
}

/// The open beams of every detector of a proposal can be chosen: those in its
/// `ob` folder, or in a folder right in there.
pub proof fn every_detector_gives_its_open_beams(
    tree: Tree,
    detectors: Seq<Text>,
    d: int,
    path: Text,
)
    requires
        0 <= d < detectors.len(),
    ensures
        choices::beams_below(
            tree,
            paths::below(detectors[d], "ob"@),
            tree(paths::below(detectors[d], "ob"@)),
            0,
        ).count(path) > 0 ==> choices::beams_left(tree, choices::beam_roots(detectors)).count(path)
            > 0,
    decreases detectors.len(),
{
    broadcast use vstd::multiset::group_multiset_axioms;

    let roots = choices::beam_roots(detectors);
    let rest = detectors.drop_last();
    assert(roots.drop_last() =~= choices::beam_roots(rest));
    assert(roots.last() == (paths::below(detectors.last(), "ob"@), 0int));
    if d < rest.len() {
        assert(rest[d] == detectors[d]);
        every_detector_gives_its_open_beams(tree, rest, d, path);
    }
}

/// A prefix is taken off as often as it stands there.
pub proof fn prefixes_come_off_every_time(pat: Text, rest: Text)
    requires
        pat.len() > 0,
        !text::begins(rest, pat),
    ensures
        ipts::without_all(rest, pat) == rest,
        ipts::without_all(pat + rest, pat) == rest,
        ipts::without_all(pat + (pat + rest), pat) == rest,
{
    let once = pat + rest;
    assert(once.subrange(0, pat.len() as int) =~= pat);
    assert(once.skip(pat.len() as int) =~= rest);
    assert(text::begins(once, pat));
    assert(ipts::without_all(rest, pat) == rest);
    assert(ipts::without_all(once, pat) == ipts::without_all(rest, pat));
    let twice = pat + once;
    assert(twice.subrange(0, pat.len() as int) =~= pat);
    assert(twice.skip(pat.len() as int) =~= once);
    assert(text::begins(twice, pat));
    assert(ipts::without_all(twice, pat) == ipts::without_all(once, pat));
}

/// Without a list of configurations the reason is told, unless one is
/// selected; a list that is empty asks for a new one.
pub proof fn missing_configurations_are_explained(error: Option<Text>, none: bool, selected: bool)
    ensures
        error is Some && !selected ==> ipts::configs_words(error, none, selected) == error,
        error is Some && selected ==> ipts::configs_words(error, none, selected) is None,
        error is None ==> (ipts::configs_words(error, none, selected) is Some <==> none),
{
}

/// Every user has a notebook folder of their own in a proposal, named after
/// them.
pub proof fn users_have_their_own_notebooks(ipts: Text, a: Text, b: Text)
    ensures
        notebook::user_folder(ipts, a) == notebook::user_folder(ipts, b) ==> a == b,
        text::ends(notebook::user_folder(ipts, a), "/imaging_marimo_"@ + a),
{
    reveal_strlit("shared/notebooks");
    reveal_strlit("imaging_marimo_");
    reveal_strlit("/imaging_marimo_");
    let home = paths::below(ipts, "shared/notebooks"@);
    assert(home.last() == 's');
    let x = "imaging_marimo_"@ + a;
    let y = "imaging_marimo_"@ + b;
    let f = notebook::user_folder(ipts, a);
    let g = notebook::user_folder(ipts, b);
    assert(x[0] == 'i' && y[0] == 'i');
    assert(f == home.push('/') + x);
    assert(g == home.push('/') + y);
    let k = home.len() + 16;
    assert(f.skip(k as int) =~= a);
    assert(g.skip(k as int) =~= b);
    let named = "/imaging_marimo_"@ + a;
    assert(f.subrange(f.len() - named.len(), f.len() as int) =~= named);
}

} // verus!
