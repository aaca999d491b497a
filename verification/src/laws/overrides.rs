//! What runs take from the configuration and what they have of their own.

use vstd::prelude::*;
use crate::h5::{Info, RunKind};
use crate::files::{FileStatus, RunFiles};
use crate::laws::lists;
use crate::settings::{Override, Plan};
use crate::text::{Class, Text};
use crate::{beams, norm, number, order, paths, settings, text};

verus! {

/// Open beams are put in the order of their run numbers, none lost and none
/// added; folders without a number come last.
pub proof fn open_beams_are_sorted_by_run(folders: Seq<Text>, i: int, j: int)
    ensures
        settings::by_run(folders).to_multiset() == folders.to_multiset(),
        settings::by_run(folders).len() == folders.len(),
        0 <= i < j < folders.len() ==> (beams::beam_run(settings::by_run(folders)[j]) matches Some(
            later,
        ) ==> beams::beam_run(settings::by_run(folders)[i]) is Some && beams::beam_run(
            settings::by_run(folders)[i],
        )->0 <= later) || beams::beam_run(settings::by_run(folders)[j]) == Some(u64::MAX),
{
    let key = |folder: Text| settings::beam_key(folder) as int;
    order::by_key_sorts(folders, key);
    let sorted = settings::by_run(folders);
    assert(sorted == order::by_key(folders, key));
    vstd::seq_lib::to_multiset_len(sorted);
    vstd::seq_lib::to_multiset_len(folders);
    if 0 <= i < j < folders.len() {
        assert(key(sorted[i]) <= key(sorted[j]));
    }
}

/// Two lists of folders are the same when one is the other in another order.
pub proof fn the_order_of_folders_does_not_matter(a: Seq<Text>, b: Seq<Text>, x: Text)
    ensures
        settings::same_paths(a, a),
        settings::same_paths(a, b) <==> settings::same_paths(b, a),
        settings::same_paths(a.push(x), seq![x] + a),
        !settings::same_paths(a.push(x), a),
        settings::same_paths(settings::by_run(a), a),
{
    let of = |p: Text| paths::components(p);
    let pa = settings::parts_of(a);
    assert(settings::parts_of(a.push(x)) =~= pa.push(of(x)));
    assert(settings::parts_of(seq![x] + a) =~= seq![of(x)] + pa);
    broadcast use vstd::seq_lib::group_to_multiset_ensures;

    vstd::seq_lib::lemma_multiset_commutative(pa, seq![of(x)]);
    vstd::seq_lib::lemma_multiset_commutative(seq![of(x)], pa);
    assert(pa.push(of(x)) =~= pa + seq![of(x)]);
    assert(pa.push(of(x)).to_multiset() =~= (seq![of(x)] + pa).to_multiset());
    assert(pa.push(of(x)).to_multiset().len() == pa.len() + 1);
    assert(pa.to_multiset().len() == pa.len());
    let key = |folder: Text| settings::beam_key(folder) as int;
    order::by_key_sorts(a, key);
    lemma_parts_of_same(settings::by_run(a), a);
}

proof fn lemma_parts_of_same(a: Seq<Text>, b: Seq<Text>)
    requires
        a.to_multiset() == b.to_multiset(),
    ensures
        settings::parts_of(a).to_multiset() == settings::parts_of(b).to_multiset(),
    decreases a.len(),
{
    broadcast use vstd::seq_lib::group_to_multiset_ensures;

    let of = |p: Text| paths::components(p);
    assert(a.len() == a.to_multiset().len());
    assert(b.len() == b.to_multiset().len());
    if a.len() == 0 {
        assert(settings::parts_of(a) =~= settings::parts_of(b));
    } else {
        let x = a.last();
        assert(a.contains(x)) by {
            assert(a[a.len() - 1] == x);
        }
        assert(a.to_multiset().count(x) > 0);
        assert(b.to_multiset().count(x) > 0);
        assert(b.contains(x));
        let k = choose|k: int| 0 <= k < b.len() && b[k] == x;
        let ra = a.drop_last();
        let rb = b.remove(k);
        assert(a =~= ra.push(x));
        assert(ra.to_multiset() =~= a.to_multiset().remove(x));
        assert(rb.to_multiset() =~= b.to_multiset().remove(x));
        lemma_parts_of_same(ra, rb);
        assert(settings::parts_of(a) =~= settings::parts_of(ra).push(of(x)));
        assert(settings::parts_of(rb) =~= settings::parts_of(b).remove(k));
        assert(settings::parts_of(b)[k] == of(x));
        assert(settings::parts_of(rb).to_multiset() =~= settings::parts_of(b).to_multiset().remove(
            of(x),
        ));
        assert(settings::parts_of(b).contains(of(x)));
        assert(settings::parts_of(b).to_multiset().count(of(x)) > 0);
        assert(settings::parts_of(a).to_multiset() =~= settings::parts_of(b).to_multiset());
    }
}

/// A run uses its own configuration where it has one, and the selected one
/// otherwise.
pub proof fn own_configurations_come_first(plan: Plan, run: u64)
    ensures
        plan.overrides.dom().contains(run) && plan.overrides[run].config is Some
            ==> settings::config_for(plan, run) == plan.overrides[run].config,
        !plan.overrides.dom().contains(run) ==> settings::config_for(plan, run) == plan.selected,
        plan.overrides.dom().contains(run) && plan.overrides[run].config is None
            ==> settings::config_for(plan, run) == plan.selected,
{
}

/// After a configuration was picked for a run, that run uses it, be it the
/// selected one or another; picking none goes back to the selected one. The
/// run's own open beams and output folder stay, and so does everything of
/// the other runs.
pub proof fn picked_configurations_are_used(
    plan: Plan,
    run: u64,
    config: Option<Text>,
    other: u64,
)
    ensures
        ({
            let after = settings::with_config_picked(plan, run, config);
            &&& config is Some ==> settings::config_for(after, run) is Some && paths::components(
                settings::config_for(after, run)->0,
            ) == paths::components(config->0)
            &&& config is None ==> settings::config_for(after, run) == plan.selected
            &&& settings::override_of(after.overrides, run).obs == settings::override_of(
                plan.overrides,
                run,
            ).obs
            &&& settings::override_of(after.overrides, run).output == settings::override_of(
                plan.overrides,
                run,
            ).output
            &&& other != run ==> settings::config_for(after, other) == settings::config_for(
                plan,
                other,
            )
            &&& other != run ==> settings::obs_in_force(after, other) == settings::obs_in_force(
                plan,
                other,
            )
            &&& after.selected == plan.selected
            &&& after.in_force == plan.in_force
            &&& after.infos == plan.infos
        }),
{
}

/// After open beams were ticked for a run, those in force for it are the
/// ticked ones, and ticking none goes back to the configuration's. The run's
/// configuration and output folder stay, and so does everything of the other
/// runs.
pub proof fn ticked_open_beams_are_used(plan: Plan, run: u64, ticked: Seq<Text>, other: u64)
    ensures
        ({
            let after = settings::with_obs_picked(plan, run, ticked);
            &&& ticked.len() > 0 ==> settings::same_paths(
                settings::obs_in_force(after, run),
                ticked,
            )
            &&& ticked.len() == 0 ==> settings::obs_in_force(after, run) == settings::obs_for(
                plan,
                run,
            )
            &&& settings::config_for(after, run) == settings::config_for(plan, run)
            &&& settings::override_of(after.overrides, run).output == settings::override_of(
                plan.overrides,
                run,
            ).output
            &&& other != run ==> settings::obs_in_force(after, other) == settings::obs_in_force(
                plan,
                other,
            )
            &&& after.selected == plan.selected
            &&& after.config_obs == plan.config_obs
            &&& after.infos == plan.infos
        }),
        settings::same_paths(ticked, settings::obs_for(plan, run)) ==> settings::picked_obs(
            plan,
            run,
            ticked,
        ) is None,
{
    the_order_of_folders_does_not_matter(ticked, settings::obs_for(plan, run), Seq::empty());
}

/// After an output folder was typed for a run, the one in force for it is the
/// typed one, without the spaces around it; typing nothing goes back to the
/// configuration's. The run's configuration and open beams stay, and so does
/// everything of the other runs.
pub proof fn typed_output_folders_are_used(
    plan: Plan,
    run: u64,
    ipts: Text,
    typed: Text,
    other: u64,
)
    ensures
        ({
            let after = settings::with_output_picked(plan, run, ipts, typed);
            let folder = settings::output_in_force(after, run, ipts);
            &&& text::trimmed(typed).len() > 0 ==> folder is Some && paths::components(folder->0)
                == paths::components(text::trimmed(typed))
            &&& text::trimmed(typed).len() == 0 ==> folder == settings::base_for(plan, run, ipts)
            &&& settings::config_for(after, run) == settings::config_for(plan, run)
            &&& settings::obs_in_force(after, run) == settings::obs_in_force(plan, run)
            &&& other != run ==> settings::output_in_force(after, other, ipts)
                == settings::output_in_force(plan, other, ipts)
            &&& after.selected == plan.selected
            &&& after.output_base == plan.output_base
        }),
{
}

/// What is in force for a run is its own where it has it, and the
/// configuration's otherwise.
pub proof fn own_choices_are_in_force(plan: Plan, run: u64, ipts: Text)
    ensures
        settings::override_of(plan.overrides, run).obs matches Some(obs) ==> settings::obs_in_force(
            plan,
            run,
        ) == obs,
        settings::override_of(plan.overrides, run).obs is None ==> settings::obs_in_force(plan, run)
            == settings::obs_for(plan, run),
        settings::override_of(plan.overrides, run).output is Some ==> settings::output_in_force(
            plan,
            run,
            ipts,
        ) == settings::override_of(plan.overrides, run).output,
        settings::override_of(plan.overrides, run).output is None ==> settings::output_in_force(
            plan,
            run,
            ipts,
        ) == settings::base_for(plan, run, ipts),
{
}

/// A run's own open beams and output folder replace those of the
/// configuration, and nothing else of it: crop region, detector and settings
/// stay.
pub proof fn overrides_replace_only_what_they_name(base: Info, over: Override)
    ensures
        over.obs is Some ==> settings::with_own(base, over).ob_folders == over.obs->0,
        over.obs is None ==> settings::with_own(base, over).ob_folders == base.ob_folders,
        over.output is Some ==> settings::with_own(base, over).output_folder == over.output,
        over.output is None ==> settings::with_own(base, over).output_folder == base.output_folder,
        settings::with_own(base, over).crop_region == base.crop_region,
        settings::with_own(base, over).detector == base.detector,
        settings::with_own(base, over).parameters == base.parameters,
{
}

/// Taking up the selected configuration puts it in force, with its open
/// beams, its output folder (or the proposal's own one) and its detector (or
/// the one the layout tells); the overrides stay.
pub proof fn the_selected_configuration_is_taken_up(
    plan: Plan,
    ipts: Text,
    info: Info,
    layout: Option<Text>,
)
    ensures
        ({
            let after = settings::taken_up(plan, ipts, Some(info), layout);
            &&& after.in_force == plan.selected
            &&& after.selected == plan.selected
            &&& settings::same_choice(after.in_force, after.selected)
            &&& after.config_obs == info.ob_folders
            &&& plan.selected is Some && info.output_folder is Some ==> after.output_base
                == info.output_folder
            &&& plan.selected is Some && info.output_folder is None ==> after.output_base == Some(
                paths::below(ipts, "shared/autoreduce/normalized"@),
            )
            &&& plan.selected is None ==> after.output_base is None
            &&& info.detector is Some ==> after.detector == info.detector
            &&& info.detector is None ==> after.detector == layout
            &&& after.overrides == plan.overrides
            &&& after.infos == plan.infos
        }),
        settings::taken_up(plan, ipts, None, layout).config_obs.len() == 0,
        settings::taken_up(plan, ipts, None, layout).detector == layout,
{
}

/// What is known of a configuration is what was read of the first entry with
/// its path.
pub proof fn known_configurations_are_found(
    infos: Seq<(Text, Info)>,
    config: Text,
    i: int,
    k: int,
)
    requires
        0 <= i,
    ensures
        i <= k < infos.len() && paths::same_path(infos[k].0, config) && (forall|j: int|
            i <= j < k ==> !paths::same_path((#[trigger] infos[j]).0, config))
            ==> settings::info_in(infos, config, i) == Some(infos[k].1),
        (forall|j: int| i <= j < infos.len() ==> !paths::same_path((#[trigger] infos[j]).0, config))
            ==> settings::info_in(infos, config, i) is None,
    decreases infos.len() - i,
{
    if i < infos.len() {
        known_configurations_are_found(infos, config, i + 1, k);
        if i <= k < infos.len() && paths::same_path(infos[k].0, config) && (forall|j: int|
            i <= j < k ==> !paths::same_path((#[trigger] infos[j]).0, config)) {
            if i < k {
                assert(!paths::same_path(infos[i].0, config));
            }
        }
        if forall|j: int|
            i <= j < infos.len() ==> !paths::same_path((#[trigger] infos[j]).0, config) {
            assert(!paths::same_path(infos[i].0, config));
        }
    }
}

/// The open beams and the output folder planned for a run are those of its
/// own configuration once that was read, and those in force otherwise.
pub proof fn planned_inputs_follow_the_own_configuration(plan: Plan, run: u64, ipts: Text)
    ensures
        !plan.overrides.dom().contains(run) || plan.overrides[run].config is None ==> {
            &&& settings::obs_for(plan, run) == plan.config_obs
            &&& settings::base_for(plan, run, ipts) == plan.output_base
        },
        plan.overrides.dom().contains(run) ==> (plan.overrides[run].config matches Some(config)
            ==> match settings::info_in(plan.infos, config, 0) {
            Some(info) => {
                &&& settings::obs_for(plan, run) == info.ob_folders
                &&& info.output_folder is Some ==> settings::base_for(plan, run, ipts)
                    == info.output_folder
                &&& info.output_folder is None ==> settings::base_for(plan, run, ipts) == Some(
                    paths::below(ipts, "shared/autoreduce/normalized"@),
                )
            },
            None => {
                &&& settings::obs_for(plan, run) == plan.config_obs
                &&& settings::base_for(plan, run, ipts) == plan.output_base
            },
        }),
{
}

// ---------------------------------------------------------------------
// New open beams

/// The new open beams are the rows that are open beams, were not rejected,
/// and are newer than every open beam of the configuration, each with the
/// state of its corrected folder.
pub proof fn new_open_beams_are_newer_than_the_configuration(
    rows: Seq<RunFiles<Text>>,
    image_paths: Map<u64, String>,
    rejected: Seq<u64>,
    config_obs: Seq<Text>,
    beam: (u64, FileStatus<Text>),
)
    ensures
        beams::new_beams(rows, image_paths, rejected, config_obs).contains(beam) <==> {
            &&& exists|i: int|
                0 <= i < rows.len() && (#[trigger] rows[i]).run == beam.0 && rows[i].corrected
                    == beam.1
            &&& beams::kind_in(image_paths, beam.0) == RunKind::OpenBeam
            &&& !rejected.contains(beam.0)
            &&& beam.0 > 0
            &&& forall|k: int|
                0 <= k < beams::beam_runs(config_obs).len() ==> beam.0
                    > #[trigger] beams::beam_runs(config_obs)[k]
        },
    decreases rows.len(),
{
    let known = beams::beam_runs(config_obs);
    if known.len() > 0 {
        norm::highest_is_highest(known);
        let k = choose|k: int| 0 <= k < known.len() && known[k] == norm::highest(known);
        assert(known[k] == beams::newest(known));
    }
    if rows.len() > 0 {
        let rest = rows.drop_last();
        new_open_beams_are_newer_than_the_configuration(
            rest,
            image_paths,
            rejected,
            config_obs,
            beam,
        );
        let last = rows[rows.len() - 1];
        if beams::is_new_beam(last.run, image_paths, rejected, config_obs) {
            lists::pushed_holds(
                beams::new_beams(rest, image_paths, rejected, config_obs),
                (last.run, last.corrected),
                beam,
            );
        }
        if exists|i: int|
            0 <= i < rest.len() && (#[trigger] rest[i]).run == beam.0 && rest[i].corrected
                == beam.1 {
            let i = choose|i: int|
                0 <= i < rest.len() && (#[trigger] rest[i]).run == beam.0 && rest[i].corrected
                    == beam.1;
            assert(rows[i] == rest[i]);
        }
        if exists|i: int|
            0 <= i < rows.len() && (#[trigger] rows[i]).run == beam.0 && rows[i].corrected
                == beam.1 {
            let i = choose|i: int|
                0 <= i < rows.len() && (#[trigger] rows[i]).run == beam.0 && rows[i].corrected
                    == beam.1;
            if i < rest.len() {
                assert(rest[i] == rows[i]);
            }
        }
    }
}

/// The runs of open beams are the numbers their folders are named after, in
/// order; folders without a number give none.
pub proof fn open_beam_runs_are_those_of_the_folders(folders: Seq<Text>, folder: Text, run: u64)
    ensures
        beams::beam_runs(folders.push(folder)) == (match beams::beam_run(folder) {
            Some(run) => beams::beam_runs(folders).push(run),
            None => beams::beam_runs(folders),
        }),
        beams::beam_runs(folders).contains(run) <==> exists|i: int|
            0 <= i < folders.len() && beams::beam_run(#[trigger] folders[i]) == Some(run),
    decreases folders.len(),
{
    assert(folders.push(folder).drop_last() =~= folders);
    if folders.len() > 0 {
        let rest = folders.drop_last();
        let last = folders[folders.len() - 1];
        open_beam_runs_are_those_of_the_folders(rest, folder, run);
        if beams::beam_run(last) is Some {
            lists::pushed_holds(beams::beam_runs(rest), beams::beam_run(last)->0, run);
        }
        if exists|i: int| 0 <= i < rest.len() && beams::beam_run(#[trigger] rest[i]) == Some(run) {
            let i = choose|i: int|
                0 <= i < rest.len() && beams::beam_run(#[trigger] rest[i]) == Some(run);
            assert(folders[i] == rest[i]);
        }
        if exists|i: int|
            0 <= i < folders.len() && beams::beam_run(#[trigger] folders[i]) == Some(run) {
            let i = choose|i: int|
                0 <= i < folders.len() && beams::beam_run(#[trigger] folders[i]) == Some(run);
            if i < rest.len() {
                assert(rest[i] == folders[i]);
            }
        }
    }
}

/// A switch to other open beams needs a selected configuration, at least one
/// folder, all of them complete, and a run number in one of their names; with
/// these it is never refused.
pub proof fn switches_need_complete_open_beams(
    config: Option<Text>,
    folders: Seq<Text>,
    complete: Seq<bool>,
)
    requires
        complete.len() == folders.len(),
    ensures
        beams::switch_error(config, folders, complete) is None <==> {
            &&& config is Some
            &&& folders.len() > 0
            &&& forall|i: int| 0 <= i < complete.len() ==> #[trigger] complete[i]
            &&& beams::beam_runs(folders).len() > 0
        },
{
    lemma_incomplete(complete, 0);
}

proof fn lemma_incomplete(complete: Seq<bool>, i: int)
    requires
        0 <= i,
    ensures
        beams::first_incomplete(complete, i) is None <==> forall|k: int|
            i <= k < complete.len() ==> #[trigger] complete[k],
    decreases complete.len() - i,
{
    if i < complete.len() {
        lemma_incomplete(complete, i + 1);
        if !complete[i] {
            assert(beams::first_incomplete(complete, i) is Some);
        }
    }
}

/// A stem without `_ob_` keeps its name when other open beams are taken.
pub proof fn stems_without_open_beams_are_kept(stem: Text)
    requires
        !text::has(stem, "_ob_"@),
    ensures
        beams::bare_stem(stem) == stem,
{
    lemma_no_beams(stem, 0);
}

proof fn lemma_no_beams(base: Text, numbers: int)
    requires
        numbers >= 0,
    ensures
        beams::before_beams(base, numbers) is Some ==> text::has(base, "_ob_"@) || (numbers > 0
            && base.len() >= 3 && base.skip(base.len() - 3) == "_ob"@),
    decreases base.len(),
{
    reveal_strlit("_ob_");
    reveal_strlit("_ob");
    reveal_strlit("ob");
    text::run_start_is_maximal(base, Class::Not('_'), base.len() as int);
    let k = text::run_start(base, Class::Not('_'), base.len() as int);
    if k > 0 {
        let head = base.take(k - 1);
        let tail = base.skip(k);
        assert(base[k - 1] == '_');
        if tail.len() > 0 && text::all_in(tail, Class::Digit) {
            lemma_no_beams(head, numbers + 1);
            if beams::before_beams(head, numbers + 1) is Some {
                if text::has(head, "_ob_"@) {
                    let i = choose|i: int| text::occurs_at(head, "_ob_"@, i);
                    assert(base.subrange(i, i + 4) =~= head.subrange(i, i + 4));
                    assert(text::occurs_at(base, "_ob_"@, i));
                } else {
                    let i = head.len() - 3;
                    assert(head.skip(i) =~= "_ob"@);
                    assert(head.skip(i)[0] == head[i] && head.skip(i)[1] == head[i + 1]
                        && head.skip(i)[2] == head[i + 2]);
                    assert(base.subrange(i, i + 4) =~= "_ob_"@);
                    assert(text::occurs_at(base, "_ob_"@, i));
                }
            }
        } else if tail == "ob"@ && numbers > 0 {
            assert(tail.len() == 2 && tail[0] == 'o' && tail[1] == 'b');
            assert(base[k] == tail[0] && base[k + 1] == tail[1]);
            assert(base.skip(base.len() - 3) =~= "_ob"@);
        }
    }
}

/// The configuration with other open beams lies beside the one it comes from,
/// and is named after it and the runs of its open beams.
pub proof fn derived_configurations_lie_beside_theirs(
    dir: Text,
    stem: Text,
    ext: Text,
    runs: Seq<u64>,
)
    requires
        stem.len() > 0,
        text::all_in(ext, Class::Not('.')),
        paths::plain_name(stem + seq!['.'] + ext),
        stem + seq!['.'] + ext != seq!['.', '.'],
        !text::has(stem, "_ob_"@),
    ensures
        beams::derived_path(paths::below(dir, stem + seq!['.'] + ext), runs) == paths::below(
            paths::tidy(dir),
            beams::with_beams(stem, runs) + ".h5"@,
        ),
{
    let name = stem + seq!['.'] + ext;
    paths::file_name_of_below(dir, name);
    paths::parent_of_below(dir, name);
    let d = stem.len() as int + 1;
    assert(name.subrange(d, name.len() as int) =~= ext);
    assert(name[d - 1] == '.');
    text::run_start_is(name, Class::Not('.'), d, name.len() as int);
    assert(name.take(d - 1) =~= stem);
    stems_without_open_beams_are_kept(stem);
}

/// A switch to other open beams writes its configuration beside the selected
/// one, under a name of its own, and names the runs of all its open beams in
/// order.
pub proof fn switches_name_all_their_open_beams(
    config: Option<Text>,
    folders: Seq<Text>,
    complete: Seq<bool>,
)
    requires
        complete.len() == folders.len(),
    ensures
        beams::switched(config, folders, complete) is Ok <==> {
            &&& config is Some
            &&& folders.len() > 0
            &&& forall|i: int| 0 <= i < complete.len() ==> #[trigger] complete[i]
            &&& beams::beam_runs(folders).len() > 0
        },
        beams::switched(config, folders, complete) matches Ok((dst, run_spec)) ==> {
            &&& dst == beams::derived_path(config->0, beams::beam_runs(folders))
            &&& run_spec == text::joined(number::decimals(beams::beam_runs(folders)), ", "@)
        },
{
    switches_need_complete_open_beams(config, folders, complete);
}

/// A configuration with other open beams has their runs in its name, in
/// order.
pub proof fn derived_names_carry_their_runs(base: Text, runs: Seq<u64>, run: u64)
    ensures
        beams::with_beams(base, seq![run]) == base + "_ob_"@ + number::decimal(run as nat),
        beams::with_beams(base, runs.push(run)) == beams::with_beams(base, runs) + "_"@
            + number::decimal(run as nat),
{
    reveal_strlit("_ob");
    reveal_strlit("_");
    reveal_strlit("_ob_");
    assert(runs.push(run).drop_last() =~= runs);
    let none = Seq::<u64>::empty();
    assert(seq![run].drop_last() =~= none);
    assert(beams::with_beams(base, none) == base + "_ob"@);
    assert("_ob_"@ =~= "_ob"@ + "_"@);
    let d = number::decimal(run as nat);
    assert(base + "_ob"@ + "_"@ + d =~= base + "_ob_"@ + d);
}

/// At first nothing is selected, nothing is in force and no run has anything
/// of its own.
pub proof fn nothing_is_chosen_at_first(run: u64, ipts: Text)
    ensures
        settings::config_for(settings::no_plan(), run) is None,
        settings::obs_in_force(settings::no_plan(), run).len() == 0,
        settings::output_in_force(settings::no_plan(), run, ipts) is None,
        settings::no_plan().in_force is None,
{
}

} // verus!
