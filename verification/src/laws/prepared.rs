//! What the prepared jobs hold.

use vstd::prelude::*;
use crate::h5::Info;
use crate::laws::lists;
use crate::norm::{Job, JobTarget};
use crate::text::{Class, Text};
use crate::{files, h5, norm, number, paths, series, text};

verus! {

// ---------------------------------------------------------------------
// The numbers of images

/// The number of images of a folder is the one counted for it: that of the
/// first entry under its path, and none for a folder that was not counted.
pub proof fn images_are_counted_by_folder(
    images: Seq<(String, usize)>,
    folder: Text,
    i: int,
    k: int,
)
    requires
        0 <= i,
    ensures
        i <= k < images.len() && images[k].0@ == folder && (forall|j: int|
            i <= j < k ==> (#[trigger] images[j]).0@ != folder) ==> norm::images_in(
            images,
            folder,
            i,
        ) == images[k].1,
        (forall|j: int| i <= j < images.len() ==> (#[trigger] images[j]).0@ != folder)
            ==> norm::images_in(images, folder, i) == 0,
    decreases images.len() - i,
{
    if i < images.len() {
        images_are_counted_by_folder(images, folder, i + 1, k);
        if i <= k < images.len() && images[k].0@ == folder && (forall|j: int|
            i <= j < k ==> (#[trigger] images[j]).0@ != folder) {
            if i < k {
                assert(images[i].0@ != folder);
            }
        }
        if forall|j: int| i <= j < images.len() ==> (#[trigger] images[j]).0@ != folder {
            assert(images[i].0@ != folder);
        }
    }
}

/// The check of the numbers of images passes only when any two inputs,
/// samples or open beams, have equally many, and it does pass then: one input
/// with more or with fewer images than another is always refused.
pub proof fn inputs_have_equally_many_images(
    samples: Seq<(Text, Text)>,
    obs: Seq<(Text, Text)>,
    images: Seq<(String, usize)>,
)
    ensures
        norm::same_images(samples, obs, images) ==> forall|i: int, j: int|
            0 <= i < (samples + obs).len() && 0 <= j < (samples + obs).len() ==> norm::images_in(
                images,
                (#[trigger] (samples + obs)[i]).0,
                0,
            ) == norm::images_in(images, (#[trigger] (samples + obs)[j]).0, 0),
        samples.len() > 0 && (forall|i: int, j: int|
            0 <= i < (samples + obs).len() && 0 <= j < (samples + obs).len() ==> norm::images_in(
                images,
                (#[trigger] (samples + obs)[i]).0,
                0,
            ) == norm::images_in(images, (#[trigger] (samples + obs)[j]).0, 0))
            ==> norm::same_images(samples, obs, images),
{
    let all = samples + obs;
    if norm::same_images(samples, obs, images) {
        let first = if samples.len() > 0 {
            norm::images_in(images, samples[0].0, 0)
        } else {
            0
        };
        assert forall|i: int| 0 <= i < all.len() implies norm::images_in(
            images,
            (#[trigger] all[i]).0,
            0,
        ) == first by {
            if i < samples.len() {
                assert(all[i] == samples[i]);
            } else {
                assert(all[i] == obs[i - samples.len()]);
            }
        }
    }
    if samples.len() > 0 && (forall|i: int, j: int|
        0 <= i < all.len() && 0 <= j < all.len() ==> norm::images_in(
            images,
            (#[trigger] all[i]).0,
            0,
        ) == norm::images_in(images, (#[trigger] all[j]).0, 0)) {
        assert(all[0] == samples[0]);
        assert forall|i: int| 0 <= i < samples.len() implies norm::images_in(
            images,
            #[trigger] samples[i].0,
            0,
        ) == norm::images_in(images, samples[0].0, 0) by {
            assert(all[i] == samples[i]);
        }
        assert forall|i: int| 0 <= i < obs.len() implies norm::images_in(
            images,
            #[trigger] obs[i].0,
            0,
        ) == norm::images_in(images, samples[0].0, 0) by {
            assert(all[samples.len() + i] == obs[i]);
        }
    }
}

// ---------------------------------------------------------------------
// The open beams

proof fn lemma_beams(ipts: Text, folders: Seq<Text>)
    ensures
        norm::ob_inputs(ipts, folders) matches Ok(obs) ==> obs.len() == folders.len() && forall|
            i: int,
        |
            0 <= i < folders.len() ==> norm::ob_input(ipts, folders[i]) == Ok::<(Text, Text), Text>(
                #[trigger] obs[i],
            ),
        norm::ob_inputs(ipts, folders) is Err ==> exists|i: int|
            0 <= i < folders.len() && files::run_in_name(
                paths::name_of(#[trigger] folders[i]),
            ) is None,
    decreases folders.len(),
{
    if folders.len() > 0 {
        let rest = folders.drop_last();
        lemma_beams(ipts, rest);
        match norm::ob_inputs(ipts, rest) {
            Ok(before) => {
                match norm::ob_input(ipts, folders.last()) {
                    Ok(input) => {
                        let obs = before.push(input);
                        assert forall|i: int| 0 <= i < folders.len() implies norm::ob_input(
                            ipts,
                            folders[i],
                        ) == Ok::<(Text, Text), Text>(#[trigger] obs[i]) by {
                            if i < rest.len() {
                                assert(before[i] == obs[i]);
                                assert(rest[i] == folders[i]);
                            }
                        }
                    },
                    Err(_) => {
                        assert(files::run_in_name(paths::name_of(folders[folders.len() - 1]))
                            is None);
                    },
                }
            },
            Err(_) => {
                let i = choose|i: int|
                    0 <= i < rest.len() && files::run_in_name(
                        paths::name_of(#[trigger] rest[i]),
                    ) is None;
                assert(folders[i] == rest[i]);
            },
        }
    }
}

/// The open beams of a job are the configuration's folders, all of them and
/// in order, each with the NeXus file of the run its folder is named after;
/// a configuration without open beams, or with a folder that carries no run
/// number, gives none at all.
pub proof fn open_beams_are_those_of_the_configuration(ipts: Text, folders: Seq<Text>)
    ensures
        norm::resolved(ipts, folders) is Ok <==> folders.len() > 0 && forall|i: int|
            0 <= i < folders.len() ==> files::run_in_name(
                paths::name_of(#[trigger] folders[i]),
            ) is Some,
        norm::resolved(ipts, folders) matches Ok(obs) ==> obs.len() == folders.len() && forall|
            i: int,
        |
            0 <= i < folders.len() ==> {
                &&& (#[trigger] obs[i]).0 == folders[i]
                &&& obs[i].1 == files::nexus_file(
                    norm::ob_ipts(paths::components(folders[i]), 0, ipts),
                    files::run_in_name(paths::name_of(folders[i]))->0,
                )
            },
{
    lemma_beams(ipts, folders);
    match norm::resolved(ipts, folders) {
        Ok(obs) => {
            assert forall|i: int| 0 <= i < folders.len() implies files::run_in_name(
                paths::name_of(#[trigger] folders[i]),
            ) is Some by {
                assert(norm::ob_input(ipts, folders[i]) == Ok::<(Text, Text), Text>(obs[i]));
            }
        },
        Err(_) => {},
    }
}

/// The proposal of an open beam is the first part of its folder's path that
/// begins with `IPTS-`, and the job's own proposal when there is none.
pub proof fn open_beams_lie_in_their_proposal(parts: Seq<Text>, i: int, ipts: Text, k: int)
    requires
        0 <= i,
    ensures
        i <= k < parts.len() && text::begins(parts[k], "IPTS-"@) && (forall|j: int|
            i <= j < k ==> !text::begins(#[trigger] parts[j], "IPTS-"@)) ==> norm::ob_ipts(
            parts,
            i,
            ipts,
        ) == paths::below("/SNS/VENUS"@, parts[k]),
        (forall|j: int| i <= j < parts.len() ==> !text::begins(#[trigger] parts[j], "IPTS-"@))
            ==> norm::ob_ipts(parts, i, ipts) == ipts,
    decreases parts.len() - i,
{
    if i < parts.len() {
        open_beams_lie_in_their_proposal(parts, i + 1, ipts, k);
        if i <= k < parts.len() && text::begins(parts[k], "IPTS-"@) && (forall|j: int|
            i <= j < k ==> !text::begins(#[trigger] parts[j], "IPTS-"@)) {
            if i < k {
                assert(!text::begins(parts[i], "IPTS-"@));
            }
        }
        if forall|j: int| i <= j < parts.len() ==> !text::begins(#[trigger] parts[j], "IPTS-"@) {
            assert(!text::begins(parts[i], "IPTS-"@));
        }
    }
}

// ---------------------------------------------------------------------
// The jobs

/// Does a job crop its inputs as the configuration says, and not otherwise?
pub open spec fn crops_as_configured(job: Job, info: Info) -> bool {
    match (job.crop, info.crop_region) {
        (Some((region, _)), Some((x0, y0, x1, y1))) => {
            &&& region.0 == x0
            &&& region.1 == y0
            &&& region.2 == x1
            &&& region.3 == y1
        },
        (None, None) => true,
        _ => false,
    }
}

/// Does a job take the configuration's open beams, settings and crop, and do
/// all its inputs have equally many images?
pub open spec fn follows_the_configuration(
    job: Job,
    config: Text,
    info: Info,
    images: Seq<(String, usize)>,
) -> bool {
    &&& job.config == config
    &&& job.parameters == info.parameters
    &&& job.obs.len() == info.ob_folders.len()
    &&& job.obs.len() > 0
    &&& forall|i: int|
        0 <= i < job.obs.len() ==> (#[trigger] job.obs[i]).0 == info.ob_folders[i]
    &&& forall|i: int, j: int|
        0 <= i < job.samples.len() && 0 <= j < job.obs.len() ==> norm::images_in(
            images,
            (#[trigger] job.samples[i]).0,
            0,
        ) == norm::images_in(images, (#[trigger] job.obs[j]).0, 0)
    &&& forall|i: int, j: int|
        0 <= i < job.samples.len() && 0 <= j < job.samples.len() ==> norm::images_in(
            images,
            (#[trigger] job.samples[i]).0,
            0,
        ) == norm::images_in(images, (#[trigger] job.samples[j]).0, 0)
}

/// The job of a run normalizes that run and no other: its one sample is the
/// run's corrected folder with the run's NeXus file. It follows the
/// configuration in everything else, and crops as the configuration says.
pub proof fn run_jobs_normalize_their_run(
    run: u64,
    corrected: Text,
    ipts: Text,
    config: Text,
    info: Info,
    images: Seq<(String, usize)>,
    fresh_done: bool,
    legacy_done: bool,
)
    requires
        norm::run_plan(run, corrected, ipts, config, info, images, fresh_done, legacy_done) is Ok,
    ensures
        ({
            let job = norm::run_plan(
                run,
                corrected,
                ipts,
                config,
                info,
                images,
                fresh_done,
                legacy_done,
            )->Ok_0;
            &&& job.target == JobTarget::Run(run)
            &&& job.runs == seq![run]
            &&& job.samples == seq![(corrected, files::nexus_file(ipts, run))]
            &&& job.what == "Run "@ + number::decimal(run as nat)
            &&& follows_the_configuration(job, config, info, images)
            &&& crops_as_configured(job, info)
        }),
{
    open_beams_are_those_of_the_configuration(ipts, info.ob_folders);
}

/// The job of a window normalizes every run of the window, in order, each
/// from its complete corrected folder with its own NeXus file, and follows
/// the configuration.
pub proof fn window_jobs_normalize_their_runs(
    index: usize,
    runs: Seq<u64>,
    minutes: u32,
    ipts: Text,
    config: Text,
    info: Info,
    seen: files::Seen,
    images: Seq<(String, usize)>,
)
    requires
        norm::window_plan(index, runs, minutes, ipts, config, info, seen, images) is Ok,
    ensures
        ({
            let job = norm::window_plan(
                index,
                runs,
                minutes,
                ipts,
                config,
                info,
                seen,
                images,
            )->Ok_0;
            &&& job.target == JobTarget::Window(index)
            &&& job.runs == runs
            &&& runs.len() > 0
            &&& job.samples.len() == runs.len()
            &&& forall|i: int|
                0 <= i < runs.len() ==> {
                    &&& files::run_status(ipts, runs[i], seen).corrected
                        == files::FileStatus::Present((#[trigger] job.samples[i]).0)
                    &&& job.samples[i].1 == files::nexus_file(ipts, runs[i])
                }
            &&& follows_the_configuration(job, config, info, images)
            &&& crops_as_configured(job, info)
        }),
{
    open_beams_are_those_of_the_configuration(ipts, info.ob_folders);
    let job = norm::window_plan(index, runs, minutes, ipts, config, info, seen, images)->Ok_0;
    assert forall|i: int| 0 <= i < runs.len() implies files::run_status(
        ipts,
        runs[i],
        seen,
    ).corrected == files::FileStatus::Present((#[trigger] job.samples[i]).0) && job.samples[i].1
        == files::nexus_file(ipts, runs[i]) by {
        norm::windows_are_normalized_whole(
            index,
            runs,
            minutes,
            ipts,
            config,
            info,
            seen,
            images,
            i,
        );
    }
    norm::windows_are_normalized_whole(index, runs, minutes, ipts, config, info, seen, images, 0);
}

/// A combined job has as many samples as members: sample i is the corrected
/// folder of member i with the NeXus file of member i's run. It is the job of
/// the last member, and follows the configuration.
pub proof fn combined_jobs_normalize_every_member(
    members: Seq<(u64, Text)>,
    ipts: Text,
    config: Text,
    info: Info,
    images: Seq<(String, usize)>,
)
    requires
        series::combined_plan(members, ipts, config, info, images) is Ok,
    ensures
        ({
            let job = series::combined_plan(members, ipts, config, info, images)->Ok_0;
            &&& job.samples.len() == members.len()
            &&& job.runs.len() == members.len()
            &&& forall|i: int|
                0 <= i < members.len() ==> {
                    &&& (#[trigger] job.samples[i]).0 == members[i].1
                    &&& job.samples[i].1 == files::nexus_file(ipts, members[i].0)
                    &&& job.runs[i] == members[i].0
                }
            &&& members.len() > 0 ==> job.target == JobTarget::Run(members[members.len() - 1].0)
            &&& follows_the_configuration(job, config, info, images)
            &&& crops_as_configured(job, info)
        }),
{
    open_beams_are_those_of_the_configuration(ipts, info.ob_folders);
}

/// No job is prepared from inputs with different numbers of images: a sample
/// that has more, or fewer, than an open beam of the configuration or than
/// another sample is refused.
pub proof fn unequal_inputs_are_refused(
    run: u64,
    corrected: Text,
    members: Seq<(u64, Text)>,
    ipts: Text,
    config: Text,
    info: Info,
    images: Seq<(String, usize)>,
    fresh_done: bool,
    legacy_done: bool,
    i: int,
    j: int,
)
    requires
        0 <= j < info.ob_folders.len(),
    ensures
        norm::images_in(images, corrected, 0) != norm::images_in(images, info.ob_folders[j], 0)
            ==> norm::run_plan(
            run,
            corrected,
            ipts,
            config,
            info,
            images,
            fresh_done,
            legacy_done,
        ) is Err,
        0 <= i < members.len() && norm::images_in(images, members[i].1, 0) != norm::images_in(
            images,
            info.ob_folders[j],
            0,
        ) ==> series::combined_plan(members, ipts, config, info, images) is Err,
        0 <= i < members.len() && norm::images_in(images, members[i].1, 0) != norm::images_in(
            images,
            members[0].1,
            0,
        ) ==> series::combined_plan(members, ipts, config, info, images) is Err,
{
    if norm::run_plan(run, corrected, ipts, config, info, images, fresh_done, legacy_done) is Ok {
        run_jobs_normalize_their_run(
            run,
            corrected,
            ipts,
            config,
            info,
            images,
            fresh_done,
            legacy_done,
        );
        let job = norm::run_plan(
            run,
            corrected,
            ipts,
            config,
            info,
            images,
            fresh_done,
            legacy_done,
        )->Ok_0;
        assert(job.samples[0].0 == corrected);
        assert(job.obs[j].0 == info.ob_folders[j]);
    }
    if series::combined_plan(members, ipts, config, info, images) is Ok && 0 <= i < members.len() {
        combined_jobs_normalize_every_member(members, ipts, config, info, images);
        let job = series::combined_plan(members, ipts, config, info, images)->Ok_0;
        assert(job.samples[i].0 == members[i].1);
        assert(job.samples[0].0 == members[0].1);
        assert(job.obs[j].0 == info.ob_folders[j]);
    }
}

/// A job is prepared whenever the configuration names open beams, each of
/// which carries a run number, and all the inputs have equally many images.
pub proof fn matching_inputs_are_prepared(
    run: u64,
    corrected: Text,
    members: Seq<(u64, Text)>,
    ipts: Text,
    config: Text,
    info: Info,
    images: Seq<(String, usize)>,
    fresh_done: bool,
    legacy_done: bool,
    count: nat,
)
    requires
        info.ob_folders.len() > 0,
        forall|i: int|
            0 <= i < info.ob_folders.len() ==> files::run_in_name(
                paths::name_of(#[trigger] info.ob_folders[i]),
            ) is Some,
        forall|i: int|
            0 <= i < info.ob_folders.len() ==> norm::images_in(
                images,
                #[trigger] info.ob_folders[i],
                0,
            ) == count,
    ensures
        norm::images_in(images, corrected, 0) == count ==> norm::run_plan(
            run,
            corrected,
            ipts,
            config,
            info,
            images,
            fresh_done,
            legacy_done,
        ) is Ok,
        members.len() > 0 && (forall|i: int|
            0 <= i < members.len() ==> norm::images_in(images, (#[trigger] members[i]).1, 0)
                == count) ==> series::combined_plan(members, ipts, config, info, images) is Ok,
{
    open_beams_are_those_of_the_configuration(ipts, info.ob_folders);
    let obs = norm::resolved(ipts, info.ob_folders)->Ok_0;
    assert forall|i: int| 0 <= i < obs.len() implies norm::images_in(images, #[trigger] obs[i].0, 0)
        == count by {
        assert(obs[i].0 == info.ob_folders[i]);
    }
    if members.len() > 0 && (forall|i: int|
        0 <= i < members.len() ==> norm::images_in(images, (#[trigger] members[i]).1, 0)
            == count) {
        let samples = series::member_inputs(ipts, members);
        assert forall|i: int| 0 <= i < samples.len() implies norm::images_in(
            images,
            #[trigger] samples[i].0,
            0,
        ) == count by {
            assert(samples[i].0 == members[i].1);
        }
    }
}

// ---------------------------------------------------------------------
// Where the results go

/// A run's result goes to a folder `normalization` in the run's row, its log
/// to `logs` in the same row, and the summary next to the rows: the row lies
/// in the notebook's output folder, or in the proposal's own folder for
/// normalized data when the notebook names none. The row is named after the
/// corrected folder, unless a finished result is only under the run's number.
pub proof fn results_lie_in_the_row_of_their_run(
    run: u64,
    dir: Text,
    name: Text,
    ipts: Text,
    config: Text,
    info: Info,
    images: Seq<(String, usize)>,
    fresh_done: bool,
    legacy_done: bool,
)
    requires
        paths::plain_name(name),
        name != seq!['.', '.'],
        norm::run_plan(
            run,
            paths::below(dir, name),
            ipts,
            config,
            info,
            images,
            fresh_done,
            legacy_done,
        ) is Ok,
    ensures
        ({
            let job = norm::run_plan(
                run,
                paths::below(dir, name),
                ipts,
                config,
                info,
                images,
                fresh_done,
                legacy_done,
            )->Ok_0;
            let base = match info.output_folder {
                Some(folder) => folder,
                None => paths::below(ipts, "shared/autoreduce/normalized"@),
            };
            let legacy = "Run_"@ + number::decimal(run as nat);
            let row = paths::below(
                base,
                if !fresh_done && legacy_done && name != legacy {
                    legacy
                } else {
                    name
                },
            );
            &&& job.output == paths::below(row, "normalization"@)
            &&& job.log == paths::below(paths::below(row, "logs"@), "normalization.log"@)
            &&& job.summary == paths::below(paths::tidy(base), "autoreduction.log"@)
            &&& job.crop matches Some((region, parent)) ==> parent == norm::crop_folder(
                paths::tidy(base),
                region,
            )
        }),
{
    let corrected = paths::below(dir, name);
    let base = norm::base_of(ipts, info.output_folder);
    paths::file_name_of_below(dir, name);
    norm::results_lie_under_the_base(base, run, Some(corrected));
}

proof fn lemma_digits_apart(a: Text, s: Text, b: Text, t: Text)
    requires
        text::all_in(a, Class::Digit),
        text::all_in(b, Class::Digit),
        s.len() > 0 ==> !text::is_digit(s[0]),
        t.len() > 0 ==> !text::is_digit(t[0]),
        a + s == b + t,
    ensures
        a == b,
        s == t,
{
    let w = a + s;
    assert(w.subrange(0, a.len() as int) =~= a);
    text::run_end_is(w, Class::Digit, 0, a.len() as int);
    assert((b + t).subrange(0, b.len() as int) =~= b);
    text::run_end_is(b + t, Class::Digit, 0, b.len() as int);
    assert(a =~= w.take(a.len() as int));
    assert(b =~= (b + t).take(b.len() as int));
    assert(s =~= w.skip(a.len() as int));
    assert(t =~= (b + t).skip(b.len() as int));
}

proof fn lemma_peeled(word: Text, a: nat, s: Text, b: nat, t: Text)
    requires
        s.len() > 0 ==> !text::is_digit(s[0]),
        t.len() > 0 ==> !text::is_digit(t[0]),
        word + (number::decimal(a) + s) == word + (number::decimal(b) + t),
    ensures
        a == b,
        s == t,
{
    let x = number::decimal(a) + s;
    let y = number::decimal(b) + t;
    assert(x =~= (word + x).skip(word.len() as int));
    assert(y =~= (word + y).skip(word.len() as int));
    number::lemma_decimal(a);
    number::lemma_decimal(b);
    lemma_digits_apart(number::decimal(a), s, number::decimal(b), t);
}

/// The name of a folder of cropped copies, read from its end.
spec fn crop_name(r: h5::Region) -> Text {
    "cropped_x0"@ + (number::decimal(r.0 as nat) + ("_y0"@ + (number::decimal(r.1 as nat) + ("_x1"@
        + (number::decimal(r.2 as nat) + ("_y1"@ + (number::decimal(r.3 as nat) + Seq::<
        char,
    >::empty())))))))
}

proof fn lemma_crop_name(base: Text, r: h5::Region)
    ensures
        norm::crop_folder(base, r) == paths::below(base, crop_name(r)),
        crop_name(r).len() > 0,
        crop_name(r)[0] == 'c',
{
    reveal_strlit("cropped_x0");
    assert(crop_name(r) =~= "cropped_x0"@ + number::decimal(r.0 as nat) + "_y0"@ + number::decimal(
        r.1 as nat,
    ) + "_x1"@ + number::decimal(r.2 as nat) + "_y1"@ + number::decimal(r.3 as nat));
}

/// Cropped copies of different regions never share a folder.
pub proof fn crops_lie_apart(base: Text, a: h5::Region, b: h5::Region)
    requires
        norm::crop_folder(base, a) == norm::crop_folder(base, b),
    ensures
        a == b,
{
    lemma_crop_name(base, a);
    lemma_crop_name(base, b);
    let na = crop_name(a);
    let nb = crop_name(b);
    assert(na == nb) by {
        let f = paths::below(base, na);
        assert(f.skip(f.len() - na.len()) =~= na);
        assert(f.skip(f.len() - nb.len()) =~= nb);
        assert(na.len() == nb.len());
    }
    reveal_strlit("_y0");
    reveal_strlit("_x1");
    reveal_strlit("_y1");
    let none = Seq::<char>::empty();
    let a3 = "_y1"@ + (number::decimal(a.3 as nat) + none);
    let b3 = "_y1"@ + (number::decimal(b.3 as nat) + none);
    let a2 = "_x1"@ + (number::decimal(a.2 as nat) + a3);
    let b2 = "_x1"@ + (number::decimal(b.2 as nat) + b3);
    let a1 = "_y0"@ + (number::decimal(a.1 as nat) + a2);
    let b1 = "_y0"@ + (number::decimal(b.1 as nat) + b2);
    lemma_peeled("cropped_x0"@, a.0 as nat, a1, b.0 as nat, b1);
    lemma_peeled("_y0"@, a.1 as nat, a2, b.1 as nat, b2);
    lemma_peeled("_x1"@, a.2 as nat, a3, b.2 as nat, b3);
    lemma_peeled("_y1"@, a.3 as nat, none, b.3 as nat, none);
}

/// Windows of different lengths, or anchored at different runs, never share
/// a result folder.
pub proof fn windows_lie_apart(ipts: Text, run: u64, minutes: u32, run2: u64, minutes2: u32)
    requires
        norm::window_output(ipts, run, minutes) == norm::window_output(ipts, run2, minutes2),
    ensures
        run == run2,
        minutes == minutes2,
{
    let head = "shared/autoreduce/normalized/rolling/anchor_"@;
    let ta = "/last_"@ + (number::decimal(minutes as nat) + "min"@);
    let tb = "/last_"@ + (number::decimal(minutes2 as nat) + "min"@);
    let na = head + (number::decimal(run as nat) + ta);
    let nb = head + (number::decimal(run2 as nat) + tb);
    lemma_window_name(ipts, run, minutes);
    lemma_window_name(ipts, run2, minutes2);
    assert(na == nb) by {
        let f = paths::below(ipts, na);
        assert(f.skip(f.len() - na.len()) =~= na);
        assert(f.skip(f.len() - nb.len()) =~= nb);
        assert(na.len() == nb.len());
    }
    reveal_strlit("/last_");
    reveal_strlit("min");
    lemma_peeled(head, run as nat, ta, run2 as nat, tb);
    lemma_peeled("/last_"@, minutes as nat, "min"@, minutes2 as nat, "min"@);
}

proof fn lemma_window_name(ipts: Text, run: u64, minutes: u32)
    ensures
        ({
            let name = "shared/autoreduce/normalized/rolling/anchor_"@ + (number::decimal(
                run as nat,
            ) + ("/last_"@ + (number::decimal(minutes as nat) + "min"@)));
            &&& norm::window_output(ipts, run, minutes) == paths::below(ipts, name)
            &&& name.len() > 0
            &&& name[0] == 's'
        }),
{
    reveal_strlit("shared/autoreduce/normalized/rolling/anchor_");
    let head = "shared/autoreduce/normalized/rolling/anchor_"@;
    let d = number::decimal(run as nat);
    let m = number::decimal(minutes as nat);
    assert(head + d + "/last_"@ + m + "min"@ =~= head + (d + ("/last_"@ + (m + "min"@))));
}

/// A window's result goes to a folder of its length in the folder of its
/// highest run, its log beside it, and the summary next to the windows; what
/// it normalizes is told with all its runs.
pub proof fn window_results_lie_under_their_anchor(
    index: usize,
    runs: Seq<u64>,
    minutes: u32,
    ipts: Text,
    config: Text,
    info: Info,
    seen: files::Seen,
    images: Seq<(String, usize)>,
)
    requires
        norm::window_plan(index, runs, minutes, ipts, config, info, seen, images) is Ok,
    ensures
        ({
            let job = norm::window_plan(
                index,
                runs,
                minutes,
                ipts,
                config,
                info,
                seen,
                images,
            )->Ok_0;
            let rolling = paths::below(ipts, "shared/autoreduce/normalized/rolling"@);
            let m = number::decimal(minutes as nat);
            &&& exists|anchor: u64|
                runs.contains(anchor) && (forall|i: int|
                    0 <= i < runs.len() ==> runs[i] <= anchor) && #[trigger] norm::window_output(
                    ipts,
                    anchor,
                    minutes,
                ) == job.output
            &&& job.summary == paths::below(rolling, "autoreduction.log"@)
            &&& job.log == paths::below(
                paths::below(paths::parent(job.output)->0, "logs"@),
                "last_"@ + m + "min.log"@,
            )
            &&& job.what == "Runs "@ + text::joined(number::decimals(runs), ", "@) + " (last "@ + m
                + " min window)"@
            &&& job.crop matches Some((region, parent)) ==> parent == norm::crop_folder(
                rolling,
                region,
            )
        }),
{
    norm::highest_is_highest(runs);
    assert(runs.contains(norm::highest(runs)));
}

// ---------------------------------------------------------------------
// Refusals

proof fn lemma_all_present(ipts: Text, statuses: Seq<files::RunFiles<Text>>)
    ensures
        norm::not_ready(statuses).len() == 0 <==> forall|i: int|
            0 <= i < statuses.len() ==> (#[trigger] statuses[i]).corrected is Present,
        forall|i: int|
            0 <= i < statuses.len() && !((#[trigger] statuses[i]).corrected is Present)
                ==> norm::not_ready(statuses).contains(number::decimal(statuses[i].run as nat)),
    decreases statuses.len(),
{
    if statuses.len() > 0 {
        let rest = statuses.drop_last();
        let last = statuses[statuses.len() - 1];
        lemma_all_present(ipts, rest);
        let before = norm::not_ready(rest);
        let all = norm::not_ready(statuses);
        let own = number::decimal(last.run as nat);
        if !(last.corrected is Present) {
            assert(all == before.push(own));
        }
        assert forall|i: int|
            0 <= i < statuses.len() && !((#[trigger] statuses[i]).corrected is Present) implies
            all.contains(number::decimal(statuses[i].run as nat)) by {
            if i < rest.len() {
                assert(rest[i] == statuses[i]);
            }
            if !(last.corrected is Present) {
                lists::pushed_holds(before, own, number::decimal(statuses[i].run as nat));
            }
        }
        if forall|i: int|
            0 <= i < statuses.len() ==> (#[trigger] statuses[i]).corrected is Present {
            assert forall|i: int| 0 <= i < rest.len() implies (#[trigger] rest[i]).corrected
                is Present by {
                assert(rest[i] == statuses[i]);
            }
        }
        if all.len() == 0 {
            assert forall|i: int| 0 <= i < statuses.len() implies (#[trigger] statuses[i]).corrected
                is Present by {
                if i < rest.len() {
                    assert(rest[i] == statuses[i]);
                }
            }
        }
    }
}

/// A window waits for all its runs: without runs, or while the corrected data
/// of one of them is not complete, no job is prepared.
pub proof fn windows_wait_for_every_run(
    index: usize,
    runs: Seq<u64>,
    minutes: u32,
    ipts: Text,
    config: Text,
    info: Info,
    seen: files::Seen,
    images: Seq<(String, usize)>,
    i: int,
)
    requires
        0 <= i < runs.len(),
    ensures
        !(files::run_status(ipts, runs[i], seen).corrected is Present) ==> norm::window_plan(
            index,
            runs,
            minutes,
            ipts,
            config,
            info,
            seen,
            images,
        ) is Err,
        norm::window_plan(
            index,
            Seq::empty(),
            minutes,
            ipts,
            config,
            info,
            seen,
            images,
        ) is Err,
{
    let statuses = runs.map_values(|run: u64| files::run_status(ipts, run, seen));
    lemma_all_present(ipts, statuses);
    assert(statuses[i] == files::run_status(ipts, runs[i], seen));
}

/// A window whose runs all have complete corrected data, with equally many
/// images as the open beams, is prepared.
pub proof fn ready_windows_are_prepared(
    index: usize,
    runs: Seq<u64>,
    minutes: u32,
    ipts: Text,
    config: Text,
    info: Info,
    seen: files::Seen,
    images: Seq<(String, usize)>,
    count: nat,
)
    requires
        runs.len() > 0,
        info.ob_folders.len() > 0,
        forall|i: int|
            0 <= i < info.ob_folders.len() ==> files::run_in_name(
                paths::name_of(#[trigger] info.ob_folders[i]),
            ) is Some,
        forall|i: int|
            0 <= i < info.ob_folders.len() ==> norm::images_in(
                images,
                #[trigger] info.ob_folders[i],
                0,
            ) == count,
        forall|i: int|
            0 <= i < runs.len() ==> (files::run_status(ipts, #[trigger] runs[i], seen).corrected
                matches files::FileStatus::Present(folder) && norm::images_in(images, folder, 0)
                == count),
    ensures
        norm::window_plan(index, runs, minutes, ipts, config, info, seen, images) is Ok,
{
    open_beams_are_those_of_the_configuration(ipts, info.ob_folders);
    let obs = norm::resolved(ipts, info.ob_folders)->Ok_0;
    let statuses = runs.map_values(|run: u64| files::run_status(ipts, run, seen));
    assert forall|i: int| 0 <= i < statuses.len() implies (#[trigger] statuses[i]).corrected
        is Present by {
        assert(statuses[i] == files::run_status(ipts, runs[i], seen));
    }
    lemma_all_present(ipts, statuses);
    let samples = norm::ready(ipts, statuses);
    lemma_ready_counts(ipts, statuses, images, count);
    assert forall|i: int| 0 <= i < obs.len() implies norm::images_in(images, #[trigger] obs[i].0, 0)
        == count by {
        assert(obs[i].0 == info.ob_folders[i]);
    }
    assert(norm::same_images(samples, obs, images));
}

proof fn lemma_ready_counts(
    ipts: Text,
    statuses: Seq<files::RunFiles<Text>>,
    images: Seq<(String, usize)>,
    count: nat,
)
    requires
        forall|i: int|
            0 <= i < statuses.len() ==> ((#[trigger] statuses[i]).corrected
                matches files::FileStatus::Present(folder) && norm::images_in(images, folder, 0)
                == count),
    ensures
        norm::ready(ipts, statuses).len() == statuses.len(),
        forall|i: int|
            0 <= i < norm::ready(ipts, statuses).len() ==> norm::images_in(
                images,
                (#[trigger] norm::ready(ipts, statuses)[i]).0,
                0,
            ) == count,
    decreases statuses.len(),
{
    if statuses.len() > 0 {
        let rest = statuses.drop_last();
        let last = statuses[statuses.len() - 1];
        assert forall|i: int| 0 <= i < rest.len() implies ((#[trigger] rest[i]).corrected
            matches files::FileStatus::Present(folder) && norm::images_in(images, folder, 0)
            == count) by {
            assert(rest[i] == statuses[i]);
        }
        lemma_ready_counts(ipts, rest, images, count);
        assert(last.corrected is Present);
        let before = norm::ready(ipts, rest);
        let all = norm::ready(ipts, statuses);
        assert forall|i: int| 0 <= i < all.len() implies norm::images_in(
            images,
            (#[trigger] all[i]).0,
            0,
        ) == count by {
            if i < before.len() {
                assert(all[i] == before[i]);
            }
        }
    }
}

/// An input is described by its run and the number of its images.
pub proof fn inputs_are_described_by_their_images(
    folder: Text,
    images: Seq<(String, usize)>,
    inputs: Seq<(Text, Text)>,
    i: int,
)
    ensures
        files::run_in_name(paths::name_of(folder)) matches Some(run) ==> norm::described(
            folder,
            images,
        ) == "run "@ + number::decimal(run as nat) + ": "@ + number::decimal(
            norm::images_in(images, folder, 0),
        ) + " images"@,
        norm::described_all(inputs, images).len() == inputs.len(),
        0 <= i < inputs.len() ==> norm::described_all(inputs, images)[i] == norm::described(
            inputs[i].0,
            images,
        ),
{
}

/// The folder of cropped copies is named after its region, corner by corner.
pub proof fn crop_folders_name_their_region(
    base: Text,
    x0: usize,
    y0: usize,
    x1: usize,
    y1: usize,
)
    ensures
        norm::crop_folder(base, (x0, y0, x1, y1)) == paths::below(
            base,
            "cropped_x0"@ + number::decimal(x0 as nat) + "_y0"@ + number::decimal(y0 as nat)
                + "_x1"@ + number::decimal(x1 as nat) + "_y1"@ + number::decimal(y1 as nat),
        ),
{
}

/// The result of a window lies in the folder of its anchor, under its
/// minutes.
pub proof fn window_folders_name_their_anchor(ipts: Text, anchor: u64, minutes: u32)
    ensures
        norm::window_output(ipts, anchor, minutes) == paths::below(
            ipts,
            "shared/autoreduce/normalized/rolling/anchor_"@ + number::decimal(anchor as nat)
                + "/last_"@ + number::decimal(minutes as nat) + "min"@,
        ),
{
}

// ---------------------------------------------------------------------
// Looking results up

/// A result is looked for where its job would put it: the place planned for a
/// run is the output of the job prepared for it, and so is that of a series.
pub proof fn results_are_looked_for_where_jobs_put_them(
    run: u64,
    corrected: Text,
    members: Seq<(u64, Text)>,
    ipts: Text,
    config: Text,
    info: Info,
    images: Seq<(String, usize)>,
    fresh_done: bool,
    legacy_done: bool,
)
    ensures
        norm::run_plan(
            run,
            corrected,
            ipts,
            config,
            info,
            images,
            fresh_done,
            legacy_done,
        ) matches Ok(job) ==> job.output == norm::run_output(
            norm::base_of(ipts, info.output_folder),
            run,
            Some(corrected),
            fresh_done,
            legacy_done,
        ),
        series::combined_plan(members, ipts, config, info, images) matches Ok(job) ==> job.output
            == series::combined_output(norm::base_of(ipts, info.output_folder), members),
        info.output_folder matches Some(folder) ==> norm::base_of(ipts, info.output_folder)
            == folder,
{
}

} // verus!
