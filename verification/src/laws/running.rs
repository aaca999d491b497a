//! What a running job does, hears and writes down.

use vstd::prelude::*;
use crate::clock::LocalTime;
use crate::h5::Region;
use crate::job::Ending;
use crate::laws::lists;
use crate::norm::Job;
use crate::runner::{Act, Happening, Running, Step, Told};
use crate::runner::{Action, Event};
use crate::text::{Class, Text};
use crate::{clock, job, norm, number, paths, runner, text};

verus! {

// ---------------------------------------------------------------------
// The steps of a job

/// A job crops only inputs of its own, one after the other, samples before
/// open beams, each with the region of the configuration and into its folder
/// for cropped copies; a job without a crop region crops nothing.
pub proof fn crops_are_of_the_inputs(job: Job, clock: Text, s: Running, e: Happening)
    requires
        s.step is Cropping ==> s.step->at >= 0,
    ensures
        ({
            let turn = runner::advance(job, clock, s, e);
            let after = turn.state;
            turn.action is Crop ==> {
                &&& job.crop == Some((turn.action->region, turn.action->parent))
                &&& after.step is Cropping
                &&& after.step->beams ==> after.step->at < after.obs.len() && turn.action->folder
                    == after.obs[after.step->at].0
                &&& !after.step->beams ==> after.step->at < after.samples.len()
                    && turn.action->folder == after.samples[after.step->at].0
            }
        }),
        job.crop is None ==> !(runner::advance(job, clock, s, e).action is Crop),
{
}

/// A cropped copy takes the place of the folder it was made of, with the
/// same NeXus file; the other inputs stay.
pub proof fn copies_take_the_place_of_their_folder(
    job: Job,
    clock: Text,
    s: Running,
    beams: bool,
    at: int,
    folder: Text,
    i: int,
)
    requires
        s.step == (Step::<int>::Cropping { beams, at }),
        0 <= at < (if beams {
            s.obs.len()
        } else {
            s.samples.len()
        }),
    ensures
        ({
            let after = runner::advance(job, clock, s, Event::Cropped(folder)).state;
            &&& after.samples.len() == s.samples.len()
            &&& after.obs.len() == s.obs.len()
            &&& beams ==> after.obs[at] == (folder, s.obs[at].1) && after.samples == s.samples
            &&& !beams ==> after.samples[at] == (folder, s.samples[at].1) && after.obs == s.obs
            &&& 0 <= i < s.obs.len() && (i != at || !beams) ==> after.obs[i] == s.obs[i]
            &&& 0 <= i < s.samples.len() && (i != at || beams) ==> after.samples[i] == s.samples[i]
        }),
{
}

/// After a crop the next input is taken up: the next of its kind, then the
/// first open beam, and only then is the result staged.
pub proof fn every_input_is_cropped_in_turn(
    job: Job,
    clock: Text,
    s: Running,
    beams: bool,
    at: int,
    folder: Text,
)
    requires
        job.crop is Some,
        s.step == (Step::<int>::Cropping { beams, at }),
        0 <= at < (if beams {
            s.obs.len()
        } else {
            s.samples.len()
        }),
    ensures
        ({
            let after = runner::advance(job, clock, s, Event::Cropped(folder));
            &&& !beams && at + 1 < s.samples.len() ==> after.state.step == (Step::<int>::Cropping {
                beams: false,
                at: at + 1,
            })
            &&& !beams && at + 1 >= s.samples.len() && s.obs.len() > 0 ==> after.state.step == (
            Step::<int>::Cropping { beams: true, at: 0 })
            &&& beams && at + 1 < s.obs.len() ==> after.state.step == (Step::<int>::Cropping {
                beams: true,
                at: at + 1,
            })
            &&& beams && at + 1 >= s.obs.len() ==> after.action == Act::Stage(
                job::partial_of(job.output),
            )
        }),
{
}

/// The result is computed in the staging folder, by the command of the job's
/// configuration and inputs, and moved to the output folder only from there;
/// an earlier folder there is cleared only when it holds no result.
pub proof fn results_are_moved_from_the_staging_folder(
    job: Job,
    clock: Text,
    s: Running,
    e: Happening,
)
    ensures
        runner::advance(job, clock, s, e).action matches Action::Launch(command) ==> command
            == job::command(job.config, job.output, s.samples, s.obs),
        runner::advance(job, clock, s, e).action matches Action::Stage(folder) ==> folder
            == job::partial_of(job.output),
        runner::advance(job, clock, s, e).action matches Action::Promote { clear, from, to } ==> {
            &&& from == job::partial_of(job.output)
            &&& to == job.output
            &&& e matches Event::Seen { exists, names } && (clear <==> exists && !norm::done(names))
        },
        runner::advance(job, clock, s, e).action matches Action::Done { output, .. } ==> output
            == job.output,
{
}

/// A step that fails ends the job with the reason: a crop that failed, a
/// staging folder that cannot be made, a script that cannot be launched.
pub proof fn failures_end_the_job(job: Job, clock: Text, s: Running, message: Text)
    ensures
        s.step is Cropping ==> runner::advance(job, clock, s, Event::NotCropped(message)).action
            == (Act::Failed { message }),
        s.step is Staging ==> runner::advance(
            job,
            clock,
            s,
            Event::Staged(Some(message)),
        ).action is Failed,
        s.step is Launching ==> runner::advance(
            job,
            clock,
            s,
            Event::Launched(Some(message)),
        ).action is Failed,
        s.step is Listening ==> runner::advance(job, clock, s, Event::Lost(message)).action
            is Failed,
        s.step is Promoting ==> runner::advance(
            job,
            clock,
            s,
            Event::Promoted(Some(message)),
        ).action is Failed,
        s.step is Promoting ==> runner::advance(job, clock, s, Event::Promoted(None)).action == (
        Act::Done { output: job.output, skipped: false }),
{
}

proof fn lemma_with_ext(base: Text, name: Text, ext: Text)
    requires
        paths::plain_name(name),
        text::all_in(name, Class::Not('.')),
    ensures
        paths::with_ext(paths::below(base, name), ext) == paths::below(
            base,
            name + (seq!['.'] + ext),
        ),
        paths::below(base, name + (seq!['.'] + ext)).len() == paths::below(base, name).len() + 1
            + ext.len(),
{
    let s = paths::below(base, name);
    assert(name != seq!['.', '.']) by {
        assert(text::in_class(name[0], Class::Not('.')));
    }
    assert(name[0] != '/') by {
        assert(text::in_class(name[0], Class::Not('/')));
    }
    paths::file_name_of_below(base, name);
    paths::parent_of_below(base, name);
    let at = s.len() - name.len();
    assert(s.subrange(at, s.len() as int) =~= name);
    text::run_start_is(s, Class::Not('/'), at, s.len() as int);
    assert(s.skip(at) =~= name);
    let k = paths::piece_start(s);
    assert(k == at) by {
        if at < paths::body_start(s) {
            if at == 0 {
                assert(s =~= name);
                if paths::from_here(s) {
                    assert(text::in_class(name[0], Class::Not('.')));
                }
            }
        }
    }
    assert(name.subrange(0, name.len() as int) =~= name);
    text::run_start_is(name, Class::Not('.'), 0, name.len() as int);
    reveal_strlit(".");
    assert("."@ =~= seq!['.']);
    let long = name + (seq!['.'] + ext);
    assert(s.take(at) + name + "."@ + ext =~= paths::below(base, long));
}

/// The staging folder lies beside the result, under its name with `.partial`
/// behind it, and an earlier result is kept beside it with `.previous`; so
/// neither is ever the result itself.
pub proof fn staging_lies_beside_the_result(base: Text, name: Text)
    requires
        paths::plain_name(name),
        text::all_in(name, Class::Not('.')),
    ensures
        job::partial_of(paths::below(base, name)) == paths::below(base, name + ".partial"@),
        job::partial_of(paths::below(base, name)) != paths::below(base, name),
        paths::with_ext(paths::below(base, name), "previous"@) == paths::below(
            base,
            name + ".previous"@,
        ),
        paths::with_ext(paths::below(base, name), "previous"@) != paths::below(base, name),
{
    lemma_with_ext(base, name, "partial"@);
    lemma_with_ext(base, name, "previous"@);
    reveal_strlit(".partial");
    reveal_strlit("partial");
    reveal_strlit(".previous");
    reveal_strlit("previous");
    assert(".partial"@ =~= seq!['.'] + "partial"@);
    assert(".previous"@ =~= seq!['.'] + "previous"@);
}

// ---------------------------------------------------------------------
// The script's lines

proof fn lemma_cut(a: Text, c: char, b: Text, pat: Text)
    requires
        pat == seq![c],
        text::all_in(a, Class::Not(c)),
    ensures
        text::cut(a + pat + b, pat) == Some((a, b)),
{
    let s = a + pat + b;
    let i = a.len() as int;
    assert(s.subrange(i, i + 1) =~= pat);
    text::find_is_the_first(s, pat);
    assert(text::occurs_at(s, pat, i));
    assert(text::has(s, pat));
    let j = text::find(s, pat)->0;
    if j < i {
        assert(text::occurs_at(s, pat, j));
        assert(s.subrange(j, j + 1)[0] == s[j]);
        assert(text::in_class(a[j], Class::Not(c)));
    } else if j > i {
        assert(!text::occurs_at(s, pat, i));
    }
    assert(s.take(i) =~= a);
    assert(s.skip(i + 1) =~= b);
}

/// A line of progress tells its stage and its counts: what it was written
/// with is read from it.
pub proof fn progress_lines_read_back(done: Text, total: Text, stage: Text)
    requires
        text::all_in(done, Class::Not(' ')),
        text::all_in(done, Class::Not('/')),
        text::all_in(total, Class::Not(' ')),
    ensures
        norm::progress("PROGRESS "@ + done + "/"@ + total + " "@ + stage) == Some(
            (text::trimmed(stage), done, total),
        ),
        norm::stages("PROGRESS "@ + done + "/"@ + total + " "@ + stage) is None,
        !job::shown_line("PROGRESS "@ + done + "/"@ + total + " "@ + stage),
{
    reveal_strlit("PROGRESS ");
    reveal_strlit("STAGES ");
    reveal_strlit("/");
    reveal_strlit(" ");
    let line = "PROGRESS "@ + done + "/"@ + total + " "@ + stage;
    let counts = done + "/"@ + total;
    let rest = counts + " "@ + stage;
    assert(line.subrange(0, 9) =~= "PROGRESS "@);
    assert(line.skip(9) =~= rest);
    assert forall|i: int| 0 <= i < counts.len() implies text::in_class(
        #[trigger] counts[i],
        Class::Not(' '),
    ) by {
        if i < done.len() {
            assert(text::in_class(done[i], Class::Not(' ')));
        } else if i > done.len() {
            assert(text::in_class(total[i - done.len() - 1], Class::Not(' ')));
        }
    }
    assert(" "@ =~= seq![' ']);
    assert("/"@ =~= seq!['/']);
    lemma_cut(counts, ' ', stage, " "@);
    lemma_cut(done, '/', total, "/"@);
    assert(line[0] == 'P');
    assert("STAGES "@[0] == 'S');
    if text::begins(line, "STAGES "@) {
        assert(line.subrange(0, 7)[0] == line[0]);
    }
}

proof fn lemma_stage_list(list: Seq<Text>)
    requires
        forall|i: int|
            0 <= i < list.len() ==> (#[trigger] list[i]).len() > 0 && text::trimmed(list[i])
                == list[i] && text::all_in(list[i], Class::Not('|')),
        list.len() > 0,
    ensures
        text::pieces(text::joined(list, "|"@), Class::Not('|')) == list,
    decreases list.len(),
{
    reveal_strlit("|");
    assert("|"@ =~= seq!['|']);
    if list.len() == 1 {
        text::pieces_single(list[0], Class::Not('|'));
        assert(list =~= seq![list[0]]);
    } else {
        let rest = list.drop_last();
        assert forall|i: int| 0 <= i < rest.len() implies (#[trigger] rest[i]).len() > 0
            && text::trimmed(rest[i]) == rest[i] && text::all_in(rest[i], Class::Not('|')) by {
            assert(rest[i] == list[i]);
        }
        lemma_stage_list(rest);
        let last = list[list.len() - 1];
        assert(text::all_in(last, Class::Not('|')));
        text::pieces_joined(text::joined(rest, "|"@), '|', last, Class::Not('|'));
        text::pieces_single(last, Class::Not('|'));
        assert(text::joined(list, "|"@) == text::joined(rest, "|"@) + seq!['|'] + last);
        assert(rest + seq![last] =~= list);
    }
}

/// The announced stages are read in order, none lost and none added.
pub proof fn stage_lines_read_back(list: Seq<Text>)
    requires
        list.len() > 0,
        forall|i: int|
            0 <= i < list.len() ==> (#[trigger] list[i]).len() > 0 && text::trimmed(list[i])
                == list[i] && text::all_in(list[i], Class::Not('|')),
    ensures
        norm::stages("STAGES "@ + text::joined(list, "|"@)) == Some(list),
        norm::progress("STAGES "@ + text::joined(list, "|"@)) is None,
{
    reveal_strlit("STAGES ");
    reveal_strlit("PROGRESS ");
    let rest = text::joined(list, "|"@);
    let line = "STAGES "@ + rest;
    assert(line.subrange(0, 7) =~= "STAGES "@);
    assert(line.skip(7) =~= rest);
    lemma_stage_list(list);
    let trim = |s: Text| text::trimmed(s);
    let keep = |s: Text| s.len() > 0;
    assert(list.map_values(trim) =~= list) by {
        assert forall|i: int| 0 <= i < list.len() implies #[trigger] list.map_values(trim)[i]
            == list[i] by {
            assert(text::trimmed(list[i]) == list[i]);
        }
    }
    lemma_all_kept(list, keep);
    assert(norm::stage_list(rest) =~= list);
    assert(line[0] == 'S');
    if text::begins(line, "PROGRESS "@) {
        assert(line.subrange(0, 9)[0] == line[0]);
        assert("PROGRESS "@[0] == 'P');
    }
}

proof fn lemma_all_kept(list: Seq<Text>, keep: spec_fn(Text) -> bool)
    requires
        forall|i: int| 0 <= i < list.len() ==> keep(#[trigger] list[i]),
    ensures
        list.filter(keep) == list,
    decreases list.len(),
{
    reveal(Seq::filter);
    if list.len() > 0 {
        let rest = list.drop_last();
        assert forall|i: int| 0 <= i < rest.len() implies keep(#[trigger] rest[i]) by {
            assert(rest[i] == list[i]);
        }
        lemma_all_kept(rest, keep);
        assert(keep(list[list.len() - 1]));
        assert(rest.push(list.last()) =~= list);
    }
}

/// A stage stands at its first place among the announced ones, and at none
/// when it was not announced.
pub proof fn stages_stand_at_their_place(stages: Seq<Text>, stage: Text, i: int, k: int)
    requires
        0 <= i,
    ensures
        i <= k < stages.len() && stages[k] == stage && (forall|j: int|
            i <= j < k ==> #[trigger] stages[j] != stage) ==> norm::place_of(stages, stage, i)
            == Some(k),
        (forall|j: int| i <= j < stages.len() ==> #[trigger] stages[j] != stage)
            ==> norm::place_of(stages, stage, i) is None,
    decreases stages.len() - i,
{
    if i < stages.len() {
        stages_stand_at_their_place(stages, stage, i + 1, k);
        if i <= k < stages.len() && stages[k] == stage && (forall|j: int|
            i <= j < k ==> #[trigger] stages[j] != stage) {
            if i < k {
                assert(stages[i] != stage);
            }
        }
        if forall|j: int| i <= j < stages.len() ==> #[trigger] stages[j] != stage {
            assert(stages[i] != stage);
        }
    }
}

/// Every line that is no progress and announces no stages goes to the log as
/// it is, and is shown too unless it is blank; the others go to neither.
pub proof fn other_lines_go_to_the_log(line: Text)
    ensures
        norm::progress(line) is None && norm::stages(line) is None && text::trimmed(line).len() > 0
            ==> runner::heard(line) == seq![Told::Raw(line), Told::Output(line)],
        norm::progress(line) is None && norm::stages(line) is None && text::trimmed(line).len()
            == 0 ==> runner::heard(line) == seq![Told::Raw(line)],
        norm::progress(line) is Some ==> runner::heard(line).len() == 1 && runner::heard(line)[0]
            is Progress,
        norm::progress(line) matches Some((stage, done, total)) ==> runner::heard(line) == seq![
            Told::Progress { stage, counts: Some((done, total)) },
        ],
        norm::progress(line) is None && norm::stages(line) is Some ==> runner::heard(line) == seq![
            Told::Stages(norm::stages(line)->0),
        ],
{
}

// ---------------------------------------------------------------------
// The summary log

proof fn lemma_has(a: Text, p: Text, b: Text)
    ensures
        text::has(a + p + b, p),
{
    let s = a + p + b;
    let i = a.len() as int;
    assert(s.subrange(i, i + p.len()) =~= p);
    assert(text::occurs_at(s, p, i));
}

proof fn lemma_has_in(a: Text, s: Text, b: Text, p: Text)
    requires
        text::has(s, p),
    ensures
        text::has(a + s + b, p),
{
    let i = choose|i: int| text::occurs_at(s, p, i);
    let t = a + s + b;
    let k = a.len() + i;
    assert(t.subrange(k, k + p.len()) =~= s.subrange(i, i + p.len()));
    assert(text::occurs_at(t, p, k));
}

proof fn lemma_input_lines(inputs: Seq<(Text, Text)>, word: Text, k: int, i: int)
    requires
        0 <= i < k <= inputs.len(),
    ensures
        text::has(job::input_lines(inputs, word, k), ": "@ + inputs[i].0 + "\n"@),
        text::has(job::input_lines(inputs, word, k), ": "@ + inputs[i].1 + "\n"@),
    decreases k,
{
    let none = Seq::<char>::empty();
    let before = job::input_lines(inputs, word, k - 1);
    let all = job::input_lines(inputs, word, k);
    let label = job::input_label(word, k - 1, inputs.len() as int);
    if i < k - 1 {
        lemma_input_lines(inputs, word, k - 1, i);
        let more = job::labelled(label, inputs[k - 1].0) + job::labelled(
            "  nexus"@,
            inputs[k - 1].1,
        );
        assert(all =~= none + before + more);
        lemma_has_in(none, before, more, ": "@ + inputs[i].0 + "\n"@);
        lemma_has_in(none, before, more, ": "@ + inputs[i].1 + "\n"@);
    } else {
        let a = ": "@ + inputs[i].0 + "\n"@;
        let b = ": "@ + inputs[i].1 + "\n"@;
        let front = "  "@ + text::padded(label, 14);
        let back = "  "@ + text::padded("  nexus"@, 14);
        assert(job::labelled(label, inputs[i].0) =~= front + a);
        assert(job::labelled("  nexus"@, inputs[i].1) =~= back + b);
        assert(all =~= (before + front) + a + (back + b));
        lemma_has(before + front, a, back + b);
        assert(all =~= (before + front + a + back) + b + none);
        lemma_has(before + front + a + back, b, none);
    }
}

proof fn lemma_setting_lines(settings: Seq<(Text, Text)>, i: int)
    requires
        0 <= i < settings.len(),
    ensures
        text::has(job::setting_lines(settings), settings[i].0 + " = "@ + settings[i].1),
    decreases settings.len(),
{
    let rest = settings.drop_last();
    let before = job::setting_lines(rest);
    let last = settings[settings.len() - 1];
    let one = "      "@ + last.0 + " = "@ + last.1 + "\n"@;
    let p = settings[i].0 + " = "@ + settings[i].1;
    if i < rest.len() {
        assert(rest[i] == settings[i]);
        lemma_setting_lines(rest, i);
    } else {
        assert(one =~= "      "@ + p + "\n"@);
        lemma_has("      "@, p, "\n"@);
    }
    lemma_has_either(before, one, p);
}

/// The summary of a job that starts names the run or runs, every sample and
/// every open beam with its NeXus file, the configuration with all its
/// settings, the output folder and the log.
pub proof fn summaries_name_every_input(job: Job, clock: Text, i: int, j: int, k: int)
    requires
        0 <= i < job.samples.len(),
        0 <= j < job.obs.len(),
    ensures
        text::has(job::start_block(job, clock), "["@ + clock + "] "@ + job.what),
        text::has(job::start_block(job, clock), ": "@ + job.samples[i].0 + "\n"@),
        text::has(job::start_block(job, clock), ": "@ + job.samples[i].1 + "\n"@),
        text::has(job::start_block(job, clock), ": "@ + job.obs[j].0 + "\n"@),
        text::has(job::start_block(job, clock), ": "@ + job.obs[j].1 + "\n"@),
        text::has(job::start_block(job, clock), ": "@ + job.config + "\n"@),
        text::has(job::start_block(job, clock), ": "@ + job.output + "\n"@),
        text::has(job::start_block(job, clock), ": "@ + job.log + "\n"@),
        0 <= k < job.parameters.len() ==> text::has(
            job::start_block(job, clock),
            job.parameters[k].0 + " = "@ + job.parameters[k].1,
        ),
{
    let rule = text::repeated('-', 78) + "\n"@;
    let head = text::repeated('-', 78) + "\n["@ + clock + "] "@ + job.what
        + " — normalization STARTED\n"@;
    let s = job::input_lines(job.samples, "sample"@, job.samples.len() as int);
    let o = job::input_lines(job.obs, "open beam"@, job.obs.len() as int);
    let c = job::labelled("configuration"@, job.config);
    let p = job::setting_lines(job.parameters);
    let r = job::crop_line(job.crop);
    let u = job::labelled("output"@, job.output);
    let l = job::labelled("job log"@, job.log);
    let title = "["@ + clock + "] "@ + job.what;
    assert(text::has(head, title)) by {
        reveal_strlit("\n[");
        reveal_strlit("\n");
        reveal_strlit("[");
        assert("\n["@ =~= "\n"@ + "["@);
        assert(head =~= rule + title + " — normalization STARTED\n"@);
        lemma_has(rule, title, " — normalization STARTED\n"@);
    }
    lemma_in_block(head, s, o, c, p, r, u, l, title);
    lemma_input_lines(job.samples, "sample"@, job.samples.len() as int, i);
    lemma_input_lines(job.obs, "open beam"@, job.obs.len() as int, j);
    lemma_in_block(head, s, o, c, p, r, u, l, ": "@ + job.samples[i].0 + "\n"@);
    lemma_in_block(head, s, o, c, p, r, u, l, ": "@ + job.samples[i].1 + "\n"@);
    lemma_in_block(head, s, o, c, p, r, u, l, ": "@ + job.obs[j].0 + "\n"@);
    lemma_in_block(head, s, o, c, p, r, u, l, ": "@ + job.obs[j].1 + "\n"@);
    lemma_labelled("configuration"@, job.config);
    lemma_labelled("output"@, job.output);
    lemma_labelled("job log"@, job.log);
    lemma_in_block(head, s, o, c, p, r, u, l, ": "@ + job.config + "\n"@);
    lemma_in_block(head, s, o, c, p, r, u, l, ": "@ + job.output + "\n"@);
    lemma_in_block(head, s, o, c, p, r, u, l, ": "@ + job.log + "\n"@);
    if 0 <= k < job.parameters.len() {
        lemma_setting_lines(job.parameters, k);
        lemma_in_block(
            head,
            s,
            o,
            c,
            p,
            r,
            u,
            l,
            job.parameters[k].0 + " = "@ + job.parameters[k].1,
        );
    }
}

proof fn lemma_has_either(a: Text, b: Text, p: Text)
    ensures
        text::has(a, p) || text::has(b, p) ==> text::has(a + b, p),
{
    let none = Seq::<char>::empty();
    assert(none + a + b =~= a + b);
    assert(a + b + none =~= a + b);
    if text::has(a, p) {
        lemma_has_in(none, a, b, p);
    } else if text::has(b, p) {
        lemma_has_in(a, b, none, p);
    }
}

proof fn lemma_in_block(
    a: Text,
    b: Text,
    c: Text,
    d: Text,
    e: Text,
    f: Text,
    g: Text,
    h: Text,
    p: Text,
)
    ensures
        (text::has(a, p) || text::has(b, p) || text::has(c, p) || text::has(d, p) || text::has(e, p)
            || text::has(f, p) || text::has(g, p) || text::has(h, p)) ==> text::has(
            a + b + c + d + e + f + g + h,
            p,
        ),
{
    lemma_has_either(a, b, p);
    lemma_has_either(a + b, c, p);
    lemma_has_either(a + b + c, d, p);
    lemma_has_either(a + b + c + d, e, p);
    lemma_has_either(a + b + c + d + e, f, p);
    lemma_has_either(a + b + c + d + e + f, g, p);
    lemma_has_either(a + b + c + d + e + f + g, h, p);
}

proof fn lemma_labelled(label: Text, value: Text)
    ensures
        text::has(job::labelled(label, value), ": "@ + value + "\n"@),
{
    let none = Seq::<char>::empty();
    let p = ": "@ + value + "\n"@;
    let front = "  "@ + text::padded(label, 14);
    assert(job::labelled(label, value) =~= front + p + none);
    lemma_has(front, p, none);
}

/// A cropped job's summary names the region, coordinate by coordinate, and
/// where the copies lie; one without a crop says nothing of it.
pub proof fn summaries_name_the_crop(region: Region, parent: Text)
    ensures
        text::has(
            job::crop_line(Some((region, parent))),
            "("@ + number::decimal(region.0 as nat) + ", "@ + number::decimal(region.1 as nat)
                + ", "@ + number::decimal(region.2 as nat) + ", "@ + number::decimal(
                region.3 as nat,
            ) + ")"@,
        ),
        text::has(job::crop_line(Some((region, parent))), parent),
        job::crop_line(None).len() == 0,
{
    reveal_strlit("(x0, y0, x1, y1) = (");
    reveal_strlit("(x0, y0, x1, y1) = ");
    reveal_strlit("(");
    assert("(x0, y0, x1, y1) = ("@ =~= "(x0, y0, x1, y1) = "@ + "("@);
    let p = "("@ + number::decimal(region.0 as nat) + ", "@ + number::decimal(region.1 as nat)
        + ", "@ + number::decimal(region.2 as nat) + ", "@ + number::decimal(region.3 as nat)
        + ")"@;
    let front = "  "@ + text::padded("pre-crop"@, 14) + ": "@;
    let all = job::crop_line(Some((region, parent)));
    assert(job::region_words(region) =~= "(x0, y0, x1, y1) = "@ + p);
    assert(all =~= (front + "(x0, y0, x1, y1) = "@) + p + (" — cropped copies in "@ + parent
        + "\n"@));
    lemma_has(front + "(x0, y0, x1, y1) = "@, p, " — cropped copies in "@ + parent + "\n"@);
    assert(all =~= (front + job::region_words(region) + " — cropped copies in "@) + parent
        + "\n"@);
    lemma_has(front + job::region_words(region) + " — cropped copies in "@, parent, "\n"@);
}

/// A failure is told with the status and the last lines of the script.
pub proof fn failures_tell_the_last_lines(signal: bool, status: Text, tail: Seq<Text>)
    ensures
        text::has(job::failure(signal, status, tail), "("@ + status + ")"@),
        text::has(job::failure(signal, status, tail), text::joined(tail, "\n"@)),
        text::begins(
            job::failure(signal, status, tail),
            "normalization process killed by the system"@,
        ) ==> signal,
{
    let none = Seq::<char>::empty();
    let lines = text::joined(tail, "\n"@);
    let all = job::failure(signal, status, tail);
    job::kills_are_recognized(signal, status, tail);
    reveal_strlit("(");
    reveal_strlit(")");
    if signal {
        let words =
            ") — the analysis machine most likely ran out of memory: every normalization holds the sample and open-beam image stacks in memory, and too many at once (this tool's parallel jobs, other users, other tools on the same machine) exhaust it. The run is retried once automatically when a slot frees up; fewer parallel jobs help.\n"@;
        reveal_strlit(
            ") — the analysis machine most likely ran out of memory: every normalization holds the sample and open-beam image stacks in memory, and too many at once (this tool's parallel jobs, other users, other tools on the same machine) exhaust it. The run is retried once automatically when a slot frees up; fewer parallel jobs help.\n",
        );
        reveal_strlit(" (");
        reveal_strlit(" ");
        assert(" ("@ =~= " "@ + "("@);
        assert(words =~= ")"@ + words.skip(1));
        assert(all =~= (norm::KILLED_PREFIX@ + " "@) + ("("@ + status + ")"@) + (words.skip(1)
            + lines));
        lemma_has(norm::KILLED_PREFIX@ + " "@, "("@ + status + ")"@, words.skip(1) + lines);
        assert(all =~= (norm::KILLED_PREFIX@ + " ("@ + status + words) + lines + none);
        lemma_has(norm::KILLED_PREFIX@ + " ("@ + status + words, lines, none);
    } else {
        reveal_strlit("normalization script failed (");
        reveal_strlit("normalization script failed ");
        reveal_strlit(")\n");
        reveal_strlit("\n");
        assert("normalization script failed ("@ =~= "normalization script failed "@ + "("@);
        assert(")\n"@ =~= ")"@ + "\n"@);
        assert(all =~= "normalization script failed "@ + ("("@ + status + ")"@) + ("\n"@ + lines));
        lemma_has("normalization script failed "@, "("@ + status + ")"@, "\n"@ + lines);
        assert(all =~= ("normalization script failed ("@ + status + ")\n"@) + lines + none);
        lemma_has("normalization script failed ("@ + status + ")\n"@, lines, none);
    }
}

/// The end of a job is told in one line with what it normalized, when it
/// ended and began, and how it ended: where its result is, that it was there
/// already, or the first line of why it failed.
pub proof fn endings_are_written_down(
    what: Text,
    started: LocalTime,
    ended: LocalTime,
    ending: Ending,
)
    ensures
        text::begins(
            job::closing(what, started, ended, ending),
            "["@ + ended.clock() + "] "@ + what,
        ),
        text::has(job::closing(what, started, ended, ending), "started "@ + started.clock()),
        text::has(
            job::closing(what, started, ended, ending),
            "took "@ + norm::duration_words(clock::whole_seconds(started, ended)),
        ),
        ending matches Ending::Done { output, skipped } ==> text::has(
            job::closing(what, started, ended, ending),
            output@,
        ),
        ending matches Ending::Failed { message } ==> text::has(
            job::closing(what, started, ended, ending),
            "FAILED: "@ + job::first_line(message@),
        ),
        ending matches Ending::Done { output, skipped } && skipped ==> text::has(
            job::closing(what, started, ended, ending),
            "SKIPPED"@,
        ),
        ending matches Ending::Done { output, skipped } && !skipped ==> text::has(
            job::closing(what, started, ended, ending),
            "DONE"@,
        ),
{
    let outcome = match ending {
        Ending::Done { output, skipped } => if skipped {
            "SKIPPED, result already there: "@ + output@
        } else {
            "DONE → "@ + output@
        },
        Ending::Failed { message } => "FAILED: "@ + job::first_line(message@),
    };
    let none = Seq::<char>::empty();
    let line = job::closing(what, started, ended, ending);
    lemma_end_line(what, started, ended, outcome);
    match ending {
        Ending::Done { output, skipped } => {
            if skipped {
                reveal_strlit("SKIPPED, result already there: ");
                reveal_strlit("SKIPPED");
                let front = "SKIPPED, result already there: "@;
                assert(front + output@ =~= none + "SKIPPED"@ + (front.skip(7) + output@));
                lemma_has(none, "SKIPPED"@, front.skip(7) + output@);
                assert(front + output@ =~= front + output@ + none);
                lemma_has(front, output@, none);
                lemma_told_on(line, outcome, "SKIPPED"@);
                lemma_told_on(line, outcome, output@);
            } else {
                reveal_strlit("DONE → ");
                reveal_strlit("DONE");
                let front = "DONE → "@;
                assert(front + output@ =~= none + "DONE"@ + (front.skip(4) + output@));
                lemma_has(none, "DONE"@, front.skip(4) + output@);
                assert(front + output@ =~= front + output@ + none);
                lemma_has(front, output@, none);
                lemma_told_on(line, outcome, "DONE"@);
                lemma_told_on(line, outcome, output@);
            }
        },
        Ending::Failed { message } => {},
    }
}

proof fn lemma_told_on(line: Text, part: Text, inner: Text)
    requires
        text::has(line, part),
        text::has(part, inner),
    ensures
        text::has(line, inner),
{
    let i = choose|i: int| text::occurs_at(line, part, i);
    let a = line.take(i);
    let b = line.skip(i + part.len());
    assert(line =~= a + line.subrange(i, i + part.len()) + b);
    lemma_has_in(a, part, b, inner);
}

proof fn lemma_end_line(what: Text, started: LocalTime, ended: LocalTime, outcome: Text)
    ensures
        text::begins(
            job::end_line(what, started, ended, outcome),
            "["@ + ended.clock() + "] "@ + what,
        ),
        text::has(job::end_line(what, started, ended, outcome), outcome),
        text::has(job::end_line(what, started, ended, outcome), "started "@ + started.clock()),
        text::has(
            job::end_line(what, started, ended, outcome),
            "took "@ + norm::duration_words(clock::whole_seconds(started, ended)),
        ),
{
    let words = norm::duration_words(clock::whole_seconds(started, ended));
    let head = "["@ + ended.clock() + "] "@ + what;
    let line = job::end_line(what, started, ended, outcome);
    let a = head + " — normalization "@;
    assert(line.subrange(0, head.len() as int) =~= head);
    let tail = " (started "@ + started.clock() + ", took "@ + words + ")\n"@;
    assert(line =~= a + outcome + tail);
    lemma_has(a, outcome, tail);
    assert(text::has(tail, "started "@ + started.clock())) by {
        reveal_strlit(" (started ");
        reveal_strlit(" (");
        reveal_strlit("started ");
        assert(" (started "@ =~= " ("@ + "started "@);
        let p = "started "@ + started.clock();
        assert(tail =~= " ("@ + p + (", took "@ + words + ")\n"@));
        lemma_has(" ("@, p, ", took "@ + words + ")\n"@);
    }
    assert(text::has(tail, "took "@ + words)) by {
        reveal_strlit(", took ");
        reveal_strlit(", ");
        reveal_strlit("took ");
        assert(", took "@ =~= ", "@ + "took "@);
        let p = "took "@ + words;
        let front = " (started "@ + started.clock() + ", "@;
        assert(tail =~= front + p + ")\n"@);
        lemma_has(front, p, ")\n"@);
    }
    lemma_has_either(a + outcome, tail, "started "@ + started.clock());
    lemma_has_either(a + outcome, tail, "took "@ + words);
}

/// Of a message with several lines the first one is told.
pub proof fn the_first_line_is_told(line: Text, rest: Text)
    requires
        text::all_in(line, Class::Not('\n')),
    ensures
        job::first_line(line + seq!['\n'] + rest) == text::trimmed(text::without_return(line)),
{
    let none = Seq::<char>::empty();
    text::a_line_in_between_is_read(none, line, rest);
    assert(none + line + seq!['\n'] + rest =~= line + seq!['\n'] + rest);
    text::pieces_single(none, Class::Not('\n'));
    assert(text::lines_of(none) =~= Seq::<Text>::empty());
    let all = text::lines_of(line + seq!['\n'] + rest);
    assert(all[0] == text::without_return(line));
}

/// Announced stages are told without the spaces around them, and blank ones
/// are left out.
pub proof fn stages_are_trimmed(line: Text, i: int)
    ensures
        norm::stages(line) matches Some(list) ==> list.len() > 0 && (0 <= i < list.len() ==> list[i].len()
            > 0 && exists|s: Text| list[i] == #[trigger] text::trimmed(s)),
{
    match norm::stages(line) {
        Some(list) => {
            if 0 <= i < list.len() {
                let rest = text::after_prefix(line, "STAGES "@)->0;
                let pieces = text::pieces(rest, Class::Not('|'));
                let all = pieces.map_values(|s: Text| text::trimmed(s));
                lists::filtered_holds(all, |s: Text| s.len() > 0, list[i]);
                assert(list.contains(list[i]));
                let k = choose|k: int| 0 <= k < all.len() && all[k] == list[i];
                assert(list[i] == text::trimmed(pieces[k]));
            }
        },
        None => {},
    }
}

/// Spaces around a stage make no difference.
pub proof fn spaces_around_a_stage_are_ignored(before: Text, stage: Text, after: Text)
    requires
        text::all_in(before, Class::Space),
        text::all_in(after, Class::Space),
        text::all_in(stage, Class::Not('|')),
        stage.len() > 0,
        text::trimmed(stage) == stage,
    ensures
        norm::stages("STAGES "@ + (before + stage + after)) == Some(seq![stage]),
{
    reveal_strlit("STAGES ");
    let rest = before + stage + after;
    let line = "STAGES "@ + rest;
    assert(line.subrange(0, 7) =~= "STAGES "@);
    assert(line.skip(7) =~= rest);
    assert forall|i: int| 0 <= i < rest.len() implies text::in_class(
        #[trigger] rest[i],
        Class::Not('|'),
    ) by {
        if i < before.len() {
            assert(text::in_class(before[i], Class::Space));
        } else if i < before.len() + stage.len() {
            assert(text::in_class(stage[i - before.len()], Class::Not('|')));
        } else {
            assert(text::in_class(after[i - before.len() - stage.len()], Class::Space));
        }
    }
    text::pieces_single(rest, Class::Not('|'));
    text::trimmed_ignores_ends(before, stage, after, Class::Space);
    let trim = |s: Text| text::trimmed(s);
    let keep = |s: Text| s.len() > 0;
    assert(seq![rest].map_values(trim) =~= seq![stage]);
    lemma_all_kept(seq![stage], keep);
}

/// A job that starts is written to the summary first; its command is logged
/// when it is launched, and its result when it is there.
pub proof fn every_step_is_written_down(
    job: Job,
    clock: Text,
    s: Running,
    exists: bool,
    names: Seq<Text>,
)
    ensures
        s.step is Looking && !norm::done(names) ==> {
            let notes = runner::advance(job, clock, s, Event::Seen { exists, names }).notes;
            &&& notes.len() > 0
            &&& notes[0] == Told::Summary(job::start_block(job, clock))
            &&& job.crop matches Some((region, parent)) ==> notes.len() > 1 && notes[1]
                == Told::Say("pre-crop "@ + job::region_words(region) + " into "@ + parent)
        },
        s.step is Looking && norm::done(names) ==> runner::advance(
            job,
            clock,
            s,
            Event::Seen { exists, names },
        ).action == (Act::Done { output: job.output, skipped: true }),
        s.step is Staging ==> runner::advance(job, clock, s, Event::Staged(None)).notes == seq![
            Told::Say(
                job::launch_line(job::command(job.config, job.output, s.samples, s.obs)),
            ),
        ],
        s.step is Promoting ==> runner::advance(job, clock, s, Event::Promoted(None)).notes == seq![
            Told::Say("normalized data written to "@ + job.output),
        ],
{
}

/// A job without a crop goes straight to staging; one with a crop starts with
/// its first sample.
pub proof fn jobs_begin_with_their_inputs(
    job: Job,
    clock: Text,
    s: Running,
    exists: bool,
    names: Seq<Text>,
)
    requires
        s.step is Looking,
        !norm::done(names),
    ensures
        ({
            let turn = runner::advance(job, clock, s, Event::Seen { exists, names });
            &&& job.crop is None ==> turn.action == Act::Stage(job::partial_of(job.output))
            &&& job.crop matches Some((region, parent)) ==> s.samples.len() > 0 ==> turn.action
                == (Act::Crop { folder: s.samples[0].0, region, parent })
            &&& turn.state.samples == s.samples
            &&& turn.state.obs == s.obs
        }),
{
}

/// A job begins with its own inputs.
pub proof fn jobs_begin_with_nothing_heard(job: Job)
    ensures
        runner::fresh(job).samples == job.samples,
        runner::fresh(job).obs == job.obs,
        runner::fresh(job).tail.len() == 0,
        runner::fresh(job).step is Looking,
{
}

/// The lines kept for the report of a failure are the last ones shown, eight
/// at most; the newest is always among them.
pub proof fn the_last_eight_lines_are_kept(tail: Seq<Text>, line: Text)
    requires
        tail.len() <= 8,
    ensures
        job::tail_with(tail, line).len() <= 8,
        job::tail_with(tail, line).last() == line,
        tail.len() < 8 ==> job::tail_with(tail, line) == tail.push(line),
        tail.len() == 8 ==> job::tail_with(tail, line) == tail.skip(1).push(line),
{
    assert(tail.len() == 8 ==> tail.push(line).skip(1) =~= tail.skip(1).push(line));
}

/// The inputs of a job are counted from one on where there are several; a
/// single one has no number.
pub proof fn inputs_are_numbered(word: Text, i: int, n: int)
    requires
        0 <= i < n,
    ensures
        n == 1 ==> job::input_label(word, i, n) == word,
        n > 1 ==> job::input_label(word, i, n) == word + " "@ + number::decimal((i + 1) as nat),
{
}

} // verus!
