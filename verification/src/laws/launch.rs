//! What the launched command holds.

use vstd::prelude::*;
use crate::text::Text;
use crate::{job, norm, paths};

verus! {

proof fn lemma_flat_at(fs: Seq<(Text, Text)>)
    ensures
        job::flat(fs).len() == 2 * fs.len(),
        forall|i: int|
            0 <= i < fs.len() ==> job::flat(fs)[2 * i] == (#[trigger] fs[i]).0 && job::flat(
                fs,
            )[2 * i + 1] == fs[i].1,
    decreases fs.len(),
{
    if fs.len() > 0 {
        let rest = fs.drop_last();
        lemma_flat_at(rest);
        assert forall|i: int| 0 <= i < fs.len() implies job::flat(fs)[2 * i] == (
        #[trigger] fs[i]).0 && job::flat(fs)[2 * i + 1] == fs[i].1 by {
            if i < rest.len() {
                assert(rest[i] == fs[i]);
            }
        }
    }
}

proof fn lemma_input_flags_at(inputs: Seq<(Text, Text)>, folder: Text, nexus: Text)
    ensures
        job::input_flags(inputs, folder, nexus).len() == 2 * inputs.len(),
        forall|i: int|
            0 <= i < inputs.len() ==> job::input_flags(inputs, folder, nexus)[2 * i] == (
                folder,
                (#[trigger] inputs[i]).0,
            ) && job::input_flags(inputs, folder, nexus)[2 * i + 1] == (nexus, inputs[i].1),
    decreases inputs.len(),
{
    if inputs.len() > 0 {
        let rest = inputs.drop_last();
        lemma_input_flags_at(rest, folder, nexus);
        assert forall|i: int| 0 <= i < inputs.len() implies job::input_flags(
            inputs,
            folder,
            nexus,
        )[2 * i] == (folder, (#[trigger] inputs[i]).0) && job::input_flags(inputs, folder, nexus)[2
            * i + 1] == (nexus, inputs[i].1) by {
            if i < rest.len() {
                assert(rest[i] == inputs[i]);
            }
        }
    }
}

proof fn lemma_command_at(
    config: Text,
    output: Text,
    samples: Seq<(Text, Text)>,
    obs: Seq<(Text, Text)>,
    k: int,
)
    requires
        0 <= k < job::flags(config, output, samples, obs).len(),
    ensures
        job::command(config, output, samples, obs)[2 + 2 * k] == job::flags(
            config,
            output,
            samples,
            obs,
        )[k].0,
        job::command(config, output, samples, obs)[3 + 2 * k] == job::flags(
            config,
            output,
            samples,
            obs,
        )[k].1,
{
    let fs = job::flags(config, output, samples, obs);
    lemma_flat_at(fs);
    assert(fs[k] == fs[k]);
}

/// The launched command runs the script with the configuration, the staging
/// folder and the name of the result, then names every sample in order, its
/// folder followed by its NeXus file, then every open beam in the same way;
/// it holds nothing else.
pub proof fn commands_hold_every_input(
    config: Text,
    output: Text,
    samples: Seq<(Text, Text)>,
    obs: Seq<(Text, Text)>,
)
    ensures
        job::command(config, output, samples, obs).len() == 8 + 4 * samples.len() + 4 * obs.len(),
        job::command(config, output, samples, obs).take(7) == seq![
            norm::PYTHON_BIN@,
            norm::NORMALIZE_SCRIPT@,
            "--config"@,
            config,
            "--output"@,
            job::partial_of(output),
            "--basename"@,
        ],
        paths::file_name(output) is Some ==> job::command(config, output, samples, obs)[7]
            == paths::file_name(output)->0,
        forall|i: int|
            0 <= i < samples.len() ==> job::command(config, output, samples, obs).subrange(
                8 + 4 * i,
                12 + 4 * i,
            ) == seq!["--sample"@, (#[trigger] samples[i]).0, "--sample-nexus"@, samples[i].1],
        forall|i: int|
            0 <= i < obs.len() ==> job::command(config, output, samples, obs).subrange(
                8 + 4 * samples.len() + 4 * i,
                12 + 4 * samples.len() + 4 * i,
            ) == seq!["--ob"@, (#[trigger] obs[i]).0, "--ob-nexus"@, obs[i].1],
{
    let fs = job::flags(config, output, samples, obs);
    let s = job::input_flags(samples, "--sample"@, "--sample-nexus"@);
    let o = job::input_flags(obs, "--ob"@, "--ob-nexus"@);
    let c = job::command(config, output, samples, obs);
    lemma_flat_at(fs);
    lemma_input_flags_at(samples, "--sample"@, "--sample-nexus"@);
    lemma_input_flags_at(obs, "--ob"@, "--ob-nexus"@);
    lemma_command_at(config, output, samples, obs, 0);
    lemma_command_at(config, output, samples, obs, 1);
    lemma_command_at(config, output, samples, obs, 2);
    assert(fs[0] == ("--config"@, config));
    assert(fs[1] == ("--output"@, job::partial_of(output)));
    assert(fs[2] == ("--basename"@, job::base_name(output)));
    assert(c[0] == norm::PYTHON_BIN@ && c[1] == norm::NORMALIZE_SCRIPT@);
    assert(fs.len() == 3 + 2 * samples.len() + 2 * obs.len());
    assert(c.len() == 2 + 2 * fs.len());
    assert(c[2] == "--config"@ && c[3] == config && c[4] == "--output"@);
    assert(c[5] == job::partial_of(output) && c[6] == "--basename"@);
    assert(c[7] == job::base_name(output));
    assert(c.take(7) =~= seq![
        norm::PYTHON_BIN@,
        norm::NORMALIZE_SCRIPT@,
        "--config"@,
        config,
        "--output"@,
        job::partial_of(output),
        "--basename"@,
    ]);
    assert forall|i: int| 0 <= i < samples.len() implies c.subrange(8 + 4 * i, 12 + 4 * i) == seq![
        "--sample"@,
        (#[trigger] samples[i]).0,
        "--sample-nexus"@,
        samples[i].1,
    ] by {
        assert(fs[3 + 2 * i] == s[2 * i]);
        assert(fs[4 + 2 * i] == s[2 * i + 1]);
        lemma_command_at(config, output, samples, obs, 3 + 2 * i);
        lemma_command_at(config, output, samples, obs, 4 + 2 * i);
        assert(2 + 2 * (3 + 2 * i) == 8 + 4 * i && 3 + 2 * (3 + 2 * i) == 9 + 4 * i);
        assert(2 + 2 * (4 + 2 * i) == 10 + 4 * i && 3 + 2 * (4 + 2 * i) == 11 + 4 * i);
        assert(s[2 * i] == ("--sample"@, samples[i].0));
        assert(s[2 * i + 1] == ("--sample-nexus"@, samples[i].1));
        assert(c.subrange(8 + 4 * i, 12 + 4 * i) =~= seq![
            "--sample"@,
            samples[i].0,
            "--sample-nexus"@,
            samples[i].1,
        ]);
    }
    assert forall|i: int| 0 <= i < obs.len() implies c.subrange(
        8 + 4 * samples.len() + 4 * i,
        12 + 4 * samples.len() + 4 * i,
    ) == seq!["--ob"@, (#[trigger] obs[i]).0, "--ob-nexus"@, obs[i].1] by {
        let at = 3 + 2 * samples.len();
        assert(fs[at + 2 * i] == o[2 * i]);
        assert(fs[at + 1 + 2 * i] == o[2 * i + 1]);
        lemma_command_at(config, output, samples, obs, at + 2 * i);
        lemma_command_at(config, output, samples, obs, at + 1 + 2 * i);
        let n = samples.len() as int;
        assert(2 + 2 * (at + 2 * i) == 8 + 4 * n + 4 * i);
        assert(3 + 2 * (at + 2 * i) == 9 + 4 * n + 4 * i);
        assert(2 + 2 * (at + 1 + 2 * i) == 10 + 4 * n + 4 * i);
        assert(3 + 2 * (at + 1 + 2 * i) == 11 + 4 * n + 4 * i);
        assert(o[2 * i] == ("--ob"@, obs[i].0));
        assert(o[2 * i + 1] == ("--ob-nexus"@, obs[i].1));
        assert(c.subrange(8 + 4 * n + 4 * i, 12 + 4 * n + 4 * i) =~= seq![
            "--ob"@,
            obs[i].0,
            "--ob-nexus"@,
            obs[i].1,
        ]);
    }
}

/// The script is run by the interpreter of its own environment.
pub proof fn commands_run_the_script(
    config: Text,
    output: Text,
    samples: Seq<(Text, Text)>,
    obs: Seq<(Text, Text)>,
)
    ensures
        job::command(config, output, samples, obs)[0]
            == "/SNS/VENUS/shared/software/git/marimo_notebooks/.pixi/envs/default/bin/python"@,
        job::command(config, output, samples, obs)[1]
            == "/SNS/VENUS/shared/software/git/rust_workflow_runner/scripts/normalize_tof.py"@,
{
}

/// The same command means the same configuration, staging folder, samples
/// and open beams, in the same order, as long as there are as many samples.
pub proof fn commands_tell_their_inputs_apart(
    config: Text,
    output: Text,
    samples: Seq<(Text, Text)>,
    obs: Seq<(Text, Text)>,
    config2: Text,
    output2: Text,
    samples2: Seq<(Text, Text)>,
    obs2: Seq<(Text, Text)>,
)
    requires
        job::command(config, output, samples, obs) == job::command(
            config2,
            output2,
            samples2,
            obs2,
        ),
        samples.len() == samples2.len(),
    ensures
        config == config2,
        job::partial_of(output) == job::partial_of(output2),
        samples == samples2,
        obs == obs2,
{
    commands_hold_every_input(config, output, samples, obs);
    commands_hold_every_input(config2, output2, samples2, obs2);
    let c = job::command(config, output, samples, obs);
    let d = job::command(config2, output2, samples2, obs2);
    let n = samples.len() as int;
    assert(c.take(7)[3] == config && d.take(7)[3] == config2);
    assert(c.take(7)[5] == job::partial_of(output) && d.take(7)[5] == job::partial_of(output2));
    assert forall|i: int| 0 <= i < samples.len() implies samples[i] == samples2[i] by {
        let a = c.subrange(8 + 4 * i, 12 + 4 * i);
        let b = d.subrange(8 + 4 * i, 12 + 4 * i);
        assert(a == seq!["--sample"@, samples[i].0, "--sample-nexus"@, samples[i].1]);
        assert(b == seq!["--sample"@, samples2[i].0, "--sample-nexus"@, samples2[i].1]);
        assert(a[1] == b[1] && a[3] == b[3]);
    }
    assert(samples =~= samples2);
    assert(obs.len() == obs2.len());
    assert forall|i: int| 0 <= i < obs.len() implies obs[i] == obs2[i] by {
        let a = c.subrange(8 + 4 * n + 4 * i, 12 + 4 * n + 4 * i);
        let b = d.subrange(8 + 4 * n + 4 * i, 12 + 4 * n + 4 * i);
        assert(a == seq!["--ob"@, obs[i].0, "--ob-nexus"@, obs[i].1]);
        assert(b == seq!["--ob"@, obs2[i].0, "--ob-nexus"@, obs2[i].1]);
        assert(a[1] == b[1] && a[3] == b[3]);
    }
    assert(obs =~= obs2);
}

} // verus!
