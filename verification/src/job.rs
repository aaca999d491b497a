//! Running one normalization job: the command line, the script's output, the
//! outcome, and the summary log kept meanwhile.

use vstd::prelude::*;
use crate::clock::LocalTime;
use crate::laws::launch;
use crate::norm::{Counts, JobSpec};
use crate::text::{Class, Text};
use crate::{clock, norm, number, paths, quoting, text};

verus! {

// ---------------------------------------------------------------------
// The command

/// The folder a job stages its result in.
pub open spec fn partial_of(output: Text) -> Text {
    paths::with_ext(output, "partial"@)
}

/// What the images are named after: the final folder, not the staging one.
pub open spec fn base_name(output: Text) -> Text {
    match paths::file_name(output) {
        Some(name) => name,
        None => "normalization"@,
    }
}

/// The flags of a list of inputs, with their values.
pub open spec fn input_flags(inputs: Seq<(Text, Text)>, folder: Text, nexus: Text) -> Seq<
    (Text, Text),
>
    decreases inputs.len(),
{
    if inputs.len() == 0 {
        Seq::empty()
    } else {
        input_flags(inputs.drop_last(), folder, nexus) + seq![
            (folder, inputs.last().0),
            (nexus, inputs.last().1),
        ]
    }
}

/// Every flag of the command, with its value.
pub open spec fn flags(
    config: Text,
    output: Text,
    samples: Seq<(Text, Text)>,
    obs: Seq<(Text, Text)>,
) -> Seq<(Text, Text)> {
    seq![
        ("--config"@, config),
        ("--output"@, partial_of(output)),
        ("--basename"@, base_name(output)),
    ] + input_flags(samples, "--sample"@, "--sample-nexus"@) + input_flags(
        obs,
        "--ob"@,
        "--ob-nexus"@,
    )
}

/// Flags and values one after the other.
pub open spec fn flat(flags: Seq<(Text, Text)>) -> Seq<Text>
    decreases flags.len(),
{
    if flags.len() == 0 {
        Seq::empty()
    } else {
        flat(flags.drop_last()) + seq![flags.last().0, flags.last().1]
    }
}

/// The command of a job that reads these inputs: the interpreter, the script
/// and the flags.
pub open spec fn command(
    config: Text,
    output: Text,
    samples: Seq<(Text, Text)>,
    obs: Seq<(Text, Text)>,
) -> Seq<Text> {
    seq![norm::PYTHON_BIN@, norm::NORMALIZE_SCRIPT@] + flat(flags(config, output, samples, obs))
}

fn put_pair(out: &mut Vec<String>, flag: &str, value: &str)
    ensures
        text::texts(final(out)@) == text::texts(old(out)@) + seq![flag@, value@],
{
    out.push(flag.to_owned());
    out.push(value.to_owned());
    assert(text::texts(out@) =~= text::texts(old(out)@) + seq![flag@, value@]);
}

proof fn lemma_flat_push(fs: Seq<(Text, Text)>, p: (Text, Text))
    ensures
        flat(fs.push(p)) == flat(fs) + seq![p.0, p.1],
{
    assert(fs.push(p).drop_last() =~= fs);
}

fn put_inputs(
    out: &mut Vec<String>,
    inputs: &Vec<(String, String)>,
    folder: &str,
    nexus: &str,
    Ghost(before): Ghost<Seq<(Text, Text)>>,
    Ghost(front): Ghost<Seq<Text>>,
)
    requires
        text::texts(old(out)@) == front + flat(before),
    ensures
        text::texts(final(out)@) == front + flat(
            before + input_flags(text::pair_texts(inputs@), folder@, nexus@),
        ),
{
    let ghost ins = text::pair_texts(inputs@);
    let mut i: usize = 0;
    assert(ins.take(0) =~= Seq::empty());
    assert(before + input_flags(ins.take(0), folder@, nexus@) =~= before);
    while i < inputs.len()
        invariant
            i <= inputs@.len(),
            ins == text::pair_texts(inputs@),
            text::texts(out@) == front + flat(
                before + input_flags(ins.take(i as int), folder@, nexus@),
            ),
        decreases inputs@.len() - i,
    {
        let ghost so_far = before + input_flags(ins.take(i as int), folder@, nexus@);
        put_pair(out, folder, inputs[i].0.as_str());
        put_pair(out, nexus, inputs[i].1.as_str());
        proof {
            assert(ins.take(i + 1).drop_last() =~= ins.take(i as int));
            assert(ins.take(i + 1).last() == (inputs@[i as int].0@, inputs@[i as int].1@));
            let a = (folder@, ins[i as int].0);
            let b = (nexus@, ins[i as int].1);
            lemma_flat_push(so_far, a);
            lemma_flat_push(so_far.push(a), b);
            assert(so_far.push(a).push(b) =~= before + input_flags(
                ins.take(i + 1),
                folder@,
                nexus@,
            ));
            assert(text::texts(out@) =~= front + flat(so_far.push(a).push(b)));
        }
        i = i + 1;
    }
    assert(ins.take(i as int) =~= ins);
}

/// The command line of a job that reads these inputs (the job's own, or
/// their cropped copies): the interpreter, then its arguments.
pub fn command_line(
    spec: &JobSpec,
    samples: &Vec<(String, String)>,
    obs: &Vec<(String, String)>,
) -> (r: Vec<String>)
    ensures
        text::texts(r@) == command(
            spec@.config,
            spec@.output,
            text::pair_texts(samples@),
            text::pair_texts(obs@),
        ),
        r@.len() == 8 + 4 * samples@.len() + 4 * obs@.len(),
        forall|i: int|
            0 <= i < samples@.len() ==> text::texts(r@).subrange(8 + 4 * i, 12 + 4 * i) == seq![
                "--sample"@,
                (#[trigger] samples@[i]).0@,
                "--sample-nexus"@,
                samples@[i].1@,
            ],
        forall|i: int|
            0 <= i < obs@.len() ==> text::texts(r@).subrange(
                8 + 4 * samples@.len() + 4 * i,
                12 + 4 * samples@.len() + 4 * i,
            ) == seq!["--ob"@, (#[trigger] obs@[i]).0@, "--ob-nexus"@, obs@[i].1@],
{
    let partial = staging_folder(spec);
    let name = match paths::file_name_of(spec.output.as_str()) {
        Some(name) => name,
        None => "normalization".to_owned(),
    };
    let mut out: Vec<String> = Vec::new();
    put_pair(&mut out, norm::PYTHON_BIN, norm::NORMALIZE_SCRIPT);
    let ghost front = seq![norm::PYTHON_BIN@, norm::NORMALIZE_SCRIPT@];
    assert(text::texts(out@) =~= front);
    put_pair(&mut out, "--config", spec.config.as_str());
    put_pair(&mut out, "--output", partial.as_str());
    put_pair(&mut out, "--basename", name.as_str());
    let ghost a = ("--config"@, spec@.config);
    let ghost b = ("--output"@, partial@);
    let ghost c = ("--basename"@, name@);
    let ghost none = Seq::<(Text, Text)>::empty();
    let ghost first = none.push(a).push(b).push(c);
    proof {
        lemma_flat_push(none, a);
        lemma_flat_push(none.push(a), b);
        lemma_flat_push(none.push(a).push(b), c);
        assert(first =~= seq![a, b, c]);
        assert(text::texts(out@) =~= front + flat(first));
    }
    put_inputs(&mut out, samples, "--sample", "--sample-nexus", Ghost(first), Ghost(front));
    let ghost second = first + input_flags(
        text::pair_texts(samples@),
        "--sample"@,
        "--sample-nexus"@,
    );
    put_inputs(&mut out, obs, "--ob", "--ob-nexus", Ghost(second), Ghost(front));
    proof {
        let ss = text::pair_texts(samples@);
        let os = text::pair_texts(obs@);
        let line = command(spec@.config, spec@.output, ss, os);
        assert(text::texts(out@) =~= line);
        launch::commands_hold_every_input(spec@.config, spec@.output, ss, os);
        assert forall|i: int| 0 <= i < samples@.len() implies line.subrange(8 + 4 * i, 12 + 4 * i)
            == seq![
            "--sample"@,
            (#[trigger] samples@[i]).0@,
            "--sample-nexus"@,
            samples@[i].1@,
        ] by {
            assert(ss[i] == (samples@[i].0@, samples@[i].1@));
        }
        assert forall|i: int| 0 <= i < obs@.len() implies line.subrange(
            8 + 4 * samples@.len() + 4 * i,
            12 + 4 * samples@.len() + 4 * i,
        ) == seq!["--ob"@, (#[trigger] obs@[i]).0@, "--ob-nexus"@, obs@[i].1@] by {
            assert(os[i] == (obs@[i].0@, obs@[i].1@));
        }
    }
    out
}

/// The staging folder of a job, next to its output.
pub fn staging_folder(spec: &JobSpec) -> (r: String)
    ensures
        r@ == partial_of(spec@.output),
{
    paths::with_extension(spec.output.as_str(), "partial")
}

/// The values of a flag.
pub open spec fn values_of(flags: Seq<(Text, Text)>, flag: Text) -> Seq<Text>
    decreases flags.len(),
{
    if flags.len() == 0 {
        Seq::empty()
    } else if flags.last().0 == flag {
        values_of(flags.drop_last(), flag).push(flags.last().1)
    } else {
        values_of(flags.drop_last(), flag)
    }
}

proof fn lemma_values_push(fs: Seq<(Text, Text)>, p: (Text, Text), flag: Text)
    ensures
        values_of(fs.push(p), flag) == (if p.0 == flag {
            values_of(fs, flag).push(p.1)
        } else {
            values_of(fs, flag)
        }),
{
    assert(fs.push(p).drop_last() =~= fs);
}

proof fn lemma_values_after_append(tokens: Seq<Text>, a: Text, b: Text, flag: Text)
    requires
        tokens.len() > 0 ==> tokens.last() != flag,
    ensures
        norm::values_after(tokens + seq![a, b], flag) == norm::values_after(tokens, flag) + (
        if a == flag {
            seq![b]
        } else {
            Seq::empty()
        }),
    decreases tokens.len(),
{
    let all = tokens + seq![a, b];
    if tokens.len() == 0 {
        assert(all =~= seq![a, b]);
        assert(all.drop_first() =~= seq![b]);
        assert(norm::values_after(all.drop_first(), flag) =~= Seq::empty());
        assert(norm::values_after(all, flag) =~= norm::values_after(tokens, flag) + (if a == flag {
            seq![b]
        } else {
            Seq::empty()
        }));
    } else {
        let rest = tokens.drop_first();
        assert(all.drop_first() =~= rest + seq![a, b]);
        if rest.len() > 0 {
            assert(rest.last() == tokens.last());
        }
        lemma_values_after_append(rest, a, b, flag);
        if tokens.len() == 1 {
            assert(norm::values_after(tokens, flag) =~= Seq::empty());
            assert(norm::values_after(rest, flag) =~= Seq::empty());
        } else {
            assert(all[1] == tokens[1]);
        }
        assert(norm::values_after(all, flag) =~= norm::values_after(tokens, flag) + (if a == flag {
            seq![b]
        } else {
            Seq::empty()
        }));
    }
}

proof fn lemma_values_of_flat(front: Seq<Text>, fs: Seq<(Text, Text)>, flag: Text)
    requires
        front.len() == 2,
        front[0] != flag,
        front[1] != flag,
        forall|i: int| 0 <= i < fs.len() ==> (#[trigger] fs[i]).1 != flag,
    ensures
        norm::values_after(front + flat(fs), flag) == values_of(fs, flag),
        (front + flat(fs)).last() != flag,
        (front + flat(fs)).len() >= 2,
    decreases fs.len(),
{
    if fs.len() == 0 {
        let none = Seq::<Text>::empty();
        assert(front + flat(fs) =~= front);
        lemma_values_after_append(none, front[0], front[1], flag);
        assert(none + seq![front[0], front[1]] =~= front);
        assert(norm::values_after(front, flag) =~= none);
    } else {
        let rest = fs.drop_last();
        assert forall|i: int| 0 <= i < rest.len() implies (#[trigger] rest[i]).1 != flag by {
            assert(rest[i] == fs[i]);
        }
        lemma_values_of_flat(front, rest, flag);
        let p = fs.last();
        assert(fs[fs.len() - 1] == p);
        lemma_values_after_append(front + flat(rest), p.0, p.1, flag);
        assert(front + flat(fs) =~= front + flat(rest) + seq![p.0, p.1]);
        assert(norm::values_after(front + flat(fs), flag) =~= values_of(fs, flag));
    }
}

proof fn lemma_values_of_inputs(
    before: Seq<(Text, Text)>,
    inputs: Seq<(Text, Text)>,
    folder: Text,
    nexus: Text,
    flag: Text,
)
    requires
        nexus != flag,
    ensures
        values_of(before + input_flags(inputs, folder, nexus), flag) == values_of(before, flag) + (
        if folder == flag {
            norm::folders_of(inputs)
        } else {
            Seq::empty()
        }),
    decreases inputs.len(),
{
    let fs = before + input_flags(inputs, folder, nexus);
    if inputs.len() == 0 {
        assert(fs =~= before);
        assert(values_of(before, flag) =~= values_of(before, flag) + (if folder == flag {
            norm::folders_of(inputs)
        } else {
            Seq::empty()
        }));
    } else {
        lemma_values_of_inputs(before, inputs.drop_last(), folder, nexus, flag);
        let shorter = before + input_flags(inputs.drop_last(), folder, nexus);
        let a = (folder, inputs.last().0);
        let b = (nexus, inputs.last().1);
        assert(fs =~= shorter.push(a).push(b));
        lemma_values_push(shorter, a, flag);
        lemma_values_push(shorter.push(a), b, flag);
        assert(norm::folders_of(inputs) =~= norm::folders_of(inputs.drop_last()).push(
            inputs.last().0,
        ));
        assert(values_of(fs, flag) =~= values_of(before, flag) + (if folder == flag {
            norm::folders_of(inputs)
        } else {
            Seq::empty()
        }));
    }
}

/// Is none of the command's values the word of a flag?
pub open spec fn no_value_is(flags: Seq<(Text, Text)>, flag: Text) -> bool {
    forall|i: int| 0 <= i < flags.len() ==> (#[trigger] flags[i]).1 != flag
}

/// The configuration and the open beams a job was launched with are read
/// back from its log line, as long as none of the command's values is itself
/// the word `--config` or `--ob`.
pub proof fn launches_read_back(
    prefix: Text,
    config: Text,
    output: Text,
    samples: Seq<(Text, Text)>,
    obs: Seq<(Text, Text)>,
)
    requires
        text::all_in(prefix, Class::Not('"')),
        no_value_is(flags(config, output, samples, obs), "--config"@),
        no_value_is(flags(config, output, samples, obs), "--ob"@),
    ensures
        norm::line_launch(prefix + quoting::quoted(command(config, output, samples, obs))) == (
        norm::Launch { config: Some(config), obs: norm::folders_of(obs) }),
{
    let fs = flags(config, output, samples, obs);
    let front = seq![norm::PYTHON_BIN@, norm::NORMALIZE_SCRIPT@];
    quoting::logged_arguments_read_back(prefix, command(config, output, samples, obs));
    reveal_strlit("--config");
    reveal_strlit("--output");
    reveal_strlit("--basename");
    reveal_strlit("--sample");
    reveal_strlit("--sample-nexus");
    reveal_strlit("--ob");
    reveal_strlit("--ob-nexus");
    reveal_strlit(
        "/SNS/VENUS/shared/software/git/rust_workflow_runner/scripts/normalize_tof.py",
    );
    reveal_strlit(
        "/SNS/VENUS/shared/software/git/marimo_notebooks/.pixi/envs/default/bin/python",
    );
    assert(norm::PYTHON_BIN@[0] == '/' && norm::NORMALIZE_SCRIPT@[0] == '/');
    assert("--config"@[0] == '-' && "--ob"@[0] == '-');
    assert("--ob"@.len() == 4);
    assert("--config"@[2] == 'c' && "--output"@[2] == 'o' && "--basename"@[2] == 'b');
    assert("--sample"@[2] == 's' && "--sample-nexus"@[2] == 's' && "--ob-nexus"@[2] == 'o');
    assert("--ob"@[2] == 'o');
    lemma_values_of_flat(front, fs, "--config"@);
    lemma_values_of_flat(front, fs, "--ob"@);
    let first = seq![
        ("--config"@, config),
        ("--output"@, partial_of(output)),
        ("--basename"@, base_name(output)),
    ];
    let none = Seq::<(Text, Text)>::empty();
    let s1 = none.push(first[0]);
    let s2 = s1.push(first[1]);
    let s3 = s2.push(first[2]);
    assert(s3 =~= first);
    lemma_values_push(none, first[0], "--config"@);
    lemma_values_push(s1, first[1], "--config"@);
    lemma_values_push(s2, first[2], "--config"@);
    lemma_values_push(none, first[0], "--ob"@);
    lemma_values_push(s1, first[1], "--ob"@);
    lemma_values_push(s2, first[2], "--ob"@);
    assert("--output"@.len() == 8);
    assert(values_of(first, "--config"@) =~= seq![config]);
    assert(values_of(first, "--ob"@) =~= Seq::empty());
    let second = first + input_flags(samples, "--sample"@, "--sample-nexus"@);
    lemma_values_of_inputs(first, samples, "--sample"@, "--sample-nexus"@, "--config"@);
    lemma_values_of_inputs(first, samples, "--sample"@, "--sample-nexus"@, "--ob"@);
    lemma_values_of_inputs(second, obs, "--ob"@, "--ob-nexus"@, "--config"@);
    lemma_values_of_inputs(second, obs, "--ob"@, "--ob-nexus"@, "--ob"@);
    assert(values_of(fs, "--config"@) =~= seq![config]);
    assert(values_of(fs, "--ob"@) =~= norm::folders_of(obs));
}

proof fn lemma_values_of_nexus(
    before: Seq<(Text, Text)>,
    inputs: Seq<(Text, Text)>,
    folder: Text,
    nexus: Text,
)
    requires
        folder != nexus,
    ensures
        values_of(before + input_flags(inputs, folder, nexus), nexus) == values_of(before, nexus)
            + inputs.map_values(|p: (Text, Text)| p.1),
    decreases inputs.len(),
{
    let fs = before + input_flags(inputs, folder, nexus);
    let of = |p: (Text, Text)| p.1;
    if inputs.len() == 0 {
        assert(fs =~= before);
        assert(values_of(before, nexus) =~= values_of(before, nexus) + inputs.map_values(of));
    } else {
        let rest = inputs.drop_last();
        lemma_values_of_nexus(before, rest, folder, nexus);
        let shorter = before + input_flags(rest, folder, nexus);
        let a = (folder, inputs.last().0);
        let b = (nexus, inputs.last().1);
        assert(fs =~= shorter.push(a).push(b));
        lemma_values_push(shorter, a, nexus);
        lemma_values_push(shorter.push(a), b, nexus);
        assert(inputs.map_values(of) =~= rest.map_values(of).push(inputs.last().1));
        assert(values_of(fs, nexus) =~= values_of(before, nexus) + inputs.map_values(of));
    }
}

/// In the launched command the values that follow `--sample` are the folders
/// of all the samples, in order, and those that follow `--sample-nexus` their
/// NeXus files, in order; so are those that follow `--ob` and `--ob-nexus` of
/// the open beams, and the one that follows `--config` is the configuration,
/// as long as no value is itself one of these words.
pub proof fn launches_name_every_input(
    config: Text,
    output: Text,
    samples: Seq<(Text, Text)>,
    obs: Seq<(Text, Text)>,
)
    requires
        no_value_is(flags(config, output, samples, obs), "--config"@),
        no_value_is(flags(config, output, samples, obs), "--sample"@),
        no_value_is(flags(config, output, samples, obs), "--sample-nexus"@),
        no_value_is(flags(config, output, samples, obs), "--ob"@),
        no_value_is(flags(config, output, samples, obs), "--ob-nexus"@),
    ensures
        norm::values_after(command(config, output, samples, obs), "--config"@) == seq![config],
        norm::values_after(command(config, output, samples, obs), "--sample"@)
            == samples.map_values(|p: (Text, Text)| p.0),
        norm::values_after(command(config, output, samples, obs), "--sample-nexus"@)
            == samples.map_values(|p: (Text, Text)| p.1),
        norm::values_after(command(config, output, samples, obs), "--ob"@) == obs.map_values(
            |p: (Text, Text)| p.0,
        ),
        norm::values_after(command(config, output, samples, obs), "--ob-nexus"@) == obs.map_values(
            |p: (Text, Text)| p.1,
        ),
{
    let fs = flags(config, output, samples, obs);
    let front = seq![norm::PYTHON_BIN@, norm::NORMALIZE_SCRIPT@];
    reveal_strlit("--config");
    reveal_strlit("--output");
    reveal_strlit("--basename");
    reveal_strlit("--sample");
    reveal_strlit("--sample-nexus");
    reveal_strlit("--ob");
    reveal_strlit("--ob-nexus");
    reveal_strlit(
        "/SNS/VENUS/shared/software/git/rust_workflow_runner/scripts/normalize_tof.py",
    );
    reveal_strlit(
        "/SNS/VENUS/shared/software/git/marimo_notebooks/.pixi/envs/default/bin/python",
    );
    assert(norm::PYTHON_BIN@[0] == '/' && norm::NORMALIZE_SCRIPT@[0] == '/');
    let first = seq![
        ("--config"@, config),
        ("--output"@, partial_of(output)),
        ("--basename"@, base_name(output)),
    ];
    let none = Seq::<(Text, Text)>::empty();
    let s1 = none.push(first[0]);
    let s2 = s1.push(first[1]);
    let second = first + input_flags(samples, "--sample"@, "--sample-nexus"@);
    assert(s2.push(first[2]) =~= first);
    assert("--config"@[2] == 'c' && "--output"@[2] == 'o' && "--basename"@[2] == 'b');
    assert("--sample"@[2] == 's' && "--sample-nexus"@[2] == 's');
    assert("--ob"@[2] == 'o' && "--ob-nexus"@[2] == 'o');
    assert("--sample"@.len() == 8 && "--sample-nexus"@.len() == 14);
    assert("--ob"@.len() == 4 && "--ob-nexus"@.len() == 10 && "--output"@.len() == 8);
    assert forall|flag: Text|
        (flag == "--config"@ || flag == "--sample"@ || flag == "--sample-nexus"@ || flag == "--ob"@
            || flag == "--ob-nexus"@) implies #[trigger] values_of(first, flag) == (if flag
        == "--config"@ {
        seq![config]
    } else {
        Seq::empty()
    }) && flag[0] == '-' by {
        lemma_values_push(none, first[0], flag);
        lemma_values_push(s1, first[1], flag);
        lemma_values_push(s2, first[2], flag);
        assert(values_of(none, flag) =~= Seq::empty());
        assert(values_of(first, flag) =~= (if flag == "--config"@ {
            seq![config]
        } else {
            Seq::empty()
        }));
    }
    assert(values_of(first, "--config"@) == seq![config]);
    lemma_values_of_flat(front, fs, "--config"@);
    lemma_values_of_inputs(first, samples, "--sample"@, "--sample-nexus"@, "--config"@);
    lemma_values_of_inputs(second, obs, "--ob"@, "--ob-nexus"@, "--config"@);
    assert(values_of(fs, "--config"@) =~= seq![config]);
    assert(values_of(first, "--sample"@) == Seq::<Text>::empty());
    lemma_values_of_flat(front, fs, "--sample"@);
    lemma_values_of_inputs(first, samples, "--sample"@, "--sample-nexus"@, "--sample"@);
    lemma_values_of_inputs(second, obs, "--ob"@, "--ob-nexus"@, "--sample"@);
    assert(values_of(fs, "--sample"@) =~= samples.map_values(|p: (Text, Text)| p.0));
    assert(values_of(first, "--sample-nexus"@) == Seq::<Text>::empty());
    lemma_values_of_flat(front, fs, "--sample-nexus"@);
    lemma_values_of_nexus(first, samples, "--sample"@, "--sample-nexus"@);
    lemma_values_of_inputs(second, obs, "--ob"@, "--ob-nexus"@, "--sample-nexus"@);
    assert(values_of(fs, "--sample-nexus"@) =~= samples.map_values(|p: (Text, Text)| p.1));
    assert(values_of(first, "--ob"@) == Seq::<Text>::empty());
    lemma_values_of_flat(front, fs, "--ob"@);
    lemma_values_of_inputs(first, samples, "--sample"@, "--sample-nexus"@, "--ob"@);
    lemma_values_of_inputs(second, obs, "--ob"@, "--ob-nexus"@, "--ob"@);
    assert(values_of(fs, "--ob"@) =~= obs.map_values(|p: (Text, Text)| p.0));
    assert(values_of(first, "--ob-nexus"@) == Seq::<Text>::empty());
    lemma_values_of_flat(front, fs, "--ob-nexus"@);
    lemma_values_of_inputs(first, samples, "--sample"@, "--sample-nexus"@, "--ob-nexus"@);
    lemma_values_of_nexus(second, obs, "--ob"@, "--ob-nexus"@);
    assert(values_of(fs, "--ob-nexus"@) =~= obs.map_values(|p: (Text, Text)| p.1));
}

/// The line of a job's log that records its launch.
pub open spec fn launch_line(command: Seq<Text>) -> Text {
    "running:"@ + quoting::quoted(command)
}

/// The line of a job's log that records its launch: the program and its
/// arguments, each quoted.
pub fn running_line(command: &Vec<String>) -> (r: String)
    ensures
        r@ == "running:"@ + quoting::quoted(text::texts(command@)),
        r@ == launch_line(text::texts(command@)),
{
    let arguments = quoting::quote(command);
    text::cat2("running:", arguments.as_str())
}

/// Lines that record no launch leave the launch before them the last one.
proof fn lemma_last_launch_before(a: Seq<Text>, b: Seq<Text>)
    requires
        norm::last_launch(b) is None,
    ensures
        norm::last_launch(a + b) == norm::last_launch(a),
    decreases b.len(),
{
    if b.len() == 0 {
        assert(a + b =~= a);
    } else {
        assert((a + b).drop_last() =~= a + b.drop_last());
        assert((a + b).last() == b.last());
        lemma_last_launch_before(a, b.drop_last());
    }
}

/// A job's log gives back the launch that it recorded last, whatever stands
/// before its line, as long as nothing after it records another and none of
/// the command's values is itself the word `--config` or `--ob`. `stamp` is
/// what the log puts before a line.
pub proof fn logged_launches_read_back(
    earlier: Text,
    stamp: Text,
    config: Text,
    output: Text,
    samples: Seq<(Text, Text)>,
    obs: Seq<(Text, Text)>,
    later: Text,
)
    requires
        earlier.len() == 0 || earlier.last() == '\n',
        text::all_in(stamp, Class::Not('"')),
        text::all_in(stamp, Class::Not('\n')),
        norm::last_launch(text::lines_of(later)) is None,
        no_value_is(flags(config, output, samples, obs), "--config"@),
        no_value_is(flags(config, output, samples, obs), "--ob"@),
    ensures
        norm::last_launch(
            text::lines_of(
                earlier + (stamp + launch_line(command(config, output, samples, obs))) + seq!['\n']
                    + later,
            ),
        ) == Some(norm::Launch { config: Some(config), obs: norm::folders_of(obs) }),
{
    let words = command(config, output, samples, obs);
    let rest = quoting::quoted(words);
    let line = stamp + launch_line(words);
    let prefix = stamp + "running:"@;
    reveal_strlit("running:");
    assert(line =~= prefix + rest);
    assert forall|i: int| 0 <= i < prefix.len() implies text::in_class(
        #[trigger] prefix[i],
        Class::Not('"'),
    ) && text::in_class(prefix[i], Class::Not('\n')) by {
        if i < stamp.len() {
            assert(prefix[i] == stamp[i]);
            assert(text::in_class(stamp[i], Class::Not('"')));
            assert(text::in_class(stamp[i], Class::Not('\n')));
        }
    }
    quoting::quoted_arguments_are_one_line(words);
    assert(words.len() > 0);
    assert(line.last() == rest.last());
    assert(text::without_return(line) == line);
    assert forall|i: int| 0 <= i < line.len() implies text::in_class(
        #[trigger] line[i],
        Class::Not('\n'),
    ) by {
        if i < prefix.len() {
            assert(line[i] == prefix[i]);
        } else {
            assert(line[i] == rest[i - prefix.len()]);
        }
    }
    launches_read_back(prefix, config, output, samples, obs);
    assert(line.subrange(
        stamp.len() as int,
        (stamp.len() + "running:"@.len()) as int,
    ) =~= "running:"@);
    text::find_is_the_first(line, "running:"@);
    assert(text::occurs_at(line, "running:"@, stamp.len() as int));
    text::a_line_in_between_is_read(earlier, line, later);
    let front = text::lines_of(earlier).push(line);
    assert(text::lines_of(earlier) + seq![line] =~= front);
    assert(front.drop_last() =~= text::lines_of(earlier));
    lemma_last_launch_before(front, text::lines_of(later));
}

// ---------------------------------------------------------------------
// The script's output

/// What a line of the script's output calls for.
pub enum Reaction {
    /// A PROGRESS line: the progress bar moves.
    Progress { stage: String, counts: Counts },
    /// The STAGES line: the workflow's stages are known.
    Stages(Vec<String>),
    /// Any other line goes to the log; one that is not blank is also shown.
    Output { shown: bool },
}

/// The last lines kept for an error message.
pub open spec fn tail_with(tail: Seq<Text>, line: Text) -> Seq<Text> {
    let t = tail.push(line);
    if t.len() > 8 {
        t.skip(1)
    } else {
        t
    }
}

/// Is this an output line to be shown: not blank, no PROGRESS, no STAGES?
pub open spec fn shown_line(line: Text) -> bool {
    norm::progress(line) is None && norm::stages(line) is None && text::trimmed(line).len() > 0
}

/// The last lines kept after all these lines of output.
pub open spec fn tail_of(lines: Seq<Text>) -> Seq<Text>
    decreases lines.len(),
{
    if lines.len() == 0 {
        Seq::empty()
    } else if shown_line(lines.last()) {
        tail_with(tail_of(lines.drop_last()), lines.last())
    } else {
        tail_of(lines.drop_last())
    }
}

/// Take one line of the script's output: PROGRESS lines feed the progress
/// bar, everything else goes to the log (and the error tail).
pub fn react(line: &str, tail: &mut Vec<String>) -> (r: Reaction)
    requires
        old(tail)@.len() <= 8,
    ensures
        final(tail)@.len() <= 8,
        text::texts(final(tail)@) == (if shown_line(line@) {
            tail_with(text::texts(old(tail)@), line@)
        } else {
            text::texts(old(tail)@)
        }),
        match r {
            Reaction::Progress { stage, counts } => norm::progress(line@) == Some(
                (stage@, counts.done@, counts.total@),
            ),
            Reaction::Stages(list) => norm::progress(line@) is None && norm::stages(line@) == Some(
                text::texts(list@),
            ),
            Reaction::Output { shown } => norm::progress(line@) is None && norm::stages(line@) is None
                && shown == shown_line(line@),
        },
{
    match norm::parse_progress(line) {
        Some((stage, counts)) => {
            return Reaction::Progress { stage, counts };
        },
        None => {},
    }
    match norm::parse_stages(line) {
        Some(list) => {
            return Reaction::Stages(list);
        },
        None => {},
    }
    let bare = text::trim(line);
    if bare.as_str().is_empty() {
        return Reaction::Output { shown: false };
    }
    let ghost before = text::texts(tail@);
    let kept = line.to_owned();
    tail.push(kept);
    assert(text::texts(tail@) =~= before.push(line@));
    if tail.len() > 8 {
        tail.remove(0);
        assert(text::texts(tail@) =~= before.push(line@).skip(1));
    }
    Reaction::Output { shown: true }
}

/// The kept lines are the last ones shown: at most eight of them, and all of
/// them while there are no more than that.
pub proof fn tail_is_the_end_of_the_output(lines: Seq<Text>)
    ensures
        ({
            let shown = lines.filter(|l: Text| shown_line(l));
            let n = shown.len();
            tail_of(lines) == (if n > 8 {
                shown.skip(n - 8)
            } else {
                shown
            })
        }),
    decreases lines.len(),
{
    reveal(Seq::filter);
    let keep = |l: Text| shown_line(l);
    let shown = lines.filter(keep);
    if lines.len() > 0 {
        tail_is_the_end_of_the_output(lines.drop_last());
        let before = lines.drop_last().filter(keep);
        if shown_line(lines.last()) {
            assert(shown == before.push(lines.last()));
            if before.len() > 8 {
                assert(before.skip(before.len() - 8).push(lines.last()).skip(1) =~= shown.skip(
                    shown.len() - 8,
                ));
            } else if before.len() == 8 {
                assert(before.push(lines.last()).skip(1) =~= shown.skip(1));
            }
        }
    } else {
        assert(tail_of(lines) =~= shown);
    }
}

// ---------------------------------------------------------------------
// The outcome

/// The message of a job whose process ended badly: `status` describes the
/// end, `signal` tells whether a signal caused it.
pub open spec fn failure(signal: bool, status: Text, tail: Seq<Text>) -> Text {
    if signal {
        norm::KILLED_PREFIX@ + " ("@ + status
            + ") — the analysis machine most likely ran out of memory: every normalization holds the sample and open-beam image stacks in memory, and too many at once (this tool's parallel jobs, other users, other tools on the same machine) exhaust it. The run is retried once automatically when a slot frees up; fewer parallel jobs help.\n"@
            + text::joined(tail, "\n"@)
    } else {
        "normalization script failed ("@ + status + ")\n"@ + text::joined(tail, "\n"@)
    }
}

/// A signal (SIGKILL above all) does not come from the script: it is the
/// kernel's OOM killer when the analysis machine runs out of memory — every
/// NeuNorm job holds the sample and open-beam stacks in memory, and too many
/// at once (from this tool, other users or other tools) exhaust it.
pub fn failure_message(signal: bool, status: &str, tail: &Vec<String>) -> (r: String)
    ensures
        r@ == failure(signal, status@, text::texts(tail@)),
{
    let lines = text::join(tail, "\n");
    if signal {
        text::cat5(
            norm::KILLED_PREFIX,
            " (",
            status,
            ") — the analysis machine most likely ran out of memory: every normalization holds the sample and open-beam image stacks in memory, and too many at once (this tool's parallel jobs, other users, other tools on the same machine) exhaust it. The run is retried once automatically when a slot frees up; fewer parallel jobs help.\n",
            lines.as_str(),
        )
    } else {
        text::cat4("normalization script failed (", status, ")\n", lines.as_str())
    }
}

/// Only a job ended by a signal counts as killed by the system, and every
/// such job does.
pub proof fn kills_are_recognized(signal: bool, status: Text, tail: Seq<Text>)
    ensures
        text::begins(failure(signal, status, tail), norm::KILLED_PREFIX@) <==> signal,
{
    reveal_strlit("normalization process killed by the system");
    reveal_strlit("normalization script failed (");
    let m = failure(signal, status, tail);
    let p = norm::KILLED_PREFIX@;
    if signal {
        assert(m.subrange(0, p.len() as int) =~= p);
    } else {
        assert(m[14] == 's' && p[14] == 'p');
        if text::begins(m, p) {
            assert(m.subrange(0, p.len() as int)[14] == m[14]);
        }
    }
}

// ---------------------------------------------------------------------
// The summary log

/// A labelled line of the summary log.
pub open spec fn labelled(label: Text, value: Text) -> Text {
    "  "@ + text::padded(label, 14) + ": "@ + value + "\n"@
}

fn put_labelled(out: &mut String, label: &str, value: &str)
    ensures
        final(out)@ == old(out)@ + labelled(label@, value@),
{
    let shown = text::pad(label, 14);
    let line = text::cat5("  ", shown.as_str(), ": ", value, "\n");
    out.append(line.as_str());
}

/// The label of the input at index `i` of `n`.
pub open spec fn input_label(word: Text, i: int, n: int) -> Text {
    if n == 1 {
        word
    } else {
        word + " "@ + number::decimal((i + 1) as nat)
    }
}

/// The lines of the first `k` inputs of a list.
pub open spec fn input_lines(inputs: Seq<(Text, Text)>, word: Text, k: int) -> Text
    decreases k,
{
    if k <= 0 {
        Seq::empty()
    } else {
        input_lines(inputs, word, k - 1) + labelled(
            input_label(word, k - 1, inputs.len() as int),
            inputs[k - 1].0,
        ) + labelled("  nexus"@, inputs[k - 1].1)
    }
}

/// The lines of the settings.
pub open spec fn setting_lines(settings: Seq<(Text, Text)>) -> Text
    decreases settings.len(),
{
    if settings.len() == 0 {
        Seq::empty()
    } else {
        setting_lines(settings.drop_last()) + ("      "@ + settings.last().0 + " = "@
            + settings.last().1 + "\n"@)
    }
}

/// A region in words.
pub open spec fn region_words(region: crate::h5::Region) -> Text {
    "(x0, y0, x1, y1) = ("@ + number::decimal(region.0 as nat) + ", "@ + number::decimal(
        region.1 as nat,
    ) + ", "@ + number::decimal(region.2 as nat) + ", "@ + number::decimal(region.3 as nat) + ")"@
}

/// The line of the pre-crop, if there is one.
pub open spec fn crop_line(crop: Option<(crate::h5::Region, Text)>) -> Text {
    match crop {
        Some((region, parent)) => labelled(
            "pre-crop"@,
            region_words(region) + " — cropped copies in "@ + parent,
        ),
        None => Seq::empty(),
    }
}

/// The block of the summary log a job appends when it starts.
pub open spec fn start_block(job: norm::Job, clock: Text) -> Text {
    text::repeated('-', 78) + "\n["@ + clock + "] "@ + job.what
        + " — normalization STARTED\n"@ + input_lines(
        job.samples,
        "sample"@,
        job.samples.len() as int,
    ) + input_lines(job.obs, "open beam"@, job.obs.len() as int) + labelled(
        "configuration"@,
        job.config,
    ) + setting_lines(job.parameters) + crop_line(job.crop) + labelled("output"@, job.output)
        + labelled("job log"@, job.log)
}

fn put_inputs_lines(out: &mut String, inputs: &Vec<(String, String)>, word: &str)
    ensures
        final(out)@ == old(out)@ + input_lines(
            text::pair_texts(inputs@),
            word@,
            inputs@.len() as int,
        ),
{
    let ghost ins = text::pair_texts(inputs@);
    let mut i: usize = 0;
    assert(out@ =~= old(out)@ + input_lines(ins, word@, 0));
    while i < inputs.len()
        invariant
            i <= inputs@.len(),
            ins == text::pair_texts(inputs@),
            out@ == old(out)@ + input_lines(ins, word@, i as int),
        decreases inputs@.len() - i,
    {
        let label = if inputs.len() == 1 {
            word.to_owned()
        } else {
            let n = number::decimal_text(i as u64 + 1);
            text::cat3(word, " ", n.as_str())
        };
        let ghost before = out@;
        put_labelled(out, label.as_str(), inputs[i].0.as_str());
        put_labelled(out, "  nexus", inputs[i].1.as_str());
        assert(out@ =~= old(out)@ + input_lines(ins, word@, i + 1));
        i = i + 1;
    }
}

fn region_text(region: crate::h5::Region) -> (r: String)
    ensures
        r@ == region_words(region),
{
    let x0 = number::decimal_text(region.0 as u64);
    let y0 = number::decimal_text(region.1 as u64);
    let x1 = number::decimal_text(region.2 as u64);
    let y1 = number::decimal_text(region.3 as u64);
    let front = text::cat5("(x0, y0, x1, y1) = (", x0.as_str(), ", ", y0.as_str(), ", ");
    text::cat5(front.as_str(), x1.as_str(), ", ", y1.as_str(), ")")
}

/// The summary log (`autoreduction.log`) block a job appends when it
/// starts: what it normalizes, every input, the configuration and its
/// settings, where the result goes. One block, so parallel jobs never
/// interleave their lines.
pub fn summary_start_block(spec: &JobSpec, started: &LocalTime) -> (r: String)
    ensures
        r@ == start_block(spec@, started.clock()),
{
    let mut out = text::repeat('-', 78);
    out.append("\n[");
    out.append(started.clock_text());
    out.append("] ");
    out.append(spec.what.as_str());
    out.append(" — normalization STARTED\n");
    put_inputs_lines(&mut out, &spec.samples, "sample");
    put_inputs_lines(&mut out, &spec.obs, "open beam");
    put_labelled(&mut out, "configuration", spec.config.as_str());
    let ghost so_far = out@;
    let ghost ps = spec@.parameters;
    let mut i: usize = 0;
    assert(ps.take(0) =~= Seq::empty());
    assert(out@ =~= so_far + setting_lines(ps.take(0)));
    while i < spec.parameters.len()
        invariant
            i <= spec.parameters@.len(),
            ps == spec@.parameters,
            out@ == so_far + setting_lines(ps.take(i as int)),
        decreases spec.parameters@.len() - i,
    {
        let line = text::cat5(
            "      ",
            spec.parameters[i].0.as_str(),
            " = ",
            spec.parameters[i].1.as_str(),
            "\n",
        );
        proof {
            assert(ps.take(i + 1).drop_last() =~= ps.take(i as int));
            assert(ps.take(i + 1).last() == ps[i as int]);
        }
        out.append(line.as_str());
        assert(out@ =~= so_far + setting_lines(ps.take(i + 1)));
        i = i + 1;
    }
    assert(ps.take(i as int) =~= ps);
    let ghost so_far = out@;
    match &spec.crop {
        Some((region, parent)) => {
            let words = region_text(*region);
            let value = text::cat3(words.as_str(), " — cropped copies in ", parent.as_str());
            put_labelled(&mut out, "pre-crop", value.as_str());
        },
        None => {
            assert(out@ =~= so_far + crop_line(spec@.crop));
        },
    }
    put_labelled(&mut out, "output", spec.output.as_str());
    put_labelled(&mut out, "job log", spec.log.as_str());
    assert(out@ =~= start_block(spec@, started.clock()));
    out
}

/// The line of the summary log a job appends when it ends.
pub open spec fn end_line(
    what: Text,
    started: LocalTime,
    ended: LocalTime,
    outcome: Text,
) -> Text {
    "["@ + ended.clock() + "] "@ + what + " — normalization "@ + outcome + " (started "@
        + started.clock() + ", took "@ + norm::duration_words(clock::whole_seconds(started, ended))
        + ")\n"@
}

/// The summary log line a job appends when it ends.
pub fn summary_end_line(
    spec: &JobSpec,
    started: &LocalTime,
    ended: &LocalTime,
    outcome: &str,
) -> (r: String)
    ensures
        r@ == end_line(spec@.what, *started, *ended, outcome@),
{
    let took = norm::duration_text(clock::seconds_between(started, ended));
    let mut out = text::cat7(
        "[",
        ended.clock_text(),
        "] ",
        spec.what.as_str(),
        " — normalization ",
        outcome,
        " (started ",
    );
    out.append(started.clock_text());
    out.append(", took ");
    out.append(took.as_str());
    out.append(")\n");
    out
}

/// How a job ended: the result folder, and whether the job found it already
/// there (skipped) rather than produced it — or what went wrong.
pub enum Ending {
    Done { output: String, skipped: bool },
    Failed { message: String },
}

/// The first line of a message, without whitespace around it.
pub open spec fn first_line(message: Text) -> Text {
    let lines = text::lines_of(message);
    if lines.len() > 0 {
        text::trimmed(lines[0])
    } else {
        Seq::empty()
    }
}

/// What the summary log gets when a job ends, with the start time and the
/// duration: DONE with the result folder, SKIPPED when the result was already
/// there, FAILED with the first line of the error.
pub open spec fn closing(
    what: Text,
    started: LocalTime,
    ended: LocalTime,
    ending: Ending,
) -> Text {
    match ending {
        Ending::Done { output, skipped } => if skipped {
            end_line(what, started, ended, "SKIPPED, result already there: "@ + output@)
        } else {
            end_line(what, started, ended, "DONE → "@ + output@)
        },
        Ending::Failed { message } => end_line(
            what,
            started,
            ended,
            "FAILED: "@ + first_line(message@),
        ),
    }
}

/// The text to append to the summary log when a job has ended.
pub fn summary_closing(
    spec: &JobSpec,
    started: &LocalTime,
    ended: &LocalTime,
    ending: &Ending,
) -> (r: String)
    ensures
        r@ == closing(spec@.what, *started, *ended, *ending),
{
    match ending {
        Ending::Done { output, skipped } => {
            let outcome = if *skipped {
                text::cat2("SKIPPED, result already there: ", output.as_str())
            } else {
                text::cat2("DONE → ", output.as_str())
            };
            summary_end_line(spec, started, ended, outcome.as_str())
        },
        Ending::Failed { message } => {
            let lines = text::lines(message.as_str());
            assert(text::texts(lines@).len() == lines@.len());
            let first = if lines.len() > 0 {
                assert(text::texts(lines@)[0] == lines@[0]@);
                text::trim(lines[0].as_str())
            } else {
                String::new()
            };
            assert(first@ =~= first_line(message@));
            let outcome = text::cat2("FAILED: ", first.as_str());
            summary_end_line(spec, started, ended, outcome.as_str())
        },
    }
}

/// How a job begins.
pub enum Beginning {
    /// Never run twice: a complete result is reused as is, and the job ends
    /// there.
    Skip,
    /// The text goes to the summary log, and the job runs.
    Run { summary: String },
}

/// Decide how a job begins, from the names of the entries at its output.
pub fn begin(spec: &JobSpec, at_output: &Vec<String>, started: &LocalTime) -> (r: Beginning)
    ensures
        match r {
            Beginning::Skip => norm::done(text::texts(at_output@)),
            Beginning::Run { summary } => !norm::done(text::texts(at_output@)) && summary@
                == start_block(spec@, started.clock()),
        },
{
    if norm::output_is_done(at_output) {
        Beginning::Skip
    } else {
        Beginning::Run { summary: summary_start_block(spec, started) }
    }
}

/// What to say when the inputs are about to be pre-cropped.
pub fn precrop_notice(region: crate::h5::Region, parent: &str) -> (r: String)
    ensures
        r@ == "pre-crop "@ + region_words(region) + " into "@ + parent@,
{
    let words = region_text(region);
    text::cat4("pre-crop ", words.as_str(), " into ", parent)
}

/// Must what lies at the output be cleared before the staging folder is
/// promoted? A leftover destination without a result would make the rename
/// fail; one with a result is left alone.
pub fn clear_before_promoting(exists: bool, at_output: &Vec<String>) -> (r: bool)
    ensures
        r == (exists && !norm::done(text::texts(at_output@))),
{
    exists && !norm::output_is_done(at_output)
}

} // verus!
