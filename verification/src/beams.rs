//! Open beams: which runs they are, which are new, and the configuration
//! that names other ones.

use vstd::prelude::*;
use crate::files::{FileStatus, RunFiles};
use crate::h5::RunKind;
use crate::runmap::RunMap;
use crate::text::{chars_of, slice, Class, Text};
use crate::{files, h5, norm, number, order, paths, text};

verus! {

/// The run number of an open-beam folder, from its name.
pub open spec fn beam_run(folder: Text) -> Option<u64> {
    match paths::file_name(folder) {
        Some(name) => files::run_in_name(name),
        None => None,
    }
}

/// The run numbers of the folders that have one, in order.
pub open spec fn beam_runs(folders: Seq<Text>) -> Seq<u64>
    decreases folders.len(),
{
    if folders.len() == 0 {
        Seq::empty()
    } else {
        match beam_run(folders.last()) {
            Some(run) => beam_runs(folders.drop_last()).push(run),
            None => beam_runs(folders.drop_last()),
        }
    }
}

/// The names of the folders that have one, in order.
pub open spec fn beam_names(folders: Seq<Text>) -> Seq<Text>
    decreases folders.len(),
{
    if folders.len() == 0 {
        Seq::empty()
    } else {
        match paths::file_name(folders.last()) {
            Some(name) => beam_names(folders.drop_last()).push(name),
            None => beam_names(folders.drop_last()),
        }
    }
}

/// The open beams as a short list: their run numbers, or their names where
/// none has a number.
pub open spec fn beams_words(folders: Seq<Text>) -> Text {
    if beam_runs(folders).len() == 0 {
        text::joined(beam_names(folders), ", "@)
    } else {
        text::joined(number::decimals(beam_runs(folders)), ", "@)
    }
}

pub fn run_of_beam(folder: &str) -> (r: Option<u64>)
    ensures
        r == beam_run(folder@),
{
    match paths::file_name_of(folder) {
        Some(name) => files::run_number_in_name(name.as_str()),
        None => None,
    }
}

/// The run numbers of open-beam folders (from the `Run_<n>` token of
/// each folder name), in order; a folder without one is skipped.
pub fn ob_run_numbers(folders: &Vec<String>) -> (r: Vec<u64>)
    ensures
        r@ == beam_runs(text::texts(folders@)),
{
    let ghost fs = text::texts(folders@);
    let mut out: Vec<u64> = Vec::new();
    let mut i: usize = 0;
    while i < folders.len()
        invariant
            i <= folders@.len(),
            fs == text::texts(folders@),
            out@ == beam_runs(fs.take(i as int)),
        decreases folders@.len() - i,
    {
        assert(fs.take(i + 1).drop_last() =~= fs.take(i as int));
        assert(fs.take(i + 1).last() == folders@[i as int]@);
        match run_of_beam(folders[i].as_str()) {
            Some(run) => {
                out.push(run);
            },
            None => {},
        }
        i = i + 1;
    }
    assert(fs.take(i as int) =~= fs);
    out
}

/// `29905, 29906, 29907` — the open beams as a short run list.
pub fn ob_runs_text(folders: &Vec<String>) -> (r: String)
    ensures
        r@ == beams_words(text::texts(folders@)),
{
    let runs = ob_run_numbers(folders);
    if runs.len() > 0 {
        let list = number::decimal_texts(&runs);
        return text::join(&list, ", ");
    }
    let ghost fs = text::texts(folders@);
    let mut out: Vec<String> = Vec::new();
    let mut i: usize = 0;
    assert(text::texts(out@) =~= beam_names(fs.take(0)));
    while i < folders.len()
        invariant
            i <= folders@.len(),
            fs == text::texts(folders@),
            text::texts(out@) == beam_names(fs.take(i as int)),
        decreases folders@.len() - i,
    {
        assert(fs.take(i + 1).drop_last() =~= fs.take(i as int));
        assert(fs.take(i + 1).last() == folders@[i as int]@);
        match paths::file_name_of(folders[i].as_str()) {
            Some(name) => {
                let ghost before = out@;
                out.push(name);
                assert(text::texts(out@) =~= text::texts(before).push(name@));
            },
            None => {},
        }
        i = i + 1;
    }
    assert(fs.take(i as int) =~= fs);
    text::join(&out, ", ")
}

/// The folders of a list of open beams, one per line (for hovers).
pub fn ob_folders_text(folders: &Vec<String>) -> (r: String)
    ensures
        r@ == text::joined(text::texts(folders@), "\n"@),
{
    text::join(folders, "\n")
}

/// Is a listed open-beam run one of the configuration's open beams
/// (by run number — the configuration names corrected folders, the
/// same the table finds)?
pub fn ob_in_use(config_obs: &Vec<String>, run: u64) -> (r: bool)
    ensures
        r == beam_runs(text::texts(config_obs@)).contains(run),
{
    let runs = ob_run_numbers(config_obs);
    order::member(&runs, run)
}

/// The highest of the runs; zero for none.
pub open spec fn newest(runs: Seq<u64>) -> u64 {
    if runs.len() == 0 {
        0
    } else {
        norm::highest(runs)
    }
}

pub fn newest_run(runs: &Vec<u64>) -> (r: u64)
    ensures
        r == newest(runs@),
{
    if runs.len() == 0 {
        0
    } else {
        norm::highest_run(runs)
    }
}

/// What a run is, by the image folder its NeXus file records. A run of
/// which none is known counts as a sample run.
pub open spec fn kind_in(image_paths: Map<u64, String>, run: u64) -> RunKind {
    if image_paths.dom().contains(run) {
        h5::kind_of(image_paths[run]@)
    } else {
        RunKind::Sample
    }
}

/// What a run is (sample, open beam, alignment), per the image folder
/// its NeXus records. A run whose NeXus could not be read yet counts
/// as a sample run (classified on a later refresh).
pub fn run_kind(image_paths: &RunMap<String>, run: u64) -> (r: RunKind)
    ensures
        r == kind_in(image_paths@, run),
{
    match image_paths.get(run) {
        Some(path) => h5::image_path_kind(path.as_str()),
        None => RunKind::Sample,
    }
}

/// Is a run never normalized (alignment or open beam)? Such a run is
/// neither waited for nor put in the windows.
pub fn skips_normalization(image_paths: &RunMap<String>, run: u64) -> (r: bool)
    ensures
        r == (kind_in(image_paths@, run) != RunKind::Sample),
{
    run_kind(image_paths, run) != RunKind::Sample
}

/// Why a run is out of the windows and the normalizations.
pub open spec fn kind_words(kind: RunKind) -> Option<Text> {
    match kind {
        RunKind::Sample => None,
        RunKind::OpenBeam => Some("open beam"@),
        RunKind::Alignment => Some("alignment"@),
    }
}

/// Why a run is out of the windows and the normalizations, for the
/// timeline / hovers: "alignment" or "open beam".
pub fn kind_label(kind: RunKind) -> (r: Option<&'static str>)
    ensures
        text::opt_str(r) == kind_words(kind),
{
    match kind {
        RunKind::Sample => None,
        RunKind::OpenBeam => Some("open beam"),
        RunKind::Alignment => Some("alignment"),
    }
}

/// Is a run of the table a new open beam: landed after the configuration's
/// open beams, and not rejected?
pub open spec fn is_new_beam(
    run: u64,
    image_paths: Map<u64, String>,
    rejected: Seq<u64>,
    config_obs: Seq<Text>,
) -> bool {
    &&& run > newest(beam_runs(config_obs))
    &&& kind_in(image_paths, run) == RunKind::OpenBeam
    &&& !rejected.contains(run)
}

/// The new open beams among the rows, with the corrected folder of each.
pub open spec fn new_beams(
    rows: Seq<RunFiles<Text>>,
    image_paths: Map<u64, String>,
    rejected: Seq<u64>,
    config_obs: Seq<Text>,
) -> Seq<(u64, FileStatus<Text>)>
    decreases rows.len(),
{
    if rows.len() == 0 {
        Seq::empty()
    } else {
        let before = new_beams(rows.drop_last(), image_paths, rejected, config_obs);
        if is_new_beam(rows.last().run, image_paths, rejected, config_obs) {
            before.push((rows.last().run, rows.last().corrected))
        } else {
            before
        }
    }
}

pub open spec fn beam_views(v: Seq<(u64, FileStatus)>) -> Seq<(u64, FileStatus<Text>)> {
    v.map_values(|b: (u64, FileStatus)| (b.0, b.1@))
}

/// The open-beam runs of the table that landed AFTER the
/// configuration's open beams (newest run number among them; every
/// open-beam run when the configuration names none) and are not
/// rejected — candidates to replace the configuration's. In the order of
/// the rows, with the corrected folder of each (complete or not).
pub fn new_open_beams(
    rows: &Vec<RunFiles>,
    image_paths: &RunMap<String>,
    rejected: &Vec<u64>,
    config_obs: &Vec<String>,
) -> (r: Vec<(u64, FileStatus)>)
    ensures
        beam_views(r@) == new_beams(
            files::statuses(rows@),
            image_paths@,
            rejected@,
            text::texts(config_obs@),
        ),
{
    let in_use = ob_run_numbers(config_obs);
    let newest = newest_run(&in_use);
    let ghost rs = files::statuses(rows@);
    let ghost obs = text::texts(config_obs@);
    let mut out: Vec<(u64, FileStatus)> = Vec::new();
    let mut i: usize = 0;
    assert(beam_views(out@) =~= new_beams(rs.take(0), image_paths@, rejected@, obs));
    while i < rows.len()
        invariant
            i <= rows@.len(),
            rs == files::statuses(rows@),
            newest == self::newest(beam_runs(obs)),
            beam_views(out@) == new_beams(rs.take(i as int), image_paths@, rejected@, obs),
        decreases rows@.len() - i,
    {
        assert(rs.take(i + 1).drop_last() =~= rs.take(i as int));
        assert(rs.take(i + 1).last() == rows@[i as int]@);
        let run = rows[i].run;
        if run > newest && run_kind(image_paths, run) == RunKind::OpenBeam && !order::member(
            rejected,
            run,
        ) {
            let ghost before = out@;
            let item = (run, rows[i].corrected.copy());
            out.push(item);
            assert(beam_views(out@) =~= beam_views(before).push((item.0, item.1@)));
        }
        i = i + 1;
    }
    assert(rs.take(i as int) =~= rs);
    out
}

/// `name_ob_29962_29963` → `name`: the text before a trailing
/// `_ob_<digits>[_<digits>…]`.
pub open spec fn bare_stem(stem: Text) -> Text {
    match before_beams(stem, 0) {
        Some(base) => base,
        None => stem,
    }
}

/// What stands before the `_ob` that `numbers` trailing `_<digits>` groups,
/// already taken off, and those left follow.
pub open spec fn before_beams(base: Text, numbers: int) -> Option<Text>
    decreases base.len(),
    when true
    via before_beams_shrinks
{
    let k = text::run_start(base, Class::Not('_'), base.len() as int);
    if k <= 0 {
        None
    } else {
        let head = base.take(k - 1);
        let tail = base.skip(k);
        if tail.len() > 0 && text::all_in(tail, Class::Digit) {
            before_beams(head, numbers + 1)
        } else if tail == "ob"@ && numbers > 0 {
            Some(head)
        } else {
            None
        }
    }
}

#[via_fn]
proof fn before_beams_shrinks(base: Text, numbers: int) {
    text::run_start_is_maximal(base, Class::Not('_'), base.len() as int);
}

fn all_digits(s: &str) -> (r: bool)
    ensures
        r == text::all_in(s@, Class::Digit),
{
    let v = chars_of(s);
    let mut i: usize = 0;
    while i < v.len()
        invariant
            i <= v@.len(),
            v@ == s@,
            forall|k: int| 0 <= k < i ==> text::in_class(#[trigger] v@[k], Class::Digit),
        decreases v@.len() - i,
    {
        if !text::digit(v[i]) {
            assert(!text::in_class(v@[i as int], Class::Digit));
            return false;
        }
        i = i + 1;
    }
    true
}

/// `name_ob_29962_29963` → `name`: drop a trailing `_ob_<run>[_<run>…]`.
pub fn strip_ob_suffix(stem: &str) -> (r: String)
    ensures
        r@ == bare_stem(stem@),
{
    let mut base = stem.to_owned();
    let mut found = false;
    let ghost mut numbers: int = 0;
    loop
        invariant
            before_beams(stem@, 0) == before_beams(base@, numbers),
            found == (numbers > 0),
            numbers >= 0,
        decreases base@.len(),
    {
        let v = chars_of(base.as_str());
        proof {
            text::run_start_is_maximal(base@, Class::Not('_'), base@.len() as int);
        }
        let k = text::start_of_run(&v, Class::Not('_'), v.len());
        if k == 0 {
            return stem.to_owned();
        }
        let head = slice(&v, 0, k - 1);
        let tail = slice(&v, k, v.len());
        assert(head@ =~= base@.take(k - 1));
        assert(tail@ =~= base@.skip(k as int));
        if !tail.as_str().is_empty() && all_digits(tail.as_str()) {
            base = head;
            found = true;
            proof {
                numbers = numbers + 1;
            }
        } else if text::same(tail.as_str(), "ob") && found {
            return head;
        } else {
            return stem.to_owned();
        }
    }
}

/// `_ob_<run>_<run>…` after a stem.
pub open spec fn with_beams(base: Text, runs: Seq<u64>) -> Text
    decreases runs.len(),
{
    if runs.len() == 0 {
        base + "_ob"@
    } else {
        with_beams(base, runs.drop_last()) + "_"@ + number::decimal(runs.last() as nat)
    }
}

/// The open-beam suffix is replaced, never chained: taking it off a stem
/// gives the stem it was put on, for any runs, at least one.
pub proof fn beam_suffix_comes_off(base: Text, runs: Seq<u64>)
    requires
        runs.len() > 0,
    ensures
        bare_stem(with_beams(base, runs)) == base,
{
    lemma_before_with_beams(base, runs, 0);
}

proof fn lemma_before_with_beams(base: Text, runs: Seq<u64>, numbers: int)
    requires
        numbers >= 0,
        runs.len() > 0 || numbers > 0,
    ensures
        before_beams(with_beams(base, runs), numbers) == Some(base),
    decreases runs.len(),
{
    reveal_strlit("_ob");
    reveal_strlit("_");
    reveal_strlit("ob");
    let s = with_beams(base, runs);
    if runs.len() == 0 {
        let tail = "ob"@;
        let k = base.len() as int + 1;
        assert(s.skip(k) =~= tail);
        assert(s.subrange(k, s.len() as int) =~= tail);
        assert(s[k - 1] == '_');
        text::run_start_is(s, Class::Not('_'), k, s.len() as int);
        assert(s.take(k - 1) =~= base);
        assert(!text::in_class(tail[0], Class::Digit));
    } else {
        let rest = with_beams(base, runs.drop_last());
        let d = number::decimal(runs.last() as nat);
        number::lemma_decimal(runs.last() as nat);
        let k = rest.len() as int + 1;
        assert(s.skip(k) =~= d);
        assert(s.subrange(k, s.len() as int) =~= d);
        assert(s[k - 1] == '_');
        assert forall|i: int| 0 <= i < d.len() implies text::in_class(
            #[trigger] d[i],
            Class::Not('_'),
        ) by {
            assert(text::in_class(d[i], Class::Digit));
        }
        text::run_start_is(s, Class::Not('_'), k, s.len() as int);
        assert(s.take(k - 1) =~= rest);
        lemma_before_with_beams(base, runs.drop_last(), numbers + 1);
    }
}

/// The stem of a file: its name without its extension.
pub open spec fn stem_of(path: Text) -> Text {
    match paths::file_name(path) {
        Some(name) => paths::stem(name),
        None => "normalization_config"@,
    }
}

/// The path with its file name replaced.
pub open spec fn renamed(path: Text, name: Text) -> Text {
    match paths::file_name(path) {
        Some(_) => paths::below(
            match paths::parent(path) {
                Some(folder) => folder,
                None => Seq::empty(),
            },
            name,
        ),
        None => paths::below(path, name),
    }
}

/// What switching to other open beams takes.
pub struct Switch {
    /// The configuration to write, next to the selected one.
    pub dst: String,
    /// Its `run_spec`.
    pub run_spec: String,
}

/// The configuration with other open beams: next to the selected one, with
/// the runs in its name.
pub open spec fn derived_path(config: Text, runs: Seq<u64>) -> Text {
    renamed(config, with_beams(bare_stem(stem_of(config)), runs) + ".h5"@)
}

/// The index of the first folder, from `i` on, that is not complete.
pub open spec fn first_incomplete(complete: Seq<bool>, i: int) -> Option<int>
    decreases complete.len() - i,
{
    if !(0 <= i < complete.len()) {
        None
    } else if !complete[i] {
        Some(i)
    } else {
        first_incomplete(complete, i + 1)
    }
}

/// Why the open beams cannot be switched to these folders, if so.
pub open spec fn switch_error(config: Option<Text>, folders: Seq<Text>, complete: Seq<bool>) -> Option<
    Text,
> {
    if config is None {
        Some("no configuration file selected (section 2)"@)
    } else if folders.len() == 0 {
        Some("no open-beam run to use"@)
    } else {
        match first_incomplete(complete, 0) {
            Some(i) => Some("the corrected open-beam folder is not complete: "@ + folders[i]),
            None => if beam_runs(folders).len() == 0 {
                Some("no run number in the open-beam folder names"@)
            } else {
                None
            },
        }
    }
}

fn stem_text(path: &str) -> (r: String)
    ensures
        r@ == stem_of(path@),
{
    match paths::file_name_of(path) {
        Some(name) => {
            let v = chars_of(name.as_str());
            let d = text::start_of_run(&v, Class::Not('.'), v.len());
            if d > 1 {
                let s = slice(&v, 0, d - 1);
                assert(s@ =~= paths::stem(name@));
                s
            } else {
                name
            }
        },
        None => "normalization_config".to_owned(),
    }
}

fn rename(path: &str, name: &str) -> (r: String)
    ensures
        r@ == renamed(path@, name@),
{
    match paths::file_name_of(path) {
        Some(_) => match paths::parent_of(path) {
            Some(folder) => paths::join(folder.as_str(), name),
            None => {
                let here = String::new();
                assert(here@ =~= Seq::<char>::empty());
                paths::join(here.as_str(), name)
            },
        },
        None => paths::join(path, name),
    }
}

fn put_beams(base: &str, runs: &Vec<u64>) -> (r: String)
    ensures
        r@ == with_beams(base@, runs@),
{
    let mut out = text::cat2(base, "_ob");
    let mut i: usize = 0;
    assert(runs@.take(0) =~= Seq::<u64>::empty());
    while i < runs.len()
        invariant
            i <= runs@.len(),
            out@ == with_beams(base@, runs@.take(i as int)),
        decreases runs@.len() - i,
    {
        assert(runs@.take(i + 1).drop_last() =~= runs@.take(i as int));
        assert(runs@.take(i + 1).last() == runs@[i as int]);
        let n = number::decimal_text(runs[i]);
        out.append("_");
        out.append(n.as_str());
        i = i + 1;
    }
    assert(runs@.take(i as int) =~= runs@);
    out
}

/// The switch to other open beams: where the configuration with them goes,
/// and their runs as it names them; or why there is none.
pub open spec fn switched(config: Option<Text>, folders: Seq<Text>, complete: Seq<bool>) -> Result<
    (Text, Text),
    Text,
> {
    match switch_error(config, folders, complete) {
        Some(why) => Err(why),
        None => Ok(
            (
                derived_path(config->0, beam_runs(folders)),
                text::joined(number::decimals(beam_runs(folders)), ", "@),
            ),
        ),
    }
}

pub open spec fn switch_result(r: Result<Switch, String>) -> Result<(Text, Text), Text> {
    match r {
        Ok(switch) => Ok((switch.dst@, switch.run_spec@)),
        Err(why) => Err(why@),
    }
}

/// Make `folders` (complete corrected open-beam folders) the open
/// beams of every normalization to come: a copy of the selected
/// configuration with those folders as its open beams is written next
/// to it (`<name>_ob_<run>_<run>.h5`, everything else kept); a previous
/// `_ob_…` suffix (the selected file being itself derived) is dropped
/// rather than chained. `complete` tells for each folder whether it is.
pub fn use_as_open_beams(config: Option<&str>, folders: &Vec<String>, complete: &Vec<bool>) -> (r:
    Result<Switch, String>)
    requires
        complete@.len() == folders@.len(),
    ensures
        match r {
            Ok(switch) => {
                &&& switch_error(text::opt_str(config), text::texts(folders@), complete@) is None
                &&& switch.dst@ == derived_path(
                    config->0@,
                    beam_runs(text::texts(folders@)),
                )
                &&& switch.run_spec@ == text::joined(
                    number::decimals(beam_runs(text::texts(folders@))),
                    ", "@,
                )
            },
            Err(message) => switch_error(
                text::opt_str(config),
                text::texts(folders@),
                complete@,
            ) == Some(message@),
        },
        switch_result(r) == switched(text::opt_str(config), text::texts(folders@), complete@),
{
    let selected = match config {
        Some(path) => path,
        None => return Err("no configuration file selected (section 2)".to_owned()),
    };
    if folders.len() == 0 {
        return Err("no open-beam run to use".to_owned());
    }
    let ghost fs = text::texts(folders@);
    let mut i: usize = 0;
    while i < complete.len()
        invariant
            i <= complete@.len() == folders@.len(),
            fs == text::texts(folders@),
            folders@.len() > 0,
            config is Some,
            first_incomplete(complete@, 0) == first_incomplete(complete@, i as int),
        decreases complete@.len() - i,
    {
        if !complete[i] {
            assert(fs[i as int] == folders@[i as int]@);
            return Err(
                text::cat2(
                    "the corrected open-beam folder is not complete: ",
                    folders[i].as_str(),
                ),
            );
        }
        i = i + 1;
    }
    let runs = ob_run_numbers(folders);
    if runs.len() == 0 {
        return Err("no run number in the open-beam folder names".to_owned());
    }
    let list = number::decimal_texts(&runs);
    let run_spec = text::join(&list, ", ");
    let stem = stem_text(selected);
    let base = strip_ob_suffix(stem.as_str());
    let name = put_beams(base.as_str(), &runs);
    let file = text::cat2(name.as_str(), ".h5");
    Ok(Switch { dst: rename(selected, file.as_str()), run_spec })
}

} // verus!
