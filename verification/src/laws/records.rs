//! What is read from logs, NeXus files, configurations and the shared file.

use vstd::prelude::*;
use crate::clock::Moment;
use crate::h5::{Raw, RunKind, Store, Write};
use crate::runs::{LogFile, Reduced};
use crate::text::{Class, Text};
use crate::{clock, config, h5, number, runs, text};

verus! {

// ---------------------------------------------------------------------
// The logs of the reduction

/// A log file of the reduction is named after its run and its kind.
pub proof fn log_names_read_back(run: u64, kind: Text)
    ensures
        runs::log_name("VENUS_"@ + number::decimal(run as nat) + ".nxs.h5."@ + kind) == Some(
            (run, kind),
        ),
{
    reveal_strlit("VENUS_");
    reveal_strlit(".nxs.h5.");
    let d = number::decimal(run as nat);
    number::lemma_decimal(run as nat);
    number::decimal_reads_back(run);
    let s = "VENUS_"@ + d + ".nxs.h5."@ + kind;
    let rest = d + ".nxs.h5."@ + kind;
    assert(s.subrange(0, 6) =~= "VENUS_"@);
    assert(s.skip(6) =~= rest);
    let i = d.len() as int;
    assert(rest.subrange(i, i + 8) =~= ".nxs.h5."@);
    text::find_is_the_first(rest, ".nxs.h5."@);
    assert(text::occurs_at(rest, ".nxs.h5."@, i));
    assert(text::has(rest, ".nxs.h5."@));
    let j = text::find(rest, ".nxs.h5."@)->0;
    if j < i {
        assert(text::occurs_at(rest, ".nxs.h5."@, j));
        assert(rest.subrange(j, j + 8)[0] == rest[j]);
        assert(".nxs.h5."@[0] == '.');
        assert(text::in_class(d[j], Class::Digit));
    } else if i < j {
        assert(!text::occurs_at(rest, ".nxs.h5."@, i));
    }
    assert(rest.take(i) =~= d);
    assert(rest.skip(i + 8) =~= kind);
}

/// A run has an entry exactly when one of the files is its own; the entry
/// carries the run's number and a time no earlier than that of any of its
/// files.
pub proof fn every_logged_run_has_its_entry(files: Seq<LogFile>, run: u64)
    ensures
        runs::entry_of(files, run) is Some <==> exists|i: int|
            0 <= i < files.len() && (runs::log_name((#[trigger] files[i]).name@) matches Some(
                (n, _),
            ) && n == run),
        runs::entry_of(files, run) matches Some(e) ==> e.run_number == run && forall|i: int|
            0 <= i < files.len() && (runs::log_name((#[trigger] files[i]).name@) matches Some(
                (n, _),
            ) && n == run) ==> clock::at_or_before(files[i].modified, e.mtime),
    decreases files.len(),
{
    if files.len() > 0 {
        let rest = files.drop_last();
        let last = files[files.len() - 1];
        every_logged_run_has_its_entry(rest, run);
        let own = runs::log_name(last.name@) matches Some((n, _)) && n == run;
        if runs::entry_of(rest, run) is Some {
            let i = choose|i: int|
                0 <= i < rest.len() && (runs::log_name((#[trigger] rest[i]).name@) matches Some(
                    (n, _),
                ) && n == run);
            assert(files[i] == rest[i]);
        }
        if exists|i: int|
            0 <= i < files.len() && (runs::log_name((#[trigger] files[i]).name@) matches Some(
                (n, _),
            ) && n == run) {
            let i = choose|i: int|
                0 <= i < files.len() && (runs::log_name((#[trigger] files[i]).name@) matches Some(
                    (n, _),
                ) && n == run);
            if i < rest.len() {
                assert(rest[i] == files[i]);
            } else {
                assert(own);
            }
        }
        match runs::entry_of(files, run) {
            Some(e) => {
                assert forall|i: int|
                    0 <= i < files.len() && (runs::log_name(
                        (#[trigger] files[i]).name@,
                    ) matches Some((n, _)) && n == run) implies clock::at_or_before(
                    files[i].modified,
                    e.mtime,
                ) by {
                    if i < rest.len() {
                        assert(rest[i] == files[i]);
                        assert(clock::at_or_before(
                            rest[i].modified,
                            (runs::entry_of(rest, run)->0).mtime,
                        ));
                    }
                }
            },
            None => {},
        }
    }
}

/// The last log file of a run is its log, the last error file its errors;
/// neither takes the place of the other, and a file of another kind of
/// neither.
pub proof fn logs_and_errors_are_told_apart(
    before: Option<Reduced>,
    run: u64,
    file: LogFile,
    kind: Text,
)
    ensures
        runs::with_file(before, run, "log"@, file).log_path == Some(file.path@),
        runs::with_file(before, run, "err"@, file).err_path == Some(file.path@),
        before is Some ==> {
            &&& runs::with_file(before, run, "log"@, file).err_path == (before->0).err_path
            &&& runs::with_file(before, run, "err"@, file).log_path == (before->0).log_path
        },
        before is None ==> {
            &&& runs::with_file(before, run, "log"@, file).err_path is None
            &&& runs::with_file(before, run, "err"@, file).log_path is None
        },
        kind != "log"@ && kind != "err"@ && before is Some ==> {
            &&& runs::with_file(before, run, kind, file).log_path == (before->0).log_path
            &&& runs::with_file(before, run, kind, file).err_path == (before->0).err_path
        },
{
    reveal_strlit("log");
    reveal_strlit("err");
    assert("log"@[0] == 'l' && "err"@[0] == 'e');
}

/// The entries come latest first, and by run number among equals.
pub proof fn the_latest_entries_come_first(a: Reduced, b: Reduced)
    ensures
        a.mtime != b.mtime && clock::at_or_before(b.mtime, a.mtime) ==> runs::comes_before(a, b)
            && !runs::comes_before(b, a),
        a.mtime == b.mtime && a.run_number > b.run_number ==> runs::comes_before(a, b)
            && !runs::comes_before(b, a),
{
}

/// The folders a log reports are those of its last lines that tell one; the
/// line of the normalized data is not taken for that of the corrected data.
pub proof fn logs_report_their_last_folders(lines: Seq<Text>, path: Text)
    ensures
        runs::reported(lines.push("Writing normalized data to "@ + path)) == (
            runs::reported(lines).0,
            Some(text::trimmed(path)),
        ),
        runs::reported(lines.push("Writing data to "@ + path)) == (
            Some(text::trimmed(path)),
            runs::reported(lines).1,
        ),
{
    reveal_strlit("Writing normalized data to ");
    reveal_strlit("Writting normalized data to ");
    reveal_strlit("Writing data to ");
    let a = "Writing normalized data to "@ + path;
    let b = "Writing data to "@ + path;
    assert(lines.push(a).drop_last() =~= lines);
    assert(lines.push(b).drop_last() =~= lines);
    assert(a.subrange(0, 27) =~= "Writing normalized data to "@);
    assert(a.skip(27) =~= path);
    assert(b.subrange(0, 16) =~= "Writing data to "@);
    assert(b.skip(16) =~= path);
    if text::begins(b, "Writing normalized data to "@) {
        assert(b.subrange(0, 27)[8] == b[8]);
        assert("Writing normalized data to "@[8] == 'n');
        assert(b[8] == 'd');
    }
    if text::begins(b, "Writting normalized data to "@) {
        assert(b.subrange(0, 28)[4] == b[4]);
        assert("Writting normalized data to "@[4] == 't');
        assert(b[4] == 'i');
    }
}

// ---------------------------------------------------------------------
// NeXus files

/// A run has times only when both its start and its end are known, and they
/// are told apart.
pub proof fn runs_are_timed_from_start_to_end(start: Option<Moment>, end: Option<Moment>)
    ensures
        h5::both(start, end) is Some <==> start is Some && end is Some,
        start is Some && end is Some ==> h5::both(start, end) == Some((start->0, end->0)),
{
}

/// The last value of a log that is not blank is the one that counts.
pub proof fn the_last_value_counts(values: Seq<Text>, value: Text)
    ensures
        text::trimmed(value).len() > 0 ==> h5::last_value(values.push(value)) == Some(
            text::trimmed(value),
        ),
        text::trimmed(value).len() == 0 ==> h5::last_value(values.push(value)) == h5::last_value(
            values,
        ),
        h5::last_value(Seq::empty()) is None,
{
    assert(values.push(value).drop_last() =~= values);
}

/// A run is an open beam or an alignment when a folder of its image path is
/// called so, in any case, and the first such folder decides; any other run
/// is a sample.
pub proof fn the_image_path_tells_the_kind(parts: Seq<Text>, i: int, k: int)
    requires
        0 <= i,
    ensures
        i <= k < parts.len() && text::lowered(text::trimmed(parts[k])) == "ob"@ && (forall|j: int|
            i <= j < k ==> text::lowered(text::trimmed(#[trigger] parts[j])) != "ob"@
                && text::lowered(text::trimmed(parts[j])) != "alignment"@) ==> h5::first_kind(
            parts,
            i,
        ) == RunKind::OpenBeam,
        i <= k < parts.len() && text::lowered(text::trimmed(parts[k])) == "alignment"@ && (forall|
            j: int,
        |
            i <= j < k ==> text::lowered(text::trimmed(#[trigger] parts[j])) != "ob"@
                && text::lowered(text::trimmed(parts[j])) != "alignment"@) ==> h5::first_kind(
            parts,
            i,
        ) == RunKind::Alignment,
        (forall|j: int|
            i <= j < parts.len() ==> text::lowered(text::trimmed(#[trigger] parts[j])) != "ob"@
                && text::lowered(text::trimmed(parts[j])) != "alignment"@) ==> h5::first_kind(
            parts,
            i,
        ) == RunKind::Sample,
    decreases parts.len() - i,
{
    reveal_strlit("ob");
    reveal_strlit("alignment");
    assert("ob"@.len() == 2 && "alignment"@.len() == 9);
    if i < parts.len() {
        the_image_path_tells_the_kind(parts, i + 1, k);
        if i < k < parts.len() && (forall|j: int|
            i <= j < k ==> text::lowered(text::trimmed(#[trigger] parts[j])) != "ob"@
                && text::lowered(text::trimmed(parts[j])) != "alignment"@) {
            assert(text::lowered(text::trimmed(parts[i])) != "ob"@);
        }
        if forall|j: int|
            i <= j < parts.len() ==> text::lowered(text::trimmed(#[trigger] parts[j])) != "ob"@
                && text::lowered(text::trimmed(parts[j])) != "alignment"@ {
            assert(text::lowered(text::trimmed(parts[i])) != "ob"@);
        }
    }
}

// ---------------------------------------------------------------------
// Configurations

/// A configuration's crop region is its four numbers, in their order; fewer,
/// more or unreadable numbers give none.
pub proof fn crop_regions_are_read_in_order(
    numbers: Seq<Option<usize>>,
    x0: usize,
    y0: usize,
    x1: usize,
    y1: usize,
)
    ensures
        numbers == seq![Some(x0), Some(y0), Some(x1), Some(y1)] ==> (h5::region_of(
            Some(numbers),
        ) matches Some(r) && r.0 == x0 && r.1 == y0 && r.2 == x1 && r.3 == y1),
        numbers.len() != 4 ==> h5::region_of(Some(numbers)) is None,
        numbers.len() == 4 && (numbers[0] is None || numbers[1] is None || numbers[2] is None
            || numbers[3] is None) ==> h5::region_of(Some(numbers)) is None,
        h5::region_of(None) is None,
{
}

/// What is read of a configuration is what its file holds: its open beams,
/// its crop region, its settings, and its output folder and detector unless
/// they are blank.
pub proof fn configurations_are_read_whole(raw: Raw)
    ensures
        raw.ob_folders is Some ==> h5::info_of(raw).ob_folders == raw.ob_folders->0,
        raw.ob_folders is None ==> h5::info_of(raw).ob_folders.len() == 0,
        h5::info_of(raw).crop_region == h5::region_of(raw.crop_region),
        h5::info_of(raw).parameters == raw.parameters,
        raw.output_folder is Some && text::trimmed(raw.output_folder->0).len() > 0 ==> h5::info_of(
            raw,
        ).output_folder == Some(text::trimmed(raw.output_folder->0)),
        raw.output_folder is Some && text::trimmed(raw.output_folder->0).len() == 0 ==> h5::info_of(
            raw,
        ).output_folder is None,
        raw.output_folder is None ==> h5::info_of(raw).output_folder is None,
        raw.detector is Some && text::trimmed(raw.detector->0).len() > 0 ==> h5::info_of(
            raw,
        ).detector == Some(text::trimmed(raw.detector->0)),
        raw.detector is Some && text::trimmed(raw.detector->0).len() == 0 ==> h5::info_of(
            raw,
        ).detector is None,
        raw.detector is None ==> h5::info_of(raw).detector is None,
{
}

// ---------------------------------------------------------------------
// The shared file

/// A key has the value of its last line; other keys do not bear on it.
pub proof fn the_last_line_of_a_key_counts(
    pairs: Seq<(Text, Text)>,
    key: Text,
    value: Text,
    other: Text,
)
    ensures
        config::value_of(pairs.push((key, value)), key) == Some(value),
        other != key ==> config::value_of(pairs.push((key, value)), other) == config::value_of(
            pairs,
            other,
        ),
        config::value_of(Seq::empty(), key) is None,
{
    assert(pairs.push((key, value)).drop_last() =~= pairs);
}

/// Comments, blank lines and lines without a colon give no key; every other
/// line gives what stands before and behind its first colon.
pub proof fn comments_and_blank_lines_give_no_key(lines: Seq<Text>, line: Text)
    ensures
        text::trimmed(line).len() == 0 ==> config::key_value(line) is None,
        text::trimmed(line).len() > 0 && text::trimmed(line)[0] == '#' ==> config::key_value(line)
            is None,
        !text::has(text::trimmed(line), ":"@) ==> config::key_value(line) is None,
        config::key_value(line) is None ==> config::pairs(lines.push(line)) == config::pairs(lines),
        config::key_value(line) is Some ==> config::pairs(lines.push(line)) == config::pairs(
            lines,
        ).push(config::key_value(line)->0),
{
    assert(lines.push(line).drop_last() =~= lines);
    text::find_is_the_first(text::trimmed(line), ":"@);
}

/// The file is read exactly when it has an `activate` flag; a flag that is
/// not there is off, and each flag is the one of its own key.
pub proof fn flags_are_read_by_their_key(pairs: Seq<(Text, Text)>)
    ensures
        config::contents(pairs) is Some <==> config::value_of(pairs, "activate"@) is Some,
        config::contents(pairs) matches Some(c) ==> {
            &&& c.activate == config::truthy(config::value_of(pairs, "activate"@)->0)
            &&& c.rolling_combine <==> (config::value_of(pairs, "rolling_combine"@) matches Some(v)
                && config::truthy(v))
            &&& c.live_reduction <==> (config::value_of(pairs, "live_reduction"@) matches Some(v)
                && config::truthy(v))
            &&& c.entries.len() == pairs.len()
            &&& forall|i: int|
                0 <= i < pairs.len() ==> (#[trigger] c.entries[i]).0 == pairs[i].0
                    && c.entries[i].1 == text::trimmed_of(pairs[i].1, Class::Quote)
        },
{
}

/// A flag is on when its value, without quotes and in any case, is `true`,
/// `1`, `yes` or `on`, and off otherwise.
pub proof fn flags_are_on_by_four_words(value: Text)
    ensures
        config::truthy(value) <==> ({
            let v = text::lowered(text::trimmed_of(value, Class::Quote));
            v == "true"@ || v == "1"@ || v == "yes"@ || v == "on"@
        }),
{
}

/// A default configuration is written with the default settings: the bin
/// size, the mode, the charge correction and no background matching or
/// inpainting, the distance, and what is exported.
pub proof fn default_configurations_hold_the_defaults(
    created: Text,
    ipts: Text,
    detector: Text,
    output: Text,
)
    ensures
        ({
            let ws = h5::default_writes(created, ipts, detector, output);
            let root = Seq::<char>::empty();
            let n = "normalization"@;
            let e = "export"@;
            &&& ws.len() == 32
            &&& ws.contains(Write::Text { at: root, name: "ipts"@, value: ipts })
            &&& ws.contains(Write::Text { at: root, name: "detector"@, value: detector })
            &&& ws.contains(Write::Text { at: root, name: "output_folder"@, value: output })
            &&& ws.contains(Write::Text { at: root, name: "created"@, value: created })
            &&& ws.contains(Write::NoTexts { at: "ob"@, name: "folders"@ })
            &&& ws.contains(Write::NoTexts { at: "sample"@, name: "folders"@ })
            &&& ws.contains(Write::Flag { at: "sample"@, name: "combine_runs"@, value: false })
            &&& ws.contains(
                Write::Real { at: "spectra"@, name: "tof_bin_size_ns"@, value: 700 },
            )
            &&& ws.contains(Write::Text { at: n, name: "mode"@, value: "Bragg mode"@ })
            &&& ws.contains(Write::Flag { at: n, name: "proton_charge"@, value: true })
            &&& ws.contains(Write::Flag { at: n, name: "match_background"@, value: false })
            &&& ws.contains(Write::Flag { at: n, name: "inpaint"@, value: false })
            &&& ws.contains(Write::Text { at: n, name: "tof_binning_mode"@, value: "None"@ })
            &&& ws.contains(
                Write::Real { at: n, name: "distance_source_detector_m"@, value: 25 },
            )
            &&& ws.contains(Write::Flag { at: e, name: "scitiff"@, value: false })
            &&& ws.contains(Write::Flag { at: e, name: "stack"@, value: true })
            &&& ws.contains(Write::Flag { at: e, name: "integrated"@, value: true })
            &&& ws.contains(Write::Flag { at: e, name: "integrated_tiff"@, value: true })
            &&& ws.contains(Write::Flag { at: e, name: "integrated_scitiff"@, value: false })
            &&& ws.contains(Write::Flag { at: e, name: "ascii"@, value: true })
        }),
{
    let ws = h5::default_writes(created, ipts, detector, output);
    let root = Seq::<char>::empty();
    let n = "normalization"@;
    let e = "export"@;
    assert(ws[1] == (Write::<Text>::Text { at: root, name: "created"@, value: created }));
    assert(ws[4] == (Write::<Text>::Text { at: root, name: "ipts"@, value: ipts }));
    assert(ws[5] == (Write::<Text>::Text { at: root, name: "detector"@, value: detector }));
    assert(ws[6] == (Write::<Text>::Text { at: root, name: "output_folder"@, value: output }));
    assert(ws[9] == (Write::<Text>::Flag {
        at: "sample"@,
        name: "combine_runs"@,
        value: false,
    }));
    assert(ws[10] == (Write::<Text>::NoTexts { at: "sample"@, name: "folders"@ }));
    assert(ws[13] == (Write::<Text>::NoTexts { at: "ob"@, name: "folders"@ }));
    assert(ws[15] == (Write::<Text>::Real {
        at: "spectra"@,
        name: "tof_bin_size_ns"@,
        value: 700,
    }));
    assert(ws[17] == (Write::<Text>::Text { at: n, name: "mode"@, value: "Bragg mode"@ }));
    assert(ws[18] == (Write::<Text>::Flag { at: n, name: "proton_charge"@, value: true }));
    assert(ws[19] == (Write::<Text>::Flag { at: n, name: "match_background"@, value: false }));
    assert(ws[20] == (Write::<Text>::Flag { at: n, name: "inpaint"@, value: false }));
    assert(ws[21] == (Write::<Text>::Text { at: n, name: "tof_binning_mode"@, value: "None"@ }));
    assert(ws[22] == (Write::<Text>::Real {
        at: n,
        name: "distance_source_detector_m"@,
        value: 25,
    }));
    assert(ws[26] == (Write::<Text>::Flag { at: e, name: "scitiff"@, value: false }));
    assert(ws[27] == (Write::<Text>::Flag { at: e, name: "stack"@, value: true }));
    assert(ws[28] == (Write::<Text>::Flag { at: e, name: "integrated"@, value: true }));
    assert(ws[29] == (Write::<Text>::Flag { at: e, name: "integrated_tiff"@, value: true }));
    assert(ws[30] == (Write::<Text>::Flag { at: e, name: "integrated_scitiff"@, value: false }));
    assert(ws[31] == (Write::<Text>::Flag { at: e, name: "ascii"@, value: true }));
}

/// The offsets of a run's start and end are told apart, and only together.
pub proof fn offsets_are_of_start_and_end(start: Text, end: Text)
    ensures
        h5::zones(Some(start), Some(end)) == (match (clock::zone(start), clock::zone(end)) {
            (Some(a), Some(b)) => Some((a, b)),
            _ => None,
        }),
        h5::interval(Some(start), Some(end)) == (match (
            clock::moment(start),
            clock::moment(end),
        ) {
            (Some(a), Some(b)) => Some((a, b)),
            _ => None,
        }),
        h5::interval(None, Some(end)) is None,
        h5::interval(Some(start), None) is None,
{
}

proof fn lemma_set_pairs(
    pairs: Seq<(Text, Text)>,
    on: bool,
    now: Text,
    user: Text,
    key: Text,
)
    requires
        key != "activate"@,
        key != "last_modified"@,
        key != "last_modified_by"@,
    ensures
        config::value_of(
            pairs.map_values(
                |p: (Text, Text)| config::set_pair(p, "activate"@, on, now, user),
            ),
            key,
        ) == config::value_of(pairs, key),
    decreases pairs.len(),
{
    let set = |p: (Text, Text)| config::set_pair(p, "activate"@, on, now, user);
    let after = pairs.map_values(set);
    if pairs.len() > 0 {
        let rest = pairs.drop_last();
        lemma_set_pairs(rest, on, now, user, key);
        assert(after.drop_last() =~= rest.map_values(set));
        assert(after.last() == set(pairs.last()));
    }
}

/// Switching the automatic normalization on or off is read back, and changes
/// nothing but its flag and the marks of who changed the file and when: the
/// other flags, and the value of every other key, stay.
pub proof fn switching_is_read_back(content: Text, on: bool, now: Text, user: Text, key: Text)
    requires
        text::all_in(now, Class::Not('\n')),
        text::all_in(user, Class::Not('\n')),
    ensures
        config::activated(content, on, now, user) is Some <==> config::reading(content) is Some,
        config::activated(content, on, now, user) matches Some(new) ==> {
            &&& config::reading(new) is Some
            &&& (config::reading(new)->0).activate == on
            &&& (config::reading(new)->0).rolling_combine == (config::reading(
                content,
            )->0).rolling_combine
            &&& (config::reading(new)->0).live_reduction == (config::reading(
                content,
            )->0).live_reduction
            &&& key != "activate"@ && key != "last_modified"@ && key != "last_modified_by"@
                ==> config::value_in(new, key) == config::value_in(content, key)
        },
{
    if config::reading(content) is Some {
        config::set_activate_reads_back(content, on, now, user);
        if key != "activate"@ && key != "last_modified"@ && key != "last_modified_by"@ {
            lemma_set_pairs(config::pairs(text::lines_of(content)), on, now, user, key);
        }
    }
}

/// Opting in or out is read back, and leaves the value of every other key as
/// it is.
pub proof fn opting_in_is_read_back(
    content: Text,
    key: Text,
    on: bool,
    now: Text,
    user: Text,
    other: Text,
)
    requires
        config::plain_key(key),
        other != "last_modified"@,
        other != "last_modified_by"@,
        key != "last_modified"@,
        key != "last_modified_by"@,
        text::all_in(now, Class::Not('\n')),
        text::all_in(user, Class::Not('\n')),
    ensures
        config::value_in(config::opted_in(content, key, on, now, user), key) matches Some(v)
            && config::truthy(v) == on,
        other != key ==> config::value_in(config::opted_in(content, key, on, now, user), other)
            == config::value_in(content, other),
{
    config::set_opt_in_reads_back(content, key, key, on, now, user);
    config::set_opt_in_reads_back(content, key, other, on, now, user);
}

/// A whole new file is read back: its three flags, its proposal, its
/// configuration, and who wrote it when.
pub proof fn new_files_are_read_back(
    ipts: Text,
    config_file: Text,
    activate: bool,
    rolling: bool,
    live: bool,
    now: Text,
    user: Text,
)
    requires
        text::all_in(ipts, Class::Not('\n')),
        text::all_in(config_file, Class::Not('\n')),
        text::all_in(now, Class::Not('\n')),
        text::all_in(user, Class::Not('\n')),
    ensures
        ({
            let content = config::written_full(
                ipts,
                config_file,
                activate,
                rolling,
                live,
                now,
                user,
            );
            &&& config::reading(content) is Some
            &&& (config::reading(content)->0).activate == activate
            &&& (config::reading(content)->0).rolling_combine == rolling
            &&& (config::reading(content)->0).live_reduction == live
            &&& config::value_in(content, "ipts"@) == Some(text::trimmed(ipts))
            &&& config::value_in(content, "user_autoreduction_config_file"@) == Some(
                text::trimmed(config_file),
            )
            &&& config::value_in(content, "last_modified"@) == Some("'"@ + now + "'"@)
            &&& config::value_in(content, "last_modified_by"@) == Some(text::trimmed(user))
        }),
{
    config::write_full_reads_back(ipts, config_file, activate, rolling, live, now, user);
}

/// A copy of a configuration with other open beams is read back with these,
/// all of them and in order, and with everything else of the configuration.
pub proof fn other_open_beams_are_read_back(
    file: Store,
    src: Text,
    folders: Seq<Text>,
    run_spec: Text,
    created: Text,
    before: Raw,
    after: Raw,
)
    requires
        h5::is_reading(before, file),
        h5::beams_written(src, folders, run_spec, created) matches Some((list, attributes))
            && h5::is_reading(after, h5::derived(file, list, attributes)),
    ensures
        h5::info_of(after).ob_folders == folders,
        h5::info_of(after).output_folder == h5::info_of(before).output_folder,
        h5::info_of(after).detector == h5::info_of(before).detector,
        h5::info_of(after).crop_region == h5::info_of(before).crop_region,
        folders.len() > 0,
{
    h5::derived_configs_read_back(file, src, folders, run_spec, created, before, after);
}

/// A run whose images lie in an `ob` folder is an open beam, one whose images
/// lie in an `alignment` folder an alignment, wherever the folder stands in
/// the path, as long as no such folder stands before it.
pub proof fn folders_of_images_tell_the_kind(front: Text, part: Text, back: Text)
    requires
        text::all_in(part, Class::NotSlash),
        forall|j: int|
            0 <= j < text::pieces(front, Class::NotSlash).len() ==> text::lowered(
                text::trimmed(#[trigger] text::pieces(front, Class::NotSlash)[j]),
            ) != "ob"@ && text::lowered(
                text::trimmed(text::pieces(front, Class::NotSlash)[j]),
            ) != "alignment"@,
    ensures
        text::lowered(text::trimmed(part)) == "ob"@ ==> h5::kind_of(
            front + seq!['/'] + (part + seq!['/'] + back),
        ) == RunKind::OpenBeam,
        text::lowered(text::trimmed(part)) == "alignment"@ ==> h5::kind_of(
            front + seq!['/'] + (part + seq!['/'] + back),
        ) == RunKind::Alignment,
        h5::kind_of(front) == RunKind::Sample,
{
    let a = text::pieces(front, Class::NotSlash);
    let rest = part + seq!['/'] + back;
    text::pieces_joined(front, '/', rest, Class::NotSlash);
    text::pieces_joined(part, '/', back, Class::NotSlash);
    text::pieces_single(part, Class::NotSlash);
    let all = text::pieces(front + seq!['/'] + rest, Class::NotSlash);
    let k = a.len() as int;
    assert(all == a + (seq![part] + text::pieces(back, Class::NotSlash)));
    assert(all[k] == part);
    assert forall|j: int| 0 <= j < k implies text::lowered(text::trimmed(#[trigger] all[j]))
        != "ob"@ && text::lowered(text::trimmed(all[j])) != "alignment"@ by {
        assert(all[j] == a[j]);
    }
    the_image_path_tells_the_kind(all, 0, k);
    the_image_path_tells_the_kind(a, 0, 0);
}

} // verus!
