//! The experiments (IPTS folders) and their configuration files.

use vstd::prelude::*;
use crate::clock::Moment;
use crate::files::Entry;
use crate::text::{chars_of, slice, Class, Text};
use crate::{clock, files, number, order, paths, text};

verus! {

/// Root scanned for the IPTS-* experiment folders.
pub const IPTS_ROOT: &'static str = "/SNS/VENUS";

/// Shared configuration read/written by the normalization notebook and the
/// autoreduction: the path the notebook writes (creating it on first
/// registration).
pub const CONFIG_PATH: &'static str = "/SNS/VENUS/shared/autoreduction/autoreduction.cfg";

/// The legacy location of the shared configuration, still found on disk.
pub const LEGACY_CONFIG_PATH: &'static str = "/SNS/VENUS/shared/autoreduce/autoreduction.cfg";

/// The `autoreduction.cfg` to read/write: the first existing path, or the
/// notebook's (primary) path when none exists yet.
pub fn resolve_config_path(primary: bool, legacy: bool) -> (r: &'static str)
    ensures
        r@ == if !primary && legacy {
            LEGACY_CONFIG_PATH@
        } else {
            CONFIG_PATH@
        },
{
    if !primary && legacy {
        LEGACY_CONFIG_PATH
    } else {
        CONFIG_PATH
    }
}

// ---------------------------------------------------------------------
// The experiments

/// The number an experiment is sorted by: names without one come last.
pub open spec fn ipts_number(name: Text) -> u64 {
    match text::after_prefix(name, "IPTS-"@) {
        Some(suffix) => match number::parsed(suffix) {
            Some(n) => n,
            None => u64::MAX,
        },
        None => u64::MAX,
    }
}

/// The entries that are experiments the user can access, as they come.
pub open spec fn accessible(entries: Seq<(Text, bool)>) -> Seq<Text>
    decreases entries.len(),
{
    if entries.len() == 0 {
        Seq::empty()
    } else {
        let before = accessible(entries.drop_last());
        let (name, allowed) = entries.last();
        if allowed && text::begins(name, "IPTS-"@) {
            before.push(name)
        } else {
            before
        }
    }
}

pub open spec fn ipts_key() -> spec_fn(Text) -> int {
    |name: Text| ipts_number(name) as int
}

pub open spec fn entry_views(v: Seq<(String, bool)>) -> Seq<(Text, bool)> {
    v.map_values(|e: (String, bool)| (e.0@, e.1))
}

fn number_of(name: &str) -> (r: u64)
    ensures
        r == ipts_number(name@),
{
    match text::strip_prefix(name, "IPTS-") {
        Some(suffix) => match number::parse_u64(suffix.as_str()) {
            Some(n) => n,
            None => u64::MAX,
        },
        None => u64::MAX,
    }
}

/// The IPTS-* folders the current user can access, sorted by IPTS number.
/// `entries` are the names under the root, and whether the user can read and
/// enter each.
pub fn list_accessible_ipts(entries: &Vec<(String, bool)>) -> (r: Vec<String>)
    ensures
        text::texts(r@) == order::by_key(accessible(entry_views(entries@)), ipts_key()),
{
    let ghost es = entry_views(entries@);
    let mut out: Vec<String> = Vec::new();
    let mut i: usize = 0;
    assert(es.take(0) =~= Seq::empty());
    assert(text::texts(out@) =~= Seq::empty());
    while i < entries.len()
        invariant
            i <= entries@.len(),
            es == entry_views(entries@),
            text::texts(out@) == order::by_key(accessible(es.take(i as int)), ipts_key()),
        decreases entries@.len() - i,
    {
        proof {
            assert(es.take(i + 1).drop_last() =~= es.take(i as int));
            assert(es.take(i + 1).last() == (entries@[i as int].0@, entries@[i as int].1));
        }
        if entries[i].1 && text::starts_with(entries[i].0.as_str(), "IPTS-") {
            let ghost x = entries@[i as int].0@;
            let ghost all = accessible(es.take(i as int));
            proof {
                assert(all.push(x).drop_last() =~= all);
            }
            let n = number_of(entries[i].0.as_str());
            let ghost o = text::texts(out@);
            let mut k: usize = out.len();
            while k > 0 && number_of(out[k - 1].as_str()) > n
                invariant
                    k <= out@.len(),
                    o == text::texts(out@),
                    n == ipts_number(x),
                    forall|j: int| k <= j < o.len() ==> ipts_key()(#[trigger] o[j]) > ipts_key()(x),
                decreases k,
            {
                assert(o[k - 1] == out@[k - 1]@);
                k = k - 1;
            }
            proof {
                if k > 0 {
                    assert(o[k - 1] == out@[k - 1]@);
                }
                order::placed_at(o, ipts_key(), x, k as int);
            }
            let item = entries[i].0.clone();
            out.insert(k, item);
            assert(text::texts(out@) =~= o.insert(k as int, x));
        }
        i = i + 1;
    }
    assert(es.take(i as int) =~= es);
    out
}

/// `s` without the prefix, however often it stands there.
pub open spec fn without_all(s: Text, pat: Text) -> Text
    decreases s.len(),
{
    if pat.len() > 0 && text::begins(s, pat) {
        without_all(s.skip(pat.len() as int), pat)
    } else {
        s
    }
}

pub fn strip_all(s: &str, pat: &str) -> (r: String)
    requires
        pat@.len() > 0,
    ensures
        r@ == without_all(s@, pat@),
{
    let mut rest = s.to_owned();
    loop
        invariant
            pat@.len() > 0,
            without_all(rest@, pat@) == without_all(s@, pat@),
        decreases rest@.len(),
    {
        match text::strip_prefix(rest.as_str(), pat) {
            Some(shorter) => {
                rest = shorter;
            },
            None => {
                return rest;
            },
        }
    }
}

/// The number typed for an experiment (`36967`, `IPTS-36967`).
pub open spec fn typed_number(typed: Text) -> Text {
    without_all(without_all(text::trimmed(typed), "IPTS-"@), "ipts-"@)
}

fn number_typed(typed: &str) -> (r: String)
    ensures
        r@ == typed_number(typed@),
{
    proof {
        reveal_strlit("IPTS-");
        reveal_strlit("ipts-");
    }
    let bare = text::trim(typed);
    let upper = strip_all(bare.as_str(), "IPTS-");
    strip_all(upper.as_str(), "ipts-")
}

/// The experiment that was typed, or a message where it is none.
pub open spec fn manual_name(typed: Text) -> Result<Text, Text> {
    let number = typed_number(typed);
    if number.len() == 0 || !text::all_in(number, Class::Digit) {
        Err("'"@ + text::trimmed(typed) + "' is not an IPTS number (e.g. 36967)"@)
    } else {
        Ok("IPTS-"@ + number)
    }
}

pub open spec fn text_result(r: Result<String, String>) -> Result<Text, Text> {
    match r {
        Ok(s) => Ok(s@),
        Err(s) => Err(s@),
    }
}

/// The experiment of a manually typed IPTS ("36967" or "IPTS-36967").
pub fn manual_ipts(typed: &str) -> (r: Result<String, String>)
    ensures
        text_result(r) == manual_name(typed@),
{
    let number = number_typed(typed);
    let v = chars_of(number.as_str());
    let e = text::end_of_run(&v, Class::Digit, 0);
    proof {
        text::run_end_is_maximal(v@, Class::Digit, 0);
        if e == v@.len() {
            assert(v@.subrange(0, e as int) =~= v@);
        } else {
            assert(!text::in_class(v@[e as int], Class::Digit));
        }
    }
    if v.len() == 0 || e < v.len() {
        let bare = text::trim(typed);
        return Err(text::cat3("'", bare.as_str(), "' is not an IPTS number (e.g. 36967)"));
    }
    Ok(text::cat2("IPTS-", number.as_str()))
}

/// Why the typed experiment cannot be selected, if so.
pub open spec fn manual_refusal(path: Text, is_dir: bool, allowed: bool) -> Option<Text> {
    if !is_dir {
        Some(path + " does not exist"@)
    } else if !allowed {
        Some("no permission to access "@ + path)
    } else {
        None
    }
}

/// Select a typed experiment if its folder exists and is accessible; else
/// this message tells why not.
pub fn manual_error(path: &str, is_dir: bool, allowed: bool) -> (r: Option<String>)
    ensures
        text::opt_text(r) == manual_refusal(path@, is_dir, allowed),
{
    if !is_dir {
        Some(text::cat2(path, " does not exist"))
    } else if !allowed {
        Some(text::cat2("no permission to access ", path))
    } else {
        None
    }
}

/// Where an experiment lies.
pub fn ipts_path(name: &str) -> (r: String)
    ensures
        r@ == paths::below(IPTS_ROOT@, name@),
{
    paths::join(IPTS_ROOT, name)
}

/// The experiments that hold the number typed in the filter box.
pub open spec fn matching(list: Seq<Text>, typed: Text) -> Seq<Text> {
    list.filter(|name: Text| text::has(name, typed_number(typed)))
}

/// The experiments to offer, and the words on how many they are.
pub fn filtered_ipts(list: &Vec<String>, typed: &str) -> (r: (Vec<String>, String))
    ensures
        text::texts(r.0@) == matching(text::texts(list@), typed@),
        r.1@ == if typed_number(typed@).len() == 0 {
            "("@ + number::decimal(list@.len()) + " accessible)"@
        } else {
            "("@ + number::decimal(matching(text::texts(list@), typed@).len()) + " of "@
                + number::decimal(list@.len()) + " match)"@
        },
{
    let filter = number_typed(typed);
    let ghost ls = text::texts(list@);
    let mut out: Vec<String> = Vec::new();
    let mut i: usize = 0;
    proof {
        reveal(Seq::filter);
        assert(text::texts(out@) =~= matching(ls.take(0), typed@));
    }
    while i < list.len()
        invariant
            i <= list@.len(),
            ls == text::texts(list@),
            filter@ == typed_number(typed@),
            text::texts(out@) == matching(ls.take(i as int), typed@),
        decreases list@.len() - i,
    {
        reveal(Seq::filter);
        assert(ls.take(i + 1).drop_last() =~= ls.take(i as int));
        assert(ls.take(i + 1).last() == list@[i as int]@);
        if text::contains(list[i].as_str(), filter.as_str()) {
            let ghost before = out@;
            let item = list[i].clone();
            out.push(item);
            assert(text::texts(out@) =~= text::texts(before).push(item@));
        }
        i = i + 1;
    }
    assert(ls.take(i as int) =~= ls);
    assert(out@.len() == text::texts(out@).len());
    let total = number::decimal_text(list.len() as u64);
    let label = if filter.as_str().is_empty() {
        text::cat3("(", total.as_str(), " accessible)")
    } else {
        let n = number::decimal_text(out.len() as u64);
        text::cat5("(", n.as_str(), " of ", total.as_str(), " match)")
    };
    (out, label)
}

// ---------------------------------------------------------------------
// Configuration files

/// One selectable normalization configuration file.
pub struct ConfigFile {
    pub path: String,
    pub name: String,
    /// When it was last written.
    pub mtime: Moment,
}

/// A configuration file: its path, its name and when it was last written.
pub type ConfigView = (Text, Text, Moment);

pub open spec fn config_views(v: Seq<ConfigFile>) -> Seq<ConfigView> {
    v.map_values(|c: ConfigFile| (c.path@, c.name@, c.mtime))
}

/// The extension of a file name: what stands after its last dot, unless
/// that starts the name.
pub open spec fn extension(name: Text) -> Option<Text> {
    let d = text::run_start(name, Class::Not('.'), name.len() as int);
    if d > 1 {
        Some(name.skip(d))
    } else {
        None
    }
}

/// Is it the name of an HDF5 file (`.h5`, any case)?
pub open spec fn is_h5(name: Text) -> bool {
    match extension(name) {
        Some(ext) => text::lowered(ext) == "h5"@,
        None => false,
    }
}

/// Is it the name of an HDF5 file (`.h5`, any case)?
pub fn h5_name(name: &str) -> (r: bool)
    ensures
        r == is_h5(name@),
{
    let v = chars_of(name);
    let d = text::start_of_run(&v, Class::Not('.'), v.len());
    if d > 1 {
        let ext = slice(&v, d, v.len());
        assert(ext@ =~= name@.skip(d as int));
        let low = text::lowercase(ext.as_str());
        text::same(low.as_str(), "h5")
    } else {
        false
    }
}

/// The folders that hold the configuration files of an experiment. The
/// notebook saves either straight into shared/autoreduce or into
/// its configs/ subfolder, depending on the version: scan both.
pub fn config_folders(ipts_path: &str) -> (r: (String, String))
    ensures
        r.0@ == paths::below(paths::below(ipts_path@, "shared/autoreduce"@), "configs"@),
        r.1@ == paths::below(ipts_path@, "shared/autoreduce"@),
{
    let autoreduce = paths::join(ipts_path, "shared/autoreduce");
    (paths::join(autoreduce.as_str(), "configs"), autoreduce)
}

/// Neither folder of the configuration files can be read.
pub fn configs_unreadable(autoreduce: &str) -> (r: String)
    ensures
        r@ == "cannot read "@ + autoreduce@ + " (nor its configs/ subfolder)"@,
{
    text::cat3("cannot read ", autoreduce, " (nor its configs/ subfolder)")
}

/// A file seen in a folder of configuration files.
pub struct Candidate {
    pub path: String,
    pub name: String,
    pub is_file: bool,
    pub mtime: Moment,
}

/// The configuration files among the candidates.
pub open spec fn config_files(seen: Seq<Candidate>) -> Seq<ConfigView>
    decreases seen.len(),
{
    if seen.len() == 0 {
        Seq::empty()
    } else {
        let before = config_files(seen.drop_last());
        let c = seen.last();
        if is_h5(c.name@) && c.is_file {
            before.push((c.path@, c.name@, c.mtime))
        } else {
            before
        }
    }
}

/// The newest file first.
pub open spec fn age_key() -> spec_fn(ConfigView) -> int {
    |c: ConfigView| -instant(c.2)
}

/// A moment on one scale.
pub open spec fn instant(t: Moment) -> int {
    t.secs * 0x1_0000_0000 + t.nanos
}

proof fn lemma_instant(a: Moment, b: Moment)
    ensures
        instant(a) <= instant(b) <==> clock::at_or_before(a, b),
{
    assert(0 <= a.nanos < 0x1_0000_0000);
    assert(0 <= b.nanos < 0x1_0000_0000);
}

/// The configuration files of the IPTS (`shared/autoreduce/*.h5`
/// and `shared/autoreduce/configs/*.h5`), newest first.
pub fn rescan_configs(seen: &Vec<Candidate>) -> (r: Vec<ConfigFile>)
    ensures
        config_views(r@) == order::by_key(config_files(seen@), age_key()),
{
    let mut out: Vec<ConfigFile> = Vec::new();
    let mut i: usize = 0;
    assert(seen@.take(0) =~= Seq::empty());
    assert(config_views(out@) =~= Seq::empty());
    while i < seen.len()
        invariant
            i <= seen@.len(),
            config_views(out@) == order::by_key(config_files(seen@.take(i as int)), age_key()),
        decreases seen@.len() - i,
    {
        proof {
            assert(seen@.take(i + 1).drop_last() =~= seen@.take(i as int));
            assert(seen@.take(i + 1).last() == seen@[i as int]);
        }
        if h5_name(seen[i].name.as_str()) && seen[i].is_file {
            let item = ConfigFile {
                path: seen[i].path.clone(),
                name: seen[i].name.clone(),
                mtime: seen[i].mtime,
            };
            let ghost x = (item.path@, item.name@, item.mtime);
            let ghost all = config_files(seen@.take(i as int));
            proof {
                assert(all.push(x).drop_last() =~= all);
            }
            let ghost o = config_views(out@);
            let mut k: usize = out.len();
            while k > 0 && !item.mtime.not_after(&out[k - 1].mtime)
                invariant
                    k <= out@.len(),
                    o == config_views(out@),
                    x == (item.path@, item.name@, item.mtime),
                    forall|j: int| k <= j < o.len() ==> age_key()(#[trigger] o[j]) > age_key()(x),
                decreases k,
            {
                proof {
                    assert(o[k - 1] == (
                        out@[k - 1].path@,
                        out@[k - 1].name@,
                        out@[k - 1].mtime,
                    ));
                    lemma_instant(item.mtime, out@[k - 1].mtime);
                }
                k = k - 1;
            }
            proof {
                if k > 0 {
                    assert(o[k - 1] == (
                        out@[k - 1].path@,
                        out@[k - 1].name@,
                        out@[k - 1].mtime,
                    ));
                    lemma_instant(item.mtime, out@[k - 1].mtime);
                }
                order::placed_at(o, age_key(), x, k as int);
            }
            out.insert(k, item);
            assert(config_views(out@) =~= o.insert(k as int, x));
        }
        i = i + 1;
    }
    assert(seen@.take(i as int) =~= seen@);
    out
}

/// The configuration that is taken by itself: the first of the list.
pub open spec fn first_config(list: Seq<ConfigView>) -> Option<Text> {
    if list.len() > 0 {
        Some(list[0].0)
    } else {
        None
    }
}

/// Default configuration: the most recent `.h5` of the IPTS (the list
/// is sorted newest first).
pub fn newest_config(configs: &Vec<ConfigFile>) -> (r: Option<String>)
    ensures
        text::opt_text(r) == if configs@.len() == 0 {
            None::<Text>
        } else {
            Some(configs@[0].path@)
        },
        text::opt_text(r) == first_config(config_views(configs@)),
{
    if configs.len() == 0 {
        None
    } else {
        Some(configs[0].path.clone())
    }
}

/// The first of the list is the newest of it, and every candidate that is a
/// configuration file is in the list.
pub proof fn newest_configuration_comes_first(seen: Seq<Candidate>, i: int)
    requires
        0 <= i < seen.len(),
        is_h5(seen[i].name@),
        seen[i].is_file,
    ensures
        ({
            let list = order::by_key(config_files(seen), age_key());
            &&& list.len() > 0
            &&& clock::at_or_before(seen[i].mtime, list[0].2)
            &&& list.contains((seen[i].path@, seen[i].name@, seen[i].mtime))
        }),
{
    broadcast use vstd::seq_lib::group_to_multiset_ensures;

    let all = config_files(seen);
    let list = order::by_key(all, age_key());
    let x = (seen[i].path@, seen[i].name@, seen[i].mtime);
    lemma_config_files(seen, i);
    order::by_key_sorts(all, age_key());
    assert(all.to_multiset().contains(x));
    assert(list.to_multiset().contains(x));
    assert(list.contains(x));
    let k = choose|k: int| 0 <= k < list.len() && list[k] == x;
    assert(age_key()(list[0]) <= age_key()(list[k]));
    lemma_instant(seen[i].mtime, list[0].2);
}

proof fn lemma_config_files(seen: Seq<Candidate>, i: int)
    requires
        0 <= i < seen.len(),
        is_h5(seen[i].name@),
        seen[i].is_file,
    ensures
        config_files(seen).contains((seen[i].path@, seen[i].name@, seen[i].mtime)),
    decreases seen.len(),
{
    let x = (seen[i].path@, seen[i].name@, seen[i].mtime);
    let rest = config_files(seen.drop_last());
    let all = config_files(seen);
    if i < seen.len() - 1 {
        assert(seen.drop_last()[i] == seen[i]);
        lemma_config_files(seen.drop_last(), i);
        let k = choose|k: int| 0 <= k < rest.len() && rest[k] == x;
        assert(all[k] == x);
    } else {
        assert(all[rest.len() as int] == x);
    }
}

/// Is the file in the list?
pub open spec fn config_listed(list: Seq<ConfigView>, path: Text) -> bool {
    exists|i: int| 0 <= i < list.len() && paths::same_path((#[trigger] list[i]).0, path)
}

pub fn lists_config(configs: &Vec<ConfigFile>, path: &str) -> (r: bool)
    ensures
        r == config_listed(config_views(configs@), path@),
{
    let ghost cs = config_views(configs@);
    let mut i: usize = 0;
    while i < configs.len()
        invariant
            i <= configs@.len(),
            cs == config_views(configs@),
            forall|k: int| 0 <= k < i ==> !paths::same_path((#[trigger] cs[k]).0, path@),
        decreases configs@.len() - i,
    {
        assert(cs[i as int].0 == configs@[i as int].path@);
        if paths::same_as(configs[i].path.as_str(), path) {
            return true;
        }
        i = i + 1;
    }
    false
}

/// What a selected file is called in the list.
pub open spec fn called(path: Text) -> Text {
    match paths::file_name(path) {
        Some(name) => name,
        None => path,
    }
}

/// What keeping the selected configuration does to the list of them: it
/// stays selected while it is listed or still there, and is then listed.
pub open spec fn keeps_selection(
    before: Seq<ConfigView>,
    after: Seq<ConfigView>,
    selected: Option<Text>,
    mtime: Option<Moment>,
    kept: Option<Text>,
) -> bool {
    match selected {
        Some(path) => {
            let listed = config_listed(before, path);
            &&& kept == (if listed || mtime is Some {
                Some(path)
            } else {
                None
            })
            &&& after == (if !listed && mtime is Some {
                before.push((path, called(path), mtime->0))
            } else {
                before
            })
        },
        None => kept is None && after == before,
    }
}

/// Reconcile the selection with the list: a selected file that lives
/// outside the configs folder (picked with "Browse…", or registered by
/// hand in autoreduction.cfg) is appended to the list so the dropdown
/// can show it; a selection that no longer exists on disk is dropped.
/// `mtime` is when the selected file was written, `None` where it is no
/// file. Gives the selection.
pub fn keep_selected_config(
    configs: &mut Vec<ConfigFile>,
    selected: Option<String>,
    mtime: Option<Moment>,
) -> (r: Option<String>)
    ensures
        ({
            let before = config_views(old(configs)@);
            let after = config_views(final(configs)@);
            match selected {
                None => r is None && after == before,
                Some(path) => if config_listed(before, path@) {
                    text::opt_text(r) == Some(path@) && after == before
                } else {
                    match mtime {
                        Some(t) => text::opt_text(r) == Some(path@) && after == before.push(
                            (path@, called(path@), t),
                        ),
                        None => r is None && after == before,
                    }
                },
            }
        }),
        keeps_selection(
            config_views(old(configs)@),
            config_views(final(configs)@),
            text::opt_text(selected),
            mtime,
            text::opt_text(r),
        ),
{
    let path = match selected {
        Some(path) => path,
        None => return None,
    };
    if lists_config(configs, path.as_str()) {
        return Some(path);
    }
    match mtime {
        Some(t) => {
            let name = match paths::file_name_of(path.as_str()) {
                Some(name) => name,
                None => path.clone(),
            };
            let ghost before = config_views(configs@);
            configs.push(ConfigFile { path: path.clone(), name, mtime: t });
            assert(config_views(configs@) =~= before.push((path@, called(path@), t)));
            Some(path)
        },
        None => None,
    }
}

/// The words in place of a list of configuration files: none while one is
/// selected and the folders cannot be read.
pub open spec fn configs_words(error: Option<Text>, none_listed: bool, selected: bool) -> Option<
    Text,
> {
    match error {
        Some(e) => if selected {
            None
        } else {
            Some(e)
        },
        None => if none_listed {
            Some("No configuration file found — create one with the notebook below"@)
        } else {
            None
        },
    }
}

/// The folder-scan warning only matters while nothing is selected:
/// a file picked with Browse… (or registered in autoreduction.cfg)
/// works fine without the configs folder.
pub fn configs_note(error: Option<&str>, none_listed: bool, selected: bool) -> (r: Option<String>)
    ensures
        text::opt_text(r) == configs_words(text::opt_str(error), none_listed, selected),
{
    match error {
        Some(e) => if selected {
            None
        } else {
            Some(e.to_owned())
        },
        None => if none_listed {
            Some("No configuration file found — create one with the notebook below".to_owned())
        } else {
            None
        },
    }
}

// ---------------------------------------------------------------------
// The detector

/// The folders that can be a detector's: neither plain files nor hidden.
pub open spec fn detectors(entries: Seq<(Text, bool)>) -> Seq<Text>
    decreases entries.len(),
{
    if entries.len() == 0 {
        Seq::empty()
    } else {
        let before = detectors(entries.drop_last());
        if files::looked_at(entries.last()) {
            before.push(entries.last().0)
        } else {
            before
        }
    }
}

/// The one detector of a layout; none where there is no single one.
pub open spec fn only_detector(entries: Seq<(Text, bool)>) -> Option<Text> {
    if detectors(entries).len() == 1 {
        Some(detectors(entries)[0])
    } else {
        None
    }
}

/// The detector folder of the IPTS reduction layout
/// (`shared/autoreduce/images/<detector>`, e.g. `tpx1`) when there is
/// exactly one — the fallback when the configuration names none.
pub fn detector_from_layout(entries: &Vec<Entry>) -> (r: Option<String>)
    ensures
        text::opt_text(r) == ({
            let names = detectors(files::entries(entries@));
            if names.len() == 1 {
                Some(names[0])
            } else {
                None
            }
        }),
        text::opt_text(r) == only_detector(files::entries(entries@)),
{
    let ghost es = files::entries(entries@);
    let mut names: Vec<String> = Vec::new();
    let mut i: usize = 0;
    assert(text::texts(names@) =~= detectors(es.take(0)));
    while i < entries.len()
        invariant
            i <= entries@.len(),
            es == files::entries(entries@),
            text::texts(names@) == detectors(es.take(i as int)),
        decreases entries@.len() - i,
    {
        assert(es.take(i + 1).drop_last() =~= es.take(i as int));
        assert(es.take(i + 1).last() == files::entry(entries@[i as int]));
        if files::is_looked_at(&entries[i]) {
            let ghost before = names@;
            let item = entries[i].name.clone();
            names.push(item);
            assert(text::texts(names@) =~= text::texts(before).push(item@));
        }
        i = i + 1;
    }
    assert(es.take(i as int) =~= es);
    assert(names@.len() == text::texts(names@).len());
    if names.len() == 1 {
        assert(text::texts(names@)[0] == names@[0]@);
        Some(names[0].clone())
    } else {
        None
    }
}

// ---------------------------------------------------------------------
// The image viewer

/// The arguments of the image viewer: the first folder is the main stack,
/// the others are compared with it.
pub open spec fn viewer_words(folders: Seq<Text>, detector: Option<Text>) -> Seq<Text> {
    let tail = match detector {
        Some(d) => seq!["--detector"@, d],
        None => Seq::empty(),
    };
    if folders.len() == 0 {
        Seq::empty()
    } else {
        seq![folders[0]] + compared(folders.skip(1)) + tail
    }
}

pub open spec fn compared(folders: Seq<Text>) -> Seq<Text>
    decreases folders.len(),
{
    if folders.len() == 0 {
        Seq::empty()
    } else {
        compared(folders.drop_last()) + seq!["--compare"@, folders.last()]
    }
}

/// Open normalized-data folders in ONE TIFF viewer session (detached):
/// the first folder is the main stack, the others are `--compare`
/// stacks shown side by side (shared colorscale, mirrored regions).
/// The detector is passed along so the frames come up in the right
/// orientation right away. Gives the arguments, none for no folder.
pub fn viewer_args(folders: &Vec<String>, detector: Option<&str>) -> (r: Vec<String>)
    ensures
        text::texts(r@) == viewer_words(text::texts(folders@), text::opt_str(detector)),
{
    let ghost fs = text::texts(folders@);
    let mut out: Vec<String> = Vec::new();
    if folders.len() == 0 {
        assert(text::texts(out@) =~= Seq::empty());
        return out;
    }
    out.push(folders[0].clone());
    let ghost rest = fs.skip(1);
    let mut i: usize = 1;
    assert(text::texts(out@) =~= seq![fs[0]] + compared(rest.take(0)));
    while i < folders.len()
        invariant
            1 <= i <= folders@.len(),
            fs == text::texts(folders@),
            rest == fs.skip(1),
            text::texts(out@) == seq![fs[0]] + compared(rest.take(i - 1)),
        decreases folders@.len() - i,
    {
        assert(rest.take(i as int).drop_last() =~= rest.take(i - 1));
        assert(rest.take(i as int).last() == folders@[i as int]@);
        let ghost before = text::texts(out@);
        out.push("--compare".to_owned());
        assert(text::texts(out@) =~= before.push("--compare"@));
        out.push(folders[i].clone());
        assert(text::texts(out@) =~= before.push("--compare"@).push(fs[i as int]));
        assert(text::texts(out@) =~= seq![fs[0]] + compared(rest.take(i as int)));
        i = i + 1;
    }
    assert(rest.take(i - 1) =~= rest);
    let ghost before = text::texts(out@);
    match detector {
        Some(d) => {
            out.push("--detector".to_owned());
            assert(text::texts(out@) =~= before.push("--detector"@));
            out.push(d.to_owned());
            assert(text::texts(out@) =~= before.push("--detector"@).push(d@));
            assert(text::texts(out@) =~= before + seq!["--detector"@, d@]);
        },
        None => {
            assert(before =~= before + Seq::<Text>::empty());
        },
    }
    out
}

// ---------------------------------------------------------------------
// The default configuration

/// Where the results with the notebook's default parameters go, and the
/// configuration file that holds those defaults.
pub fn default_places(ipts_path: &str) -> (r: (String, String))
    ensures
        r.0@ == paths::below(ipts_path@, "shared/processed_data/autoreduction"@),
        r.1@ == paths::below(r.0@, "default_normalization_config.h5"@),
{
    let folder = paths::join(ipts_path, "shared/processed_data/autoreduction");
    let file = paths::join(folder.as_str(), "default_normalization_config.h5");
    (folder, file)
}

} // verus!
