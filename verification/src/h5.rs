//! What the NeXus files and the normalization session configurations hold:
//! acquisition times and the kind (sample, open beam, alignment) of a run,
//! the settings of a configuration, and what a newly written configuration
//! consists of. Datasets and attributes come in as plain values.

use vstd::prelude::*;
use crate::clock::{parse_moment, parse_zone, Moment};
use crate::text::{Class, Text};
use crate::{clock, text};

verus! {

// ---------------------------------------------------------------------
// NeXus files

/// Acquisition interval of a run, from `/entry/start_time` and
/// `/entry/end_time` of its NeXus file (RFC-3339 strings, e.g.
/// `2026-06-13T13:49:50.064875667-04:00`). `None` when one is missing or not
/// a time.
pub fn nexus_times(start: &Option<String>, end: &Option<String>) -> (r: Option<(Moment, Moment)>)
    ensures
        r == interval(text::opt_text(*start), text::opt_text(*end)),
{
    match (start, end) {
        (Some(a), Some(b)) => interval_of(parse_moment(a.as_str()), parse_moment(b.as_str())),
        _ => None,
    }
}

/// How far the clocks of the two ends of an acquisition were ahead of UTC, in
/// seconds.
pub open spec fn zones(start: Option<Text>, end: Option<Text>) -> Option<(i32, i32)> {
    match (start, end) {
        (Some(a), Some(b)) => match (clock::zone(a), clock::zone(b)) {
            (Some(x), Some(y)) => Some((x, y)),
            _ => None,
        },
        _ => None,
    }
}

/// How far the clocks of the two ends of an acquisition were ahead of UTC, in
/// seconds; known wherever the acquisition interval is.
pub fn nexus_zones(start: &Option<String>, end: &Option<String>) -> (r: Option<(i32, i32)>)
    ensures
        r == zones(text::opt_text(*start), text::opt_text(*end)),
        r is Some <==> interval(text::opt_text(*start), text::opt_text(*end)) is Some,
{
    match (start, end) {
        (Some(a), Some(b)) => match (parse_zone(a.as_str()), parse_zone(b.as_str())) {
            (Some(x), Some(y)) => Some((x, y)),
            _ => None,
        },
        _ => None,
    }
}

/// The acquisition interval of two times.
pub open spec fn interval(start: Option<Text>, end: Option<Text>) -> Option<(Moment, Moment)> {
    match (start, end) {
        (Some(a), Some(b)) => both(clock::moment(a), clock::moment(b)),
        _ => None,
    }
}

pub open spec fn both(start: Option<Moment>, end: Option<Moment>) -> Option<(Moment, Moment)> {
    match (start, end) {
        (Some(a), Some(b)) => Some((a, b)),
        _ => None,
    }
}

/// The acquisition interval, where both times are known.
pub fn interval_of(start: Option<Moment>, end: Option<Moment>) -> (r: Option<(Moment, Moment)>)
    ensures
        r == both(start, end),
{
    match (start, end) {
        (Some(a), Some(b)) => Some((a, b)),
        _ => None,
    }
}

/// The last value that is not blank, without the whitespace around it.
pub open spec fn last_value(values: Seq<Text>) -> Option<Text>
    decreases values.len(),
{
    if values.len() == 0 {
        None
    } else if text::trimmed(values.last()).len() > 0 {
        Some(text::trimmed(values.last()))
    } else {
        last_value(values.drop_last())
    }
}

/// Where the DAQ wrote the run's images, relative to the IPTS folder,
/// from the values of the `BL10:Exp:IM:ImageFilePath` log of its NeXus file.
/// The log is a time series: its first value is usually the PREVIOUS run's
/// folder (the value at the start of the run, before the DAQ set the new
/// one), so the last value is the run's own. Trailing padding of the
/// fixed-length string removed. `None` when there is no value.
pub fn nexus_image_path(values: &Vec<String>) -> (r: Option<String>)
    ensures
        text::opt_text(r) == last_value(text::texts(values@)),
{
    let ghost vs = text::texts(values@);
    let mut i: usize = values.len();
    assert(vs.take(i as int) =~= vs);
    while i > 0
        invariant
            i <= values@.len(),
            vs == text::texts(values@),
            last_value(vs) == last_value(vs.take(i as int)),
        decreases i,
    {
        assert(vs.take(i as int).drop_last() =~= vs.take(i - 1));
        assert(vs.take(i as int).last() == values@[i - 1]@);
        i = i - 1;
        let value = text::trim(values[i].as_str());
        if !value.as_str().is_empty() {
            return Some(value);
        }
    }
    None
}

/// What a run is, per the image folder its NeXus records. The DAQ files
/// alignment runs under an `alignment` folder of the IPTS `images` tree
/// and open beams under an `ob` folder (samples under `raw/…`).
#[derive(Clone, Copy, Debug, PartialEq, Eq, Structural)]
pub enum RunKind {
    /// A regular (sample) run — the only kind that gets normalized.
    Sample,
    /// An open-beam run: the DAQ files it under an `ob` folder of the
    /// IPTS `images` tree. It is corrected by the autoreduction like any
    /// run, but never normalized: it is a normalization INPUT.
    OpenBeam,
    /// An alignment run (`alignment` folder): never corrected, never
    /// normalized.
    Alignment,
}

/// The kind a folder of the image path tells, if any.
pub open spec fn part_kind(part: Text) -> Option<RunKind> {
    let p = text::lowered(text::trimmed(part));
    if p == "alignment"@ {
        Some(RunKind::Alignment)
    } else if p == "ob"@ {
        Some(RunKind::OpenBeam)
    } else {
        None
    }
}

/// The kind the first telling part, from index `i` on, gives.
pub open spec fn first_kind(parts: Seq<Text>, i: int) -> RunKind
    decreases parts.len() - i,
{
    if !(0 <= i < parts.len()) {
        RunKind::Sample
    } else {
        match part_kind(parts[i]) {
            Some(kind) => kind,
            None => first_kind(parts, i + 1),
        }
    }
}

/// The kind of the run whose images lie at the path.
pub open spec fn kind_of(image_path: Text) -> RunKind {
    first_kind(text::pieces(image_path, Class::NotSlash), 0)
}

/// Classify the image folder recorded by [`nexus_image_path`]: an
/// `alignment` or `ob` path component (any case) anywhere in the path
/// tells; anything else is a sample run. Alignment runs are never
/// corrected by the autoreduction and need no normalization; open beams
/// are corrected but are normalization inputs, never normalized.
pub fn image_path_kind(image_path: &str) -> (r: RunKind)
    ensures
        r == kind_of(image_path@),
{
    let parts = text::split(image_path, Class::NotSlash);
    let ghost ps = text::texts(parts@);
    let mut i: usize = 0;
    while i < parts.len()
        invariant
            i <= parts@.len(),
            ps == text::texts(parts@),
            ps == text::pieces(image_path@, Class::NotSlash),
            first_kind(ps, 0) == first_kind(ps, i as int),
        decreases parts@.len() - i,
    {
        assert(ps[i as int] == parts@[i as int]@);
        let bare = text::trim(parts[i].as_str());
        let part = text::lowercase(bare.as_str());
        if text::same(part.as_str(), "alignment") {
            return RunKind::Alignment;
        }
        if text::same(part.as_str(), "ob") {
            return RunKind::OpenBeam;
        }
        i = i + 1;
    }
    RunKind::Sample
}

// ---------------------------------------------------------------------
// Session configurations

/// The crop region `(x0, y0, x1, y1)`, exclusive stops.
pub type Region = (usize, usize, usize, usize);

/// What the auto-normalization launcher needs out of a normalization
/// session configuration file (schema of the marimo notebook, version 1).
#[derive(Debug)]
pub struct ConfigInfo {
    /// Detector-corrected open-beam folders (NeuNorm `--ob` inputs).
    pub ob_folders: Vec<String>,
    /// The notebook's crop region `(x0, y0, x1, y1)` (exclusive stops, in
    /// the on-disk frame of the TIFF files), if any — the inputs are
    /// pre-cropped on disk before NeuNorm runs, as the workflow runner does.
    pub crop_region: Option<Region>,
    /// The notebook's output folder (root attribute `output_folder`), where
    /// the workflow runner writes `Run_<run>/normalization`. `None` when
    /// absent or empty.
    pub output_folder: Option<String>,
    /// The detector the data came from (root attribute `detector`, e.g.
    /// `tpx1`) — decides the display orientation in the TIFF viewer.
    pub detector: Option<String>,
    /// The configuration's settings, by name, as text.
    pub parameters: Vec<(String, String)>,
}

/// A configuration's settings.
pub struct Info {
    pub ob_folders: Seq<Text>,
    pub crop_region: Option<Region>,
    pub output_folder: Option<Text>,
    pub detector: Option<Text>,
    pub parameters: Seq<(Text, Text)>,
}

impl View for ConfigInfo {
    type V = Info;

    open spec fn view(&self) -> Info {
        Info {
            ob_folders: text::texts(self.ob_folders@),
            crop_region: self.crop_region,
            output_folder: text::opt_text(self.output_folder),
            detector: text::opt_text(self.detector),
            parameters: text::pair_texts(self.parameters@),
        }
    }
}

impl ConfigInfo {
    pub fn copy(&self) -> (r: ConfigInfo)
        ensures
            r@ == self@,
    {
        ConfigInfo {
            ob_folders: text::clone_all(&self.ob_folders),
            crop_region: self.crop_region,
            output_folder: text::clone_opt(&self.output_folder),
            detector: text::clone_opt(&self.detector),
            parameters: text::clone_pairs(&self.parameters),
        }
    }
}

/// What was read of a configuration file: the strings of `ob/folders`, the
/// numbers of the `crop_region` attribute (each `None` where it is not a
/// finite number at or above zero, else cut to a whole number), and the
/// first strings of the root attributes; `None` for what is absent.
pub struct RawConfig {
    pub ob_folders: Option<Vec<String>>,
    pub crop_region: Option<Vec<Option<usize>>>,
    pub output_folder: Option<String>,
    pub detector: Option<String>,
    pub parameters: Vec<(String, String)>,
}

/// What was read of a configuration file.
pub struct Raw {
    pub ob_folders: Option<Seq<Text>>,
    pub crop_region: Option<Seq<Option<usize>>>,
    pub output_folder: Option<Text>,
    pub detector: Option<Text>,
    pub parameters: Seq<(Text, Text)>,
}

impl View for RawConfig {
    type V = Raw;

    open spec fn view(&self) -> Raw {
        Raw {
            ob_folders: match self.ob_folders {
                Some(v) => Some(text::texts(v@)),
                None => None,
            },
            crop_region: match self.crop_region {
                Some(v) => Some(v@),
                None => None,
            },
            output_folder: text::opt_text(self.output_folder),
            detector: text::opt_text(self.detector),
            parameters: text::pair_texts(self.parameters@),
        }
    }
}

/// The crop region of the attribute's numbers: four of them, each usable.
pub open spec fn region_of(numbers: Option<Seq<Option<usize>>>) -> Option<Region> {
    match numbers {
        Some(v) => if v.len() == 4 && v[0] is Some && v[1] is Some && v[2] is Some && v[3] is Some {
            Some((v[0]->0, v[1]->0, v[2]->0, v[3]->0))
        } else {
            None
        },
        None => None,
    }
}

/// A root attribute's text; none where it is absent or blank.
pub open spec fn root_text(s: Option<Text>) -> Option<Text> {
    match s {
        Some(t) => if text::trimmed(t).len() > 0 {
            Some(text::trimmed(t))
        } else {
            None
        },
        None => None,
    }
}

fn root_string(s: &Option<String>) -> (r: Option<String>)
    ensures
        text::opt_text(r) == root_text(text::opt_text(*s)),
{
    match s {
        Some(t) => {
            let bare = text::trim(t.as_str());
            if bare.as_str().is_empty() {
                None
            } else {
                Some(bare)
            }
        },
        None => None,
    }
}

/// The settings a configuration file's raw contents stand for.
pub open spec fn info_of(raw: Raw) -> Info {
    Info {
        ob_folders: match raw.ob_folders {
            Some(folders) => folders,
            None => Seq::empty(),
        },
        crop_region: region_of(raw.crop_region),
        output_folder: root_text(raw.output_folder),
        detector: root_text(raw.detector),
        parameters: raw.parameters,
    }
}

/// The open-beam entries, crop region, output folder and settings of a
/// configuration file, from what was read of it.
pub fn read_config_info(raw: &RawConfig) -> (r: ConfigInfo)
    ensures
        r@ == info_of(raw@),
{
    let ob_folders = match &raw.ob_folders {
        Some(v) => text::clone_all(v),
        None => Vec::new(),
    };
    let crop_region = match &raw.crop_region {
        Some(v) => {
            if v.len() == 4 {
                match (v[0], v[1], v[2], v[3]) {
                    (Some(x0), Some(y0), Some(x1), Some(y1)) => Some((x0, y0, x1, y1)),
                    _ => None,
                }
            } else {
                None
            }
        },
        None => None,
    };
    let r = ConfigInfo {
        ob_folders,
        crop_region,
        output_folder: root_string(&raw.output_folder),
        detector: root_string(&raw.detector),
        parameters: text::clone_pairs(&raw.parameters),
    };
    assert(r@.ob_folders =~= info_of(raw@).ob_folders);
    r
}

// ---------------------------------------------------------------------
// A configuration of default settings

/// One write into a configuration file. `at` is the group, empty for the
/// root.
#[derive(Debug)]
#[allow(inconsistent_fields)]
pub enum Write<P = String> {
    /// Create a group.
    Group(P),
    /// A string attribute.
    Text { at: P, name: P, value: P },
    /// A boolean attribute.
    Flag { at: P, name: P, value: bool },
    /// An integer attribute.
    Whole { at: P, name: P, value: i64 },
    /// A floating-point attribute, of a whole value.
    Real { at: P, name: P, value: i32 },
    /// A dataset of no strings.
    NoTexts { at: P, name: P },
    /// A dataset of no pairs of floating-point numbers.
    NoRealPairs { at: P, name: P },
    /// A dataset of no integers.
    NoWholes { at: P, name: P },
}

impl View for Write {
    type V = Write<Text>;

    open spec fn view(&self) -> Write<Text> {
        match self {
            Write::Group(g) => Write::Group(g@),
            Write::Text { at, name, value } => Write::Text { at: at@, name: name@, value: value@ },
            Write::Flag { at, name, value } => Write::Flag { at: at@, name: name@, value: *value },
            Write::Whole { at, name, value } => Write::Whole {
                at: at@,
                name: name@,
                value: *value,
            },
            Write::Real { at, name, value } => Write::Real { at: at@, name: name@, value: *value },
            Write::NoTexts { at, name } => Write::NoTexts { at: at@, name: name@ },
            Write::NoRealPairs { at, name } => Write::NoRealPairs { at: at@, name: name@ },
            Write::NoWholes { at, name } => Write::NoWholes { at: at@, name: name@ },
        }
    }
}

pub open spec fn writes(v: Seq<Write>) -> Seq<Write<Text>> {
    v.map_values(|w: Write| w@)
}

pub open spec fn text_at(at: Text, name: Text, value: Text) -> Write<Text> {
    Write::Text { at, name, value }
}

pub open spec fn flag_at(at: Text, name: Text, value: bool) -> Write<Text> {
    Write::Flag { at, name, value }
}

/// Every write of a configuration that holds the default of each setting of
/// the "Normalization TOF at VENUS" notebook: Bragg mode, proton-charge
/// normalization, no background matching, no inpainting, no manual TOF
/// binning (no TOF range), 25 m source-detector distance, 700 ns spectra
/// bins, no crop, no mask, the TIFF stack + integrated TIFF + `x_axis.txt`
/// exports — with no sample (each run's own corrected folder is the sample)
/// and no open beam.
pub open spec fn default_writes(created: Text, ipts: Text, detector: Text, output: Text) -> Seq<
    Write<Text>,
> {
    let root = Seq::<char>::empty();
    seq![
        Write::Whole { at: root, name: "schema_version"@, value: 1 },
        text_at(root, "created"@, created),
        text_at(root, "notebook"@, "normalization_tof_at_venus_marimo"@),
        text_at(
            root,
            "generated_by"@,
            "autonormalization_monitor — the notebook's default parameters"@,
        ),
        text_at(root, "ipts"@, ipts),
        text_at(root, "detector"@, detector),
        text_at(root, "output_folder"@, output),
        Write::Group("sample"@),
        text_at("sample"@, "run_spec"@, root),
        flag_at("sample"@, "combine_runs"@, false),
        Write::NoTexts { at: "sample"@, name: "folders"@ },
        Write::Group("ob"@),
        text_at("ob"@, "run_spec"@, root),
        Write::NoTexts { at: "ob"@, name: "folders"@ },
        Write::Group("spectra"@),
        Write::Real { at: "spectra"@, name: "tof_bin_size_ns"@, value: 700 },
        Write::Group("normalization"@),
        text_at("normalization"@, "mode"@, "Bragg mode"@),
        flag_at("normalization"@, "proton_charge"@, true),
        flag_at("normalization"@, "match_background"@, false),
        flag_at("normalization"@, "inpaint"@, false),
        text_at("normalization"@, "tof_binning_mode"@, "None"@),
        Write::Real { at: "normalization"@, name: "distance_source_detector_m"@, value: 25 },
        Write::NoRealPairs { at: "normalization"@, name: "tof_ranges_us"@ },
        Write::NoWholes { at: "normalization"@, name: "tof_ranges_enabled"@ },
        Write::Group("export"@),
        flag_at("export"@, "scitiff"@, false),
        flag_at("export"@, "stack"@, true),
        flag_at("export"@, "integrated"@, true),
        flag_at("export"@, "integrated_tiff"@, true),
        flag_at("export"@, "integrated_scitiff"@, false),
        flag_at("export"@, "ascii"@, true),
    ]
}

fn put_group(out: &mut Vec<Write>, name: &str)
    ensures
        writes(final(out)@) == writes(old(out)@).push(Write::Group(name@)),
{
    let w = Write::Group(name.to_owned());
    out.push(w);
    assert(writes(out@) =~= writes(old(out)@).push(w@));
}

fn put_text(out: &mut Vec<Write>, at: &str, name: &str, value: &str)
    ensures
        writes(final(out)@) == writes(old(out)@).push(text_at(at@, name@, value@)),
{
    let w = Write::Text { at: at.to_owned(), name: name.to_owned(), value: value.to_owned() };
    out.push(w);
    assert(writes(out@) =~= writes(old(out)@).push(w@));
}

fn put_flag(out: &mut Vec<Write>, at: &str, name: &str, value: bool)
    ensures
        writes(final(out)@) == writes(old(out)@).push(flag_at(at@, name@, value)),
{
    let w = Write::Flag { at: at.to_owned(), name: name.to_owned(), value };
    out.push(w);
    assert(writes(out@) =~= writes(old(out)@).push(w@));
}

fn put_real(out: &mut Vec<Write>, at: &str, name: &str, value: i32)
    ensures
        writes(final(out)@) == writes(old(out)@).push(
            Write::Real { at: at@, name: name@, value },
        ),
{
    let w = Write::Real { at: at.to_owned(), name: name.to_owned(), value };
    out.push(w);
    assert(writes(out@) =~= writes(old(out)@).push(w@));
}

fn put_no_texts(out: &mut Vec<Write>, at: &str, name: &str)
    ensures
        writes(final(out)@) == writes(old(out)@).push(Write::NoTexts { at: at@, name: name@ }),
{
    let w = Write::NoTexts { at: at.to_owned(), name: name.to_owned() };
    out.push(w);
    assert(writes(out@) =~= writes(old(out)@).push(w@));
}

/// The notebook's default parameters, as the writes of a configuration file
/// (the notebook's schema, version 1). `ipts` (e.g. `IPTS-36967`),
/// `detector` (e.g. `tpx1`) and `output_folder` are the root attributes
/// the notebook, the workflow runner and this app read.
pub fn write_default_config(created: &str, ipts: &str, detector: &str, output_folder: &str) -> (r:
    Vec<Write>)
    ensures
        writes(r@) == default_writes(created@, ipts@, detector@, output_folder@),
{
    let root = String::new();
    let mut out: Vec<Write> = Vec::new();
    let first = Write::Whole {
        at: String::new(),
        name: "schema_version".to_owned(),
        value: 1,
    };
    out.push(first);
    assert(writes(out@) =~= seq![first@]);
    put_text(&mut out, root.as_str(), "created", created);
    put_text(&mut out, root.as_str(), "notebook", "normalization_tof_at_venus_marimo");
    put_text(
        &mut out,
        root.as_str(),
        "generated_by",
        "autonormalization_monitor — the notebook's default parameters",
    );
    put_text(&mut out, root.as_str(), "ipts", ipts);
    put_text(&mut out, root.as_str(), "detector", detector);
    put_text(&mut out, root.as_str(), "output_folder", output_folder);
    // Sample: none — each run's corrected folder is the sample.
    put_group(&mut out, "sample");
    put_text(&mut out, "sample", "run_spec", root.as_str());
    put_flag(&mut out, "sample", "combine_runs", false);
    put_no_texts(&mut out, "sample", "folders");
    // Open beams: none — named per run in the table.
    put_group(&mut out, "ob");
    put_text(&mut out, "ob", "run_spec", root.as_str());
    put_no_texts(&mut out, "ob", "folders");
    put_group(&mut out, "spectra");
    put_real(&mut out, "spectra", "tof_bin_size_ns", 700);
    put_group(&mut out, "normalization");
    put_text(&mut out, "normalization", "mode", "Bragg mode");
    put_flag(&mut out, "normalization", "proton_charge", true);
    put_flag(&mut out, "normalization", "match_background", false);
    put_flag(&mut out, "normalization", "inpaint", false);
    put_text(&mut out, "normalization", "tof_binning_mode", "None");
    put_real(&mut out, "normalization", "distance_source_detector_m", 25);
    let pairs = Write::NoRealPairs {
        at: "normalization".to_owned(),
        name: "tof_ranges_us".to_owned(),
    };
    let ghost before = out@;
    out.push(pairs);
    assert(writes(out@) =~= writes(before).push(pairs@));
    let enabled = Write::NoWholes {
        at: "normalization".to_owned(),
        name: "tof_ranges_enabled".to_owned(),
    };
    let ghost before = out@;
    out.push(enabled);
    assert(writes(out@) =~= writes(before).push(enabled@));
    // No crop_region, no roi_mask, no background_mask: the notebook
    // writes them only when selected.
    put_group(&mut out, "export");
    put_flag(&mut out, "export", "scitiff", false);
    put_flag(&mut out, "export", "stack", true);
    put_flag(&mut out, "export", "integrated", true);
    put_flag(&mut out, "export", "integrated_tiff", true);
    put_flag(&mut out, "export", "integrated_scitiff", false);
    put_flag(&mut out, "export", "ascii", true);
    assert(writes(out@) =~= default_writes(created@, ipts@, detector@, output_folder@));
    out
}

// ---------------------------------------------------------------------
// A configuration with other open beams

/// What a copy of a configuration gets in place of its open beams: the
/// strings of `ob/folders`, and the attributes to set, each replacing one of
/// the same name.
pub struct ObPlan {
    pub folders: Vec<String>,
    pub attributes: Vec<Write>,
}

/// The attributes of a copy of the configuration `src` with the open beams
/// of `run_spec`.
pub open spec fn ob_attributes(src: Text, run_spec: Text, created: Text) -> Seq<Write<Text>> {
    let root = Seq::<char>::empty();
    seq![
        text_at("ob"@, "run_spec"@, run_spec),
        text_at(root, "derived_from"@, src),
        text_at(root, "created"@, created),
    ]
}

/// What is written to a copy of a configuration to give it other open beams:
/// the list of their folders, and the attributes set.
pub open spec fn beams_written(src: Text, folders: Seq<Text>, run_spec: Text, created: Text) -> Option<
    (Seq<Text>, Seq<Write<Text>>),
> {
    if folders.len() > 0 {
        Some((folders, ob_attributes(src, run_spec, created)))
    } else {
        None
    }
}

/// A copy of the configuration `src` with its open beams replaced by
/// `ob_folders` (the `ob/folders` dataset, variable-length UTF-8 strings as
/// the notebook writes them, and the `ob/run_spec` attribute set to
/// `run_spec`, e.g. `29962, 29963`). Everything else — sample, masks,
/// normalization settings, output folder — is kept (the file is copied
/// first). The root gets a `derived_from` attribute naming `src` and a fresh
/// `created` time so the notebook and the viewers can tell where the file
/// comes from.
pub fn write_config_with_obs(
    src: &str,
    ob_folders: &Vec<String>,
    run_spec: &str,
    created: &str,
) -> (r: Result<ObPlan, String>)
    ensures
        match r {
            Ok(plan) => {
                &&& ob_folders@.len() > 0
                &&& text::texts(plan.folders@) == text::texts(ob_folders@)
                &&& writes(plan.attributes@) == ob_attributes(src@, run_spec@, created@)
            },
            Err(message) => ob_folders@.len() == 0 && message@ == "no open-beam folder to write"@,
        },
        match r {
            Ok(plan) => beams_written(src@, text::texts(ob_folders@), run_spec@, created@) == Some(
                (text::texts(plan.folders@), writes(plan.attributes@)),
            ),
            Err(_) => beams_written(src@, text::texts(ob_folders@), run_spec@, created@) is None,
        },
{
    if ob_folders.len() == 0 {
        return Err("no open-beam folder to write".to_owned());
    }
    let mut attributes: Vec<Write> = Vec::new();
    assert(writes(attributes@) =~= Seq::empty());
    put_text(&mut attributes, "ob", "run_spec", run_spec);
    let root = String::new();
    put_text(&mut attributes, root.as_str(), "derived_from", src);
    put_text(&mut attributes, root.as_str(), "created", created);
    assert(writes(attributes@) =~= ob_attributes(src@, run_spec@, created@));
    Ok(ObPlan { folders: text::clone_all(ob_folders), attributes })
}

// ---------------------------------------------------------------------
// What is written reads back

/// What a dataset or an attribute holds, as far as it is read: texts, flags,
/// or numbers (each `None` where it is not a finite number at or above zero,
/// else cut to a whole number).
pub enum Value {
    Texts(Seq<Text>),
    Flags(Seq<bool>),
    Numbers(Seq<Option<usize>>),
    Other,
}

/// A configuration file: its datasets and its attributes, each by its group
/// (empty for the root) and its name.
pub struct Store {
    pub datasets: Map<(Text, Text), Value>,
    pub attributes: Map<(Text, Text), Value>,
}

/// The texts of a dataset or an attribute.
pub open spec fn texts_at(values: Map<(Text, Text), Value>, at: Text, name: Text) -> Option<
    Seq<Text>,
> {
    if values.contains_key((at, name)) {
        match values[(at, name)] {
            Value::Texts(texts) => Some(texts),
            _ => None,
        }
    } else {
        None
    }
}

/// The numbers of a dataset or an attribute.
pub open spec fn numbers_at(values: Map<(Text, Text), Value>, at: Text, name: Text) -> Option<
    Seq<Option<usize>>,
> {
    if values.contains_key((at, name)) {
        match values[(at, name)] {
            Value::Numbers(numbers) => Some(numbers),
            _ => None,
        }
    } else {
        None
    }
}

/// The first text of a root attribute.
pub open spec fn root_attribute(file: Store, name: Text) -> Option<Text> {
    match texts_at(file.attributes, Seq::empty(), name) {
        Some(texts) => if texts.len() > 0 {
            Some(texts[0])
        } else {
            None
        },
        None => None,
    }
}

/// Is this what is read of the file? The settings, its `parameters`, are left
/// open: they are read off the groups `spectra` and `normalization`.
pub open spec fn is_reading(raw: Raw, file: Store) -> bool {
    &&& raw.ob_folders == texts_at(file.datasets, "ob"@, "folders"@)
    &&& raw.crop_region == numbers_at(file.attributes, "normalization"@, "crop_region"@)
    &&& raw.output_folder == root_attribute(file, "output_folder"@)
    &&& raw.detector == root_attribute(file, "detector"@)
}

/// A whole number as it is read.
pub open spec fn number(value: int) -> Option<usize> {
    if 0 <= value <= usize::MAX {
        Some(value as usize)
    } else {
        None
    }
}

/// The attribute a write sets, if it sets one, and what it then holds.
pub open spec fn attribute_set(w: Write<Text>) -> Option<((Text, Text), Value)> {
    match w {
        Write::Text { at, name, value } => Some(((at, name), Value::Texts(seq![value]))),
        Write::Flag { at, name, value } => Some(((at, name), Value::Flags(seq![value]))),
        Write::Whole { at, name, value } => Some(
            ((at, name), Value::Numbers(seq![number(value as int)])),
        ),
        Write::Real { at, name, value } => Some(
            ((at, name), Value::Numbers(seq![number(value as int)])),
        ),
        _ => None,
    }
}

/// The dataset a write makes, if it makes one, and what it then holds.
pub open spec fn dataset_made(w: Write<Text>) -> Option<((Text, Text), Value)> {
    match w {
        Write::NoTexts { at, name } => Some(((at, name), Value::Texts(Seq::empty()))),
        Write::NoRealPairs { at, name } => Some(((at, name), Value::Numbers(Seq::empty()))),
        Write::NoWholes { at, name } => Some(((at, name), Value::Numbers(Seq::empty()))),
        _ => None,
    }
}

/// The values after one more of them was set.
pub open spec fn with_value(
    values: Map<(Text, Text), Value>,
    one: Option<((Text, Text), Value)>,
) -> Map<(Text, Text), Value> {
    match one {
        Some((key, value)) => values.insert(key, value),
        None => values,
    }
}

/// A file after these writes, one after the other.
pub open spec fn written(file: Store, ws: Seq<Write<Text>>) -> Store
    decreases ws.len(),
{
    if ws.len() == 0 {
        file
    } else {
        let before = written(file, ws.drop_last());
        Store {
            datasets: with_value(before.datasets, dataset_made(ws.last())),
            attributes: with_value(before.attributes, attribute_set(ws.last())),
        }
    }
}

/// A file with nothing in it.
pub open spec fn blank() -> Store {
    Store { datasets: Map::empty(), attributes: Map::empty() }
}

/// A copy of a file with these strings for `ob/folders`, and these
/// attributes set.
pub open spec fn derived(file: Store, folders: Seq<Text>, attributes: Seq<Write<Text>>) -> Store {
    written(
        Store {
            datasets: file.datasets.insert(("ob"@, "folders"@), Value::Texts(folders)),
            ..file
        },
        attributes,
    )
}

/// Does the write set the attribute, or make the dataset, of this key?
spec fn touches_attribute(w: Write<Text>, key: (Text, Text)) -> bool {
    attribute_set(w) matches Some((k, _)) && k == key
}

spec fn touches_dataset(w: Write<Text>, key: (Text, Text)) -> bool {
    dataset_made(w) matches Some((k, _)) && k == key
}

/// Where nothing writes, what was there stays.
proof fn lemma_untouched(file: Store, ws: Seq<Write<Text>>, key: (Text, Text))
    ensures
        (forall|i: int| 0 <= i < ws.len() ==> !touches_attribute(#[trigger] ws[i], key)) ==> {
            &&& written(file, ws).attributes.contains_key(key) == file.attributes.contains_key(key)
            &&& file.attributes.contains_key(key) ==> written(file, ws).attributes[key]
                == file.attributes[key]
        },
        (forall|i: int| 0 <= i < ws.len() ==> !touches_dataset(#[trigger] ws[i], key)) ==> {
            &&& written(file, ws).datasets.contains_key(key) == file.datasets.contains_key(key)
            &&& file.datasets.contains_key(key) ==> written(file, ws).datasets[key]
                == file.datasets[key]
        },
    decreases ws.len(),
{
    if ws.len() > 0 {
        let rest = ws.drop_last();
        lemma_untouched(file, rest, key);
        assert(ws[ws.len() - 1] == ws.last());
        assert forall|i: int| 0 <= i < rest.len() implies #[trigger] rest[i] == ws[i] by {}
        if forall|i: int| 0 <= i < ws.len() ==> !touches_attribute(#[trigger] ws[i], key) {
            assert forall|i: int| 0 <= i < rest.len() implies !touches_attribute(
                #[trigger] rest[i],
                key,
            ) by {
                assert(rest[i] == ws[i]);
            }
        }
        if forall|i: int| 0 <= i < ws.len() ==> !touches_dataset(#[trigger] ws[i], key) {
            assert forall|i: int| 0 <= i < rest.len() implies !touches_dataset(
                #[trigger] rest[i],
                key,
            ) by {
                assert(rest[i] == ws[i]);
            }
        }
    }
}

/// What was written last is what is there.
proof fn lemma_last_write(file: Store, ws: Seq<Write<Text>>, at: int, key: (Text, Text))
    requires
        0 <= at < ws.len(),
    ensures
        touches_attribute(ws[at], key) && (forall|i: int|
            at < i < ws.len() ==> !touches_attribute(#[trigger] ws[i], key)) ==> {
            &&& written(file, ws).attributes.contains_key(key)
            &&& written(file, ws).attributes[key] == (attribute_set(ws[at])->0).1
        },
        touches_dataset(ws[at], key) && (forall|i: int|
            at < i < ws.len() ==> !touches_dataset(#[trigger] ws[i], key)) ==> {
            &&& written(file, ws).datasets.contains_key(key)
            &&& written(file, ws).datasets[key] == (dataset_made(ws[at])->0).1
        },
    decreases ws.len(),
{
    if at < ws.len() - 1 {
        let rest = ws.drop_last();
        lemma_last_write(file, rest, at, key);
        assert(ws[ws.len() - 1] == ws.last());
        assert(rest[at] == ws[at]);
        if forall|i: int| at < i < ws.len() ==> !touches_attribute(#[trigger] ws[i], key) {
            assert forall|i: int| at < i < rest.len() implies !touches_attribute(
                #[trigger] rest[i],
                key,
            ) by {
                assert(rest[i] == ws[i]);
            }
        }
        if forall|i: int| at < i < ws.len() ==> !touches_dataset(#[trigger] ws[i], key) {
            assert forall|i: int| at < i < rest.len() implies !touches_dataset(
                #[trigger] rest[i],
                key,
            ) by {
                assert(rest[i] == ws[i]);
            }
        }
    }
}

/// A copy of a configuration with other open beams reads back with those, in
/// their order, and with the output folder, detector and crop region of the
/// configuration it was made from.
pub proof fn derived_configs_read_back(
    file: Store,
    src: Text,
    obs: Seq<Text>,
    run_spec: Text,
    created: Text,
    before: Raw,
    after: Raw,
)
    requires
        is_reading(before, file),
        is_reading(after, derived(file, obs, ob_attributes(src, run_spec, created))),
    ensures
        info_of(after).ob_folders == obs,
        info_of(after).output_folder == info_of(before).output_folder,
        info_of(after).detector == info_of(before).detector,
        info_of(after).crop_region == info_of(before).crop_region,
{
    let root = Seq::<char>::empty();
    let ws = ob_attributes(src, run_spec, created);
    let start = Store {
        datasets: file.datasets.insert(("ob"@, "folders"@), Value::Texts(obs)),
        ..file
    };
    reveal_strlit("ob");
    reveal_strlit("run_spec");
    reveal_strlit("derived_from");
    reveal_strlit("created");
    reveal_strlit("output_folder");
    reveal_strlit("detector");
    reveal_strlit("normalization");
    assert("output_folder"@[0] == 'o' && "detector"@.len() == 8 && "derived_from"@.len() == 12);
    assert("created"@[0] == 'c' && "detector"@[0] == 'd' && "derived_from"@[0] == 'd');
    assert("normalization"@.len() == 13 && "ob"@.len() == 2);
    lemma_untouched(start, ws, ("ob"@, "folders"@));
    lemma_untouched(start, ws, (root, "output_folder"@));
    lemma_untouched(start, ws, (root, "detector"@));
    lemma_untouched(start, ws, ("normalization"@, "crop_region"@));
}

/// Such a copy keeps every dataset but `ob/folders` — the sample's folders,
/// the masks, the ranges — and every attribute but `ob/run_spec` and the root's
/// `derived_from` and `created`, which say what it is made of and from; so
/// its settings are those of the configuration it was made from.
pub proof fn derived_configs_keep_the_rest(
    file: Store,
    src: Text,
    obs: Seq<Text>,
    run_spec: Text,
    created: Text,
    key: (Text, Text),
)
    ensures
        ({
            let copy = derived(file, obs, ob_attributes(src, run_spec, created));
            let root = Seq::<char>::empty();
            &&& key != ("ob"@, "folders"@) ==> {
                &&& copy.datasets.contains_key(key) == file.datasets.contains_key(key)
                &&& file.datasets.contains_key(key) ==> copy.datasets[key] == file.datasets[key]
            }
            &&& key != ("ob"@, "run_spec"@) && key != (root, "derived_from"@) && key != (
                root,
                "created"@,
            ) ==> {
                &&& copy.attributes.contains_key(key) == file.attributes.contains_key(key)
                &&& file.attributes.contains_key(key) ==> copy.attributes[key]
                    == file.attributes[key]
            }
            &&& texts_at(copy.attributes, "ob"@, "run_spec"@) == Some(seq![run_spec])
            &&& root_attribute(copy, "derived_from"@) == Some(src)
            &&& root_attribute(copy, "created"@) == Some(created)
        }),
{
    let root = Seq::<char>::empty();
    let ws = ob_attributes(src, run_spec, created);
    let start = Store {
        datasets: file.datasets.insert(("ob"@, "folders"@), Value::Texts(obs)),
        ..file
    };
    reveal_strlit("ob");
    reveal_strlit("derived_from");
    reveal_strlit("created");
    assert("ob"@.len() == 2 && "derived_from"@.len() == 12 && "created"@.len() == 7);
    lemma_untouched(start, ws, key);
    lemma_last_write(start, ws, 0, ("ob"@, "run_spec"@));
    lemma_last_write(start, ws, 1, (root, "derived_from"@));
    lemma_last_write(start, ws, 2, (root, "created"@));
}

/// The configuration of default settings reads back without open beams and
/// without a crop region, with the output folder and the detector it was
/// written with.
pub proof fn default_configs_read_back(
    created: Text,
    ipts: Text,
    detector: Text,
    output: Text,
    raw: Raw,
)
    requires
        is_reading(raw, written(blank(), default_writes(created, ipts, detector, output))),
    ensures
        info_of(raw).ob_folders == Seq::<Text>::empty(),
        info_of(raw).crop_region is None,
        info_of(raw).output_folder == root_text(Some(output)),
        info_of(raw).detector == root_text(Some(detector)),
{
    let root = Seq::<char>::empty();
    let ws = default_writes(created, ipts, detector, output);
    reveal_strlit("sample");
    reveal_strlit("ob");
    reveal_strlit("spectra");
    reveal_strlit("normalization");
    reveal_strlit("export");
    reveal_strlit("output_folder");
    reveal_strlit("detector");
    reveal_strlit("crop_region");
    reveal_strlit("mode");
    reveal_strlit("proton_charge");
    reveal_strlit("match_background");
    reveal_strlit("inpaint");
    reveal_strlit("tof_binning_mode");
    reveal_strlit("distance_source_detector_m");
    assert("sample"@.len() == 6 && "ob"@.len() == 2 && "spectra"@.len() == 7);
    assert("normalization"@.len() == 13 && "export"@.len() == 6 && "sample"@[0] == 's');
    assert("export"@[0] == 'e');
    assert("output_folder"@.len() == 13 && "detector"@.len() == 8);
    assert("crop_region"@[0] == 'c' && "mode"@[0] == 'm' && "proton_charge"@[0] == 'p');
    assert("match_background"@[0] == 'm' && "inpaint"@[0] == 'i' && "tof_binning_mode"@[0] == 't');
    assert("distance_source_detector_m"@[0] == 'd');
    lemma_last_write(blank(), ws, 5, (root, "detector"@));
    lemma_last_write(blank(), ws, 6, (root, "output_folder"@));
    lemma_last_write(blank(), ws, 13, ("ob"@, "folders"@));
    lemma_untouched(blank(), ws, ("normalization"@, "crop_region"@));
}

} // verus!
