//! What the runs are normalized with: the selected configuration, and what
//! replaces it for single runs.

use vstd::prelude::*;
use crate::h5::{ConfigInfo, Info};
use crate::runmap::RunMap;
use crate::text::Text;
use crate::{beams, norm, order, paths, text};

verus! {

// ---------------------------------------------------------------------
// Lists of open beams

/// A list of paths as their components, each.
pub open spec fn parts_of(list: Seq<Text>) -> Seq<Seq<Text>> {
    list.map_values(|p: Text| paths::components(p))
}

/// Do two lists hold the same paths, in whatever order?
pub open spec fn same_paths(a: Seq<Text>, b: Seq<Text>) -> bool {
    parts_of(a).to_multiset() == parts_of(b).to_multiset()
}

/// Where the path stands in the list, from index `i` on.
fn path_index(list: &Vec<String>, path: &str) -> (r: Option<usize>)
    ensures
        match r {
            Some(i) => i < list@.len() && paths::same_path(list@[i as int]@, path@),
            None => forall|k: int|
                0 <= k < list@.len() ==> !paths::same_path((#[trigger] list@[k])@, path@),
        },
{
    let mut i: usize = 0;
    while i < list.len()
        invariant
            i <= list@.len(),
            forall|k: int| 0 <= k < i ==> !paths::same_path((#[trigger] list@[k])@, path@),
        decreases list@.len() - i,
    {
        if paths::same_as(list[i].as_str(), path) {
            return Some(i);
        }
        i = i + 1;
    }
    None
}

/// Do two lists hold the same paths, in whatever order?
pub fn same_folders(a: &Vec<String>, b: &Vec<String>) -> (r: bool)
    ensures
        r == same_paths(text::texts(a@), text::texts(b@)),
{
    broadcast use vstd::seq_lib::group_to_multiset_ensures;

    let mut left = text::clone_all(b);
    let ghost x = parts_of(text::texts(a@));
    let ghost y = parts_of(text::texts(b@));
    let ghost taken = parts_of(text::texts(left@));
    let mut i: usize = 0;
    proof {
        assert(x.take(0) =~= Seq::empty());
        assert(y.to_multiset() =~= x.take(0).to_multiset().add(taken.to_multiset()));
    }
    while i < a.len()
        invariant
            i <= a@.len(),
            x == parts_of(text::texts(a@)),
            y == parts_of(text::texts(b@)),
            y.to_multiset() == x.take(i as int).to_multiset().add(
                parts_of(text::texts(left@)).to_multiset(),
            ),
        decreases a@.len() - i,
    {
        let ghost before = parts_of(text::texts(left@));
        let ghost here = x[i as int];
        assert(here == paths::components(a@[i as int]@));
        assert(x.take(i + 1) =~= x.take(i as int).push(here));
        match path_index(&left, a[i].as_str()) {
            None => {
                proof {
                    broadcast use vstd::seq_lib::group_to_multiset_ensures;

                    lemma_not_counted(before, here, left@, a@[i as int]@);
                    lemma_prefix_counts(x, i + 1, here);
                    assert(x.take(i + 1).to_multiset().count(here) == x.take(
                        i as int,
                    ).to_multiset().count(here) + 1);
                    assert(x.to_multiset().count(here) > y.to_multiset().count(here));
                }
                return false;
            },
            Some(k) => {
                assert(before[k as int] == here);
                let _ = left.remove(k);
                proof {
                    broadcast use vstd::seq_lib::group_to_multiset_ensures;

                    assert(parts_of(text::texts(left@)) =~= before.remove(k as int));
                    assert(before.to_multiset().contains(here));
                    assert(before.to_multiset() =~= before.remove(k as int).to_multiset().insert(
                        here,
                    ));
                    assert(y.to_multiset() =~= x.take(i + 1).to_multiset().add(
                        parts_of(text::texts(left@)).to_multiset(),
                    ));
                }
            },
        }
        i = i + 1;
    }
    let ghost rest = parts_of(text::texts(left@));
    assert(x.take(i as int) =~= x);
    proof {
        if left@.len() == 0 {
            assert(rest =~= Seq::empty());
            assert(y.to_multiset() =~= x.to_multiset());
        } else {
            assert(y.to_multiset().len() == x.to_multiset().len() + rest.to_multiset().len());
        }
    }
    left.len() == 0
}

proof fn lemma_not_counted(parts: Seq<Seq<Text>>, here: Seq<Text>, list: Seq<String>, path: Text)
    requires
        parts == parts_of(text::texts(list)),
        here == paths::components(path),
        forall|k: int| 0 <= k < list.len() ==> !paths::same_path((#[trigger] list[k])@, path),
    ensures
        parts.to_multiset().count(here) == 0,
{
    broadcast use vstd::seq_lib::group_to_multiset_ensures;

    if parts.contains(here) {
        let k = choose|k: int| 0 <= k < parts.len() && parts[k] == here;
        assert(parts[k] == paths::components(list[k]@));
        assert(false);
    }
    assert(!parts.to_multiset().contains(here));
}

proof fn lemma_prefix_counts(x: Seq<Seq<Text>>, i: int, here: Seq<Text>)
    requires
        0 <= i <= x.len(),
    ensures
        x.take(i).to_multiset().count(here) <= x.to_multiset().count(here),
    decreases x.len() - i,
{
    broadcast use vstd::seq_lib::group_to_multiset_ensures;

    if i < x.len() {
        lemma_prefix_counts(x, i + 1, here);
        assert(x.take(i + 1) =~= x.take(i).push(x[i]));
    } else {
        assert(x.take(i) =~= x);
    }
}

/// The run a folder is sorted by: folders without one come last.
pub open spec fn beam_key(folder: Text) -> u64 {
    match beams::beam_run(folder) {
        Some(run) => run,
        None => u64::MAX,
    }
}

/// The folders by run number; those of one run stay as they were.
pub open spec fn by_run(folders: Seq<Text>) -> Seq<Text> {
    order::by_key(folders, |folder: Text| beam_key(folder) as int)
}

fn key_of(folder: &str) -> (r: u64)
    ensures
        r == beam_key(folder@),
{
    match beams::run_of_beam(folder) {
        Some(run) => run,
        None => u64::MAX,
    }
}

/// The folders by run number; those of one run stay as they were.
pub fn sort_by_run(folders: &Vec<String>) -> (r: Vec<String>)
    ensures
        text::texts(r@) == by_run(text::texts(folders@)),
{
    let ghost fs = text::texts(folders@);
    let ghost key = |folder: Text| beam_key(folder) as int;
    let mut out: Vec<String> = Vec::new();
    let mut i: usize = 0;
    assert(fs.take(0) =~= Seq::empty());
    assert(text::texts(out@) =~= Seq::empty());
    while i < folders.len()
        invariant
            i <= folders@.len(),
            fs == text::texts(folders@),
            key == (|folder: Text| beam_key(folder) as int),
            text::texts(out@) == order::by_key(fs.take(i as int), key),
        decreases folders@.len() - i,
    {
        assert(fs.take(i + 1).drop_last() =~= fs.take(i as int));
        let ghost x = folders@[i as int]@;
        assert(fs.take(i + 1).last() == x);
        let run = key_of(folders[i].as_str());
        let ghost o = text::texts(out@);
        let mut k: usize = out.len();
        while k > 0 && key_of(out[k - 1].as_str()) > run
            invariant
                k <= out@.len(),
                o == text::texts(out@),
                run == beam_key(x),
                key == (|folder: Text| beam_key(folder) as int),
                forall|j: int| k <= j < o.len() ==> key(#[trigger] o[j]) > key(x),
            decreases k,
        {
            assert(o[k - 1] == out@[k - 1]@);
            k = k - 1;
        }
        proof {
            if k > 0 {
                assert(o[k - 1] == out@[k - 1]@);
            }
            order::placed_at(o, key, x, k as int);
        }
        let item = folders[i].clone();
        out.insert(k, item);
        assert(text::texts(out@) =~= o.insert(k as int, x));
        i = i + 1;
    }
    assert(fs.take(i as int) =~= fs);
    out
}

// ---------------------------------------------------------------------
// Overrides

/// The user's per-run settings (✏ in the table): what replaces the
/// configuration's open beams / output folder for that run only.
pub struct RunOverride {
    pub obs: Option<Vec<String>>,
    /// Output base folder: the result goes to `<here>/Run_<run>/normalization`.
    pub output: Option<String>,
    /// Configuration file (the Config drop-down): this run is normalized
    /// with it instead of the section 2 selection — its open beams,
    /// settings and output folder, unless the two overrides above say
    /// otherwise.
    pub config: Option<String>,
}

/// What replaces the configuration for a run.
pub struct Override {
    pub obs: Option<Seq<Text>>,
    pub output: Option<Text>,
    pub config: Option<Text>,
}

pub open spec fn opt_texts(o: Option<Vec<String>>) -> Option<Seq<Text>> {
    match o {
        Some(v) => Some(text::texts(v@)),
        None => None,
    }
}

impl View for RunOverride {
    type V = Override;

    open spec fn view(&self) -> Override {
        Override {
            obs: opt_texts(self.obs),
            output: text::opt_text(self.output),
            config: text::opt_text(self.config),
        }
    }
}

/// Nothing is replaced.
pub open spec fn no_override() -> Override {
    Override { obs: None, output: None, config: None }
}

impl RunOverride {
    /// Nothing overridden — the entry can be dropped.
    pub fn is_empty(&self) -> (r: bool)
        ensures
            r == (self@ == no_override()),
    {
        self.obs.is_none() && self.output.is_none() && self.config.is_none()
    }

    pub fn copy(&self) -> (r: RunOverride)
        ensures
            r@ == self@,
    {
        RunOverride {
            obs: match &self.obs {
                Some(v) => Some(text::clone_all(v)),
                None => None,
            },
            output: text::clone_opt(&self.output),
            config: text::clone_opt(&self.config),
        }
    }
}

pub type Overrides = Map<u64, Override>;

/// What replaces the configuration for the run, if anything does.
pub open spec fn override_of(overrides: Overrides, run: u64) -> Override {
    if overrides.dom().contains(run) {
        overrides[run]
    } else {
        no_override()
    }
}

/// The overrides with one run's; one that replaces nothing is dropped.
pub open spec fn with_override(overrides: Overrides, run: u64, over: Override) -> Overrides {
    if over == no_override() {
        overrides.remove(run)
    } else {
        overrides.insert(run, over)
    }
}

/// Are two optional paths the same?
pub open spec fn same_choice(a: Option<Text>, b: Option<Text>) -> bool {
    match (a, b) {
        (Some(x), Some(y)) => paths::same_path(x, y),
        (None, None) => true,
        _ => false,
    }
}

pub fn same_chosen(a: Option<&str>, b: Option<&str>) -> (r: bool)
    ensures
        r == same_choice(text::opt_str(a), text::opt_str(b)),
{
    match (a, b) {
        (Some(x), Some(y)) => paths::same_as(x, y),
        (None, None) => true,
        _ => false,
    }
}

fn opt_as_str(o: &Option<String>) -> (r: Option<&str>)
    ensures
        text::opt_str(r) == text::opt_text(*o),
{
    match o {
        Some(s) => Some(s.as_str()),
        None => None,
    }
}

/// The settings known of a configuration file, from index `i` on.
pub open spec fn info_in(infos: Seq<(Text, Info)>, config: Text, i: int) -> Option<Info>
    decreases infos.len() - i,
{
    if !(0 <= i < infos.len()) {
        None
    } else if paths::same_path(infos[i].0, config) {
        Some(infos[i].1)
    } else {
        info_in(infos, config, i + 1)
    }
}

pub open spec fn info_views(v: Seq<(String, ConfigInfo)>) -> Seq<(Text, Info)> {
    v.map_values(|p: (String, ConfigInfo)| (p.0@, p.1@))
}

// ---------------------------------------------------------------------
// The settings

/// What the runs of the selected experiment are normalized with.
pub struct Settings {
    /// The configuration file selected in section 2.
    selected: Option<String>,
    /// The one that the fields below were read from.
    in_force: Option<String>,
    /// Its open beams.
    config_obs: Vec<String>,
    /// Where the results go with it.
    output_base: Option<String>,
    /// The detector that took the data.
    detector: Option<String>,
    overrides: RunMap<RunOverride>,
    /// The contents of the other configuration files that runs use.
    infos: Vec<(String, ConfigInfo)>,
}

/// What the runs are normalized with.
pub struct Plan {
    pub selected: Option<Text>,
    pub in_force: Option<Text>,
    pub config_obs: Seq<Text>,
    pub output_base: Option<Text>,
    pub detector: Option<Text>,
    pub overrides: Overrides,
    pub infos: Seq<(Text, Info)>,
}

impl View for Settings {
    type V = Plan;

    closed spec fn view(&self) -> Plan {
        Plan {
            selected: text::opt_text(self.selected),
            in_force: text::opt_text(self.in_force),
            config_obs: text::texts(self.config_obs@),
            output_base: text::opt_text(self.output_base),
            detector: text::opt_text(self.detector),
            overrides: self.overrides@.map_values(|o: RunOverride| o@),
            infos: info_views(self.infos@),
        }
    }
}

/// The configuration file a run is normalized with.
pub open spec fn config_for(plan: Plan, run: u64) -> Option<Text> {
    match override_of(plan.overrides, run).config {
        Some(config) => Some(config),
        None => plan.selected,
    }
}

/// The contents of the configuration picked for a run alone.
pub open spec fn own_info(plan: Plan, run: u64) -> Option<Info> {
    match override_of(plan.overrides, run).config {
        Some(config) => info_in(plan.infos, config, 0),
        None => None,
    }
}

/// The open beams a run's configuration names.
pub open spec fn obs_for(plan: Plan, run: u64) -> Seq<Text> {
    match own_info(plan, run) {
        Some(info) => info.ob_folders,
        None => plan.config_obs,
    }
}

/// The output base folder of a run's configuration.
pub open spec fn base_for(plan: Plan, run: u64, ipts: Text) -> Option<Text> {
    match own_info(plan, run) {
        Some(info) => Some(norm::base_of(ipts, info.output_folder)),
        None => plan.output_base,
    }
}

/// A configuration with a run's overrides on top.
pub open spec fn with_own(base: Info, over: Override) -> Info {
    Info {
        ob_folders: match over.obs {
            Some(obs) => obs,
            None => base.ob_folders,
        },
        output_folder: match over.output {
            Some(output) => Some(output),
            None => base.output_folder,
        },
        ..base
    }
}

/// The override of a run's configuration: picking the selected file is
/// picking none.
pub open spec fn picked(selected: Option<Text>, config: Option<Text>) -> Option<Text> {
    match config {
        Some(c) => if selected is Some && paths::same_path(c, selected->0) {
            None
        } else {
            Some(c)
        },
        None => None,
    }
}

/// The override of a run's open beams: the ones that its configuration names
/// need none, and without any there is none.
pub open spec fn picked_obs(plan: Plan, run: u64, ticked: Seq<Text>) -> Option<Seq<Text>> {
    if ticked.len() > 0 && !same_paths(by_run(ticked), obs_for(plan, run)) {
        Some(by_run(ticked))
    } else {
        None
    }
}

/// The override of a run's output folder.
pub open spec fn picked_output(plan: Plan, run: u64, ipts: Text, typed: Text) -> Option<Text> {
    let output = text::trimmed(typed);
    if output.len() > 0 && !(base_for(plan, run, ipts) is Some && paths::same_path(
        base_for(plan, run, ipts)->0,
        output,
    )) {
        Some(output)
    } else {
        None
    }
}

impl Settings {
    pub fn new() -> (r: Settings)
        ensures
            r@ == no_plan(),
    {
        let r = Settings {
            selected: None,
            in_force: None,
            config_obs: Vec::new(),
            output_base: None,
            detector: None,
            overrides: RunMap::new(),
            infos: Vec::new(),
        };
        assert(r@.config_obs =~= Seq::empty());
        assert(r@.overrides =~= Map::empty());
        assert(r@.infos =~= Seq::empty());
        r
    }

    pub fn selected(&self) -> (r: Option<&str>)
        ensures
            text::opt_str(r) == self@.selected,
    {
        opt_as_str(&self.selected)
    }

    pub fn config_obs(&self) -> (r: &Vec<String>)
        ensures
            text::texts(r@) == self@.config_obs,
    {
        &self.config_obs
    }

    pub fn output_base(&self) -> (r: Option<&str>)
        ensures
            text::opt_str(r) == self@.output_base,
    {
        opt_as_str(&self.output_base)
    }

    pub fn detector(&self) -> (r: Option<&str>)
        ensures
            text::opt_str(r) == self@.detector,
    {
        opt_as_str(&self.detector)
    }

    /// Select a configuration file, or none.
    pub fn select(&mut self, config: Option<String>)
        ensures
            final(self)@ == (Plan { selected: text::opt_text(config), ..old(self)@ }),
    {
        self.selected = config;
    }

    /// Is what is in force not the selected file's?
    pub fn is_behind(&self) -> (r: bool)
        ensures
            r == !same_choice(self@.in_force, self@.selected),
    {
        !same_chosen(opt_as_str(&self.in_force), opt_as_str(&self.selected))
    }

    /// Put the selected file in force: where the results go and which
    /// detector took the data, from its contents (`None` where it could not
    /// be read), with the IPTS layout as fallback.
    pub fn take_up(&mut self, ipts_path: &str, info: &Option<ConfigInfo>, layout: Option<String>)
        ensures
            final(self)@ == taken_up(
                old(self)@,
                ipts_path@,
                match *info {
                    Some(i) => Some(i@),
                    None => None,
                },
                text::opt_text(layout),
            ),
    {
        self.in_force = text::clone_opt(&self.selected);
        match info {
            Some(i) => {
                self.output_base = if self.selected.is_some() {
                    Some(norm::output_base(ipts_path, i))
                } else {
                    None
                };
                self.detector = match &i.detector {
                    Some(d) => Some(d.clone()),
                    None => layout,
                };
                self.config_obs = text::clone_all(&i.ob_folders);
            },
            None => {
                self.output_base = if self.selected.is_some() {
                    Some(paths::join(ipts_path, "shared/autoreduce/normalized"))
                } else {
                    None
                };
                self.detector = layout;
                self.config_obs = Vec::new();
                assert(text::texts(self.config_obs@) =~= Seq::empty());
            },
        }
    }

    fn over(&self, run: u64) -> (r: RunOverride)
        ensures
            r@ == override_of(self@.overrides, run),
    {
        match self.overrides.get(run) {
            Some(over) => over.copy(),
            None => RunOverride { obs: None, output: None, config: None },
        }
    }

    fn store(&mut self, run: u64, over: RunOverride)
        ensures
            final(self)@ == (Plan {
                overrides: with_override(old(self)@.overrides, run, over@),
                ..old(self)@
            }),
    {
        let ghost before = self@.overrides;
        if over.is_empty() {
            self.overrides.remove(run);
        } else {
            self.overrides.insert(run, over);
        }
        assert(self@.overrides =~= with_override(before, run, over@));
    }

    /// The configuration file a run is normalized with: the one picked in
    /// its Config drop-down, else the section 2 selection.
    pub fn config_for_run(&self, run: u64) -> (r: Option<String>)
        ensures
            text::opt_text(r) == config_for(self@, run),
    {
        let over = self.over(run);
        match over.config {
            Some(config) => Some(config),
            None => text::clone_opt(&self.selected),
        }
    }

    /// The open beams chosen for a run, if any were.
    pub fn own_obs(&self, run: u64) -> (r: Option<Vec<String>>)
        ensures
            opt_texts(r) == override_of(self@.overrides, run).obs,
    {
        let over = self.over(run);
        over.obs
    }

    /// The output folder chosen for a run, if one was.
    pub fn own_output(&self, run: u64) -> (r: Option<String>)
        ensures
            text::opt_text(r) == override_of(self@.overrides, run).output,
    {
        let over = self.over(run);
        over.output
    }

    /// The configuration file picked for a run, if one was.
    pub fn own_config(&self, run: u64) -> (r: Option<String>)
        ensures
            text::opt_text(r) == override_of(self@.overrides, run).config,
    {
        let over = self.over(run);
        over.config
    }

    /// The settings known of a configuration file.
    pub fn known_info(&self, config: &str) -> (r: Option<&ConfigInfo>)
        ensures
            match r {
                Some(info) => info_in(self@.infos, config@, 0) == Some(info@),
                None => info_in(self@.infos, config@, 0) is None,
            },
    {
        let ghost all = info_views(self.infos@);
        let mut i: usize = 0;
        while i < self.infos.len()
            invariant
                i <= self.infos@.len(),
                all == info_views(self.infos@),
                info_in(all, config@, 0) == info_in(all, config@, i as int),
            decreases self.infos@.len() - i,
        {
            assert(all[i as int] == (self.infos@[i as int].0@, self.infos@[i as int].1@));
            if paths::same_as(self.infos[i].0.as_str(), config) {
                return Some(&self.infos[i].1);
            }
            i = i + 1;
        }
        None
    }

    /// Keep the contents of a configuration file; they replace what was
    /// known of it.
    pub fn keep_info(&mut self, config: &str, info: ConfigInfo)
        ensures
            final(self)@ == (Plan { infos: final(self)@.infos, ..old(self)@ }),
            forall|c: Text| #[trigger]
                info_in(final(self)@.infos, c, 0) == if paths::same_path(c, config@) {
                    Some(info@)
                } else {
                    info_in(old(self)@.infos, c, 0)
                },
    {
        let ghost before = info_views(self.infos@);
        let ghost x = (config@, info@);
        let n: usize = self.infos.len();
        let mut i: usize = 0;
        while i < n && !paths::same_as(self.infos[i].0.as_str(), config)
            invariant
                i <= n == self.infos@.len(),
                *self == *old(self),
                before == info_views(self.infos@),
                forall|k: int|
                    0 <= k < i ==> !paths::same_path((#[trigger] before[k]).0, config@),
            decreases n - i,
        {
            assert(before[i as int].0 == self.infos@[i as int].0@);
            i = i + 1;
        }
        if i < n {
            assert(before[i as int].0 == self.infos@[i as int].0@);
            self.infos.set(i, (config.to_owned(), info));
        } else {
            self.infos.push((config.to_owned(), info));
        }
        proof {
            let after = info_views(self.infos@);
            assert(after =~= put_at(before, x, i as int));
            assert forall|c: Text| #[trigger]
                info_in(after, c, 0) == if paths::same_path(c, config@) {
                    Some(x.1)
                } else {
                    info_in(before, c, 0)
                } by {
                lemma_info_put(before, x, i as int, c, 0);
            }
        }
    }

    /// The contents of the configuration picked for a run in its Config
    /// drop-down (`None` when the run follows the section 2 selection, or
    /// the file could not be read).
    pub fn own_config_info(&self, run: u64) -> (r: Option<&ConfigInfo>)
        ensures
            match r {
                Some(info) => own_info(self@, run) == Some(info@),
                None => own_info(self@, run) is None,
            },
    {
        let over = self.over(run);
        match &over.config {
            Some(config) => self.known_info(config.as_str()),
            None => None,
        }
    }

    /// The open beams a run's configuration names (its own file, else the
    /// section 2 selection's) — what the run divides by unless ⇄ says
    /// otherwise.
    pub fn config_obs_for_run(&self, run: u64) -> (r: Vec<String>)
        ensures
            text::texts(r@) == obs_for(self@, run),
    {
        match self.own_config_info(run) {
            Some(info) => text::clone_all(&info.ob_folders),
            None => text::clone_all(&self.config_obs),
        }
    }

    /// The output base folder of a run's configuration (its own file,
    /// else the section 2 selection's) — where its result goes unless ✏
    /// says otherwise.
    pub fn output_base_for_run(&self, run: u64, ipts_path: &str) -> (r: Option<String>)
        ensures
            text::opt_text(r) == base_for(self@, run, ipts_path@),
    {
        match self.own_config_info(run) {
            Some(info) => Some(norm::output_base(ipts_path, info)),
            None => text::clone_opt(&self.output_base),
        }
    }

    /// The configuration as it applies to one run: the file's values with
    /// the row's overrides (✏) — open beams and/or output folder — on top.
    pub fn effective_info(&self, run: u64, base: &ConfigInfo) -> (r: ConfigInfo)
        ensures
            r@ == with_own(base@, override_of(self@.overrides, run)),
    {
        let over = self.over(run);
        let mut info = base.copy();
        match over.obs {
            Some(obs) => {
                info.ob_folders = obs;
            },
            None => {},
        }
        match over.output {
            Some(output) => {
                info.output_folder = Some(output);
            },
            None => {},
        }
        info
    }

    /// The Config drop-down of a row: normalize that run with `config`
    /// (`None` = back to the section 2 selection). Tells whether the run is
    /// now normalized with another file than before.
    pub fn set_run_config(&mut self, run: u64, config: Option<String>) -> (r: bool)
        ensures
            final(self)@ == (Plan {
                overrides: with_override(
                    old(self)@.overrides,
                    run,
                    Override {
                        config: picked(old(self)@.selected, text::opt_text(config)),
                        ..override_of(old(self)@.overrides, run)
                    },
                ),
                ..old(self)@
            }),
            r == !same_choice(config_for(old(self)@, run), config_for(final(self)@, run)),
            final(self)@ == with_config_picked(old(self)@, run, text::opt_text(config)),
    {
        let before = self.config_for_run(run);
        let kept = match config {
            Some(c) => match &self.selected {
                Some(selected) => if paths::same_as(c.as_str(), selected.as_str()) {
                    None
                } else {
                    Some(c)
                },
                None => Some(c),
            },
            None => None,
        };
        let mut over = self.over(run);
        over.config = kept;
        self.store(run, over);
        let after = self.config_for_run(run);
        !same_chosen(opt_as_str(&before), opt_as_str(&after))
    }

    /// The open beams that the run's settings window starts with: those that
    /// replace the configuration's, else the configuration's.
    pub fn current_obs(&self, run: u64) -> (r: Vec<String>)
        ensures
            text::texts(r@) == match override_of(self@.overrides, run).obs {
                Some(obs) => obs,
                None => obs_for(self@, run),
            },
            text::texts(r@) == obs_in_force(self@, run),
    {
        let over = self.over(run);
        match over.obs {
            Some(obs) => obs,
            None => self.config_obs_for_run(run),
        }
    }

    /// The output folder that the run's settings window starts with; empty
    /// where there is none.
    pub fn current_output(&self, run: u64, ipts_path: &str) -> (r: String)
        ensures
            r@ == match override_of(self@.overrides, run).output {
                Some(output) => output,
                None => match base_for(self@, run, ipts_path@) {
                    Some(base) => base,
                    None => Seq::empty(),
                },
            },
            output_in_force(self@, run, ipts_path@) matches Some(folder) ==> r@ == folder,
    {
        let over = self.over(run);
        match over.output {
            Some(output) => output,
            None => match self.output_base_for_run(run, ipts_path) {
                Some(base) => base,
                None => {
                    let nothing = String::new();
                    assert(nothing@ =~= Seq::<char>::empty());
                    nothing
                },
            },
        }
    }

    /// Apply the open beams ticked for a run: nothing is stored when they
    /// are the configuration's; the other setting's override is kept. Gives
    /// the ticked open beams by run number.
    pub fn apply_obs(&mut self, run: u64, ticked: &Vec<String>) -> (r: Vec<String>)
        ensures
            text::texts(r@) == by_run(text::texts(ticked@)),
            final(self)@ == (Plan {
                overrides: with_override(
                    old(self)@.overrides,
                    run,
                    Override {
                        obs: picked_obs(old(self)@, run, text::texts(ticked@)),
                        ..override_of(old(self)@.overrides, run)
                    },
                ),
                ..old(self)@
            }),
            final(self)@ == with_obs_picked(old(self)@, run, text::texts(ticked@)),
    {
        let sorted = sort_by_run(ticked);
        let named = self.config_obs_for_run(run);
        let mut over = self.over(run);
        over.obs = if ticked.len() > 0 && !same_folders(&sorted, &named) {
            Some(text::clone_all(&sorted))
        } else {
            None
        };
        self.store(run, over);
        sorted
    }

    /// Apply the output folder typed for a run: nothing is stored when it is
    /// the configuration's, or nothing was typed.
    pub fn apply_output(&mut self, run: u64, ipts_path: &str, typed: &str)
        ensures
            final(self)@ == (Plan {
                overrides: with_override(
                    old(self)@.overrides,
                    run,
                    Override {
                        output: picked_output(old(self)@, run, ipts_path@, typed@),
                        ..override_of(old(self)@.overrides, run)
                    },
                ),
                ..old(self)@
            }),
            final(self)@ == with_output_picked(old(self)@, run, ipts_path@, typed@),
    {
        let output = text::trim(typed);
        let base = self.output_base_for_run(run, ipts_path);
        let mut over = self.over(run);
        let same = match &base {
            Some(b) => paths::same_as(b.as_str(), output.as_str()),
            None => false,
        };
        over.output = if !output.as_str().is_empty() && !same {
            Some(output)
        } else {
            None
        };
        self.store(run, over);
    }

    /// The configuration in force now names the open beams picked for the
    /// run: no override is needed for it either.
    pub fn drop_same_obs(&mut self, run: u64)
        ensures
            final(self)@ == (Plan {
                overrides: {
                    let over = override_of(old(self)@.overrides, run);
                    if over.obs is Some && same_paths(over.obs->0, old(self)@.config_obs) {
                        with_override(
                            old(self)@.overrides,
                            run,
                            Override { obs: None, ..over },
                        )
                    } else {
                        old(self)@.overrides
                    }
                },
                ..old(self)@
            }),
    {
        let mut over = self.over(run);
        let same = match &over.obs {
            Some(obs) => same_folders(obs, &self.config_obs),
            None => false,
        };
        if same {
            over.obs = None;
            self.store(run, over);
        }
    }

    /// Another experiment was selected: nothing is kept.
    pub fn reset(&mut self)
        ensures
            final(self)@ == no_plan(),
    {
        self.selected = None;
        self.in_force = None;
        self.config_obs = Vec::new();
        self.output_base = None;
        self.detector = None;
        self.overrides.clear();
        self.infos = Vec::new();
        assert(self@.config_obs =~= Seq::empty());
        assert(self@.overrides =~= Map::empty());
        assert(self@.infos =~= Seq::empty());
    }
}

spec fn put_at(v: Seq<(Text, Info)>, x: (Text, Info), i: int) -> Seq<(Text, Info)> {
    if i < v.len() {
        v.update(i, x)
    } else {
        v.push(x)
    }
}

proof fn lemma_info_put(v: Seq<(Text, Info)>, x: (Text, Info), i: int, c: Text, k: int)
    requires
        0 <= k <= i <= v.len(),
        forall|m: int| 0 <= m < i ==> !paths::same_path((#[trigger] v[m]).0, x.0),
        i < v.len() ==> paths::same_path(v[i].0, x.0),
    ensures
        info_in(put_at(v, x, i), c, k) == (if paths::same_path(c, x.0) {
            Some(x.1)
        } else {
            info_in(v, c, k)
        }),
    decreases i - k,
{
    let w = put_at(v, x, i);
    if k < i {
        assert(w[k] == v[k]);
        lemma_info_put(v, x, i, c, k + 1);
    } else {
        assert(w[i] == x);
        if i < v.len() {
            lemma_info_rest(v, w, c, i + 1);
        } else {
            assert(info_in(w, c, i + 1) is None);
        }
    }
}

proof fn lemma_info_rest(v: Seq<(Text, Info)>, w: Seq<(Text, Info)>, c: Text, k: int)
    requires
        0 <= k <= v.len() == w.len(),
        forall|m: int| k <= m < v.len() ==> v[m] == w[m],
    ensures
        info_in(v, c, k) == info_in(w, c, k),
    decreases v.len() - k,
{
    if k < v.len() {
        lemma_info_rest(v, w, c, k + 1);
    }
}

/// The settings once a configuration was picked for a run.
pub open spec fn with_config_picked(plan: Plan, run: u64, config: Option<Text>) -> Plan {
    let over = Override {
        config: picked(plan.selected, config),
        ..override_of(plan.overrides, run)
    };
    Plan { overrides: with_override(plan.overrides, run, over), ..plan }
}

/// The settings once open beams were ticked for a run.
pub open spec fn with_obs_picked(plan: Plan, run: u64, ticked: Seq<Text>) -> Plan {
    let over = Override {
        obs: picked_obs(plan, run, ticked),
        ..override_of(plan.overrides, run)
    };
    Plan { overrides: with_override(plan.overrides, run, over), ..plan }
}

/// The settings once an output folder was typed for a run.
pub open spec fn with_output_picked(plan: Plan, run: u64, ipts: Text, typed: Text) -> Plan {
    let over = Override {
        output: picked_output(plan, run, ipts, typed),
        ..override_of(plan.overrides, run)
    };
    Plan { overrides: with_override(plan.overrides, run, over), ..plan }
}

/// The open beams in force for a run: its own, else the configuration's.
pub open spec fn obs_in_force(plan: Plan, run: u64) -> Seq<Text> {
    match override_of(plan.overrides, run).obs {
        Some(obs) => obs,
        None => obs_for(plan, run),
    }
}

/// The output folder in force for a run: its own, else the configuration's.
pub open spec fn output_in_force(plan: Plan, run: u64, ipts: Text) -> Option<Text> {
    match override_of(plan.overrides, run).output {
        Some(output) => Some(output),
        None => base_for(plan, run, ipts),
    }
}

/// Nothing selected, nothing replaced.
pub open spec fn no_plan() -> Plan {
    Plan {
        selected: None,
        in_force: None,
        config_obs: Seq::empty(),
        output_base: None,
        detector: None,
        overrides: Map::empty(),
        infos: Seq::empty(),
    }
}

/// The selected file put in force.
pub open spec fn taken_up(plan: Plan, ipts: Text, info: Option<Info>, layout: Option<Text>) -> Plan {
    Plan {
        in_force: plan.selected,
        output_base: if plan.selected is Some {
            Some(
                norm::base_of(
                    ipts,
                    match info {
                        Some(i) => i.output_folder,
                        None => None,
                    },
                ),
            )
        } else {
            None
        },
        detector: match info {
            Some(i) => match i.detector {
                Some(d) => Some(d),
                None => layout,
            },
            None => layout,
        },
        config_obs: match info {
            Some(i) => i.ob_folders,
            None => Seq::empty(),
        },
        ..plan
    }
}

// ---------------------------------------------------------------------
// Laws

/// What is typed or ticked for one run changes nothing for another.
pub proof fn overrides_are_per_run(plan: Plan, run: u64, other: u64, over: Override)
    requires
        run != other,
    ensures
        ({
            let after = Plan {
                overrides: with_override(plan.overrides, run, over),
                ..plan
            };
            &&& override_of(after.overrides, other) == override_of(plan.overrides, other)
            &&& config_for(after, other) == config_for(plan, other)
            &&& obs_for(after, other) == obs_for(plan, other)
        }),
{
}

/// An override that was stored is the one found, and one that replaces
/// nothing leaves no trace.
pub proof fn overrides_read_back(overrides: Overrides, run: u64, over: Override)
    ensures
        override_of(with_override(overrides, run, over), run) == over,
        over == no_override() ==> !with_override(overrides, run, over).dom().contains(run),
{
}

/// Going back to the section 2 selection undoes picking a configuration for
/// a run that had no other override.
pub proof fn picking_is_undone(plan: Plan, run: u64, config: Text)
    requires
        !plan.overrides.dom().contains(run),
    ensures
        ({
            let over = Override {
                config: picked(plan.selected, Some(config)),
                ..override_of(plan.overrides, run)
            };
            let there = with_override(plan.overrides, run, over);
            let back = Override { config: None, ..override_of(there, run) };
            with_override(there, run, back) == plan.overrides
        }),
{
    let over = Override {
        config: picked(plan.selected, Some(config)),
        ..override_of(plan.overrides, run)
    };
    let there = with_override(plan.overrides, run, over);
    let back = Override { config: None, ..override_of(there, run) };
    assert(with_override(there, run, back) =~= plan.overrides);
}

} // verus!
