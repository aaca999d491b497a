//! The course of one normalization job: what to do next, and what to tell
//! about it, as the events of the job come in.

use vstd::prelude::*;
use crate::clock::LocalTime;
use crate::h5::Region;
use crate::job::{Beginning, Reaction};
use crate::norm::{Counts, JobSpec};
use crate::text::Text;
use crate::{job, norm, paths, text};

verus! {

/// What a job tells about its course.
pub enum Note<T = String, L = Vec<String>, C = Counts> {
    /// A line for the job's log and for its output pane.
    Say(T),
    /// A line for the job's log alone.
    Log(T),
    /// A line of the script's output, for the job's log.
    Raw(T),
    /// A line of the script's output, for the output pane.
    Output(T),
    Progress { stage: T, counts: Option<C> },
    Stages(L),
    /// Text for the summary log.
    Summary(T),
}

/// What a job does next.
pub enum Action<T = String, L = Vec<String>> {
    /// List the entries of the output folder.
    Look(T),
    /// Crop an input folder into a folder of its name under `parent`.
    Crop { folder: T, region: Region, parent: T },
    /// Make the staging folder anew.
    Stage(T),
    /// Start the script: its program, then its arguments.
    Launch(L),
    /// Wait for the script's next line, or for its end.
    Listen,
    /// Rename the staging folder to the output, clearing what is there
    /// before when told so.
    Promote { clear: bool, from: T, to: T },
    Done { output: T, skipped: bool },
    Failed { message: T },
    /// Nothing: the event was not waited for.
    Nothing,
}

/// What has come of an action.
pub enum Event<T = String, L = Vec<String>> {
    /// The output folder: is there one, and the names of its entries.
    Seen { exists: bool, names: L },
    /// The folder of the cropped images.
    Cropped(T),
    NotCropped(T),
    /// The staging folder was made, or why not.
    Staged(Option<T>),
    /// The script was started, or why not.
    Launched(Option<T>),
    /// A line of the script's output.
    Line(T),
    /// The script ended: well, or by a signal, or with another status.
    Ended { success: bool, signal: bool, status: T },
    /// The end of the script could not be waited for.
    Lost(T),
    /// The staging folder was renamed, or why not.
    Promoted(Option<T>),
}

/// A sequence of texts.
pub type Words = Seq<Text>;

/// A note, an action and an event over plain texts.
pub type Told = Note<Text, Words, (Text, Text)>;

pub type Act = Action<Text, Words>;

pub type Happening = Event<Text, Words>;

impl View for Note {
    type V = Told;

    open spec fn view(&self) -> Told {
        match *self {
            Note::Say(t) => Note::Say(t@),
            Note::Log(t) => Note::Log(t@),
            Note::Raw(t) => Note::Raw(t@),
            Note::Output(t) => Note::Output(t@),
            Note::Progress { stage, counts } => Note::Progress {
                stage: stage@,
                counts: match counts {
                    Some(c) => Some((c.done@, c.total@)),
                    None => None,
                },
            },
            Note::Stages(l) => Note::Stages(text::texts(l@)),
            Note::Summary(t) => Note::Summary(t@),
        }
    }
}

impl View for Action {
    type V = Act;

    open spec fn view(&self) -> Act {
        match *self {
            Action::Look(t) => Action::Look(t@),
            Action::Crop { folder, region, parent } => Action::Crop {
                folder: folder@,
                region,
                parent: parent@,
            },
            Action::Stage(t) => Action::Stage(t@),
            Action::Launch(l) => Action::Launch(text::texts(l@)),
            Action::Listen => Action::Listen,
            Action::Promote { clear, from, to } => Action::Promote { clear, from: from@, to: to@ },
            Action::Done { output, skipped } => Action::Done { output: output@, skipped },
            Action::Failed { message } => Action::Failed { message: message@ },
            Action::Nothing => Action::Nothing,
        }
    }
}

impl View for Event {
    type V = Happening;

    open spec fn view(&self) -> Happening {
        match *self {
            Event::Seen { exists, names } => Event::Seen { exists, names: text::texts(names@) },
            Event::Cropped(t) => Event::Cropped(t@),
            Event::NotCropped(t) => Event::NotCropped(t@),
            Event::Staged(t) => Event::Staged(text::opt_text(t)),
            Event::Launched(t) => Event::Launched(text::opt_text(t)),
            Event::Line(t) => Event::Line(t@),
            Event::Ended { success, signal, status } => Event::Ended {
                success,
                signal,
                status: status@,
            },
            Event::Lost(t) => Event::Lost(t@),
            Event::Promoted(t) => Event::Promoted(text::opt_text(t)),
        }
    }
}

/// What a job waits for.
#[derive(Clone, Copy)]
pub enum Step<N = usize> {
    /// The entries of its output folder.
    Looking,
    /// The cropped copy of a sample folder, or of an open-beam folder.
    Cropping { beams: bool, at: N },
    Staging,
    Launching,
    Listening,
    /// The entries of its output folder, once more.
    Checking,
    Promoting,
    /// Nothing: it has ended.
    Over,
}

/// A step, its place among the inputs a plain number.
pub type Phase = Step<int>;

impl View for Step {
    type V = Phase;

    open spec fn view(&self) -> Phase {
        match *self {
            Step::Looking => Step::Looking,
            Step::Cropping { beams, at } => Step::Cropping { beams, at: at as int },
            Step::Staging => Step::Staging,
            Step::Launching => Step::Launching,
            Step::Listening => Step::Listening,
            Step::Checking => Step::Checking,
            Step::Promoting => Step::Promoting,
            Step::Over => Step::Over,
        }
    }
}

/// A job under way: what it waits for, its input folders with their NeXus
/// files, and the last lines of the script.
pub struct Running {
    pub step: Phase,
    pub samples: Seq<(Text, Text)>,
    pub obs: Seq<(Text, Text)>,
    pub tail: Words,
}

/// What follows an event.
pub struct Turn {
    pub state: Running,
    pub notes: Seq<Told>,
    pub action: Act,
}

pub open spec fn told(notes: Seq<Note>) -> Seq<Told> {
    notes.map_values(|n: Note| n@)
}

/// A job that begins.
pub open spec fn fresh(job: norm::Job) -> Running {
    Running {
        step: Step::Looking,
        samples: job.samples,
        obs: job.obs,
        tail: Seq::empty(),
    }
}

/// An event that the job does not wait for changes nothing.
pub open spec fn unmoved(s: Running) -> Turn {
    Turn { state: s, notes: Seq::empty(), action: Action::Nothing }
}

pub open spec fn onto(s: Running, step: Phase, notes: Seq<Told>, action: Act) -> Turn {
    Turn { state: Running { step, ..s }, notes, action }
}

pub open spec fn failed(s: Running, notes: Seq<Told>, message: Text) -> Turn {
    onto(s, Step::Over, notes, Action::Failed { message })
}

/// Crop an input next.
pub open spec fn crop_next(
    s: Running,
    beams: bool,
    at: int,
    folder: Text,
    region: Region,
    parent: Text,
) -> Turn {
    onto(
        s,
        Step::Cropping { beams, at },
        seq![
            Note::Progress {
                stage: "pre-cropping "@ + paths::name_of(folder) + "…"@,
                counts: None,
            },
        ],
        Action::Crop { folder, region, parent },
    )
}

/// The inputs are ready: make the staging folder.
pub open spec fn stage_next(job: norm::Job, s: Running) -> Turn {
    onto(
        s,
        Step::Staging,
        seq![Note::Progress { stage: "running NeuNorm…"@, counts: None }],
        Action::Stage(job::partial_of(job.output)),
    )
}

/// On to the inputs from this one: all samples first, then all open beams,
/// each cropped when the configuration asks for it.
pub open spec fn inputs_from(job: norm::Job, s: Running, beams: bool, at: int) -> Turn {
    let from = if beams {
        at
    } else {
        0
    };
    match job.crop {
        Some((region, parent)) => if !beams && at < s.samples.len() {
            crop_next(s, false, at, s.samples[at].0, region, parent)
        } else if from < s.obs.len() {
            crop_next(s, true, from, s.obs[from].0, region, parent)
        } else {
            stage_next(job, s)
        },
        None => stage_next(job, s),
    }
}

/// The inputs with one folder replaced by its cropped copy.
pub open spec fn with_folder(inputs: Seq<(Text, Text)>, at: int, folder: Text) -> Seq<
    (Text, Text),
> {
    inputs.update(at, (folder, inputs[at].1))
}

pub open spec fn with_cropped(s: Running, beams: bool, at: int, folder: Text) -> Running {
    if beams {
        Running { obs: with_folder(s.obs, at, folder), ..s }
    } else {
        Running { samples: with_folder(s.samples, at, folder), ..s }
    }
}

/// What is said when the inputs are about to be cropped.
pub open spec fn crop_notice(job: norm::Job) -> Seq<Told> {
    match job.crop {
        Some((region, parent)) => seq![
            Note::Say("pre-crop "@ + job::region_words(region) + " into "@ + parent),
        ],
        None => Seq::empty(),
    }
}

pub const SKIPPED: &'static str = "normalization output already there — skipped (never run twice)";

/// The first look at the output: a complete result is reused as is.
pub open spec fn begun(job: norm::Job, clock: Text, s: Running, names: Words) -> Turn {
    if norm::done(names) {
        onto(
            s,
            Step::Over,
            seq![Note::Say(SKIPPED@)],
            Action::Done { output: job.output, skipped: true },
        )
    } else {
        let next = inputs_from(job, s, false, 0);
        Turn {
            notes: seq![Note::Summary(job::start_block(job, clock))] + crop_notice(job)
                + next.notes,
            ..next
        }
    }
}

/// What a line of the script's output gives to tell.
pub open spec fn heard(line: Text) -> Seq<Told> {
    match norm::progress(line) {
        Some((stage, done, total)) => seq![
            Note::Progress { stage, counts: Some((done, total)) },
        ],
        None => match norm::stages(line) {
            Some(list) => seq![Note::Stages(list)],
            None => if job::shown_line(line) {
                seq![Note::Raw(line), Note::Output(line)]
            } else {
                seq![Note::Raw(line)]
            },
        },
    }
}

pub open spec fn listened(s: Running, line: Text) -> Turn {
    Turn {
        state: Running {
            tail: if job::shown_line(line) {
                job::tail_with(s.tail, line)
            } else {
                s.tail
            },
            ..s
        },
        notes: heard(line),
        action: Action::Listen,
    }
}

/// The script has ended.
pub open spec fn ended(
    job: norm::Job,
    s: Running,
    success: bool,
    signal: bool,
    status: Text,
) -> Turn {
    if success {
        onto(s, Step::Checking, Seq::empty(), Action::Look(job.output))
    } else {
        let message = job::failure(signal, status, s.tail);
        failed(s, seq![Note::Say("ERROR: "@ + message)], message)
    }
}

/// The staging folder was renamed, or not.
pub open spec fn promoted(job: norm::Job, s: Running, error: Option<Text>) -> Turn {
    match error {
        None => onto(
            s,
            Step::Over,
            seq![Note::Say("normalized data written to "@ + job.output)],
            Action::Done { output: job.output, skipped: false },
        ),
        Some(e) => {
            let message = "normalized, but cannot rename "@ + job::partial_of(job.output)
                + " -> "@ + job.output + ": "@ + e;
            failed(s, seq![Note::Log("ERROR: "@ + message)], message)
        },
    }
}

/// What follows an event.
pub open spec fn advance(job: norm::Job, clock: Text, s: Running, e: Happening) -> Turn {
    match (s.step, e) {
        (Step::Looking, Event::Seen { exists, names }) => begun(job, clock, s, names),
        (Step::Cropping { beams, at }, Event::Cropped(folder)) => inputs_from(
            job,
            with_cropped(s, beams, at, folder),
            beams,
            at + 1,
        ),
        (Step::Cropping { beams, at }, Event::NotCropped(message)) => failed(
            s,
            Seq::empty(),
            message,
        ),
        (Step::Staging, Event::Staged(None)) => {
            let command = job::command(job.config, job.output, s.samples, s.obs);
            onto(
                s,
                Step::Launching,
                seq![Note::Say(job::launch_line(command))],
                Action::Launch(command),
            )
        },
        (Step::Staging, Event::Staged(Some(error))) => failed(
            s,
            Seq::empty(),
            "cannot create "@ + job::partial_of(job.output) + ": "@ + error,
        ),
        (Step::Launching, Event::Launched(None)) => onto(
            s,
            Step::Listening,
            Seq::empty(),
            Action::Listen,
        ),
        (Step::Launching, Event::Launched(Some(error))) => failed(
            s,
            Seq::empty(),
            "cannot launch "@ + norm::PYTHON_BIN@ + ": "@ + error,
        ),
        (Step::Listening, Event::Line(line)) => listened(s, line),
        (Step::Listening, Event::Ended { success, signal, status }) => ended(
            job,
            s,
            success,
            signal,
            status,
        ),
        (Step::Listening, Event::Lost(error)) => failed(
            s,
            Seq::empty(),
            "cannot wait for the normalization: "@ + error,
        ),
        (Step::Checking, Event::Seen { exists, names }) => onto(
            s,
            Step::Promoting,
            Seq::empty(),
            Action::Promote {
                clear: exists && !norm::done(names),
                from: job::partial_of(job.output),
                to: job.output,
            },
        ),
        (Step::Promoting, Event::Promoted(error)) => promoted(job, s, error),
        _ => unmoved(s),
    }
}

/// A job under way.
pub struct Runner {
    step: Step,
    samples: Vec<(String, String)>,
    obs: Vec<(String, String)>,
    tail: Vec<String>,
}

impl View for Runner {
    type V = Running;

    closed spec fn view(&self) -> Running {
        Running {
            step: self.step@,
            samples: text::pair_texts(self.samples@),
            obs: text::pair_texts(self.obs@),
            tail: text::texts(self.tail@),
        }
    }
}

impl Runner {
    /// The input being cropped is one of the inputs; few lines are kept.
    pub closed spec fn valid(&self) -> bool {
        &&& self.tail@.len() <= 8
        &&& self.step matches Step::Cropping { beams, at } ==> at < (if beams {
            self.obs@.len()
        } else {
            self.samples@.len()
        })
    }

    /// Begin a job: first, its output folder is looked at.
    pub fn begin(spec: &JobSpec) -> (r: (Runner, Action))
        ensures
            r.0.valid(),
            r.0@ == fresh(spec@),
            r.1@ == Act::Look(spec@.output),
    {
        let samples = text::clone_pairs(&spec.samples);
        let obs = text::clone_pairs(&spec.obs);
        let tail: Vec<String> = Vec::new();
        assert(text::texts(tail@) =~= Seq::empty());
        let runner = Runner { step: Step::Looking, samples, obs, tail };
        (runner, Action::Look(spec.output.as_str().to_owned()))
    }

    /// On to the inputs from this one.
    fn inputs_from(
        &mut self,
        spec: &JobSpec,
        beams: bool,
        at: usize,
        notes: &mut Vec<Note>,
    ) -> (r: Action)
        requires
            old(self).tail@.len() <= 8,
        ensures
            final(self).valid(),
            final(self)@ == inputs_from(spec@, old(self)@, beams, at as int).state,
            told(final(notes)@) == told(old(notes)@) + inputs_from(
                spec@,
                old(self)@,
                beams,
                at as int,
            ).notes,
            r@ == inputs_from(spec@, old(self)@, beams, at as int).action,
    {
        let ghost before = told(notes@);
        let ghost s = self@;
        let from: usize = if beams {
            at
        } else {
            0
        };
        if let Some((region, parent)) = &spec.crop {
            if !beams && at < self.samples.len() {
                let folder = self.samples[at].0.as_str().to_owned();
                assert(s.samples[at as int].0 == folder@);
                let name = paths::name_text(folder.as_str());
                let stage = text::cat3("pre-cropping ", name.as_str(), "…");
                notes.push(Note::Progress { stage, counts: None });
                self.step = Step::Cropping { beams: false, at };
                assert(told(notes@) =~= before + inputs_from(spec@, s, beams, at as int).notes);
                return Action::Crop { folder, region: *region, parent: parent.as_str().to_owned() };
            }
            if from < self.obs.len() {
                let folder = self.obs[from].0.as_str().to_owned();
                assert(s.obs[from as int].0 == folder@);
                let name = paths::name_text(folder.as_str());
                let stage = text::cat3("pre-cropping ", name.as_str(), "…");
                notes.push(Note::Progress { stage, counts: None });
                self.step = Step::Cropping { beams: true, at: from };
                assert(told(notes@) =~= before + inputs_from(spec@, s, beams, at as int).notes);
                return Action::Crop { folder, region: *region, parent: parent.as_str().to_owned() };
            }
        }
        notes.push(Note::Progress { stage: "running NeuNorm…".to_owned(), counts: None });
        self.step = Step::Staging;
        assert(told(notes@) =~= before + inputs_from(spec@, s, beams, at as int).notes);
        Action::Stage(job::staging_folder(spec))
    }

    /// Take the first look at the output.
    fn begun(
        &mut self,
        spec: &JobSpec,
        started: &LocalTime,
        names: &Vec<String>,
        notes: &mut Vec<Note>,
    ) -> (r: Action)
        requires
            old(self).tail@.len() <= 8,
            old(notes)@.len() == 0,
        ensures
            final(self).valid(),
            final(self)@ == begun(spec@, started.clock(), old(self)@, text::texts(names@)).state,
            told(final(notes)@) == begun(
                spec@,
                started.clock(),
                old(self)@,
                text::texts(names@),
            ).notes,
            r@ == begun(spec@, started.clock(), old(self)@, text::texts(names@)).action,
    {
        let ghost turn = begun(spec@, started.clock(), self@, text::texts(names@));
        match job::begin(spec, names, started) {
            Beginning::Skip => {
                notes.push(Note::Say(SKIPPED.to_owned()));
                self.step = Step::Over;
                assert(told(notes@) =~= turn.notes);
                Action::Done { output: spec.output.as_str().to_owned(), skipped: true }
            },
            Beginning::Run { summary } => {
                notes.push(Note::Summary(summary));
                if let Some((region, parent)) = &spec.crop {
                    notes.push(Note::Say(job::precrop_notice(*region, parent.as_str())));
                }
                assert(told(notes@) =~= seq![
                    Note::Summary(job::start_block(spec@, started.clock())),
                ] + crop_notice(spec@));
                self.inputs_from(spec, false, 0, notes)
            },
        }
    }

    /// Take the cropped copy of an input.
    fn cropped(
        &mut self,
        spec: &JobSpec,
        beams: bool,
        at: usize,
        folder: String,
        notes: &mut Vec<Note>,
    ) -> (r: Action)
        requires
            old(self).valid(),
            old(self)@.step == (Phase::Cropping { beams, at: at as int }),
            old(notes)@.len() == 0,
        ensures
            final(self).valid(),
            final(self)@ == inputs_from(
                spec@,
                with_cropped(old(self)@, beams, at as int, folder@),
                beams,
                at + 1,
            ).state,
            told(final(notes)@) == inputs_from(
                spec@,
                with_cropped(old(self)@, beams, at as int, folder@),
                beams,
                at + 1,
            ).notes,
            r@ == inputs_from(
                spec@,
                with_cropped(old(self)@, beams, at as int, folder@),
                beams,
                at + 1,
            ).action,
    {
        let ghost s = self@;
        let count: usize = if beams {
            self.obs.len()
        } else {
            self.samples.len()
        };
        assert(at < count);
        if beams {
            let nexus = self.obs[at].1.as_str().to_owned();
            assert(s.obs[at as int].1 == nexus@);
            self.obs.set(at, (folder, nexus));
            assert(self@.obs =~= with_folder(s.obs, at as int, folder@));
        } else {
            let nexus = self.samples[at].1.as_str().to_owned();
            assert(s.samples[at as int].1 == nexus@);
            self.samples.set(at, (folder, nexus));
            assert(self@.samples =~= with_folder(s.samples, at as int, folder@));
        }
        assert(self@ == with_cropped(s, beams, at as int, folder@));
        assert(told(notes@) =~= Seq::empty());
        let ghost rest = inputs_from(spec@, self@, beams, at + 1).notes;
        assert(Seq::<Told>::empty() + rest =~= rest);
        self.inputs_from(spec, beams, at + 1, notes)
    }

    /// Take a line of the script's output.
    fn listened(&mut self, line: String, notes: &mut Vec<Note>) -> (r: Action)
        requires
            old(self).valid(),
            old(self)@.step is Listening,
            old(notes)@.len() == 0,
        ensures
            final(self).valid(),
            final(self)@ == listened(old(self)@, line@).state,
            told(final(notes)@) == heard(line@),
            r@ == Act::Listen,
    {
        match job::react(line.as_str(), &mut self.tail) {
            Reaction::Progress { stage, counts } => {
                notes.push(Note::Progress { stage, counts: Some(counts) });
            },
            Reaction::Stages(list) => {
                notes.push(Note::Stages(list));
            },
            Reaction::Output { shown } => {
                if shown {
                    notes.push(Note::Raw(line.as_str().to_owned()));
                    notes.push(Note::Output(line));
                } else {
                    notes.push(Note::Raw(line));
                }
            },
        }
        assert(told(notes@) =~= heard(line@));
        Action::Listen
    }

    /// Take the end of the script.
    fn ended(
        &mut self,
        spec: &JobSpec,
        success: bool,
        signal: bool,
        status: &str,
        notes: &mut Vec<Note>,
    ) -> (r: Action)
        requires
            old(self).valid(),
            old(notes)@.len() == 0,
        ensures
            final(self).valid(),
            final(self)@ == ended(spec@, old(self)@, success, signal, status@).state,
            told(final(notes)@) == ended(spec@, old(self)@, success, signal, status@).notes,
            r@ == ended(spec@, old(self)@, success, signal, status@).action,
    {
        let ghost turn = ended(spec@, self@, success, signal, status@);
        if success {
            self.step = Step::Checking;
            assert(told(notes@) =~= turn.notes);
            return Action::Look(spec.output.as_str().to_owned());
        }
        let message = job::failure_message(signal, status, &self.tail);
        notes.push(Note::Say(text::cat2("ERROR: ", message.as_str())));
        self.step = Step::Over;
        assert(told(notes@) =~= turn.notes);
        Action::Failed { message }
    }

    /// Take the outcome of the renaming.
    fn promoted(&mut self, spec: &JobSpec, error: Option<String>, notes: &mut Vec<Note>) -> (r:
        Action)
        requires
            old(self).valid(),
            old(notes)@.len() == 0,
        ensures
            final(self).valid(),
            final(self)@ == promoted(spec@, old(self)@, text::opt_text(error)).state,
            told(final(notes)@) == promoted(spec@, old(self)@, text::opt_text(error)).notes,
            r@ == promoted(spec@, old(self)@, text::opt_text(error)).action,
    {
        let ghost turn = promoted(spec@, self@, text::opt_text(error));
        self.step = Step::Over;
        match error {
            None => {
                notes.push(
                    Note::Say(text::cat2("normalized data written to ", spec.output.as_str())),
                );
                assert(told(notes@) =~= turn.notes);
                Action::Done { output: spec.output.as_str().to_owned(), skipped: false }
            },
            Some(e) => {
                let partial = job::staging_folder(spec);
                let message = text::cat6(
                    "normalized, but cannot rename ",
                    partial.as_str(),
                    " -> ",
                    spec.output.as_str(),
                    ": ",
                    e.as_str(),
                );
                notes.push(Note::Log(text::cat2("ERROR: ", message.as_str())));
                assert(told(notes@) =~= turn.notes);
                Action::Failed { message }
            },
        }
    }

    /// Take an event: what is told of it, and what to do next.
    pub fn take(&mut self, spec: &JobSpec, started: &LocalTime, event: Event) -> (r: (
        Vec<Note>,
        Action,
    ))
        requires
            old(self).valid(),
        ensures
            final(self).valid(),
            final(self)@ == advance(spec@, started.clock(), old(self)@, event@).state,
            told(r.0@) == advance(spec@, started.clock(), old(self)@, event@).notes,
            r.1@ == advance(spec@, started.clock(), old(self)@, event@).action,
    {
        let mut notes: Vec<Note> = Vec::new();
        assert(told(notes@) =~= Seq::empty());
        let action = match (self.step, event) {
            (Step::Looking, Event::Seen { exists: _, names }) => {
                self.begun(spec, started, &names, &mut notes)
            },
            (Step::Cropping { beams, at }, Event::Cropped(folder)) => {
                self.cropped(spec, beams, at, folder, &mut notes)
            },
            (Step::Cropping { beams: _, at: _ }, Event::NotCropped(message)) => {
                self.step = Step::Over;
                Action::Failed { message }
            },
            (Step::Staging, Event::Staged(None)) => {
                let command = job::command_line(spec, &self.samples, &self.obs);
                self.step = Step::Launching;
                notes.push(Note::Say(job::running_line(&command)));
                assert(told(notes@) =~= advance(
                    spec@,
                    started.clock(),
                    old(self)@,
                    event@,
                ).notes);
                Action::Launch(command)
            },
            (Step::Staging, Event::Staged(Some(error))) => {
                self.step = Step::Over;
                let partial = job::staging_folder(spec);
                let message = text::cat4("cannot create ", partial.as_str(), ": ", error.as_str());
                Action::Failed { message }
            },
            (Step::Launching, Event::Launched(None)) => {
                self.step = Step::Listening;
                Action::Listen
            },
            (Step::Launching, Event::Launched(Some(error))) => {
                self.step = Step::Over;
                let message = text::cat4(
                    "cannot launch ",
                    norm::PYTHON_BIN,
                    ": ",
                    error.as_str(),
                );
                Action::Failed { message }
            },
            (Step::Listening, Event::Line(line)) => self.listened(line, &mut notes),
            (Step::Listening, Event::Ended { success, signal, status }) => {
                self.ended(spec, success, signal, status.as_str(), &mut notes)
            },
            (Step::Listening, Event::Lost(error)) => {
                self.step = Step::Over;
                let message = text::cat2("cannot wait for the normalization: ", error.as_str());
                Action::Failed { message }
            },
            (Step::Checking, Event::Seen { exists, names }) => {
                self.step = Step::Promoting;
                Action::Promote {
                    clear: job::clear_before_promoting(exists, &names),
                    from: job::staging_folder(spec),
                    to: spec.output.as_str().to_owned(),
                }
            },
            (Step::Promoting, Event::Promoted(error)) => {
                self.promoted(spec, error, &mut notes)
            },
            _ => Action::Nothing,
        };
        (notes, action)
    }
}

// ---------------------------------------------------------------------
// The course as a whole

/// A job after these events.
pub open spec fn after(job: norm::Job, clock: Text, events: Seq<Happening>) -> Running
    decreases events.len(),
{
    if events.len() == 0 {
        fresh(job)
    } else {
        advance(job, clock, after(job, clock, events.drop_last()), events.last()).state
    }
}

/// The script has ended well.
pub open spec fn succeeded(events: Seq<Happening>) -> bool {
    exists|i: int| 0 <= i < events.len() && #[trigger] events[i] matches Event::Ended {
        success: true,
        ..
    }
}

/// Has this folder come out of the cropping?
pub open spec fn came_cropped(events: Seq<Happening>, folder: Text) -> bool {
    exists|i: int| 0 <= i < events.len() && #[trigger] events[i] == Happening::Cropped(folder)
}

/// The folders of the first `n` inputs have come out of the cropping.
pub open spec fn all_cropped(events: Seq<Happening>, inputs: Seq<(Text, Text)>, n: int) -> bool {
    forall|k: int| 0 <= k < n && k < inputs.len() ==> came_cropped(events, (#[trigger] inputs[k]).0)
}

/// The NeXus files of the inputs.
pub open spec fn nexus_of(inputs: Seq<(Text, Text)>) -> Words {
    inputs.map_values(|p: (Text, Text)| p.1)
}

/// A finished result is never run again: the job ends at its first look, and
/// nothing is cropped, staged or launched.
pub proof fn finished_results_are_skipped(job: norm::Job, clock: Text, exists: bool, names: Words)
    requires
        norm::done(names),
    ensures
        advance(job, clock, fresh(job), Event::Seen { exists, names }).action == (Act::Done {
            output: job.output,
            skipped: true,
        }),
        advance(job, clock, fresh(job), Event::Seen { exists, names }).state.step is Over,
{
}

/// A job that has ended does nothing more and tells nothing more.
pub proof fn nothing_follows_the_end(job: norm::Job, clock: Text, s: Running, e: Happening)
    requires
        s.step is Over,
    ensures
        advance(job, clock, s, e) == unmoved(s),
{
}

/// A job has ended exactly when it has said how: a done or failed job waits
/// for nothing, and no other does.
pub proof fn endings_are_told(job: norm::Job, clock: Text, s: Running, e: Happening)
    requires
        !(s.step is Over),
    ensures
        advance(job, clock, s, e).state.step is Over <==> advance(job, clock, s, e).action is Done
            || advance(job, clock, s, e).action is Failed,
{
}

/// Only the result of a script that ended well is put in place, and a result
/// of its own is only reported once it is in place.
pub proof fn only_successes_are_promoted(
    job: norm::Job,
    clock: Text,
    events: Seq<Happening>,
    e: Happening,
)
    ensures
        advance(job, clock, after(job, clock, events), e).action is Promote ==> succeeded(events),
        advance(job, clock, after(job, clock, events), e).action == (Act::Done {
            output: job.output,
            skipped: false,
        }) ==> succeeded(events) && e == Happening::Promoted(None),
{
    lemma_success_first(job, clock, events);
}

proof fn lemma_success_first(job: norm::Job, clock: Text, events: Seq<Happening>)
    ensures
        after(job, clock, events).step is Checking || after(job, clock, events).step is Promoting
            ==> succeeded(events),
    decreases events.len(),
{
    if events.len() > 0 {
        let earlier = events.drop_last();
        lemma_success_first(job, clock, earlier);
        if succeeded(earlier) {
            let i = choose|i: int|
                0 <= i < earlier.len() && #[trigger] earlier[i] matches Event::Ended {
                    success: true,
                    ..
                };
            assert(events[i] == earlier[i]);
        }
        assert(events.last() == events[events.len() - 1]);
    }
}

/// The inputs stay as many as they were, in their order, each with its NeXus
/// file; without a pre-crop region their folders stay too.
pub proof fn inputs_keep_their_places(job: norm::Job, clock: Text, events: Seq<Happening>)
    ensures
        nexus_of(after(job, clock, events).samples) == nexus_of(job.samples),
        nexus_of(after(job, clock, events).obs) == nexus_of(job.obs),
        job.crop is None ==> after(job, clock, events).samples == job.samples && after(
            job,
            clock,
            events,
        ).obs == job.obs,
    decreases events.len(),
{
    if events.len() > 0 {
        let earlier = events.drop_last();
        inputs_keep_their_places(job, clock, earlier);
        lemma_steps_are_sound(job, clock, earlier);
        let s = after(job, clock, earlier);
        match (s.step, events.last()) {
            (Step::Cropping { beams, at }, Event::Cropped(folder)) => {
                let t = with_cropped(s, beams, at, folder);
                assert(nexus_of(t.samples) =~= nexus_of(s.samples));
                assert(nexus_of(t.obs) =~= nexus_of(s.obs));
            },
            _ => {},
        }
    }
}

/// The step of a job fits its inputs: what is being cropped is an input, and
/// only under a pre-crop region.
pub open spec fn sound(job: norm::Job, s: Running) -> bool {
    s.step matches Step::Cropping { beams, at } ==> job.crop is Some && 0 <= at < (if beams {
        s.obs.len()
    } else {
        s.samples.len()
    })
}

/// Every job under way is sound.
proof fn lemma_steps_are_sound(job: norm::Job, clock: Text, events: Seq<Happening>)
    ensures
        sound(job, after(job, clock, events)),
    decreases events.len(),
{
    if events.len() > 0 {
        lemma_steps_are_sound(job, clock, events.drop_last());
    }
}

proof fn lemma_cropped_later(events: Seq<Happening>, e: Happening, folder: Text)
    requires
        came_cropped(events, folder),
    ensures
        came_cropped(events.push(e), folder),
{
    let i = choose|i: int|
        0 <= i < events.len() && #[trigger] events[i] == Happening::Cropped(folder);
    assert(events.push(e)[i] == Happening::Cropped(folder));
}

proof fn lemma_all_cropped_later(
    events: Seq<Happening>,
    e: Happening,
    inputs: Seq<(Text, Text)>,
    n: int,
)
    requires
        all_cropped(events, inputs, n),
    ensures
        all_cropped(events.push(e), inputs, n),
{
    assert forall|k: int| 0 <= k < n && k < inputs.len() implies came_cropped(
        events.push(e),
        (#[trigger] inputs[k]).0,
    ) by {
        lemma_cropped_later(events, e, inputs[k].0);
    }
}

/// How many samples, and how many open beams, are cropped by now.
pub open spec fn cropped_by_now(s: Running) -> (int, int) {
    match s.step {
        Step::Looking => (0, 0),
        Step::Cropping { beams, at } => if beams {
            (s.samples.len() as int, at)
        } else {
            (at, 0)
        },
        Step::Over => (0, 0),
        _ => (s.samples.len() as int, s.obs.len() as int),
    }
}

proof fn lemma_cropped_by_now(job: norm::Job, clock: Text, events: Seq<Happening>)
    requires
        job.crop is Some,
    ensures
        ({
            let s = after(job, clock, events);
            let n = cropped_by_now(s);
            all_cropped(events, s.samples, n.0) && all_cropped(events, s.obs, n.1)
        }),
    decreases events.len(),
{
    if events.len() > 0 {
        let earlier = events.drop_last();
        let e = events.last();
        let s = after(job, clock, earlier);
        let n = cropped_by_now(s);
        assert(events =~= earlier.push(e));
        lemma_cropped_by_now(job, clock, earlier);
        lemma_steps_are_sound(job, clock, earlier);
        lemma_all_cropped_later(earlier, e, s.samples, n.0);
        lemma_all_cropped_later(earlier, e, s.obs, n.1);
        match (s.step, e) {
            (Step::Cropping { beams, at }, Event::Cropped(folder)) => {
                let t = with_cropped(s, beams, at, folder);
                assert(events[events.len() - 1] == Happening::Cropped(folder));
                assert(came_cropped(events, folder));
                if beams {
                    assert(all_cropped(events, t.obs, at + 1));
                } else {
                    assert(all_cropped(events, t.samples, at + 1));
                }
            },
            _ => {},
        }
    }
}

/// Under a pre-crop region the script never sees an input as it was
/// recorded: every folder it is launched on has come out of the cropping.
pub proof fn scripts_see_cropped_inputs(
    job: norm::Job,
    clock: Text,
    events: Seq<Happening>,
    e: Happening,
)
    requires
        job.crop is Some,
        advance(job, clock, after(job, clock, events), e).action is Launch,
    ensures
        all_cropped(
            events,
            after(job, clock, events).samples,
            after(job, clock, events).samples.len() as int,
        ),
        all_cropped(
            events,
            after(job, clock, events).obs,
            after(job, clock, events).obs.len() as int,
        ),
        advance(job, clock, after(job, clock, events), e).action == Act::Launch(
            job::command(
                job.config,
                job.output,
                after(job, clock, events).samples,
                after(job, clock, events).obs,
            ),
        ),
{
    lemma_cropped_by_now(job, clock, events);
}

/// The lines of the script that the job has heard: those that came while it
/// listened.
pub open spec fn lines_heard(job: norm::Job, clock: Text, events: Seq<Happening>) -> Words
    decreases events.len(),
{
    if events.len() == 0 {
        Seq::empty()
    } else {
        let before = lines_heard(job, clock, events.drop_last());
        match (after(job, clock, events.drop_last()).step, events.last()) {
            (Step::Listening, Event::Line(line)) => before.push(line),
            _ => before,
        }
    }
}

/// The lines kept for an error are the last ones shown of all that the job
/// has heard.
pub proof fn the_tail_is_of_the_lines_heard(job: norm::Job, clock: Text, events: Seq<Happening>)
    ensures
        after(job, clock, events).tail == job::tail_of(lines_heard(job, clock, events)),
    decreases events.len(),
{
    if events.len() > 0 {
        let earlier = events.drop_last();
        the_tail_is_of_the_lines_heard(job, clock, earlier);
        match (after(job, clock, earlier).step, events.last()) {
            (Step::Listening, Event::Line(line)) => {
                let before = lines_heard(job, clock, earlier);
                assert(before.push(line).drop_last() =~= before);
            },
            _ => {},
        }
    }
}

/// A script that ends badly fails its job, and the message ends with the
/// last lines that the script has shown.
pub proof fn failures_show_the_last_lines(
    job: norm::Job,
    clock: Text,
    events: Seq<Happening>,
    signal: bool,
    status: Text,
)
    requires
        after(job, clock, events).step is Listening,
    ensures
        advance(
            job,
            clock,
            after(job, clock, events),
            Event::Ended { success: false, signal, status },
        ).action == (Act::Failed {
            message: job::failure(
                signal,
                status,
                job::tail_of(lines_heard(job, clock, events)),
            ),
        }),
{
    the_tail_is_of_the_lines_heard(job, clock, events);
}

} // verus!
