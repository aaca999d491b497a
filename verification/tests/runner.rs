//! The course of a job, and what the automatic pass makes of a pending run.

use autonormalization_monitor::clock::LocalTime;
use autonormalization_monitor::files::{FileStatus, RunFiles};
use autonormalization_monitor::h5::ConfigInfo;
use autonormalization_monitor::job::running_line;
use autonormalization_monitor::jobs::Board;
use autonormalization_monitor::norm::{launch_from_log, JobSpec, JobState, JobTarget};
use autonormalization_monitor::pass::{may_start_now, take_reading, visit_run, Place};
use autonormalization_monitor::quoting::quoted_tokens;
use autonormalization_monitor::runmap::RunMap;
use autonormalization_monitor::runner::{Action, Event, Note, Runner, SKIPPED};
use autonormalization_monitor::series::visit_series;
use autonormalization_monitor::settings::Settings;

fn strings(v: &[&str]) -> Vec<String> {
    v.iter().map(|s| s.to_string()).collect()
}

fn job(crop: bool) -> JobSpec {
    JobSpec {
        target: JobTarget::Run(7),
        runs: vec![7],
        samples: vec![("/c/Run_7_s_0".to_owned(), "/n/VENUS_7.nxs.h5".to_owned())],
        obs: vec![
            ("/c/ob/Run_5_ob_0".to_owned(), "/n/VENUS_5.nxs.h5".to_owned()),
            ("/c/ob/Run_6_ob_0".to_owned(), "/n/VENUS_6.nxs.h5".to_owned()),
        ],
        config: "/cfg/x.h5".to_owned(),
        output: "/r/Run_7_s_0/normalization".to_owned(),
        log: "/r/Run_7_s_0/logs/normalization.log".to_owned(),
        summary: "/r/autoreduction.log".to_owned(),
        what: "Run 7".to_owned(),
        parameters: vec![],
        crop: if crop {
            Some(((1, 2, 3, 4), "/r/cropped".to_owned()))
        } else {
            None
        },
    }
}

fn started() -> LocalTime {
    LocalTime::new(1790259123, 0, -4 * 3600).unwrap()
}

fn say(note: &Note) -> &str {
    match note {
        Note::Say(text) => text,
        _ => panic!("not said"),
    }
}

fn stage(note: &Note) -> &str {
    match note {
        Note::Progress { stage, counts: None } => stage,
        _ => panic!("no bare progress"),
    }
}

fn seen(exists: bool, names: &[&str]) -> Event {
    Event::Seen { exists, names: strings(names) }
}

/// A job whose script has been launched.
fn launched(spec: &JobSpec) -> Runner {
    let (mut runner, _) = Runner::begin(spec);
    for event in [seen(false, &[]), Event::Staged(None), Event::Launched(None)] {
        runner.take(spec, &started(), event);
    }
    runner
}

#[test]
fn a_job_runs_from_look_to_result() {
    let spec = job(false);
    let (mut runner, first) = Runner::begin(&spec);
    assert!(matches!(first, Action::Look(f) if f == "/r/Run_7_s_0/normalization"));
    let (notes, next) = runner.take(&spec, &started(), seen(false, &[]));
    assert_eq!(notes.len(), 2);
    assert!(matches!(&notes[0], Note::Summary(t)
        if t.contains("[2026-09-24 10:12:03] Run 7 — normalization STARTED")));
    assert_eq!(stage(&notes[1]), "running NeuNorm…");
    assert!(matches!(next, Action::Stage(f) if f == "/r/Run_7_s_0/normalization.partial"));
    let (notes, next) = runner.take(&spec, &started(), Event::Staged(None));
    let command = match next {
        Action::Launch(command) => command,
        _ => panic!("not launched"),
    };
    assert_eq!(say(&notes[0]), running_line(&command));
    assert!(command.contains(&"/c/Run_7_s_0".to_owned()));
    assert!(command.contains(&"/r/Run_7_s_0/normalization.partial".to_owned()));
    let (_, next) = runner.take(&spec, &started(), Event::Launched(None));
    assert!(matches!(next, Action::Listen));
    let (notes, next) = runner.take(&spec, &started(), Event::Line("reading".to_owned()));
    assert!(matches!(&notes[0], Note::Raw(t) if t == "reading"));
    assert!(matches!(&notes[1], Note::Output(t) if t == "reading"));
    assert!(matches!(next, Action::Listen));
    let ended = Event::Ended { success: true, signal: false, status: "exit status: 0".to_owned() };
    let (_, next) = runner.take(&spec, &started(), ended);
    assert!(matches!(next, Action::Look(f) if f == "/r/Run_7_s_0/normalization"));
    let (_, next) = runner.take(&spec, &started(), seen(true, &["notes.txt"]));
    assert!(matches!(next, Action::Promote { clear: true, from, to }
        if from == "/r/Run_7_s_0/normalization.partial" && to == "/r/Run_7_s_0/normalization"));
    let (notes, next) = runner.take(&spec, &started(), Event::Promoted(None));
    assert_eq!(say(&notes[0]), "normalized data written to /r/Run_7_s_0/normalization");
    assert!(matches!(next, Action::Done { output, skipped: false }
        if output == "/r/Run_7_s_0/normalization"));
    // Nothing follows the end.
    let (notes, next) = runner.take(&spec, &started(), seen(false, &[]));
    assert!(notes.is_empty());
    assert!(matches!(next, Action::Nothing));
}

#[test]
fn a_finished_result_ends_its_job() {
    let spec = job(true);
    let (mut runner, _) = Runner::begin(&spec);
    let (notes, next) = runner.take(&spec, &started(), seen(true, &["image_0.tiff"]));
    assert_eq!(say(&notes[0]), SKIPPED);
    assert_eq!(notes.len(), 1);
    assert!(matches!(next, Action::Done { skipped: true, .. }));
}

#[test]
fn the_inputs_are_cropped_one_after_the_other() {
    let spec = job(true);
    let (mut runner, _) = Runner::begin(&spec);
    let (notes, next) = runner.take(&spec, &started(), seen(false, &[]));
    assert_eq!(
        say(&notes[1]),
        "pre-crop (x0, y0, x1, y1) = (1, 2, 3, 4) into /r/cropped"
    );
    assert_eq!(stage(&notes[2]), "pre-cropping Run_7_s_0…");
    assert!(matches!(next, Action::Crop { folder, region: (1, 2, 3, 4), parent }
        if folder == "/c/Run_7_s_0" && parent == "/r/cropped"));
    let cropped = |name: &str| Event::Cropped(format!("/r/cropped/{name}"));
    let (notes, next) = runner.take(&spec, &started(), cropped("Run_7_s_0"));
    assert_eq!(stage(&notes[0]), "pre-cropping Run_5_ob_0…");
    assert!(matches!(next, Action::Crop { folder, .. } if folder == "/c/ob/Run_5_ob_0"));
    let (_, next) = runner.take(&spec, &started(), cropped("Run_5_ob_0"));
    assert!(matches!(next, Action::Crop { folder, .. } if folder == "/c/ob/Run_6_ob_0"));
    let (notes, next) = runner.take(&spec, &started(), cropped("Run_6_ob_0"));
    assert_eq!(stage(&notes[0]), "running NeuNorm…");
    assert!(matches!(next, Action::Stage(_)));
    let (_, next) = runner.take(&spec, &started(), Event::Staged(None));
    let command = match next {
        Action::Launch(command) => command,
        _ => panic!("not launched"),
    };
    // The copies, each with the NeXus file of its run.
    let tail = strings(&[
        "--sample", "/r/cropped/Run_7_s_0", "--sample-nexus", "/n/VENUS_7.nxs.h5",
        "--ob", "/r/cropped/Run_5_ob_0", "--ob-nexus", "/n/VENUS_5.nxs.h5",
        "--ob", "/r/cropped/Run_6_ob_0", "--ob-nexus", "/n/VENUS_6.nxs.h5",
    ]);
    assert!(command.ends_with(&tail));
    // An input that cannot be cropped ends the job.
    let (mut runner, _) = Runner::begin(&spec);
    runner.take(&spec, &started(), seen(false, &[]));
    let (notes, next) =
        runner.take(&spec, &started(), Event::NotCropped("no such folder".to_owned()));
    assert!(notes.is_empty());
    assert!(matches!(next, Action::Failed { message } if message == "no such folder"));
}

#[test]
fn lines_of_the_script_are_told_apart() {
    let spec = job(false);
    let mut runner = launched(&spec);
    let mut hear = |line: &str| runner.take(&spec, &started(), Event::Line(line.to_owned())).0;
    let notes = hear("PROGRESS 3/10 loading");
    assert_eq!(notes.len(), 1);
    assert!(matches!(&notes[0], Note::Progress { stage, counts: Some(c) }
        if stage == "loading" && c.done == "3" && c.total == "10"));
    let notes = hear("STAGES loading|saving");
    assert_eq!(notes.len(), 1);
    assert!(matches!(&notes[0], Note::Stages(list) if *list == strings(&["loading", "saving"])));
    let notes = hear("  ");
    assert_eq!(notes.len(), 1);
    assert!(matches!(&notes[0], Note::Raw(t) if t == "  "));
}

#[test]
fn a_bad_end_keeps_the_last_lines() {
    let spec = job(false);
    let mut runner = launched(&spec);
    for i in 0..10 {
        runner.take(&spec, &started(), Event::Line(format!("line {i}")));
    }
    let ended = Event::Ended { success: false, signal: false, status: "exit status: 1".to_owned() };
    let (notes, next) = runner.take(&spec, &started(), ended);
    let expected = "normalization script failed (exit status: 1)\nline 2\nline 3\nline 4\nline 5\n\
                    line 6\nline 7\nline 8\nline 9";
    assert_eq!(say(&notes[0]), format!("ERROR: {expected}"));
    assert!(matches!(next, Action::Failed { message } if message == expected));
}

#[test]
fn what_cannot_be_done_ends_a_job() {
    let spec = job(false);
    let failure = |events: Vec<Event>| {
        let (mut runner, mut action) = Runner::begin(&spec);
        let mut logged = 0;
        for event in events {
            let (notes, next) = runner.take(&spec, &started(), event);
            logged += notes.iter().filter(|n| matches!(n, Note::Log(_))).count();
            action = next;
        }
        match action {
            Action::Failed { message } => (message, logged),
            _ => panic!("not failed"),
        }
    };
    let why = || "why".to_owned();
    assert_eq!(
        failure(vec![seen(false, &[]), Event::Staged(Some(why()))]),
        ("cannot create /r/Run_7_s_0/normalization.partial: why".to_owned(), 0)
    );
    let (message, _) =
        failure(vec![seen(false, &[]), Event::Staged(None), Event::Launched(Some(why()))]);
    assert!(message.starts_with("cannot launch ") && message.ends_with(": why"));
    let heard = || vec![seen(false, &[]), Event::Staged(None), Event::Launched(None)];
    let mut lost = heard();
    lost.push(Event::Lost(why()));
    assert_eq!(failure(lost).0, "cannot wait for the normalization: why");
    let mut stuck = heard();
    stuck.push(Event::Ended { success: true, signal: false, status: String::new() });
    stuck.push(seen(false, &[]));
    stuck.push(Event::Promoted(Some(why())));
    assert_eq!(
        failure(stuck),
        (
            "normalized, but cannot rename /r/Run_7_s_0/normalization.partial -> \
             /r/Run_7_s_0/normalization: why"
                .to_owned(),
            1
        )
    );
}

#[test]
fn a_logged_launch_reads_back() {
    let command = strings(&[
        "/py", "/s.py", "--config", "/c \"x\" \\y.h5", "--ob", "/ob/with space", "--ob", "/ob/2",
    ]);
    let line = running_line(&command);
    assert_eq!(
        line,
        "running: \"/py\" \"/s.py\" \"--config\" \"/c \\\"x\\\" \\\\y.h5\" \"--ob\" \
         \"/ob/with space\" \"--ob\" \"/ob/2\""
    );
    let launch = launch_from_log(&format!("[t] {line}\n  | done\n")).unwrap();
    assert_eq!(launch.config.as_deref(), Some("/c \"x\" \\y.h5"));
    assert_eq!(launch.obs, strings(&["/ob/with space", "/ob/2"]));
}

#[test]
fn control_characters_are_escaped_and_read_back() {
    let odd = "a\tb\nc\rd\0e\u{1b}f\u{7f}g'h\u{200b}i\u{301}jé…";
    let command = strings(&["/py", "--config", odd, "--ob", "plain"]);
    let line = running_line(&command);
    assert_eq!(
        line,
        "running: \"/py\" \"--config\" \
         \"a\\tb\\nc\\rd\\0e\\x1bf\\x7fg\\'h\\u{200b}i\\u{301}jé…\" \"--ob\" \"plain\""
    );
    // One line of the log, whatever the arguments hold.
    let log = format!("[t] before\n[t] {line}\n  | running: nothing\n[t] after\n");
    let launch = launch_from_log(&log).unwrap();
    assert_eq!(launch.config.as_deref(), Some(odd));
    assert_eq!(launch.obs, strings(&["plain"]));
    // What is no escape stands for its character.
    let tokens = quoted_tokens("\"\\q\\x9g\\u{}\\u{d800}\\u{41\" \"\\u{41}\\x41\"");
    assert_eq!(tokens, strings(&["qx9gu{}u{d800}u{41", "AA"]));
}

fn row(run: u64) -> RunFiles {
    RunFiles {
        run,
        nexus: FileStatus::Present(format!("/ipts/nexus/VENUS_{run}.nxs.h5")),
        raw: FileStatus::Present(format!("/ipts/images/Run_{run}")),
        corrected: FileStatus::Present(corrected(run)),
    }
}

fn corrected(run: u64) -> String {
    format!("/ipts/shared/autoreduce/images/x_Run_{run}_s_0")
}

fn info() -> ConfigInfo {
    ConfigInfo {
        ob_folders: strings(&["/ipts/ob/Run_1_ob"]),
        crop_region: None,
        output_folder: Some("/out".to_owned()),
        detector: None,
        parameters: vec![],
    }
}

fn place(names: &[&str]) -> Place {
    Place { names: strings(names), log: None, finished: "12:00:00".to_owned() }
}

#[test]
fn the_pass_looks_at_a_pending_run() {
    let mut board = Board::new(vec![]);
    let mut metas = RunMap::new();
    let plan = Settings::new();
    let rows = vec![row(8), row(9)];
    let images = vec![(corrected(9), 4), ("/ipts/ob/Run_1_ob".to_owned(), 4)];
    let none = Vec::new();
    // A run that was there before the pass started watching.
    assert!(!may_start_now(&board, 9, Some(9), &none));
    let found = visit_run(
        &mut board, &mut metas, &rows, &plan, Some(9), &none, 9, "/ipts", "/c/a.h5", &info(),
        &place(&[]), &place(&[]), &images,
    );
    assert!(found.is_none() && board.job(9).is_none());
    // A new one starts.
    assert!(may_start_now(&board, 9, Some(8), &none));
    let spec = visit_run(
        &mut board, &mut metas, &rows, &plan, Some(8), &none, 9, "/ipts", "/c/a.h5", &info(),
        &place(&[]), &place(&[]), &images,
    )
    .unwrap();
    assert_eq!(spec.output, "/out/x_Run_9_s_0/normalization");
    assert_eq!(spec.config, "/c/a.h5");
    assert!(board.job(9).unwrap().is_running());
    assert_eq!(metas.get(9).unwrap().obs, strings(&["/ipts/ob/Run_1_ob"]));
    // A result that is there is not made again.
    let again = visit_run(
        &mut board, &mut metas, &rows, &plan, Some(7), &none, 8, "/ipts", "/c/a.h5", &info(),
        &place(&[]), &place(&["a.tif"]), &images,
    );
    assert!(again.is_none());
    assert!(matches!(board.job(8), Some(JobState::Done { output, .. })
        if output == "/out/Run_8/normalization"));
    // A rejected run waits.
    assert!(!may_start_now(&board, 12, Some(8), &vec![12]));
}

#[test]
fn the_pass_looks_at_a_series() {
    let mut board = Board::new(vec![]);
    let mut metas = RunMap::new();
    let members = vec![(8, corrected(8)), (9, corrected(9))];
    let images = vec![
        (corrected(8), 4),
        (corrected(9), 4),
        ("/ipts/ob/Run_1_ob".to_owned(), 4),
    ];
    let none = Vec::new();
    let spec = visit_series(
        &mut board, &mut metas, &members, Some(8), &none, "/ipts", "/c/a.h5", &info(), &place(&[]),
        &images,
    )
    .unwrap();
    assert_eq!(spec.target, JobTarget::Run(9));
    assert_eq!(spec.runs, vec![8, 9]);
    assert_eq!(spec.samples.len(), 2);
    assert!(board.job(9).unwrap().is_running());
    let found = visit_series(
        &mut board, &mut metas, &members, Some(8), &none, "/ipts", "/c/a.h5", &info(),
        &place(&["a.tiff"]), &images,
    );
    assert!(found.is_none());
    assert!(matches!(board.job(9), Some(JobState::Done { runs, .. }) if *runs == vec![8, 9]));
}

#[test]
fn readings_are_kept_or_reported() {
    let mut board = Board::new(vec![]);
    let mut plan = Settings::new();
    plan.select(Some("/c/main.h5".to_owned()));
    assert!(take_reading(&mut board, &mut plan, 9, "/c/own.h5", &Ok(info())));
    assert!(plan.known_info("/c/own.h5").is_some());
    let other = ConfigInfo { output_folder: Some("/elsewhere".to_owned()), ..info() };
    assert!(take_reading(&mut board, &mut plan, 9, "/c/own.h5", &Ok(other)));
    assert_eq!(
        plan.known_info("/c/own.h5").unwrap().output_folder.as_deref(),
        Some("/elsewhere")
    );
    assert!(board.job(9).is_none());
    assert!(!take_reading(&mut board, &mut plan, 9, "/c/bad.h5", &Err("no file".to_owned())));
    assert!(plan.known_info("/c/bad.h5").is_none());
    assert!(matches!(board.job(9), Some(JobState::Failed { message, log: None })
        if message == "no file"));
}
