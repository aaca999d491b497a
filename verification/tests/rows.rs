//! The rows of the table, and the messages of the jobs behind them.

use autonormalization_monitor::files::{FileStatus, RunFiles};
use autonormalization_monitor::h5::RunKind;
use autonormalization_monitor::jobs::{Board, JobMessage, Outcome};
use autonormalization_monitor::labels::{is_folded, Tone};
use autonormalization_monitor::norm::{Counts, JobState, JobTarget, Window};
use autonormalization_monitor::pass::RunMeta;
use autonormalization_monitor::runmap::RunMap;
use autonormalization_monitor::settings::Settings;
use autonormalization_monitor::table::{table_rows, upcoming_row, NormalizedCell, Row};

fn listed(run: u64, corrected: bool) -> RunFiles {
    let folder = format!("/c/x_Run_{run}_s_0");
    RunFiles {
        run,
        nexus: FileStatus::Present(format!("/n/{run}")),
        raw: FileStatus::Missing(format!("/r/{run}")),
        corrected: if corrected {
            FileStatus::Present(folder)
        } else {
            FileStatus::Missing(folder)
        },
    }
}

fn cell_text(row: &Row) -> String {
    match &row.normalized {
        NormalizedCell::Note(l) => format!("note {}", l.text),
        NormalizedCell::Queued(l) => format!("queued {}", l.text),
        NormalizedCell::Offer(l) => format!("offer {}", l.text),
        NormalizedCell::Progress(l) => format!("progress {}", l.text),
        NormalizedCell::Result { output, .. } => format!("result {output}"),
        NormalizedCell::Failure { log, .. } => format!("failure {log:?}"),
    }
}

#[test]
fn rows_stand_newest_first_with_all_their_cells() {
    let mut plan = Settings::new();
    plan.select(Some("/cfg/main.h5".to_owned()));
    plan.take_up("/ipts", &None, None);
    let mut board = Board::new(vec![]);
    board.set_job(
        2,
        JobState::Done {
            output: "/base/row/normalization".to_owned(),
            finished: "2026-09-24 10:00:00".to_owned(),
            runs: vec![2],
        },
    );
    board.start(3, vec![3]);
    board.queue_all(&vec![1]);
    let mut metas = RunMap::new();
    metas.insert(
        2,
        RunMeta {
            obs: vec!["/ob/Run_8_ob".to_owned()],
            config: Some("/cfg/main.h5".to_owned()),
            output: Some("/base/row/normalization".to_owned()),
        },
    );
    let mut image_paths = RunMap::new();
    image_paths.insert(4, "images/tpx1/ob/x".to_owned());
    image_paths.insert(5, "images/tpx1/alignment/x".to_owned());
    image_paths.insert(6, "images/tpx1/raw/x".to_owned());
    let listed_runs: Vec<RunFiles> =
        (1..=8).map(|run| listed(run, run != 5 && run != 8)).collect();
    let rows = table_rows(
        &plan,
        &metas,
        &board,
        &vec![7],
        &listed_runs,
        &image_paths,
        true,
        Some(5),
        "/ipts",
    );
    let runs: Vec<u64> = rows.iter().map(|r| r.run).collect();
    assert_eq!(runs, vec![8, 7, 6, 5, 4, 3, 2, 1]);
    let cells: Vec<String> = rows.iter().map(cell_text).collect();
    assert_eq!(
        cells,
        vec![
            "note ⏳ waiting",
            "offer ▶ normalize",
            "note ⏳ starting…",
            "note alignment run — no normalization needed",
            "note open beam — no normalization needed",
            "progress starting…",
            "result /base/row/normalization",
            "queued ⏳ queued",
        ]
    );
    // The rejected run stays listed.
    assert!(rows[1].rejected);
    assert_eq!(rows[1].hover, Some("Rejected — excluded from the windows"));
    assert_eq!(rows[1].used.text, "↩ restore");
    assert_eq!(rows[3].kind, RunKind::Alignment);
    assert_eq!(rows[3].corrected.text, "—");
    assert!(rows[3].config.is_none());
    assert_eq!(rows[4].kind, RunKind::OpenBeam);
    assert_eq!(rows[4].output.text, "—");
    assert_eq!(rows[2].nexus.text, "✔");
    assert_eq!(rows[2].raw.text, "✖");
    assert_eq!(rows[2].preview.text, "👁");
    assert_eq!(rows[6].obs.text, "8");
    assert_eq!(rows[6].output.text, "base");
    assert_eq!(rows[6].config.as_ref().map(|l| l.text.as_str()), Some("main.h5"));
    // Off, nothing is picked by itself.
    let off = table_rows(
        &plan,
        &metas,
        &board,
        &vec![],
        &listed_runs,
        &image_paths,
        false,
        Some(5),
        "/ipts",
    );
    assert_eq!(cell_text(&off[2]), "offer ▶ normalize");
    assert_eq!(cell_text(&off[0]), "note —");
}

#[test]
fn the_upcoming_run_tells_what_it_waits_for() {
    let mut plan = Settings::new();
    plan.select(Some("/cfg/main.h5".to_owned()));
    plan.take_up("/ipts", &None, None);
    let mut next = listed(9, false);
    next.nexus = FileStatus::Missing("/n/9".to_owned());
    let row = upcoming_row(&next, &plan, &RunMap::new(), &Board::new(vec![]), "/ipts");
    assert_eq!(row.nexus.text, "✖");
    assert_eq!(row.corrected.text, "✖");
    assert_eq!(row.obs.text, "—");
    assert_eq!(row.config.text, "main.h5");
    assert_eq!((row.output.text.as_str(), row.output.tone), ("normalized", Tone::Dim));
}

#[test]
fn the_section_is_folded_without_runs() {
    assert!(is_folded(false, &vec![listed(1, true)], true));
    assert!(is_folded(true, &vec![], false));
    assert!(!is_folded(true, &vec![], true));
    assert!(!is_folded(true, &vec![listed(1, true)], false));
}

#[test]
fn messages_move_their_job_alone() {
    let mut board = Board::new(vec![Window::new(5)]);
    board.start(1, vec![1]);
    board.start(2, vec![2]);
    let target = JobTarget::Run(1);
    board.on_message(
        JobMessage::Stages { target, stages: vec!["load".to_owned(), "divide".to_owned()] },
        "t",
    );
    board.on_message(
        JobMessage::Progress {
            target,
            stage: "divide".to_owned(),
            counts: Some(Counts { done: "3".to_owned(), total: "9".to_owned() }),
        },
        "t",
    );
    board.on_message(JobMessage::Output { target, line: "hello".to_owned() }, "t");
    match board.job(1) {
        Some(JobState::Running { runs, stage, counts, stages }) => {
            assert_eq!(runs, &vec![1]);
            assert_eq!(stage, "divide");
            assert_eq!(counts.as_ref().map(|c| c.done.as_str()), Some("3"));
            assert_eq!(stages, &vec!["load".to_owned(), "divide".to_owned()]);
        }
        _ => panic!("running"),
    }
    assert_eq!(board.output_lines(target), vec!["hello".to_owned()]);
    match board.job(2) {
        Some(JobState::Running { stage, .. }) => assert_eq!(stage, "starting…"),
        _ => panic!("running"),
    }
    board.on_message(
        JobMessage::Finished {
            target,
            runs: vec![1],
            outcome: Outcome::Done { output: "/o".to_owned() },
            log: "/l".to_owned(),
        },
        "2026-09-24 10:00:00",
    );
    match board.job(1) {
        Some(JobState::Done { output, finished, runs }) => {
            assert_eq!((output.as_str(), finished.as_str()), ("/o", "2026-09-24 10:00:00"));
            assert_eq!(runs, &vec![1]);
        }
        _ => panic!("done"),
    }
    // A message about a job that is not there changes nothing.
    board.on_message(
        JobMessage::Progress {
            target: JobTarget::Window(7),
            stage: "x".to_owned(),
            counts: None,
        },
        "t",
    );
    assert!(matches!(board.window_list()[0].state, JobState::Idle));
}
