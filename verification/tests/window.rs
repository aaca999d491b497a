//! Experiments, labels, table cells, the run editor, the timeline and series.

use autonormalization_monitor::clock::Moment;
use autonormalization_monitor::config::read;
use autonormalization_monitor::editor::{
    apply_hover, asked_by, choice_label, frames_folder, frames_note, now_text, output_button,
    replace_button, tick, ticked_text, title, upcoming_button, EditorAction, EditorMode,
    RunStanding,
};
use autonormalization_monitor::choices::ObChoice;
use autonormalization_monitor::files::{Entry, FileStatus, RunFiles};
use autonormalization_monitor::h5::{ConfigInfo, RunKind};
use autonormalization_monitor::ipts::{
    config_folders, configs_note, configs_unreadable, detector_from_layout, filtered_ipts, h5_name,
    ipts_path, keep_selected_config, list_accessible_ipts, manual_error, manual_ipts,
    newest_config, rescan_configs, resolve_config_path, viewer_args, Candidate, CONFIG_PATH,
    LEGACY_CONFIG_PATH,
};
use autonormalization_monitor::jobs::Board;
use autonormalization_monitor::labels::{
    any_configured, compare_label, count_rejected, failure_hover, hover_indent, live_heading,
    missing_label, missing_runs, no_output_note, output_title, parallel_label, progress_label,
    registered_label, short_name, status_cell, switch_label, toggle_output_view, window_state_label,
    window_summary, windows_caption, windows_done, windows_launchable, Tone,
};
use autonormalization_monitor::norm::{JobState, JobTarget, Window};
use autonormalization_monitor::pass::RunMeta;
use autonormalization_monitor::runmap::RunMap;
use autonormalization_monitor::series::{
    combined_place, combined_row_name, have_same_settings, prepare_combined_job, series_of,
    start_combined_job, RunFacts,
};
use autonormalization_monitor::settings::Settings;
use autonormalization_monitor::table::{
    corrected_cell, default_entry, new_open_beams_banner, normalized_cell, obs_cell, output_cell,
    planned_obs_cell, planned_output_cell, preview_cell, queue_place, run_config_cell, run_hover,
    toggle_rejected, use_cell, NormalizedCell,
};
use autonormalization_monitor::text::space;
use autonormalization_monitor::timeline::{
    band_title, bar_title, log_label, out_label, timeline_anchor, timeline_bars,
};

fn strings(v: &[&str]) -> Vec<String> {
    v.iter().map(|s| s.to_string()).collect()
}

fn row(run: u64, corrected: FileStatus) -> RunFiles {
    RunFiles {
        run,
        nexus: FileStatus::Present(format!("/n/{run}")),
        raw: FileStatus::Missing(format!("/r/{run}")),
        corrected,
    }
}

fn present(run: u64) -> FileStatus {
    FileStatus::Present(format!("/c/x_Run_{run}_s_0"))
}

fn missing(run: u64) -> FileStatus {
    FileStatus::Missing(format!("/c/**/*Run_{run}*"))
}

fn info(obs: &[&str], output: Option<&str>) -> ConfigInfo {
    ConfigInfo {
        ob_folders: strings(obs),
        crop_region: None,
        output_folder: output.map(str::to_owned),
        detector: None,
        parameters: vec![],
    }
}

fn running(stage: &str, stages: &[&str]) -> JobState {
    JobState::Running {
        runs: vec![1],
        stage: stage.to_owned(),
        counts: None,
        stages: strings(stages),
    }
}

fn done(output: &str, runs: &[u64]) -> JobState {
    JobState::Done {
        output: output.to_owned(),
        finished: "2026-09-24 10:12:03".to_owned(),
        runs: runs.to_vec(),
    }
}

fn failed(message: &str, log: Option<&str>) -> JobState {
    JobState::Failed { message: message.to_owned(), log: log.map(str::to_owned) }
}

#[test]
fn whitespace_is_what_the_language_calls_whitespace() {
    for c in '\0'..=char::MAX {
        assert_eq!(space(c), c.is_whitespace(), "{c:?}");
    }
}

#[test]
fn experiments_are_listed_by_number() {
    let entries = vec![
        ("IPTS-300".to_owned(), true),
        ("IPTS-abc".to_owned(), true),
        ("IPTS-40".to_owned(), true),
        ("shared".to_owned(), true),
        ("IPTS-7".to_owned(), false),
        ("IPTS-".to_owned(), true),
    ];
    assert_eq!(
        list_accessible_ipts(&entries),
        strings(&["IPTS-40", "IPTS-300", "IPTS-abc", "IPTS-"])
    );
}

#[test]
fn typed_experiments_are_checked() {
    assert_eq!(manual_ipts(" 36967 ").unwrap(), "IPTS-36967");
    assert_eq!(manual_ipts("IPTS-36967").unwrap(), "IPTS-36967");
    assert_eq!(manual_ipts("ipts-36967").unwrap(), "IPTS-36967");
    assert_eq!(manual_ipts("IPTS-IPTS-5").unwrap(), "IPTS-5");
    assert_eq!(
        manual_ipts(" 3x ").unwrap_err(),
        "'3x' is not an IPTS number (e.g. 36967)"
    );
    assert!(manual_ipts("").is_err());
    assert_eq!(ipts_path("IPTS-5"), "/SNS/VENUS/IPTS-5");
    assert_eq!(manual_error("/p", false, true).as_deref(), Some("/p does not exist"));
    assert_eq!(manual_error("/p", true, false).as_deref(), Some("no permission to access /p"));
    assert_eq!(manual_error("/p", true, true), None);
}

#[test]
fn experiments_are_filtered_by_number() {
    let list = strings(&["IPTS-1", "IPTS-12", "IPTS-3"]);
    assert_eq!(
        filtered_ipts(&list, " IPTS-1 "),
        (strings(&["IPTS-1", "IPTS-12"]), "(2 of 3 match)".to_owned())
    );
    assert_eq!(filtered_ipts(&list, "").1, "(3 accessible)");
}

#[test]
fn the_shared_configuration_falls_back_to_the_legacy_place() {
    assert_eq!(resolve_config_path(true, true), CONFIG_PATH);
    assert_eq!(resolve_config_path(false, true), LEGACY_CONFIG_PATH);
    assert_eq!(resolve_config_path(false, false), CONFIG_PATH);
}

fn candidate(name: &str, is_file: bool, secs: i64) -> Candidate {
    Candidate {
        path: format!("/c/{name}"),
        name: name.to_owned(),
        is_file,
        mtime: Moment { secs, nanos: 0 },
    }
}

#[test]
fn configurations_are_listed_newest_first() {
    let seen = vec![
        candidate("old.h5", true, 5),
        candidate("new.H5", true, 9),
        candidate("folder.h5", false, 10),
        candidate("same.h5", true, 9),
        candidate("notes.txt", true, 11),
        candidate(".h5", true, 12),
    ];
    let mut configs = rescan_configs(&seen);
    let names: Vec<&str> = configs.iter().map(|c| c.name.as_str()).collect();
    assert_eq!(names, vec!["new.H5", "same.h5", "old.h5"]);
    assert_eq!(newest_config(&configs).as_deref(), Some("/c/new.H5"));
    assert_eq!(newest_config(&Vec::new()), None);
    assert!(h5_name("a.b.h5"));
    assert!(!h5_name("h5"));
    // A selected file from elsewhere is appended, a vanished one dropped.
    let at = Some(Moment { secs: 1, nanos: 0 });
    assert_eq!(keep_selected_config(&mut configs, None, at), None);
    let keep = |configs: &mut Vec<_>, path: &str, at| {
        keep_selected_config(configs, Some(path.to_owned()), at)
    };
    assert_eq!(keep(&mut configs, "/c//old.h5", None).as_deref(), Some("/c//old.h5"));
    assert_eq!(configs.len(), 3);
    assert_eq!(keep(&mut configs, "/far/x.h5", at).as_deref(), Some("/far/x.h5"));
    assert_eq!(configs[3].name, "x.h5");
    assert_eq!(keep(&mut configs, "/far/y.h5", None), None);
    assert_eq!(configs.len(), 4);
    assert_eq!(
        config_folders("/ipts"),
        ("/ipts/shared/autoreduce/configs".to_owned(), "/ipts/shared/autoreduce".to_owned())
    );
}

#[test]
fn unreadable_configuration_folders_matter_while_none_is_selected() {
    let error = configs_unreadable("/a");
    assert_eq!(error, "cannot read /a (nor its configs/ subfolder)");
    assert_eq!(configs_note(Some(&error), true, true), None);
    assert_eq!(configs_note(Some(&error), true, false), Some(error.clone()));
    assert!(configs_note(None, true, true).unwrap().starts_with("No configuration file found"));
    assert_eq!(configs_note(None, false, false), None);
}

#[test]
fn a_single_detector_folder_names_the_detector() {
    let entry = |name: &str, is_dir: bool| Entry { name: name.to_owned(), is_dir };
    let detector = |v: Vec<Entry>| detector_from_layout(&v);
    assert_eq!(
        detector(vec![entry("tpx1", true), entry(".x", true), entry("f", false)]).as_deref(),
        Some("tpx1")
    );
    assert_eq!(detector(vec![entry("tpx1", true), entry("tpx3", true)]), None);
    assert_eq!(detector(vec![]), None);
    assert_eq!(
        viewer_args(&strings(&["/a", "/b", "/c"]), Some("tpx1")),
        strings(&["/a", "--compare", "/b", "--compare", "/c", "--detector", "tpx1"])
    );
    assert_eq!(viewer_args(&strings(&["/a"]), None), strings(&["/a"]));
    assert!(viewer_args(&Vec::new(), Some("tpx1")).is_empty());
}

#[test]
fn file_cells_tell_their_path() {
    let cell = status_cell(&FileStatus::Present("/p".to_owned()));
    assert_eq!((cell.text.as_str(), cell.hover.as_deref(), cell.tone), ("✔", Some("/p"), Tone::Success));
    let cell = status_cell(&FileStatus::Writing("/p".to_owned()));
    assert_eq!((cell.text.as_str(), cell.tone), ("⏳", Tone::Warning));
    let cell = status_cell(&FileStatus::Missing("/p".to_owned()));
    assert_eq!(cell.hover.as_deref(), Some("not there yet — expected at\n/p"));
    assert_eq!(corrected_cell(RunKind::Alignment, &missing(1)).text, "—");
    assert_eq!(corrected_cell(RunKind::Alignment, &present(1)).text, "✔");
    assert_eq!(preview_cell(RunKind::Sample, &missing(1)).hover.as_deref(), Some("No corrected data yet"));
    assert_eq!(preview_cell(RunKind::Sample, &present(1)).text, "👁");
    assert_eq!(hover_indent("a\nb"), "      a\n      b");
    assert_eq!(hover_indent(""), "");
    assert_eq!(short_name("/a/b.h5"), "b.h5");
    assert_eq!(short_name("/"), "/");
}

#[test]
fn the_switch_tells_what_is_registered() {
    assert_eq!(switch_label(true, false).tone, Tone::Success);
    assert_eq!(
        switch_label(false, false).hover.as_deref(),
        Some("Select a normalization configuration file first")
    );
    assert_eq!(switch_label(false, true).text, "Auto normalization: OFF");
    let cfg = read(
        "activate: true\nipts: IPTS-5\nuser_autoreduction_config_file: /c/a.h5\nlive_reduction: true\n",
        "/cfg",
    )
    .unwrap();
    let label = registered_label(&cfg);
    assert_eq!(label.text, "Active on IPTS-5 with a.h5 — live reduction only");
    assert_eq!(label.hover.as_deref(), Some("/c/a.h5"));
    let bare = read("activate: true\n", "/cfg").unwrap();
    assert_eq!(
        registered_label(&bare).text,
        "Active on ? with ? — nothing fires from here: check 4. and/or 5. below"
    );
    assert!(windows_caption(true, false).starts_with("Live:"));
    assert!(windows_caption(false, true).starts_with("Hybrid:"));
    assert!(windows_caption(false, false).starts_with("The windows look at the listed runs only"));
}

#[test]
fn windows_spell_out_their_runs() {
    assert_eq!(window_summary(&vec![]), "no run in window");
    assert_eq!(window_summary(&vec![7]), "1 run (7)");
    assert_eq!(window_summary(&vec![23640, 23641, 23642]), "3 runs (23640–23642)");
    assert_eq!(window_summary(&vec![5, 7]), "2 runs (5, 7)");
    assert_eq!(
        window_summary(&vec![1, 2, 3, 4, 5, 6, 7, 9, 10]),
        "9 runs (1, …, 10)"
    );
}

#[test]
fn window_states_and_the_comparison() {
    assert_eq!(window_state_label(&JobState::Idle).unwrap().text, "—");
    assert!(window_state_label(&running("x", &[])).is_none());
    let label = window_state_label(&done("/o", &[1, 2])).unwrap();
    assert_eq!(label.text, "✔ 10:12:03 (2 run(s))");
    assert_eq!(label.hover.as_deref(), Some("/o"));
    let label = window_state_label(&failed("why", Some("/l"))).unwrap();
    assert_eq!(label.hover.as_deref(), Some("why\n\nfull log: /l"));
    assert_eq!(failure_hover("why", &None), "why");
    let mut windows = vec![Window::new(5), Window::new(15)];
    assert!(!windows_launchable(&windows, true));
    windows[1].runs = vec![3];
    assert!(windows_launchable(&windows, true));
    assert!(!windows_launchable(&windows, false));
    windows[0].state = done("/a", &[1]);
    assert_eq!(windows_done(&windows), strings(&["/a"]));
    let (ready, enabled) = compare_label(2, 2);
    assert_eq!(ready.text, "👁 Compare all 2 (ready)");
    assert!(enabled);
    let (waiting, enabled) = compare_label(1, 2);
    assert_eq!(
        waiting.hover.as_deref(),
        Some("All windows must be normalized first (1 of 2 ready)")
    );
    assert!(!enabled);
}

#[test]
fn progress_ticks_the_stages() {
    let stages = strings(&["load", "divide", "write"]);
    let label = progress_label("normalizing run 5", "divide", &stages);
    assert_eq!(label.text, "2/3 divide");
    assert_eq!(
        label.hover.as_deref(),
        Some("normalizing run 5\nstage 2/3\n ✔ load\n ▶ divide\n · write")
    );
    let label = progress_label("normalizing run 5", "starting…", &stages);
    assert_eq!(label.text, "starting…");
    assert_eq!(label.hover.as_deref(), Some("normalizing run 5\nstarting…"));
}

#[test]
fn the_output_panel_explains_an_empty_output() {
    let windows = vec![Window::new(5)];
    assert_eq!(output_title(JobTarget::Run(7), &windows), "Output — run 7");
    assert_eq!(output_title(JobTarget::Window(0), &windows), "Output — window last 5 min");
    assert_eq!(output_title(JobTarget::Window(1), &windows), "Output");
    assert_eq!(no_output_note(None).0, "no output kept for this job");
    assert_eq!(no_output_note(Some(&running("x", &[]))).0, "no output yet…");
    assert!(no_output_note(Some(&failed("why", None))).0.ends_with("Reason:\n\nwhy"));
    assert_eq!(no_output_note(Some(&failed("why", Some("/l")))).0, "why\n\nfull log: /l");
    assert!(no_output_note(Some(&done("/o", &[1]))).0.ends_with("\n/o"));
    let seven = Some(JobTarget::Run(7));
    assert_eq!(toggle_output_view(None, JobTarget::Run(7)), seven);
    assert_eq!(toggle_output_view(seven, JobTarget::Run(7)), None);
    assert_eq!(toggle_output_view(seven, JobTarget::Run(8)), Some(JobTarget::Run(8)));
}

#[test]
fn the_heading_counts_the_runs() {
    let rows = vec![row(1, present(1)), row(2, present(2)), row(3, present(3))];
    let none = Vec::new();
    assert_eq!(live_heading(true, &rows, &none, false), "5. Live reduction (3 runs)");
    assert_eq!(
        live_heading(true, &rows, &vec![2, 9], false),
        "5. Live reduction (2 runs, 1 rejected)"
    );
    assert_eq!(live_heading(false, &rows, &none, true), "5. Live reduction");
    assert_eq!(live_heading(true, &none_rows(), &none, false), "5. Live reduction");
    assert_eq!(
        live_heading(true, &none_rows(), &none, true),
        "5. Live reduction — next auto-normalized run"
    );
    assert_eq!(count_rejected(&rows, &vec![1, 3]), 2);
    assert_eq!(parallel_label(0), "parallel jobs");
    assert_eq!(parallel_label(2), "parallel jobs (2 running)");
}

fn none_rows() -> Vec<RunFiles> {
    Vec::new()
}

#[test]
fn missing_runs_are_queued_newest_first() {
    let rows = vec![
        row(1, present(1)),
        row(2, present(2)),
        row(3, missing(3)),
        row(4, present(4)),
        row(5, present(5)),
        row(6, present(6)),
    ];
    let mut board = Board::new(vec![]);
    board.start(2, vec![2]);
    board.set_job(6, failed("x", None));
    let mut kinds = RunMap::new();
    kinds.insert(4, "ob/x".to_owned());
    assert_eq!(missing_runs(&rows, &board, &vec![5], &kinds), vec![6, 1]);
    let mut s = Settings::new();
    assert!(!any_configured(&vec![6, 1], &s));
    s.select(Some("/c.h5".to_owned()));
    assert!(any_configured(&vec![6, 1], &s));
    assert!(!any_configured(&Vec::new(), &s));
    assert_eq!(missing_label(2, true, 4).text, "▶ normalize all missing (2)");
    assert!(missing_label(2, true, 4).hover.unwrap().ends_with("up to 4 at a time"));
    assert!(missing_label(0, false, 4).hover.unwrap().starts_with("Nothing to do"));
    board.queue_all(&vec![9, 8]);
    assert_eq!(queue_place(&board, 8), Some(1));
    assert_eq!(queue_place(&board, 7), None);
}

#[test]
fn runs_are_rejected_and_restored() {
    let mut rejected = vec![2, 5];
    toggle_rejected(&mut rejected, 3);
    assert_eq!(rejected, vec![2, 3, 5]);
    toggle_rejected(&mut rejected, 2);
    assert_eq!(rejected, vec![3, 5]);
    assert_eq!(use_cell(RunKind::Sample, false).text, "✖ reject");
    assert_eq!(use_cell(RunKind::Sample, true).text, "↩ restore");
    assert_eq!(use_cell(RunKind::OpenBeam, true).hover.as_deref(), Some("Offer this open beam again"));
    assert_eq!(use_cell(RunKind::Alignment, false).text, "—");
    assert_eq!(run_hover(true, RunKind::OpenBeam), Some("Rejected — excluded from the windows"));
    assert_eq!(run_hover(false, RunKind::Alignment), Some("Alignment run — no normalization needed"));
    assert_eq!(run_hover(false, RunKind::Sample), None);
}

fn normalized(
    corrected: FileStatus,
    state: Option<&JobState>,
    special: Option<(RunKind, &str)>,
    watched: bool,
    no_config: bool,
    queued: Option<(usize, usize)>,
) -> NormalizedCell {
    normalized_cell(7, &corrected, state, special, watched, no_config, queued)
}

fn note(cell: NormalizedCell) -> String {
    match cell {
        NormalizedCell::Note(l) => l.text,
        _ => panic!("a note"),
    }
}

#[test]
fn the_normalized_cell_follows_the_run() {
    let plain = |c: FileStatus, watched: bool, no_config: bool| {
        normalized(c, None, None, watched, no_config, None)
    };
    assert_eq!(note(plain(present(7), true, false)), "⏳ starting…");
    assert_eq!(note(plain(present(7), true, true)), "⚠ no configuration");
    assert_eq!(note(plain(missing(7), true, false)), "⏳ waiting");
    assert_eq!(note(plain(FileStatus::Writing("/w".to_owned()), true, false)), "⏳ waiting");
    assert!(matches!(plain(present(7), false, false), NormalizedCell::Offer(_)));
    assert_eq!(note(plain(present(7), false, true)), "—");
    assert_eq!(note(plain(missing(7), false, false)), "—");
    let special = Some((RunKind::OpenBeam, "images/tpx1/ob/x"));
    assert_eq!(
        note(normalized(present(7), None, special, true, false, Some((0, 1)))),
        "open beam — no normalization needed"
    );
    assert_eq!(
        note(normalized(missing(7), Some(&JobState::Idle), Some((RunKind::Alignment, "a")), false, false, None)),
        "alignment run — no normalization needed"
    );
    // A result that exists anyway is shown as usual.
    let result = done("/o", &[7]);
    match normalized(present(7), Some(&result), special, true, false, None) {
        NormalizedCell::Result { done, output } => {
            assert_eq!(done.text, "✔ normalization done");
            assert_eq!(done.hover.as_deref(), Some("finished 2026-09-24 10:12:03\n/o"));
            assert_eq!(output, "/o");
        }
        _ => panic!("a result"),
    }
    let several = done("/o", &[5, 6, 7]);
    match normalized(present(7), Some(&several), None, true, false, None) {
        NormalizedCell::Result { done, .. } => {
            assert_eq!(done.text, "✔ 3 runs combined");
            assert!(done.hover.unwrap().starts_with("runs 5, 6, 7\n"));
        }
        _ => panic!("a result"),
    }
    match normalized(present(7), Some(&failed("why", None)), None, true, false, Some((2, 4))) {
        NormalizedCell::Queued(l) => assert!(
            l.hover.unwrap().starts_with("Waiting for a free slot: 4 normalization(s) running")
        ),
        _ => panic!("queued"),
    }
    match normalized(present(7), Some(&failed("why", Some("/l"))), None, true, false, None) {
        NormalizedCell::Failure { failed, log } => {
            assert_eq!(failed.hover.as_deref(), Some("why\n\nfull log: /l"));
            assert_eq!(log.as_deref(), Some("/l"));
        }
        _ => panic!("a failure"),
    }
    match normalized(present(7), Some(&running("b", &["a", "b"])), None, true, false, None) {
        NormalizedCell::Progress(l) => {
            assert_eq!(l.text, "2/2 b");
            assert!(l.hover.unwrap().starts_with("normalizing run 7\n"));
        }
        _ => panic!("progress"),
    }
}

fn meta(obs: &[&str], config: Option<&str>, output: Option<&str>) -> RunMeta {
    RunMeta {
        obs: strings(obs),
        config: config.map(str::to_owned),
        output: output.map(str::to_owned),
    }
}

#[test]
fn the_open_beam_cell_names_what_a_run_divides_by() {
    let mut s = Settings::new();
    assert_eq!(planned_obs_cell(&s, 7).text, "—");
    s.select(Some("/c/main.h5".to_owned()));
    s.take_up("/ipts", &Some(info(&["/ob/Run_1_ob", "/ob/Run_2_ob"], None)), None);
    let mut board = Board::new(vec![]);
    let mut metas = RunMap::new();
    let mut kinds = RunMap::new();
    kinds.insert(2, "ob/x".to_owned());
    kinds.insert(9, "ob/x".to_owned());
    kinds.insert(1, "ob/x".to_owned());
    let rows = vec![row(1, present(1)), row(2, present(2)), row(7, present(7)), row(9, present(9))];
    let cell = |s: &Settings, metas: &RunMap<RunMeta>, board: &Board, run: u64, kind: RunKind, rejected: &[u64]| {
        obs_cell(run, kind, s, metas, board, &rejected.to_vec(), &rows, &kinds)
    };
    assert_eq!(cell(&s, &metas, &board, 7, RunKind::Sample, &[]).text, "1, 2");
    assert_eq!(cell(&s, &metas, &board, 7, RunKind::Sample, &[]).tone, Tone::Dim);
    s.apply_obs(7, &strings(&["/ob/Run_9_ob"]));
    let own = cell(&s, &metas, &board, 7, RunKind::Sample, &[]);
    assert_eq!((own.text.as_str(), own.tone), ("9", Tone::Info));
    board.set_job(7, done("/o", &[7]));
    assert_eq!(cell(&s, &metas, &board, 7, RunKind::Sample, &[]).text, "?");
    metas.insert(7, meta(&["/ob/Run_5_ob"], None, None));
    assert_eq!(cell(&s, &metas, &board, 7, RunKind::Sample, &[]).text, "5");
    let beam = |run: u64, rejected: &[u64]| cell(&s, &metas, &board, run, RunKind::OpenBeam, rejected).text;
    assert_eq!(beam(2, &[2]), "✔ in use");
    assert_eq!(beam(9, &[9]), "rejected");
    assert_eq!(beam(9, &[]), "new");
    assert_eq!(beam(0, &[]), "not in use");
    assert_eq!(cell(&s, &metas, &board, 7, RunKind::Alignment, &[]).text, "—");
}

#[test]
fn the_config_cell_names_the_file_a_run_ran_with() {
    let mut s = Settings::new();
    assert_eq!(default_entry(&s), "(section 2) — none selected —");
    let none = run_config_cell(&s, 7, None, false);
    assert_eq!((none.text.as_str(), none.tone), ("— none —", Tone::Warning));
    s.select(Some("/c/main.h5".to_owned()));
    assert_eq!(default_entry(&s), "(section 2) main.h5");
    let dim = run_config_cell(&s, 7, None, false);
    assert_eq!((dim.text.as_str(), dim.tone), ("main.h5", Tone::Dim));
    assert_eq!(dim.hover.as_deref(), Some("The section 2 selection\n/c/main.h5"));
    let same = meta(&[], Some("/c//main.h5"), None);
    assert!(run_config_cell(&s, 7, Some(&same), true)
        .hover
        .unwrap()
        .ends_with("ran with this file"));
    let other = meta(&[], Some("/c/old.h5"), None);
    let cell = run_config_cell(&s, 7, Some(&other), true);
    assert_eq!(cell.tone, Tone::Plain);
    assert!(cell.hover.unwrap().ends_with("(↻ re-run to use the one shown):\n/c/old.h5"));
    assert!(run_config_cell(&s, 7, None, true).hover.unwrap().contains("names no configuration file"));
    s.set_run_config(7, Some("/c/own.h5".to_owned()));
    let own = run_config_cell(&s, 7, None, false);
    assert_eq!((own.text.as_str(), own.tone), ("own.h5", Tone::Info));
}

#[test]
fn the_output_cell_shows_the_base_folder() {
    let mut s = Settings::new();
    assert_eq!(planned_output_cell(&s, 7, "/ipts").text, "—");
    s.select(Some("/c/main.h5".to_owned()));
    s.take_up("/ipts", &Some(info(&[], Some("/out/jean"))), None);
    assert_eq!(planned_output_cell(&s, 7, "/ipts").text, "jean");
    s.apply_output(7, "/ipts", "/mine");
    let own = planned_output_cell(&s, 7, "/ipts");
    assert_eq!((own.text.as_str(), own.tone), ("mine", Tone::Info));
    let m = meta(&[], None, Some("/base/x_Run_7/normalization"));
    let cell = output_cell(RunKind::Sample, &s, 7, "/ipts", Some(&m));
    assert_eq!(cell.text, "base");
    assert_eq!(
        cell.hover.as_deref(),
        Some(
            "Result folder of this run's normalization (output folder chosen for this run, ✏)\n\
             /base/x_Run_7/normalization"
        )
    );
    assert_eq!(output_cell(RunKind::Sample, &s, 8, "/ipts", None).text, "jean");
    assert_eq!(output_cell(RunKind::OpenBeam, &s, 8, "/ipts", None).hover, None);
}

#[test]
fn the_banner_names_the_new_open_beams() {
    assert!(new_open_beams_banner(&Vec::new(), &Vec::new()).is_none());
    let (label, note) = new_open_beams_banner(
        &vec![(29962, present(29962)), (29963, missing(29963))],
        &strings(&["/ob/Run_29905_ob"]),
    )
    .unwrap();
    assert_eq!(label.text, "🔆 New open beam runs: 29962, 29963");
    assert!(label.hover.unwrap().contains("(29905)"));
    assert!(note.contains("(⏳ 29963 still waiting for corrected data)"), "{note}");
    let (label, note) =
        new_open_beams_banner(&vec![(5, missing(5))], &Vec::new()).unwrap();
    assert_eq!(label.text, "🔆 New open beam run: 5");
    assert!(label.hover.unwrap().contains("the configuration names none"));
    assert_eq!(note, "— ⏳ waiting for the corrected data of 5 (autoreduction)");
    let (_, note) = new_open_beams_banner(&vec![(5, present(5))], &Vec::new()).unwrap();
    assert!(note.ends_with("for every upcoming run"));
}

#[test]
fn the_editor_speaks_of_its_run() {
    assert_eq!(title(EditorMode::OpenBeams, 7), "Run 7 — replace the open beams by…");
    assert_eq!(title(EditorMode::Output, 7), "Run 7 — output folder");
    assert!(frames_note(7, 12).starts_with("The corrected data of run 7 has 12 frames"));
    assert!(frames_note(7, 0).starts_with("Run 7 has no complete corrected data yet"));
    let rows = vec![row(7, present(7)), row(8, missing(8))];
    assert_eq!(frames_folder(&rows, 7).as_deref(), Some("/c/x_Run_7_s_0"));
    assert_eq!(frames_folder(&rows, 8), None);
    assert_eq!(frames_folder(&rows, 9), None);
    assert_eq!(asked_by(EditorAction::Apply), Some((false, false)));
    assert_eq!(asked_by(EditorAction::ApplyAndRun), Some((true, false)));
    assert_eq!(asked_by(EditorAction::ApplyUpcomingAndRun), Some((true, true)));
    assert_eq!(asked_by(EditorAction::Cancel), None);
}

#[test]
fn open_beams_are_ticked_and_cleared() {
    let choice = |run: Option<u64>, complete: bool, frames: usize| ObChoice {
        folder: "/ob/a".to_owned(),
        run,
        complete,
        frames,
    };
    let none = Vec::new();
    assert_eq!(choice_label(&choice(Some(5), true, 3), 3, &none), "run 5 — 3 frames");
    assert_eq!(
        choice_label(&choice(None, true, 3), 4, &strings(&["/ob//a"])),
        "a — 3 frames  (⚠ frame count differs)  [configuration's]"
    );
    assert_eq!(
        choice_label(&choice(Some(5), false, 3), 4, &none),
        "run 5 — 3 frames  (⏳ corrected data not complete)"
    );
    let mut selected = strings(&["/ob/b"]);
    tick(&mut selected, "/ob/a", true);
    tick(&mut selected, "/ob//a", true);
    assert_eq!(selected, strings(&["/ob/b", "/ob/a"]));
    tick(&mut selected, "/ob/b/", false);
    assert_eq!(selected, strings(&["/ob/a"]));
    assert_eq!(ticked_text(&strings(&["/ob/Run_5", "/ob/Run_6"])), "ticked: 5, 6");
    assert_eq!(ticked_text(&none), "none ticked");
}

#[test]
fn the_editor_buttons_need_something_to_do() {
    let idle = RunStanding { running: false, ready: true, done: false };
    let busy = RunStanding { running: true, ready: true, done: false };
    let finished = RunStanding { running: false, ready: true, done: true };
    let early = RunStanding { running: false, ready: false, done: false };
    assert_eq!(now_text(true), "re-run now");
    assert_eq!(apply_hover("W", 7, idle), "W and normalize run 7 at once");
    assert!(apply_hover("W", 7, busy).starts_with("This run is being normalized"));
    assert!(apply_hover("W", 7, finished).ends_with("is kept as normalization.previous"));
    assert!(apply_hover("W", 7, early).starts_with("W — normalized as soon as"));
    let (label, enabled) = replace_button(false, 7, idle);
    assert!(enabled);
    assert_eq!(label.text, "Replace for this run & normalize now");
    assert!(!replace_button(true, 7, idle).1);
    assert!(!replace_button(false, 7, busy).1);
    assert!(upcoming_button(false, true, 7, finished).1);
    assert!(!upcoming_button(false, false, 7, idle).1);
    assert_eq!(
        upcoming_button(false, false, 7, idle).0.hover.as_deref(),
        Some("Select a configuration file first (section 2)")
    );
    assert!(output_button(7, idle).1);
    assert!(!output_button(7, busy).1);
    assert_eq!(output_button(7, finished).0.text, "Apply & re-run now");
}

#[test]
fn the_timeline_is_anchored_at_the_latest_run_in_the_windows() {
    let at = |secs: i64| Moment { secs, nanos: 0 };
    let rows = vec![row(1, present(1)), row(2, present(2)), row(3, present(3)), row(4, present(4))];
    let mut times = RunMap::new();
    times.insert(1, (at(10), at(20)));
    times.insert(2, (at(20), at(30)));
    times.insert(4, (at(40), at(50)));
    let mut kinds = RunMap::new();
    kinds.insert(4, "ob/x".to_owned());
    let bars = timeline_bars(&rows, &times, &vec![], &kinds);
    assert_eq!(bars.iter().map(|b| b.run).collect::<Vec<_>>(), vec![1, 2, 4]);
    assert_eq!(timeline_anchor(&bars), Some(at(30)));
    assert_eq!(bar_title(&bars[0]), "run 1");
    assert_eq!(bar_title(&bars[2]), "run 4 (open beam)");
    // Everything out: the latest of all.
    let bars = timeline_bars(&rows, &times, &vec![1, 2], &kinds);
    assert_eq!(timeline_anchor(&bars), Some(at(50)));
    assert_eq!(out_label(4, &vec![4], &kinds), Some("rejected"));
    assert_eq!(timeline_anchor(&Vec::new()), None);
    assert_eq!(band_title(5, 2), "last 5 min — 2 run(s) in the window");
    assert_eq!(log_label("BL10:SE:ND2:CH4:PV", " (sample)"), "CH4:PV (sample)");
}

fn facts(run: u64, name: &str, duration: u64, charge: u64) -> RunFacts {
    RunFacts {
        run,
        kind: RunKind::Sample,
        rejected: false,
        folder_name: Some(format!("20260921_Run_{run}_{name}")),
        duration: Some(duration),
        charge: Some(charge),
    }
}

#[test]
fn consecutive_runs_of_one_series_are_combined() {
    let s = "reptRib_PFV468_2_900C_3_000AngsMin_0";
    let other = "reptRib_PFV468_2_950C_3_000AngsMin_0";
    let mut list = vec![
        facts(1233, other, 1000, 10),
        facts(1234, s, 1000, 10),
        facts(1235, s, 1019, 50),
        facts(1236, s, 5000, 10),
        facts(1237, s, 1000, 10),
    ];
    assert_eq!(series_of(&list, 0), vec![1233]);
    assert_eq!(series_of(&list, 1), vec![1234]);
    assert_eq!(series_of(&list, 2), vec![1234, 1235]);
    // Same charge as 1234 but not as 1235: the series starts anew.
    assert_eq!(series_of(&list, 3), vec![1236]);
    assert_eq!(series_of(&list, 4), vec![1234, 1235, 1236, 1237]);
    // Special and rejected runs neither join nor break a series.
    list[3].rejected = true;
    list[2].kind = RunKind::OpenBeam;
    assert_eq!(series_of(&list, 4), vec![1234, 1237]);
    // A run that cannot be read yet breaks it.
    list[2].kind = RunKind::Sample;
    list[2].folder_name = None;
    assert_eq!(series_of(&list, 4), vec![1237]);
    assert!(have_same_settings(&facts(1, s, 100, 0), &facts(2, s, 102, 7)));
    assert!(!have_same_settings(&facts(1, s, 100, 0), &facts(2, s, 103, 7)));
}

#[test]
fn a_combined_result_gets_its_own_folder() {
    assert_eq!(
        combined_row_name("20260921_Run_30340_reptRib_0", 30342),
        "20260921_Run_30340_to_30342_reptRib_0"
    );
    let members = vec![
        (30340, "/c/20260921_Run_30340_s_0".to_owned()),
        (30342, "/c/20260921_Run_30342_s_1".to_owned()),
    ];
    let cfg = info(&["/ipts/ob/Run_1_ob"], Some("/out"));
    let place = "/out/20260921_Run_30340_to_30342_s_0/normalization";
    assert_eq!(combined_place("/ipts", &cfg, &members), place);
    let images = vec![
        ("/c/20260921_Run_30340_s_0".to_owned(), 2),
        ("/c/20260921_Run_30342_s_1".to_owned(), 2),
        ("/ipts/ob/Run_1_ob".to_owned(), 2),
    ];
    let spec = prepare_combined_job(&members, "/ipts", "/c.h5", &cfg, &images).unwrap();
    assert_eq!(spec.target, JobTarget::Run(30342));
    assert_eq!(spec.runs, vec![30340, 30342]);
    assert_eq!(spec.output(), place);
    assert_eq!(spec.log, "/out/20260921_Run_30340_to_30342_s_0/logs/normalization.log");
    assert_eq!(spec.what, "Runs 30340, 30342 (combined)");
    let mut board = Board::new(vec![]);
    let mut metas = RunMap::new();
    assert!(start_combined_job(&mut board, &mut metas, &members, "/ipts", "/c.h5", &cfg, &images)
        .is_some());
    match board.job(30342) {
        Some(JobState::Running { runs, .. }) => assert_eq!(runs, &vec![30340, 30342]),
        _ => panic!("running"),
    }
    assert_eq!(metas.get(30342).unwrap().output.as_deref(), Some(place));
    assert!(start_combined_job(&mut board, &mut metas, &members, "/ipts", "/c.h5", &cfg, &Vec::new())
        .is_some());
}
