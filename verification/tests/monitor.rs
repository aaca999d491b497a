//! Open beams, settings, the automatic pass and the job board.

use autonormalization_monitor::beams::{
    kind_label, new_open_beams, newest_run, ob_folders_text, ob_in_use, ob_run_numbers,
    ob_runs_text, run_kind, skips_normalization, strip_ob_suffix, use_as_open_beams,
};
use autonormalization_monitor::choices::{scan_ob_choices, BeamScan, Listed};
use autonormalization_monitor::clock::Moment;
use autonormalization_monitor::config::read;
use autonormalization_monitor::files::{Entry, FileStatus, FolderSeen, RunFiles, Seen};
use autonormalization_monitor::h5::{ConfigInfo, RunKind};
use autonormalization_monitor::jobs::{Board, Outcome, Request, Rerun, OUTPUT_LINES_KEPT};
use autonormalization_monitor::norm::{Counts, JobState, JobTarget, Window, KILLED_PREFIX};
use autonormalization_monitor::pass::{
    apply_run, arm_runs, corrected_folder, drop_found, fail_windows, launch_windows, must_arm,
    must_register, newest_corrected_run, newest_runs, no_corrected, pending_runs, planned_output,
    planned_places, repick, settle_run, start_run_job, unreadable, AfterApply, RunMeta,
};
use autonormalization_monitor::paths::with_extension;
use autonormalization_monitor::runmap::RunMap;
use autonormalization_monitor::settings::{same_folders, sort_by_run, Settings};
use autonormalization_monitor::spans::{
    anchor_run, arm, extend_run_list, kept_times, next_run, table_runs, widest_minutes,
    window_span, SpanScan,
};

fn strings(v: &[&str]) -> Vec<String> {
    v.iter().map(|s| s.to_string()).collect()
}

fn row(run: u64, corrected: FileStatus) -> RunFiles {
    RunFiles {
        run,
        nexus: FileStatus::Present(format!("/ipts/nexus/VENUS_{run}.nxs.h5")),
        raw: FileStatus::Present(format!("/ipts/images/Run_{run}")),
        corrected,
    }
}

fn present(run: u64) -> FileStatus {
    FileStatus::Present(format!("/ipts/shared/autoreduce/images/x_Run_{run}_s_0"))
}

fn missing(run: u64) -> FileStatus {
    FileStatus::Missing(format!("/ipts/shared/autoreduce/images/**/*Run_{run}*"))
}

fn paths_of(kinds: &[(u64, &str)]) -> RunMap<String> {
    let mut map = RunMap::new();
    for (run, path) in kinds {
        map.insert(*run, path.to_string());
    }
    map
}

fn info(obs: &[&str], output: Option<&str>) -> ConfigInfo {
    ConfigInfo {
        ob_folders: strings(obs),
        crop_region: None,
        output_folder: output.map(str::to_owned),
        detector: None,
        parameters: vec![],
    }
}

#[test]
fn ob_suffix_is_stripped_not_chained() {
    let strip = |s: &str| strip_ob_suffix(s);
    assert_eq!(strip("normalization_config_20260910_102311_last"), "normalization_config_20260910_102311_last");
    assert_eq!(strip("normalization_config_20260910_102311_last_ob_29962"), "normalization_config_20260910_102311_last");
    assert_eq!(strip("normalization_config_20260910_102311_ob_29962_29963"), "normalization_config_20260910_102311");
    // A trailing number that is not an _ob_ suffix stays.
    assert_eq!(strip("normalization_config_20260910_102311"), "normalization_config_20260910_102311");
    assert_eq!(strip("my_ob"), "my_ob");
    assert_eq!(strip("config_ob_"), "config_ob_");
}

#[test]
fn ob_run_numbers_come_from_the_folder_names() {
    let folders = strings(&[
        "/x/ob/20260909_Run_29905_virgin_c_ob_1_185C_1_000AngsMin_ob_0",
        "/x/ob/20260909_Run_29906_virgin_c_ob_1_185C_1_000AngsMin_ob_1",
        "/x/ob/no_run_here",
    ]);
    assert_eq!(ob_run_numbers(&folders), vec![29905, 29906]);
    assert_eq!(ob_runs_text(&folders), "29905, 29906");
    assert_eq!(ob_runs_text(&folders[2..].to_vec()), "no_run_here");
    assert_eq!(ob_runs_text(&Vec::new()), "");
    assert_eq!(ob_folders_text(&strings(&["/a", "/b"])), "/a\n/b");
    assert!(ob_in_use(&folders, 29906));
    assert!(!ob_in_use(&folders, 29907));
}

/// Walk a tree of folders, given as (path, entries).
fn beam_folders(detectors: &[&str], tree: &[(&str, &[(&str, bool)])], extra: &[&str]) -> Vec<String> {
    let mut scan = BeamScan::new(&strings(detectors));
    while let Some(dir) = scan.next() {
        let listing: Vec<Entry> = tree
            .iter()
            .find(|(path, _)| *path == dir)
            .map(|(_, entries)| {
                entries
                    .iter()
                    .map(|(name, is_dir)| Entry { name: name.to_string(), is_dir: *is_dir })
                    .collect()
            })
            .unwrap_or_default();
        scan.feed(&listing);
    }
    scan.candidates(&strings(extra))
}

#[test]
fn scans_the_corrected_open_beams_of_a_real_ipts() {
    let root = "/SNS/VENUS/IPTS-37705/shared/autoreduce/images/tpx1/ob";
    let extra = "/SNS/VENUS/IPTS-1/shared/autoreduce/images/tpx1/ob/x/Run_5_ob_0";
    let tree: &[(&str, &[(&str, bool)])] = &[
        (
            "/SNS/VENUS/IPTS-37705/shared/autoreduce/images/tpx1/ob",
            &[("20260910_ob", true), ("x_Run_30049_ob_0", true)],
        ),
        (
            "/SNS/VENUS/IPTS-37705/shared/autoreduce/images/tpx1/ob/20260910_ob",
            &[("x_Run_30051_ob_0", true), ("notes.txt", false), (".Run_1", true)],
        ),
    ];
    let folders = beam_folders(
        &["/SNS/VENUS/IPTS-37705/shared/autoreduce/images/tpx1"],
        tree,
        &[extra],
    );
    let listed: Vec<Listed> = folders
        .iter()
        .map(|folder| Listed {
            folder: folder.clone(),
            names: if folder == extra {
                vec![]
            } else {
                strings(&["a.tif", "a_Spectra.txt", "summary.json"])
            },
            spectra: Some("h\n1\n".to_owned()),
        })
        .collect();
    let choices = scan_ob_choices(&listed);
    // Newest first; 30051 is one of the open beams of that IPTS.
    let runs: Vec<Option<u64>> = choices.iter().map(|c| c.run).collect();
    assert!(runs.contains(&Some(30051)), "{runs:?}");
    assert!(runs.windows(2).all(|w| w[0] >= w[1]), "{runs:?}");
    let ob = choices.iter().find(|c| c.run == Some(30051)).unwrap();
    assert!(ob.complete);
    assert!(ob.frames > 0);
    assert!(ob.folder.starts_with(root));
    // A folder the configuration names elsewhere is offered too
    // (incomplete: it does not exist), and never twice.
    let missing = choices.iter().filter(|c| c.folder == extra).count();
    assert_eq!(missing, 1);
    assert!(!choices.iter().find(|c| c.folder == extra).unwrap().complete);
    // The previous-result folder name used by re-run.
    assert_eq!(
        with_extension("/x/Run_1/normalization", "previous"),
        "/x/Run_1/normalization.previous"
    );
}

#[test]
fn open_beams_lie_no_deeper_than_two_levels_below_ob() {
    let tree: &[(&str, &[(&str, bool)])] = &[
        ("/d/ob", &[("a", true)]),
        ("/d/ob/a", &[("b", true), ("Run_2_x", true)]),
        ("/d/ob/a/b", &[("c", true), ("Run_3_x", true)]),
        ("/d/ob/a/b/c", &[("Run_4_x", true)]),
    ];
    assert_eq!(beam_folders(&["/d"], tree, &[]), strings(&["/d/ob/a/Run_2_x"]));
    // A folder already found is not added again, however it is written.
    assert_eq!(
        beam_folders(&["/d"], tree, &["/d//ob/a/Run_2_x/"]),
        strings(&["/d/ob/a/Run_2_x"])
    );
    assert!(beam_folders(&[], tree, &[]).is_empty());
}

#[test]
fn choices_of_one_run_are_ordered_by_path() {
    let at = |folder: &str| Listed { folder: folder.to_owned(), names: vec![], spectra: None };
    let choices = scan_ob_choices(&vec![
        at("/z/none"),
        at("/b/Run_5_ob"),
        at("/a/Run_5_ob"),
        at("/a/Run_7_ob"),
    ]);
    let order: Vec<&str> = choices.iter().map(|c| c.folder.as_str()).collect();
    assert_eq!(order, vec!["/a/Run_7_ob", "/a/Run_5_ob", "/b/Run_5_ob", "/z/none"]);
}

#[test]
fn runs_are_classified_by_their_image_folder() {
    let kinds = paths_of(&[(1, "images/tpx1/ob/x"), (2, "images/tpx1/alignment/x"), (3, "raw/x")]);
    assert_eq!(run_kind(&kinds, 1), RunKind::OpenBeam);
    assert_eq!(run_kind(&kinds, 2), RunKind::Alignment);
    assert_eq!(run_kind(&kinds, 3), RunKind::Sample);
    // Not read yet: counts as a sample.
    assert_eq!(run_kind(&kinds, 4), RunKind::Sample);
    assert!(skips_normalization(&kinds, 1));
    assert!(!skips_normalization(&kinds, 4));
    assert_eq!(kind_label(RunKind::OpenBeam), Some("open beam"));
    assert_eq!(kind_label(RunKind::Alignment), Some("alignment"));
    assert_eq!(kind_label(RunKind::Sample), None);
}

#[test]
fn new_open_beams_landed_after_those_in_use() {
    let kinds = paths_of(&[(8, "ob/x"), (10, "ob/x"), (11, "ob/x"), (12, "raw/x"), (13, "ob/x")]);
    let rows = vec![
        row(8, present(8)),
        row(10, present(10)),
        row(11, missing(11)),
        row(12, present(12)),
        row(13, present(13)),
    ];
    let runs = |rejected: &[u64], obs: &[&str]| {
        new_open_beams(&rows, &kinds, &rejected.to_vec(), &strings(obs))
            .iter()
            .map(|(run, _)| *run)
            .collect::<Vec<_>>()
    };
    assert_eq!(runs(&[], &["/ob/Run_9_ob_0", "/ob/Run_7_ob_0"]), vec![10, 11, 13]);
    assert_eq!(runs(&[11], &["/ob/Run_9_ob_0"]), vec![10, 13]);
    assert_eq!(runs(&[], &["/ob/Run_13_ob_0"]), Vec::<u64>::new());
    // The configuration names none: every open beam is a candidate.
    assert_eq!(runs(&[], &[]), vec![8, 10, 11, 13]);
    assert_eq!(newest_run(&vec![3, 9, 4]), 9);
    assert_eq!(newest_run(&vec![]), 0);
}

#[test]
fn switching_open_beams_writes_next_to_the_configuration() {
    let folders = strings(&["/ob/a_Run_29962_ob_0", "/ob/a_Run_29963_ob_1"]);
    let ready = vec![true, true];
    let switch =
        use_as_open_beams(Some("/ipts/shared/c_ob_29905.h5"), &folders, &ready).unwrap();
    assert_eq!(switch.dst, "/ipts/shared/c_ob_29962_29963.h5");
    assert_eq!(switch.run_spec, "29962, 29963");
    let error = |config: Option<&str>, folders: &[&str], ready: &[bool]| {
        use_as_open_beams(config, &strings(folders), &ready.to_vec()).err().unwrap()
    };
    assert_eq!(
        error(None, &["/ob/Run_1"], &[true]),
        "no configuration file selected (section 2)"
    );
    assert_eq!(error(Some("/c.h5"), &[], &[]), "no open-beam run to use");
    assert_eq!(
        error(Some("/c.h5"), &["/ob/Run_1", "/ob/Run_2"], &[true, false]),
        "the corrected open-beam folder is not complete: /ob/Run_2"
    );
    assert_eq!(
        error(Some("/c.h5"), &["/ob/none"], &[true]),
        "no run number in the open-beam folder names"
    );
}

#[test]
fn open_beam_lists_are_the_same_in_any_order() {
    let a = strings(&["/x/1", "/x/2", "/x/2"]);
    assert!(same_folders(&a, &strings(&["/x/2", "/x//1", "/x/2/"])));
    assert!(!same_folders(&a, &strings(&["/x/2", "/x/1"])));
    assert!(!same_folders(&a, &strings(&["/x/2", "/x/1", "/x/1"])));
    assert!(!same_folders(&strings(&["/x/2", "/x/1"]), &a));
    assert!(same_folders(&Vec::new(), &Vec::new()));
    assert_eq!(
        sort_by_run(&strings(&["/b_none", "/Run_9_b", "/a_none", "/Run_5", "/Run_9_a"])),
        strings(&["/Run_5", "/Run_9_b", "/Run_9_a", "/b_none", "/a_none"])
    );
}

#[test]
fn a_picked_configuration_wins_for_its_run_only() {
    let mut s = Settings::new();
    assert_eq!(s.config_for_run(5), None);
    s.select(Some("/c/main.h5".to_owned()));
    assert!(s.is_behind());
    s.take_up("/ipts", &Some(info(&["/ob/Run_1_ob"], None)), Some("tpx1".to_owned()));
    assert!(!s.is_behind());
    assert_eq!(s.output_base(), Some("/ipts/shared/autoreduce/normalized"));
    assert_eq!(s.detector(), Some("tpx1"));
    assert_eq!(s.config_obs(), &strings(&["/ob/Run_1_ob"]));
    s.keep_info("/c/other.h5", info(&["/ob/Run_2_ob"], Some("/out")));
    assert!(s.set_run_config(5, Some("/c/other.h5".to_owned())));
    assert!(!s.set_run_config(5, Some("/c/other.h5".to_owned())));
    assert_eq!(s.config_for_run(5).as_deref(), Some("/c/other.h5"));
    assert_eq!(s.config_for_run(6).as_deref(), Some("/c/main.h5"));
    assert_eq!(s.config_obs_for_run(5), strings(&["/ob/Run_2_ob"]));
    assert_eq!(s.config_obs_for_run(6), strings(&["/ob/Run_1_ob"]));
    assert_eq!(s.output_base_for_run(5, "/ipts").as_deref(), Some("/out"));
    assert_eq!(s.own_config(5).as_deref(), Some("/c/other.h5"));
    assert!(s.own_config_info(6).is_none());
    // Picking the selected file is picking none.
    assert!(s.set_run_config(5, Some("/c//main.h5".to_owned())));
    assert_eq!(s.own_config(5), None);
    s.reset();
    assert_eq!(s.selected(), None);
    assert_eq!(s.config_for_run(5), None);
}

#[test]
fn a_selection_that_cannot_be_read_has_no_open_beams() {
    let mut s = Settings::new();
    s.select(Some("/c/main.h5".to_owned()));
    s.take_up("/ipts", &None, None);
    assert_eq!(s.output_base(), Some("/ipts/shared/autoreduce/normalized"));
    assert_eq!(s.detector(), None);
    assert!(s.config_obs().is_empty());
    s.select(None);
    s.take_up("/ipts", &None, None);
    assert_eq!(s.output_base(), None);
    // The contents kept last of a file are the ones known of it.
    s.keep_info("/c/x.h5", info(&["/ob/Run_1"], None));
    s.keep_info("/c/x.h5", info(&["/ob/Run_2"], None));
    assert_eq!(s.known_info("/c/x.h5").unwrap().ob_folders, strings(&["/ob/Run_2"]));
    assert!(s.known_info("/c/y.h5").is_none());
}

#[test]
fn overrides_equal_to_the_configuration_are_not_stored() {
    let mut s = Settings::new();
    s.select(Some("/c/main.h5".to_owned()));
    s.take_up("/ipts", &Some(info(&["/ob/Run_1_ob", "/ob/Run_2_ob"], Some("/out"))), None);
    // Ticked in another order: still the configuration's.
    let sorted = s.apply_obs(5, &strings(&["/ob/Run_2_ob", "/ob/Run_1_ob"]));
    assert_eq!(sorted, strings(&["/ob/Run_1_ob", "/ob/Run_2_ob"]));
    assert!(s.own_obs(5).is_none());
    s.apply_obs(5, &strings(&["/ob/Run_9_ob", "/ob/Run_3_ob"]));
    assert_eq!(s.own_obs(5), Some(strings(&["/ob/Run_3_ob", "/ob/Run_9_ob"])));
    assert_eq!(s.current_obs(5), strings(&["/ob/Run_3_ob", "/ob/Run_9_ob"]));
    assert_eq!(s.current_obs(6), strings(&["/ob/Run_1_ob", "/ob/Run_2_ob"]));
    s.apply_output(5, "/ipts", "  /out/  ");
    assert_eq!(s.own_output(5), None);
    s.apply_output(5, "/ipts", " /elsewhere ");
    assert_eq!(s.own_output(5).as_deref(), Some("/elsewhere"));
    assert_eq!(s.current_output(5, "/ipts"), "/elsewhere");
    assert_eq!(s.current_output(6, "/ipts"), "/out");
    let own = s.effective_info(5, &info(&["/ob/Run_1_ob"], None));
    assert_eq!(own.ob_folders, strings(&["/ob/Run_3_ob", "/ob/Run_9_ob"]));
    assert_eq!(own.output_folder.as_deref(), Some("/elsewhere"));
    // The configuration now names the ticked open beams: no override needed.
    s.take_up("/ipts", &Some(info(&["/ob/Run_9_ob", "/ob/Run_3_ob"], Some("/out"))), None);
    s.drop_same_obs(5);
    assert!(s.own_obs(5).is_none());
    assert_eq!(s.own_output(5).as_deref(), Some("/elsewhere"));
    s.apply_output(5, "/ipts", "");
    assert_eq!(s.own_output(5), None);
    // None ticked: no override either.
    s.apply_obs(5, &Vec::new());
    assert!(s.own_obs(5).is_none());
}

#[test]
fn the_span_stops_at_the_first_old_run_in_live_mode() {
    let end = |run: u64| match run {
        10 => Some(Moment { secs: 6000, nanos: 0 }),
        8 => Some(Moment { secs: 5800, nanos: 0 }),
        7 => Some(Moment { secs: 1000, nanos: 0 }),
        6 => Some(Moment { secs: 5900, nanos: 0 }),
        _ => None,
    };
    let span = |live: bool| {
        let mut scan = SpanScan::new(&vec![6, 7, 8, 9, 10], live, 30);
        while let Some(run) = scan.next() {
            scan.feed(end(run));
        }
        scan.end_times().iter().map(|(run, _)| *run).collect::<Vec<_>>()
    };
    assert_eq!(span(true), vec![10, 8]);
    assert_eq!(span(false), vec![10, 8, 6]);
}

#[test]
fn rejected_and_special_runs_stay_out_of_the_windows() {
    let at = Moment { secs: 100, nanos: 0 };
    let times = vec![(5, at), (4, at), (3, at), (2, at)];
    let kinds = paths_of(&[(3, "ob/x"), (2, "alignment/x")]);
    let kept = kept_times(&times, &vec![4], &kinds);
    assert_eq!(kept.iter().map(|(run, _)| *run).collect::<Vec<_>>(), vec![5]);
    assert_eq!(window_span(&times), vec![2, 3, 4, 5]);
    let mut windows = vec![Window::new(5), Window::new(30)];
    assert_eq!(widest_minutes(&windows), 30);
    assert_eq!(anchor_run(&windows), None);
    windows[0].runs = vec![3];
    windows[1].runs = vec![1, 7, 3];
    assert_eq!(anchor_run(&windows), Some(7));
    assert_eq!(widest_minutes(&Vec::new()), 0);
}

#[test]
fn a_new_anchor_fires_once() {
    // The first anchor only arms the trigger.
    assert_eq!(arm(None, true, Some(7)), (Some(7), false));
    assert_eq!(arm(Some(7), true, Some(7)), (Some(7), false));
    assert_eq!(arm(Some(7), true, Some(9)), (Some(9), true));
    assert_eq!(arm(Some(9), true, Some(8)), (Some(9), false));
    assert_eq!(arm(Some(9), true, None), (Some(9), false));
    assert_eq!(arm(Some(9), false, Some(10)), (None, false));
}

#[test]
fn landed_runs_join_the_list_and_its_text() {
    let mut runs = vec![5, 7];
    let mut field = "5, 7".to_owned();
    extend_run_list(&mut runs, &mut field, true, &vec![4, 6, 8, 9]);
    assert_eq!(runs, vec![5, 7, 8, 9]);
    assert_eq!(field, "5, 7, 8, 9");
    let mut blank = " ".to_owned();
    extend_run_list(&mut runs, &mut blank, true, &vec![10, 11]);
    assert_eq!(blank, "10, 11");
    // Off, or without a list, nothing joins.
    extend_run_list(&mut runs, &mut field, false, &vec![12]);
    assert_eq!(runs.last(), Some(&11));
    let mut none = Vec::new();
    extend_run_list(&mut none, &mut field, true, &vec![12]);
    assert!(none.is_empty());
    assert_eq!(field, "5, 7, 8, 9");
}

#[test]
fn a_run_stays_listed_once_shown() {
    let mut shown = vec![3];
    assert_eq!(table_runs(&vec![], &mut shown, &vec![9, 5, 5]), vec![3, 5, 9]);
    assert_eq!(table_runs(&vec![], &mut shown, &vec![]), vec![3, 5, 9]);
    assert_eq!(table_runs(&vec![8, 1], &mut shown, &vec![4]), vec![8, 1]);
    assert_eq!(shown, vec![3, 5, 9]);
    assert_eq!(next_run(true, true, Some(9)), Some(10));
    assert_eq!(next_run(true, false, Some(9)), None);
    assert_eq!(next_run(false, true, Some(9)), None);
    assert_eq!(next_run(true, true, None), None);
}

#[test]
fn the_pass_is_armed_at_the_newest_corrected_run() {
    let runs: Vec<u64> = (1..=40).collect();
    let newest = newest_runs(&runs);
    assert_eq!(newest.len(), 30);
    assert_eq!((newest[0], newest[29]), (40, 11));
    let rows = vec![row(9, missing(9)), row(8, present(8)), row(6, present(6))];
    assert_eq!(newest_corrected_run(&rows), 8);
    assert_eq!(newest_corrected_run(&vec![row(9, missing(9))]), 0);
    assert!(must_arm(None, Some(true)));
    assert!(!must_arm(None, Some(false)));
    assert!(!must_arm(Some(3), Some(true)));
    assert!(!must_arm(None, None));
    assert_eq!(arm_runs(None, Some(true), 8), Some(8));
    assert_eq!(arm_runs(Some(3), Some(true), 8), Some(3));
    assert_eq!(arm_runs(Some(3), Some(false), 8), None);
    assert_eq!(arm_runs(Some(3), None, 8), Some(3));
}

#[test]
fn the_shared_file_follows_the_selection() {
    let cfg = |s: &str| read(s, "/cfg").unwrap();
    let on = cfg("activate: true\nuser_autoreduction_config_file: /c/a.h5\n");
    assert!(must_register(&on, "/c/b.h5"));
    assert!(!must_register(&on, "/c//a.h5"));
    assert!(must_register(&cfg("activate: true\n"), "/c/a.h5"));
    assert!(!must_register(&cfg("activate: false\n"), "/c/a.h5"));
}

#[test]
fn pending_runs_are_samples_without_a_job_and_with_a_configuration() {
    let rows = vec![row(1, present(1)), row(2, present(2)), row(3, present(3)), row(4, missing(4))];
    let kinds = paths_of(&[(2, "ob/x")]);
    let mut board = Board::new(vec![]);
    let mut s = Settings::new();
    assert!(pending_runs(&rows, &board, &kinds, &s).is_empty());
    s.set_run_config(4, Some("/c/own.h5".to_owned()));
    assert_eq!(pending_runs(&rows, &board, &kinds, &s), vec![(4, "/c/own.h5".to_owned())]);
    s.select(Some("/c/main.h5".to_owned()));
    unreadable(&mut board, 3, "broken".to_owned());
    assert_eq!(
        pending_runs(&rows, &board, &kinds, &s),
        vec![(1, "/c/main.h5".to_owned()), (4, "/c/own.h5".to_owned())]
    );
    assert!(matches!(board.job(3), Some(JobState::Failed { log: None, .. })));
}

#[test]
fn results_on_disk_are_never_redone() {
    let mut board = Board::new(vec![]);
    let mut metas = RunMap::new();
    let log = "[t] running: \"/py\" \"--config\" \"/c.h5\" \"--ob\" \"/ob/Run_1\"\n";
    let start = settle_run(
        &mut board,
        &mut metas,
        9,
        &vec![9],
        "/out/Run_9/normalization",
        &strings(&["a.tif"]),
        Some(log),
        "2026-09-24 10:12:03",
        Some(5),
        &vec![],
    );
    assert!(!start);
    assert!(board.job(9).unwrap().is_done());
    let meta: &RunMeta = metas.get(9).unwrap();
    assert_eq!(meta.obs, strings(&["/ob/Run_1"]));
    assert_eq!(meta.config.as_deref(), Some("/c.h5"));
    assert_eq!(meta.output.as_deref(), Some("/out/Run_9/normalization"));
    let mut settle = |run: u64, from: Option<u64>, rejected: &[u64]| {
        settle_run(
            &mut board,
            &mut metas,
            run,
            &vec![run],
            "/out",
            &Vec::new(),
            None,
            "t",
            from,
            &rejected.to_vec(),
        )
    };
    assert!(settle(6, Some(5), &[]));
    assert!(!settle(5, Some(5), &[]));
    assert!(!settle(6, None, &[]));
    assert!(!settle(6, Some(5), &[6]));
}

#[test]
fn a_run_starts_with_its_own_settings() {
    let mut board = Board::new(vec![]);
    let mut metas = RunMap::new();
    let mut s = Settings::new();
    s.select(Some("/c/main.h5".to_owned()));
    s.apply_obs(9, &strings(&["/ipts/ob/Run_2_ob"]));
    s.apply_output(9, "/ipts", "/own");
    let rows = vec![row(9, present(9)), row(10, missing(10)), row(11, FileStatus::Writing("/w".to_owned()))];
    let base = info(&["/ipts/ob/Run_1_ob"], None);
    let folder = "/ipts/shared/autoreduce/images/x_Run_9_s_0";
    let images = vec![(folder.to_owned(), 4), ("/ipts/ob/Run_2_ob".to_owned(), 4)];
    let none = Vec::new();
    let places = planned_places(&s, 9, "/ipts", Some(folder), &base);
    assert_eq!(places.0, "/own/x_Run_9_s_0/normalization");
    assert_eq!(
        planned_output(&s, 9, "/ipts", Some(folder), &base, &none, &none),
        "/own/x_Run_9_s_0/normalization"
    );
    let spec = start_run_job(
        &mut board, &mut metas, &rows, &s, None, 9, "/ipts", "/c/main.h5", &base, &images, &none,
        &none,
    )
    .unwrap();
    assert_eq!(spec.ob_folders(), strings(&["/ipts/ob/Run_2_ob"]));
    assert_eq!(spec.output(), "/own/x_Run_9_s_0/normalization");
    assert!(board.job(9).unwrap().is_running());
    assert_eq!(metas.get(9).unwrap().obs, strings(&["/ipts/ob/Run_2_ob"]));
    // Other counts: refused at once.
    let few = vec![(folder.to_owned(), 4), ("/ipts/ob/Run_2_ob".to_owned(), 3)];
    assert!(start_run_job(
        &mut board, &mut metas, &rows, &s, None, 9, "/ipts", "/c/main.h5", &base, &few, &none, &none,
    )
    .is_none());
    assert!(metas.get(9).is_none());
    assert!(matches!(board.job(9), Some(JobState::Failed { .. })));
    // Without corrected data only an explicit request gets the message.
    assert!(start_run_job(
        &mut board, &mut metas, &rows, &s, Some(5), 10, "/ipts", "/c/main.h5", &base, &images,
        &none, &none,
    )
    .is_none());
    assert!(board.job(10).is_none());
    no_corrected(&mut board, 10, Some(10), "why".to_owned());
    assert!(board.job(10).is_some());
    assert_eq!(
        corrected_folder(&rows, 11).unwrap_err(),
        "the corrected data of run 11 is still being written — retried automatically once the \
         folder is complete\n/w"
    );
    assert_eq!(
        corrected_folder(&rows, 10).unwrap_err(),
        "no corrected data for run 10 yet (autoreduction) — expected under \
         /ipts/shared/autoreduce/images/**/*Run_10*"
    );
    assert_eq!(corrected_folder(&rows, 12).unwrap_err(), "run 12 is not listed in the table");
    assert_eq!(corrected_folder(&rows, 9).unwrap(), folder);
}

#[test]
fn another_selection_keeps_what_runs() {
    let mut board = Board::new(vec![]);
    let mut metas = RunMap::new();
    let meta = || RunMeta { obs: vec![], config: None, output: None };
    board.start(1, vec![1]);
    metas.insert(1, meta());
    board.set_job(2, JobState::Failed { message: "x".to_owned(), log: None });
    metas.insert(2, meta());
    drop_found(&mut board, &mut metas);
    assert!(board.job(1).is_some());
    assert!(board.job(2).is_none());
    assert_eq!(metas.runs(), vec![1]);
    // Another file picked for a run: looked up again, unless it runs.
    board.set_job(2, JobState::Idle);
    assert!(repick(&mut board, &mut metas, 2));
    assert!(board.job(2).is_none());
    assert!(!repick(&mut board, &mut metas, 1));
    assert!(board.job(1).is_some());
}

#[test]
fn applied_settings_run_now_or_look_up_again() {
    let rows = vec![row(1, present(1)), row(2, missing(2))];
    let mut board = Board::new(vec![]);
    let mut metas = RunMap::new();
    let mut apply = |board: &mut Board, run: u64, now: bool| {
        apply_run(board, &mut metas, &rows, run, now)
    };
    assert!(matches!(apply(&mut board, 1, true), AfterApply::Request));
    assert!(matches!(apply(&mut board, 1, false), AfterApply::LookUp));
    assert!(matches!(apply(&mut board, 2, true), AfterApply::LookUp));
    board.start(1, vec![1]);
    assert!(matches!(apply(&mut board, 1, true), AfterApply::Nothing));
}

#[test]
fn windows_are_launched_together() {
    let mut w = Window::new(5);
    w.runs = vec![3];
    let mut board = Board::new(vec![w, Window::new(15)]);
    let seen = Seen { nexus: vec![], raw: vec![], corrected: vec![] };
    let cfg = info(&["/ipts/ob/Run_1_ob"], None);
    let specs = launch_windows(&mut board, "/ipts", "/c.h5", &cfg, &seen, &Vec::new());
    assert!(specs.is_empty());
    let message = |board: &Board, i: usize| match &board.window_list()[i].state {
        JobState::Failed { message, .. } => message.clone(),
        _ => panic!("failed"),
    };
    assert_eq!(message(&board, 0), "no corrected data yet for run(s) 3");
    assert_eq!(message(&board, 1), "no run in the window");
    fail_windows(&mut board, "unreadable");
    assert_eq!(message(&board, 0), "unreadable");
    assert_eq!(message(&board, 1), "unreadable");
}

#[test]
fn a_launched_window_starts_its_output_anew() {
    let mut ready = Window::new(5);
    ready.runs = vec![3];
    let mut waiting = Window::new(15);
    waiting.runs = vec![3, 4];
    let mut board = Board::new(vec![ready, waiting]);
    for target in [JobTarget::Window(0), JobTarget::Window(1), JobTarget::Run(3)] {
        board.on_output(target, "before".to_owned());
    }
    let folder = "/ipts/shared/autoreduce/images/x_Run_3_s_0";
    let seen = Seen {
        nexus: vec![3],
        raw: vec![],
        corrected: vec![FolderSeen {
            run: 3,
            path: folder.to_owned(),
            names: strings(&["a.tif", "a_Spectra.txt", "summary.json"]),
            spectra: Some("h\n1\n".to_owned()),
        }],
    };
    let images = vec![(folder.to_owned(), 1), ("/ipts/ob/Run_1_ob".to_owned(), 1)];
    let cfg = info(&["/ipts/ob/Run_1_ob"], None);
    let specs = launch_windows(&mut board, "/ipts", "/c.h5", &cfg, &seen, &images);
    assert_eq!(specs.len(), 1);
    assert_eq!(specs[0].target, JobTarget::Window(0));
    assert!(board.output_lines(JobTarget::Window(0)).is_empty());
    assert_eq!(board.output_lines(JobTarget::Window(1)), strings(&["before"]));
    assert_eq!(board.output_lines(JobTarget::Run(3)), strings(&["before"]));
}

#[test]
fn parallel_jobs_are_a_hard_cap() {
    let mut board = Board::new(vec![]);
    board.set_parallel(2);
    assert!(matches!(board.request_run(1), Request::Start));
    board.start(1, vec![1]);
    assert!(matches!(board.request_run(1), Request::Ignored));
    board.start(2, vec![2]);
    assert_eq!(board.running_run_jobs(), 2);
    assert!(!board.has_free_job_slot());
    assert!(matches!(board.request_run(3), Request::Queued));
    assert!(matches!(board.request_run(3), Request::Queued));
    assert_eq!(board.waiting(), &vec![3]);
    assert_eq!(board.take_queued(), None);
    board.on_finished(
        JobTarget::Run(1),
        vec![1],
        Outcome::Done { output: "/o".to_owned() },
        "/l".to_owned(),
        "t",
    );
    assert_eq!(board.take_queued(), Some(3));
    assert_eq!(board.take_queued(), None);
    board.queue_all(&vec![7, 8]);
    assert_eq!(board.waiting(), &vec![7, 8]);
    board.clear_queue();
    assert!(board.waiting().is_empty());
    assert!(board.any_running());
}

#[test]
fn a_killed_run_is_retried_once() {
    let mut board = Board::new(vec![]);
    let killed = || Outcome::Failed { message: format!("{KILLED_PREFIX}signal: 9)") };
    let finish = |board: &mut Board, outcome: Outcome| {
        board.start(5, vec![5]);
        board.on_finished(JobTarget::Run(5), vec![5], outcome, "/log".to_owned(), "t");
    };
    finish(&mut board, killed());
    assert_eq!(board.waiting(), &vec![5]);
    match board.job(5) {
        Some(JobState::Failed { message, log }) => {
            assert!(message.ends_with("→ queued for one automatic retry"), "{message}");
            assert_eq!(log.as_deref(), Some("/log"));
        }
        _ => panic!("failed"),
    }
    assert_eq!(board.take_queued(), Some(5));
    // A second kill stays failed.
    finish(&mut board, killed());
    assert!(board.waiting().is_empty());
    // A success clears the mark: a later kill is retried again.
    finish(&mut board, Outcome::Done { output: "/o".to_owned() });
    finish(&mut board, killed());
    assert_eq!(board.waiting(), &vec![5]);
    // Other failures are not retried.
    board.clear_queue();
    finish(&mut board, Outcome::Failed { message: "exit status: 1".to_owned() });
    assert!(board.waiting().is_empty());
}

#[test]
fn a_result_in_the_way_is_moved_aside() {
    let mut board = Board::new(vec![]);
    assert!(matches!(board.rerun_run(5, None), Rerun::Go));
    board.set_job(
        5,
        JobState::Done {
            output: "/x/Run_1/normalization".to_owned(),
            finished: "t".to_owned(),
            runs: vec![5],
        },
    );
    match board.rerun_run(5, Some("/x//Run_1/normalization")) {
        Rerun::MoveAside { output, previous } => {
            assert_eq!(output, "/x/Run_1/normalization");
            assert_eq!(previous, "/x/Run_1/normalization.previous");
        }
        _ => panic!("in the way"),
    }
    // A result elsewhere is left alone.
    assert!(matches!(board.rerun_run(5, Some("/y/Run_1/normalization")), Rerun::Go));
    board.start(5, vec![5]);
    assert!(matches!(board.rerun_run(5, None), Rerun::Never));
}

#[test]
fn progress_and_output_follow_the_running_job() {
    let mut board = Board::new(vec![Window::new(5)]);
    let target = JobTarget::Run(5);
    // Nothing runs: the messages change nothing.
    board.on_progress(target, "x".to_owned(), None);
    assert!(board.job(5).is_none());
    board.start(5, vec![5]);
    board.on_stages(target, strings(&["a", "b"]));
    board.on_progress(
        target,
        "b".to_owned(),
        Some(Counts { done: "1".to_owned(), total: "2".to_owned() }),
    );
    match board.job(5) {
        Some(JobState::Running { runs, stage, counts, stages }) => {
            assert_eq!(runs, &vec![5]);
            assert_eq!(stage, "b");
            assert_eq!(counts.as_ref().unwrap().total, "2");
            assert_eq!(stages, &strings(&["a", "b"]));
        }
        _ => panic!("running"),
    }
    for i in 0..OUTPUT_LINES_KEPT + 3 {
        board.on_output(target, format!("line {i}"));
    }
    let lines = board.output_lines(target);
    assert_eq!(lines.len(), OUTPUT_LINES_KEPT);
    assert_eq!(lines[0], "line 3");
    assert!(board.output_lines(JobTarget::Window(0)).is_empty());
    board.drop_output(target);
    assert!(board.output_lines(target).is_empty());
    board.set_minutes(0, 7);
    assert_eq!(board.window_list()[0].minutes, 7);
    board.reset();
    assert!(board.job(5).is_none());
    assert_eq!(board.window_list()[0].minutes, 7);
}
