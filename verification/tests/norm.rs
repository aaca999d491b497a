//! Windows, jobs and their logs.

use autonormalization_monitor::clock::{parse_moment, seconds_between, LocalTime, Moment};
use autonormalization_monitor::crop::{crop, does_not_fit, one_sample, precrop_folder, spectra_sidecars, Item, Precrop};
use autonormalization_monitor::files::{FolderSeen, Seen};
use autonormalization_monitor::h5::ConfigInfo;
use autonormalization_monitor::job::{
    begin, clear_before_promoting, command_line, failure_message, precrop_notice, react,
    staging_folder, summary_closing, summary_end_line, summary_start_block, Beginning, Ending,
    Reaction,
};
use autonormalization_monitor::norm::{
    assign_windows, check_frame_counts, crop_parent, duration_text, killed_by_system,
    launch_from_log, output_dir, output_is_done, overall_progress, parse_progress, parse_stages,
    prepare_job, prepare_run_job, resolve_obs, run_output_dir, run_output_places, run_row_name,
    window_runs, JobSpec, JobTarget, Window, SUMMARY_LOG,
};

fn strings(v: &[&str]) -> Vec<String> {
    v.iter().map(|s| s.to_string()).collect()
}

fn t(s: &str) -> Moment {
    parse_moment(s).unwrap()
}

#[test]
fn assigns_runs_to_windows_by_acquisition_time() {
    let mut windows = vec![Window::new(5), Window::new(15), Window::new(30)];
    let end_times = vec![
        (100, t("2026-08-22T10:00:00-04:00")), // anchor
        (99, t("2026-08-22T09:57:00-04:00")),  // 3 min before
        (98, t("2026-08-22T09:48:00-04:00")),  // 12 min before
        (97, t("2026-08-22T09:35:00-04:00")),  // 25 min before
        (96, t("2026-08-22T09:20:00-04:00")),  // 40 min before
    ];
    assign_windows(&mut windows, &end_times);
    assert_eq!(windows[0].runs, vec![99, 100]);
    assert_eq!(windows[1].runs, vec![98, 99, 100]);
    assert_eq!(windows[2].runs, vec![97, 98, 99, 100]);
    // No end time at all → empty windows.
    assign_windows(&mut windows, &Vec::new());
    assert!(windows.iter().all(|w| w.runs.is_empty()));
}

#[test]
fn a_window_reaches_back_to_the_exact_minute() {
    let times = vec![
        (9, t("2026-08-22T10:00:00Z")),
        (8, t("2026-08-22T09:55:00Z")),
        (7, t("2026-08-22T09:54:59.999Z")),
    ];
    assert_eq!(window_runs(&times, 5), vec![8, 9]);
    assert_eq!(window_runs(&times, 0), vec![9]);
    assert_eq!(window_runs(&Vec::new(), 5), Vec::<u64>::new());
}

/// The progress within a stage, as a fraction.
fn fraction(done: &str, total: &str) -> Option<f32> {
    let (done, total) = (done.parse::<f32>().ok()?, total.parse::<f32>().ok()?);
    if total > 0.0 {
        Some(done / total)
    } else {
        None
    }
}

fn progress(line: &str) -> Option<(String, Option<f32>)> {
    parse_progress(line).map(|(label, c)| (label, fraction(&c.done, &c.total)))
}

#[test]
fn parses_progress_lines() {
    assert_eq!(
        progress("PROGRESS 50/100 normalizing"),
        Some(("normalizing".to_owned(), Some(0.5)))
    );
    assert_eq!(
        progress("PROGRESS 10/- loading sample"),
        Some(("loading sample".to_owned(), None))
    );
    assert_eq!(progress("Writing data to /tmp"), None);
    assert_eq!(progress("PROGRESS garbage"), None);
}

fn config_info(output_folder: Option<&str>) -> ConfigInfo {
    ConfigInfo {
        ob_folders: vec![],
        crop_region: None,
        output_folder: output_folder.map(str::to_owned),
        detector: None,
        parameters: vec![],
    }
}

#[test]
fn run_output_dir_is_named_after_the_corrected_folder() {
    let ipts = "/SNS/VENUS/IPTS-1";
    let none = Vec::new();
    let corrected =
        "/SNS/VENUS/IPTS-1/shared/autoreduce/images/tpx1/raw/x/20260921_Run_23642_x_3_000AngsMin_0";
    let with_folder = config_info(Some("/SNS/VENUS/IPTS-1/shared/jean"));
    assert_eq!(
        run_output_dir(ipts, 23642, Some(corrected), &with_folder, &none, &none),
        "/SNS/VENUS/IPTS-1/shared/jean/20260921_Run_23642_x_3_000AngsMin_0/normalization"
    );
    // No corrected folder known (yet): the run number stands in.
    assert_eq!(
        run_output_dir(ipts, 23642, None, &with_folder, &none, &none),
        "/SNS/VENUS/IPTS-1/shared/jean/Run_23642/normalization"
    );
    // No output folder in the configuration: the IPTS default.
    assert_eq!(
        run_output_dir(ipts, 23642, Some(corrected), &config_info(None), &none, &none),
        "/SNS/VENUS/IPTS-1/shared/autoreduce/normalized/\
         20260921_Run_23642_x_3_000AngsMin_0/normalization"
    );
    assert_eq!(run_row_name(7, None), "Run_7");
    assert_eq!(run_row_name(7, Some("/a/b/20260101_Run_7_s_0")), "20260101_Run_7_s_0");
}

#[test]
fn run_output_dir_finds_a_legacy_result() {
    let base = "/tmp/anm_test_legacy_output";
    let info = config_info(Some(base));
    let ipts = "/SNS/VENUS/IPTS-1";
    let corrected = Some("/x/20260101_Run_9_s_0");
    let fresh = format!("{base}/20260101_Run_9_s_0/normalization");
    let legacy = format!("{base}/Run_9/normalization");
    let nothing = Vec::new();
    let image = strings(&["img_0000.tiff"]);
    assert_eq!(
        run_output_places(ipts, 9, corrected, &info),
        (fresh.clone(), legacy.clone())
    );
    // Nothing on disk: the new layout.
    assert_eq!(run_output_dir(ipts, 9, corrected, &info, &nothing, &nothing), fresh);
    // A complete result in the legacy layout is found there.
    assert_eq!(run_output_dir(ipts, 9, corrected, &info, &nothing, &image), legacy);
    // An empty legacy folder does not count.
    assert_eq!(run_output_dir(ipts, 9, corrected, &info, &nothing, &nothing), fresh);
    // A complete result at the new place wins over a legacy one.
    assert_eq!(run_output_dir(ipts, 9, corrected, &info, &image, &image), fresh);
}

#[test]
fn durations_read_naturally() {
    assert_eq!(duration_text(41), "41 s");
    assert_eq!(duration_text(521), "8 min 41 s");
    assert_eq!(duration_text(3725), "1 h 02 min 05 s");
    assert_eq!(duration_text(-3), "0 s");
}

fn job(root: &str) -> JobSpec {
    JobSpec {
        target: JobTarget::Run(30340),
        runs: vec![30340],
        samples: vec![(
            "/c/20260921_Run_30340_s_0".to_owned(),
            "/n/VENUS_30340.nxs.h5".to_owned(),
        )],
        obs: vec![
            ("/c/ob/Run_30338_ob_0".to_owned(), "/n/VENUS_30338.nxs.h5".to_owned()),
            ("/c/ob/Run_30339_ob_0".to_owned(), "/n/VENUS_30339.nxs.h5".to_owned()),
        ],
        config: "/cfg/normalization_config_x.h5".to_owned(),
        output: format!("{root}/20260921_Run_30340_s_0/normalization"),
        log: format!("{root}/20260921_Run_30340_s_0/logs/normalization.log"),
        summary: format!("{root}/{SUMMARY_LOG}"),
        what: "Run 30340".to_owned(),
        parameters: vec![
            ("distance_source_detector_m".to_owned(), "25".to_owned()),
            ("proton_charge".to_owned(), "true".to_owned()),
        ],
        crop: Some(((1, 2, 3, 4), format!("{root}/cropped_x01_y02_x13_y14"))),
    }
}

/// 2026-09-24 10:12:03 on a clock four hours behind UTC.
fn started() -> LocalTime {
    LocalTime::new(1790259123, 0, -4 * 3600).unwrap()
}

#[test]
fn summary_log_follows_a_job() {
    let spec = job("/tmp/anm_test_summary_log");
    let started = started();
    let ended = LocalTime::new(1790259123 + 521, 0, -4 * 3600).unwrap();
    let text = summary_start_block(&spec, &started)
        + &summary_end_line(&spec, &started, &ended, "DONE → /out");
    let expect = |needle: &str| assert!(text.contains(needle), "missing {needle:?} in:\n{text}");
    expect("[2026-09-24 10:12:03] Run 30340 — normalization STARTED");
    expect("sample        : /c/20260921_Run_30340_s_0");
    expect("  nexus       : /n/VENUS_30340.nxs.h5");
    expect("open beam 1   : /c/ob/Run_30338_ob_0");
    expect("open beam 2   : /c/ob/Run_30339_ob_0");
    expect("configuration : /cfg/normalization_config_x.h5");
    expect("      distance_source_detector_m = 25");
    expect("      proton_charge = true");
    expect("pre-crop      : (x0, y0, x1, y1) = (1, 2, 3, 4)");
    expect("output        : ");
    expect("job log       : ");
    expect("[2026-09-24 10:20:44] Run 30340 — normalization DONE → /out (started 2026-09-24 10:12:03, took 8 min 41 s)");
}

#[test]
fn a_finished_result_is_skipped() {
    let spec = job("/r");
    assert!(matches!(
        begin(&spec, &strings(&["img_0000.tif"]), &started()),
        Beginning::Skip
    ));
    match begin(&spec, &strings(&["notes.txt"]), &started()) {
        Beginning::Run { summary } => assert_eq!(summary, summary_start_block(&spec, &started())),
        Beginning::Skip => panic!("not done"),
    }
    // A leftover without a result is cleared before promoting; a result is left alone.
    assert!(clear_before_promoting(true, &strings(&["notes.txt"])));
    assert!(!clear_before_promoting(true, &strings(&["a.tiff"])));
    assert!(!clear_before_promoting(false, &Vec::new()));
}

#[test]
fn the_summary_closes_with_the_first_line_of_an_error() {
    let spec = job("/r");
    let ended = LocalTime::new(1790259123 + 5, 0, -4 * 3600).unwrap();
    let closing = |ending: Ending| summary_closing(&spec, &started(), &ended, &ending);
    assert_eq!(
        closing(Ending::Failed { message: " broken pipe \nmore".to_owned() }),
        "[2026-09-24 10:12:08] Run 30340 — normalization FAILED: broken pipe \
         (started 2026-09-24 10:12:03, took 5 s)\n"
    );
    assert_eq!(
        closing(Ending::Done { output: "/out".to_owned(), skipped: false }),
        "[2026-09-24 10:12:08] Run 30340 — normalization DONE → /out \
         (started 2026-09-24 10:12:03, took 5 s)\n"
    );
    assert_eq!(
        closing(Ending::Done { output: "/out".to_owned(), skipped: true }),
        "[2026-09-24 10:12:08] Run 30340 — normalization SKIPPED, result already there: /out \
         (started 2026-09-24 10:12:03, took 5 s)\n"
    );
}

fn items(names: &[&str]) -> Vec<Item> {
    names.iter().map(|n| Item { name: n.to_string(), is_file: true }).collect()
}

#[test]
fn precrops_with_the_runner_reuse_rule() {
    let root = "/tmp/anm_test_precrop";
    let src = format!("{root}/20260613_Run_1_x_0");
    // 10×6 frames holding their row index; two frames + a spectra file.
    let frame: Vec<f32> = (0..6).flat_map(|r| vec![r as f32; 10]).collect();
    let at_src = items(&["img_0001.tiff", "img_0000.tiff", "img_Spectra.txt"]);
    let region = (2, 1, 8, 5);
    let parent = crop_parent(root, region);
    assert_eq!(parent, format!("{root}/cropped_x02_y01_x18_y15"));
    match precrop_folder(&src, &parent, &at_src, &Vec::new()).unwrap() {
        Precrop::Crop { dest, images, note } => {
            assert_eq!(dest, format!("{parent}/20260613_Run_1_x_0"));
            assert_eq!(images, strings(&["img_0000.tiff", "img_0001.tiff"]));
            assert_eq!(
                note,
                format!("pre-crop — 20260613_Run_1_x_0: 2 TIFF(s) cropped into {dest}")
            );
        }
        Precrop::Reuse { .. } => panic!("nothing to reuse"),
    }
    let values = crop(&frame, 10, 6, region).unwrap();
    assert_eq!(values.len(), 6 * 4);
    assert_eq!(values[0], 1.0);
    assert_eq!(values[values.len() - 1], 4.0);
    assert_eq!(spectra_sidecars(&at_src), strings(&["img_Spectra.txt"]));
    // Same count already there: reused, not rewritten.
    let at_dest = items(&["img_0000.tiff", "img_0001.tiff"]);
    match precrop_folder(&src, &parent, &at_src, &at_dest).unwrap() {
        Precrop::Reuse { note, .. } => assert!(note.ends_with("reused"), "{note}"),
        Precrop::Crop { .. } => panic!("cropped twice"),
    }
    // Region outside the frame is refused.
    assert!(crop(&frame, 10, 6, (0, 0, 11, 6)).is_none());
    let err = does_not_fit((0, 0, 11, 6), 10, 6, "img_0000.tiff");
    assert!(err.contains("does not fit"), "{err}");
}

#[test]
fn precropping_needs_a_name_and_images() {
    assert_eq!(
        precrop_folder("/", "/p", &items(&["a.tif"]), &Vec::new()).err().as_deref(),
        Some("input folder / has no name")
    );
    assert_eq!(
        precrop_folder("/x/Run_1", "/p", &items(&["a.txt"]), &Vec::new()).err().as_deref(),
        Some("no TIFF files found in /x/Run_1")
    );
}

#[test]
fn a_crop_keeps_the_rows_in_order() {
    let values: Vec<u16> = (0..12).collect();
    // 4×3: the middle two columns of the last two rows.
    assert_eq!(crop(&values, 4, 3, (1, 1, 3, 3)), Some(vec![5, 6, 9, 10]));
    assert_eq!(crop(&values, 4, 3, (0, 0, 4, 3)), Some(values.clone()));
    // Empty or reversed regions.
    assert_eq!(crop(&values, 4, 3, (2, 0, 2, 3)), None);
    assert_eq!(crop(&values, 4, 3, (3, 0, 1, 3)), None);
    // The first sample of every pixel is kept.
    assert_eq!(one_sample(vec![1, 2, 3, 4], 2, 1), Some(vec![1, 3]));
    assert_eq!(one_sample(vec![1, 2, 3, 4], 2, 2), Some(vec![1, 2, 3, 4]));
    assert_eq!(one_sample(vec![1, 2, 3], 2, 1), None);
    assert_eq!(precrop_notice((1, 2, 3, 4), "/p"), "pre-crop (x0, y0, x1, y1) = (1, 2, 3, 4) into /p");
}

#[test]
fn parses_stages_and_overall_progress() {
    let overall = |stages: &Vec<String>, stage: &str, within: Option<f32>| {
        overall_progress(stages, stage)
            .map(|(k, n)| ((k, n), ((k - 1) as f32 + within.unwrap_or(0.0)) / n as f32))
    };
    let stages =
        parse_stages("STAGES loading sample|combining runs|normalizing|exporting").unwrap();
    assert_eq!(stages.len(), 4);
    assert_eq!(parse_stages("STAGES "), None);
    assert_eq!(parse_stages("PROGRESS 1/2 x"), None);
    let ((k, n), f) = overall(&stages, "combining runs", Some(0.5)).unwrap();
    assert_eq!((k, n), (2, 4));
    assert!((f - 0.375).abs() < 1e-6);
    let ((k, _), f) = overall(&stages, "exporting", None).unwrap();
    assert_eq!(k, 4);
    assert!((f - 0.75).abs() < 1e-6);
    assert!(overall(&stages, "unknown", None).is_none());
    assert!(overall(&Vec::new(), "exporting", None).is_none());
}

#[test]
fn frame_counts_must_match() {
    let root = "/tmp/anm_test_frame_counts";
    let sample = format!("{root}/20260909_Run_29930_x_23");
    let ob = format!("{root}/20260909_Run_29902_x_ob_0");
    let nexus = format!("{root}/n.h5");
    let samples = vec![(sample.clone(), nexus.clone())];
    let obs = vec![(ob.clone(), nexus.clone())];
    let images = vec![(sample.clone(), 3), (ob.clone(), 2)];
    let err = check_frame_counts(&samples, &obs, &images).unwrap_err();
    assert!(err.contains("run 29930: 3 images"), "{err}");
    assert!(err.contains("run 29902: 2 images"), "{err}");
    let images = vec![(sample, 3), (ob, 3)];
    assert!(check_frame_counts(&samples, &obs, &images).is_ok());
}

#[test]
fn open_beams_are_read_back_from_a_job_log() {
    // Two launches: the first with one OB, the second (the one that
    // produced the result) with two — the last one counts.
    let log = "[2026-09-10T18:06:22Z] running: \"/py\" \"/s.py\" \"--config\" \"/c.h5\" \
         \"--sample\" \"/x/Run_1_s\" \"--sample-nexus\" \"/n/1.h5\" \"--ob\" \"/ob/Run_5_ob_0\" \
         \"--ob-nexus\" \"/n/5.h5\"\n  | some output\n\
         [2026-09-10T18:09:00Z] running: \"/py\" \"/s.py\" \"--ob\" \"/ob/Run_7_ob_0\" \
         \"--ob-nexus\" \"/n/7.h5\" \"--ob\" \"/ob/with space/Run_8_ob_1\" \"--ob-nexus\" \"/n/8.h5\"\n\
         [2026-09-10T18:10:00Z] done\n";
    let launch = launch_from_log(log).unwrap();
    assert_eq!(launch.config, None);
    assert_eq!(launch.obs, strings(&["/ob/Run_7_ob_0", "/ob/with space/Run_8_ob_1"]));
    // No running line → None.
    assert!(launch_from_log("[t] nothing here\n").is_none());
    assert!(launch_from_log("").is_none());
}

#[test]
fn a_launch_is_read_back_from_its_own_log_line() {
    let spec = job("/r");
    let args = command_line(&spec, &spec.samples, &spec.obs);
    let quoted: Vec<String> = args.iter().map(|a| format!("\"{a}\"")).collect();
    let line = format!("[t] running: {}\n", quoted.join(" "));
    let launch = launch_from_log(&line).unwrap();
    assert_eq!(launch.config.as_deref(), Some("/cfg/normalization_config_x.h5"));
    assert_eq!(launch.obs, strings(&["/c/ob/Run_30338_ob_0", "/c/ob/Run_30339_ob_0"]));
    assert_eq!(launch.obs, spec.ob_folders());
    assert_eq!(staging_folder(&spec), "/r/20260921_Run_30340_s_0/normalization.partial");
    assert!(args.contains(&staging_folder(&spec)), "{args:?}");
}

#[test]
fn output_is_done_needs_a_tiff() {
    assert!(!output_is_done(&Vec::new()));
    assert!(!output_is_done(&strings(&["logs.txt"])));
    assert!(output_is_done(&strings(&["logs.txt", "Run_23642_0001.tiff"])));
}

#[test]
fn output_dir_follows_the_layout() {
    assert_eq!(
        output_dir("/SNS/VENUS/IPTS-1", 23644, 5),
        "/SNS/VENUS/IPTS-1/shared/autoreduce/normalized/rolling/anchor_23644/last_5min"
    );
}

#[test]
fn open_beams_resolve_to_their_nexus_files() {
    let mut info = config_info(None);
    assert!(resolve_obs("/SNS/VENUS/IPTS-1", &info).is_err());
    info.ob_folders = strings(&[
        "/SNS/VENUS/IPTS-2/shared/autoreduce/images/tpx1/ob/a/Run_5_ob_0",
        "/data/elsewhere/Run_6_ob_0",
    ]);
    assert_eq!(
        resolve_obs("/SNS/VENUS/IPTS-1", &info).unwrap(),
        vec![
            (
                "/SNS/VENUS/IPTS-2/shared/autoreduce/images/tpx1/ob/a/Run_5_ob_0".to_owned(),
                "/SNS/VENUS/IPTS-2/nexus/VENUS_5.nxs.h5".to_owned()
            ),
            (
                "/data/elsewhere/Run_6_ob_0".to_owned(),
                "/SNS/VENUS/IPTS-1/nexus/VENUS_6.nxs.h5".to_owned()
            ),
        ]
    );
    info.ob_folders = strings(&["/data/no_number"]);
    assert!(resolve_obs("/SNS/VENUS/IPTS-1", &info).is_err());
}

#[test]
fn a_window_waits_for_corrected_data() {
    let mut info = config_info(None);
    info.ob_folders = strings(&["/SNS/VENUS/IPTS-1/ob/Run_5_ob_0"]);
    let folder = "/SNS/VENUS/IPTS-1/shared/autoreduce/images/tpx1/raw/x_Run_10_s_0";
    let nothing = Seen { nexus: vec![], raw: vec![], corrected: vec![] };
    let seen = Seen {
        nexus: vec![10],
        raw: vec![],
        corrected: vec![FolderSeen {
            run: 10,
            path: folder.to_owned(),
            names: strings(&["a.tif", "a_Spectra.txt", "summary.json"]),
            spectra: Some("h\n1\n".to_owned()),
        }],
    };
    let earlier = "/SNS/VENUS/IPTS-1/shared/autoreduce/images/tpx1/raw/x_Run_9_s_0";
    let both = Seen {
        nexus: vec![9, 10],
        raw: vec![],
        corrected: [(9, earlier), (10, folder)]
            .iter()
            .map(|(run, path)| FolderSeen {
                run: *run,
                path: path.to_string(),
                names: strings(&["a.tif", "a_Spectra.txt", "summary.json"]),
                spectra: Some("h\n1\n".to_owned()),
            })
            .collect(),
    };
    let images = vec![
        (folder.to_owned(), 1),
        (earlier.to_owned(), 1),
        ("/SNS/VENUS/IPTS-1/ob/Run_5_ob_0".to_owned(), 1),
    ];
    let mut w = Window::new(15);
    let prepare = |w: &Window, seen: &Seen| {
        prepare_job(1, w, "/SNS/VENUS/IPTS-1", "/c.h5", &info, seen, &images)
    };
    assert_eq!(prepare(&w, &seen).err().as_deref(), Some("no run in the window"));
    w.runs = vec![9, 10];
    assert_eq!(
        prepare(&w, &nothing).err().as_deref(),
        Some("no corrected data yet for run(s) 9, 10")
    );
    // Every run must be there.
    assert_eq!(
        prepare(&w, &seen).err().as_deref(),
        Some("no corrected data yet for run(s) 9")
    );
    let spec = prepare(&w, &both).unwrap();
    assert_eq!(spec.target, JobTarget::Window(1));
    assert_eq!(spec.runs, vec![9, 10]);
    let folders: Vec<&str> = spec.samples.iter().map(|(f, _)| f.as_str()).collect();
    assert_eq!(folders, vec![earlier, folder]);
    assert_eq!(
        spec.output,
        "/SNS/VENUS/IPTS-1/shared/autoreduce/normalized/rolling/anchor_10/last_15min"
    );
    assert_eq!(
        spec.log,
        "/SNS/VENUS/IPTS-1/shared/autoreduce/normalized/rolling/anchor_10/logs/last_15min.log"
    );
    assert_eq!(spec.what, "Runs 9, 10 (last 15 min window)");
    let one = prepare_run_job(
        10,
        folder,
        "/SNS/VENUS/IPTS-1",
        "/c.h5",
        &info,
        &images,
        &Vec::new(),
        &Vec::new(),
    )
    .unwrap();
    assert_eq!(one.target, JobTarget::Run(10));
    assert_eq!(one.what, "Run 10");
    assert_eq!(
        one.output(),
        "/SNS/VENUS/IPTS-1/shared/autoreduce/normalized/x_Run_10_s_0/normalization"
    );
    assert_eq!(
        one.summary,
        format!("/SNS/VENUS/IPTS-1/shared/autoreduce/normalized/{SUMMARY_LOG}")
    );
    assert_eq!(one.config(), "/c.h5");
}

#[test]
fn the_last_eight_lines_are_kept_for_the_error() {
    let mut tail = Vec::new();
    for i in 0..10 {
        match react(&format!("line {i}"), &mut tail) {
            Reaction::Output { shown } => assert!(shown),
            _ => panic!("plain output"),
        }
    }
    assert_eq!(tail.len(), 8);
    assert_eq!(tail[0], "line 2");
    assert!(matches!(react("   ", &mut tail), Reaction::Output { shown: false }));
    assert!(matches!(react("STAGES a|b", &mut tail), Reaction::Stages(_)));
    match react("PROGRESS 1/2 loading", &mut tail) {
        Reaction::Progress { stage, counts } => {
            assert_eq!((stage.as_str(), counts.done.as_str(), counts.total.as_str()), ("loading", "1", "2"));
        }
        _ => panic!("progress"),
    }
    assert_eq!(tail.len(), 8);
    assert_eq!(tail[7], "line 9");
}

#[test]
fn kills_by_the_system_are_told_from_other_failures() {
    let tail = strings(&["last words"]);
    let killed = failure_message(true, "signal: 9 (SIGKILL)", &tail);
    assert!(killed_by_system(&killed), "{killed}");
    assert!(killed.contains("last words"), "{killed}");
    let failed = failure_message(false, "exit status: 1", &tail);
    assert!(!killed_by_system(&failed), "{failed}");
    assert!(failed.contains("exit status: 1"), "{failed}");
}

#[test]
fn wall_clocks_stay_within_the_calendar() {
    assert_eq!(started().clock_text(), "2026-09-24 10:12:03");
    assert_eq!(LocalTime::new(0, 0, 0).unwrap().clock_text(), "1970-01-01 00:00:00");
    assert!(LocalTime::new(i64::MAX, 0, 0).is_none());
    assert!(LocalTime::new(0, 2_000_000_000, 0).is_none());
    assert!(LocalTime::new(0, 0, 86_400).is_none());
    assert_eq!(parse_moment("1970-01-01T01:00:00+01:00"), Some(Moment { secs: 0, nanos: 0 }));
    assert_eq!(parse_moment("1970-01-01 01:00:00"), None);
}

#[test]
fn leap_seconds_are_shown_and_counted() {
    // 2016-12-31T23:59:60Z, and the second before and after it.
    let leap = LocalTime::new(1483228799, 1_000_000_000, 0).unwrap();
    assert_eq!(leap.clock_text(), "2016-12-31 23:59:60");
    let behind = LocalTime::new(1483228799, 1_500_000_000, -5 * 3600).unwrap();
    assert_eq!(behind.clock_text(), "2016-12-31 18:59:60");
    // Only the last second of a minute can be followed by one.
    assert!(LocalTime::new(1483228798, 1_000_000_000, 0).is_none());
    let before = LocalTime::new(1483228790, 0, 0).unwrap();
    assert_eq!(seconds_between(&before, &leap), 10);
    assert_eq!(seconds_between(&leap, &before), -10);
    // 2015-06-30T12:34:60Z, and ten seconds into the next minute.
    let noon = LocalTime::new(1435667699, 1_000_000_000, 0).unwrap();
    let later = LocalTime::new(1435667710, 0, 0).unwrap();
    assert_eq!(noon.clock_text(), "2015-06-30 12:34:60");
    assert_eq!(seconds_between(&noon, &later), 11);
    assert_eq!(seconds_between(&later, &noon), -11);
}
