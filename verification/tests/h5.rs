//! NeXus files and session configurations, as plain values.

use autonormalization_monitor::clock::{clock_time, parse_moment, Moment};
use autonormalization_monitor::h5::{
    image_path_kind, nexus_image_path, nexus_times, nexus_zones, read_config_info,
    write_config_with_obs, write_default_config, RawConfig, RunKind, Write,
};
use autonormalization_monitor::timeline::{bar_span, TimelineBar};

fn some(s: &str) -> Option<String> {
    Some(s.to_owned())
}

#[test]
fn classifies_image_paths() {
    let alignment = |p: &str| image_path_kind(p) == RunKind::Alignment;
    assert!(alignment(
        "images/tpx1/alignment/20260910_x_10_000s/20260910_Run_29949_x_10_000s"
    ));
    assert!(alignment("images/tpx1/ALIGNMENT/foo   "));
    assert!(!alignment("images/tpx1/raw/radiography/20260910_t/20260910_Run_29955_t_0"));
    assert!(!alignment("images/tpx1/ob/20260910_ob/20260910_Run_29962_ob_0"));
    // A title mentioning alignment is not an alignment folder.
    assert!(!alignment("images/tpx1/raw/radiography/alignment_test/Run_1"));
    assert!(!alignment(""));
    // Open beams: the `ob` folder of the images tree, whatever the
    // case; a title mentioning ob is still a sample.
    assert_eq!(
        image_path_kind("images/tpx1/ob/20260910_ob/20260910_Run_29962_ob_0"),
        RunKind::OpenBeam
    );
    assert_eq!(image_path_kind("images/tpx1/OB/x/Run_1_ob_0"), RunKind::OpenBeam);
    assert_eq!(
        image_path_kind("images/tpx1/raw/radiography/20260910_t/20260910_Run_29955_t_0"),
        RunKind::Sample
    );
    assert_eq!(
        image_path_kind("images/tpx1/raw/ct/virgin_c_ob_1_185C/Run_29909_ob_0"),
        RunKind::Sample
    );
    assert_eq!(image_path_kind("images/tpx1/alignment/x/Run_1"), RunKind::Alignment);
    assert_eq!(image_path_kind(""), RunKind::Sample);
}

#[test]
fn the_last_image_folder_counts() {
    let values = |v: &[&str]| v.iter().map(|s| s.to_string()).collect::<Vec<_>>();
    // The log's first value is the previous run's folder — the last
    // one must be used; blank entries do not count.
    assert_eq!(
        nexus_image_path(&values(&["images/tpx1/raw/a", "images/tpx1/ob/b", "  "])).as_deref(),
        Some("images/tpx1/ob/b")
    );
    assert_eq!(nexus_image_path(&values(&["", " "])), None);
    assert_eq!(nexus_image_path(&Vec::new()), None);
}

#[test]
fn acquisition_times_need_both_ends() {
    let (start, end) = nexus_times(
        &some(" 2026-06-13T10:00:00.5-04:00 "),
        &some("2026-06-13T14:00:01Z"),
    )
    .unwrap();
    assert_eq!((start.secs, start.nanos), (1781359200, 500_000_000));
    assert_eq!((end.secs, end.nanos), (1781359201, 0));
    assert!(nexus_times(&some("2026-06-13T10:00:00-04:00"), &None).is_none());
    assert!(nexus_times(&None, &some("2026-06-13T10:00:00-04:00")).is_none());
    assert!(nexus_times(&some("yesterday"), &some("2026-06-13T10:00:00-04:00")).is_none());
}

#[test]
fn each_end_is_shown_on_its_own_clock() {
    let (start, end) = (some("2026-06-13T23:59:50.5-04:00"), some("2026-06-14T04:00:01Z"));
    let zones = nexus_zones(&start, &end).unwrap();
    assert_eq!(zones, (-4 * 3600, 0));
    let (from, to) = nexus_times(&start, &end).unwrap();
    let bar = TimelineBar { run: 5, start: from, end: to, out: None };
    assert_eq!(bar_span(&bar, zones), "23:59:50 – 04:00:01");
    assert_eq!(nexus_zones(&start, &None), None);
    assert_eq!(nexus_zones(&start, &some("later")), None);
    // Before 1970, and within a leap second.
    assert_eq!(clock_time(&Moment { secs: -1, nanos: 0 }, 0), "23:59:59");
    let leap = parse_moment("2016-12-31T23:59:60Z").unwrap();
    assert_eq!(clock_time(&leap, 0), "23:59:60");
}

/// The default configuration as a file would hold it, read back.
fn read_back(writes: &[Write]) -> RawConfig {
    let root = |key: &str| {
        writes.iter().find_map(|w| match w {
            Write::Text { at, name, value } if at.is_empty() && name == key => Some(value.clone()),
            _ => None,
        })
    };
    let no_folders = writes.iter().any(|w| match w {
        Write::NoTexts { at, name } => at == "ob" && name == "folders",
        _ => false,
    });
    RawConfig {
        ob_folders: if no_folders { Some(Vec::new()) } else { None },
        crop_region: None,
        output_folder: root("output_folder"),
        detector: root("detector"),
        parameters: Vec::new(),
    }
}

#[test]
fn writes_a_default_config_this_app_reads_back() {
    let output = "/tmp/anm_default_config_test/processed_data/autoreduction";
    let written = write_default_config("2026-09-24T10:12:03", "IPTS-36967", "tpx1", output);
    let info = read_config_info(&read_back(&written));
    assert!(info.ob_folders.is_empty());
    assert_eq!(info.crop_region, None);
    assert_eq!(info.output_folder.as_deref(), Some(output));
    assert_eq!(info.detector.as_deref(), Some("tpx1"));
    // Overwriting an existing file works too (a fresh copy per IPTS).
    let again = write_default_config("2026-09-24T10:12:03", "IPTS-36967", "tpx3", output);
    assert_eq!(read_config_info(&read_back(&again)).detector.as_deref(), Some("tpx3"));
}

#[test]
fn derives_a_config_with_other_open_beams() {
    let src =
        "/SNS/VENUS/IPTS-37705/shared/autoreduce/normalization_config_20260910_102311_last.h5";
    let obs = vec![
        "/SNS/VENUS/IPTS-37705/shared/autoreduce/images/tpx1/ob/a/Run_29962_ob_0".to_owned(),
        "/SNS/VENUS/IPTS-37705/shared/autoreduce/images/tpx1/ob/a/Run_29963_ob_1".to_owned(),
    ];
    let plan = write_config_with_obs(src, &obs, "29962, 29963", "2026-09-24T10:12:03").unwrap();
    assert_eq!(plan.folders, obs);
    let attr = |place: &str, key: &str| {
        plan.attributes.iter().find_map(|w| match w {
            Write::Text { at, name, value } if at == place && name == key => Some(value.clone()),
            _ => None,
        })
    };
    assert_eq!(attr("ob", "run_spec").as_deref(), Some("29962, 29963"));
    assert_eq!(attr("", "derived_from").as_deref(), Some(src));
    assert_eq!(attr("", "created").as_deref(), Some("2026-09-24T10:12:03"));
    assert_eq!(plan.attributes.len(), 3);
    // Read back from a copy: the new open beams, the rest as it was.
    let raw = |obs: &Vec<String>| RawConfig {
        ob_folders: Some(obs.clone()),
        crop_region: Some(vec![Some(1), Some(2), Some(30), Some(40)]),
        output_folder: some("/out"),
        detector: some("tpx1"),
        parameters: vec![],
    };
    let before = read_config_info(&raw(&vec!["/ob/Run_1_ob_0".to_owned()]));
    let after = read_config_info(&raw(&plan.folders));
    assert_eq!(after.ob_folders, obs);
    assert_ne!(before.ob_folders, after.ob_folders);
    assert_eq!(after.output_folder, before.output_folder);
    assert_eq!(after.detector, before.detector);
    assert_eq!(after.crop_region, before.crop_region);
    // No open beam → error.
    assert_eq!(
        write_config_with_obs(src, &Vec::new(), "", "t").err().as_deref(),
        Some("no open-beam folder to write")
    );
}

#[test]
fn crop_regions_need_four_numbers() {
    let raw = |crop: Option<Vec<Option<usize>>>| RawConfig {
        ob_folders: Some(vec!["/ob/Run_5".to_owned()]),
        crop_region: crop,
        output_folder: some(" "),
        detector: some("tpx1"),
        parameters: vec![("mode".to_owned(), "tof".to_owned())],
    };
    let info = read_config_info(&raw(Some(vec![Some(1), Some(2), Some(30), Some(40)])));
    assert_eq!(info.crop_region, Some((1, 2, 30, 40)));
    assert_eq!(info.ob_folders, vec!["/ob/Run_5".to_owned()]);
    assert_eq!(info.output_folder, None);
    assert_eq!(info.parameters, vec![("mode".to_owned(), "tof".to_owned())]);
    assert_eq!(read_config_info(&raw(Some(vec![Some(1), None, Some(30), Some(40)]))).crop_region, None);
    assert_eq!(read_config_info(&raw(Some(vec![Some(1), Some(2)]))).crop_region, None);
    assert_eq!(read_config_info(&raw(None)).crop_region, None);
    let copy = info.copy();
    assert_eq!(copy.crop_region, info.crop_region);
    assert_eq!(copy.ob_folders, info.ob_folders);
}
