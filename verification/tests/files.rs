//! Run lists, folder names, folder completeness, run folders.

use autonormalization_monitor::files::{
    acquisition_name, check_runs, folder_complete, latest_nexus_run, list_nexus_runs, nexus_path,
    parse_run_list, run_number_in_name, scan_roots, scan_run_dirs, spectra_file, spectra_rows,
    starting_wavelength_in_name, tiff_count, Entry, FileStatus, FolderKind, FolderSeen, Seen,
    MAX_SCAN_DEPTH,
};

fn strings(v: &[&str]) -> Vec<String> {
    v.iter().map(|s| s.to_string()).collect()
}

#[test]
fn acquisition_name_drops_the_run_prefix_and_the_index() {
    assert_eq!(
        acquisition_name("20260921_Run_30340_reptRib_PFV468_2_900C_3_000AngsMin_0").as_deref(),
        Some("reptRib_PFV468_2_900C_3_000AngsMin")
    );
    assert_eq!(
        acquisition_name("20260613_Run_23642_LF99D_Rnd2_Coarsen_0_416C_0_000AngsMin_12").as_deref(),
        Some("LF99D_Rnd2_Coarsen_0_416C_0_000AngsMin")
    );
    // Open beams have the `_ob_<i>` tail: the `_<i>` goes, `ob` stays.
    assert_eq!(
        acquisition_name("20260921_Run_30339_ob__2_900C_3_000AngsMin_ob_0").as_deref(),
        Some("ob__2_900C_3_000AngsMin_ob")
    );
    assert_eq!(acquisition_name("Run_7"), None);
    assert_eq!(acquisition_name("something_else"), None);
}

#[test]
fn parses_run_lists() {
    assert_eq!(parse_run_list("23642").unwrap(), vec![23642]);
    assert_eq!(
        parse_run_list("23615-23618, 23642").unwrap(),
        vec![23615, 23616, 23617, 23618, 23642]
    );
    // Spaces as separators, duplicates removed, output sorted.
    assert_eq!(parse_run_list("5 3 4-5").unwrap(), vec![3, 4, 5]);
    assert_eq!(parse_run_list("").unwrap(), Vec::<u64>::new());
    assert!(parse_run_list("abc").is_err());
    assert!(parse_run_list("10-5").is_err());
    assert!(parse_run_list("1-999999999").is_err());
}

#[test]
fn run_list_messages_name_the_first_bad_token() {
    assert_eq!(
        parse_run_list("7, abc, 9-x").unwrap_err(),
        "cannot parse 'abc' — expected run numbers like 23642 or 23615-23620"
    );
    assert_eq!(parse_run_list("10-5").unwrap_err(), "invalid range '10-5'");
    assert_eq!(parse_run_list("1-10002").unwrap_err(), "invalid range '1-10002'");
    assert_eq!(parse_run_list("1-10001").unwrap().len(), 10001);
    assert!(parse_run_list("18446744073709551616").is_err());
}

#[test]
fn extracts_run_number_from_folder_names() {
    assert_eq!(
        run_number_in_name("20260613_Run_23642_LF99D_Rnd2_Coarsen_0"),
        Some(23642)
    );
    assert_eq!(run_number_in_name("Run_7"), Some(7));
    assert_eq!(run_number_in_name("no_run_here"), None);
    assert_eq!(run_number_in_name("Run_"), None);
}

fn wavelength(name: &str) -> Option<f64> {
    starting_wavelength_in_name(name).map(|w| w.parse::<f64>().unwrap())
}

#[test]
fn extracts_starting_wavelength_from_folder_names() {
    // Real IPTS-38902 names: an unrelated digit group (the "2_900C"
    // temperature) sits right before the wavelength token and must
    // not be picked up instead.
    assert_eq!(wavelength("20260921_Run_30338_ob__2_900C_0_700AngsMin_ob_0"), Some(0.7));
    assert_eq!(wavelength("20260921_Run_30339_ob__2_900C_3_000AngsMin_ob_0"), Some(3.0));
    assert_eq!(
        wavelength("20260921_Run_30340_reptVertMx_PFV089_2_900C_3_000AngsMin_0"),
        Some(3.0)
    );
    // Multi-digit integer part, no leading token.
    assert_eq!(wavelength("12_500AngsMin"), Some(12.5));
    // No token at all.
    assert_eq!(wavelength("20260430_OB_RT_1_393C_no_token_here"), None);
    assert_eq!(wavelength("AngsMin"), None);
}

/// Walk a tree of folders, given as (path, entries).
fn scan_tree(root: &str, wanted: &[u64], tree: &[(&str, &[(&str, bool)])]) -> Vec<(u64, String)> {
    let mut scan = scan_run_dirs(root, &wanted.to_vec());
    while let Some(dir) = scan.next() {
        let listing: Vec<Entry> = tree
            .iter()
            .find(|(path, _)| *path == dir)
            .map(|(_, entries)| {
                entries
                    .iter()
                    .map(|(name, is_dir)| Entry { name: name.to_string(), is_dir: *is_dir })
                    .collect()
            })
            .unwrap_or_default();
        scan.feed(&listing);
    }
    scan.found().clone()
}

#[test]
fn scans_nested_run_folders() {
    let tree: &[(&str, &[(&str, bool)])] = &[
        ("/anm_test_scan", &[("tpx1", true)]),
        ("/anm_test_scan/tpx1", &[("raw", true)]),
        ("/anm_test_scan/tpx1/raw", &[("radiography", true)]),
        ("/anm_test_scan/tpx1/raw/radiography", &[("20260613_title", true)]),
        (
            "/anm_test_scan/tpx1/raw/radiography/20260613_title",
            &[("20260613_Run_23642_title_0", true), ("20260613_Run_23643_title_1", true)],
        ),
    ];
    let found = scan_tree("/anm_test_scan", &[23642, 99999], tree);
    assert_eq!(
        found,
        vec![(
            23642,
            "/anm_test_scan/tpx1/raw/radiography/20260613_title/20260613_Run_23642_title_0"
                .to_owned()
        )]
    );
    // 23643 exists but was not asked for; 99999 does not exist.
    // Missing root: nothing, no error.
    assert!(scan_tree("/anm_test_scan/nope", &[23642, 99999], tree).is_empty());
}

#[test]
fn run_folders_sit_at_most_six_levels_below_the_root() {
    let tree: &[(&str, &[(&str, bool)])] = &[
        ("/r", &[("a", true)]),
        ("/r/a", &[("b", true)]),
        ("/r/a/b", &[("c", true)]),
        ("/r/a/b/c", &[("d", true)]),
        ("/r/a/b/c/d", &[("e", true)]),
        ("/r/a/b/c/d/e", &[("f", true), ("Run_8", true)]),
        ("/r/a/b/c/d/e/f", &[("Run_7", true)]),
    ];
    assert_eq!(MAX_SCAN_DEPTH, 6);
    assert!(scan_tree("/r", &[7], tree).is_empty());
    assert_eq!(
        scan_tree("/r", &[7, 8], tree),
        vec![(8, "/r/a/b/c/d/e/Run_8".to_owned())]
    );
    // One level nearer it is found.
    assert_eq!(
        scan_tree("/r/a", &[7], tree),
        vec![(7, "/r/a/b/c/d/e/f/Run_7".to_owned())]
    );
}

#[test]
fn scans_keep_the_first_folder_of_a_run_and_skip_files_and_hidden_entries() {
    let tree: &[(&str, &[(&str, bool)])] = &[
        (
            "/r",
            &[
                (".Run_5_hidden", true),
                ("x_Run_5_file", false),
                ("a", true),
                ("x_Run_5_b", true),
            ],
        ),
        ("/r/a", &[("x_Run_5_a", true)]),
        ("/r/a/x_Run_5_a", &[("x_Run_6_inside", true)]),
    ];
    assert_eq!(
        scan_tree("/r", &[5, 6], tree),
        vec![(5, "/r/a/x_Run_5_a".to_owned())]
    );
    // Nothing wanted: nothing is even listed.
    assert!(scan_run_dirs("/r", &Vec::new()).next().is_none());
}

#[test]
fn finds_the_latest_nexus_run() {
    // Missing / empty nexus folder → None.
    assert_eq!(latest_nexus_run(&Vec::new()), None);
    let names = strings(&["VENUS_23641.nxs.h5", "VENUS_23642.nxs.h5", "unrelated.txt"]);
    assert_eq!(latest_nexus_run(&names), Some(23642));
    assert_eq!(list_nexus_runs(&names), vec![23641, 23642]);
}

#[test]
fn nexus_files_lie_in_the_nexus_folder() {
    assert_eq!(
        nexus_path("/SNS/VENUS/IPTS-1", 23642),
        "/SNS/VENUS/IPTS-1/nexus/VENUS_23642.nxs.h5"
    );
    assert_eq!(
        scan_roots("/SNS/VENUS/IPTS-1"),
        (
            "/SNS/VENUS/IPTS-1/images".to_owned(),
            "/SNS/VENUS/IPTS-1/shared/autoreduce/images".to_owned()
        )
    );
    // What the run's file is called is what the listing finds.
    assert_eq!(list_nexus_runs(&strings(&["VENUS_9.nxs.h5", "VENUS_10.nxs.h5"])), vec![9, 10]);
    assert_eq!(list_nexus_runs(&strings(&["VENUS_.nxs.h5", "SNAP_9.nxs.h5"])), Vec::<u64>::new());
}

fn raw11(frames: &[&str]) -> FolderSeen {
    let mut names = strings(frames);
    names.push("20260101_Run_11_t_0_SummedImg.fits".to_owned());
    names.push("20260101_Run_11_t_0_Spectra.txt".to_owned());
    FolderSeen {
        run: 11,
        path: "/ipts/images/tpx1/raw/radiography/t/20260101_Run_11_t_0".to_owned(),
        names,
        spectra: Some("0.0003\t0\r\n0.0004\t5\r\n".to_owned()),
    }
}

fn corr12(names: &[&str]) -> FolderSeen {
    FolderSeen {
        run: 12,
        path: "/ipts/shared/autoreduce/images/tpx1/raw/radiography/t/20260101_Run_12_t_0"
            .to_owned(),
        names: strings(names),
        spectra: Some("shutter_time,counts\n3.0e-4,0\n4.0e-4,5\n".to_owned()),
    }
}

#[test]
fn checks_runs_inside_an_ipts_layout() {
    // Complete raw folder: 2 frames + the SummedImg, a headerless
    // Spectra file with 2 rows.
    let frames = ["20260101_Run_11_t_0_00000.fits", "20260101_Run_11_t_0_00001.fits"];
    // Still being written: one of two images and the Spectra file
    // (header + 2 rows), no summary.json yet.
    let seen = Seen {
        nexus: vec![11],
        raw: vec![raw11(&frames)],
        corrected: vec![corr12(&[
            "20260101_Run_12_t_0_00000.tif",
            "20260101_Run_12_t_0_Spectra.txt",
        ])],
    };
    let status = check_runs("/ipts", &vec![11, 12], &seen);
    assert_eq!(status.len(), 2);
    assert!(matches!(status[0].nexus, FileStatus::Present(_)));
    assert!(matches!(status[0].raw, FileStatus::Present(_)));
    assert!(matches!(status[0].corrected, FileStatus::Missing(_)));
    assert!(matches!(status[1].nexus, FileStatus::Missing(_)));
    assert!(matches!(status[1].raw, FileStatus::Missing(_)));
    assert!(matches!(status[1].corrected, FileStatus::Writing(_)));
    // The reduction finishes: summary.json lands, but one image is
    // still missing versus the Spectra rows → not complete.
    let short = corr12(&[
        "20260101_Run_12_t_0_00000.tif",
        "20260101_Run_12_t_0_Spectra.txt",
        "summary.json",
    ]);
    assert!(!folder_complete(&short.names, FolderKind::Corrected, &short.spectra));
    let full = corr12(&[
        "20260101_Run_12_t_0_00000.tif",
        "20260101_Run_12_t_0_Spectra.txt",
        "summary.json",
        "20260101_Run_12_t_0_00001.tif",
    ]);
    let seen = Seen { nexus: vec![], raw: vec![], corrected: vec![full] };
    let status = check_runs("/ipts", &vec![12], &seen);
    assert!(matches!(status[0].corrected, FileStatus::Present(_)));
    // An empty folder is being written too, not complete.
    assert!(!folder_complete(&Vec::new(), FolderKind::Corrected, &None));
    // Raw: frames (SummedImg excluded) must match the rows; one frame
    // short → still writing.
    let whole = raw11(&frames);
    assert!(folder_complete(&whole.names, FolderKind::Raw, &whole.spectra));
    let short = raw11(&frames[..1]);
    assert!(!folder_complete(&short.names, FolderKind::Raw, &short.spectra));
    assert_eq!(spectra_rows("0.0003\t0\r\n0.0004\t5\r\n"), 2);
    assert_eq!(spectra_rows("shutter_time,counts\n3.0e-4,0\n4.0e-4,5\n"), 2);
    // Either sign, or a dot, starts a data row; blank lines do not count.
    assert_eq!(spectra_rows("-1 0\n  +1 0\n.5 0\n\n# 7\n"), 3);
}

#[test]
fn missing_files_name_where_they_are_expected() {
    let seen = Seen { nexus: vec![], raw: vec![], corrected: vec![] };
    let status = check_runs("/ipts", &vec![12], &seen);
    let expected = |s: &FileStatus| match s {
        FileStatus::Missing(path) => path.clone(),
        other => panic!("{other:?}"),
    };
    assert_eq!(expected(&status[0].nexus), "/ipts/nexus/VENUS_12.nxs.h5");
    assert_eq!(expected(&status[0].raw), "/ipts/images/**/*Run_12*");
    assert_eq!(
        expected(&status[0].corrected),
        "/ipts/shared/autoreduce/images/**/*Run_12*"
    );
    assert!(matches!(status[0].corrected.copy(), FileStatus::Missing(_)));
}

#[test]
fn tiffs_and_spectra_are_told_by_their_names() {
    let names = strings(&["a.tif", "b.TIFF", "c.tiff", "d.txt", "x_Spectra.txt", "tif"]);
    assert_eq!(tiff_count(&names), 3);
    assert_eq!(spectra_file(&names).as_deref(), Some("x_Spectra.txt"));
    assert_eq!(spectra_file(&strings(&["a.tif"])), None);
}
