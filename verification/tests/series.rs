//! Runs normalized together, and the default configuration.

use autonormalization_monitor::clock::Moment;
use autonormalization_monitor::files::{FileStatus, RunFiles};
use autonormalization_monitor::h5::RunKind;
use autonormalization_monitor::ipts::default_places;
use autonormalization_monitor::notebook::{launch_label, SESSION_VARIABLE};
use autonormalization_monitor::runmap::RunMap;
use autonormalization_monitor::series::{companions_of, gather_facts};

const ROOT: &str = "/SNS/VENUS/IPTS-1/shared/autoreduce/images/tpx1/raw";

fn folder(run: u64) -> String {
    format!("{ROOT}/20260921_Run_{run}_reptRib_2_900C_3_000AngsMin_0")
}

fn row(run: u64, corrected: FileStatus) -> RunFiles {
    RunFiles {
        run,
        nexus: FileStatus::Present(format!("/SNS/VENUS/IPTS-1/nexus/VENUS_{run}.nxs.h5")),
        raw: FileStatus::Missing("/SNS/VENUS/IPTS-1/images".to_owned()),
        corrected,
    }
}

fn times(runs: &[(u64, i64, i64)]) -> RunMap<(Moment, Moment)> {
    let mut out = RunMap::new();
    for (run, from, to) in runs {
        let start = Moment { secs: *from, nanos: 500_000_000 };
        let end = Moment { secs: *to, nanos: 250_000_000 };
        out.insert(*run, (start, end));
    }
    out
}

#[test]
fn rows_tell_how_long_their_runs_took() {
    let rows = vec![
        row(30340, FileStatus::Present(folder(30340))),
        row(30341, FileStatus::Writing(folder(30341))),
        row(30342, FileStatus::Present(folder(30342))),
        row(30343, FileStatus::Present(folder(30343))),
    ];
    let times = times(&[(30340, 100, 160), (30341, 200, 260), (30343, 400, 300)]);
    let mut charges = RunMap::new();
    charges.insert(30340, 77);
    let mut image_paths = RunMap::new();
    image_paths.insert(30343, "images/tpx1/ob/x".to_owned());
    let facts = gather_facts(&rows, &times, &charges, &vec![30341], &image_paths);
    assert_eq!(facts.len(), 4);
    assert_eq!(facts[0].run, 30340);
    assert_eq!(facts[0].kind, RunKind::Sample);
    assert!(!facts[0].rejected);
    assert_eq!(
        facts[0].folder_name.as_deref(),
        Some("20260921_Run_30340_reptRib_2_900C_3_000AngsMin_0")
    );
    assert_eq!(facts[0].duration, Some(59_750));
    assert_eq!(facts[0].charge, Some(77));
    // Corrected data still being written: no folder to go by.
    assert!(facts[1].rejected);
    assert_eq!(facts[1].folder_name, None);
    assert_eq!(facts[1].charge, None);
    // The NeXus file is not readable yet.
    assert_eq!(facts[2].folder_name, None);
    assert_eq!(facts[2].duration, None);
    // An end before the start is no duration.
    assert_eq!(facts[3].kind, RunKind::OpenBeam);
    assert_eq!(facts[3].duration, None);
}

#[test]
fn a_run_joins_the_runs_before_it() {
    let mut rows: Vec<RunFiles> = (30340..=30342)
        .map(|run| row(run, FileStatus::Present(folder(run))))
        .collect();
    let times = times(&[(30340, 100, 160), (30341, 200, 260), (30342, 300, 361)]);
    let charges = RunMap::new();
    let image_paths = RunMap::new();
    let rejected = Vec::new();
    let facts = gather_facts(&rows, &times, &charges, &rejected, &image_paths);
    assert_eq!(companions_of(&rows, &facts, 30340), None);
    assert_eq!(
        companions_of(&rows, &facts, 30341),
        Some(vec![(30340, folder(30340)), (30341, folder(30341))])
    );
    assert_eq!(companions_of(&rows, &facts, 30342).map(|m| m.len()), Some(3));
    // Not a run of the table.
    assert_eq!(companions_of(&rows, &facts, 1), None);
    // A rejected run is passed over.
    let facts = gather_facts(&rows, &times, &charges, &vec![30341], &image_paths);
    assert_eq!(
        companions_of(&rows, &facts, 30342),
        Some(vec![(30340, folder(30340)), (30342, folder(30342))])
    );
    // A run that is not complete yet breaks the series.
    rows[1].corrected = FileStatus::Writing(folder(30341));
    let facts = gather_facts(&rows, &times, &charges, &rejected, &image_paths);
    assert_eq!(companions_of(&rows, &facts, 30342), None);
}

#[test]
fn a_gap_in_the_run_numbers_breaks_a_series() {
    let rows: Vec<RunFiles> = [30340, 30342, 30343]
        .iter()
        .map(|run| row(*run, FileStatus::Present(folder(*run))))
        .collect();
    let times = times(&[(30340, 100, 160), (30342, 200, 260), (30343, 300, 360)]);
    let none = Vec::new();
    let facts = gather_facts(&rows, &times, &RunMap::new(), &none, &RunMap::new());
    assert_eq!(companions_of(&rows, &facts, 30342), None);
    assert_eq!(
        companions_of(&rows, &facts, 30343),
        Some(vec![(30342, folder(30342)), (30343, folder(30343))])
    );
}

#[test]
fn the_default_configuration_lies_with_its_results() {
    let (output, file) = default_places("/SNS/VENUS/IPTS-36967");
    assert_eq!(output, "/SNS/VENUS/IPTS-36967/shared/processed_data/autoreduction");
    assert_eq!(
        file,
        "/SNS/VENUS/IPTS-36967/shared/processed_data/autoreduction/default_normalization_config.h5"
    );
}

#[test]
fn the_notebook_opens_blank_or_with_the_selected_file() {
    assert_eq!(launch_label(false), "🚀 Create new configuration");
    assert_eq!(launch_label(true), "✏ Edit and/or replace current configuration");
    assert_eq!(SESSION_VARIABLE, "NORMALIZATION_TOF_CONFIG");
}
