//! Reduction logs and the notebook.

use autonormalization_monitor::clock::Moment;
use autonormalization_monitor::notebook::{is_cache, provision, served_url, NOTEBOOK_PATH};
use autonormalization_monitor::runs::{folders_from_log, last_runs, parse_file_name, LogFile};

#[test]
fn parses_log_and_err_names() {
    let parse = |name: &str| parse_file_name(name);
    assert_eq!(parse("VENUS_20343.nxs.h5.err"), Some((20343, "err".to_owned())));
    assert_eq!(parse("VENUS_23642.nxs.h5.log"), Some((23642, "log".to_owned())));
    assert_eq!(parse("VENUS_23642.nxs.h5"), None);
    assert_eq!(parse("SNAP_1.nxs.h5.log"), None);
    assert_eq!(parse("VENUS_abc.nxs.h5.log"), None);
}

#[test]
fn extracts_data_folders_from_log() {
    let folders = folders_from_log(
        "Parsing input\n\
         Writing data to /SNS/VENUS/IPTS-1/shared/autoreduce/images/run_1\n\
         Writing normalized data to /SNS/VENUS/IPTS-1/shared/autoreduce/normalized/run_1\n\
         run_number ='1'\n",
    );
    assert_eq!(
        folders.corrected.as_deref(),
        Some("/SNS/VENUS/IPTS-1/shared/autoreduce/images/run_1")
    );
    assert_eq!(
        folders.normalized.as_deref(),
        Some("/SNS/VENUS/IPTS-1/shared/autoreduce/normalized/run_1")
    );
    // Not-normalized run: only the corrected folder is present.
    let folders = folders_from_log("Writing data to /tmp/x\n");
    assert_eq!(folders.corrected.as_deref(), Some("/tmp/x"));
    assert!(folders.normalized.is_none());
    // No matching lines / unreadable log → empty folders.
    assert!(folders_from_log("").corrected.is_none());
}

fn log(name: &str, secs: i64) -> LogFile {
    LogFile {
        name: name.to_owned(),
        path: format!("/logs/{name}"),
        modified: Moment { secs, nanos: 0 },
    }
}

#[test]
fn groups_files_and_keeps_most_recent_runs() {
    // 25 runs with only a .log; run 25 also has an .err file.
    let mut files: Vec<LogFile> =
        (1..=25u64).map(|run| log(&format!("VENUS_{run}.nxs.h5.log"), 7)).collect();
    files.push(log("VENUS_25.nxs.h5.err", 7));
    files.push(log("unrelated.txt", 7));

    let runs = last_runs(&files, 20);
    assert_eq!(runs.len(), 20);
    // All files share the same mtime, so the run-number tiebreak applies:
    // the 20 highest run numbers survive, newest (highest) first.
    assert_eq!(runs[0].run_number, 25);
    assert!(runs.iter().all(|r| r.run_number >= 6));
    // Run 25's .log and .err were grouped into a single entry.
    assert!(runs[0].log_path.is_some());
    assert!(runs[0].err_path.is_some());
    let run6 = runs.iter().find(|r| r.run_number == 6).unwrap();
    assert!(run6.log_path.is_some());
    assert!(run6.err_path.is_none());
}

#[test]
fn the_most_recent_file_of_a_run_dates_it() {
    let files = vec![
        log("VENUS_1.nxs.h5.log", 10),
        log("VENUS_2.nxs.h5.log", 20),
        log("VENUS_1.nxs.h5.err", 30),
    ];
    let runs = last_runs(&files, 5);
    assert_eq!(runs.iter().map(|r| r.run_number).collect::<Vec<_>>(), vec![1, 2]);
    assert_eq!(runs[0].mtime.secs, 30);
    assert_eq!(last_runs(&files, 1).len(), 1);
    assert!(last_runs(&files, 0).is_empty());
}

#[test]
fn notebooks_are_provisioned_per_user() {
    let p = provision("/SNS/VENUS/IPTS-1", "j35").unwrap();
    assert_eq!(p.dest, "/SNS/VENUS/IPTS-1/shared/notebooks/imaging_marimo_j35");
    assert_eq!(p.notebooks, "/SNS/VENUS/IPTS-1/shared/notebooks");
    assert_eq!(format!("{}/{}", p.sources, p.file_name), NOTEBOOK_PATH);
    assert!(is_cache("__pycache__"));
    assert!(!is_cache("utilities"));
    assert_eq!(
        served_url("  ➜  URL: http://localhost:2718?token=abc more").as_deref(),
        Some("http://localhost:2718?token=abc")
    );
    assert_eq!(served_url("starting"), None);
}
