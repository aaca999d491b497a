//! The shared configuration file.

use autonormalization_monitor::config::{read, set_activate, set_opt_in, write_full};

const SAMPLE: &str = "\
user_autoreduction_config_file: /SNS/VENUS/IPTS-1/shared/autoreduce/configs/config.h5
activate: false
ipts: IPTS-36967
last_modified: '2026-07-18 08:43:47'
last_modified_by: j35
";

const PATH: &str = "/tmp/autoreduction.cfg";

#[test]
fn read_parses_flag_and_entries() {
    let cfg = read(SAMPLE, PATH).unwrap();
    assert!(!cfg.activate);
    assert_eq!(cfg.entries.len(), 5);
    assert_eq!(cfg.entries[2], ("ipts".to_owned(), "IPTS-36967".to_owned()));
    // Quotes are stripped for display.
    assert_eq!(cfg.entries[3].1, "2026-07-18 08:43:47");
}

#[test]
fn python_style_true_is_accepted() {
    assert!(read("activate: True\n", PATH).unwrap().activate);
}

#[test]
fn set_activate_flips_flag_and_preserves_other_lines() {
    let content = set_activate(SAMPLE, PATH, true, "2026-09-24 10:12:03", "j35").unwrap();
    let cfg = read(&content, PATH).unwrap();
    assert!(cfg.activate);
    // Untouched lines are preserved byte-for-byte.
    assert!(content.contains(
        "user_autoreduction_config_file: /SNS/VENUS/IPTS-1/shared/autoreduce/configs/config.h5"
    ));
    assert!(content.contains("ipts: IPTS-36967"));
    // Bookkeeping lines were rewritten (timestamp changed, still quoted).
    assert!(content.contains("last_modified: '2026-"));
    assert!(!content.contains("last_modified: '2026-07-18 08:43:47'"));
}

#[test]
fn missing_activate_is_an_error() {
    assert!(read("ipts: IPTS-1\n", PATH).is_err());
    assert!(set_activate("ipts: IPTS-1\n", PATH, true, "2026-09-24 10:12:03", "j35").is_err());
}

#[test]
fn the_missing_flag_is_named_with_its_file() {
    let message = read("ipts: IPTS-1\n", PATH).unwrap_err();
    assert!(message.contains(PATH), "{message}");
    assert!(message.contains("activate"), "{message}");
    let again = set_activate("# activate: true\n", PATH, true, "t", "u").unwrap_err();
    assert!(again.contains(PATH), "{again}");
}

#[test]
fn truthy_values_of_both_styles() {
    for on in ["True", "true", "1", "yes", "on", "'true'", "\"True\"", " TRUE "] {
        assert!(read(&format!("activate: {on}\n"), PATH).unwrap().activate, "{on}");
    }
    for off in ["False", "0", "no", "off", "", "truely"] {
        assert!(!read(&format!("activate: {off}\n"), PATH).unwrap().activate, "{off}");
    }
}

#[test]
fn comments_blanks_and_lines_without_a_colon_are_no_entries() {
    let cfg = read("# a: b\n\nno colon here\n  activate : true  \nx: y: z\n", PATH).unwrap();
    assert!(cfg.activate);
    assert_eq!(
        cfg.entries,
        vec![
            ("activate".to_owned(), "true".to_owned()),
            ("x".to_owned(), "y: z".to_owned()),
        ]
    );
}

#[test]
fn the_last_line_of_a_key_counts() {
    let cfg = read("activate: true\nipts: IPTS-1\nactivate: false\nipts: IPTS-2\n", PATH).unwrap();
    assert!(!cfg.activate);
    assert_eq!(cfg.get("ipts"), Some("IPTS-2"));
    assert_eq!(cfg.get("nothing"), None);
}

#[test]
fn bookkeeping_is_rewritten_with_the_flag() {
    let content = set_activate(SAMPLE, PATH, true, "2026-09-24 10:12:03", "abc").unwrap();
    assert_eq!(
        content,
        "user_autoreduction_config_file: /SNS/VENUS/IPTS-1/shared/autoreduce/configs/config.h5\n\
         activate: true\n\
         ipts: IPTS-36967\n\
         last_modified: '2026-09-24 10:12:03'\n\
         last_modified_by: abc\n"
    );
}

#[test]
fn an_opt_in_is_added_or_toggled() {
    // The notebook-written file lacks the line: it is added.
    let on = set_opt_in(SAMPLE, "rolling_combine", true, "2026-09-24 10:12:03", "abc");
    let cfg = read(&on, PATH).unwrap();
    assert!(cfg.rolling_combine);
    assert!(!cfg.live_reduction);
    assert!(!cfg.activate);
    assert_eq!(cfg.get("ipts"), Some("IPTS-36967"));
    // Toggled in place afterwards.
    let off = set_opt_in(&on, "rolling_combine", false, "2026-09-24 10:13:00", "abc");
    assert!(!read(&off, PATH).unwrap().rolling_combine);
    assert_eq!(off.matches("rolling_combine").count(), 1);
}

#[test]
fn a_full_registration_reads_back() {
    let content = write_full(
        "IPTS-36967",
        "/SNS/VENUS/IPTS-36967/shared/autoreduce/c.h5",
        true,
        false,
        true,
        "2026-09-24 10:12:03",
        "j35",
    );
    let cfg = read(&content, PATH).unwrap();
    assert!(cfg.activate);
    assert!(!cfg.rolling_combine);
    assert!(cfg.live_reduction);
    assert_eq!(cfg.get("ipts"), Some("IPTS-36967"));
    assert_eq!(
        cfg.get("user_autoreduction_config_file"),
        Some("/SNS/VENUS/IPTS-36967/shared/autoreduce/c.h5")
    );
    assert_eq!(cfg.get("last_modified"), Some("2026-09-24 10:12:03"));
    assert_eq!(cfg.get("last_modified_by"), Some("j35"));
}

#[test]
fn a_flag_the_file_lacks_is_off() {
    let cfg = read("activate: true\ncombine_consecutive: yes\n", PATH).unwrap();
    assert!(cfg.is_on("combine_consecutive"));
    assert!(cfg.is_on("activate"));
    assert!(!cfg.is_on("live_reduction"));
}

#[test]
fn untouched_lines_keep_their_line_ends() {
    let content =
        set_activate("activate: false\r\nipts: IPTS-1\r\n", PATH, true, "t", "u").unwrap();
    assert_eq!(content, "activate: true\r\nipts: IPTS-1\r\n");
    // Mixed line ends, a comment, spaces, and no line end at the end.
    let content = set_activate(
        "# a \r\n\n  x : y  \nactivate: no\nlast_modified: 'z'\r\nipts: IPTS-1",
        PATH,
        true,
        "t",
        "u",
    )
    .unwrap();
    assert_eq!(
        content,
        "# a \r\n\n  x : y  \nactivate: true\nlast_modified: 't'\r\nipts: IPTS-1"
    );
    let on = set_opt_in("activate: no\r\nipts: IPTS-1\r\n", "live_reduction", true, "t", "u");
    assert_eq!(on, "activate: no\r\nipts: IPTS-1\r\nlive_reduction: true\n");
    let on = set_opt_in("activate: no", "live_reduction", true, "t", "u");
    assert_eq!(on, "activate: no\nlive_reduction: true\n");
    assert_eq!(set_opt_in("", "live_reduction", false, "t", "u"), "live_reduction: false\n");
}
