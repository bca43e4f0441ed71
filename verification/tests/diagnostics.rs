use convertbar::diagnostics::{
    diagnostic_headline, empty_output_error_message, error_message_from_tail, keep_tail,
    message_with_tail, promote_stored_diagnostic, read_bounded_tail, reads_like_failure,
    ERROR_TAIL_LINES, STDERR_TAIL_BYTES,
};

fn chunks(text: &str) -> Vec<Vec<u8>> {
    text.as_bytes().chunks(4096).map(|c| c.to_vec()).collect()
}

#[test]
fn read_bounded_tail_keeps_only_the_end_of_a_flood() {
    let flood = format!("{}THE-ACTUAL-ERROR", "noise\n".repeat(10_000));
    let tail = read_bounded_tail(&chunks(&flood));
    assert!(tail.len() <= STDERR_TAIL_BYTES);
    assert!(
        tail.ends_with("THE-ACTUAL-ERROR"),
        "the most recent output must survive the truncation"
    );
}

#[test]
fn a_tail_is_the_end_of_what_was_read() {
    let mut tail: Vec<u8> = Vec::new();
    keep_tail(&mut tail, &vec![1u8; 4000]);
    assert_eq!(tail.len(), 4000);
    keep_tail(&mut tail, &vec![2u8; 200]);
    assert_eq!(tail.len(), 4096);
    assert_eq!(tail[3895], 1);
    assert_eq!(tail[3896], 2);
}

#[test]
fn bytes_that_are_no_text_are_replaced() {
    assert_eq!(
        read_bounded_tail(&vec![vec![b'a', 0xff, b'b']]),
        "a\u{fffd}b"
    );
}

#[test]
fn error_message_from_tail_falls_back_to_the_generic_message() {
    assert_eq!(error_message_from_tail(""), "Conversion failed");
    assert_eq!(error_message_from_tail("\n  \n"), "Conversion failed");
}

#[test]
fn error_message_from_tail_keeps_the_last_informative_lines() {
    let tail = (1..=30)
        .map(|i| format!("line {i}"))
        .collect::<Vec<_>>()
        .join("\n\n");
    let msg = error_message_from_tail(&tail);
    assert!(
        msg.starts_with("Conversion failed:\n"),
        "the generic prefix keeps existing UI copy meaningful"
    );
    assert!(
        !msg.contains("line 10\n") && msg.contains("line 11") && msg.ends_with("line 30"),
        "only the last {ERROR_TAIL_LINES} non-empty lines belong in the history entry"
    );
}

#[test]
fn error_message_from_tail_leads_with_the_diagnostic_not_the_banner() {
    let tail = "\
[22:35:20] Compile-time hardening features are enabled
[22:35:20] hb_init: starting libhb thread
HandBrake 1.11.2 (2026060700) - Darwin arm64 - https://handbrake.fr
10 CPUs detected
Opening /movies/clip.mp4...
[mov,mp4,m4a,3gp,3g2,mj2 @ 0x0] moov atom not found
[22:35:21] scan: unrecognized file type
No title found.
HandBrake has exited.";
    let msg = error_message_from_tail(tail);
    let headline = msg.lines().next().unwrap();
    assert!(
        headline.contains("moov atom not found"),
        "the first line must surface the root-cause diagnostic, got: {headline:?}"
    );
    assert!(
        !headline.to_lowercase().contains("hardening"),
        "the benign build banner must never be the headline, got: {headline:?}"
    );
    assert!(msg.contains("No title found."));
}

#[test]
fn error_message_from_tail_surfaces_common_handbrake_failures() {
    let cases = [
        (
            "[libavformat] Unsupported color space",
            "Unsupported color space",
        ),
        (
            "Error opening output: Read-only file system",
            "Read-only file system",
        ),
        (
            "Failed to create /out/x.mp4: Operation not permitted",
            "Operation not permitted",
        ),
        (
            "Opening /gone.mp4: No such file or directory",
            "No such file or directory",
        ),
        ("[22:00:00] sync: track failed, encode aborted", "aborted"),
        ("mp4 muxer: fatal: could not write header", "fatal"),
        ("[matroska] corrupt input near sample 42", "corrupt"),
    ];
    for (error_line, expected) in cases {
        let tail = format!(
            "[00:00:00] Compile-time hardening features are enabled\n\
             HandBrake 1.11.2 - Darwin arm64\n\
             10 CPUs detected\n\
             {error_line}\n\
             HandBrake has exited.",
        );
        let headline = error_message_from_tail(&tail)
            .lines()
            .next()
            .unwrap()
            .to_string();
        assert!(
            headline.contains(expected),
            "headline should surface {expected:?}, got: {headline:?}"
        );
        assert!(
            !headline.to_lowercase().contains("hardening"),
            "the build banner must never win, got: {headline:?}"
        );
    }
}

#[test]
fn promote_stored_diagnostic_rewrites_old_banner_first_messages() {
    let old = "Conversion failed:\n\
               [00:00:00] Compile-time hardening features are enabled\n\
               [mov] moov atom not found\n\
               No title found.";
    let promoted =
        promote_stored_diagnostic(old).expect("a banner-first legacy row should be rewritten");
    assert_eq!(
        promoted.lines().next().unwrap(),
        "Conversion failed: [mov] moov atom not found"
    );
    assert!(promoted.contains("No title found."), "detail is preserved");
    assert_eq!(promote_stored_diagnostic(&promoted), None);
}

#[test]
fn promote_stored_diagnostic_leaves_foreign_messages_untouched() {
    assert_eq!(
        promote_stored_diagnostic("Conversion failed: moov atom not found\nmoov atom not found"),
        None
    );
    assert_eq!(promote_stored_diagnostic("Conversion failed"), None);
    assert_eq!(
        promote_stored_diagnostic("Conversion failed:\nScanning title 1\nOpening file"),
        None
    );
    assert_eq!(
        promote_stored_diagnostic(
            "Conversion produced an empty output file:\nbanner\nNo space left on device"
        )
        .unwrap()
        .lines()
        .next()
        .unwrap(),
        "Conversion produced an empty output file: No space left on device"
    );
}

#[test]
fn empty_output_error_message_carries_the_stderr_tail() {
    assert_eq!(
        empty_output_error_message(""),
        "Conversion produced an empty output file"
    );
    let msg = empty_output_error_message("scan: No title found\n");
    assert!(msg.starts_with("Conversion produced an empty output file:"));
    assert!(msg.contains("No title found"));
}

#[test]
fn a_message_is_its_headline_over_the_lines() {
    assert_eq!(
        message_with_tail("Oops", "one\n\ntwo ERROR\nthree"),
        "Oops: two ERROR\none\ntwo ERROR\nthree"
    );
    assert_eq!(message_with_tail("Oops", "one\ntwo"), "Oops:\none\ntwo");
}

#[test]
fn the_first_line_that_reads_like_a_failure_is_the_headline() {
    let lines = vec![
        "starting".to_string(),
        "permission DENIED".to_string(),
        "an error".to_string(),
    ];
    assert_eq!(
        diagnostic_headline(&lines),
        Some("permission DENIED".to_string())
    );
    assert_eq!(diagnostic_headline(&vec!["all is well".to_string()]), None);
    assert!(reads_like_failure("No Space Left on device"));
    assert!(!reads_like_failure("Compile-time hardening"));
}
