use convertbar::failure_class::{
    classify, FailureClass, FailureFacts, CLASS_BAD_SOURCE, CLASS_BAD_SOURCE_PURGED,
    CLASS_BAD_SOURCE_TRUNCATED,
};
use convertbar::media_skip::{
    copy_media, efficiency_rank, meets_target, target_height_from_resolution, SourceMedia,
};


const SCAN_OPEN_FAILED: &str = r#"Opening subject.mkv...
[10:04:13] hb_scan: path=subject.mkv, title_index=1
[10:04:13] hb_stream_open: open subject.mkv failed
[10:04:13] scan: unrecognized file type
[10:04:13] libhb: scan thread found 0 valid title(s)
No title found.
"#;

const INVALID_PRESET: &str = r#"[10:04:12] hb_init: starting libhb thread
Invalid preset No Such Preset 9000
Valid presets are:
"#;

const WORK_RESULT_3: &str = r#"[10:01:06] libhb: work result = 3

Encode failed (error 3).
HandBrake has exited.
"#;

fn facts<'a>(exit: Option<i32>, readable: bool, tail: &'a str) -> FailureFacts<'a> {
    FailureFacts {
        exit_code: exit,
        source_readable: readable,
        stderr_tail: tail,
    }
}

#[test]
fn readability_is_the_only_thing_separating_corrupt_from_unreadable() {
    assert_eq!(
        classify(&facts(Some(2), true, SCAN_OPEN_FAILED)),
        FailureClass::BadSource,
        "we opened the file ourselves, so HandBrake failing to scan it means the file is bad"
    );
    assert_eq!(
        classify(&facts(Some(2), false, SCAN_OPEN_FAILED)),
        FailureClass::Environment,
        "we could NOT open it, so the identical HandBrake output proves nothing about the file"
    );
}

#[test]
fn invalid_preset_is_environment_despite_exit_2() {
    assert_eq!(
        classify(&facts(Some(2), true, INVALID_PRESET)),
        FailureClass::Environment
    );
}

#[test]
fn exit_3_is_always_environment() {
    assert_eq!(
        classify(&facts(Some(3), true, WORK_RESULT_3)),
        FailureClass::Environment
    );
}

#[test]
fn unrecognized_failures_are_unknown_and_never_destructive() {
    assert_eq!(
        classify(&facts(Some(1), true, "something went sideways")),
        FailureClass::Unknown
    );
    assert_eq!(classify(&facts(None, true, "")), FailureClass::Unknown);
    assert_eq!(
        classify(&facts(Some(2), true, "some unfamiliar diagnostic")),
        FailureClass::Unknown
    );
    assert_eq!(
        classify(&facts(Some(0), true, SCAN_OPEN_FAILED)),
        FailureClass::Unknown
    );
}

#[test]
fn stored_strings_are_pinned() {
    assert_eq!(FailureClass::BadSource.as_str(), "bad_source");
    assert_eq!(
        FailureClass::BadSourceTruncated.as_str(),
        "bad_source_truncated"
    );
    assert_eq!(FailureClass::Environment.as_str(), "environment");
    assert_eq!(FailureClass::Unknown.as_str(), "unknown");
    assert_eq!(CLASS_BAD_SOURCE, "bad_source");
    assert_eq!(CLASS_BAD_SOURCE_TRUNCATED, "bad_source_truncated");
    assert_eq!(CLASS_BAD_SOURCE_PURGED, "bad_source_purged");
    assert_ne!(
        FailureClass::Unknown.as_str(),
        "",
        "Unknown must never serialize to NULL/empty — NULL means 'predates this feature'"
    );
}


#[test]
fn efficiency_rank_buckets_codecs() {
    for c in ["av1", "h265", "vp9"] {
        assert_eq!(efficiency_rank(c), Some(3), "codec {c}");
    }
    assert_eq!(efficiency_rank("h264"), Some(2));
    for c in ["mpeg2", "mpeg4", "vc1"] {
        assert_eq!(efficiency_rank(c), Some(1), "codec {c}");
    }
    for c in ["prores", "dnxhr", "ffv1"] {
        assert_eq!(efficiency_rank(c), Some(0), "codec {c}");
    }
    assert_eq!(efficiency_rank("unknown"), None);
    assert_eq!(efficiency_rank("totally-made-up"), None);
}

#[test]
fn parses_target_height_from_resolution_slug() {
    assert_eq!(target_height_from_resolution("1080p"), 1080);
    assert_eq!(target_height_from_resolution("2160p"), 2160);
    assert_eq!(target_height_from_resolution("720p"), 720);
    assert_eq!(target_height_from_resolution(""), 0);
    assert_eq!(target_height_from_resolution("p"), 0);
    assert_eq!(target_height_from_resolution("source"), 0);
}

#[test]
fn what_surrounds_the_source_is_blamed_first() {
    for words in [
        "No space left on device",
        "Permission denied",
        "Operation not permitted",
        "Read-only file system",
        "cannot create x",
    ] {
        let tail = format!("{SCAN_OPEN_FAILED}{words}\n");
        assert_eq!(
            classify(&facts(Some(2), true, &tail)),
            FailureClass::Environment,
            "{words}"
        );
    }
}

#[test]
fn a_copy_of_media_is_the_same() {
    let media = SourceMedia {
        codec: "h265".to_string(),
        height: 720,
    };
    assert_eq!(copy_media(&media), media);
}

#[test]
fn a_source_that_meets_the_target_is_told() {
    let media = |codec: &str, height: i64| {
        Some(SourceMedia {
            codec: codec.to_string(),
            height,
        })
    };
    assert!(meets_target(&media("av1", 1080), "h265", "1080p"));
    assert!(meets_target(&media("h265", 2160), "h265", ""));
    assert!(!meets_target(&media("h265", 2160), "h265", "1080p"));
    assert!(!meets_target(&media("h264", 720), "h265", "1080p"));
    assert!(!meets_target(&media("unknown", 720), "h265", "1080p"));
    assert!(!meets_target(&media("h265", 0), "h265", "1080p"));
    assert!(!meets_target(&media("h265", 720), "unknown", "1080p"));
    assert!(!meets_target(&None, "h265", "1080p"));
}
