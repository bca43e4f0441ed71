use convertbar::probe::{
    normalize_source_codec, parse_scan_media, poll, scan_args, scan_result, title_media, Poll,
    PROBE_TIMEOUT_MILLIS,
};

#[test]
fn normalize_source_codec_maps_handbrake_decoder_names() {
    let cases = [
        ("h264", "h264"),
        ("hevc", "h265"),
        ("libdav1d", "av1"),
        ("av1", "av1"),
        ("vp9", "vp9"),
        ("prores", "prores"),
        ("dnxhd", "dnxhr"),
        ("ffv1", "ffv1"),
        ("mpeg2video", "mpeg2"),
        ("mpeg4", "mpeg4"),
        ("vc1", "vc1"),
        ("", "unknown"),
        ("some-future-codec", "unknown"),
    ];
    for (input, want) in cases {
        assert_eq!(normalize_source_codec(input), want, "input {input}");
    }
}

const SCAN_FIXTURE_HEVC: &str = r#"Version: {
    "Name": "HandBrake",
    "VersionString": "1.11.2"
}
JSON Title Set: {
    "MainFeature": 0,
    "TitleList": [
        {
            "Geometry": { "Height": 720, "PAR": { "Den": 1, "Num": 1 }, "Width": 1280 },
            "VideoCodec": "hevc"
        }
    ]
}
"#;

const SCAN_FIXTURE_EMPTY: &str = r#"Version: { "Name": "HandBrake" }
JSON Title Set: {
    "MainFeature": 0,
    "TitleList": []
}
"#;

#[test]
fn parse_scan_media_reads_height_and_normalized_codec() {
    let media = parse_scan_media(SCAN_FIXTURE_HEVC).expect("title set present");
    assert_eq!(media.codec, "h265", "hevc normalizes to h265");
    assert_eq!(media.height, 720);
}

#[test]
fn parse_scan_media_returns_none_when_no_title() {
    assert!(parse_scan_media(SCAN_FIXTURE_EMPTY).is_none());
    assert!(parse_scan_media("garbage output, no json").is_none());
}

#[test]
fn a_scan_that_did_not_end_tells_nothing() {
    assert!(scan_result(false, Some(SCAN_FIXTURE_HEVC)).is_none());
    assert!(scan_result(true, None).is_none());
    assert_eq!(
        scan_result(true, Some(SCAN_FIXTURE_HEVC)).unwrap().height,
        720
    );
}

#[test]
fn a_title_set_is_found_behind_a_flood() {
    let stdout = "flood\n".repeat(33334)
        + "JSON Title Set: {\"TitleList\":[{\"Geometry\":{\"Height\":240},\"VideoCodec\":\"h264\"}]}";
    let media = scan_result(true, Some(&stdout)).expect("the title set after the flood must still parse");
    assert_eq!(media.codec, "h264");
    assert_eq!(media.height, 240);
}

#[test]
fn a_scan_that_overruns_is_killed() {
    assert_eq!(poll(Some(false), 100, 200), Poll::Wait);
    assert_eq!(poll(Some(false), 200, 200), Poll::Kill);
    assert_eq!(
        poll(Some(false), PROBE_TIMEOUT_MILLIS, PROBE_TIMEOUT_MILLIS),
        Poll::Kill
    );
}

#[test]
fn a_scan_that_ended_is_not_killed() {
    assert_eq!(poll(Some(true), 0, 5000), Poll::Ended);
    assert_eq!(poll(Some(true), 6000, 5000), Poll::Ended);
    assert_eq!(poll(None, 0, 5000), Poll::Lost);
}

#[test]
fn a_scan_names_the_file() {
    assert_eq!(
        scan_args("/m/a.mp4"),
        vec!["--scan", "--json", "-i", "/m/a.mp4"]
    );
}

#[test]
fn a_title_tells_its_codec_and_height() {
    let media = title_media("libdav1d", 2160);
    assert_eq!((media.codec.as_str(), media.height), ("av1", 2160));
}

#[test]
fn codecs_keep_their_names_in_either_case() {
    for codec in [
        "h265", "av1", "h264", "vp9", "prores", "dnxhr", "ffv1", "mpeg2", "mpeg4", "vc1",
        "unknown",
    ] {
        assert_eq!(normalize_source_codec(codec), codec);
        assert_eq!(normalize_source_codec(&codec.to_ascii_uppercase()), codec);
    }
    assert_eq!(normalize_source_codec("LIBDAV1D"), "av1");
    assert_eq!(normalize_source_codec("Hevc \u{e9}"), "h265");
    assert_eq!(normalize_source_codec("HEVC \u{c9}"), "h265");
}
