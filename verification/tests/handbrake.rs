use convertbar::handbrake::{
    chosen_encoder, classify_preset, handbrake_status, interpret_preset_export,
    interpret_preset_list, judge_export, located_path, output_path, parse_preset_list, read_preset_fields,
    resolve_suffix_template, slugify, truncate_str, PresetFields, PresetMetadata,
};
use convertbar::json::{json_integer_at, json_string_at, round_json_number};

fn meta(codec: &str, resolution: &str, device: &str) -> PresetMetadata {
    PresetMetadata {
        codec: codec.into(),
        resolution: resolution.into(),
        quality: "hq".into(),
        preset: "preset".into(),
        device: device.into(),
    }
}

fn fields(preset: &str) -> PresetFields {
    read_preset_fields(&format!("{{\"PresetList\":[{preset}]}}"))
}

#[test]
fn parse_preset_list_keeps_only_four_space_indented_preset_names() {
    let output = "\
General/
    Very Fast 1080p30
    Fast 1080p30
        VideoEncoder: x264
Matroska/
    H.265 MKV 1080p30
    Nested Category/

    Production Standard
";
    assert_eq!(
        parse_preset_list(output),
        vec![
            "Very Fast 1080p30",
            "Fast 1080p30",
            "H.265 MKV 1080p30",
            "Production Standard",
        ],
        "categories (col 0 / trailing slash), property lines (8-space), and blanks are dropped"
    );
}

#[test]
fn parse_preset_list_empty_output_yields_no_presets() {
    assert!(parse_preset_list("").is_empty());
}

#[test]
fn interpret_preset_list_errors_when_cli_fails_with_no_presets() {
    let err =
        interpret_preset_list(false, "error while loading shared libraries: libx.so").unwrap_err();
    assert!(
        err.contains("error while loading shared libraries"),
        "the CLI diagnostic must be surfaced, got: {err}"
    );
}

#[test]
fn interpret_preset_list_returns_presets_even_on_nonzero_exit() {
    let stderr = "General/\n    Fast 1080p30\n";
    assert_eq!(
        interpret_preset_list(false, stderr).unwrap(),
        vec!["Fast 1080p30"]
    );
}

#[test]
fn interpret_preset_list_ok_empty_on_clean_exit() {
    assert_eq!(
        interpret_preset_list(true, "").unwrap(),
        Vec::<String>::new(),
        "a clean exit with no presets is a legitimate empty list, not an error"
    );
}

#[test]
fn truncate_str_never_splits_a_multibyte_codepoint() {
    let s = "a".repeat(199) + "é" + "trailing";
    assert!(
        !s.is_char_boundary(200),
        "test premise: byte 200 splits a codepoint"
    );
    let t = truncate_str(&s, 200);
    assert!(t.len() <= 200);
    assert_eq!(t, "a".repeat(199), "backs up to the char boundary at 199");
}

#[test]
fn a_short_text_is_not_truncated() {
    assert_eq!(truncate_str("é", 2), "é");
    assert_eq!(truncate_str("é", 1), "");
    assert_eq!(truncate_str("a🎬", 4), "a");
}

#[test]
fn interpret_preset_export_errors_on_nonzero_exit_with_stderr() {
    let err = interpret_preset_export(false, "", "No such preset: Bogus", "Bogus").unwrap_err();
    assert!(
        err.contains("No such preset"),
        "the CLI stderr diagnostic must be surfaced, got: {err}"
    );
}

#[test]
fn interpret_preset_export_does_not_panic_on_multibyte_at_the_slice_boundary() {
    let stdout = "x".repeat(199) + &"é".repeat(50);
    let err = interpret_preset_export(true, &stdout, "", "P").unwrap_err();
    assert!(err.contains("Failed to parse preset JSON"));
}

#[test]
fn interpret_preset_export_classifies_valid_json() {
    let stdout = r#"{"PresetList":[{"VideoEncoder":"x265","PictureHeight":1080}]}"#;
    let m = interpret_preset_export(true, stdout, "", "HQ 1080p30").unwrap();
    assert_eq!(m.codec, "h265");
    assert_eq!(m.resolution, "1080p");
    assert_eq!(m.quality, "hq");
}

#[test]
fn slugify_collapses_separators_and_trims() {
    assert_eq!(
        slugify("H.265 Apple VideoToolbox 1080p"),
        "h-265-apple-videotoolbox-1080p"
    );
    assert_eq!(slugify("  Fast 1080p30  "), "fast-1080p30");
}

#[test]
fn slugs_keep_letters_of_every_script() {
    assert_eq!(slugify("ÄÖ 1080p — fünf"), "äö-1080p-fünf");
    assert_eq!(slugify("!!!"), "");
}

#[test]
fn resolves_full_template() {
    let m = meta("h265", "1080p", "apple-videotoolbox");
    assert_eq!(
        resolve_suffix_template(".{resolution}-{codec}", &m),
        ".1080p-h265"
    );
}

#[test]
fn drops_empty_var_and_its_trailing_separator_but_keeps_leading_dot() {
    let m = meta("h265", "", "apple-videotoolbox");
    assert_eq!(
        resolve_suffix_template(".{resolution}-{codec}", &m),
        ".h265"
    );
}

#[test]
fn drops_empty_var_and_its_leading_separator() {
    let m = meta("", "1080p", "");
    assert_eq!(
        resolve_suffix_template(".{resolution}-{codec}", &m),
        ".1080p"
    );
}

#[test]
fn resolve_suffix_template_command_matches_the_backend_resolver() {
    let metadata = |codec: &str| PresetMetadata {
        codec: codec.to_string(),
        resolution: "1080p".to_string(),
        quality: "q30".to_string(),
        preset: "test".to_string(),
        device: String::new(),
    };
    let m = metadata("h265");
    assert_eq!(
        resolve_suffix_template(".{resolution}.{codec}", &m),
        ".1080p.h265"
    );
    let mut empty_res = metadata("h265");
    empty_res.resolution = String::new();
    assert_eq!(
        resolve_suffix_template(".{resolution}.{codec}", &empty_res),
        ".h265"
    );
}

#[test]
fn a_template_without_names_stays() {
    assert_eq!(resolve_suffix_template("-small", &meta("a", "b", "c")), "-small");
    assert_eq!(
        resolve_suffix_template(".{quality}.{preset}.{device}", &meta("", "", "roku")),
        ".hq.preset.roku"
    );
}

#[test]
fn classify_preset_maps_encoder_to_codec() {
    let cases = [
        ("x265", "h265"),
        ("x265_10bit", "h265"),
        ("vt_h265", "h265"),
        ("hevc", "h265"),
        ("x264", "h264"),
        ("nvenc_h264", "h264"),
        ("svt_av1", "av1"),
        ("vp9", "vp9"),
        ("prores_ks", "prores"),
        ("dnxhr", "dnxhr"),
        ("ffv1", "ffv1"),
        ("mpeg2", "unknown"),
    ];
    for (encoder, want) in cases {
        let obj = fields(&format!("{{\"VideoEncoder\":\"{encoder}\"}}"));
        assert_eq!(
            classify_preset(&obj, "preset").codec,
            want,
            "encoder {encoder}"
        );
    }
}

#[test]
fn classify_preset_maps_name_to_device() {
    let cases = [
        ("Apple VideoToolbox H.265 1080p", "apple-videotoolbox"),
        ("Apple 1080p30 Surround", "apple"),
        ("Amazon Fire 1080p30 Surround", "amazon-fire"),
        ("Android 1080p30 Surround", "android"),
        ("Chromecast 1080p30 Surround", "chromecast"),
        ("Playstation 1080p30 Surround", "playstation"),
        ("Roku 1080p30 Surround", "roku"),
        ("Xbox 1080p30 Surround", "xbox"),
        ("H.265 NVENC 1080p", "nvenc"),
        ("H.265 QSV 1080p", "qsv"),
        ("H.265 VCN 1080p", "vcn"),
        ("H.265 MF 1080p", "mf"),
        ("Production Standard", ""),
    ];
    for (name, want) in cases {
        let obj = fields("{}");
        assert_eq!(classify_preset(&obj, name).device, want, "name {name}");
    }
}

#[test]
fn classify_preset_maps_name_prefix_to_quality() {
    let cases = [
        ("Very Fast 1080p30", "vf"),
        ("Fast 1080p30", "f"),
        ("Super HQ 1080p30 Surround", "shq"),
        ("HQ 1080p30 Surround", "hq"),
        ("Creator 2160p60 4K HEVC", "cr"),
        ("Production Standard", "prod"),
        ("Preservation 2160p60", "pres"),
    ];
    for (name, want) in cases {
        let obj = fields("{}");
        assert_eq!(classify_preset(&obj, name).quality, want, "name {name}");
    }
}

#[test]
fn classify_preset_quality_falls_back_to_rounded_slider() {
    let obj = fields("{\"VideoQualitySlider\":22.4}");
    assert_eq!(
        classify_preset(&obj, "Apple 1080p30 Surround").quality,
        "q22"
    );
}

#[test]
fn classify_preset_reads_resolution_from_height() {
    let zero = fields("{\"PictureHeight\":0}");
    assert_eq!(classify_preset(&zero, "preset").resolution, "");
    let hd = fields("{\"PictureHeight\":1080}");
    assert_eq!(classify_preset(&hd, "preset").resolution, "1080p");
}

#[test]
fn numbers_are_rounded_like_doubles() {
    for text in [
        "0", "22.4", "22.5", "23.5", "-0.5", "-22.5", "0.49999999999999994", "1e3", "2.5e0",
        "1.0E-3", "4503599627370497.5", "9007199254740993", "9223372036854775807", "1e300",
        "-1e300", "123456789.49999999", "18446744073709551615",
    ] {
        assert_eq!(
            round_json_number(text),
            text.parse::<f64>().unwrap().round() as i64,
            "{text}"
        );
    }
}

#[test]
fn values_are_read_from_where_they_stand() {
    let text = r#"{"a":[{"b":"x\ty","n":-12}]}"#;
    assert_eq!(json_string_at(text, "/a/0/b"), "x\ty");
    assert_eq!(json_string_at(text, "/a/0/n"), "");
    assert_eq!(json_string_at(text, "/a/1/b"), "");
    assert_eq!(json_integer_at(text, "/a/0/n"), -12);
    assert_eq!(json_integer_at(text, "/a/0/b"), 0);
}

#[test]
fn an_export_that_is_no_json_is_an_error_that_quotes_it() {
    let err = interpret_preset_export(true, "nope", "", "P").unwrap_err();
    assert!(err.contains("nope"), "{err}");
}

#[test]
fn an_encoder_is_the_configured_one_or_the_one_found() {
    assert_eq!(
        chosen_encoder(Some("/hb".into()), true, None),
        Some("/hb".into())
    );
    assert_eq!(
        chosen_encoder(Some("/hb".into()), false, Some("/usr/hb".into())),
        Some("/usr/hb".into())
    );
    assert_eq!(
        chosen_encoder(Some(String::new()), true, Some("/usr/hb".into())),
        Some("/usr/hb".into())
    );
    assert_eq!(chosen_encoder(None, false, None), None);
}

#[test]
fn the_place_of_the_encoder_is_the_first_line() {
    assert_eq!(
        located_path(true, "/usr/bin/HandBrakeCLI\n"),
        Some("/usr/bin/HandBrakeCLI".into())
    );
    assert_eq!(located_path(true, "\n"), None);
    assert_eq!(located_path(false, "/usr/bin/HandBrakeCLI\n"), None);
}

#[test]
fn a_status_tells_what_was_found() {
    let found = handbrake_status(Some("/hb".into()), None);
    assert!(found.found);
    assert_eq!((found.path.as_str(), found.version.as_str()), ("/hb", ""));
    let missing = handbrake_status(None, Some("1".into()));
    assert!(!missing.found);
    assert_eq!((missing.path.as_str(), missing.version.as_str()), ("", ""));
}

#[test]
fn an_output_has_the_expanded_suffix() {
    let suffix = resolve_suffix_template(".{resolution}-{codec}", &meta("h265", "1080p", ""));
    assert_eq!(
        output_path("/nonexistent/clip.mp4", &suffix),
        Some("/nonexistent/clip.1080p-h265.mp4".to_string())
    );
}

#[test]
fn an_output_stands_beside_its_source() {
    assert_eq!(
        output_path("vacation.mkv", ".1080p-h265"),
        Some("vacation.1080p-h265.mp4".to_string())
    );
    assert_eq!(output_path("/m/a.mp4", ""), Some("/m/a.mp4".to_string()));
    assert_eq!(output_path("/", ".x"), None);
}

#[test]
fn an_export_is_judged_by_what_was_read_of_it() {
    let fields = PresetFields {
        encoder: "x265".to_string(),
        height: 720,
        slider: 0,
    };
    let good = judge_export(true, "{}", "", None, &fields, "Fast 720p30").unwrap();
    assert_eq!((good.codec.as_str(), good.resolution.as_str()), ("h265", "720p"));
    assert_eq!(
        judge_export(true, "nope", "", Some("bad".to_string()), &fields, "P").unwrap_err(),
        "Failed to parse preset JSON: bad. Output: nope"
    );
    assert_eq!(
        judge_export(false, "{}", " lost \n", None, &fields, "P").unwrap_err(),
        "HandBrakeCLI --preset-export failed: lost"
    );
}

#[test]
fn only_lines_indented_by_exactly_four_spaces_are_presets() {
    assert_eq!(
        parse_preset_list("    Fast 1080p30\n      Six Spaces\n"),
        vec!["Fast 1080p30".to_string()]
    );
    assert_eq!(
        parse_preset_list("   Three\n     Five\n       Seven\n    Four\n"),
        vec!["Four".to_string()]
    );
}
