use convertbar::progress::{
    decimal_number, parse_progress, percent_of, progress_from, progress_of, LineBuffer,
};

#[test]
fn parses_full_progress_line() {
    let line = "Encoding: task 1 of 1, 42.50 % (123.45 fps, avg 120.00 fps, ETA 00h02m30s)";
    let p = parse_progress(line).unwrap();
    assert_eq!(p.percent.parse::<f64>().unwrap(), 42.5);
    assert_eq!(p.fps.parse::<f64>().unwrap(), 123.45);
    assert_eq!(p.avg_fps.parse::<f64>().unwrap(), 120.0);
    assert_eq!(p.eta_seconds, 150);
}

#[test]
fn falls_back_to_percent_only() {
    let line = "Encoding: task 1 of 1, 5.00 %";
    let p = parse_progress(line).unwrap();
    assert_eq!(p.percent.parse::<f64>().unwrap(), 5.0);
    assert_eq!(p.fps.parse::<f64>().unwrap(), 0.0);
    assert_eq!(p.avg_fps.parse::<f64>().unwrap(), 0.0);
    assert_eq!(p.eta_seconds, 0);
}

#[test]
fn ignores_non_encoding_lines() {
    assert!(parse_progress("Scanning title 1 of 1").is_none());
}

fn groups(texts: [&str; 7]) -> Vec<String> {
    texts.iter().map(|t| t.to_string()).collect()
}

#[test]
fn groups_become_a_progress() {
    let p = progress_of(&groups(["", "1.5", "2", "3", "01", "02", "03"])).unwrap();
    assert_eq!((p.percent.as_str(), p.fps.as_str()), ("1.5", "2"));
    assert_eq!(p.eta_seconds, 3723);
    assert!(progress_of(&groups(["", "x", "2", "3", "01", "02", "03"])).is_none());
    assert_eq!(
        percent_of(&vec![String::new(), "7.25".to_string()])
            .unwrap()
            .percent,
        "7.25"
    );
}

#[test]
fn what_reads_as_a_number() {
    for (text, number) in [("1", true), ("1.", true), ("1.5", true), ("", false), ("a", false)] {
        assert_eq!(decimal_number(text), number, "{text}");
        assert_eq!(text.parse::<f64>().is_ok(), number, "{text}");
    }
}

#[test]
fn an_eta_that_no_number_holds_is_no_progress() {
    assert!(parse_progress(
        "Encoding: task 1 of 1, 1.00 % (1.00 fps, avg 1.00 fps, ETA 99999999999999999999h00m00s)"
    )
    .is_none());
}

#[test]
fn lines_end_at_either_mark() {
    let mut buffer = LineBuffer::new();
    assert_eq!(buffer.feed(&b"one\rtw".to_vec()), vec!["one"]);
    assert_eq!(buffer.partial, "tw");
    assert_eq!(buffer.feed(&b"o\n\rthree".to_vec()), vec!["two"]);
    assert_eq!(buffer.feed(&b"\n".to_vec()), vec!["three"]);
    assert_eq!(buffer.partial, "");
}

#[test]
fn a_full_line_goes_before_a_bare_percentage() {
    let full = Some(groups(["", "1.5", "2", "3", "00", "00", "09"]));
    let simple = Some(vec![String::new(), "7".to_string()]);
    assert_eq!(progress_from(&full, &simple).unwrap().percent, "1.5");
    assert_eq!(progress_from(&None, &simple).unwrap().percent, "7");
    assert!(progress_from(&None, &None).is_none());
    let late = Some(groups(["", "1", "2", "3", "18446744073709551615", "0", "0"]));
    assert!(progress_from(&late, &simple).is_none());
}

#[test]
fn lines_are_the_same_wherever_the_stream_is_cut() {
    let stream = "one\r\ntwo\n\nthree\rfour";
    let mut whole = LineBuffer::new();
    let all = whole.take_in(stream);
    for cut in 0..=stream.len() {
        let mut buffer = LineBuffer::new();
        let mut lines = buffer.take_in(&stream[..cut]);
        lines.extend(buffer.take_in(&stream[cut..]));
        assert_eq!(lines, all);
        assert_eq!(buffer.partial, whole.partial);
    }
}
