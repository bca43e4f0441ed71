use convertbar::paths::{
    components_of, extension_of, file_name_of, is_rooted, join_path, parent_of, path_under,
    paths_equal, stem_of,
};
use convertbar::text::{
    blank, decimal_of, digits_from, ends_with, holds, joined2, joined3, joined_from, lines_of,
    lower_ascii, parse_i64, parse_unsigned, same, same_ignoring_ascii_case, split_on, starts_with,
    trimmed, white, with_all_replaced, with_first_replaced,
};
use std::path::Path;

const TEXTS: [&str; 14] = [
    "", "a", " a b ", "a\nb", "a\r\nb\r\n", "\n", "a\n\n", "\u{a0}x\u{2003}", "äöü ß", "aXbXc",
    "\r", "a\rb", "  ", "XX",
];

#[test]
fn white_space_is_that_of_unicode() {
    for n in 0..0x3100u32 {
        if let Some(c) = char::from_u32(n) {
            assert_eq!(white(c), c.is_whitespace(), "{n:x}");
        }
    }
}

#[test]
fn texts_are_cut_like_slices() {
    for t in TEXTS {
        assert_eq!(trimmed(t), t.trim(), "{t:?}");
        assert_eq!(blank(t), t.trim().is_empty(), "{t:?}");
        assert_eq!(lines_of(t), t.lines().collect::<Vec<_>>(), "{t:?}");
        assert_eq!(split_on(t, 'X'), t.split('X').collect::<Vec<_>>(), "{t:?}");
        assert_eq!(with_all_replaced(t, "X", "--"), t.replace("X", "--"));
        assert_eq!(with_first_replaced(t, "X", "--"), t.replacen("X", "--", 1));
        for u in TEXTS {
            assert_eq!(holds(t, u), t.contains(u));
            assert_eq!(starts_with(t, u), t.starts_with(u));
            assert_eq!(ends_with(t, u), t.ends_with(u));
            assert_eq!(same(t, u), t == u);
            assert_eq!(joined2(t, u), format!("{t}{u}"));
            assert_eq!(joined3(t, u, "!"), format!("{t}{u}!"));
            assert_eq!(same_ignoring_ascii_case(t, u), t.eq_ignore_ascii_case(u));
        }
    }
}

#[test]
fn what_was_split_is_joined_again() {
    for t in TEXTS {
        assert_eq!(joined_from(&split_on(t, 'X'), 0, "X"), t);
    }
}

#[test]
fn numbers_are_read_like_integers() {
    for t in [
        "0", "7", "+7", "-7", "", "+", "-", "12a", " 1", "65535", "65536", "18446744073709551615",
        "18446744073709551616", "9223372036854775807", "9223372036854775808",
        "-9223372036854775808", "-9223372036854775809", "007",
    ] {
        assert_eq!(parse_unsigned(t, u64::MAX), t.parse::<u64>().ok(), "{t}");
        assert_eq!(
            parse_unsigned(t, 65535),
            t.parse::<u16>().ok().map(u64::from),
            "{t}"
        );
        assert_eq!(parse_i64(t), t.parse::<i64>().ok(), "{t}");
    }
    for n in [0, 9, 10, 99, 100, u64::MAX] {
        assert_eq!(decimal_of(n), n.to_string());
    }
    assert!(digits_from(&vec!['a', '1', '2'], 1));
    assert!(!digits_from(&vec!['a', '1', '2'], 0));
    assert_eq!(lower_ascii('Q'), 'q');
    assert_eq!(lower_ascii('Ä'), 'Ä');
}

#[test]
fn paths_have_the_parts_that_the_system_gives_them() {
    let paths = [
        "", "/", "a", "/a", "a/b", "/a/b/", "//a//b", "./a", "a/./b", "a/..", "..", ".", "/..",
        "/a/b.c.d", ".hidden", "/a/.hidden.x", "a.", "/a/..b",
    ];
    for p in paths {
        let path = Path::new(p);
        let want: Vec<String> = path
            .components()
            .map(|c| c.as_os_str().to_string_lossy().to_string())
            .collect();
        assert_eq!(components_of(p), want, "{p}");
        assert_eq!(
            file_name_of(p),
            path.file_name().map(|n| n.to_string_lossy().to_string()),
            "{p}"
        );
        match (parent_of(p), path.parent()) {
            (Some(a), Some(b)) => assert_eq!(Path::new(&a), b, "{p}"),
            (a, b) => assert_eq!(a.is_some(), b.is_some(), "{p}"),
        }
        assert_eq!(is_rooted(p), path.has_root(), "{p}");
        if let Some(name) = file_name_of(p) {
            assert_eq!(
                Some(stem_of(&name)),
                path.file_stem().map(|n| n.to_string_lossy().to_string()),
                "{p}"
            );
            assert_eq!(
                extension_of(&name),
                path.extension().map(|n| n.to_string_lossy().to_string()),
                "{p}"
            );
        }
        for q in paths {
            assert_eq!(paths_equal(p, q), path == Path::new(q), "{p} {q}");
            assert_eq!(path_under(p, q), path.starts_with(q), "{p} {q}");
            assert_eq!(
                join_path(p, q),
                path.join(q).to_string_lossy(),
                "{p} {q}"
            );
        }
    }
}
