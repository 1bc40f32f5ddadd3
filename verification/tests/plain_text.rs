use cce_mail::number::{decimal_text, padded_text, parse_unsigned};
use cce_mail::order::{reversed, sort_ranked};
use cce_mail::path::{extension_of_path, file_name_of, path_below};
use cce_mail::scan::{
    ellipsize, join_all, replace_text, split_at_first, split_at_last, split_lines, split_text,
    split_words, strip_prefix, text_contains, text_ends_with, text_starts_with, trim_end_text,
    trim_text,
};
use cce_mail::text::{ascii_lower, chars_of, is_whitespace, same, text_of, text_range};

const SAMPLES: [&str; 14] = [
    "",
    " ",
    "a",
    "  a b  ",
    "a,b,,c",
    ",",
    "line\nline\r\nlast",
    "\n\n",
    "tab\tand\u{a0}nbsp\u{2003}em",
    "Grüße ÄÖÜ",
    "x=1&y=2",
    "a.b.c",
    "\r\n\r\n x",
    "ends\n",
];

#[test]
fn whitespace_is_what_the_standard_library_says() {
    for n in 0..0x11_0000u32 {
        if let Some(c) = char::from_u32(n) {
            assert_eq!(is_whitespace(c), c.is_whitespace(), "{n:x}");
        }
    }
}

#[test]
fn text_operations_agree_with_the_standard_library() {
    for s in SAMPLES {
        assert_eq!(trim_text(s), s.trim(), "{s:?}");
        assert_eq!(trim_end_text(s), s.trim_end(), "{s:?}");
        assert_eq!(split_words(s), s.split_whitespace().collect::<Vec<_>>(), "{s:?}");
        assert_eq!(split_lines(s), s.lines().collect::<Vec<_>>(), "{s:?}");
        assert_eq!(split_text(s, ','), s.split(',').collect::<Vec<_>>(), "{s:?}");
        assert_eq!(ascii_lower(s), s.to_ascii_lowercase(), "{s:?}");
        assert_eq!(
            split_at_first(s, '='),
            s.split_once('=').map(|(a, b)| (a.to_string(), b.to_string())),
            "{s:?}"
        );
        assert_eq!(
            split_at_last(s, '.'),
            s.rsplit_once('.').map(|(a, b)| (a.to_string(), b.to_string())),
            "{s:?}"
        );
        for p in ["a", "line", " ", "x=1", "ü", "last\n", "aa"] {
            assert_eq!(text_contains(s, p), s.contains(p), "{s:?} {p:?}");
            assert_eq!(text_starts_with(s, p), s.starts_with(p), "{s:?} {p:?}");
            assert_eq!(text_ends_with(s, p), s.ends_with(p), "{s:?} {p:?}");
            assert_eq!(replace_text(s, p, "<>"), s.replace(p, "<>"), "{s:?} {p:?}");
            assert_eq!(strip_prefix(s, p).as_deref(), s.strip_prefix(p), "{s:?} {p:?}");
        }
        assert!(same(s, &text_of(&chars_of(s))));
        assert!(!same(s, &format!("{s}!")));
    }
    assert_eq!(text_range(&chars_of("Grüße"), 1, 4), "rüß");
    assert_eq!(replace_text("aaa", "aa", "b"), "ba");
    assert_eq!(join_all(&split_text("a,b,c", ','), ", "), "a, b, c");
}

#[test]
fn long_texts_end_in_dots() {
    assert_eq!(ellipsize("short", 10), "short");
    assert_eq!(ellipsize("exactly ten", 11), "exactly ten");
    let cut = ellipsize("a rather long text", 8);
    assert_eq!(cut, "a rather...");
}

#[test]
fn numbers_read_back() {
    for n in [0u64, 1, 9, 10, 99, 100, 4_294_967_295, u64::MAX] {
        assert_eq!(decimal_text(n), n.to_string());
        assert_eq!(parse_unsigned(&decimal_text(n), u64::MAX), Some(n));
    }
    for s in ["", "+", "-1", "1x", " 1", "18446744073709551616", "+7", "007", "99999"] {
        assert_eq!(parse_unsigned(s, u64::MAX), s.parse::<u64>().ok(), "{s:?}");
        assert_eq!(parse_unsigned(s, 65535), s.parse::<u16>().ok().map(|n| n as u64), "{s:?}");
    }
    assert_eq!(padded_text(3), "03");
    assert_eq!(padded_text(12), "12");
    assert_eq!(padded_text(123), "123");
}

#[test]
fn paths_agree_with_the_standard_library() {
    for p in [
        "", "/", "a", "/a/b", "/a/b/", "/a/b/.", "/a/..", "..", ".", "./x", "a//b", ".bashrc",
        "a.tar.gz", "a.", "/x/.y.z", "/..", "a/./", "../.ssh/authorized_keys", "..a", "a..b",
    ] {
        let path = std::path::Path::new(p);
        assert_eq!(file_name_of(p).as_deref(), path.file_name().and_then(|n| n.to_str()), "{p:?}");
        assert_eq!(
            extension_of_path(p).as_deref(),
            path.extension().and_then(|n| n.to_str()),
            "{p:?}"
        );
        assert_eq!(
            path_below(p, "x/y"),
            path.join("x/y").to_string_lossy().into_owned(),
            "{p:?}"
        );
    }
}

#[test]
fn sorting_puts_the_largest_first() {
    assert_eq!(sort_ranked(vec![3u32, 1, 2, 3]), vec![3, 3, 2, 1]);
    assert!(sort_ranked(Vec::<u32>::new()).is_empty());
    assert_eq!(reversed(vec![1, 2, 3]), vec![3, 2, 1]);
}
