//! Settings, the conversation on disk, and text.

use std::path::{Component, Path};

use karakuri::config::{load_dotenv, plan_dotenv, trim_quotes, DotenvPlan};
use karakuri::error::{IoError, IoErrorKind};
use karakuri::message::Message;
use karakuri::number::{dec_i32, dec_u64, dec_usize, parse_number};
use karakuri::path::{
    file_name, has_parent_dir, is_absolute, is_inside, join_path, last_component, parent, strip_base,
};
use karakuri::session::{Session, SessionError};
use karakuri::text::{
    contains, count_matches, is_white_space, join, split_at_char, split_lines, split_words,
    starts_with, strip_prefix, trim, trim_end, trim_start,
};

fn plan(content: &str, present: &[&str]) -> DotenvPlan {
    plan_dotenv(content, &present.iter().map(|s| s.to_string()).collect())
}

fn pairs(p: &DotenvPlan) -> Vec<(&str, &str)> {
    p.keys
        .iter()
        .map(String::as_str)
        .zip(p.values.iter().map(String::as_str))
        .collect()
}

#[test]
fn loads_basic_pairs_ignoring_comments_and_blanks() {
    let p = plan(
        "# a comment\n\n  # indented comment\nexport KARAKURI_TEST=hello world\n",
        &[],
    );
    assert_eq!(pairs(&p), vec![("KARAKURI_TEST", "hello world")]);
    assert!(p.warnings.is_empty());
}

#[test]
fn strips_matching_quotes() {
    let p = plan("Q1=\"quoted value\"\nQ2='single'\nQ3=unquoted\n", &[]);
    assert_eq!(
        pairs(&p),
        vec![("Q1", "quoted value"), ("Q2", "single"), ("Q3", "unquoted")]
    );
    assert_eq!(trim_quotes("\"a'"), "\"a'");
    assert_eq!(trim_quotes("\""), "\"");
    assert_eq!(trim_quotes("''"), "");
}

#[test]
fn does_not_override_existing_env() {
    let p = plan("KEY=from-file\nOTHER=x\nOTHER=y\n", &["KEY"]);
    assert_eq!(pairs(&p), vec![("OTHER", "x")]);
}

#[test]
fn missing_file_is_ok() {
    let none: Vec<String> = vec![];
    let p = load_dotenv(Err(IoError::new(IoErrorKind::NotFound, "gone")), &none).unwrap();
    assert!(p.keys.is_empty());
    let e = load_dotenv(Err(IoError::other("denied")), &none).unwrap_err();
    assert_eq!(e.message, "denied");
    let p = load_dotenv(Ok("A=1".to_string()), &none).unwrap();
    assert_eq!(pairs(&p), vec![("A", "1")]);
}

#[test]
fn malformed_lines_are_skipped() {
    let p = plan("no-equals-sign-here\nKEY=ok\n=emptykey\n", &[]);
    assert_eq!(pairs(&p), vec![("KEY", "ok")]);
    assert_eq!(
        p.warnings,
        vec![
            ".env:1: ignoring malformed line (expected KEY=VALUE)",
            ".env:3: ignoring line with empty key"
        ]
    );
}

#[test]
fn values_keep_what_follows_the_first_equals_sign() {
    let p = plan(" A = b=c \nexport  B=1\nexport=2\n", &[]);
    assert_eq!(pairs(&p), vec![("A", "b=c"), ("B", "1"), ("export", "2")]);
}

#[test]
fn load_missing_file_returns_empty_conversation() {
    let read = Session::text("s.json", Err(IoError::new(IoErrorKind::NotFound, "")));
    assert_eq!(read, Ok(None));
    assert_eq!(Session::load("s.json", read, None), Ok(vec![]));
}

#[test]
fn load_corrupt_utf8_returns_error() {
    let read = Session::text("s.json", Ok(vec![0xff, 0xfe, 0x00]));
    let err = Session::load("s.json", read, None).unwrap_err();
    assert_eq!(err, SessionError::Corrupt("s.json".to_string()));
    assert_eq!(
        err.message(),
        "session file is corrupt (invalid JSON): s.json"
    );
}

#[test]
fn load_corrupt_json_returns_error() {
    let read = Session::text("s.json", Ok(b"{ not valid json !!".to_vec()));
    assert_eq!(read, Ok(Some("{ not valid json !!".to_string())));
    assert_eq!(
        Session::load("s.json", read, None),
        Err(SessionError::Corrupt("s.json".to_string()))
    );
}

#[test]
fn conversations_are_loaded() {
    let given = vec![Message::user("hä")];
    let read = Session::text("s.json", Ok("hä".as_bytes().to_vec()));
    assert_eq!(read, Ok(Some("hä".to_string())));
    assert_eq!(Session::load("s.json", read, Some(given.clone())), Ok(given));
    let read = Session::text("s.json", Err(IoError::other("denied")));
    let err = Session::load("s.json", read, None).unwrap_err();
    assert_eq!(err.message(), "session io error: denied");
}

#[test]
fn numbers_are_written_and_read() {
    assert_eq!(dec_u64(u64::MAX), "18446744073709551615");
    assert_eq!(dec_usize(0), "0");
    assert_eq!(dec_i32(i32::MIN), "-2147483648");
    assert_eq!(dec_i32(42), "42");
    for n in [0, 7, 10, 99, 12345] {
        assert_eq!(parse_number(&dec_u64(n), u64::MAX), Some(n));
    }
    assert_eq!(parse_number("256", 255), None);
    assert_eq!(parse_number("000255", 255), Some(255));
    assert_eq!(parse_number("", 9), None);
    assert_eq!(parse_number("+5", 9), Some(5));
    assert_eq!(parse_number("++5", 9), None);
    assert_eq!(parse_number("５", 9), None);
}

#[test]
fn white_space_is_that_of_unicode() {
    for n in 0..0x11_0000u32 {
        if let Some(c) = char::from_u32(n) {
            assert_eq!(is_white_space(c), c.is_whitespace(), "U+{n:04X}");
        }
    }
}

#[test]
fn text_operations_agree_with_std() {
    let samples = [
        "",
        " ",
        "a",
        "a b\tc",
        "\u{3000}x\u{2003}y \n",
        "l1\nl2\r\nl3\r",
        "\n\n",
        "a\r\n",
        "aaaa",
        "x,y,,z,",
        "héé lé",
    ];
    for s in samples {
        assert_eq!(trim(s), s.trim());
        assert_eq!(trim_start(s), s.trim_start());
        assert_eq!(trim_end(s), s.trim_end());
        assert_eq!(split_words(s), s.split_whitespace().collect::<Vec<_>>());
        assert_eq!(split_lines(s), s.lines().collect::<Vec<_>>());
        assert_eq!(split_at_char(s, ','), s.split(',').collect::<Vec<_>>());
        for p in ["a", "aa", "é", "\n", "l"] {
            assert_eq!(contains(s, p), s.contains(p));
            assert_eq!(count_matches(s, p), s.matches(p).count());
            assert_eq!(starts_with(s, p), s.starts_with(p));
            assert_eq!(strip_prefix(s, p).as_deref(), s.strip_prefix(p));
        }
    }
    let parts = vec!["a".to_string(), "".to_string(), "b".to_string()];
    assert_eq!(join(&parts, ", "), "a, , b");
    assert_eq!(join(&[], ", "), "");
}

#[test]
fn paths_agree_with_std() {
    let samples = [
        "", "/", "//", ".", "./", "..", "a", "a/", "a/b", "/a", "/a/b/", "//a//b", "./a", "a/./b",
        "a/.", "/.", "/./a", "a/..", "../a", "/a/../b", "a//", ".a", "a.", "...", "/a/./b/./", "ä/ö",
    ];
    for s in samples {
        let p = Path::new(s);
        assert_eq!(is_absolute(s), p.is_absolute(), "{s:?}");
        assert_eq!(
            has_parent_dir(s),
            p.components().any(|c| matches!(c, Component::ParentDir)),
            "{s:?}"
        );
        assert_eq!(file_name(s).as_deref(), p.file_name().and_then(|n| n.to_str()), "{s:?}");
        assert_eq!(
            last_component(s).as_deref(),
            p.components().last().and_then(|c| c.as_os_str().to_str()),
            "{s:?}"
        );
        assert_eq!(parent(s).as_deref(), p.parent().and_then(|q| q.to_str()), "{s:?}");
        for t in samples {
            let q = Path::new(t);
            assert_eq!(join_path(s, t), p.join(q).to_str().unwrap(), "{s:?} {t:?}");
            assert_eq!(is_inside(s, t), p.starts_with(q), "{s:?} {t:?}");
            assert_eq!(
                strip_base(s, t).as_deref(),
                p.strip_prefix(q).ok().and_then(|r| r.to_str()),
                "{s:?} {t:?}"
            );
        }
    }
}
