use wsprrs::error::WsprError;
use wsprrs::ndjson::ndjson_line;
use wsprrs::number::{parse_i32, push_integer};
use wsprrs::text::{chars_of, split_lines, split_words, string_of, trim_chars};
use wsprrs::time::Timestamp;
use wsprrs::wsprd::{check_exit, exit_failure, keeps_wisdom, spots_from_file, SpotFile};

const LINE: &str =
    "prrs_t SdCR -26  0.66   3.5700455  N0QBH EN25 37    0  0.25  1  1    0  0  17    11   225";

#[test]
fn a_successful_run_is_no_error() {
    assert!(check_exit(true, Some(0), b"warnings").is_ok());
    assert!(check_exit(true, None, b"").is_ok());
}

#[test]
fn a_failed_run_carries_code_and_text() {
    match check_exit(false, Some(3), "cannot open wspr.wav – ü".as_bytes()) {
        Err(WsprError::WsprdFailed { code, stderr }) => {
            assert_eq!(code, 3);
            assert_eq!(stderr, "cannot open wspr.wav – ü");
        }
        _ => panic!("expected WsprdFailed"),
    }
    match check_exit(false, None, &[b'a', 0xFF, b'b']) {
        Err(WsprError::WsprdFailed { code, stderr }) => {
            assert_eq!(code, -1);
            assert_eq!(stderr, "a\u{FFFD}b");
        }
        _ => panic!("expected WsprdFailed"),
    }
    assert!(matches!(
        exit_failure(Some(9), "x".to_string()),
        WsprError::WsprdFailed { code: 9, .. }
    ));
}

#[test]
fn the_spot_file_decides_the_spots() {
    let t = Timestamp::from_unix_secs(0);
    let spots = spots_from_file(SpotFile::Text(format!("{LINE}\n")), t).unwrap();
    assert_eq!(spots.len(), 1);
    assert_eq!(spots[0].message, "N0QBH EN25 37");
    assert!(spots_from_file(SpotFile::Missing, t).unwrap().is_empty());
    let denied = std::io::Error::new(std::io::ErrorKind::PermissionDenied, "denied");
    match spots_from_file(SpotFile::Failed(denied), t) {
        Err(WsprError::Io(e)) => assert_eq!(e.kind(), std::io::ErrorKind::PermissionDenied),
        _ => panic!("expected Io"),
    }
}

#[test]
fn wisdom_is_kept_once() {
    assert!(keeps_wisdom(true, false));
    assert!(!keeps_wisdom(true, true));
    assert!(!keeps_wisdom(false, false));
    assert!(!keeps_wisdom(false, true));
}

#[test]
fn every_record_is_one_line() {
    let records = ["{\"a\":1}", "", "{\"b\":2}"];
    let log: String = records.iter().map(|r| ndjson_line(r)).collect();
    assert_eq!(log, "{\"a\":1}\n\n{\"b\":2}\n");
    let lines: Vec<String> = split_lines(&chars_of(&log)).iter().map(string_of).collect();
    assert_eq!(lines, records);
}

#[test]
fn joined_words_split_again() {
    let words = ["WA5DXP", "EL49", "37", "<...>"];
    let split: Vec<String> = split_words(&chars_of(&words.join(" ")))
        .iter()
        .map(string_of)
        .collect();
    assert_eq!(split, words);
    assert!(split_words(&chars_of(" \t\u{A0}\u{3000}\n")).is_empty());
}

#[test]
fn words_split_as_std_splits_them() {
    for code in 0..0x3100u32 {
        if let Some(c) = char::from_u32(code) {
            let text = format!("a{c}b");
            assert_eq!(
                split_words(&chars_of(&text)).len(),
                text.split_whitespace().count(),
                "U+{code:04X}"
            );
        }
    }
}

#[test]
fn written_integers_read_back() {
    for n in [0, 7, -7, 10, 1_234_567_890, i32::MAX, i32::MIN] {
        let mut text = String::new();
        push_integer(&mut text, n);
        assert_eq!(text, n.to_string());
        assert_eq!(parse_i32(&chars_of(&text)), Some(n));
    }
}

#[test]
fn io_errors_convert() {
    let e = std::io::Error::new(std::io::ErrorKind::NotFound, "gone");
    match WsprError::from(e) {
        WsprError::Io(e) => assert_eq!(e.kind(), std::io::ErrorKind::NotFound),
        _ => panic!("expected Io"),
    }
}

#[test]
fn trimming_matches_std() {
    for text in ["", "  ", "a", " a b ", "\t\u{3000}x\r\n", "x\u{85}"] {
        assert_eq!(string_of(&trim_chars(&chars_of(text))), text.trim());
    }
}
