use wsprrs::decode::{
    hhmm_utc, is_grid_square, parse_all_wspr_line, parse_all_wspr_txt, refused_lines,
};
use wsprrs::error::WsprError;
use wsprrs::time::{even_minute_boundary, Timestamp};

const LINE: &str =
    "prrs_G NsUf -26  0.58   5.3661911  WA5DXP EL49 37   0  0.20  1  1    0  0  28     5    13";

fn epoch() -> Timestamp {
    Timestamp::from_unix_secs(0)
}

fn real32(text: &str) -> f32 {
    text.parse().expect("a real number")
}

/// The columns of [`LINE`] with column `at` replaced.
fn with_column(at: usize, text: &str) -> String {
    let mut columns: Vec<&str> = LINE.split_whitespace().collect();
    columns[at] = text;
    columns.join(" ")
}

// ---- is_grid_square ----

#[test]
fn grid_4char_valid() {
    assert!(is_grid_square("FN20"));
    assert!(is_grid_square("EM73"));
    assert!(is_grid_square("AR00")); // edge: A, R, 0, 0
}

#[test]
fn grid_6char_valid() {
    assert!(is_grid_square("FN20EJ")); // uppercase subsquare
    assert!(is_grid_square("EL49WX"));
    assert!(is_grid_square("FN20ej")); // lowercase subsquare
}

#[test]
fn grid_invalid_cases() {
    assert!(!is_grid_square("53")); // power value
    assert!(!is_grid_square("<...>")); // hash callsign
    assert!(!is_grid_square("ZZ99")); // Z not in A-R
    assert!(!is_grid_square("FN2")); // too short
    assert!(!is_grid_square("FN20EJX")); // too long
}

#[test]
fn grid_edges() {
    assert!(!is_grid_square("fn20"));
    assert!(!is_grid_square("Fn20EJ"));
    assert!(is_grid_square("FN20eJ"));
    assert!(is_grid_square("RR99XX"));
    assert!(!is_grid_square("SA00"));
    assert!(!is_grid_square("FN20YA"));
    assert!(!is_grid_square("FN20E"));
    assert!(!is_grid_square("20FN"));
    assert!(!is_grid_square(""));
    assert!(!is_grid_square("ÄÄ")); // four bytes, two characters
}

// ---- hhmm_utc ----

#[test]
fn hhmm_utc_unix_epoch() {
    assert_eq!(hhmm_utc(epoch()), "0000");
}

#[test]
fn hhmm_utc_specific_time() {
    // 2024-01-01 01:02:00 UTC = 1704070920s
    let t = Timestamp::from_unix_secs(1_704_070_920);
    assert_eq!(hhmm_utc(t), "0102");
}

#[test]
fn hhmm_utc_last_minute_and_before_the_epoch() {
    assert_eq!(hhmm_utc(Timestamp::from_unix_secs(86_399)), "2359");
    assert_eq!(hhmm_utc(Timestamp::from_unix_secs(86_400)), "0000");
    assert_eq!(hhmm_utc(Timestamp::from_unix_secs(-60)), "2359");
    assert_eq!(hhmm_utc(Timestamp::from_unix_secs(-86_400)), "0000");
}

#[test]
fn window_times_have_even_minutes() {
    for secs in (-200_000..200_000).step_by(37) {
        let text = hhmm_utc(even_minute_boundary(Timestamp::from_unix_secs(secs)));
        assert_eq!(text.len(), 4);
        let minutes: u32 = text[2..].parse().unwrap();
        assert_eq!(minutes % 2, 0);
    }
}

// ---- parse_all_wspr_line ----

#[test]
fn parse_type1_with_4char_grid() {
    let spot = parse_all_wspr_line(LINE, epoch()).expect("parse failed");

    assert_eq!(spot.snr_db, -26);
    assert!((real32(&spot.dt_sec) - 0.58).abs() < 1e-3);
    let freq_hz = spot.freq_mhz.parse::<f64>().unwrap() * 1_000_000.0;
    assert!((freq_hz - 5_366_191.1).abs() < 1.0);
    assert_eq!(spot.grid, "EL49");
    assert_eq!(spot.power_dbm, 37);
    assert_eq!(spot.drift, 0);
    assert!((real32(&spot.sync_quality) - 0.20).abs() < 1e-3);
    assert_eq!(spot.npass, 1);
    assert_eq!(spot.osd_pass, 1);
    assert_eq!(spot.nhardmin, 0);
    assert_eq!(spot.decode_cycles, 28);
    assert_eq!(spot.candidates, 5);
    assert_eq!(spot.nfano, 13);
    assert_eq!(spot.message, "WA5DXP EL49 37");
}

#[test]
fn parse_type3_with_6char_grid_and_hash_callsign() {
    let line =
        "prrs_k Pu8G -26  0.15   3.5700889  <...> FN20EJ 37  0  0.22  1  1    0  0  65   280   -77";
    let spot = parse_all_wspr_line(line, epoch()).expect("parse failed");

    assert_eq!(spot.grid, "FN20EJ");
    assert_eq!(spot.power_dbm, 37);
    assert_eq!(spot.candidates, 280);
    assert_eq!(spot.nfano, -77);
    assert_eq!(spot.message, "<...> FN20EJ 37");
    assert_eq!(spot.callsign, "<...>");
}

#[test]
fn parse_type2_no_grid() {
    // Callsign with prefix and power, no grid.
    let line =
        "prrs_t 0aYF  23 -0.36   7.0400808  1HO/VV8XYH 53   2  0.18  2  1   56  0  73  7050  -235";
    let spot = parse_all_wspr_line(line, epoch()).expect("parse failed");

    assert_eq!(spot.grid, "");
    assert_eq!(spot.power_dbm, 53);
    assert_eq!(spot.drift, 2);
    assert_eq!(spot.nhardmin, 56);
    assert_eq!(spot.candidates, 7050);
    assert_eq!(spot.nfano, -235);
    assert_eq!(spot.message, "1HO/VV8XYH 53");
    assert_eq!(spot.callsign, "1HO/VV8XYH");
}

#[test]
fn parse_negative_nhardmin_and_drift() {
    let line =
        "prrs_t SdCR -31  0.45   3.5700002  KF9KV EN52 17   0  0.16  3  3   -8  0  30  3737  -178";
    let spot = parse_all_wspr_line(line, epoch()).expect("parse failed");

    assert_eq!(spot.snr_db, -31);
    assert_eq!(spot.nhardmin, -8);
    assert_eq!(spot.npass, 3);
    assert_eq!(spot.osd_pass, 3);
    assert_eq!(spot.decode_cycles, 30);
    assert_eq!(spot.candidates, 3737);
    assert_eq!(spot.nfano, -178);
}

#[test]
fn parse_derives_time_from_window_start() {
    let t = Timestamp::from_unix_secs(1_704_070_920); // 01:02 UTC
    let spot = parse_all_wspr_line(LINE, t).expect("parse failed");
    assert_eq!(spot.time_utc, "0102");
}

#[test]
fn parse_too_short_returns_error() {
    let result = parse_all_wspr_line("too short", epoch());
    assert!(matches!(result, Err(WsprError::SpotParseFailed(_))));
}

#[test]
fn a_refused_line_comes_back_in_the_error() {
    match parse_all_wspr_line("  too short  ", epoch()) {
        Err(WsprError::SpotParseFailed(line)) => assert_eq!(line, "  too short  "),
        _ => panic!("expected SpotParseFailed"),
    }
}

#[test]
fn every_number_column_is_checked() {
    // With a grid in column 6 the power stands in column 7.
    for at in [2, 3, 4, 7, 8, 9, 10, 11, 12, 14, 15, 16] {
        let line = with_column(at, "x");
        assert!(
            parse_all_wspr_line(&line, epoch()).is_err(),
            "column {at} of {line:?}"
        );
    }
    // Receiver, hash, callsign and CRC count are not read as numbers.
    for at in [0, 1, 5, 13] {
        let line = with_column(at, "x");
        assert!(
            parse_all_wspr_line(&line, epoch()).is_ok(),
            "column {at} of {line:?}"
        );
    }
}

#[test]
fn a_grid_without_a_seventeenth_column_is_refused() {
    let columns: Vec<&str> = LINE.split_whitespace().collect();
    assert_eq!(columns.len(), 17);
    assert!(parse_all_wspr_line(&columns[..16].join(" "), epoch()).is_err());
    let mut more = columns.clone();
    more.push("anything");
    assert!(parse_all_wspr_line(&more.join(" "), epoch()).is_ok());
}

#[test]
fn number_columns_keep_their_ranges() {
    assert!(parse_all_wspr_line(&with_column(10, "255"), epoch()).is_ok());
    assert!(parse_all_wspr_line(&with_column(10, "256"), epoch()).is_err());
    assert!(parse_all_wspr_line(&with_column(10, "-1"), epoch()).is_err());
    assert!(parse_all_wspr_line(&with_column(14, "4294967295"), epoch()).is_ok());
    assert!(parse_all_wspr_line(&with_column(14, "4294967296"), epoch()).is_err());
    let spot = parse_all_wspr_line(&with_column(2, "-2147483648"), epoch()).unwrap();
    assert_eq!(spot.snr_db, i32::MIN);
    assert!(parse_all_wspr_line(&with_column(2, "2147483648"), epoch()).is_err());
    let spot = parse_all_wspr_line(&with_column(7, "+037"), epoch()).unwrap();
    assert_eq!(spot.power_dbm, 37);
    assert_eq!(spot.message, "WA5DXP EL49 37");
}

#[test]
fn real_columns_accept_what_floats_accept() {
    for text in [
        "0", "-0.36", "+1.", ".5", "1e5", "1.5E-3", "inf", "-Infinity", "NaN", "+nan", "1e", "e5",
        ".", "", "+", "1.2.3", "0x10", "1_000", "--1", "infinit", "1e+", "1e+7", "1 ",
    ] {
        if text.trim() != text || text.is_empty() {
            continue;
        }
        assert_eq!(
            parse_all_wspr_line(&with_column(3, text), epoch()).is_ok(),
            text.parse::<f32>().is_ok(),
            "{text:?}"
        );
    }
}

#[test]
fn columns_may_be_separated_by_any_white_space() {
    let columns: Vec<&str> = LINE.split_whitespace().collect();
    let spread = format!("\t {} \r", columns.join("\u{2003}\t"));
    let spot = parse_all_wspr_line(&spread, epoch()).unwrap();
    assert_eq!(spot.message, "WA5DXP EL49 37");
    assert_eq!(spot.nfano, 13);
}

#[test]
fn messages_start_with_the_callsign() {
    let spot = parse_all_wspr_line(LINE, epoch()).unwrap();
    let words: Vec<&str> = spot.message.split(' ').collect();
    assert_eq!(words, ["WA5DXP", "EL49", "37"]);
    assert_eq!(words[0], spot.callsign);
    let copy = spot.clone();
    assert_eq!(copy.message, spot.message);
    assert_eq!(copy.freq_mhz, "5.3661911");
}

// ---- parse_all_wspr_txt ----

#[test]
fn parse_full_output_multi_line() {
    let content = "\
prrs_G NsUf -26  0.58   5.3661911  WA5DXP EL49 37   0  0.20  1  1    0  0  28     5    13
prrs_t SdCR -26  0.66   3.5700455  N0QBH EN25 37    0  0.25  1  1    0  0  17    11   225

prrs_t 0aYF  23 -0.36   7.0400808  1HO/VV8XYH 53   2  0.18  2  1   56  0  73  7050  -235
";
    let spots = parse_all_wspr_txt(content, epoch());
    assert_eq!(spots.len(), 3);
    assert_eq!(spots[0].grid, "EL49");
    assert_eq!(spots[1].grid, "EN25");
    assert_eq!(spots[2].grid, "");
}

#[test]
fn parse_empty_file_returns_no_spots() {
    assert!(parse_all_wspr_txt("", epoch()).is_empty());
    assert!(parse_all_wspr_txt("\n\n", epoch()).is_empty());
}

#[test]
fn bad_lines_do_not_touch_their_neighbours() {
    let content = format!("garbage\r\n{LINE}\r\n{}\n{LINE}", with_column(9, "x"));
    let spots = parse_all_wspr_txt(&content, epoch());
    assert_eq!(spots.len(), 2);
    let parts = parse_all_wspr_txt("garbage", epoch()).len()
        + parse_all_wspr_txt(LINE, epoch()).len()
        + parse_all_wspr_txt(&with_column(9, "x"), epoch()).len()
        + parse_all_wspr_txt(LINE, epoch()).len();
    assert_eq!(spots.len(), parts);
}

#[test]
fn refused_lines_are_told_trimmed_and_in_order() {
    let bad = with_column(9, "x");
    let content = format!(" garbage \r\n{LINE}\r\n\t \n\n{bad}\n{LINE}");
    assert_eq!(refused_lines(&content), vec!["garbage".to_string(), bad]);
    assert_eq!(parse_all_wspr_txt(&content, epoch()).len(), 2);
    assert!(refused_lines(LINE).is_empty());
    assert!(refused_lines("").is_empty());
    assert!(refused_lines(" \n\t\n").is_empty());
}

#[test]
fn every_written_line_is_a_spot_or_refused() {
    let content = format!("{LINE}\n\nx\n  {LINE}  \n{}\n", with_column(2, "?"));
    let written = content.lines().filter(|l| !l.trim().is_empty()).count();
    let refused = refused_lines(&content);
    assert_eq!(
        parse_all_wspr_txt(&content, epoch()).len() + refused.len(),
        written
    );
    for line in refused {
        assert!(parse_all_wspr_line(&line, epoch()).is_err());
    }
}

#[test]
fn lowercase_fields_are_no_grid_in_a_line() {
    // Without a grid, column 6 has to be the power.
    assert!(parse_all_wspr_line(&with_column(6, "el49"), epoch()).is_err());
    assert!(parse_all_wspr_line(&with_column(6, "EL49xx"), epoch()).is_ok());
}
