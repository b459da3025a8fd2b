//! Reading `ALL_WSPR.TXT`, the table of spots that `wsprd` writes.
//!
//! Each line holds these columns, separated by white space:
//!
//! ```text
//! <rx_id> <hash> <snr> <dt> <freq_MHz> <call> [<grid>] <pwr>
//!     <drift> <sync_q> <npass> <osd_pass> <nhardmin> <nbadcrc>
//!     <ncycles> <candidates> <nfano>
//! ```
//!
//! The grid is a 4- or 6-character Maidenhead locator and is absent where a
//! message carries only callsign and power.

use crate::error::WsprError;
use crate::number::{
    is_real_number, parse_i32, parse_u32, parse_u8, push_integer, push_two_digits,
};
use crate::spot::WsprSpot;
use crate::text::{chars_of, push_chars, split_lines, split_words, string_of, trim_chars};
use crate::time::{Timestamp, DAY_SECS};
use vstd::prelude::*;

verus! {

/// Seconds in an hour.
pub const HOUR_SECS: u64 = 3_600;

/// Seconds in a minute.
pub const MINUTE_SECS: u64 = 60;

/// Columns of a line without a grid.
pub const MIN_COLUMNS: usize = 16;

/// Columns from the power to the end of the line.
pub const TAIL_COLUMNS: usize = 10;

/// A letter that names a grid field.
pub open spec fn is_field_letter(c: char) -> bool {
    'A' <= c <= 'R'
}

/// A letter that names a subsquare, in either case.
pub open spec fn is_subsquare_letter(c: char) -> bool {
    'A' <= c <= 'X' || 'a' <= c <= 'x'
}

/// Whether `s` is a Maidenhead locator: two field letters, two digits and, in a
/// locator of six, two subsquare letters.
pub open spec fn is_grid(s: Seq<char>) -> bool {
    &&& s.len() == 4 || s.len() == 6
    &&& is_field_letter(s[0]) && is_field_letter(s[1])
    &&& '0' <= s[2] <= '9' && '0' <= s[3] <= '9'
    &&& s.len() == 6 ==> is_subsquare_letter(s[4]) && is_subsquare_letter(s[5])
}

/// Whether the characters of `s` are a Maidenhead locator.
fn is_grid_chars(s: &Vec<char>) -> (r: bool)
    ensures
        r == is_grid(s@),
{
    if s.len() != 4 && s.len() != 6 {
        return false;
    }
    let field: bool = 'A' <= s[0] && s[0] <= 'R' && 'A' <= s[1] && s[1] <= 'R';
    let square: bool = '0' <= s[2] && s[2] <= '9' && '0' <= s[3] && s[3] <= '9';
    if s.len() == 4 {
        field && square
    } else {
        let fifth: bool = ('A' <= s[4] && s[4] <= 'X') || ('a' <= s[4] && s[4] <= 'x');
        let sixth: bool = ('A' <= s[5] && s[5] <= 'X') || ('a' <= s[5] && s[5] <= 'x');
        field && square && fifth && sixth
    }
}

/// Whether `s` is a 4- or 6-character Maidenhead grid locator.
///
/// * 4 characters: `[A-R][A-R][0-9][0-9]`, e.g. `FN20`
/// * 6 characters: the same and `[A-X][A-X]`, e.g. `FN20EJ` or `FN20ej`
///
/// The trailing subsquare pair may be written in either case.
pub fn is_grid_square(s: &str) -> (r: bool)
    ensures
        r == is_grid(s@),
{
    is_grid_chars(&chars_of(s))
}

/// The UTC time of day of `t` as four digits, `HHMM`.
pub open spec fn hhmm(t: Timestamp) -> Seq<char> {
    crate::number::two_digits(t.epoch_secs() % DAY_SECS as int / HOUR_SECS as int)
        + crate::number::two_digits(t.epoch_secs() % HOUR_SECS as int / MINUTE_SECS as int)
}

/// Formats the UTC time of day of `t` as four digits, `HHMM`.
pub fn hhmm_utc(t: Timestamp) -> (r: String)
    ensures
        r@ == hhmm(t),
{
    let secs: u64 = t.second_of_day();
    let hours: u64 = secs / HOUR_SECS;
    let minutes: u64 = secs % HOUR_SECS / MINUTE_SECS;
    assert(minutes == t.epoch_secs() % HOUR_SECS as int / MINUTE_SECS as int);
    let mut r: String = String::new();
    push_two_digits(&mut r, hours as u32);
    push_two_digits(&mut r, minutes as u32);
    assert(r@ =~= hhmm(t));
    r
}

/// The column that holds the power: it follows the grid, or stands in its
/// place.
pub open spec fn power_column(f: Seq<Seq<char>>) -> int {
    if is_grid(f[6]) {
        7
    } else {
        6
    }
}

/// Whether the columns `f` are complete and each is the kind of number that it
/// has to be.
pub open spec fn columns_valid(f: Seq<Seq<char>>) -> bool {
    let base = power_column(f);
    &&& f.len() >= MIN_COLUMNS
    &&& f.len() >= base + TAIL_COLUMNS
    &&& crate::number::i32_value(f[2]) is Some
    &&& crate::number::is_real(f[3])
    &&& crate::number::is_real(f[4])
    &&& crate::number::i32_value(f[base]) is Some
    &&& crate::number::i32_value(f[base + 1]) is Some
    &&& crate::number::is_real(f[base + 2])
    &&& crate::number::u8_value(f[base + 3]) is Some
    &&& crate::number::u8_value(f[base + 4]) is Some
    &&& crate::number::i32_value(f[base + 5]) is Some
    &&& crate::number::u32_value(f[base + 7]) is Some
    &&& crate::number::u32_value(f[base + 8]) is Some
    &&& crate::number::i32_value(f[base + 9]) is Some
}

/// The message of a spot: callsign, grid where there is one, and power.
pub open spec fn message_text(callsign: Seq<char>, grid: Seq<char>, power_dbm: int) -> Seq<char> {
    if grid.len() == 0 {
        callsign + seq![' '] + crate::number::integer_text(power_dbm)
    } else {
        callsign + seq![' '] + grid + seq![' '] + crate::number::integer_text(power_dbm)
    }
}

/// The spot that valid columns describe.
pub open spec fn columns_spot(f: Seq<Seq<char>>, window_start: Timestamp) -> crate::spot::SpotView {
    let base = power_column(f);
    let grid = if is_grid(f[6]) {
        f[6]
    } else {
        Seq::empty()
    };
    let power_dbm = crate::number::i32_value(f[base])->0;
    crate::spot::SpotView {
        time_utc: hhmm(window_start),
        snr_db: crate::number::i32_value(f[2])->0,
        dt_sec: f[3],
        freq_mhz: f[4],
        message: message_text(f[5], grid, power_dbm),
        callsign: f[5],
        grid,
        power_dbm,
        drift: crate::number::i32_value(f[base + 1])->0,
        sync_quality: f[base + 2],
        npass: crate::number::u8_value(f[base + 3])->0,
        osd_pass: crate::number::u8_value(f[base + 4])->0,
        nhardmin: crate::number::i32_value(f[base + 5])->0,
        decode_cycles: crate::number::u32_value(f[base + 7])->0,
        candidates: crate::number::u32_value(f[base + 8])->0,
        nfano: crate::number::i32_value(f[base + 9])->0,
    }
}

/// The spot that a line of `ALL_WSPR.TXT` describes, where it describes one.
pub open spec fn line_spot(line: Seq<char>, window_start: Timestamp) -> Option<
    crate::spot::SpotView,
> {
    let f = crate::text::words(line);
    if columns_valid(f) {
        Some(columns_spot(f, window_start))
    } else {
        None
    }
}

/// Writes the message of a spot.
fn message_of(callsign: &Vec<char>, grid: &Vec<char>, power_dbm: i32) -> (r: String)
    ensures
        r@ == message_text(callsign@, grid@, power_dbm as int),
{
    let mut r: String = string_of(callsign);
    r.push(' ');
    if grid.len() > 0 {
        push_chars(&mut r, grid);
        r.push(' ');
    }
    push_integer(&mut r, power_dbm);
    assert(r@ =~= message_text(callsign@, grid@, power_dbm as int));
    r
}

/// Reads the columns of one line; `None` where they describe no spot.
fn read_columns(f: &Vec<Vec<char>>, window_start: Timestamp) -> (r: Option<WsprSpot>)
    ensures
        match r {
            Some(spot) => columns_valid(crate::text::texts(f@)) && spot@ == columns_spot(
                crate::text::texts(f@),
                window_start,
            ),
            None => !columns_valid(crate::text::texts(f@)),
        },
{
    let ghost cols = crate::text::texts(f@);
    if f.len() < MIN_COLUMNS {
        return None;
    }
    let snr_db: i32 = match parse_i32(&f[2]) {
        Some(v) => v,
        None => return None,
    };
    if !is_real_number(&f[3]) || !is_real_number(&f[4]) {
        return None;
    }
    let has_grid: bool = is_grid_chars(&f[6]);
    let base: usize = if has_grid {
        7
    } else {
        6
    };
    if f.len() < base + TAIL_COLUMNS {
        return None;
    }
    assert(base == power_column(cols));
    let power_dbm: i32 = match parse_i32(&f[base]) {
        Some(v) => v,
        None => return None,
    };
    let drift: i32 = match parse_i32(&f[base + 1]) {
        Some(v) => v,
        None => return None,
    };
    if !is_real_number(&f[base + 2]) {
        return None;
    }
    let npass: u8 = match parse_u8(&f[base + 3]) {
        Some(v) => v,
        None => return None,
    };
    let osd_pass: u8 = match parse_u8(&f[base + 4]) {
        Some(v) => v,
        None => return None,
    };
    let nhardmin: i32 = match parse_i32(&f[base + 5]) {
        Some(v) => v,
        None => return None,
    };
    // Column `base + 6` counts CRC failures: always 0 for a valid decode.
    let decode_cycles: u32 = match parse_u32(&f[base + 7]) {
        Some(v) => v,
        None => return None,
    };
    let candidates: u32 = match parse_u32(&f[base + 8]) {
        Some(v) => v,
        None => return None,
    };
    let nfano: i32 = match parse_i32(&f[base + 9]) {
        Some(v) => v,
        None => return None,
    };
    let no_grid: Vec<char> = Vec::new();
    let grid: &Vec<char> = if has_grid {
        &f[6]
    } else {
        &no_grid
    };
    let spot = WsprSpot {
        time_utc: hhmm_utc(window_start),
        snr_db,
        dt_sec: string_of(&f[3]),
        freq_mhz: string_of(&f[4]),
        message: message_of(&f[5], grid, power_dbm),
        callsign: string_of(&f[5]),
        grid: string_of(grid),
        power_dbm,
        drift,
        sync_quality: string_of(&f[base + 2]),
        npass,
        osd_pass,
        nhardmin,
        decode_cycles,
        candidates,
        nfano,
    };
    assert(spot@ =~= columns_spot(cols, window_start));
    Some(spot)
}

/// Parses a single line of `ALL_WSPR.TXT`.
///
/// `window_start` is the start of the decoded window and gives the spot its
/// time.  A line with missing columns, or with a column that is not the number
/// it should be, is refused and handed back in the error.
pub fn parse_all_wspr_line(line: &str, window_start: Timestamp) -> (r: Result<WsprSpot, WsprError>)
    ensures
        match r {
            Ok(spot) => line_spot(line@, window_start) == Some(spot@),
            Err(e) => line_spot(line@, window_start) is None && (e matches WsprError::SpotParseFailed(
                text,
            ) && text@ == line@),
        },
{
    let chars = chars_of(line);
    match read_columns(&split_words(&chars), window_start) {
        Some(spot) => Ok(spot),
        None => Err(WsprError::SpotParseFailed(string_of(&chars))),
    }
}

/// The spots that a list of lines describes, in order; lines that describe none
/// are passed over.
pub open spec fn spots_in(lines: Seq<Seq<char>>, window_start: Timestamp) -> Seq<
    crate::spot::SpotView,
>
    decreases lines.len(),
{
    if lines.len() == 0 {
        Seq::empty()
    } else {
        let before = spots_in(lines.drop_last(), window_start);
        match line_spot(lines.last(), window_start) {
            Some(spot) => before.push(spot),
            None => before,
        }
    }
}

/// The contents of a list of spots.
pub open spec fn spot_views(spots: Seq<WsprSpot>) -> Seq<crate::spot::SpotView> {
    spots.map_values(|spot: WsprSpot| spot@)
}

/// Parses the text of `ALL_WSPR.TXT`: one spot for each line that describes
/// one.  Blank and unreadable lines are skipped; [`refused_lines`] tells the
/// unreadable ones.
pub fn parse_all_wspr_txt(content: &str, window_start: Timestamp) -> (r: Vec<WsprSpot>)
    ensures
        spot_views(r@) == spots_in(crate::text::lines(content@), window_start),
{
    let all = split_lines(&chars_of(content));
    let ghost lines = crate::text::lines(content@);
    let mut r: Vec<WsprSpot> = Vec::new();
    let mut i: usize = 0;
    assert(spot_views(r@) =~= spots_in(lines.take(0), window_start));
    while i < all.len()
        invariant
            i <= all@.len(),
            lines == crate::text::texts(all@),
            spot_views(r@) == spots_in(lines.take(i as int), window_start),
        decreases all@.len() - i,
    {
        let ghost before = r@;
        assert(lines[i as int] == all@[i as int]@);
        assert(lines.take(i + 1).drop_last() =~= lines.take(i as int));
        assert(lines.take(i + 1).last() == lines[i as int]);
        match read_columns(&split_words(&all[i]), window_start) {
            Some(spot) => {
                r.push(spot);
                assert(spot_views(r@) =~= spot_views(before).push(spot@));
            },
            None => {},
        }
        i += 1;
    }
    assert(lines.take(i as int) =~= lines);
    r
}

/// A spot's grid is empty or a Maidenhead locator, and its real-valued columns
/// are the texts of real numbers.
pub proof fn law_spot_columns_are_valid(line: Seq<char>, window_start: Timestamp)
    requires
        line_spot(line, window_start) is Some,
    ensures
        ({
            let spot = line_spot(line, window_start)->0;
            &&& spot.grid.len() == 0 || is_grid(spot.grid)
            &&& crate::number::is_real(spot.dt_sec)
            &&& crate::number::is_real(spot.freq_mhz)
            &&& crate::number::is_real(spot.sync_quality)
        }),
{
}

/// The words of a spot's message are its callsign, its grid where it has one,
/// and its power.
pub proof fn law_message_tells_the_spot(line: Seq<char>, window_start: Timestamp)
    requires
        line_spot(line, window_start) is Some,
    ensures
        ({
            let spot = line_spot(line, window_start)->0;
            let power = crate::number::integer_text(spot.power_dbm);
            crate::text::words(spot.message) == (if spot.grid.len() == 0 {
                seq![spot.callsign, power]
            } else {
                seq![spot.callsign, spot.grid, power]
            })
        }),
{
    let f = crate::text::words(line);
    let spot = line_spot(line, window_start)->0;
    let power = crate::number::integer_text(spot.power_dbm);
    crate::text::lemma_words_are_words(line, 0);
    crate::number::lemma_integer_text_is_word(spot.power_dbm);
    if spot.grid.len() == 0 {
        let parts = seq![spot.callsign, power];
        crate::text::law_split_undoes_join(parts);
        reveal_with_fuel(crate::text::joined, 3);
        assert(parts.drop_first() =~= seq![power]);
        assert(spot.message =~= crate::text::joined(parts));
    } else {
        let parts = seq![spot.callsign, spot.grid, power];
        crate::text::law_split_undoes_join(parts);
        reveal_with_fuel(crate::text::joined, 4);
        assert(parts.drop_first() =~= seq![spot.grid, power]);
        assert(seq![spot.grid, power].drop_first() =~= seq![power]);
        assert(spot.message =~= crate::text::joined(parts));
    }
}

/// A line written from valid columns, one space between neighbours, reads back
/// as the spot that the columns describe.
pub proof fn law_written_columns_read_back(f: Seq<Seq<char>>, window_start: Timestamp)
    requires
        forall|i: int| 0 <= i < f.len() ==> crate::text::is_word(#[trigger] f[i]),
        columns_valid(f),
    ensures
        line_spot(crate::text::joined(f), window_start) == Some(columns_spot(f, window_start)),
{
    crate::text::law_split_undoes_join(f);
}

/// Lists of lines decode independently of each other.
proof fn lemma_spots_append(a: Seq<Seq<char>>, b: Seq<Seq<char>>, window_start: Timestamp)
    ensures
        spots_in(a + b, window_start) == spots_in(a, window_start) + spots_in(b, window_start),
    decreases b.len(),
{
    if b.len() == 0 {
        assert(a + b =~= a);
        assert(spots_in(a + b, window_start) =~= spots_in(a, window_start) + spots_in(
            b,
            window_start,
        ));
    } else {
        lemma_spots_append(a, b.drop_last(), window_start);
        assert((a + b).drop_last() =~= a + b.drop_last());
        assert((a + b).last() == b.last());
        assert(spots_in(a + b, window_start) =~= spots_in(a, window_start) + spots_in(
            b,
            window_start,
        ));
    }
}

/// What stands on one line does not touch what other lines describe: text
/// appended on a new line adds its own spots after those already there.
pub proof fn law_lines_decode_independently(
    a: Seq<char>,
    b: Seq<char>,
    window_start: Timestamp,
)
    ensures
        spots_in(crate::text::lines(a + seq!['\n'] + b), window_start) == spots_in(
            crate::text::lines(a),
            window_start,
        ) + spots_in(crate::text::lines(b), window_start),
{
    let blank = if a.len() == 0 || a.last() == '\n' {
        seq![Seq::<char>::empty()]
    } else {
        Seq::empty()
    };
    crate::text::lemma_lines_append(a, b);
    lemma_spots_append(crate::text::lines(a) + blank, crate::text::lines(b), window_start);
    lemma_spots_append(crate::text::lines(a), blank, window_start);
    assert(spots_in(blank, window_start) =~= Seq::empty()) by {
        if blank.len() > 0 {
            assert(crate::text::words(blank.last()).len() == 0);
            assert(blank.drop_last() =~= Seq::empty());
            assert(spots_in(blank.drop_last(), window_start) =~= Seq::empty());
        }
    }
}

/// The time of day of a window's start has an even minute.
pub proof fn law_window_times_are_even(now: Timestamp)
    requires
        now.has_boundary(),
    ensures
        ({
            let secs = crate::time::boundary_of(now).epoch_secs();
            let hours = secs % DAY_SECS as int / HOUR_SECS as int;
            let minutes = secs % HOUR_SECS as int / MINUTE_SECS as int;
            &&& 0 <= hours < 24
            &&& 0 <= minutes < 60
            &&& minutes % 2 == 0
            &&& hhmm(crate::time::boundary_of(now)) == crate::number::two_digits(hours)
                + crate::number::two_digits(minutes)
        }),
{
    crate::time::law_boundary_is_the_even_minute_before(now);
    let secs = crate::time::boundary_of(now).epoch_secs();
    assert(secs == crate::time::boundary_of(now).secs);
}

/// Lines without words describe no spots.
proof fn lemma_wordless_lines(lines: Seq<Seq<char>>, window_start: Timestamp)
    requires
        forall|n: int| 0 <= n < lines.len() ==> crate::text::words(#[trigger] lines[n]).len() == 0,
    ensures
        spots_in(lines, window_start).len() == 0,
    decreases lines.len(),
{
    if lines.len() > 0 {
        lemma_wordless_lines(lines.drop_last(), window_start);
    }
}

/// Blank text, empty text included, describes no spots.
pub proof fn law_blank_text_has_no_spots(text: Seq<char>, window_start: Timestamp)
    requires
        forall|k: int| 0 <= k < text.len() ==> crate::text::is_white(#[trigger] text[k]),
    ensures
        spots_in(crate::text::lines(text), window_start).len() == 0,
{
    crate::text::lemma_blank_lines(text, 0);
    lemma_wordless_lines(crate::text::lines(text), window_start);
}

/// Whether a line has something on it that describes no spot.
pub open spec fn is_refused(line: Seq<char>) -> bool {
    crate::text::trimmed(line).len() > 0 && !columns_valid(crate::text::words(line))
}

/// The refused lines of a list, trimmed, in order.
pub open spec fn refused_in(lines: Seq<Seq<char>>) -> Seq<Seq<char>>
    decreases lines.len(),
{
    if lines.len() == 0 {
        Seq::empty()
    } else {
        let before = refused_in(lines.drop_last());
        if is_refused(lines.last()) {
            before.push(crate::text::trimmed(lines.last()))
        } else {
            before
        }
    }
}

/// The contents of a list of strings.
pub open spec fn string_texts(strings: Seq<String>) -> Seq<Seq<char>> {
    strings.map_values(|s: String| s@)
}

/// The lines of `ALL_WSPR.TXT` that [`parse_all_wspr_txt`] passes over though
/// they are not blank, trimmed, in order.
pub fn refused_lines(content: &str) -> (r: Vec<String>)
    ensures
        string_texts(r@) == refused_in(crate::text::lines(content@)),
{
    let all = split_lines(&chars_of(content));
    let ghost lines = crate::text::lines(content@);
    let start = Timestamp::from_unix_secs(0);
    let mut r: Vec<String> = Vec::new();
    let mut i: usize = 0;
    assert(string_texts(r@) =~= refused_in(lines.take(0)));
    while i < all.len()
        invariant
            i <= all@.len(),
            lines == crate::text::texts(all@),
            string_texts(r@) == refused_in(lines.take(i as int)),
        decreases all@.len() - i,
    {
        let ghost before = r@;
        assert(lines[i as int] == all@[i as int]@);
        assert(lines.take(i + 1).drop_last() =~= lines.take(i as int));
        assert(lines.take(i + 1).last() == lines[i as int]);
        let line = trim_chars(&all[i]);
        if line.len() > 0 && read_columns(&split_words(&all[i]), start).is_none() {
            let text = string_of(&line);
            r.push(text);
            assert(string_texts(r@) =~= string_texts(before).push(line@));
        }
        i += 1;
    }
    assert(lines.take(i as int) =~= lines);
    r
}

/// White space around a line does not change what it describes.
pub proof fn law_trimming_keeps_the_spot(line: Seq<char>, window_start: Timestamp)
    ensures
        line_spot(crate::text::trimmed(line), window_start) == line_spot(line, window_start),
{
    crate::text::law_trimming_keeps_the_words(line);
}

/// The lines that are not blank.
pub open spec fn written_lines(lines: Seq<Seq<char>>) -> nat
    decreases lines.len(),
{
    if lines.len() == 0 {
        0
    } else {
        written_lines(lines.drop_last()) + (if crate::text::trimmed(lines.last()).len() > 0 {
            1nat
        } else {
            0
        })
    }
}

/// No line is lost: each line that is not blank gives a spot or is refused, and
/// a refused line describes no spot by itself.
pub proof fn law_every_line_is_accounted_for(lines: Seq<Seq<char>>, window_start: Timestamp)
    ensures
        spots_in(lines, window_start).len() + refused_in(lines).len() == written_lines(lines),
        forall|i: int|
            0 <= i < refused_in(lines).len() ==> line_spot(
                #[trigger] refused_in(lines)[i],
                window_start,
            ) is None,
    decreases lines.len(),
{
    if lines.len() > 0 {
        let head = lines.drop_last();
        law_every_line_is_accounted_for(head, window_start);
        crate::text::law_trimming_keeps_the_words(lines.last());
        assert forall|i: int| 0 <= i < refused_in(lines).len() implies line_spot(
            #[trigger] refused_in(lines)[i],
            window_start,
        ) is None by {
            if i < refused_in(head).len() {
                assert(refused_in(lines)[i] == refused_in(head)[i]);
            }
        }
    }
}

/// A locator is two capitals from A to R and two digits, and in one of six two
/// more letters from A to X, each capital or small; nothing else is one.
pub proof fn law_grids_are_letters_and_digits(s: Seq<char>)
    ensures
        is_grid(s) <==> {
            &&& s.len() == 4 || s.len() == 6
            &&& 65 <= s[0] as int <= 82
            &&& 65 <= s[1] as int <= 82
            &&& 48 <= s[2] as int <= 57
            &&& 48 <= s[3] as int <= 57
            &&& s.len() == 6 ==> 65 <= s[4] as int <= 88 || 97 <= s[4] as int <= 120
            &&& s.len() == 6 ==> 65 <= s[5] as int <= 88 || 97 <= s[5] as int <= 120
        },
{
}

/// The digits of a time of day are those of its hours and minutes.
proof fn lemma_hhmm_digits(t: Timestamp, hours: int, minutes: int)
    requires
        0 <= hours < 24,
        0 <= minutes < 60,
        hours == t.epoch_secs() % DAY_SECS as int / HOUR_SECS as int,
        minutes == t.epoch_secs() % HOUR_SECS as int / MINUTE_SECS as int,
    ensures
        hhmm(t).len() == 4,
        hhmm(t)[0] as int == 48 + hours / 10,
        hhmm(t)[1] as int == 48 + hours % 10,
        hhmm(t)[2] as int == 48 + minutes / 10,
        hhmm(t)[3] as int == 48 + minutes % 10,
{
    let s = hhmm(t);
    let h = crate::number::two_digits(hours);
    let m = crate::number::two_digits(minutes);
    crate::number::law_two_digits_are_tens_and_ones(hours);
    crate::number::law_two_digits_are_tens_and_ones(minutes);
    assert(s[0] == h[0] && s[1] == h[1] && s[2] == m[0] && s[3] == m[1]);
    crate::number::law_digits_have_their_worth(s[0], hours / 10);
    crate::number::law_digits_have_their_worth(s[1], hours % 10);
    crate::number::law_digits_have_their_worth(s[2], minutes / 10);
    crate::number::law_digits_have_their_worth(s[3], minutes % 10);
}

/// The second of the day, in hours, minutes and seconds.
proof fn lemma_second_of_day(secs: int, days: int)
    requires
        days * 86_400 <= secs < (days + 1) * 86_400,
    ensures
        ({
            let hours = secs % 86_400 / 3_600;
            let minutes = secs % 3_600 / 60;
            let told = (hours * 60 + minutes) * 60;
            &&& 0 <= hours < 24
            &&& 0 <= minutes < 60
            &&& told <= secs - days * 86_400 < told + 60
        }),
{
    let day_secs = secs - days * 86_400;
    assert(secs % 86_400 == day_secs);
    assert(secs % 3_600 == day_secs % 3_600);
}

/// A time of day is four digits, hours from 0 to 23 and minutes from 0 to 59, and
/// the instant lies within that minute of its day.
pub proof fn law_times_of_day_tell_the_minute(t: Timestamp, days: int)
    requires
        days * 86_400 * 1_000_000_000 <= t.secs * 1_000_000_000 + t.nanos < (days + 1) * 86_400
            * 1_000_000_000,
    ensures
        ({
            let s = hhmm(t);
            let hours = (s[0] as int - 48) * 10 + (s[1] as int - 48);
            let minutes = (s[2] as int - 48) * 10 + (s[3] as int - 48);
            let into_day = t.secs * 1_000_000_000 + t.nanos - days * 86_400 * 1_000_000_000;
            let told = (hours * 60 + minutes) * 60 * 1_000_000_000;
            &&& s.len() == 4
            &&& forall|i: int| 0 <= i < 4 ==> 48 <= #[trigger] s[i] as int <= 57
            &&& 0 <= hours < 24
            &&& 0 <= minutes < 60
            &&& told <= into_day < told + 60 * 1_000_000_000
        }),
{
    let secs = t.epoch_secs();
    crate::time::law_instants_are_seconds_and_nanoseconds(t);
    assert(days * 86_400 <= secs < (days + 1) * 86_400);
    lemma_second_of_day(secs, days);
    let hours = secs % 86_400 / 3_600;
    let minutes = secs % 3_600 / 60;
    lemma_hhmm_digits(t, hours, minutes);
    let s = hhmm(t);
    assert((s[0] as int - 48) * 10 + (s[1] as int - 48) == hours);
    assert((s[2] as int - 48) * 10 + (s[3] as int - 48) == minutes);
}

/// The columns of a line, in the order in which they are written; the grid is
/// empty where there is none.
pub struct WrittenLine {
    pub rx_id: Seq<char>,
    pub hash: Seq<char>,
    pub snr: Seq<char>,
    pub dt: Seq<char>,
    pub freq: Seq<char>,
    pub call: Seq<char>,
    pub grid: Seq<char>,
    pub power: Seq<char>,
    pub drift: Seq<char>,
    pub sync: Seq<char>,
    pub npass: Seq<char>,
    pub osd_pass: Seq<char>,
    pub nhardmin: Seq<char>,
    pub nbadcrc: Seq<char>,
    pub ncycles: Seq<char>,
    pub candidates: Seq<char>,
    pub nfano: Seq<char>,
}

/// The columns of a line one behind the other, without the grid where it is
/// empty, and `extra` ones behind them.
pub open spec fn written_columns(w: WrittenLine, extra: Seq<Seq<char>>) -> Seq<Seq<char>> {
    seq![w.rx_id, w.hash, w.snr, w.dt, w.freq, w.call] + (if w.grid.len() == 0 {
        Seq::empty()
    } else {
        seq![w.grid]
    }) + seq![
        w.power,
        w.drift,
        w.sync,
        w.npass,
        w.osd_pass,
        w.nhardmin,
        w.nbadcrc,
        w.ncycles,
        w.candidates,
        w.nfano,
    ] + extra
}

/// Whether a text is a signed number of 32 bits.
pub open spec fn is_signed_column(s: Seq<char>) -> bool {
    crate::number::signed_number(s) is Some && -2_147_483_648 <= crate::number::signed_number(s)->0
        <= 2_147_483_647
}

/// Whether a text is an unsigned number of at most `limit`.
pub open spec fn is_unsigned_column(s: Seq<char>, limit: int) -> bool {
    crate::number::unsigned_number(s, 10) is Some && 0 <= crate::number::unsigned_number(s, 10)->0
        <= limit
}

/// Whether every column holds what its place asks for.
pub open spec fn written_validly(w: WrittenLine) -> bool {
    &&& w.grid.len() == 0 || is_grid(w.grid)
    &&& is_signed_column(w.snr)
    &&& crate::number::is_real(w.dt)
    &&& crate::number::is_real(w.freq)
    &&& is_signed_column(w.power)
    &&& is_signed_column(w.drift)
    &&& crate::number::is_real(w.sync)
    &&& is_unsigned_column(w.npass, 255)
    &&& is_unsigned_column(w.osd_pass, 255)
    &&& is_signed_column(w.nhardmin)
    &&& is_unsigned_column(w.ncycles, 4_294_967_295)
    &&& is_unsigned_column(w.candidates, 4_294_967_295)
    &&& is_signed_column(w.nfano)
}

/// A number is no locator: it does not start with a letter.
proof fn lemma_numbers_are_no_grids(s: Seq<char>)
    requires
        crate::number::signed_number(s) is Some,
    ensures
        !is_grid(s),
{
    if is_grid(s) {
        assert(s[0] != '+' && s[0] != '-');
        assert(crate::number::digit_worth(s[0], 10) is None);
    }
}

/// Whether a spot tells what the columns of a line say, each in the field of its
/// name, with its message made of callsign, grid and power.
pub open spec fn tells(spot: crate::spot::SpotView, w: WrittenLine) -> bool {
    &&& Some(spot.snr_db) == crate::number::signed_number(w.snr)
    &&& spot.dt_sec == w.dt
    &&& spot.freq_mhz == w.freq
    &&& spot.callsign == w.call
    &&& spot.grid == w.grid
    &&& Some(spot.power_dbm) == crate::number::signed_number(w.power)
    &&& Some(spot.drift) == crate::number::signed_number(w.drift)
    &&& spot.sync_quality == w.sync
    &&& Some(spot.npass) == crate::number::unsigned_number(w.npass, 10)
    &&& Some(spot.osd_pass) == crate::number::unsigned_number(w.osd_pass, 10)
    &&& Some(spot.nhardmin) == crate::number::signed_number(w.nhardmin)
    &&& Some(spot.decode_cycles) == crate::number::unsigned_number(w.ncycles, 10)
    &&& Some(spot.candidates) == crate::number::unsigned_number(w.candidates, 10)
    &&& Some(spot.nfano) == crate::number::signed_number(w.nfano)
    &&& spot.message == w.call + (if w.grid.len() == 0 {
        Seq::empty()
    } else {
        seq![' '] + w.grid
    }) + seq![' '] + crate::number::integer_text(spot.power_dbm)
}

/// A line whose columns are written in their order, with what each asks for, is
/// read as the spot that they tell, with the time of the window's start.  Columns
/// behind the last one do not matter.
pub proof fn law_columns_are_read_in_their_order(
    line: Seq<char>,
    w: WrittenLine,
    extra: Seq<Seq<char>>,
    window_start: Timestamp,
)
    requires
        written_validly(w),
        crate::text::words(line) == written_columns(w, extra),
    ensures
        ({
            let spot = line_spot(line, window_start);
            &&& spot is Some
            &&& tells(spot->0, w)
            &&& spot->0.time_utc == hhmm(window_start)
        }),
{
    let f = crate::text::words(line);
    lemma_numbers_are_no_grids(w.power);
    assert(f[2] == w.snr && f[3] == w.dt && f[4] == w.freq && f[5] == w.call);
    if w.grid.len() == 0 {
        assert(f[6] == w.power && f[7] == w.drift && f[8] == w.sync && f[9] == w.npass);
        assert(f[10] == w.osd_pass && f[11] == w.nhardmin && f[13] == w.ncycles);
        assert(f[14] == w.candidates && f[15] == w.nfano);
    } else {
        assert(f[6] == w.grid && f[7] == w.power && f[8] == w.drift && f[9] == w.sync);
        assert(f[10] == w.npass && f[11] == w.osd_pass && f[12] == w.nhardmin);
        assert(f[14] == w.ncycles && f[15] == w.candidates && f[16] == w.nfano);
    }
    assert(columns_valid(f));
    let spot = columns_spot(f, window_start);
    assert(spot.grid =~= w.grid);
    assert(spot.message =~= w.call + (if w.grid.len() == 0 {
        Seq::empty()
    } else {
        seq![' '] + w.grid
    }) + seq![' '] + crate::number::integer_text(spot.power_dbm));
}

/// Every line that is read as a spot is written so: its columns, in their order,
/// hold what each asks for and tell the spot.
pub proof fn law_spots_come_from_written_columns(line: Seq<char>, window_start: Timestamp) -> (r: (
    WrittenLine,
    Seq<Seq<char>>,
))
    requires
        line_spot(line, window_start) is Some,
    ensures
        written_validly(r.0),
        crate::text::words(line) == written_columns(r.0, r.1),
        tells(line_spot(line, window_start)->0, r.0),
        line_spot(line, window_start)->0.time_utc == hhmm(window_start),
{
    let f = crate::text::words(line);
    let base = power_column(f);
    let w = WrittenLine {
        rx_id: f[0],
        hash: f[1],
        snr: f[2],
        dt: f[3],
        freq: f[4],
        call: f[5],
        grid: if is_grid(f[6]) {
            f[6]
        } else {
            Seq::empty()
        },
        power: f[base],
        drift: f[base + 1],
        sync: f[base + 2],
        npass: f[base + 3],
        osd_pass: f[base + 4],
        nhardmin: f[base + 5],
        nbadcrc: f[base + 6],
        ncycles: f[base + 7],
        candidates: f[base + 8],
        nfano: f[base + 9],
    };
    let extra = f.skip(base + 10);
    assert(f =~= written_columns(w, extra));
    assert(written_validly(w));
    law_columns_are_read_in_their_order(line, w, extra, window_start);
    (w, extra)
}

/// The line that a spot's values are written as, integers in decimal.
pub open spec fn spot_line(
    v: crate::spot::SpotView,
    rx_id: Seq<char>,
    hash: Seq<char>,
    nbadcrc: Seq<char>,
) -> WrittenLine {
    WrittenLine {
        rx_id,
        hash,
        snr: crate::number::integer_text(v.snr_db),
        dt: v.dt_sec,
        freq: v.freq_mhz,
        call: v.callsign,
        grid: v.grid,
        power: crate::number::integer_text(v.power_dbm),
        drift: crate::number::integer_text(v.drift),
        sync: v.sync_quality,
        npass: crate::number::integer_text(v.npass),
        osd_pass: crate::number::integer_text(v.osd_pass),
        nhardmin: crate::number::integer_text(v.nhardmin),
        nbadcrc,
        ncycles: crate::number::integer_text(v.decode_cycles),
        candidates: crate::number::integer_text(v.candidates),
        nfano: crate::number::integer_text(v.nfano),
    }
}

/// A spot that is written as a line, its values in the order of the columns and a
/// space between neighbours, reads back with every value in the field it had.
pub proof fn law_written_spots_read_back(
    v: crate::spot::SpotView,
    rx_id: Seq<char>,
    hash: Seq<char>,
    nbadcrc: Seq<char>,
    window_start: Timestamp,
)
    requires
        crate::text::is_word(rx_id),
        crate::text::is_word(hash),
        crate::text::is_word(nbadcrc),
        crate::text::is_word(v.callsign),
        crate::text::is_word(v.dt_sec) && crate::number::is_real(v.dt_sec),
        crate::text::is_word(v.freq_mhz) && crate::number::is_real(v.freq_mhz),
        crate::text::is_word(v.sync_quality) && crate::number::is_real(v.sync_quality),
        v.grid.len() == 0 || is_grid(v.grid),
        -2_147_483_648 <= v.snr_db <= 2_147_483_647,
        -2_147_483_648 <= v.power_dbm <= 2_147_483_647,
        -2_147_483_648 <= v.drift <= 2_147_483_647,
        -2_147_483_648 <= v.nhardmin <= 2_147_483_647,
        -2_147_483_648 <= v.nfano <= 2_147_483_647,
        0 <= v.npass <= 255,
        0 <= v.osd_pass <= 255,
        0 <= v.decode_cycles <= 4_294_967_295,
        0 <= v.candidates <= 4_294_967_295,
    ensures
        ({
            let line = crate::text::joined(
                written_columns(spot_line(v, rx_id, hash, nbadcrc), Seq::empty()),
            );
            let spot = line_spot(line, window_start);
            &&& spot is Some
            &&& spot->0.snr_db == v.snr_db
            &&& spot->0.dt_sec == v.dt_sec
            &&& spot->0.freq_mhz == v.freq_mhz
            &&& spot->0.callsign == v.callsign
            &&& spot->0.grid == v.grid
            &&& spot->0.power_dbm == v.power_dbm
            &&& spot->0.drift == v.drift
            &&& spot->0.sync_quality == v.sync_quality
            &&& spot->0.npass == v.npass
            &&& spot->0.osd_pass == v.osd_pass
            &&& spot->0.nhardmin == v.nhardmin
            &&& spot->0.decode_cycles == v.decode_cycles
            &&& spot->0.candidates == v.candidates
            &&& spot->0.nfano == v.nfano
        }),
{
    let w = spot_line(v, rx_id, hash, nbadcrc);
    let f = written_columns(w, Seq::empty());
    let line = crate::text::joined(f);
    crate::number::law_integer_text_reads_back(v.snr_db);
    crate::number::law_integer_text_reads_back(v.power_dbm);
    crate::number::law_integer_text_reads_back(v.drift);
    crate::number::law_integer_text_reads_back(v.npass);
    crate::number::law_integer_text_reads_back(v.osd_pass);
    crate::number::law_integer_text_reads_back(v.nhardmin);
    crate::number::law_integer_text_reads_back(v.decode_cycles);
    crate::number::law_integer_text_reads_back(v.candidates);
    crate::number::law_integer_text_reads_back(v.nfano);
    crate::number::lemma_integer_text_is_word(v.snr_db);
    crate::number::lemma_integer_text_is_word(v.power_dbm);
    crate::number::lemma_integer_text_is_word(v.drift);
    crate::number::lemma_integer_text_is_word(v.npass);
    crate::number::lemma_integer_text_is_word(v.osd_pass);
    crate::number::lemma_integer_text_is_word(v.nhardmin);
    crate::number::lemma_integer_text_is_word(v.decode_cycles);
    crate::number::lemma_integer_text_is_word(v.candidates);
    crate::number::lemma_integer_text_is_word(v.nfano);
    if v.grid.len() > 0 {
        assert forall|i: int| 0 <= i < v.grid.len() implies !crate::text::is_white(
            #[trigger] v.grid[i],
        ) by {}
        assert(crate::text::is_word(v.grid));
    }
    crate::text::law_split_undoes_join(f);
    law_columns_are_read_in_their_order(line, w, Seq::empty(), window_start);
}

/// A text of one line gives the spot of that line, or none.
pub proof fn law_one_line_gives_its_own_spot(line: Seq<char>, window_start: Timestamp)
    requires
        !line.contains('\n'),
    ensures
        ({
            let spots = spots_in(crate::text::lines(line), window_start);
            match line_spot(line, window_start) {
                Some(spot) => spots == seq![spot],
                None => spots.len() == 0,
            }
        }),
{
    crate::text::lemma_single_line(line);
    reveal_with_fuel(spots_in, 2);
    let all = crate::text::lines(line);
    if line.len() > 0 {
        assert(all.drop_last() =~= Seq::empty());
        assert(all.last() == line);
        assert(spots_in(all.drop_last(), window_start) =~= Seq::empty());
        if line_spot(line, window_start) is Some {
            assert(spots_in(all, window_start) =~= seq![line_spot(line, window_start)->0]);
        }
    } else {
        assert(crate::text::words(line).len() == 0);
    }
}

/// A text of one line has it refused, trimmed, exactly where something is on it
/// that describes no spot.
pub proof fn law_one_line_is_refused_or_not(line: Seq<char>, window_start: Timestamp)
    requires
        !line.contains('\n'),
    ensures
        ({
            let refused = refused_in(crate::text::lines(line));
            if line_spot(line, window_start) is None && crate::text::trimmed(line).len() > 0 {
                refused == seq![crate::text::trimmed(line)]
            } else {
                refused.len() == 0
            }
        }),
{
    crate::text::lemma_single_line(line);
    reveal_with_fuel(refused_in, 2);
    let all = crate::text::lines(line);
    if line.len() > 0 {
        assert(all.drop_last() =~= Seq::empty());
        assert(all.last() == line);
        assert(refused_in(all.drop_last()) =~= Seq::empty());
        if is_refused(line) {
            assert(refused_in(all) =~= seq![crate::text::trimmed(line)]);
        }
    }
}

/// Lists of lines are refused independently of each other.
proof fn lemma_refused_append(a: Seq<Seq<char>>, b: Seq<Seq<char>>)
    ensures
        refused_in(a + b) == refused_in(a) + refused_in(b),
    decreases b.len(),
{
    if b.len() == 0 {
        assert(a + b =~= a);
        assert(refused_in(a + b) =~= refused_in(a) + refused_in(b));
    } else {
        lemma_refused_append(a, b.drop_last());
        assert((a + b).drop_last() =~= a + b.drop_last());
        assert((a + b).last() == b.last());
        assert(refused_in(a + b) =~= refused_in(a) + refused_in(b));
    }
}

/// Text appended on a new line adds its own refused lines after those already
/// there.
pub proof fn law_lines_are_refused_independently(a: Seq<char>, b: Seq<char>)
    ensures
        refused_in(crate::text::lines(a + seq!['\n'] + b)) == refused_in(crate::text::lines(a))
            + refused_in(crate::text::lines(b)),
{
    let blank = if a.len() == 0 || a.last() == '\n' {
        seq![Seq::<char>::empty()]
    } else {
        Seq::empty()
    };
    crate::text::lemma_lines_append(a, b);
    lemma_refused_append(crate::text::lines(a) + blank, crate::text::lines(b));
    lemma_refused_append(crate::text::lines(a), blank);
    assert(refused_in(blank) =~= Seq::empty()) by {
        if blank.len() > 0 {
            assert(crate::text::trimmed(blank.last()).len() == 0);
            assert(blank.drop_last() =~= Seq::empty());
            assert(refused_in(blank.drop_last()) =~= Seq::empty());
        }
    }
}

/// The contents of lists are those of their members.
pub proof fn law_list_contents_are_those_of_the_members(
    spots: Seq<WsprSpot>,
    strings: Seq<String>,
    i: int,
)
    ensures
        spot_views(spots).len() == spots.len(),
        0 <= i < spots.len() ==> spot_views(spots)[i] == spots[i]@,
        string_texts(strings).len() == strings.len(),
        0 <= i < strings.len() ==> string_texts(strings)[i] == strings[i]@,
{
}

} // verus!
