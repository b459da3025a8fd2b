//! Decoded WSPR spots.

use vstd::prelude::*;

verus! {

/// A single decoded WSPR spot, one line of `ALL_WSPR.TXT`.
///
/// Real-valued columns are kept as the text that `wsprd` wrote; each is known
/// to be the text of a real number.
#[derive(Debug)]
pub struct WsprSpot {
    /// UTC time of the WSPR window, formatted as `HHMM`.
    pub time_utc: String,
    /// Signal-to-noise ratio in dB (relative to 2.5 kHz noise bandwidth).
    pub snr_db: i32,
    /// Time offset from the nominal transmission start in seconds.
    pub dt_sec: String,
    /// Decoded carrier frequency in MHz.
    pub freq_mhz: String,
    /// Full decoded message (e.g. `K1ABC FN42 33`).
    pub message: String,
    /// Callsign (e.g. `K1ABC`).
    pub callsign: String,
    /// Maidenhead grid locator, 4 or 6 characters; empty for messages that
    /// carry only callsign and power.
    pub grid: String,
    /// Transmitted power in dBm.
    pub power_dbm: i32,
    /// Frequency drift in Hz/minute.
    pub drift: i32,
    /// How cleanly the sync vector locked.
    pub sync_quality: String,
    /// Number of decode passes required.
    pub npass: u8,
    /// Ordered-statistics pass on which the decode succeeded.
    pub osd_pass: u8,
    /// Minimum hard-decision count across the decode.
    pub nhardmin: i32,
    /// Number of decoder iterations.
    pub decode_cycles: u32,
    /// Number of candidate messages explored.
    pub candidates: u32,
    /// Fano metric of the decoded path.
    pub nfano: i32,
}

/// The contents of a [`WsprSpot`].
#[verifier::ext_equal]
pub struct SpotView {
    pub time_utc: Seq<char>,
    pub snr_db: int,
    pub dt_sec: Seq<char>,
    pub freq_mhz: Seq<char>,
    pub message: Seq<char>,
    pub callsign: Seq<char>,
    pub grid: Seq<char>,
    pub power_dbm: int,
    pub drift: int,
    pub sync_quality: Seq<char>,
    pub npass: int,
    pub osd_pass: int,
    pub nhardmin: int,
    pub decode_cycles: int,
    pub candidates: int,
    pub nfano: int,
}

impl View for WsprSpot {
    type V = SpotView;

    open spec fn view(&self) -> SpotView {
        SpotView {
            time_utc: self.time_utc@,
            snr_db: self.snr_db as int,
            dt_sec: self.dt_sec@,
            freq_mhz: self.freq_mhz@,
            message: self.message@,
            callsign: self.callsign@,
            grid: self.grid@,
            power_dbm: self.power_dbm as int,
            drift: self.drift as int,
            sync_quality: self.sync_quality@,
            npass: self.npass as int,
            osd_pass: self.osd_pass as int,
            nhardmin: self.nhardmin as int,
            decode_cycles: self.decode_cycles as int,
            candidates: self.candidates as int,
            nfano: self.nfano as int,
        }
    }
}

impl Clone for WsprSpot {
    fn clone(&self) -> (r: Self)
        ensures
            r@ == self@,
    {
        WsprSpot {
            time_utc: self.time_utc.clone(),
            snr_db: self.snr_db,
            dt_sec: self.dt_sec.clone(),
            freq_mhz: self.freq_mhz.clone(),
            message: self.message.clone(),
            callsign: self.callsign.clone(),
            grid: self.grid.clone(),
            power_dbm: self.power_dbm,
            drift: self.drift,
            sync_quality: self.sync_quality.clone(),
            npass: self.npass,
            osd_pass: self.osd_pass,
            nhardmin: self.nhardmin,
            decode_cycles: self.decode_cycles,
            candidates: self.candidates,
            nfano: self.nfano,
        }
    }
}

/// The contents of a spot are what its fields say.
pub proof fn law_spot_contents_are_what_the_fields_say(spot: WsprSpot)
    ensures
        spot@.time_utc == spot.time_utc@,
        spot@.snr_db == spot.snr_db,
        spot@.dt_sec == spot.dt_sec@,
        spot@.freq_mhz == spot.freq_mhz@,
        spot@.message == spot.message@,
        spot@.callsign == spot.callsign@,
        spot@.grid == spot.grid@,
        spot@.power_dbm == spot.power_dbm,
        spot@.drift == spot.drift,
        spot@.sync_quality == spot.sync_quality@,
        spot@.npass == spot.npass,
        spot@.osd_pass == spot.osd_pass,
        spot@.nhardmin == spot.nhardmin,
        spot@.decode_cycles == spot.decode_cycles,
        spot@.candidates == spot.candidates,
        spot@.nfano == spot.nfano,
{
}

} // verus!
