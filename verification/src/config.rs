//! Runtime configuration from environment variables.
//!
//! Centre frequency and sample rate are not configured here: the status stream
//! delivers them for each SSRC.

use crate::number::{parse_u16, parse_u32, parse_unsigned, push_decimal};
use crate::text::chars_of;
use vstd::prelude::*;

verus! {

/// UDP port of the status stream where none is configured.
pub const DEFAULT_STATUS_PORT: u16 = 5006;

/// Seconds captured of each window where none are configured.
pub const DEFAULT_CAPTURE_SECONDS: u32 = 116;

/// Fewest seconds that hold a whole WSPR transmission.
pub const MIN_CAPTURE_SECONDS: u32 = 111;

/// An IP address as a number, most significant byte first.
#[derive(Debug, Clone, Copy, PartialEq, Eq, Structural)]
pub enum IpAddr {
    V4(u32),
    V6(u128),
}

/// An IP address and a port.
#[derive(Debug, Clone, Copy, PartialEq, Eq, Structural)]
pub struct SocketAddr {
    pub ip: IpAddr,
    pub port: u16,
}

/// An address variable: whether it is set and, if so, which address its text
/// stands for.
#[derive(Debug, Clone, Copy, PartialEq, Eq, Structural)]
pub enum AddrSetting {
    /// The variable is not set.
    Unset,
    /// The text stands for no address.
    Unresolved,
    /// The text stands for this address.
    Resolved(IpAddr),
}

/// The environment variables that configure the receiver; `None` for one that
/// is not set.
#[derive(Debug)]
pub struct Environment {
    /// `WSPR_MULTICAST_ADDR`: an IP address or a host name.
    pub multicast_addr: AddrSetting,
    /// `WSPR_MULTICAST_PORT`.
    pub multicast_port: Option<String>,
    /// `WSPR_STATUS_PORT`.
    pub status_port: Option<String>,
    /// `WSPR_LOCAL_ADDR`: an IP address.
    pub local_addr: AddrSetting,
    /// `WSPR_SSRC`.
    pub ssrc: Option<String>,
    /// `WSPR_CAPTURE_SECONDS`.
    pub capture_seconds: Option<String>,
    /// `WSPR_TEMP_DIR`.
    pub temp_dir: Option<String>,
    /// `WSPR_WSPRD_PATH`.
    pub wsprd_path: Option<String>,
    /// `WSPR_OUTPUT_FILE`.
    pub output_file: Option<String>,
    /// `WSPR_WISDOM_FILE`.
    pub wisdom_file: Option<String>,
}

/// Why the environment makes no configuration.
#[derive(Debug, Clone, Copy, PartialEq, Eq, Structural)]
pub enum ConfigError {
    MulticastAddrUnset,
    MulticastAddrInvalid,
    MulticastPortUnset,
    MulticastPortInvalid,
    StatusPortInvalid,
    LocalAddrInvalid,
    SsrcInvalid,
    CaptureSecondsInvalid,
    /// Fewer seconds than a transmission takes; holds the seconds asked for.
    CaptureTooShort(u32),
}

impl ConfigError {
    /// The text of the error.
    pub open spec fn text(self) -> Seq<char> {
        match self {
            ConfigError::MulticastAddrUnset => "WSPR_MULTICAST_ADDR not set"@,
            ConfigError::MulticastAddrInvalid =>
                "WSPR_MULTICAST_ADDR is not a valid IP address or resolvable hostname"@,
            ConfigError::MulticastPortUnset => "WSPR_MULTICAST_PORT not set"@,
            ConfigError::MulticastPortInvalid => "WSPR_MULTICAST_PORT is not a valid port number"@,
            ConfigError::StatusPortInvalid => "WSPR_STATUS_PORT is not a valid port number"@,
            ConfigError::LocalAddrInvalid => "WSPR_LOCAL_ADDR is not a valid IP address"@,
            ConfigError::SsrcInvalid => "WSPR_SSRC is not a valid hex u32"@,
            ConfigError::CaptureSecondsInvalid => "WSPR_CAPTURE_SECONDS is not a valid u32"@,
            ConfigError::CaptureTooShort(secs) => "WSPR_CAPTURE_SECONDS must be >= 111 (got "@
                + crate::number::decimal_text(secs as nat) + seq![')'],
        }
    }

    /// Writes the text of the error.
    pub fn message(&self) -> (r: String)
        ensures
            r@ == self.text(),
    {
        match self {
            ConfigError::MulticastAddrUnset => "WSPR_MULTICAST_ADDR not set".to_owned(),
            ConfigError::MulticastAddrInvalid => {
                "WSPR_MULTICAST_ADDR is not a valid IP address or resolvable hostname".to_owned()
            },
            ConfigError::MulticastPortUnset => "WSPR_MULTICAST_PORT not set".to_owned(),
            ConfigError::MulticastPortInvalid => {
                "WSPR_MULTICAST_PORT is not a valid port number".to_owned()
            },
            ConfigError::StatusPortInvalid => {
                "WSPR_STATUS_PORT is not a valid port number".to_owned()
            },
            ConfigError::LocalAddrInvalid => "WSPR_LOCAL_ADDR is not a valid IP address".to_owned(),
            ConfigError::SsrcInvalid => "WSPR_SSRC is not a valid hex u32".to_owned(),
            ConfigError::CaptureSecondsInvalid => {
                "WSPR_CAPTURE_SECONDS is not a valid u32".to_owned()
            },
            ConfigError::CaptureTooShort(secs) => {
                let mut r: String = "WSPR_CAPTURE_SECONDS must be >= 111 (got ".to_owned();
                push_decimal(&mut r, *secs);
                r.push(')');
                assert(r@ =~= self.text());
                r
            },
        }
    }
}

/// `s` without the prefixes `0` `x` that it starts with, however many.
pub open spec fn without_prefix(s: Seq<char>, x: char) -> Seq<char>
    decreases s.len(),
{
    if s.len() >= 2 && s[0] == '0' && s[1] == x {
        without_prefix(s.skip(2), x)
    } else {
        s
    }
}

/// The SSRC that the text `s` denotes: a hexadecimal number of 32 bits, with or
/// without `0x` in front.
pub open spec fn ssrc_value(s: Seq<char>) -> Option<int> {
    crate::number::in_range(
        crate::number::unsigned_number(without_prefix(without_prefix(s, 'x'), 'X'), 16),
        0,
        u32::MAX as int,
    )
}

/// The characters of `s` without leading prefixes `0` `x`.
fn strip_prefix(s: &Vec<char>, x: char) -> (r: Vec<char>)
    ensures
        r@ == without_prefix(s@, x),
{
    let mut at: usize = 0;
    assert(s@.skip(0) =~= s@);
    while s.len() - at >= 2 && s[at] == '0' && s[at + 1] == x
        invariant
            at <= s@.len(),
            without_prefix(s@.skip(at as int), x) == without_prefix(s@, x),
        decreases s@.len() - at,
    {
        assert(s@.skip(at as int).skip(2) =~= s@.skip(at + 2));
        assert(s@.skip(at as int)[0] == s@[at as int]);
        assert(s@.skip(at as int)[1] == s@[at + 1]);
        at += 2;
    }
    let ghost rest = s@.skip(at as int);
    assert(rest.len() >= 2 ==> rest[0] == s@[at as int] && rest[1] == s@[at + 1]);
    let mut r: Vec<char> = Vec::new();
    let mut i: usize = at;
    while i < s.len()
        invariant
            at <= i <= s@.len(),
            r@ == s@.subrange(at as int, i as int),
        decreases s@.len() - i,
    {
        r.push(s[i]);
        i += 1;
        assert(r@ =~= s@.subrange(at as int, i as int));
    }
    assert(r@ =~= rest);
    r
}

/// Reads an SSRC: a hexadecimal number of 32 bits, with or without `0x` in
/// front.
pub fn parse_ssrc(s: &str) -> (r: Option<u32>)
    ensures
        match r {
            Some(v) => ssrc_value(s@) == Some(v as int),
            None => ssrc_value(s@) is None,
        },
{
    let digits = strip_prefix(&strip_prefix(&chars_of(s), 'x'), 'X');
    match parse_unsigned(&digits, 16, 0xffff_ffff) {
        Some(v) => Some(v as u32),
        None => None,
    }
}

/// The port that a variable gives; `default` where it is not set.
pub open spec fn port_setting(var: Option<String>, default: Option<int>) -> Option<int> {
    match var {
        Some(text) => crate::number::u16_value(text@),
        None => default,
    }
}

/// The capture length that a variable gives.
pub open spec fn capture_setting(var: Option<String>) -> Option<int> {
    match var {
        Some(text) => crate::number::u32_value(text@),
        None => Some(DEFAULT_CAPTURE_SECONDS as int),
    }
}

/// The first thing wrong with the environment, in the order in which the
/// variables are looked at.
pub open spec fn config_error(env: Environment) -> Option<ConfigError> {
    if env.multicast_addr is Unset {
        Some(ConfigError::MulticastAddrUnset)
    } else if env.multicast_addr is Unresolved {
        Some(ConfigError::MulticastAddrInvalid)
    } else if env.multicast_port is None {
        Some(ConfigError::MulticastPortUnset)
    } else if port_setting(env.multicast_port, None) is None {
        Some(ConfigError::MulticastPortInvalid)
    } else if port_setting(env.status_port, Some(DEFAULT_STATUS_PORT as int)) is None {
        Some(ConfigError::StatusPortInvalid)
    } else if env.local_addr is Unresolved {
        Some(ConfigError::LocalAddrInvalid)
    } else if env.ssrc matches Some(text) && ssrc_value(text@) is None {
        Some(ConfigError::SsrcInvalid)
    } else if capture_setting(env.capture_seconds) is None {
        Some(ConfigError::CaptureSecondsInvalid)
    } else if capture_setting(env.capture_seconds)->0 < MIN_CAPTURE_SECONDS {
        Some(ConfigError::CaptureTooShort(capture_setting(env.capture_seconds)->0 as u32))
    } else {
        None
    }
}

/// The text of a variable, or `default` where it is not set.
pub open spec fn text_setting(var: Option<String>, default: Seq<char>) -> Seq<char> {
    match var {
        Some(text) => text@,
        None => default,
    }
}

/// Runtime configuration.
#[derive(Debug)]
pub struct Config {
    /// Multicast group address (e.g. `239.1.2.3`).
    pub multicast_addr: IpAddr,
    /// UDP port of the RTP data stream (e.g. `5004`).
    pub multicast_port: u16,
    /// UDP port of the status stream (e.g. `5006`).
    pub status_port: u16,
    /// Local interface address on which the multicast group is joined.
    pub local_addr: IpAddr,
    /// The one SSRC to track; all mono channels where there is none.
    pub ssrc_filter: Option<u32>,
    /// Number of seconds to capture per WSPR window, at least 111.
    pub capture_seconds: u32,
    /// Directory for temporary files.
    pub temp_dir: String,
    /// Path or name of the `wsprd` binary.
    pub wsprd_path: String,
    /// File to which decoded spots are appended, one JSON object per line.
    pub output_file: Option<String>,
    /// Path of the FFTW wisdom file.
    pub wisdom_file: String,
}

impl Config {
    /// Whether this is the configuration that `env` describes.
    pub open spec fn describes(self, env: Environment) -> bool {
        &&& env.multicast_addr == AddrSetting::Resolved(self.multicast_addr)
        &&& port_setting(env.multicast_port, None) == Some(self.multicast_port as int)
        &&& port_setting(env.status_port, Some(DEFAULT_STATUS_PORT as int)) == Some(
            self.status_port as int,
        )
        &&& self.local_addr == match env.local_addr {
            AddrSetting::Resolved(ip) => ip,
            _ => IpAddr::V4(0),
        }
        &&& match env.ssrc {
            Some(text) => self.ssrc_filter matches Some(ssrc) && ssrc_value(text@) == Some(
                ssrc as int,
            ),
            None => self.ssrc_filter is None,
        }
        &&& capture_setting(env.capture_seconds) == Some(self.capture_seconds as int)
        &&& self.temp_dir@ == text_setting(env.temp_dir, "/tmp"@)
        &&& self.wsprd_path@ == text_setting(env.wsprd_path, "wsprd"@)
        &&& self.output_file == env.output_file
        &&& self.wisdom_file@ == text_setting(env.wisdom_file, "wspr_wisdom.dat"@)
    }

    /// Makes a configuration of the environment.
    ///
    /// `WSPR_MULTICAST_ADDR` and `WSPR_MULTICAST_PORT` are required.  The others
    /// have defaults: status port `5006`, local address `0.0.0.0`, no SSRC
    /// filter, `116` capture seconds, `/tmp`, `wsprd`, no output file and
    /// `wspr_wisdom.dat`.
    pub fn from_env(env: Environment) -> (r: Result<Config, ConfigError>)
        ensures
            match r {
                Ok(cfg) => config_error(env) is None && cfg.describes(env),
                Err(e) => config_error(env) == Some(e),
            },
            r matches Ok(cfg) ==> cfg.capture_seconds >= MIN_CAPTURE_SECONDS,
    {
        let multicast_addr = match env.multicast_addr {
            AddrSetting::Unset => return Err(ConfigError::MulticastAddrUnset),
            AddrSetting::Unresolved => return Err(ConfigError::MulticastAddrInvalid),
            AddrSetting::Resolved(ip) => ip,
        };
        let multicast_port: u16 = match &env.multicast_port {
            None => return Err(ConfigError::MulticastPortUnset),
            Some(text) => match parse_u16(&chars_of(text.as_str())) {
                None => return Err(ConfigError::MulticastPortInvalid),
                Some(port) => port,
            },
        };
        let status_port: u16 = match &env.status_port {
            None => DEFAULT_STATUS_PORT,
            Some(text) => match parse_u16(&chars_of(text.as_str())) {
                None => return Err(ConfigError::StatusPortInvalid),
                Some(port) => port,
            },
        };
        let local_addr = match env.local_addr {
            AddrSetting::Unset => IpAddr::V4(0),
            AddrSetting::Unresolved => return Err(ConfigError::LocalAddrInvalid),
            AddrSetting::Resolved(ip) => ip,
        };
        let ssrc_filter: Option<u32> = match &env.ssrc {
            None => None,
            Some(text) => match parse_ssrc(text.as_str()) {
                None => return Err(ConfigError::SsrcInvalid),
                Some(ssrc) => Some(ssrc),
            },
        };
        let capture_seconds: u32 = match &env.capture_seconds {
            None => DEFAULT_CAPTURE_SECONDS,
            Some(text) => match parse_u32(&chars_of(text.as_str())) {
                None => return Err(ConfigError::CaptureSecondsInvalid),
                Some(secs) => secs,
            },
        };
        if capture_seconds < MIN_CAPTURE_SECONDS {
            return Err(ConfigError::CaptureTooShort(capture_seconds));
        }
        Ok(
            Config {
                multicast_addr,
                multicast_port,
                status_port,
                local_addr,
                ssrc_filter,
                capture_seconds,
                temp_dir: or_default(env.temp_dir, "/tmp"),
                wsprd_path: or_default(env.wsprd_path, "wsprd"),
                output_file: env.output_file,
                wisdom_file: or_default(env.wisdom_file, "wspr_wisdom.dat"),
            },
        )
    }

    /// The address to which a socket for the data stream may be bound.
    pub fn bind_addr(&self) -> (r: SocketAddr)
        ensures
            r == (SocketAddr { ip: self.local_addr, port: self.multicast_port }),
    {
        SocketAddr { ip: self.local_addr, port: self.multicast_port }
    }
}

impl Clone for Config {
    fn clone(&self) -> (r: Self)
        ensures
            r.multicast_addr == self.multicast_addr,
            r.multicast_port == self.multicast_port,
            r.status_port == self.status_port,
            r.local_addr == self.local_addr,
            r.ssrc_filter == self.ssrc_filter,
            r.capture_seconds == self.capture_seconds,
            r.temp_dir@ == self.temp_dir@,
            r.wsprd_path@ == self.wsprd_path@,
            match (r.output_file, self.output_file) {
                (Some(path), Some(own)) => path@ == own@,
                (None, None) => true,
                _ => false,
            },
            r.wisdom_file@ == self.wisdom_file@,
    {
        Config {
            multicast_addr: self.multicast_addr,
            multicast_port: self.multicast_port,
            status_port: self.status_port,
            local_addr: self.local_addr,
            ssrc_filter: self.ssrc_filter,
            capture_seconds: self.capture_seconds,
            temp_dir: self.temp_dir.clone(),
            wsprd_path: self.wsprd_path.clone(),
            output_file: match &self.output_file {
                Some(path) => Some(path.clone()),
                None => None,
            },
            wisdom_file: self.wisdom_file.clone(),
        }
    }
}

/// The text of a variable, or `default` where it is not set.
fn or_default(var: Option<String>, default: &str) -> (r: String)
    ensures
        r@ == text_setting(var, default@),
{
    match var {
        Some(text) => text,
        None => default.to_owned(),
    }
}

/// `0x` in front of an SSRC changes nothing.
pub proof fn law_ssrc_prefix_is_optional(s: Seq<char>)
    ensures
        ssrc_value(seq!['0', 'x'] + s) == ssrc_value(s),
{
    let prefixed = seq!['0', 'x'] + s;
    assert(prefixed.skip(2) =~= s);
}

/// Nor does `0X`, except in front of an SSRC that carries `0x` already.
pub proof fn law_ssrc_capital_prefix_is_optional(s: Seq<char>)
    requires
        ssrc_value(s) is Some ==> !(s.len() >= 2 && s[0] == '0' && s[1] == 'x'),
    ensures
        ssrc_value(seq!['0', 'X'] + s) == ssrc_value(s),
{
    let prefixed = seq!['0', 'X'] + s;
    assert(prefixed.skip(2) =~= s);
    if s.len() >= 2 && s[0] == '0' && s[1] == 'x' {
        assert(crate::number::digit_worth(s[1], 16) is None);
        assert(without_prefix(prefixed, 'x') == prefixed);
        assert(without_prefix(s, 'X') == s);
        assert(!crate::number::all_digits(s, 16));
    }
}

/// A configuration says what the environment says, variable by variable, and the
/// default where a variable is not set.
pub proof fn law_configurations_say_what_is_set(cfg: Config, env: Environment)
    requires
        cfg.describes(env),
    ensures
        env.multicast_addr == AddrSetting::Resolved(cfg.multicast_addr),
        env.multicast_port is Some && crate::number::unsigned_number(env.multicast_port->0@, 10)
            == Some(cfg.multicast_port as int),
        match env.status_port {
            Some(text) => crate::number::unsigned_number(text@, 10) == Some(cfg.status_port as int),
            None => cfg.status_port == 5006,
        },
        match env.local_addr {
            AddrSetting::Resolved(ip) => cfg.local_addr == ip,
            _ => cfg.local_addr == IpAddr::V4(0),
        },
        match env.ssrc {
            Some(text) => cfg.ssrc_filter is Some && ssrc_value(text@) == Some(
                cfg.ssrc_filter->0 as int,
            ),
            None => cfg.ssrc_filter is None,
        },
        match env.capture_seconds {
            Some(text) => crate::number::unsigned_number(text@, 10) == Some(
                cfg.capture_seconds as int,
            ),
            None => cfg.capture_seconds == 116,
        },
        match env.temp_dir {
            Some(text) => cfg.temp_dir@ == text@,
            None => cfg.temp_dir@ == "/tmp"@,
        },
        match env.wsprd_path {
            Some(text) => cfg.wsprd_path@ == text@,
            None => cfg.wsprd_path@ == "wsprd"@,
        },
        cfg.output_file == env.output_file,
        match env.wisdom_file {
            Some(text) => cfg.wisdom_file@ == text@,
            None => cfg.wisdom_file@ == "wspr_wisdom.dat"@,
        },
{
}

/// Whether a variable is unset or an unsigned number of at most `limit`.
pub open spec fn unset_or_number(var: Option<String>, limit: int) -> bool {
    match var {
        Some(text) => crate::number::unsigned_number(text@, 10) is Some && 0
            <= crate::number::unsigned_number(text@, 10)->0 <= limit,
        None => true,
    }
}

/// The first thing that is wrong is told: an address or a port that is required
/// and missing, one that is no address or no port, an SSRC that is no
/// hexadecimal number, or capture seconds that are no number or less than 111.
pub proof fn law_the_first_error_is_told(env: Environment)
    ensures
        ({
            let e = config_error(env);
            let addr_set = !(env.multicast_addr is Unset);
            let addr_ok = env.multicast_addr is Resolved;
            let port_set = addr_ok && env.multicast_port is Some;
            let port_ok = port_set && unset_or_number(env.multicast_port, 65_535);
            let status_ok = port_ok && unset_or_number(env.status_port, 65_535);
            let local_ok = status_ok && !(env.local_addr is Unresolved);
            let ssrc_ok = local_ok && (env.ssrc is None || ssrc_value(env.ssrc->0@) is Some);
            let secs_ok = ssrc_ok && unset_or_number(env.capture_seconds, 4_294_967_295);
            let secs = crate::number::unsigned_number(env.capture_seconds->0@, 10)->0;
            let all_ok = secs_ok && (env.capture_seconds is None || secs >= 111);
            &&& e == Some(ConfigError::MulticastAddrUnset) <==> !addr_set
            &&& e == Some(ConfigError::MulticastAddrInvalid) <==> addr_set && !addr_ok
            &&& e == Some(ConfigError::MulticastPortUnset) <==> addr_ok && !port_set
            &&& e == Some(ConfigError::MulticastPortInvalid) <==> port_set && !port_ok
            &&& e == Some(ConfigError::StatusPortInvalid) <==> port_ok && !status_ok
            &&& e == Some(ConfigError::LocalAddrInvalid) <==> status_ok && !local_ok
            &&& e == Some(ConfigError::SsrcInvalid) <==> local_ok && !ssrc_ok
            &&& e == Some(ConfigError::CaptureSecondsInvalid) <==> ssrc_ok && !secs_ok
            &&& secs_ok && !all_ok ==> e == Some(ConfigError::CaptureTooShort(secs as u32))
            &&& e is None <==> all_ok
        }),
{
}

/// An SSRC without a prefix is a hexadecimal number of 32 bits.
pub proof fn law_ssrcs_are_hexadecimal(s: Seq<char>, v: int)
    requires
        s.len() < 2 || s[0] != '0' || (s[1] != 'x' && s[1] != 'X'),
    ensures
        ssrc_value(s) == Some(v) <==> crate::number::unsigned_number(s, 16) == Some(v) && 0 <= v
            <= 0xffff_ffff,
{
}

/// A `0x` behind a `0X` makes no SSRC.
pub proof fn law_small_prefix_behind_a_capital_one_is_no_ssrc(s: Seq<char>)
    ensures
        ssrc_value(seq!['0', 'X', '0', 'x'] + s) is None,
{
    let all = seq!['0', 'X', '0', 'x'] + s;
    let rest = seq!['0', 'x'] + s;
    assert(all.skip(2) =~= rest);
    assert(without_prefix(all, 'x') == all);
    assert(without_prefix(rest, 'X') == rest);
    assert(crate::number::digit_worth(rest[1], 16) is None);
    assert(!crate::number::all_digits(rest, 16));
}

/// Too short a capture is told with its seconds.
pub proof fn law_short_captures_are_told(secs: u32)
    ensures
        ConfigError::CaptureTooShort(secs).text() == "WSPR_CAPTURE_SECONDS must be >= 111 (got "@
            + crate::number::integer_text(secs as int) + ")"@,
{
    reveal_strlit(")");
    assert(")"@ =~= seq![')']);
}

} // verus!
