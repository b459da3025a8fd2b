use wsprrs::config::{
    parse_ssrc, AddrSetting, Config, ConfigError, Environment, IpAddr, SocketAddr,
};
use wsprrs::multicast::{plan_socket, DropCounter, Join, ReceivedPacket};

/// The environment in which only the given variables are set.
fn set_env(vars: &[(&str, &str)]) -> Environment {
    let var = |name: &str| {
        vars.iter()
            .find(|(k, _)| *k == name)
            .map(|(_, v)| v.to_string())
    };
    let addr = |name: &str| match var(name) {
        None => AddrSetting::Unset,
        Some(text) => {
            let bytes: Vec<u8> = text.split('.').filter_map(|b| b.parse().ok()).collect();
            match <[u8; 4]>::try_from(bytes) {
                Ok(b) => AddrSetting::Resolved(IpAddr::V4(u32::from_be_bytes(b))),
                Err(_) => AddrSetting::Unresolved,
            }
        }
    };
    Environment {
        multicast_addr: addr("WSPR_MULTICAST_ADDR"),
        multicast_port: var("WSPR_MULTICAST_PORT"),
        status_port: var("WSPR_STATUS_PORT"),
        local_addr: addr("WSPR_LOCAL_ADDR"),
        ssrc: var("WSPR_SSRC"),
        capture_seconds: var("WSPR_CAPTURE_SECONDS"),
        temp_dir: var("WSPR_TEMP_DIR"),
        wsprd_path: var("WSPR_WSPRD_PATH"),
        output_file: var("WSPR_OUTPUT_FILE"),
        wisdom_file: var("WSPR_WISDOM_FILE"),
    }
}

/// The required variables and `more`.
fn required_and(more: &[(&'static str, &'static str)]) -> Environment {
    let mut vars = vec![
        ("WSPR_MULTICAST_ADDR", "239.1.2.3"),
        ("WSPR_MULTICAST_PORT", "5004"),
    ];
    vars.extend_from_slice(more);
    set_env(&vars)
}

#[test]
fn from_env_parses_required_vars() {
    let env = set_env(&[
        ("WSPR_MULTICAST_ADDR", "239.1.2.3"),
        ("WSPR_MULTICAST_PORT", "5004"),
    ]);
    let cfg = Config::from_env(env).expect("Config::from_env failed");

    assert_eq!(cfg.multicast_port, 5004);
    assert_eq!(cfg.status_port, 5006);
    assert_eq!(cfg.capture_seconds, 116);
    assert!(cfg.ssrc_filter.is_none());
    assert_eq!(cfg.wsprd_path, "wsprd");
}

#[test]
fn from_env_parses_ssrc_hex() {
    let env = set_env(&[
        ("WSPR_MULTICAST_ADDR", "239.1.2.3"),
        ("WSPR_MULTICAST_PORT", "5004"),
        ("WSPR_SSRC", "0xDEADBEEF"),
    ]);
    let cfg = Config::from_env(env).expect("Config::from_env failed");

    assert_eq!(cfg.ssrc_filter, Some(0xDEAD_BEEF));
}

#[test]
fn from_env_parses_custom_status_port() {
    let env = set_env(&[
        ("WSPR_MULTICAST_ADDR", "239.1.2.3"),
        ("WSPR_MULTICAST_PORT", "5004"),
        ("WSPR_STATUS_PORT", "5010"),
    ]);
    let cfg = Config::from_env(env).expect("Config::from_env failed");

    assert_eq!(cfg.status_port, 5010);
}

#[test]
fn from_env_rejects_short_capture() {
    let env = set_env(&[
        ("WSPR_MULTICAST_ADDR", "239.1.2.3"),
        ("WSPR_MULTICAST_PORT", "5004"),
        ("WSPR_CAPTURE_SECONDS", "50"),
    ]);
    let result = Config::from_env(env);

    assert!(result.is_err(), "expected error for capture_seconds < 111");
}

#[test]
fn from_env_fills_in_defaults() {
    let cfg = Config::from_env(required_and(&[])).unwrap();
    assert_eq!(cfg.multicast_addr, IpAddr::V4(0xEF01_0203));
    assert_eq!(cfg.local_addr, IpAddr::V4(0));
    assert_eq!(cfg.temp_dir, "/tmp");
    assert_eq!(cfg.output_file, None);
    assert_eq!(cfg.wisdom_file, "wspr_wisdom.dat");
    assert_eq!(
        cfg.bind_addr(),
        SocketAddr {
            ip: IpAddr::V4(0),
            port: 5004
        }
    );
}

#[test]
fn from_env_takes_every_variable() {
    let cfg = Config::from_env(required_and(&[
        ("WSPR_LOCAL_ADDR", "192.168.1.10"),
        ("WSPR_CAPTURE_SECONDS", "111"),
        ("WSPR_TEMP_DIR", "/var/tmp"),
        ("WSPR_WSPRD_PATH", "/usr/local/bin/wsprd"),
        ("WSPR_OUTPUT_FILE", "spots.ndjson"),
        ("WSPR_WISDOM_FILE", "w.dat"),
    ]))
    .unwrap();
    assert_eq!(cfg.local_addr, IpAddr::V4(0xC0A8_010A));
    assert_eq!(cfg.capture_seconds, 111);
    assert_eq!(cfg.temp_dir, "/var/tmp");
    assert_eq!(cfg.wsprd_path, "/usr/local/bin/wsprd");
    assert_eq!(cfg.output_file.as_deref(), Some("spots.ndjson"));
    assert_eq!(cfg.wisdom_file, "w.dat");
    let copy = cfg.clone();
    assert_eq!(copy.output_file, cfg.output_file);
    assert_eq!(copy.temp_dir, cfg.temp_dir);
    assert_eq!(copy.bind_addr(), cfg.bind_addr());
}

#[test]
fn each_error_has_its_input() {
    let cases: Vec<(Environment, ConfigError, &str)> = vec![
        (
            set_env(&[]),
            ConfigError::MulticastAddrUnset,
            "WSPR_MULTICAST_ADDR not set",
        ),
        (
            set_env(&[("WSPR_MULTICAST_ADDR", "nowhere")]),
            ConfigError::MulticastAddrInvalid,
            "WSPR_MULTICAST_ADDR is not a valid IP address or resolvable hostname",
        ),
        (
            set_env(&[("WSPR_MULTICAST_ADDR", "239.1.2.3")]),
            ConfigError::MulticastPortUnset,
            "WSPR_MULTICAST_PORT not set",
        ),
        (
            set_env(&[
                ("WSPR_MULTICAST_ADDR", "239.1.2.3"),
                ("WSPR_MULTICAST_PORT", "65536"),
            ]),
            ConfigError::MulticastPortInvalid,
            "WSPR_MULTICAST_PORT is not a valid port number",
        ),
        (
            required_and(&[("WSPR_STATUS_PORT", "-1"), ("WSPR_SSRC", "zz")]),
            ConfigError::StatusPortInvalid,
            "WSPR_STATUS_PORT is not a valid port number",
        ),
        (
            required_and(&[("WSPR_LOCAL_ADDR", "eth0"), ("WSPR_SSRC", "zz")]),
            ConfigError::LocalAddrInvalid,
            "WSPR_LOCAL_ADDR is not a valid IP address",
        ),
        (
            required_and(&[("WSPR_SSRC", "zz"), ("WSPR_CAPTURE_SECONDS", "x")]),
            ConfigError::SsrcInvalid,
            "WSPR_SSRC is not a valid hex u32",
        ),
        (
            required_and(&[("WSPR_CAPTURE_SECONDS", "")]),
            ConfigError::CaptureSecondsInvalid,
            "WSPR_CAPTURE_SECONDS is not a valid u32",
        ),
        (
            required_and(&[("WSPR_CAPTURE_SECONDS", "110")]),
            ConfigError::CaptureTooShort(110),
            "WSPR_CAPTURE_SECONDS must be >= 111 (got 110)",
        ),
    ];
    for (env, error, message) in cases {
        let got = Config::from_env(env).err();
        assert_eq!(got, Some(error));
        assert_eq!(error.message(), message);
    }
}

#[test]
fn ssrc_prefixes_are_optional() {
    assert_eq!(parse_ssrc("36FA"), Some(0x36FA));
    assert_eq!(parse_ssrc("0x36FA"), Some(0x36FA));
    assert_eq!(parse_ssrc("0X36fa"), Some(0x36FA));
    assert_eq!(parse_ssrc("0x0x36FA"), Some(0x36FA));
    assert_eq!(parse_ssrc("0x0X36FA"), Some(0x36FA));
    assert_eq!(parse_ssrc("0X0x36FA"), None);
    assert_eq!(parse_ssrc("+1"), Some(1));
    assert_eq!(parse_ssrc("0"), Some(0));
    assert_eq!(parse_ssrc("0x"), None);
    assert_eq!(parse_ssrc(""), None);
    assert_eq!(parse_ssrc("100000000"), None);
    assert_eq!(parse_ssrc("00FFFFFFFF"), Some(u32::MAX));
    assert_eq!(parse_ssrc("-1"), None);
    assert_eq!(parse_ssrc("0x "), None);
}

// ---- multicast ----

fn config_with(multicast_addr: IpAddr, local_addr: IpAddr) -> Config {
    Config {
        multicast_addr,
        local_addr,
        ..Config::from_env(required_and(&[])).unwrap()
    }
}

#[test]
fn sockets_are_planned_after_the_group() {
    let v4 = plan_socket(&config_with(IpAddr::V4(0xEF01_0203), IpAddr::V4(7)), 5004);
    assert_eq!(
        v4.bind,
        SocketAddr {
            ip: IpAddr::V4(0),
            port: 5004
        }
    );
    assert_eq!(
        v4.join,
        Join::V4 {
            group: 0xEF01_0203,
            interface: 7
        }
    );
    let v6 = plan_socket(&config_with(IpAddr::V6(9), IpAddr::V4(7)), 5006);
    assert_eq!(
        v6.bind,
        SocketAddr {
            ip: IpAddr::V6(0),
            port: 5006
        }
    );
    assert_eq!(
        v6.join,
        Join::V6 {
            group6: 9,
            index: 0
        }
    );
    let mixed = plan_socket(&config_with(IpAddr::V4(1), IpAddr::V6(7)), 5004);
    assert_eq!(mixed.join, Join::Mismatch);
}

#[test]
fn packets_hold_the_received_bytes() {
    let buf = [1u8, 2, 3, 4, 5];
    let pkt = ReceivedPacket::from_buffer(&buf, 3);
    assert_eq!(pkt.len, 3);
    assert_eq!(pkt.data, vec![1, 2, 3]);
    assert_eq!(pkt.bytes(), &[1, 2, 3]);
    let longer = ReceivedPacket {
        data: vec![9; 10],
        len: 2,
    };
    assert_eq!(longer.bytes(), &[9, 9]);
}

#[test]
fn drops_are_reported_at_powers_of_two() {
    let mut counter = DropCounter::new();
    let reported: Vec<u64> = (1..=100u64).filter(|_| counter.record()).collect();
    assert_eq!(reported, vec![1, 2, 4, 8, 16, 32, 64]);
    assert_eq!(counter.dropped, 100);
}
