use trillium_bench::settings::{
    database_max_conn, default_quic_threads, h3_enabled, parse_u16, parse_usize, quic_threads,
    text_setting, tls_port, worker_count, DEFAULT_DATASET_PATH, DEFAULT_PROXY_UPSTREAM,
    DEFAULT_STATIC_DIR, DEFAULT_TLS_CERT, DEFAULT_TLS_KEY,
};

const SAMPLES: &[&str] = &[
    "", "0", "1", "+", "+0", "+7", "-0", "-1", "++1", "+-1", "007", "65535", "65536", "65534",
    "99999", "8443", " 8443", "8443 ", "84a3", "1_000", "0x10", "１２", "٣", "18446744073709551615",
    "18446744073709551616", "99999999999999999999999", "4294967295", "4294967296", "00000000000000000000065535",
    "+65535", "+65536", "é1",
];

#[test]
fn parse_u16_agrees_with_str_parse() {
    for s in SAMPLES {
        assert_eq!(parse_u16(s), s.parse::<u16>().ok(), "input {s:?}");
    }
}

#[test]
fn parse_usize_agrees_with_str_parse() {
    for s in SAMPLES {
        assert_eq!(parse_usize(s), s.parse::<usize>().ok(), "input {s:?}");
    }
}

#[test]
fn parse_u16_every_number_and_just_beyond() {
    for n in 0u32..=70000 {
        let s = n.to_string();
        assert_eq!(parse_u16(&s), s.parse::<u16>().ok());
    }
}

#[test]
fn parse_edge_cases() {
    assert_eq!(parse_u16("65535"), Some(65535));
    assert_eq!(parse_u16("65536"), None);
    assert_eq!(parse_u16("+12"), Some(12));
    assert_eq!(parse_u16("+"), None);
    assert_eq!(parse_u16(""), None);
    assert_eq!(parse_u16("-1"), None);
    assert_eq!(parse_usize(&usize::MAX.to_string()), Some(usize::MAX));
}

#[test]
fn tls_port_defaults_to_8443() {
    assert_eq!(tls_port(None), 8443);
    assert_eq!(tls_port(Some("9443")), 9443);
    assert_eq!(tls_port(Some("not a port")), 8443);
    assert_eq!(tls_port(Some("70000")), 8443);
    assert_eq!(tls_port(Some("0")), 0);
}

#[test]
fn worker_count_falls_back_to_cpus_and_is_at_least_one() {
    assert_eq!(worker_count(None, 8), 8);
    assert_eq!(worker_count(Some("4"), 8), 4);
    assert_eq!(worker_count(Some("x"), 8), 8);
    assert_eq!(worker_count(Some("0"), 8), 1);
    assert_eq!(worker_count(None, 0), 1);
}

#[test]
fn default_quic_threads_is_a_quarter_between_two_and_eight() {
    assert_eq!(default_quic_threads(8), 2);
    assert_eq!(default_quic_threads(1), 2);
    assert_eq!(default_quic_threads(0), 2);
    assert_eq!(default_quic_threads(12), 3);
    assert_eq!(default_quic_threads(32), 8);
    assert_eq!(default_quic_threads(64), 8);
    assert_eq!(default_quic_threads(usize::MAX), 8);
    for n in 0..1000 {
        let q = default_quic_threads(n);
        assert!((2..=8).contains(&q));
        assert_eq!(q, (n / 4).clamp(2, 8));
    }
}

#[test]
fn quic_threads_reads_the_variable_and_is_at_least_one() {
    assert_eq!(quic_threads(None, 64), 8);
    assert_eq!(quic_threads(Some("3"), 64), 3);
    assert_eq!(quic_threads(Some("0"), 64), 1);
    assert_eq!(quic_threads(Some("lots"), 16), 4);
}

#[test]
fn database_pool_defaults_to_256() {
    assert_eq!(database_max_conn(None), 256);
    assert_eq!(database_max_conn(Some("64")), 64);
    assert_eq!(database_max_conn(Some("-1")), 256);
}

#[test]
fn h3_is_on_for_anything_but_empty_and_zero() {
    assert!(!h3_enabled(None));
    assert!(!h3_enabled(Some("")));
    assert!(!h3_enabled(Some("0")));
    assert!(h3_enabled(Some("1")));
    assert!(h3_enabled(Some("00")));
    assert!(h3_enabled(Some("false")));
}

#[test]
fn text_settings_and_their_defaults() {
    assert_eq!(text_setting(None, DEFAULT_STATIC_DIR), "/data/static");
    assert_eq!(text_setting(Some("/srv".to_string()), DEFAULT_STATIC_DIR), "/srv");
    assert_eq!(DEFAULT_TLS_CERT, "/certs/server.crt");
    assert_eq!(DEFAULT_TLS_KEY, "/certs/server.key");
    assert_eq!(DEFAULT_DATASET_PATH, "/data/dataset.json");
    assert_eq!(DEFAULT_PROXY_UPSTREAM, "https://localhost:9443");
}
