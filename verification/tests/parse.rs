use hprobe::decimal::parse_unsigned;
use hprobe::{parse_probe, parse_probes, Probe};

#[test]
fn test_parse_probe_valid_http() {
    assert_eq!(
        parse_probes(vec!["http:8080"]),
        (vec![Probe::new_http(8080)], vec![])
    );
}

#[test]
fn test_parse_probe_valid_https() {
    assert_eq!(
        parse_probes(vec!["https:8080"]),
        (vec![Probe::new_https(8080)], vec![])
    );
}

#[test]
fn test_parse_probe_invalid_port() {
    assert_eq!(
        parse_probes(vec!["https:65536"]),
        (
            vec![],
            vec![String::from("Error parsing probe: https:65536")]
        )
    );
}

#[test]
fn test_parse_probe_invalid_protocol() {
    assert_eq!(
        parse_probes(vec!["ftp:21"]),
        (vec![], vec![String::from("Error parsing probe: ftp:21")])
    );
}

#[test]
fn parse_probes_of_nothing_is_nothing() {
    assert_eq!(parse_probes(vec![]), (vec![], vec![]));
}

#[test]
fn parse_probes_keeps_order_and_collects_every_error() {
    let (probes, errors) = parse_probes(vec![
        "https:1", "bad", "http:2", "http:70000", "http:2", "https:443", "",
    ]);
    assert_eq!(
        probes,
        vec![
            Probe::new_https(1),
            Probe::new_http(2),
            Probe::new_http(2),
            Probe::new_https(443),
        ]
    );
    assert_eq!(
        errors,
        vec![
            String::from("Error parsing probe: bad"),
            String::from("Error parsing probe: http:70000"),
            String::from("Error parsing probe: "),
        ]
    );
}

#[test]
fn parse_probes_accounts_for_every_token() {
    let tokens = vec!["http:80", "x", "https:443", "http:", ":80", "http:65535"];
    let count = tokens.len();
    let (probes, errors) = parse_probes(tokens);
    assert_eq!(probes.len() + errors.len(), count);
    assert_eq!(probes.len(), 3);
}

#[test]
fn parse_probe_takes_the_whole_port_range() {
    assert_eq!(parse_probe("http:0"), Some(Probe::new_http(0)));
    assert_eq!(parse_probe("http:65535"), Some(Probe::new_http(65535)));
    assert_eq!(parse_probe("https:65535"), Some(Probe::new_https(65535)));
    assert_eq!(parse_probe("http:65536"), None);
    assert_eq!(parse_probe("http:99999999999999999999999999"), None);
}

#[test]
fn parse_probe_takes_a_plus_sign_and_leading_zeros() {
    assert_eq!(parse_probe("http:+80"), Some(Probe::new_http(80)));
    assert_eq!(parse_probe("http:0080"), Some(Probe::new_http(80)));
    assert_eq!(
        parse_probe("https:000000000000000000000000443"),
        Some(Probe::new_https(443))
    );
    assert_eq!(parse_probe("http:+0"), Some(Probe::new_http(0)));
}

#[test]
fn parse_probe_refuses_what_is_no_port() {
    assert_eq!(parse_probe("http:"), None);
    assert_eq!(parse_probe("http:+"), None);
    assert_eq!(parse_probe("http:-1"), None);
    assert_eq!(parse_probe("http:++1"), None);
    assert_eq!(parse_probe("http: 80"), None);
    assert_eq!(parse_probe("http:80 "), None);
    assert_eq!(parse_probe("http:8_0"), None);
    assert_eq!(parse_probe("http:80a"), None);
    assert_eq!(parse_probe("http:0x50"), None);
    assert_eq!(parse_probe("http:８０"), None);
    assert_eq!(parse_probe("http:80:90"), None);
    assert_eq!(parse_probe("http::80"), None);
}

#[test]
fn parse_probe_matches_the_keyword_exactly() {
    assert_eq!(parse_probe("HTTP:80"), None);
    assert_eq!(parse_probe("Http:80"), None);
    assert_eq!(parse_probe("httpx:80"), None);
    assert_eq!(parse_probe("htt:80"), None);
    assert_eq!(parse_probe(" http:80"), None);
    assert_eq!(parse_probe("httpss:80"), None);
    assert_eq!(parse_probe(":80"), None);
    assert_eq!(parse_probe("http"), None);
    assert_eq!(parse_probe("https"), None);
    assert_eq!(parse_probe("80"), None);
    assert_eq!(parse_probe(""), None);
    assert_eq!(parse_probe("http;80"), None);
}

#[test]
fn parse_probe_agrees_with_the_standard_reading_of_a_port() {
    let samples = [
        "0", "1", "80", "443", "8080", "65535", "65536", "065535", "+65535", "+65536", "", "+",
        "-", "-0", "1e3", "１", " 1", "1 ", "00", "+00", "4294967296", "18446744073709551616",
    ];
    for text in samples {
        let token = format!("http:{}", text);
        let expected = text.parse::<u16>().ok().map(Probe::new_http);
        assert_eq!(parse_probe(&token), expected);
    }
}

#[test]
fn parse_unsigned_reads_up_to_the_bound() {
    assert_eq!(parse_unsigned("0", 0), Some(0));
    assert_eq!(parse_unsigned("1", 0), None);
    assert_eq!(parse_unsigned("9", 9), Some(9));
    assert_eq!(parse_unsigned("10", 9), None);
    assert_eq!(parse_unsigned("12", 12), Some(12));
    assert_eq!(parse_unsigned("13", 12), None);
    assert_eq!(parse_unsigned("1000", 1000), Some(1000));
    assert_eq!(
        parse_unsigned("18446744073709551615", u64::MAX),
        Some(u64::MAX)
    );
    assert_eq!(parse_unsigned("18446744073709551616", u64::MAX), None);
    assert_eq!(parse_unsigned("184467440737095516150", u64::MAX), None);
    assert_eq!(parse_unsigned("+42", u64::MAX), Some(42));
    assert_eq!(parse_unsigned("", u64::MAX), None);
    assert_eq!(parse_unsigned("+", u64::MAX), None);
    assert_eq!(parse_unsigned("4 2", u64::MAX), None);
}
