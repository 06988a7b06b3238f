use hprobe::config::{configure, parse_concurrency, parse_timeout, ConfigError, Settings};
use hprobe::probe::Probe;
use hprobe::resolve::{default_probes, resolve_probes};

#[test]
fn default_probes_are_http_80_then_https_443() {
    assert_eq!(
        default_probes(),
        vec![Probe::new_http(80), Probe::new_https(443)]
    );
}

#[test]
fn no_tokens_with_defaults_resolve_to_the_defaults() {
    assert_eq!(
        resolve_probes(vec![], true),
        Ok(vec![Probe::new_http(80), Probe::new_https(443)])
    );
}

#[test]
fn resolving_is_the_same_every_time() {
    let first = resolve_probes(vec![], true);
    let _ = resolve_probes(vec!["http:8080", "nonsense"], true);
    let _ = resolve_probes(vec!["https:1"], false);
    let again = resolve_probes(vec![], true);
    assert_eq!(first, again);
    assert_eq!(
        again,
        Ok(vec![Probe::new_http(80), Probe::new_https(443)])
    );
}

#[test]
fn no_tokens_without_defaults_resolve_to_the_empty_set() {
    assert_eq!(resolve_probes(vec![], false), Ok(vec![]));
}

#[test]
fn defaults_follow_the_given_probes() {
    assert_eq!(
        resolve_probes(vec!["https:8443", "http:8080"], true),
        Ok(vec![
            Probe::new_https(8443),
            Probe::new_http(8080),
            Probe::new_http(80),
            Probe::new_https(443),
        ])
    );
    assert_eq!(
        resolve_probes(vec!["https:8443", "http:8080"], false),
        Ok(vec![Probe::new_https(8443), Probe::new_http(8080)])
    );
}

#[test]
fn duplicates_are_kept() {
    assert_eq!(
        resolve_probes(vec!["http:80", "http:80"], true),
        Ok(vec![
            Probe::new_http(80),
            Probe::new_http(80),
            Probe::new_http(80),
            Probe::new_https(443),
        ])
    );
}

#[test]
fn one_bad_token_refuses_the_whole_set() {
    assert_eq!(
        resolve_probes(vec!["http:8080", "ftp:21", "https:65536"], true),
        Err(vec![
            String::from("Error parsing probe: ftp:21"),
            String::from("Error parsing probe: https:65536"),
        ])
    );
    assert_eq!(
        resolve_probes(vec!["ftp:21"], false),
        Err(vec![String::from("Error parsing probe: ftp:21")])
    );
}

#[test]
fn concurrency_is_a_positive_integer() {
    assert_eq!(parse_concurrency("20"), Some(20));
    assert_eq!(parse_concurrency("1"), Some(1));
    assert_eq!(parse_concurrency("+3"), Some(3));
    assert_eq!(parse_concurrency("007"), Some(7));
    assert_eq!(parse_concurrency("0"), None);
    assert_eq!(parse_concurrency("000"), None);
    assert_eq!(parse_concurrency(""), None);
    assert_eq!(parse_concurrency("-1"), None);
    assert_eq!(parse_concurrency("many"), None);
    assert_eq!(parse_concurrency("2.5"), None);
    assert_eq!(
        parse_concurrency(&usize::MAX.to_string()),
        Some(usize::MAX)
    );
    assert_eq!(parse_concurrency("340282366920938463463374607431768211456"), None);
}

#[test]
fn timeout_is_a_number_of_milliseconds() {
    assert_eq!(parse_timeout("1000"), Some(1000));
    assert_eq!(parse_timeout("0"), Some(0));
    assert_eq!(parse_timeout("18446744073709551615"), Some(u64::MAX));
    assert_eq!(parse_timeout("18446744073709551616"), None);
    assert_eq!(parse_timeout("1s"), None);
    assert_eq!(parse_timeout(""), None);
    assert_eq!(parse_timeout("-5"), None);
}

#[test]
fn configure_gives_the_settings_of_a_plain_run() {
    assert_eq!(
        configure(vec![], true, "1000", "20"),
        Ok(Settings {
            probes: vec![Probe::new_http(80), Probe::new_https(443)],
            concurrency: 20,
            timeout_ms: 1000,
        })
    );
    assert_eq!(
        configure(vec!["http:8080"], false, "250", "2"),
        Ok(Settings {
            probes: vec![Probe::new_http(8080)],
            concurrency: 2,
            timeout_ms: 250,
        })
    );
}

#[test]
fn configure_reports_the_first_thing_that_is_wrong() {
    assert_eq!(
        configure(vec!["ftp:21"], true, "soon", "0"),
        Err(ConfigError::Concurrency)
    );
    assert_eq!(
        configure(vec!["ftp:21", "http:1", "x"], true, "soon", "4"),
        Err(ConfigError::Probes(vec![
            String::from("Error parsing probe: ftp:21"),
            String::from("Error parsing probe: x"),
        ]))
    );
    assert_eq!(
        configure(vec!["http:1"], true, "soon", "4"),
        Err(ConfigError::Timeout)
    );
}
