use hprobe::dispatch::{expand_host, Action, Dispatcher};
use hprobe::probe::Probe;
use hprobe::resolve::resolve_probes;

/// Runs a dispatcher over `hosts` against a pretended network in which the
/// request that completes next is picked by `pick` from the number of
/// requests in flight. Returns the URLs in the order of completion and the
/// largest number of requests that were in flight at once.
fn drive(
    hosts: &[&str],
    probes: Vec<Probe>,
    limit: usize,
    pick: fn(usize, usize) -> usize,
) -> (Vec<String>, usize) {
    let mut dispatcher = Dispatcher::new(probes, limit).unwrap();
    let mut input = hosts.iter();
    let mut in_flight: Vec<String> = Vec::new();
    let mut outcomes: Vec<String> = Vec::new();
    let mut most = 0;
    let mut turn = 0;
    loop {
        assert_eq!(dispatcher.in_flight(), in_flight.len());
        assert!(dispatcher.in_flight() <= dispatcher.limit());
        match dispatcher.next_action() {
            Action::ReadHost => match input.next() {
                Some(host) => assert!(dispatcher.host_read(host)),
                None => dispatcher.input_ended(),
            },
            Action::Submit(url) => {
                in_flight.push(url);
                most = most.max(in_flight.len());
                assert!(in_flight.len() <= limit);
            }
            Action::AwaitCompletion => {
                assert!(!in_flight.is_empty());
                turn += 1;
                let which = pick(turn, in_flight.len()) % in_flight.len();
                let url = in_flight.remove(which);
                assert!(dispatcher.request_completed(&url));
                outcomes.push(url);
            }
            Action::Finished => break,
        }
    }
    assert!(in_flight.is_empty());
    assert!(input.next().is_none());
    assert!(dispatcher.is_finished());
    (outcomes, most)
}

fn oldest(_turn: usize, _count: usize) -> usize {
    0
}

fn newest(_turn: usize, count: usize) -> usize {
    count - 1
}

fn scattered(turn: usize, count: usize) -> usize {
    (turn * 7 + 3) % count
}

fn sorted(mut urls: Vec<String>) -> Vec<String> {
    urls.sort();
    urls
}

#[test]
fn two_hosts_with_default_probes_give_four_outcomes() {
    let probes = resolve_probes(vec![], true).unwrap();
    for pick in [oldest, newest, scattered] {
        let (outcomes, most) = drive(&["a.com", "b.com"], probes.clone(), 2, pick);
        assert_eq!(outcomes.len(), 4);
        assert_eq!(
            sorted(outcomes),
            vec![
                String::from("http://a.com"),
                String::from("http://b.com"),
                String::from("https://a.com"),
                String::from("https://b.com"),
            ]
        );
        assert_eq!(most, 2);
    }
}

#[test]
fn requests_in_flight_never_exceed_the_limit() {
    let hosts = ["a", "b", "c", "d", "e", "f", "g"];
    let probes = vec![
        Probe::new_http(80),
        Probe::new_https(443),
        Probe::new_http(8080),
    ];
    for limit in 1..=25 {
        for pick in [oldest, newest, scattered] {
            let (outcomes, most) = drive(&hosts, probes.clone(), limit, pick);
            assert!(most <= limit);
            assert_eq!(most, limit.min(21));
            assert_eq!(outcomes.len(), 21);
        }
    }
}

#[test]
fn every_target_has_exactly_one_outcome() {
    let hosts = ["one.example", "two.example", "three.example"];
    let probes = vec![Probe::new_http(80), Probe::new_https(8443)];
    let mut expected = Vec::new();
    for host in hosts {
        for probe in &probes {
            expected.push(hprobe::url::probe_to_url(host, probe));
        }
    }
    assert_eq!(expected.len(), 6);
    for limit in [1, 2, 3, 6, 100] {
        for pick in [oldest, newest, scattered] {
            let (outcomes, _) = drive(&hosts, probes.clone(), limit, pick);
            assert_eq!(sorted(outcomes), sorted(expected.clone()));
        }
    }
}

#[test]
fn duplicate_probes_and_hosts_duplicate_the_work() {
    let probes = vec![Probe::new_http(80), Probe::new_http(80)];
    let (outcomes, _) = drive(&["a", "a"], probes, 3, scattered);
    assert_eq!(outcomes, vec![String::from("http://a"); 4]);
}

#[test]
fn with_one_slot_outcomes_come_in_submission_order() {
    let probes = vec![Probe::new_https(443), Probe::new_http(81)];
    let (outcomes, most) = drive(&["x", "y"], probes, 1, scattered);
    assert_eq!(most, 1);
    assert_eq!(
        outcomes,
        vec![
            String::from("https://x"),
            String::from("http://x:81"),
            String::from("https://y"),
            String::from("http://y:81"),
        ]
    );
}

#[test]
fn an_empty_probe_set_gives_no_outcome() {
    let (outcomes, most) = drive(&["a.com", "b.com", "c.com"], vec![], 4, oldest);
    assert!(outcomes.is_empty());
    assert_eq!(most, 0);
}

#[test]
fn an_empty_input_gives_no_outcome() {
    let probes = resolve_probes(vec![], true).unwrap();
    let (outcomes, most) = drive(&[], probes, 4, oldest);
    assert!(outcomes.is_empty());
    assert_eq!(most, 0);
}

#[test]
fn a_limit_of_zero_is_refused() {
    assert!(Dispatcher::new(vec![Probe::new_http(80)], 0).is_none());
    assert!(Dispatcher::new(vec![], 0).is_none());
    assert!(Dispatcher::new(vec![], 1).is_some());
}

#[test]
fn the_dispatcher_fills_free_slots_before_it_waits() {
    let probes = vec![Probe::new_http(80), Probe::new_https(443)];
    let mut dispatcher = Dispatcher::new(probes, 3).unwrap();
    assert_eq!(dispatcher.limit(), 3);
    assert!(!dispatcher.is_finished());
    assert_eq!(dispatcher.next_action(), Action::ReadHost);
    assert_eq!(dispatcher.next_action(), Action::ReadHost);
    assert!(dispatcher.host_read("a"));
    assert!(dispatcher.has_pending());
    assert_eq!(
        dispatcher.next_action(),
        Action::Submit(String::from("http://a"))
    );
    assert_eq!(
        dispatcher.next_action(),
        Action::Submit(String::from("https://a"))
    );
    assert!(!dispatcher.has_pending());
    assert_eq!(dispatcher.in_flight(), 2);
    assert_eq!(dispatcher.next_action(), Action::ReadHost);
    assert!(dispatcher.host_read("b"));
    assert_eq!(
        dispatcher.next_action(),
        Action::Submit(String::from("http://b"))
    );
    assert_eq!(dispatcher.in_flight(), 3);
    assert_eq!(dispatcher.next_action(), Action::AwaitCompletion);
    assert_eq!(dispatcher.next_action(), Action::AwaitCompletion);
    assert!(dispatcher.request_completed("https://a"));
    assert_eq!(dispatcher.in_flight(), 2);
    assert_eq!(
        dispatcher.next_action(),
        Action::Submit(String::from("https://b"))
    );
    assert_eq!(dispatcher.next_action(), Action::AwaitCompletion);
    assert!(dispatcher.request_completed("https://b"));
    assert_eq!(dispatcher.next_action(), Action::ReadHost);
    assert!(!dispatcher.is_exhausted());
    dispatcher.input_ended();
    assert!(dispatcher.is_exhausted());
    assert_eq!(dispatcher.next_action(), Action::AwaitCompletion);
    assert!(dispatcher.request_completed("http://a"));
    assert!(!dispatcher.is_finished());
    assert_eq!(dispatcher.next_action(), Action::AwaitCompletion);
    assert!(dispatcher.request_completed("http://b"));
    assert_eq!(dispatcher.next_action(), Action::Finished);
    assert!(dispatcher.is_finished());
    assert_eq!(dispatcher.next_action(), Action::Finished);
}

#[test]
fn events_out_of_turn_change_nothing() {
    let mut dispatcher = Dispatcher::new(vec![Probe::new_http(80)], 1).unwrap();
    assert!(!dispatcher.request_completed("http://a"));
    assert_eq!(dispatcher.in_flight(), 0);
    assert!(dispatcher.host_read("a"));
    assert!(!dispatcher.host_read("b"));
    assert!(!dispatcher.request_completed("http://a"));
    assert_eq!(
        dispatcher.next_action(),
        Action::Submit(String::from("http://a"))
    );
    assert_eq!(dispatcher.next_action(), Action::AwaitCompletion);
    dispatcher.input_ended();
    assert!(!dispatcher.host_read("c"));
    assert!(!dispatcher.request_completed("http://b"));
    assert!(!dispatcher.request_completed("http://a/"));
    assert!(!dispatcher.request_completed(""));
    assert_eq!(dispatcher.in_flight(), 1);
    assert!(dispatcher.request_completed("http://a"));
    assert!(!dispatcher.request_completed("http://a"));
    assert_eq!(dispatcher.in_flight(), 0);
    assert_eq!(dispatcher.next_action(), Action::Finished);
}

#[test]
fn a_url_in_flight_twice_completes_twice() {
    let probes = vec![Probe::new_http(80), Probe::new_http(80)];
    let mut dispatcher = Dispatcher::new(probes, 2).unwrap();
    assert!(dispatcher.host_read("a"));
    dispatcher.input_ended();
    assert_eq!(
        dispatcher.next_action(),
        Action::Submit(String::from("http://a"))
    );
    assert_eq!(
        dispatcher.next_action(),
        Action::Submit(String::from("http://a"))
    );
    assert_eq!(dispatcher.in_flight(), 2);
    assert!(dispatcher.request_completed("http://a"));
    assert_eq!(dispatcher.in_flight(), 1);
    assert!(dispatcher.request_completed("http://a"));
    assert_eq!(dispatcher.in_flight(), 0);
    assert!(!dispatcher.request_completed("http://a"));
    assert_eq!(dispatcher.next_action(), Action::Finished);
}

#[test]
fn input_may_end_while_targets_are_pending() {
    let probes = vec![Probe::new_http(1), Probe::new_http(2)];
    let mut dispatcher = Dispatcher::new(probes, 1).unwrap();
    assert!(dispatcher.host_read("h"));
    dispatcher.input_ended();
    assert_eq!(
        dispatcher.next_action(),
        Action::Submit(String::from("http://h:1"))
    );
    assert_eq!(dispatcher.next_action(), Action::AwaitCompletion);
    assert!(dispatcher.request_completed("http://h:1"));
    assert_eq!(
        dispatcher.next_action(),
        Action::Submit(String::from("http://h:2"))
    );
    assert!(dispatcher.request_completed("http://h:2"));
    assert_eq!(dispatcher.next_action(), Action::Finished);
}

#[test]
fn expand_host_gives_one_url_for_each_probe_in_order() {
    let probes = vec![
        Probe::new_https(443),
        Probe::new_http(80),
        Probe::new_http(8080),
        Probe::new_https(443),
    ];
    assert_eq!(
        expand_host("a.com", &probes),
        vec![
            String::from("https://a.com"),
            String::from("http://a.com"),
            String::from("http://a.com:8080"),
            String::from("https://a.com"),
        ]
    );
    assert_eq!(expand_host("a.com", &vec![]), Vec::<String>::new());
}
