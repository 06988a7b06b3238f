use hprobe::outcome::{ProbeOutcome, Sink};

#[test]
fn a_response_is_reported_by_its_url_on_the_output() {
    let outcome = ProbeOutcome {
        url: String::from("https://demo.com"),
        result: Ok(200),
    };
    assert!(outcome.responded());
    assert_eq!(
        outcome.report(),
        (Sink::Output, String::from("https://demo.com"))
    );
}

#[test]
fn any_status_counts_as_a_response() {
    for status in [100, 204, 301, 404, 500, 599] {
        let outcome = ProbeOutcome {
            url: String::from("http://demo.com:8080"),
            result: Ok(status),
        };
        assert!(outcome.responded());
        assert_eq!(
            outcome.report(),
            (Sink::Output, String::from("http://demo.com:8080"))
        );
    }
}

#[test]
fn a_failure_is_reported_with_url_and_description_on_the_error_stream() {
    let outcome = ProbeOutcome {
        url: String::from("http://demo.com"),
        result: Err(String::from("connection refused")),
    };
    assert!(!outcome.responded());
    assert_eq!(
        outcome.report(),
        (
            Sink::Errors,
            String::from("Got an error: http://demo.com: connection refused")
        )
    );
}

#[test]
fn a_failure_without_description_still_names_the_url() {
    let outcome = ProbeOutcome {
        url: String::from("http://x"),
        result: Err(String::new()),
    };
    assert_eq!(
        outcome.report(),
        (Sink::Errors, String::from("Got an error: http://x: "))
    );
}
