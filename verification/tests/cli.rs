use hwall::cli::serve::{classify_request, respond, response_head, Request, ServeArgs};
use hwall::cli::watch::{next_sample_deadline, time_until, WatchArgs};
use hwall::terminal::TerminalView;
use std::time::Duration;

fn nanos(duration: Duration) -> u128 {
    duration.as_nanos()
}

#[test]
fn only_getting_the_root_returns_the_snapshot() {
    assert_eq!(classify_request("GET / HTTP/1.1"), Request::Snapshot);
    assert_eq!(classify_request("GET /other HTTP/1.1"), Request::NotFound);
    assert_eq!(
        classify_request("POST / HTTP/1.1"),
        Request::MethodNotAllowed
    );
}

#[test]
fn malformed_request_lines_are_rejected() {
    assert_eq!(classify_request(""), Request::Invalid);
    assert_eq!(classify_request("GET /"), Request::Invalid);
    assert_eq!(classify_request("GET / HTTP/2"), Request::Invalid);
    assert_eq!(classify_request("GET / HTTP/1.1 extra"), Request::Invalid);
}

#[test]
fn sensors_are_the_default_view() {
    let args = ServeArgs::default();
    assert!(matches!(args.view, TerminalView::Sensors));
    assert_eq!(args.listen, "127.0.0.1:8765");
    assert_eq!(args.interval_ms, 1000);
}

#[test]
fn watch_defaults_to_the_mixed_view() {
    assert!(matches!(WatchArgs::default().view, TerminalView::Mixed));
}

#[test]
fn responses_and_headers() {
    let ok = respond(Some(Request::Snapshot));
    assert_eq!(ok.status, "200 OK");
    assert_eq!(ok.text_body, None);
    assert_eq!(
        response_head(&ok, 12),
        "HTTP/1.1 200 OK\r\nContent-Type: application/json\r\nContent-Length: 12\r\nCache-Control: no-store\r\nConnection: close\r\n\r\n"
    );
    let not_allowed = respond(Some(Request::MethodNotAllowed));
    assert_eq!(not_allowed.text_body, Some("Method not allowed\n"));
    assert_eq!(
        response_head(&not_allowed, 19),
        "HTTP/1.1 405 Method Not Allowed\r\nContent-Type: text/plain; charset=utf-8\r\nContent-Length: 19\r\nCache-Control: no-store\r\nConnection: close\r\nAllow: GET\r\n\r\n"
    );
    assert_eq!(respond(None).status, "400 Bad Request");
    assert_eq!(respond(Some(Request::Invalid)).text_body, Some("Bad request\n"));
    assert_eq!(respond(Some(Request::NotFound)).status, "404 Not Found");
    assert_eq!(classify_request("GET\t/  HTTP/1.0"), Request::Snapshot);
}

#[test]
fn work_time_is_subtracted_from_the_interval() {
    let start = nanos(Duration::from_secs(1_000));
    let deadline = start + nanos(Duration::from_secs(1));
    let finished = start + nanos(Duration::from_millis(341));

    assert_eq!(time_until(deadline, finished), nanos(Duration::from_millis(659)));
    assert_eq!(time_until(finished, deadline), 0);
}

#[test]
fn missed_deadlines_do_not_add_an_extra_sleep() {
    let start = nanos(Duration::from_secs(1_000));
    let finished = start + nanos(Duration::from_millis(341));

    assert_eq!(
        next_sample_deadline(start, finished, nanos(Duration::from_millis(200))),
        finished,
    );
}

#[test]
fn cadence_restarts_after_an_overrun_without_catching_up() {
    let start = nanos(Duration::from_secs(1_000));
    let overrun_finished = start + nanos(Duration::from_millis(341));
    let restarted =
        next_sample_deadline(start, overrun_finished, nanos(Duration::from_millis(200)));
    let next_finished = restarted + nanos(Duration::from_millis(150));
    let next_deadline =
        next_sample_deadline(restarted, next_finished, nanos(Duration::from_millis(200)));

    assert_eq!(next_deadline, restarted + nanos(Duration::from_millis(200)));
    assert_eq!(
        time_until(next_deadline, next_finished),
        nanos(Duration::from_millis(50)),
    );
}
