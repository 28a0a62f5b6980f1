use hauntbot::dispatch::{
    read_remaining, verdict, Directive, Dispatch, DispatchError, Dispatcher, FanOut, HeaderFault,
    PayloadStyle, Response, Signal, Verdict,
};
use hauntbot::store::{Store, SubscriberEndpoint};

fn endpoints(urls: &[&str]) -> Vec<SubscriberEndpoint> {
    urls.iter().map(|u| SubscriberEndpoint { url: u.to_string() }).collect()
}

fn response(status: u16, remaining: Option<&str>, reset_after: Option<&str>) -> Signal {
    Signal::Response(Response {
        status,
        remaining: remaining.map(|s| s.to_string()),
        reset_after: reset_after.map(|s| s.to_string()),
    })
}

fn begin(style: PayloadStyle, fan_out: FanOut, urls: &[&str]) -> (Dispatch, Vec<Directive>) {
    Dispatcher { style, fan_out }.begin(&endpoints(urls))
}

fn sequential(urls: &[&str]) -> Dispatch {
    begin(PayloadStyle::Embeds, FanOut::Sequential, urls).0
}

fn is_send(directive: &Directive, endpoint: usize, url: &str) -> bool {
    matches!(directive, Directive::Send { endpoint: e, url: u } if *e == endpoint && u == url)
}

fn is_pause(directive: &Directive, endpoint: usize, text: &str) -> bool {
    matches!(directive, Directive::Pause { endpoint: e, reset_after: t } if *e == endpoint && t == text)
}

fn is_remove(directive: &Directive, endpoint: usize, url: &str) -> bool {
    matches!(directive, Directive::Remove { endpoint: e, url: u } if *e == endpoint && u == url)
}

fn is_abort(directive: &Directive, error: DispatchError) -> bool {
    matches!(directive, Directive::Abort(e) if *e == error)
}

#[test]
fn verdict_reads_the_status() {
    assert_eq!(verdict(200), Verdict::Delivered);
    assert_eq!(verdict(204), Verdict::Delivered);
    assert_eq!(verdict(299), Verdict::Delivered);
    assert_eq!(verdict(404), Verdict::Gone);
    assert_eq!(verdict(199), Verdict::Rejected);
    assert_eq!(verdict(300), Verdict::Rejected);
    assert_eq!(verdict(400), Verdict::Rejected);
    assert_eq!(verdict(403), Verdict::Rejected);
    assert_eq!(verdict(429), Verdict::Rejected);
    assert_eq!(verdict(500), Verdict::Rejected);
    assert_eq!(verdict(0), Verdict::Rejected);
}

#[test]
fn remaining_defaults_to_one_for_embeds_only() {
    assert_eq!(read_remaining(PayloadStyle::Embeds, &None), Ok(1));
    assert_eq!(read_remaining(PayloadStyle::Text, &None), Err(HeaderFault::MissingRemaining));
}

#[test]
fn remaining_is_read_from_the_header() {
    for style in [PayloadStyle::Embeds, PayloadStyle::Text] {
        assert_eq!(read_remaining(style, &Some("0".to_string())), Ok(0));
        assert_eq!(read_remaining(style, &Some("4".to_string())), Ok(4));
        assert_eq!(
            read_remaining(style, &Some("four".to_string())),
            Err(HeaderFault::MalformedRemaining)
        );
        assert_eq!(read_remaining(style, &Some("".to_string())), Err(HeaderFault::MalformedRemaining));
        assert_eq!(
            read_remaining(style, &Some("-1".to_string())),
            Err(HeaderFault::MalformedRemaining)
        );
    }
}

#[test]
fn dispatch_without_endpoints_finishes_at_once() {
    for fan_out in [FanOut::Sequential, FanOut::Concurrent] {
        let (dispatch, first) = begin(PayloadStyle::Embeds, fan_out, &[]);
        assert!(dispatch.is_over());
        assert_eq!(first.len(), 1);
        assert!(matches!(first[0], Directive::Finish));
    }
}

#[test]
fn sequential_dispatch_sends_one_after_the_other() {
    let (mut dispatch, first) = begin(PayloadStyle::Embeds, FanOut::Sequential, &["a", "b", "c"]);
    assert!(!dispatch.is_over());
    assert_eq!(first.len(), 1);
    assert!(is_send(&first[0], 0, "a"));
    assert!(is_send(&dispatch.step(0, response(204, Some("4"), None)), 1, "b"));
    assert!(is_send(&dispatch.step(1, response(200, None, None)), 2, "c"));
    assert!(!dispatch.is_over());
    assert!(matches!(dispatch.step(2, response(204, Some("1"), Some("0.2"))), Directive::Finish));
    assert!(dispatch.is_over());
}

#[test]
fn concurrent_dispatch_sends_to_all_and_finishes_after_the_last() {
    let (mut dispatch, first) = begin(PayloadStyle::Embeds, FanOut::Concurrent, &["a", "b", "c"]);
    assert_eq!(first.len(), 3);
    assert!(is_send(&first[0], 0, "a"));
    assert!(is_send(&first[1], 1, "b"));
    assert!(is_send(&first[2], 2, "c"));
    assert!(matches!(dispatch.step(2, response(204, Some("4"), None)), Directive::Idle));
    assert!(matches!(dispatch.step(0, response(204, Some("4"), None)), Directive::Idle));
    assert!(!dispatch.is_over());
    assert!(matches!(dispatch.step(1, response(204, Some("4"), None)), Directive::Finish));
    assert!(dispatch.is_over());
}

#[test]
fn rate_limit_is_honoured() {
    let mut dispatch = sequential(&["a"]);
    let directive = dispatch.step(0, response(204, Some("0"), Some("1.5")));
    assert!(is_pause(&directive, 0, "1.5"));
    assert!(!dispatch.is_over());
    assert!(matches!(dispatch.step(0, Signal::Resumed), Directive::Finish));
    assert!(dispatch.is_over());
}

#[test]
fn pause_comes_before_the_status_is_looked_at() {
    let mut dispatch = sequential(&["a", "b"]);
    assert!(is_pause(&dispatch.step(0, response(500, Some("0"), Some("2"))), 0, "2"));
    assert!(is_abort(&dispatch.step(0, Signal::Resumed), DispatchError::Rejected(500)));

    let mut dispatch = sequential(&["a", "b"]);
    assert!(is_pause(&dispatch.step(0, response(404, Some("0"), Some("0.25"))), 0, "0.25"));
    assert!(is_remove(&dispatch.step(0, Signal::Resumed), 0, "a"));
}

#[test]
fn pause_only_rests_its_own_endpoint() {
    let (mut dispatch, _) = begin(PayloadStyle::Embeds, FanOut::Concurrent, &["a", "b"]);
    assert!(is_pause(&dispatch.step(0, response(204, Some("0"), Some("3"))), 0, "3"));
    assert!(matches!(dispatch.step(1, response(204, Some("2"), None)), Directive::Idle));
    assert!(matches!(dispatch.step(0, Signal::Resumed), Directive::Finish));
}

#[test]
fn missing_reset_after_fails_an_exhausted_endpoint() {
    for style in [PayloadStyle::Embeds, PayloadStyle::Text] {
        let (mut dispatch, _) = begin(style, FanOut::Sequential, &["a", "b"]);
        let directive = dispatch.step(0, response(204, Some("0"), None));
        assert!(is_abort(&directive, DispatchError::RateLimitHeader(HeaderFault::MissingResetAfter)));
        assert!(dispatch.is_over());
    }
}

#[test]
fn reset_after_that_is_no_number_fails_the_dispatch() {
    let mut dispatch = sequential(&["a", "b"]);
    assert!(is_pause(&dispatch.step(0, response(204, Some("0"), Some("soon"))), 0, "soon"));
    let directive = dispatch.step(0, Signal::PauseRefused);
    assert!(is_abort(&directive, DispatchError::RateLimitHeader(HeaderFault::MalformedResetAfter)));
    assert!(dispatch.is_over());
}

#[test]
fn reset_after_is_not_looked_at_while_requests_remain() {
    let mut dispatch = sequential(&["a"]);
    assert!(matches!(dispatch.step(0, response(200, Some("3"), Some("soon"))), Directive::Finish));
}

#[test]
fn text_delivery_needs_the_remaining_header() {
    let (mut dispatch, _) = begin(PayloadStyle::Text, FanOut::Sequential, &["a"]);
    let directive = dispatch.step(0, response(204, None, None));
    assert!(is_abort(&directive, DispatchError::RateLimitHeader(HeaderFault::MissingRemaining)));

    let (mut dispatch, _) = begin(PayloadStyle::Text, FanOut::Sequential, &["a"]);
    assert!(matches!(dispatch.step(0, response(204, Some("1"), None)), Directive::Finish));

    let (mut dispatch, _) = begin(PayloadStyle::Embeds, FanOut::Sequential, &["a"]);
    assert!(matches!(dispatch.step(0, response(204, None, None)), Directive::Finish));
}

#[test]
fn malformed_remaining_fails_the_dispatch() {
    let mut dispatch = sequential(&["a", "b"]);
    let directive = dispatch.step(0, response(204, Some("many"), Some("1")));
    assert!(is_abort(&directive, DispatchError::RateLimitHeader(HeaderFault::MalformedRemaining)));
}

#[test]
fn gone_endpoint_is_removed_and_the_dispatch_goes_on() {
    let mut store = Store::new();
    store.add_endpoints(&vec!["a".to_string(), "u".to_string(), "c".to_string()]);
    let (mut dispatch, first) =
        Dispatcher { style: PayloadStyle::Embeds, fan_out: FanOut::Sequential }
            .begin(&store.list_endpoints());
    assert!(is_send(&first[0], 0, "a"));
    assert!(is_send(&dispatch.step(0, response(204, Some("4"), None)), 1, "u"));
    let directive = dispatch.step(1, response(404, Some("4"), None));
    assert!(is_remove(&directive, 1, "u"));
    if let Directive::Remove { url, .. } = directive {
        store.remove_endpoint(&url);
    }
    assert!(is_send(&dispatch.step(1, Signal::Removed), 2, "c"));
    assert!(matches!(dispatch.step(2, response(204, Some("4"), None)), Directive::Finish));
    let urls: Vec<String> = store.list_endpoints().into_iter().map(|e| e.url).collect();
    assert_eq!(urls, vec!["a".to_string(), "c".to_string()]);
}

#[test]
fn gone_endpoint_does_not_fail_a_concurrent_dispatch() {
    let (mut dispatch, _) = begin(PayloadStyle::Embeds, FanOut::Concurrent, &["a", "u"]);
    assert!(is_remove(&dispatch.step(1, response(404, None, None)), 1, "u"));
    assert!(matches!(dispatch.step(0, response(200, None, None)), Directive::Idle));
    assert!(matches!(dispatch.step(1, Signal::Removed), Directive::Finish));
}

#[test]
fn failed_removal_fails_the_dispatch() {
    let mut dispatch = sequential(&["u", "b"]);
    assert!(is_remove(&dispatch.step(0, response(404, None, None)), 0, "u"));
    assert!(is_abort(&dispatch.step(0, Signal::RemoveFailed), DispatchError::Store));
    assert!(dispatch.is_over());
}

#[test]
fn rejected_status_fails_the_dispatch_and_spares_the_rest() {
    for status in [400u16, 401, 403, 429, 500, 503, 301, 100] {
        let mut dispatch = sequential(&["a", "b"]);
        let directive = dispatch.step(0, response(status, Some("3"), None));
        assert!(is_abort(&directive, DispatchError::Rejected(status)));
        assert!(dispatch.is_over());
        assert!(matches!(dispatch.step(1, response(204, None, None)), Directive::Idle));
    }
}

#[test]
fn failed_request_fails_the_dispatch() {
    let mut dispatch = sequential(&["a", "b"]);
    assert!(is_abort(&dispatch.step(0, Signal::SendFailed), DispatchError::Transport));
    assert!(dispatch.is_over());
}

#[test]
fn one_failure_fails_a_concurrent_dispatch() {
    let (mut dispatch, _) = begin(PayloadStyle::Embeds, FanOut::Concurrent, &["a", "b", "c"]);
    assert!(matches!(dispatch.step(0, response(204, None, None)), Directive::Idle));
    assert!(is_abort(&dispatch.step(2, response(500, None, None)), DispatchError::Rejected(500)));
    assert!(matches!(dispatch.step(1, response(204, None, None)), Directive::Idle));
    assert!(dispatch.is_over());
}

#[test]
fn signals_that_are_not_awaited_change_nothing() {
    let mut dispatch = sequential(&["a", "b"]);
    assert!(matches!(dispatch.step(0, Signal::Resumed), Directive::Idle));
    assert!(matches!(dispatch.step(0, Signal::Removed), Directive::Idle));
    assert!(matches!(dispatch.step(0, Signal::PauseRefused), Directive::Idle));
    assert!(matches!(dispatch.step(1, response(204, None, None)), Directive::Idle));
    assert!(matches!(dispatch.step(1, Signal::SendFailed), Directive::Idle));
    assert!(matches!(dispatch.step(7, response(204, None, None)), Directive::Idle));
    assert!(!dispatch.is_over());
    assert!(is_send(&dispatch.step(0, response(204, None, None)), 1, "b"));
    assert!(matches!(dispatch.step(0, response(204, None, None)), Directive::Idle));
    assert!(matches!(dispatch.step(1, response(204, None, None)), Directive::Finish));
    assert!(matches!(dispatch.step(1, response(204, None, None)), Directive::Idle));
}
