use arxiv_cli::correlator::{Correlator, Outcome};
use arxiv_cli::errors::CdpError;
use arxiv_cli::json::JsonValue;
use arxiv_cli::poll::{classify_probe, PollState, PollVerdict, ProbeSignal};
use arxiv_cli::session::{
    page_endpoint, parse_evaluate_response, parse_new_page_response, ControlChannel, PageSession,
};
use arxiv_cli::supervisor::{extract_ws_url, launch_args, resolve_executable, scan_for_endpoint};
use arxiv_cli::wire::{classify_frame, encode_command, Frame};

#[test]
fn test_send_ids_strictly_increase() {
    let mut c = Correlator::new();
    let mut last = 0u64;
    for _ in 0..5 {
        let (id, _) = c.send("Page.navigate", JsonValue::Null).unwrap();
        assert!(id > last);
        last = id;
    }
}

#[test]
fn test_send_frame_is_command_envelope() {
    let mut c = Correlator::new();
    let (id, frame) = c.send("Page.enable", JsonValue::Obj(Vec::new())).unwrap();
    assert_eq!(id, 1);
    assert_eq!(frame, "{\"id\":1,\"method\":\"Page.enable\",\"params\":{}}");
}

#[test]
fn test_out_of_order_responses_resolve_by_id() {
    let mut c = Correlator::new();
    let (id1, _) = c.send("Runtime.evaluate", JsonValue::Null).unwrap();
    let (id2, _) = c.send("Runtime.evaluate", JsonValue::Null).unwrap();
    assert!(id2 > id1);

    // The response to the second command arrives first.
    let f2 = classify_frame("{\"id\":2,\"result\":{\"which\":2}}");
    let r2 = c.on_frame(f2).expect("second response resolves");
    assert_eq!(r2.id, id2);
    match r2.outcome {
        Outcome::Delivered(JsonValue::Obj(ms)) => {
            assert_eq!(ms[0].0, "which");
            assert!(matches!(ms[0].1, JsonValue::Int(2)));
        }
        _ => panic!("expected a delivered result"),
    }

    let f1 = classify_frame("{\"id\":1,\"result\":{\"which\":1}}");
    let r1 = c.on_frame(f1).expect("first response resolves");
    assert_eq!(r1.id, id1);
    match r1.outcome {
        Outcome::Delivered(JsonValue::Obj(ms)) => {
            assert!(matches!(ms[0].1, JsonValue::Int(1)));
        }
        _ => panic!("expected a delivered result"),
    }
}

#[test]
fn test_error_response_resolves_with_message() {
    let mut c = Correlator::new();
    let (id, _) = c.send("Page.navigate", JsonValue::Null).unwrap();
    let f = classify_frame("{\"id\":1,\"error\":{\"message\":\"no such frame\"}}");
    let r = c.on_frame(f).unwrap();
    assert_eq!(r.id, id);
    match r.outcome {
        Outcome::Failed(m) => assert_eq!(m, "no such frame"),
        _ => panic!("expected a delivered error"),
    }
}

#[test]
fn test_request_resolved_exactly_once() {
    let mut c = Correlator::new();
    let (id, _) = c.send("Runtime.evaluate", JsonValue::Null).unwrap();

    // The caller's bound elapses: the request is withdrawn once.
    assert!(c.withdraw(id));
    // It cannot be withdrawn a second time.
    assert!(!c.withdraw(id));
    // A late response for it is discarded, not resolved again.
    let late = classify_frame("{\"id\":1,\"result\":{}}");
    assert!(c.on_frame(late).is_none());
}

#[test]
fn test_events_and_malformed_frames_are_discarded() {
    let mut c = Correlator::new();
    c.send("Runtime.evaluate", JsonValue::Null).unwrap();
    let ev = classify_frame("{\"method\":\"Target.targetCreated\",\"params\":{}}");
    assert!(matches!(ev, Frame::Event { .. }));
    assert!(c.on_frame(ev).is_none());
    let bad = classify_frame("###");
    assert!(matches!(bad, Frame::Malformed));
    assert!(c.on_frame(bad).is_none());
    // A response to an identifier never issued is discarded too.
    let unknown = classify_frame("{\"id\":99,\"result\":{}}");
    assert!(c.on_frame(unknown).is_none());
}

#[test]
fn test_connection_failure_fails_all_pending() {
    let mut c = Correlator::new();
    let (id1, _) = c.send("Runtime.evaluate", JsonValue::Null).unwrap();
    let (id2, _) = c.send("Runtime.evaluate", JsonValue::Null).unwrap();
    let rs = c.fail_all();
    assert_eq!(rs.len(), 2);
    assert_eq!(rs[0].id, id1);
    assert_eq!(rs[1].id, id2);
    assert!(rs.iter().all(|r| matches!(r.outcome, Outcome::ConnectionClosed)));
    // The connection is closed now: further sends fail.
    assert!(matches!(
        c.send("Runtime.evaluate", JsonValue::Null),
        Err(CdpError::ConnectionClosed)
    ));
}

#[test]
fn test_new_page_on_closed_channel_fails() {
    let mut ch = ControlChannel::new();
    ch.conn.mark_closed();
    assert!(matches!(ch.new_page_request(), Err(CdpError::ConnectionClosed)));
}

#[test]
fn test_new_page_request_and_response() {
    let mut ch = ControlChannel::new();
    let (_id, frame) = ch.new_page_request().unwrap();
    assert_eq!(
        frame,
        "{\"id\":1,\"method\":\"Target.createTarget\",\"params\":{\"url\":\"about:blank\"}}"
    );
    let target = parse_new_page_response(
        arxiv_cli::json::parse_json("{\"targetId\":\"AB12\"}").unwrap(),
    )
    .unwrap();
    assert_eq!(target, "AB12");
    assert!(matches!(
        parse_new_page_response(arxiv_cli::json::parse_json("{}").unwrap()),
        Err(CdpError::ProtocolError)
    ));
}

#[test]
fn test_page_endpoint_derivation() {
    let ws = "ws://127.0.0.1:9222/devtools/browser/abc-def";
    let page = page_endpoint(ws, "AB12").unwrap();
    assert_eq!(page, "ws://127.0.0.1:9222/devtools/page/AB12");
    assert!(page_endpoint("ws://host/other", "AB12").is_none());
}

#[test]
fn test_session_closed_is_terminal() {
    let mut s = PageSession::connect();
    s.close();
    assert!(matches!(s.navigate_request("https://example.org"), Err(CdpError::SessionClosed)));
    assert!(matches!(s.evaluate_request("1+1"), Err(CdpError::SessionClosed)));
}

#[test]
fn test_session_request_frames() {
    let mut s = PageSession::connect();
    let (_, nav) = s.navigate_request("https://example.org/a b").unwrap();
    assert_eq!(
        nav,
        "{\"id\":1,\"method\":\"Page.navigate\",\"params\":{\"url\":\"https://example.org/a b\"}}"
    );
    let (_, ev) = s.evaluate_request("document.title").unwrap();
    assert_eq!(
        ev,
        "{\"id\":2,\"method\":\"Runtime.evaluate\",\"params\":{\"expression\":\"document.title\",\"returnByValue\":true}}"
    );
}

#[test]
fn test_parse_evaluate_response_cases() {
    let value = parse_evaluate_response(
        arxiv_cli::json::parse_json("{\"result\":{\"type\":\"string\",\"value\":\"found\"}}")
            .unwrap(),
    )
    .unwrap();
    assert!(matches!(value, JsonValue::Str(s) if s == "found"));

    let undefined = parse_evaluate_response(
        arxiv_cli::json::parse_json("{\"result\":{\"type\":\"undefined\"}}").unwrap(),
    )
    .unwrap();
    assert!(matches!(undefined, JsonValue::Null));

    let err = parse_evaluate_response(
        arxiv_cli::json::parse_json(
            "{\"result\":{},\"exceptionDetails\":{\"text\":\"Uncaught\"}}",
        )
        .unwrap(),
    );
    assert!(matches!(err, Err(CdpError::ScriptError(m)) if m == "Uncaught"));

    let bad = parse_evaluate_response(arxiv_cli::json::parse_json("7").unwrap());
    assert!(matches!(bad, Err(CdpError::ProtocolError)));
}

#[test]
fn test_probe_found_stops_first_poll_without_waiting() {
    let mut p = PollState::new(60_000, 500);
    let sig = classify_probe(&JsonValue::Str("found".to_string()));
    assert_eq!(sig, ProbeSignal::Found);
    assert_eq!(p.step(sig), PollVerdict::Stop(true));
}

#[test]
fn test_probe_empty_stops_with_false() {
    let mut p = PollState::new(60_000, 500);
    let sig = classify_probe(&JsonValue::Str("empty".to_string()));
    assert_eq!(sig, ProbeSignal::Empty);
    assert_eq!(p.step(sig), PollVerdict::Stop(false));
}

#[test]
fn test_pending_probe_times_out_not_before() {
    let mut p = PollState::new(2_000, 500);
    let sig = classify_probe(&JsonValue::Str("loading".to_string()));
    assert_eq!(sig, ProbeSignal::Pending);
    // Four intervals of sleeping are booked before the timeout is reached.
    for _ in 0..4 {
        assert_eq!(p.step(ProbeSignal::Pending), PollVerdict::Continue);
    }
    // The timeout has elapsed: the next poll gives up, found or not.
    assert_eq!(p.step(ProbeSignal::Pending), PollVerdict::Stop(false));
}

#[test]
fn test_resolve_executable_missing_path() {
    // An explicit path that does not exist fails the launch.
    let r = resolve_executable(Some("/nonexistent/browser".to_string()), false, None);
    assert!(matches!(r, Err(CdpError::BrowserNotFound)));
    let r = resolve_executable(None, false, None);
    assert!(matches!(r, Err(CdpError::BrowserNotFound)));
    let r = resolve_executable(None, false, Some("/usr/bin/chromium".to_string()));
    assert_eq!(r.unwrap(), "/usr/bin/chromium");
    let r = resolve_executable(Some("/opt/chrome".to_string()), true, None);
    assert_eq!(r.unwrap(), "/opt/chrome");
}

#[test]
fn test_launch_args_appended() {
    let user = vec!["--user-agent=UA".to_string()];
    let args = launch_args(&user, true, 0);
    assert_eq!(
        args,
        vec![
            "--user-agent=UA".to_string(),
            "--remote-debugging-port=0".to_string(),
            "--headless=new".to_string(),
        ]
    );
    let args = launch_args(&user, false, 9222);
    assert_eq!(
        args,
        vec!["--user-agent=UA".to_string(), "--remote-debugging-port=9222".to_string()]
    );
}

#[test]
fn test_extract_ws_url_from_diagnostics() {
    let line = "DevTools listening on ws://127.0.0.1:9222/devtools/browser/abc";
    assert_eq!(extract_ws_url(line).unwrap(), "ws://127.0.0.1:9222/devtools/browser/abc");
    assert!(extract_ws_url("starting renderer...").is_none());

    let lines = vec![
        "warning: sandbox".to_string(),
        line.to_string(),
        "something else".to_string(),
    ];
    assert_eq!(
        scan_for_endpoint(&lines).unwrap(),
        "ws://127.0.0.1:9222/devtools/browser/abc"
    );
    assert!(scan_for_endpoint(&vec!["no endpoint here".to_string()]).is_none());
}

#[test]
fn test_encode_command_rendering() {
    let frame = encode_command(7, "Target.createTarget", JsonValue::Obj(Vec::new()));
    assert_eq!(frame, "{\"id\":7,\"method\":\"Target.createTarget\",\"params\":{}}");
}
