use micsync::client::{
    judge_health, judge_refusal_body, judge_stream_head, judge_stream_header, stream_request, OpenErr,
    StreamHead,
};
use micsync::http::{parse_request_path, split_http_response};
use micsync::server::{
    authorized, bad_request, bind_again, denied, not_found, read_request, start, Admission,
    Decision, Grant, Kind, Request, ServerHandle, Verdict,
};
use micsync::settings::{trusted_list, Settings, Store};
use micsync::wire::{end_frame, encode_frame, frame_head, FrameHead};
use micsync::wire::{END_PREEMPTED, END_SERVER_CLOSING, MAGIC};

fn store() -> Store {
    Store::new(Settings::fresh("Mac".to_string(), "id-1".to_string()))
}

fn ask(s: &mut ServerHandle, st: &mut Store, kind: Kind, token: &str, host: &str) -> Admission {
    let addr = format!("{host}:5000");
    s.ask(st, kind, "Tablet".to_string(), token, addr, host.to_string())
}

fn held(a: Admission) -> u64 {
    match a {
        Admission::Held(t) => t,
        _ => panic!("should wait for the owner"),
    }
}

/// A grant for the stream, by the owner's consent.
fn grant(s: &mut ServerHandle, st: &mut Store, host: &str) -> Grant {
    let t = held(ask(s, st, Kind::Stream, "", host));
    s.decide(Decision::Once);
    match s.settle(st, t, 0, 0, false, 1, 2, 0) {
        Verdict::Granted(g) => g,
        _ => panic!("should be granted"),
    }
}

fn health(s: &ServerHandle) -> String {
    s.health("Mac", "desktop", "id-1")
}

#[test]
fn parse_request_path_variants() {
    assert_eq!(
        parse_request_path("GET /health HTTP/1.1\r\nHost: x\r\n\r\n").as_deref(),
        Some("/health")
    );
    assert_eq!(
        parse_request_path("GET /stream?x=1 HTTP/1.1\r\n\r\n").as_deref(),
        Some("/stream")
    );
    assert!(parse_request_path("POST /health HTTP/1.1\r\n\r\n").is_none());
    assert!(parse_request_path("").is_none());
}

/// Idle: no microphone. A request opens it. A new request takes over. The end of
/// the last session frees it.
#[test]
fn mic_on_demand_and_preemption() {
    let mut st = store();
    let mut s = start(None, 47800);

    assert_eq!(s.stream_addr(), None, "mic must be off when idle");
    assert!(health(&s).contains(r#""streaming":false"#));

    let g1 = grant(&mut s, &mut st, "c1");
    let claim1 = s.claim(g1, "c1:1".to_string());
    let c1 = claim1.id();
    let (head1, header) = s.capture_started(&claim1, "fake".to_string(), 44100);
    assert!(head1.starts_with("HTTP/1.1 200"), "{head1}");
    assert_eq!(header.len(), 12);
    assert_eq!(&header[0..4], &MAGIC);
    assert_eq!(u32::from_le_bytes([header[4], header[5], header[6], header[7]]), 44100);
    assert_eq!(s.end_of(c1), None, "audio goes on");
    let frame = encode_frame(&[7i16; 441]);
    assert_eq!(frame_head(&frame[0..4]), FrameHead::Audio(441));

    assert!(health(&s).contains(r#""streaming":true"#));
    assert!(health(&s).contains(r#""client":"c1:1""#));

    let g2 = grant(&mut s, &mut st, "c2");
    let claim2 = s.claim(g2, "c2:1".to_string());
    let c2 = claim2.id();
    let (head2, header2) = s.capture_started(&claim2, "fake".to_string(), 44100);
    assert!(head2.starts_with("HTTP/1.1 200"), "{head2}");
    assert_eq!(&header2[0..4], &MAGIC);
    assert_eq!(s.end_of(c1), Some(END_PREEMPTED), "c1 should be told it was preempted");
    assert_eq!(s.end_of(c2), None, "c2 should receive audio");

    // The end of the old session leaves the new one alone.
    s.finish(c1);
    assert_eq!(s.stream_addr().as_deref(), Some("c2:1"));
    s.finish(c2);
    assert!(health(&s).contains(r#""streaming":false"#), "released after the client left");
    assert_eq!(s.stream_addr(), None, "mic must be released after last client leaves");
    assert_eq!(s.sample_rate(), 44100);
}

#[test]
fn whoever_has_the_microphone_is_taken_over() {
    let mut st = store();
    let mut s = start(None, 0);
    let mut last = None;
    for host in ["c1", "c2", "c3"] {
        let g = grant(&mut s, &mut st, host);
        let id = s.claim(g, format!("{host}:1")).id();
        assert_eq!(s.end_of(id), None);
        if let Some(before) = last {
            assert_ne!(before, id);
            assert_eq!(s.end_of(before), Some(END_PREEMPTED));
        }
        last = Some(id);
    }
}

#[test]
fn server_stop_notifies_client() {
    let mut st = store();
    let mut s = start(None, 0);
    let g = grant(&mut s, &mut st, "c1");
    let claim = s.claim(g, "c1:1".to_string());
    let id = claim.id();
    let (head, _) = s.capture_started(&claim, "fake".to_string(), 44100);
    assert!(head.starts_with("HTTP/1.1 200"), "{head}");
    s.stop();
    assert!(s.is_stopped());
    let reason = s.end_of(id).unwrap();
    assert_eq!(reason, END_SERVER_CLOSING);
    assert_eq!(end_frame(reason), vec![0, 0, 0, 0, 0, 0, 0, 0]);
    s.finish(id);
    assert_eq!(s.stream_addr(), None, "mic must be released after server stops");
}

#[test]
fn mic_failure_returns_503() {
    let mut st = store();
    let mut s = start(None, 0);
    let g = grant(&mut s, &mut st, "c1");
    let id = s.claim(g, "c1:1".to_string()).id();
    let resp = s.capture_failed(id, "假装麦克风坏了");
    assert!(resp.starts_with("HTTP/1.1 503"), "{resp}");
    let (code, body) = split_http_response(&resp).unwrap();
    assert_eq!(code, 503);
    assert!(body.contains("mic_failed"), "{body}");
    match judge_refusal_body(code, body) {
        OpenErr::Retry(m) => assert_eq!(m, "服务端拒绝串流: 假装麦克风坏了"),
        OpenErr::Denied(_) => panic!("a broken microphone is no denial"),
    }
    assert_eq!(s.take_error().as_deref(), Some("假装麦克风坏了"));
    assert!(health(&s).contains(r#""streaming":false"#));
}

#[test]
fn requests_are_told_apart() {
    assert!(matches!(read_request("POST / HTTP/1.1\r\n\r\n"), Request::Bad));
    assert!(matches!(read_request("GET /x HTTP/1.1\r\n\r\n"), Request::NotFound));
    assert!(matches!(read_request("GET /health HTTP/1.1\r\n\r\n"), Request::Health));
    let head =
        "GET /stream HTTP/1.1\r\nHost: h\r\nx-micsync-name:  \u{1}Pad \r\nX-MicSync-Token: abc\r\n\r\n";
    match read_request(head) {
        Request::Consent { kind, name, token } => {
            assert_eq!(kind, Kind::Stream);
            assert_eq!(name, "Pad");
            assert_eq!(token, "abc");
        }
        _ => panic!("should ask for consent"),
    }
    match read_request("GET /authorize HTTP/1.1\r\n\r\n") {
        Request::Consent { kind, name, token } => {
            assert_eq!(kind, Kind::Authorize);
            assert_eq!(name, "");
            assert_eq!(token, "");
        }
        _ => panic!("should ask for consent"),
    }
    assert_eq!(split_http_response(&bad_request()).unwrap(), (400, r#"{"error":"bad_request"}"#));
    assert_eq!(split_http_response(&not_found()).unwrap(), (404, r#"{"error":"not_found"}"#));
    assert_eq!(Kind::Stream.as_str(), "stream");
    assert_eq!(Kind::Authorize.as_str(), "authorize");
}

#[test]
fn nothing_touches_the_microphone_before_consent() {
    let mut st = store();
    let mut s = start(None, 0);
    let t = held(ask(&mut s, &mut st, Kind::Stream, "", "c1"));
    assert_eq!(s.stream_addr(), None);
    assert_eq!(s.sample_rate(), 0);
    let (name, addr, kind) = s.pending().unwrap();
    assert_eq!((name.as_str(), addr.as_str(), kind), ("Tablet", "c1:5000", Kind::Stream));
    let wait = s.settle(&mut st, t, 29_999, 0, false, 1, 2, 0);
    assert!(matches!(wait, Verdict::Waits));
    // No answer in time counts as a denial.
    match s.settle(&mut st, t, 30_000, 0, false, 1, 2, 0) {
        Verdict::Denied(m) => assert_eq!(m, "对方未在 30 秒内确认,请求已自动拒绝"),
        _ => panic!("should be denied"),
    }
    assert!(s.pending().is_none());
    assert_eq!(s.stream_addr(), None);
    assert!(trusted_list(&st).is_empty());
    assert!(matches!(
        s.settle(&mut st, t, 0, 0, false, 1, 2, 0),
        Verdict::Gone
    ));
}

#[test]
fn a_refusal_is_final_and_explained() {
    let mut st = store();
    let mut s = start(None, 0);
    let t = held(ask(&mut s, &mut st, Kind::Stream, "", "c1"));
    s.decide(Decision::Deny);
    let message = match s.settle(&mut st, t, 10, 10, false, 1, 2, 0) {
        Verdict::Denied(m) => m,
        _ => panic!("should be denied"),
    };
    assert_eq!(message, "对方拒绝了本次麦克风使用请求");
    let resp = denied(&message);
    let (code, body) = split_http_response(&resp).unwrap();
    assert_eq!(code, 403);
    match judge_refusal_body(code, body) {
        OpenErr::Denied(m) => assert_eq!(m, message),
        OpenErr::Retry(_) => panic!("a denial is final"),
    }
}

#[test]
fn always_issues_a_token_that_lets_in() {
    let mut st = store();
    let mut s = start(None, 0);
    let t = held(ask(&mut s, &mut st, Kind::Stream, "", "c1"));
    s.decide(Decision::Always);
    let tok = "0000000000000abcffffffffffffffff";
    let g = match s.settle(&mut st, t, 0, 0, false, 0xabc, u64::MAX, 9) {
        Verdict::Granted(g) => g,
        _ => panic!("should be granted"),
    };
    assert_eq!(g.token(), tok);
    assert_eq!(trusted_list(&st)[0].token, tok);
    assert_eq!(trusted_list(&st)[0].added_at, 9);
    assert!(st.take_unsaved());
    let claim = s.claim(g, "c1:1".to_string());
    let (head, header) = s.capture_started(&claim, "m".to_string(), 48000);
    match judge_stream_head(&head) {
        StreamHead::Open(token) => assert_eq!(token.as_deref(), Some(tok)),
        _ => panic!("the stream follows"),
    }
    assert_eq!(judge_stream_header(&header).ok(), Some(48000));
    // The client's next request brings it.
    match read_request(&stream_request("mac:47800", "Tablet", tok)) {
        Request::Consent { kind, name, token } => {
            assert_eq!((kind, name.as_str(), token.as_str()), (Kind::Stream, "Tablet", tok));
        }
        _ => panic!("should ask for consent"),
    }
    // From now on the token is enough, from anywhere.
    assert!(matches!(
        ask(&mut s, &mut st, Kind::Stream, tok, "elsewhere"),
        Admission::Granted(_)
    ));
    assert!(matches!(
        ask(&mut s, &mut st, Kind::Authorize, tok, "elsewhere"),
        Admission::Authorized
    ));
    // The public id of this server is no credential.
    held(ask(&mut s, &mut st, Kind::Stream, "id-1", "elsewhere"));
}

#[test]
fn an_authorization_for_once_is_good_for_one_stream() {
    let mut st = store();
    let mut s = start(None, 0);
    let t = held(ask(&mut s, &mut st, Kind::Authorize, "", "c1"));
    s.decide(Decision::Once);
    match s.settle(&mut st, t, 0, 0, false, 1, 2, 0) {
        Verdict::Authorized(token) => {
            assert_eq!(token, "");
            let resp = authorized(&token);
            let (code, body) = split_http_response(&resp).unwrap();
            assert_eq!((code, body), (200, r#"{"status":"authorized"}"#));
        }
        _ => panic!("should be authorized"),
    }
    held(ask(&mut s, &mut st, Kind::Stream, "", "c2"));
    assert!(matches!(ask(&mut s, &mut st, Kind::Stream, "", "c1"), Admission::Granted(_)));
    held(ask(&mut s, &mut st, Kind::Stream, "", "c1"));
}

#[test]
fn an_authorization_waits_as_long_as_the_client_does() {
    let mut st = store();
    let mut s = start(None, 0);
    let t = held(ask(&mut s, &mut st, Kind::Authorize, "", "c1"));
    let wait = s.settle(&mut st, t, 3_600_000, 14_999, false, 1, 2, 0);
    assert!(matches!(wait, Verdict::Waits));
    let gone = s.settle(&mut st, t, 0, 15_000, false, 1, 2, 0);
    assert!(matches!(gone, Verdict::Gone));
    let t = held(ask(&mut s, &mut st, Kind::Authorize, "", "c1"));
    s.decide(Decision::Always);
    // A client that left gets nothing.
    let gone = s.settle(&mut st, t, 0, 0, true, 1, 2, 0);
    assert!(matches!(gone, Verdict::Gone));
    assert!(trusted_list(&st).is_empty());
}

#[test]
fn the_owner_answers_one_request_after_the_other() {
    let mut st = store();
    let mut s = start(None, 0);
    let a = held(ask(&mut s, &mut st, Kind::Stream, "", "a"));
    let b = held(ask(&mut s, &mut st, Kind::Authorize, "", "b"));
    assert_eq!(s.pending().unwrap().1, "a:5000");
    s.decide(Decision::Deny);
    assert_eq!(s.pending().unwrap().1, "b:5000");
    assert!(matches!(
        s.settle(&mut st, b, 0, 0, false, 1, 2, 0),
        Verdict::Waits
    ));
    assert!(matches!(
        s.settle(&mut st, a, 0, 0, false, 1, 2, 0),
        Verdict::Denied(_)
    ));
    s.stop();
    assert!(matches!(
        s.settle(&mut st, b, 0, 0, false, 1, 2, 0),
        Verdict::Gone
    ));
    s.decide(Decision::Once);
    assert!(s.pending().is_none());
}

#[test]
fn health_tells_who_this_is() {
    let s = start(None, 0);
    let ident = judge_health(&health(&s)).ok().unwrap();
    assert_eq!(ident.id, "id-1");
    assert_eq!(ident.name, "Mac");
}

#[test]
fn the_shown_device() {
    let mut st = store();
    let mut s = start(None, 47800);
    assert_eq!(s.port(), 47800);
    assert_eq!(s.device(), "系统默认");
    let g = grant(&mut s, &mut st, "c1");
    let claim = s.claim(g, "c1:1".to_string());
    let id = claim.id();
    s.capture_started(&claim, "Studio".to_string(), 48000);
    s.captured(500);
    assert_eq!(s.level(), 500);
    assert_eq!(s.wave(), (vec![500], 1));
    s.finish(id);
    assert_eq!(s.wave(), (Vec::new(), 1));
    assert_eq!(s.device(), "Studio");
    s.set_device(Some("USB".to_string()));
    assert_eq!(s.device(), "USB");
    assert_eq!(s.device_pref().as_deref(), Some("USB"));
}

#[test]
fn binding_is_tried_again_ten_times() {
    assert_eq!(bind_again(0), Some(50));
    assert_eq!(bind_again(9), Some(50));
    assert_eq!(bind_again(10), None);
}
