use micsync::client::{
    authorize_request, end_reason, full_addr, head_cut_short, head_too_long, health_request,
    heartbeat_due, judge_health, judge_refusal_body, judge_stream_head, judge_stream_header, nap,
    stream_request, take_preauth, ClaimTodo, ClientHandle, FrameTodo, Mode, OpenErr, Preauth,
    ServerIdent, StreamEnd, StreamHead,
};
use micsync::http::{HeadReader, HeadStatus};
use micsync::settings::{remember_server, token_for_server, Settings, Store};
use micsync::wire::{decode_pcm, encode_frame, end_frame, frame_head, stream_header};
use micsync::wire::{END_PREEMPTED, END_SERVER_CLOSING};

fn store() -> Store {
    Store::new(Settings::fresh("Mac".to_string(), "id-1".to_string()))
}

fn server() -> ServerIdent {
    ServerIdent { id: "test-server".to_string(), name: "测试服务端".to_string() }
}

fn client(out_rate: u32) -> ClientHandle {
    let mut c = ClientHandle::new("127.0.0.1:47800".to_string(), server());
    c.output_ready("BlackHole".to_string(), out_rate);
    c
}

/// What a server sends: the head and header of a stream at 44.1 kHz.
fn stream_start() -> Vec<u8> {
    let mut b = b"HTTP/1.1 200 OK\r\nContent-Type: application/octet-stream\r\nConnection: close\r\n\r\n"
        .to_vec();
    b.extend(stream_header(44100));
    b
}

fn sine_frames(n: usize) -> Vec<u8> {
    let mut phase = 0.0f32;
    let mut out = Vec::new();
    for _ in 0..n {
        let frame: Vec<i16> = (0..441)
            .map(|_| {
                let s = (phase * std::f32::consts::TAU).sin() * 0.15;
                phase = (phase + 440.0 / 44100.0).fract();
                (s * i16::MAX as f32) as i16
            })
            .collect();
        out.extend(encode_frame(&frame));
    }
    out
}

/// Reads the answer to a claim out of bytes, up to the first frame.
fn open(bytes: &[u8]) -> Result<(usize, u32, Option<String>), OpenErr> {
    let mut reader = HeadReader::new();
    let mut at = 0;
    while reader.status() == HeadStatus::More {
        match bytes.get(at) {
            Some(b) => reader.push(*b),
            None => return Err(head_cut_short()),
        }
        at += 1;
    }
    if reader.status() == HeadStatus::TooLong {
        return Err(head_too_long());
    }
    match judge_stream_head(&reader.text_lossy()) {
        StreamHead::Open(token) => {
            let rate = judge_stream_header(&bytes[at..at + 12])?;
            Ok((at + 12, rate, token))
        }
        StreamHead::Refused(code) => {
            Err(judge_refusal_body(code, &String::from_utf8_lossy(&bytes[at..])))
        }
        StreamHead::Malformed(e) => Err(e),
    }
}

/// Receives frames out of bytes until the stream ends one way or another.
fn run(c: &mut ClientHandle, bytes: &[u8]) -> StreamEnd {
    let mut at = 0;
    loop {
        if !c.is_connected() {
            return StreamEnd::Stopped;
        }
        if at + 4 > bytes.len() {
            return StreamEnd::Lost;
        }
        let head = frame_head(&bytes[at..at + 4]);
        at += 4;
        match c.frame_arrived(head) {
            FrameTodo::Reason => {
                let reason = if at + 4 <= bytes.len() {
                    Some([bytes[at], bytes[at + 1], bytes[at + 2], bytes[at + 3]])
                } else {
                    None
                };
                return StreamEnd::Graceful(end_reason(reason));
            }
            FrameTodo::Samples(n) => {
                let n = n as usize;
                if at + 2 * n > bytes.len() {
                    return StreamEnd::Lost;
                }
                let samples = decode_pcm(&bytes[at..at + 2 * n]);
                at += 2 * n;
                let bits: Vec<u32> =
                    samples.iter().map(|s| (*s as f32 / i16::MAX as f32).to_bits()).collect();
                c.sound_arrived(&bits);
            }
            FrameTodo::GiveUp => return StreamEnd::Lost,
        }
    }
}

/// One claim against a server that answers with these bytes.
fn claim(c: &mut ClientHandle, st: &mut Store, answer: &[u8]) -> Option<ClaimTodo> {
    c.begin_claim(st)?;
    match open(answer) {
        Ok((at, rate, token)) => {
            c.claim_opened(st, rate, token);
            let end = run(c, &answer[at..]);
            Some(c.stream_over(end))
        }
        Err(e) => Some(c.claim_failed(e)),
    }
}

#[test]
fn claimer_streams_on_demand() {
    let mut st = store();
    remember_server(&mut st, "test-server", "test-token", "测试服务端");
    let mut c = client(44100);
    assert_eq!(c.begin_claim(&st).as_deref(), Some("test-token"));
    let mut answer = stream_start();
    answer.extend(sine_frames(150));
    let (at, rate, token) = open(&answer).ok().unwrap();
    c.claim_opened(&mut st, rate, token);
    assert_eq!(c.mode(), Mode::Streaming, "should be streaming");
    assert_eq!(c.src_rate(), 44100);
    run(&mut c, &answer[at..]);
    assert!(c.buffer_ms() > 0, "jitter buffer should be filling");
    assert!(c.take_error().is_none());
}

#[test]
fn claimer_stops_when_preempted() {
    let mut st = store();
    let mut c = client(44100);
    let mut answer = stream_start();
    answer.extend(sine_frames(10));
    answer.extend(end_frame(END_PREEMPTED));
    assert_eq!(claim(&mut c, &mut st, &answer), Some(ClaimTodo::End));
    assert_eq!(c.mode(), Mode::Ended, "should end after preemption");
    assert!(!c.is_connected(), "claimer should stop itself");
    let err = c.take_error().unwrap_or_default();
    assert!(err.contains("接管"), "error should mention takeover: {err}");
    assert!(c.preempted(), "preempted flag should be set");
    assert_eq!(claim(&mut c, &mut st, &answer), None, "must not reclaim");
}

#[test]
fn claimer_stops_when_server_closes() {
    let mut st = store();
    let mut c = client(44100);
    let mut answer = stream_start();
    answer.extend(sine_frames(5));
    answer.extend(end_frame(END_SERVER_CLOSING));
    assert_eq!(claim(&mut c, &mut st, &answer), Some(ClaimTodo::End));
    assert_eq!(c.mode(), Mode::Ended);
    assert!(!c.is_connected());
    assert!(!c.preempted(), "server close is not a preemption");
    assert_eq!(c.take_error().as_deref(), Some("服务端已停止共享"));
}

#[test]
fn claimer_reclaims_after_drop() {
    let mut st = store();
    let mut c = client(44100);
    let mut answer = stream_start();
    answer.extend(sine_frames(5));
    let mut claims = 0;
    while claims < 2 {
        let todo = claim(&mut c, &mut st, &answer);
        assert_eq!(todo, Some(ClaimTodo::RetryAfter(800)));
        claims += 1;
    }
    assert!(claims >= 2, "should auto-reclaim after connection drop, claims={claims}");
    assert_eq!(c.mode(), Mode::Connecting);
    assert_eq!(c.take_error().as_deref(), Some("连接中断,自动重连中"));
}

#[test]
fn connect_rejects_non_micsync_server() {
    let result = judge_health("NOT-HTTP-AT-ALL\r\n\r\n");
    assert!(result.is_err(), "should reject non-MicSync server");
}

/// A denial is a person's decision: the client stops, with the owner's reason.
#[test]
fn denied_is_terminal_and_does_not_retry() {
    let mut st = store();
    let mut c = client(48000);
    let body = r#"{"error":"denied","message":"对方拒绝了本次麦克风使用请求"}"#;
    let answer = format!(
        "HTTP/1.1 403 Forbidden\r\nContent-Type: application/json\r\nContent-Length: {}\r\nConnection: close\r\n\r\n{}",
        body.len(),
        body
    );
    let mut hits = 0;
    while let Some(todo) = claim(&mut c, &mut st, answer.as_bytes()) {
        assert_eq!(todo, ClaimTodo::End);
        hits += 1;
    }
    assert_eq!(c.mode(), Mode::Denied);
    assert_eq!(hits, 1, "never asks again");
    assert!(!c.is_connected());
    let err = c.take_error().unwrap_or_default();
    assert!(err.contains("拒绝"), "should carry the owner's reason: {err}");
}

#[test]
fn preauthorize_remembers_issued_token() {
    let mut st = store();
    let device_id = "preauth-server-1";
    let body = format!(
        r#"{{"status":"ok","app":"micsync","streaming":false,"client":"","sample_rate":0,"alias":"测试端","device_id":"{device_id}"}}"#
    );
    let resp = format!(
        "HTTP/1.1 200 OK\r\nContent-Type: application/json\r\nContent-Length: {}\r\nConnection: close\r\n\r\n{body}",
        body.len()
    );
    let ident = judge_health(&resp).ok().unwrap();
    assert_eq!(ident.id, device_id);
    assert_eq!(ident.name, "测试端");
    let body = r#"{"status":"authorized"}"#;
    let resp = format!(
        "HTTP/1.1 200 OK\r\nContent-Type: application/json\r\nContent-Length: {}\r\nX-MicSync-Token: preauth-token-1\r\nConnection: close\r\n\r\n{body}",
        body.len()
    );
    match take_preauth(&mut st, &ident, resp.as_bytes()) {
        Ok(Preauth::Granted) => {}
        Ok(Preauth::Denied(m)) => panic!("denied: {m}"),
        Ok(Preauth::Unsupported) => panic!("taken for an old server"),
        Err(e) => panic!("failed: {e}"),
    }
    assert_eq!(
        token_for_server(&st, device_id).as_deref(),
        Some("preauth-token-1"),
        "the token is kept under the server's id"
    );
}

#[test]
fn unreachable_server_still_retries() {
    let mut st = store();
    let mut c = client(48000);
    assert!(c.begin_claim(&st).is_some());
    let todo = c.claim_failed(OpenErr::Retry("连接失败: refused".to_string()));
    assert_eq!(todo, ClaimTodo::RetryAfter(1500));
    assert_eq!(c.mode(), Mode::Connecting);
    assert!(c.is_connected(), "does not give up by itself");
    assert_eq!(c.take_error().as_deref(), Some("服务端不可达,自动重试中: 连接失败: refused"));
    assert!(claim(&mut c, &mut st, b"").is_some());
}

#[test]
fn waiting_for_consent_is_shown() {
    let st = store();
    let mut c = client(48000);
    assert_eq!(c.mode(), Mode::Connecting);
    assert_eq!(c.begin_claim(&st).as_deref(), Some(""));
    assert_eq!(c.mode(), Mode::Waiting);
    assert_eq!(c.take_error().as_deref(), Some("等待「测试服务端」确认授权…"));
    c.stop();
    assert_eq!(c.begin_claim(&st), None);
}

#[test]
fn a_token_with_the_stream_is_remembered() {
    let mut st = store();
    let mut c = client(48000);
    let mut answer = b"HTTP/1.1 200 OK\r\nx-micsync-token: new-token\r\n\r\n".to_vec();
    answer.extend(stream_header(48000));
    claim(&mut c, &mut st, &answer);
    assert_eq!(token_for_server(&st, "test-server").as_deref(), Some("new-token"));
    assert!(st.unsaved);
}

#[test]
fn an_impossible_frame_breaks_the_stream() {
    let mut c = client(48000);
    let end = run(&mut c, &[0x01, 0x00, 0x10, 0x00]);
    assert_eq!(end, StreamEnd::Lost);
    assert_eq!(c.take_error().as_deref(), Some("收到异常数据帧,本轮串流已断开"));
}

#[test]
fn every_reason_not_to_open() {
    let long = vec![b'a'; 9000];
    match open(&long) {
        Err(OpenErr::Retry(m)) => assert_eq!(m, "串流响应头过长"),
        _ => panic!("too long"),
    }
    match open(b"HTTP/1.1 200 OK\r\n") {
        Err(OpenErr::Retry(m)) => assert_eq!(m, "串流握手被中断"),
        _ => panic!("cut short"),
    }
    match open(b"hello\r\n\r\n") {
        Err(OpenErr::Retry(m)) => assert_eq!(m, "串流响应状态行异常"),
        _ => panic!("no status"),
    }
    match open(b"HTTP/1.1 500 Oops\r\n\r\nnot json") {
        Err(OpenErr::Retry(m)) => assert_eq!(m, "服务端拒绝串流: HTTP 500"),
        _ => panic!("refused"),
    }
    match open(b"HTTP/1.1 200 OK\r\n\r\nXXXX\0\0\0\0\0\0\0\0") {
        Err(OpenErr::Retry(m)) => assert_eq!(m, "对方不是 MicSync 服务端(协议头不匹配)"),
        _ => panic!("foreign"),
    }
    for rate in [7999u32, 192_001] {
        match judge_stream_header(&stream_header(rate)) {
            Err(OpenErr::Retry(m)) => assert_eq!(m, format!("服务端采样率异常: {rate}")),
            _ => panic!("rate"),
        }
    }
    assert_eq!(judge_stream_header(&stream_header(8000)).ok(), Some(8000));
    assert_eq!(judge_stream_header(&stream_header(192_000)).ok(), Some(192_000));
}

fn health_error(resp: &str) -> String {
    match judge_health(resp) {
        Err(e) => e,
        Ok(_) => panic!("should be rejected"),
    }
}

#[test]
fn health_is_judged() {
    assert_eq!(health_error("HTTP/1.1 200 OK"), "HTTP 响应不完整");
    assert_eq!(health_error("SIP/2 200\r\n\r\n"), "对方不是 MicSync 服务端(非 HTTP 响应)");
    assert_eq!(health_error("HTTP/1.1 x\r\n\r\n"), "HTTP 状态行异常");
    assert_eq!(health_error("HTTP/1.1 404 N\r\n\r\n{}"), "服务端返回 HTTP 404");
    assert_eq!(
        health_error("HTTP/1.1 200 OK\r\n\r\nhi"),
        "响应不是有效 JSON,对方可能不是 MicSync 服务端"
    );
    assert_eq!(health_error("HTTP/1.1 200 OK\r\n\r\n[1]"), "对方不是 MicSync 服务端");
    assert_eq!(
        health_error("HTTP/1.1 200 OK\r\n\r\n{\"app\":\"x\"}"),
        "对方不是 MicSync 服务端"
    );
    // An old server gives neither id nor name.
    let old = judge_health("HTTP/1.1 200 OK\r\n\r\n{\"app\":\"micsync\"}").ok().unwrap();
    assert_eq!((old.id.as_str(), old.name.as_str()), ("", "MicSync"));
}

fn preauth(resp: &str) -> Result<Preauth, String> {
    take_preauth(&mut store(), &server(), resp.as_bytes())
}

#[test]
fn preauthorization_is_judged() {
    assert!(matches!(preauth("HTTP/1.1 404 N\r\n\r\n"), Ok(Preauth::Unsupported)));
    match preauth("HTTP/1.1 403 F\r\n\r\n{\"message\":\"nein\"}") {
        Ok(Preauth::Denied(m)) => assert_eq!(m, "nein"),
        _ => panic!("denied"),
    }
    match preauth("HTTP/1.1 403 F\r\n\r\n") {
        Ok(Preauth::Denied(m)) => assert_eq!(m, "对方拒绝了麦克风授权请求"),
        _ => panic!("denied"),
    }
    assert_eq!(
        preauth("HTTP/1.1 500 E\r\n\r\n").err().as_deref(),
        Some("服务端拒绝授权请求: HTTP 500")
    );
    assert_eq!(preauth("nothing").err().as_deref(), Some("HTTP 响应不完整"));
    // Bytes that are no UTF-8 are replaced, not rejected.
    let mut raw = b"HTTP/1.1 403 F\r\n\r\n\"".to_vec();
    raw.push(0xff);
    assert!(matches!(
        take_preauth(&mut store(), &server(), &raw),
        Ok(Preauth::Denied(_))
    ));
    assert!(heartbeat_due(2000) && !heartbeat_due(1999));
}

#[test]
fn requests_are_written_exactly() {
    assert_eq!(
        health_request("h:1"),
        "GET /health HTTP/1.1\r\nHost: h:1\r\nConnection: close\r\n\r\n"
    );
    assert_eq!(
        stream_request("h:1", "我的 Mac", "tok"),
        "GET /stream HTTP/1.1\r\nHost: h:1\r\nX-MicSync-Name: 我的 Mac\r\nX-MicSync-Token: tok\r\nConnection: close\r\n\r\n"
    );
    assert_eq!(
        authorize_request("h:1", "n", ""),
        "GET /authorize HTTP/1.1\r\nHost: h:1\r\nX-MicSync-Name: n\r\nConnection: close\r\n\r\n"
    );
}

#[test]
fn addresses_modes_and_pauses() {
    assert_eq!(full_addr("studio.local"), "studio.local:47800");
    assert_eq!(full_addr("10.0.0.2:9"), "10.0.0.2:9");
    let words = ["connecting", "waiting", "streaming", "ended", "denied"];
    for (i, w) in words.iter().enumerate() {
        assert_eq!(Mode::from_u8(i as u8).as_str(), *w);
        assert_eq!(Mode::from_u8(i as u8).to_u8(), i as u8);
    }
    assert_eq!(Mode::from_u8(9), Mode::Connecting);
    assert_eq!((nap(250), nap(50), nap(0)), (100, 50, 0));
    assert_eq!(end_reason(None), END_SERVER_CLOSING);
    assert_eq!(end_reason(Some([1, 0, 0, 0])), END_PREEMPTED);
}

#[test]
fn a_client_plays_what_it_received() {
    let mut c = client(1000);
    let sound: Vec<u32> = (1..=60).collect();
    c.sound_arrived(&sound);
    assert_eq!(c.buffer_ms(), 60);
    assert_eq!(c.fill(2), vec![1, 2]);
    c.set_level(7);
    assert_eq!(c.level(), 7);
    c.playback_failed("gone");
    assert_eq!(c.take_error().as_deref(), Some("播放流错误: gone"));
    assert_eq!(c.addr(), "127.0.0.1:47800");
    assert_eq!(c.output_device(), "BlackHole");
    assert_eq!(c.out_rate(), 1000);
}
