use micsync::http::{
    consent_request, header_value, json_response, read_first_body, split_http_response, stream_response,
    token_from_head, HeadReader, HeadStatus,
};
use micsync::json::{find_member, put, text_member, Leaf};
use micsync::text::{
    comes_before, decimal_text, hex_text, replace_text, same_ignoring_case, text_contains,
    text_starts_with,
};
use micsync::wire::{
    decode_pcm, encode_frame, end_frame, frame_head, read_header, stream_header, FrameHead,
};
use micsync::wire::END_PREEMPTED;

#[test]
fn frames_are_little_endian() {
    assert_eq!(encode_frame(&[1, -1, i16::MIN]), vec![3, 0, 0, 0, 1, 0, 255, 255, 0, 128]);
    assert_eq!(end_frame(END_PREEMPTED), vec![0, 0, 0, 0, 1, 0, 0, 0]);
    assert_eq!(
        stream_header(48000),
        vec![b'M', b'S', b'Y', b'1', 0x80, 0xbb, 0, 0, 1, 0, 0, 0]
    );
}

#[test]
fn what_is_written_is_read_back() {
    let samples: Vec<i16> = vec![0, 1, -1, i16::MAX, i16::MIN, 1234, -4321];
    let frame = encode_frame(&samples);
    assert_eq!(frame_head(&frame[0..4]), FrameHead::Audio(7));
    assert_eq!(decode_pcm(&frame[4..]), samples);
    assert_eq!(read_header(&stream_header(44100)), Some(44100));
    assert_eq!(read_header(b"MSY2\0\0\0\0\0\0\0\0"), None);
    assert_eq!(frame_head(&[0, 0, 0, 0]), FrameHead::End);
    assert_eq!(frame_head(&[0, 0, 16, 0]), FrameHead::Audio(1 << 20));
    assert_eq!(frame_head(&[1, 0, 16, 0]), FrameHead::Oversized);
}

#[test]
fn a_head_is_read_to_its_blank_line() {
    let bytes = b"GET / HTTP/1.1\r\n\r\nrest";
    let mut r = HeadReader::new();
    let mut used = 0;
    while r.status() == HeadStatus::More {
        r.push(bytes[used]);
        used += 1;
    }
    assert_eq!(r.status(), HeadStatus::Complete);
    assert_eq!(used, 18);
    assert_eq!(r.text().as_deref(), Some("GET / HTTP/1.1\r\n\r\n"));
}

#[test]
fn a_written_head_ends_where_it_was_written_to() {
    let head = consent_request("/stream", "192.168.1.2:47800", "客厅 Mac", "tok");
    let mut bytes = head.as_bytes().to_vec();
    bytes.extend(b"\r\n\r\nMSY1");
    let mut r = HeadReader::new();
    let mut used = 0;
    while r.status() == HeadStatus::More {
        r.push(bytes[used]);
        used += 1;
    }
    assert_eq!(r.status(), HeadStatus::Complete);
    assert_eq!(used, head.len());
    assert_eq!(r.text(), Some(head));
}

#[test]
fn a_head_that_does_not_end_is_given_up() {
    let mut r = HeadReader::new();
    for _ in 0..8192 {
        assert_eq!(r.status(), HeadStatus::More);
        r.push(b'x');
    }
    assert_eq!(r.status(), HeadStatus::TooLong);
}

#[test]
fn heads_that_are_no_text() {
    let mut r = HeadReader::new();
    r.push(0xff);
    assert_eq!(r.text_lossy(), "\u{fffd}");
    assert_eq!(r.text(), None);
}

#[test]
fn headers_are_found_without_regard_to_case() {
    let head = "GET / HTTP/1.1\r\nA: 1\r\nX-MicSync-TOKEN :  tok \r\nx-micsync-token: later\r\n\r\n";
    assert_eq!(header_value(head, "x-micsync-token").as_deref(), Some("tok"));
    assert_eq!(token_from_head(head).as_deref(), Some("tok"));
    assert_eq!(header_value(head, "missing"), None);
    assert_eq!(token_from_head("HTTP/1.1 200 OK\r\nX-MicSync-Token:  \r\n"), None);
    // The first line is no header.
    assert_eq!(header_value("x-micsync-token: a\r\n", "x-micsync-token"), None);
}

#[test]
fn responses_are_written_exactly() {
    assert_eq!(
        json_response(200, "OK", "{\"a\":\"é\"}", "t"),
        "HTTP/1.1 200 OK\r\nContent-Type: application/json\r\nContent-Length: 10\r\nX-MicSync-Token: t\r\nConnection: close\r\n\r\n{\"a\":\"é\"}"
    );
    assert_eq!(
        stream_response(""),
        "HTTP/1.1 200 OK\r\nContent-Type: application/octet-stream\r\nCache-Control: no-store\r\nConnection: close\r\n\r\n"
    );
}

#[test]
fn responses_are_taken_apart() {
    let resp = json_response(503, "Service Unavailable", "body\r\n\r\nmore", "");
    assert_eq!(split_http_response(&resp), Ok((503, "body\r\n\r\nmore")));
    assert_eq!(read_first_body(&resp).as_deref(), Some("body"));
    assert_eq!(read_first_body("no blank line"), None);
    assert!(split_http_response("HTTP/1.1 99999 X\r\n\r\n").is_err());
}

#[test]
fn the_last_member_of_a_name_counts() {
    let mut list = Vec::new();
    put(&mut list, "a", Leaf::Text("1".to_string()));
    put(&mut list, "b", Leaf::Number(2));
    put(&mut list, "a", Leaf::Text("3".to_string()));
    assert_eq!(find_member(&list, "a"), Some(2));
    assert_eq!(text_member(&list, "a").as_deref(), Some("3"));
    assert_eq!(text_member(&list, "b"), None);
    assert_eq!(find_member(&list, "c"), None);
}

#[test]
fn texts() {
    assert_eq!(decimal_text(0), "0");
    assert_eq!(decimal_text(u64::MAX), "18446744073709551615");
    assert_eq!(hex_text(255, 4), "00ff");
    assert_eq!(replace_text("Input Input", "Input", "Output"), "Output Output");
    assert_eq!(replace_text("aaa", "aa", "b"), "ba");
    assert!(text_contains("CABLE Output", "BLE O"));
    assert!(!text_starts_with("awd", "awdl"));
    assert!(same_ignoring_case(&['A', 'b'], &['a', 'B']));
    assert!(comes_before(&['a'], &['a', 'b']));
    assert!(!comes_before(&['b'], &['a', 'b']));
}
