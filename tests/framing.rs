use session_runtime::decimal::parse_usize;
use session_runtime::framing::{decode_frame, encode_frame, Decoded, FrameReader};
use session_runtime::lsp::frame_payload;

fn drain(reader: &mut FrameReader) -> Vec<Decoded> {
    let mut out = Vec::new();
    loop {
        match reader.next_event() {
            Decoded::Incomplete => return out,
            other => out.push(other),
        }
    }
}

fn bodies(events: &[Decoded]) -> Vec<Vec<u8>> {
    events
        .iter()
        .filter_map(|e| match e {
            Decoded::Message { body, .. } => Some(body.clone()),
            _ => None,
        })
        .collect()
}

#[test]
fn encode_writes_length_header_and_body() {
    assert_eq!(encode_frame(b"hello"), b"Content-Length: 5\r\n\r\nhello".to_vec());
    assert_eq!(encode_frame(b""), b"Content-Length: 0\r\n\r\n".to_vec());
}

#[test]
fn frame_payload_is_one_frame() {
    assert_eq!(frame_payload(b"{}"), b"Content-Length: 2\r\n\r\n{}".to_vec());
}

fn json_round_trip(value: serde_json::Value, chunk: usize) {
    let body = serde_json::to_vec(&value).unwrap();
    let framed = encode_frame(&body);
    let mut reader = FrameReader::new();
    let mut events = Vec::new();
    for piece in framed.chunks(chunk.max(1)) {
        reader.feed(piece);
        events.extend(drain(&mut reader));
    }
    let got = bodies(&events);
    assert_eq!(got.len(), 1);
    assert_eq!(got[0].len(), body.len());
    let back: serde_json::Value = serde_json::from_slice(&got[0]).unwrap();
    assert_eq!(back, value);
}

#[test]
fn round_trip_empty_body() {
    let framed = encode_frame(b"");
    let mut reader = FrameReader::new();
    reader.feed(&framed);
    let got = bodies(&drain(&mut reader));
    assert_eq!(got, vec![Vec::<u8>::new()]);
}

#[test]
fn round_trip_one_byte_json() {
    json_round_trip(serde_json::Value::from(7), 1);
}

#[test]
fn round_trip_large_json_in_small_reads() {
    let text: String = std::iter::repeat("abcdefghij").take(7000).collect();
    let mut map = serde_json::Map::new();
    map.insert("jsonrpc".to_string(), serde_json::Value::from("2.0"));
    map.insert("text".to_string(), serde_json::Value::from(text));
    let value = serde_json::Value::Object(map);
    assert!(serde_json::to_vec(&value).unwrap().len() > 64 * 1024);
    json_round_trip(value, 4096);
}

#[test]
fn malformed_block_then_message_resyncs() {
    let mut stream = b"X-Other: 1\r\n\r\n".to_vec();
    stream.extend(encode_frame(b"{\"id\":1}"));
    let mut reader = FrameReader::new();
    reader.feed(&stream);
    let events = drain(&mut reader);
    assert_eq!(events.len(), 2);
    match &events[0] {
        Decoded::Malformed { headers, consumed } => {
            assert_eq!(headers, &b"X-Other: 1\r\n".to_vec());
            assert_eq!(*consumed, 14);
        }
        _ => panic!("expected a malformed report first"),
    }
    assert_eq!(bodies(&events), vec![b"{\"id\":1}".to_vec()]);
}

#[test]
fn header_name_is_case_insensitive_and_others_are_ignored() {
    let stream = b"Content-Type: x\r\ncontent-LENGTH:  3 \r\n\r\nabcrest";
    match decode_frame(stream) {
        Decoded::Message { body, consumed } => {
            assert_eq!(body, b"abc".to_vec());
            assert_eq!(consumed, stream.len() - 4);
        }
        _ => panic!("expected a message"),
    }
}

#[test]
fn incomplete_header_or_body_waits() {
    assert!(matches!(decode_frame(b"Content-Length: 3\r\n"), Decoded::Incomplete));
    assert!(matches!(decode_frame(b"Content-Length: 3\r\n\r\nab"), Decoded::Incomplete));
    assert!(matches!(decode_frame(b""), Decoded::Incomplete));
}

#[test]
fn unparsable_length_is_malformed() {
    match decode_frame(b"Content-Length: x1\r\n\r\nabc") {
        Decoded::Malformed { consumed, .. } => assert_eq!(consumed, 22),
        _ => panic!("expected a malformed report"),
    }
}

#[test]
fn blank_line_first_is_malformed_with_empty_headers() {
    match decode_frame(b"\r\nContent-Length: 1\r\n\r\na") {
        Decoded::Malformed { headers, consumed } => {
            assert!(headers.is_empty());
            assert_eq!(consumed, 2);
        }
        _ => panic!("expected a malformed report"),
    }
}

#[test]
fn reader_keeps_what_follows_a_frame() {
    let mut reader = FrameReader::new();
    let mut bytes = encode_frame(b"one");
    bytes.extend(b"Content-Len".iter());
    reader.feed(&bytes);
    assert_eq!(bodies(&drain(&mut reader)), vec![b"one".to_vec()]);
    reader.feed(b"gth: 3\r\n\r\ntwo");
    assert_eq!(bodies(&drain(&mut reader)), vec![b"two".to_vec()]);
}

#[test]
fn parse_usize_follows_str_parse() {
    let s = b"+42|007|18446744073709551616||+";
    assert_eq!(parse_usize(s, 0, 3), Some(42));
    assert_eq!(parse_usize(s, 4, 7), Some(7));
    assert_eq!(parse_usize(s, 8, 28), None);
    assert_eq!(parse_usize(s, 29, 29), None);
    assert_eq!(parse_usize(s, 30, 31), None);
}

#[test]
fn drain_reports_every_complete_event_in_order() {
    let mut stream = Vec::new();
    for body in [&b"[1]"[..], &b"[2]"[..], &b"[3]"[..]] {
        stream.extend(encode_frame(body));
    }
    stream.extend(b"X-Trace: 1\r\n\r\n".iter());
    stream.extend(encode_frame(b"{}"));
    stream.extend(b"Content-Length: 9\r\n\r\nabc".iter());
    let mut reader = FrameReader::new();
    reader.feed(&stream);
    let events = reader.drain();
    assert_eq!(events.len(), 5);
    assert!(matches!(events[3], Decoded::Malformed { .. }));
    assert_eq!(
        bodies(&events),
        vec![b"[1]".to_vec(), b"[2]".to_vec(), b"[3]".to_vec(), b"{}".to_vec()]
    );
    assert!(reader.drain().is_empty());
    reader.feed(b"defghi");
    assert_eq!(bodies(&reader.drain()), vec![b"abcdefghi".to_vec()]);
}
