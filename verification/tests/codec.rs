//! The framed transport, exercised over real bytes.

use scriptls::codec::{encode_msg, DecodeError, MessageCodec};
use scriptls::json::{JField, Json};
use scriptls::msg::{Message, MessageExt, ReqId};

fn num(n: &str) -> Json {
    Json::Num(n.as_bytes().to_vec())
}

fn jstr(s: &str) -> Json {
    Json::Str(s.as_bytes().to_vec())
}

fn field(k: &str, v: Json) -> JField {
    JField { key: k.as_bytes().to_vec(), val: v }
}

fn sample_request() -> Message {
    Message::Request {
        id: ReqId::Num(b"1".to_vec()),
        method: b"initialize".to_vec(),
        params: Json::Obj(vec![
            field("processId", Json::Null),
            field("capabilities", Json::Obj(vec![])),
            field("workspaceFolders", Json::Arr(vec![jstr("file:///w"), num("3")])),
        ]),
    }
}

#[test]
fn encode_exact_bytes() {
    let m = Message::Notification { method: b"exit".to_vec(), params: Json::Null };
    let bytes = encode_msg(&m);
    let body = r#"{"jsonrpc":"2.0","method":"exit","params":null}"#;
    let expected = format!("Content-Length: {}\r\n\r\n{}", body.len(), body);
    assert_eq!(bytes, expected.as_bytes().to_vec());
}

#[test]
fn round_trip_one_frame() {
    let m = sample_request();
    let bytes = encode_msg(&m);
    let mut codec = MessageCodec::new();
    codec.feed(&bytes);
    let got = codec.poll().unwrap().expect("one message");
    match got {
        Message::Request { id, method, params } => {
            assert!(matches!(id, ReqId::Num(ref t) if t == b"1"));
            assert_eq!(method, b"initialize".to_vec());
            match params {
                Json::Obj(fields) => {
                    assert_eq!(fields.len(), 3);
                    assert_eq!(fields[0].key, b"processId".to_vec());
                    assert!(matches!(fields[0].val, Json::Null));
                    match &fields[2].val {
                        Json::Arr(es) => {
                            assert_eq!(es.len(), 2);
                            assert!(matches!(&es[0], Json::Str(s) if s == b"file:///w"));
                            assert!(matches!(&es[1], Json::Num(n) if n == b"3"));
                        },
                        _ => panic!("workspaceFolders should be an array"),
                    }
                },
                _ => panic!("params should be an object"),
            }
        },
        _ => panic!("should decode as a request"),
    }
    assert!(codec.poll().unwrap().is_none());
}

#[test]
fn partial_reads_yield_the_same_messages() {
    // Two frames, fed byte by byte: the same two messages come out as
    // when the stream arrives whole.
    let m1 = sample_request();
    let m2 = Message::Notification { method: b"exit".to_vec(), params: Json::Null };
    let mut stream = encode_msg(&m1);
    stream.extend_from_slice(&encode_msg(&m2));

    let mut whole = MessageCodec::new();
    whole.feed(&stream);
    let mut whole_methods: Vec<Vec<u8>> = Vec::new();
    while let Some(m) = whole.poll().unwrap() {
        whole_methods.push(method_name(&m));
    }

    let mut dribble = MessageCodec::new();
    let mut dribble_methods: Vec<Vec<u8>> = Vec::new();
    for b in &stream {
        dribble.feed(&vec![*b]);
        while let Some(m) = dribble.poll().unwrap() {
            dribble_methods.push(method_name(&m));
        }
    }
    assert_eq!(whole_methods, dribble_methods);
    assert_eq!(whole_methods.len(), 2);
}

fn method_name(m: &Message) -> Vec<u8> {
    match m {
        Message::Request { method, .. } => method.clone(),
        Message::Notification { method, .. } => method.clone(),
        Message::Response { .. } => b"<response>".to_vec(),
    }
}

#[test]
fn tolerates_extra_headers_and_whitespace() {
    let body = br#" { "jsonrpc" : "2.0" , "method" : "exit" , "params" : null } "#;
    let mut bytes = format!(
        "X-Extra: yes\r\nContent-Length: {}\r\nAnother: 3\r\n\r\n",
        body.len()
    )
    .into_bytes();
    bytes.extend_from_slice(body);
    let mut codec = MessageCodec::new();
    codec.feed(&bytes);
    let got = codec.poll().unwrap().expect("one message");
    assert!(got.is_exit());
}

#[test]
fn missing_content_length_is_fatal() {
    let bytes = b"X-Extra: yes\r\n\r\n".to_vec();
    let mut codec = MessageCodec::new();
    codec.feed(&bytes);
    assert_eq!(codec.poll().unwrap_err(), DecodeError::MissingContentLength);
}

#[test]
fn malformed_header_is_fatal() {
    // a line without CRLF
    let bytes = b"Content-Length: 2\n\r\n{}".to_vec();
    let mut codec = MessageCodec::new();
    codec.feed(&bytes);
    assert_eq!(codec.poll().unwrap_err(), DecodeError::MalformedHeader);

    // a line without a colon
    let bytes2 = b"NoColonHere\r\n\r\n".to_vec();
    let mut codec2 = MessageCodec::new();
    codec2.feed(&bytes2);
    assert_eq!(codec2.poll().unwrap_err(), DecodeError::MalformedHeader);

    // an unreadable length
    let bytes3 = b"Content-Length: ten\r\n\r\n".to_vec();
    let mut codec3 = MessageCodec::new();
    codec3.feed(&bytes3);
    assert_eq!(codec3.poll().unwrap_err(), DecodeError::MalformedHeader);
}

#[test]
fn garbage_body_is_fatal() {
    let bytes = b"Content-Length: 3\r\n\r\n)(!".to_vec();
    let mut codec = MessageCodec::new();
    codec.feed(&bytes);
    assert_eq!(codec.poll().unwrap_err(), DecodeError::BadBody);
}

#[test]
fn incomplete_frame_waits() {
    let m = sample_request();
    let bytes = encode_msg(&m);
    let mut codec = MessageCodec::new();
    let cut = bytes.len() - 5;
    codec.feed(&bytes[..cut].to_vec());
    assert!(codec.poll().unwrap().is_none());
    codec.feed(&bytes[cut..].to_vec());
    assert!(codec.poll().unwrap().is_some());
}

#[test]
fn string_escapes_ride_through() {
    let m = Message::Notification {
        method: b"window/logMessage".to_vec(),
        params: Json::Obj(vec![field("message", Json::Str(br"a \n b".to_vec()))]),
    };
    let bytes = encode_msg(&m);
    let mut codec = MessageCodec::new();
    codec.feed(&bytes);
    let got = codec.poll().unwrap().expect("one message");
    match got {
        Message::Notification { method, params } => {
            assert_eq!(method, b"window/logMessage".to_vec());
            match params {
                Json::Obj(fs) => {
                    assert!(matches!(&fs[0].val, Json::Str(s) if s == br"a \n b"));
                },
                _ => panic!("params should be an object"),
            }
        },
        _ => panic!("should be a notification"),
    }
}

#[test]
fn response_with_error_round_trips() {
    let m = Message::Response {
        id: ReqId::Str(b"abc".to_vec()),
        result: None,
        error: Some(Json::Obj(vec![
            field("code", num("-32601")),
            field("message", jstr("method not found")),
        ])),
    };
    let bytes = encode_msg(&m);
    let mut codec = MessageCodec::new();
    codec.feed(&bytes);
    let got = codec.poll().unwrap().expect("one message");
    match got {
        Message::Response { id, result, error } => {
            assert!(matches!(id, ReqId::Str(ref t) if t == b"abc"));
            assert!(result.is_none());
            assert!(error.is_some());
        },
        _ => panic!("should be a response"),
    }
}
