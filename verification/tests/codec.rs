use rendezvous::codec::{body_len, decode_body, encode_body, encode_frame};
use rendezvous::frame::{Connection, Message, Session};
use rendezvous::request;
use rendezvous::response;

fn value(s: &str) -> Message {
    Message::Session(Session::Value(s.to_string()))
}

fn round_trip(m: &Message) -> Message {
    decode_body(&encode_body(m)).unwrap()
}

#[test]
fn round_trip_all_messages() {
    let messages = vec![
        Message::Connection(Connection::End),
        Message::Session(Session::End),
        Message::Session(Session::Request),
        Message::Session(Session::Success),
        value("hello"),
        value("A"),
        value("with \"quotes\" and \\backslashes\\"),
        value("line\nbreaks\tand\rcontrols\u{8}\u{c}"),
        value("low controls \u{1}\u{b}\u{1f}"),
        value("unicode: \u{e9}\u{4e2d}\u{1f600}"),
    ];
    for m in &messages {
        assert_eq!(round_trip(m), *m);
    }
}

#[test]
fn empty_value_is_legal_and_round_trips() {
    let m = value("");
    assert_eq!(round_trip(&m), m);
    let body = encode_body(&m);
    assert_eq!(body, b"{\"message\":{\"Session\":{\"Value\":\"\"}}}".to_vec());
}

#[test]
fn exact_wire_shapes() {
    assert_eq!(
        encode_body(&Message::Connection(Connection::End)),
        b"{\"message\":{\"Connection\":\"End\"}}".to_vec()
    );
    assert_eq!(
        encode_body(&Message::Session(Session::End)),
        b"{\"message\":{\"Session\":\"End\"}}".to_vec()
    );
    assert_eq!(
        encode_body(&Message::Session(Session::Request)),
        b"{\"message\":{\"Session\":\"Request\"}}".to_vec()
    );
    assert_eq!(
        encode_body(&Message::Session(Session::Success)),
        b"{\"message\":{\"Session\":\"Success\"}}".to_vec()
    );
    assert_eq!(
        encode_body(&value("hi")),
        b"{\"message\":{\"Session\":{\"Value\":\"hi\"}}}".to_vec()
    );
}

#[test]
fn escaping_matches_canonical_json() {
    assert_eq!(
        encode_body(&value("a\"b")),
        b"{\"message\":{\"Session\":{\"Value\":\"a\\\"b\"}}}".to_vec()
    );
    assert_eq!(
        encode_body(&value("a\\b")),
        b"{\"message\":{\"Session\":{\"Value\":\"a\\\\b\"}}}".to_vec()
    );
    assert_eq!(
        encode_body(&value("a\nb")),
        b"{\"message\":{\"Session\":{\"Value\":\"a\\nb\"}}}".to_vec()
    );
    assert_eq!(
        encode_body(&value("\u{8}\t\u{c}\r")),
        b"{\"message\":{\"Session\":{\"Value\":\"\\b\\t\\f\\r\"}}}".to_vec()
    );
    assert_eq!(
        encode_body(&value("\u{1}\u{1f}")),
        b"{\"message\":{\"Session\":{\"Value\":\"\\u0001\\u001f\"}}}".to_vec()
    );
    // non-ASCII passes through as raw UTF-8 bytes
    assert_eq!(
        encode_body(&value("\u{e9}")),
        b"{\"message\":{\"Session\":{\"Value\":\"\xc3\xa9\"}}}".to_vec()
    );
}

#[test]
fn decode_accepts_json_of_the_shape() {
    // whitespace may stand between any tokens
    assert_eq!(
        decode_body(&b"{\"message\": {\"Session\":\"End\"}}".to_vec()),
        Ok(Message::Session(Session::End))
    );
    assert_eq!(
        decode_body(&b" { \"message\" : { \"Connection\" : \"End\" } } ".to_vec()),
        Ok(Message::Connection(Connection::End))
    );
    assert_eq!(
        decode_body(&b"{\n\t\"message\":\r\n{\"Session\":\t\"Request\"}\n}\n".to_vec()),
        Ok(Message::Session(Session::Request))
    );
    assert_eq!(
        decode_body(&b"{ \"message\": { \"Session\": { \"Value\": \"hi\" } } }".to_vec()),
        Ok(value("hi"))
    );
    // any JSON string escape decodes: printable \u escapes, either hex case,
    // the solidus escape, and surrogate pairs
    assert_eq!(
        decode_body(&b"{\"message\":{\"Session\":{\"Value\":\"\\u0041\"}}}".to_vec()),
        Ok(value("A"))
    );
    assert_eq!(
        decode_body(&b"{\"message\":{\"Session\":{\"Value\":\"\\u001F\"}}}".to_vec()),
        Ok(value("\u{1f}"))
    );
    assert_eq!(
        decode_body(&b"{\"message\":{\"Session\":{\"Value\":\"a\\/b\"}}}".to_vec()),
        Ok(value("a/b"))
    );
    assert_eq!(
        decode_body(&b"{\"message\":{\"Session\":{\"Value\":\"\\uD83D\\uDE00\"}}}".to_vec()),
        Ok(value("\u{1f600}"))
    );
    assert_eq!(
        decode_body(&b"{\"message\":{\"Session\":{\"Value\":\"\\u00e9\"}}}".to_vec()),
        Ok(value("\u{e9}"))
    );
    // key and tag strings may use escapes too
    assert_eq!(
        decode_body(&b"{\"\\u006dessage\":{\"Session\":\"\\u0045nd\"}}".to_vec()),
        Ok(Message::Session(Session::End))
    );
}

#[test]
fn decode_rejects_malformed_bodies() {
    // an empty body is not a legal encoding: Json, not Utf8
    assert_eq!(decode_body(&Vec::new()), Err(request::Error::Json));
    assert_eq!(decode_body(&b"{}".to_vec()), Err(request::Error::Json));
    assert_eq!(
        decode_body(&b"{\"message\":{\"Session\":\"Nope\"}}".to_vec()),
        Err(request::Error::Json)
    );
    // an unterminated string fails
    assert_eq!(
        decode_body(&b"{\"message\":{\"Session\":{\"Value\":\"x".to_vec()),
        Err(request::Error::Json)
    );
    // a raw control byte inside the payload region fails
    assert_eq!(
        decode_body(&b"{\"message\":{\"Session\":{\"Value\":\"\x01\"}}}".to_vec()),
        Err(request::Error::Json)
    );
    // a lone surrogate escape fails, either half
    assert_eq!(
        decode_body(&b"{\"message\":{\"Session\":{\"Value\":\"\\uD800\"}}}".to_vec()),
        Err(request::Error::Json)
    );
    assert_eq!(
        decode_body(&b"{\"message\":{\"Session\":{\"Value\":\"\\uDC00x\"}}}".to_vec()),
        Err(request::Error::Json)
    );
    // a truncated or malformed unicode escape fails
    assert_eq!(
        decode_body(&b"{\"message\":{\"Session\":{\"Value\":\"\\u00\"}}}".to_vec()),
        Err(request::Error::Json)
    );
    assert_eq!(
        decode_body(&b"{\"message\":{\"Session\":{\"Value\":\"\\q\"}}}".to_vec()),
        Err(request::Error::Json)
    );
    // trailing text after the closing brace fails
    assert_eq!(
        decode_body(&b"{\"message\":{\"Session\":\"End\"}}x".to_vec()),
        Err(request::Error::Json)
    );
}

#[test]
fn decode_rejects_non_utf8() {
    assert_eq!(decode_body(&vec![0xff, 0xfe, 0xfd]), Err(request::Error::Utf8));
    let mut body = b"{\"message\":{\"Session\":{\"Value\":\"".to_vec();
    body.push(0xff);
    body.extend_from_slice(b"\"}}}");
    assert_eq!(decode_body(&body), Err(request::Error::Utf8));
}

#[test]
fn frame_length_boundaries() {
    // the fixed parts of a Value body are 36 bytes; 65499 plain payload
    // bytes give a body of exactly 65535, which still sends
    let at_limit = value(&"a".repeat(65499));
    let frame = encode_frame(&at_limit).unwrap();
    assert_eq!(frame.len(), 2 + 65535);
    assert_eq!(frame[0], 255);
    assert_eq!(frame[1], 255);
    // one more byte overflows
    let over = value(&"a".repeat(65500));
    assert_eq!(encode_frame(&over), Err(response::Error::Overflow));
}

#[test]
fn frame_header_is_big_endian() {
    let m = Message::Connection(Connection::End);
    let frame = encode_frame(&m).unwrap();
    // body is 32 bytes
    assert_eq!(frame[0], 0);
    assert_eq!(frame[1], 32);
    assert_eq!(body_len(frame[0], frame[1]), 32);
    assert_eq!(&frame[2..], encode_body(&m).as_slice());
    assert_eq!(body_len(1, 2), 258);
    assert_eq!(body_len(255, 255), 65535);
}
