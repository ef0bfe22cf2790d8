use open_xiaoai::data::{decode_message, decode_stream, encode_message, encode_stream, AppMessage,
    Event, Request, Response, Stream};
use open_xiaoai::json::{json_from_text, json_to_text, JsonValue};

fn text_round_trip(m: AppMessage) -> AppMessage {
    let text = json_to_text(&encode_message(m));
    let doc = json_from_text(text.as_str()).expect("frame text must parse");
    decode_message(doc).expect("frame must decode")
}

#[test]
fn round_trip_request_with_payload() {
    let m = AppMessage::Request(Request {
        id: String::from("req-1"),
        command: String::from("run_shell"),
        payload: Some(JsonValue::Str(String::from("echo hi"))),
    });
    let expected = AppMessage::Request(Request {
        id: String::from("req-1"),
        command: String::from("run_shell"),
        payload: Some(JsonValue::Str(String::from("echo hi"))),
    });
    assert_eq!(text_round_trip(m), expected);
}

#[test]
fn round_trip_request_without_payload() {
    let m = AppMessage::Request(Request {
        id: String::from("req-2"),
        command: String::from("get_version"),
        payload: None,
    });
    let expected = AppMessage::Request(Request {
        id: String::from("req-2"),
        command: String::from("get_version"),
        payload: None,
    });
    assert_eq!(text_round_trip(m), expected);
}

#[test]
fn round_trip_response_all_fields() {
    let m = AppMessage::Response(Response {
        id: String::from("req-1"),
        code: Some(-1),
        msg: Some(String::from("command not found")),
        data: Some(JsonValue::Num(String::from("42"))),
    });
    let expected = AppMessage::Response(Response {
        id: String::from("req-1"),
        code: Some(-1),
        msg: Some(String::from("command not found")),
        data: Some(JsonValue::Num(String::from("42"))),
    });
    assert_eq!(text_round_trip(m), expected);
}

#[test]
fn round_trip_response_absent_optionals() {
    let m = AppMessage::Response(Response {
        id: String::from("0"),
        code: None,
        msg: None,
        data: None,
    });
    let expected = AppMessage::Response(Response {
        id: String::from("0"),
        code: None,
        msg: None,
        data: None,
    });
    assert_eq!(text_round_trip(m), expected);
}

#[test]
fn round_trip_event() {
    let m = AppMessage::Event(Event {
        id: String::from("ev-9"),
        event: String::from("kws"),
        data: Some(JsonValue::Bool(true)),
    });
    let expected = AppMessage::Event(Event {
        id: String::from("ev-9"),
        event: String::from("kws"),
        data: Some(JsonValue::Bool(true)),
    });
    assert_eq!(text_round_trip(m), expected);
}

#[test]
fn round_trip_stream() {
    let m = AppMessage::Stream(Stream {
        id: String::from("st-1"),
        tag: String::from("record"),
        bytes: vec![0, 1, 127, 128, 255],
        data: None,
    });
    let expected = AppMessage::Stream(Stream {
        id: String::from("st-1"),
        tag: String::from("record"),
        bytes: vec![0, 1, 127, 128, 255],
        data: None,
    });
    assert_eq!(text_round_trip(m), expected);
}

#[test]
fn encoded_request_text_is_canonical() {
    let m = AppMessage::Request(Request {
        id: String::from("a"),
        command: String::from("b"),
        payload: None,
    });
    let text = json_to_text(&encode_message(m));
    assert_eq!(text, "{\"Request\":{\"id\":\"a\",\"command\":\"b\",\"payload\":null}}");
}

#[test]
fn encoded_response_skips_absent_fields() {
    let m = AppMessage::Response(Response {
        id: String::from("x"),
        code: Some(0),
        msg: None,
        data: None,
    });
    let text = json_to_text(&encode_message(m));
    assert_eq!(text, "{\"Response\":{\"id\":\"x\",\"code\":0}}");
}

#[test]
fn bare_stream_binary_frame_round_trips() {
    let s = Stream {
        id: String::from("st-2"),
        tag: String::from("play"),
        bytes: vec![9, 8, 7],
        data: Some(JsonValue::Null),
    };
    let text = json_to_text(&encode_stream(s));
    // An explicit null in the side metadata reads back as absence.
    assert_eq!(text, "{\"id\":\"st-2\",\"tag\":\"play\",\"bytes\":[9,8,7],\"data\":null}");
    let doc = json_from_text(text.as_str()).unwrap();
    let back = decode_stream(doc).unwrap();
    assert_eq!(back.id, "st-2");
    assert_eq!(back.tag, "play");
    assert_eq!(back.bytes, vec![9, 8, 7]);
    assert_eq!(back.data, None);
}

#[test]
fn malformed_frame_is_rejected_not_fatal() {
    assert!(json_from_text("{\"Request\":").is_none());
    assert!(json_from_text("").is_none());
    let doc = json_from_text("{\"Unknown\":{}}").unwrap();
    assert!(decode_message(doc).is_none());
}

#[test]
fn response_id_mismatch_shape_rejected() {
    // Wrong leading key: decodes as no envelope at all.
    let doc = json_from_text("{\"Response\":{\"code\":0}}").unwrap();
    assert!(decode_message(doc).is_none());
}

#[test]
fn constructors_fill_documented_fields() {
    let r = Response::success();
    assert_eq!(r.id, "0");
    assert_eq!(r.code, Some(0));
    assert_eq!(r.msg.as_deref(), Some("success"));
    assert!(r.data.is_none());

    let r = Response::from_data(JsonValue::Bool(false));
    assert_eq!(r.id, "0");
    assert!(r.code.is_none() && r.msg.is_none());
    assert_eq!(r.data, Some(JsonValue::Bool(false)));

    let r = Response::from_error("req-7", "boom");
    assert_eq!(r.id, "req-7");
    assert_eq!(r.code, Some(-1));
    assert_eq!(r.msg.as_deref(), Some("boom"));
    assert!(r.data.is_none());

    // Fresh correlation tokens render as 36 characters.
    let e = Event::new("playing", None);
    assert_eq!(e.id.len(), 36);
    let s = Stream::new("record", vec![1, 2], None);
    assert_eq!(s.id.len(), 36);
    assert_eq!(s.tag, "record");
    assert_eq!(s.bytes, vec![1, 2]);
}

#[test]
fn json_escapes_round_trip() {
    let v = JsonValue::Str(String::from("a\"b\\c\nd\te\u{1}f\u{7f}é"));
    let text = json_to_text(&v);
    assert_eq!(text, "\"a\\\"b\\\\c\\nd\\te\\u0001f\u{7f}é\"");
    let back = json_from_text(text.as_str()).unwrap();
    assert_eq!(back, v);
}

#[test]
fn json_nested_structure_round_trips() {
    let v = JsonValue::Obj(vec![
        (String::from("xs"), JsonValue::Arr(vec![
            JsonValue::Num(String::from("-5")),
            JsonValue::Null,
            JsonValue::Bool(true),
            JsonValue::Obj(vec![]),
            JsonValue::Arr(vec![]),
        ])),
        (String::from("y"), JsonValue::Num(String::from("3.5e2"))),
    ]);
    let text = json_to_text(&v);
    assert_eq!(text, "{\"xs\":[-5,null,true,{},[]],\"y\":3.5e2}");
    let back = json_from_text(text.as_str()).unwrap();
    assert_eq!(back, v);
}

#[test]
fn canonical_form_is_strict() {
    // The codec is deliberately canonical: whitespace or re-ordered members
    // are a decode failure for that frame, never a crash.
    assert!(json_from_text("{ \"Request\": {} }").is_none());
    assert!(json_from_text("{\"Request\":{\"command\":\"b\",\"id\":\"a\",\"payload\":null}}")
        .and_then(decode_message)
        .is_none());
    // The canonical rendering of every document is accepted.
    let v = JsonValue::Obj(vec![(String::from("k"), JsonValue::Str(String::from("\u{3}")))]);
    let text = json_to_text(&v);
    assert_eq!(json_from_text(text.as_str()), Some(v));
}
