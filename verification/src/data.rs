//! The wire message model: one envelope with four payload kinds.
//!
//! A frame carries exactly one of `Request`, `Response`, `Event` or `Stream`.
//! `enc_message` / `dec_message` give the mathematical codec between an
//! envelope and its JSON document; the executable codec is proved to match
//! them, and `lemma_codec_round_trip` shows that decoding an encoded
//! envelope always returns the original.
use vstd::prelude::*;

use crate::json::{obj_view, arr_view, lemma_obj_view, lemma_arr_view, wf_doc, wf_str, JsonVal,
    JsonValue};
use crate::num::{dec_digits, int_text, parse_int_text, lemma_parse_int_text, u64_to_string,
    i64_to_string, parse_int_str};
use vstd::string::StringExecFns;

verus! {

broadcast use vstd::string::group_string_axioms;

/// A remote call: `id` is the correlation token echoed by the response.
#[derive(Debug, PartialEq)]
pub struct Request {
    pub id: String,
    pub command: String,
    pub payload: Option<JsonValue>,
}

/// The answer to a request: `code` absent means unspecified success, zero
/// explicit success, negative an error.
#[derive(Debug, PartialEq)]
pub struct Response {
    pub id: String,
    pub code: Option<i32>,
    pub msg: Option<String>,
    pub data: Option<JsonValue>,
}

/// A fire-and-forget notification.
#[derive(Debug, PartialEq)]
pub struct Event {
    pub id: String,
    pub event: String,
    pub data: Option<JsonValue>,
}

/// A binary media chunk; `tag` classifies the payload.
#[derive(Debug, PartialEq)]
pub struct Stream {
    pub id: String,
    pub tag: String,
    pub bytes: Vec<u8>,
    pub data: Option<JsonValue>,
}

/// The envelope: exactly one active variant per frame.
#[derive(Debug, PartialEq)]
pub enum AppMessage {
    Request(Request),
    Response(Response),
    Event(Event),
    Stream(Stream),
}

pub struct RequestV {
    pub id: Seq<char>,
    pub command: Seq<char>,
    pub payload: Option<JsonVal>,
}

pub struct ResponseV {
    pub id: Seq<char>,
    pub code: Option<i32>,
    pub msg: Option<Seq<char>>,
    pub data: Option<JsonVal>,
}

pub struct EventV {
    pub id: Seq<char>,
    pub event: Seq<char>,
    pub data: Option<JsonVal>,
}

pub struct StreamV {
    pub id: Seq<char>,
    pub tag: Seq<char>,
    pub bytes: Seq<u8>,
    pub data: Option<JsonVal>,
}

pub enum AppMessageV {
    Request(RequestV),
    Response(ResponseV),
    Event(EventV),
    Stream(StreamV),
}

/// The view of an optional JSON document.
pub open spec fn opt_view(o: Option<JsonValue>) -> Option<JsonVal> {
    match o {
        Some(v) => Some(v@),
        None => None,
    }
}

impl View for Request {
    type V = RequestV;

    open spec fn view(&self) -> RequestV {
        RequestV { id: self.id@, command: self.command@, payload: opt_view(self.payload) }
    }
}

impl View for Response {
    type V = ResponseV;

    open spec fn view(&self) -> ResponseV {
        ResponseV {
            id: self.id@,
            code: self.code,
            msg: match self.msg {
                Some(ref m) => Some(m@),
                None => None,
            },
            data: opt_view(self.data),
        }
    }
}

impl View for Event {
    type V = EventV;

    open spec fn view(&self) -> EventV {
        EventV { id: self.id@, event: self.event@, data: opt_view(self.data) }
    }
}

impl View for Stream {
    type V = StreamV;

    open spec fn view(&self) -> StreamV {
        StreamV { id: self.id@, tag: self.tag@, bytes: self.bytes@, data: opt_view(self.data) }
    }
}

impl View for AppMessage {
    type V = AppMessageV;

    open spec fn view(&self) -> AppMessageV {
        match self {
            AppMessage::Request(r) => AppMessageV::Request(r@),
            AppMessage::Response(r) => AppMessageV::Response(r@),
            AppMessage::Event(e) => AppMessageV::Event(e@),
            AppMessage::Stream(s) => AppMessageV::Stream(s@),
        }
    }
}

/// An optional document in normal form never holds an explicit `null`:
/// absence is the one representation of "no value".
pub open spec fn normalized(o: Option<JsonVal>) -> bool {
    o != Some(JsonVal::Null)
}

/// Folds an explicit `null` into absence.
pub open spec fn norm_opt(v: JsonVal) -> Option<JsonVal> {
    if v == JsonVal::Null {
        None
    } else {
        Some(v)
    }
}

/// An absent optional document encodes as `null`.
pub open spec fn opt_or_null(o: Option<JsonVal>) -> JsonVal {
    match o {
        Some(v) => v,
        None => JsonVal::Null,
    }
}

impl RequestV {
    pub open spec fn wf(self) -> bool {
        normalized(self.payload)
    }
}

impl ResponseV {
    pub open spec fn wf(self) -> bool {
        normalized(self.data)
    }
}

impl EventV {
    pub open spec fn wf(self) -> bool {
        normalized(self.data)
    }
}

impl StreamV {
    pub open spec fn wf(self) -> bool {
        normalized(self.data)
    }
}

impl AppMessageV {
    pub open spec fn wf(self) -> bool {
        match self {
            AppMessageV::Request(r) => r.wf(),
            AppMessageV::Response(r) => r.wf(),
            AppMessageV::Event(e) => e.wf(),
            AppMessageV::Stream(s) => s.wf(),
        }
    }
}

// ---------------------------------------------------------------------------
// The specification codec.
// ---------------------------------------------------------------------------

pub open spec fn enc_request_fields(r: RequestV) -> Seq<(Seq<char>, JsonVal)> {
    seq![
        ("id"@, JsonVal::Str(r.id)),
        ("command"@, JsonVal::Str(r.command)),
        ("payload"@, opt_or_null(r.payload)),
    ]
}

pub open spec fn enc_response_fields(r: ResponseV) -> Seq<(Seq<char>, JsonVal)> {
    seq![("id"@, JsonVal::Str(r.id))] + (match r.code {
        Some(c) => seq![("code"@, JsonVal::Num(int_text(c as int)))],
        None => Seq::<(Seq<char>, JsonVal)>::empty(),
    }) + (match r.msg {
        Some(m) => seq![("msg"@, JsonVal::Str(m))],
        None => Seq::<(Seq<char>, JsonVal)>::empty(),
    }) + (match r.data {
        Some(d) => seq![("data"@, d)],
        None => Seq::<(Seq<char>, JsonVal)>::empty(),
    })
}

pub open spec fn enc_event_fields(e: EventV) -> Seq<(Seq<char>, JsonVal)> {
    seq![("id"@, JsonVal::Str(e.id)), ("event"@, JsonVal::Str(e.event))] + (match e.data {
        Some(d) => seq![("data"@, d)],
        None => Seq::<(Seq<char>, JsonVal)>::empty(),
    })
}

/// Each byte of a media chunk rides as its own decimal number.
pub open spec fn bytes_arr(b: Seq<u8>) -> Seq<JsonVal> {
    Seq::new(b.len(), |i: int| JsonVal::Num(dec_digits(b[i] as nat)))
}

pub open spec fn enc_stream_fields(s: StreamV) -> Seq<(Seq<char>, JsonVal)> {
    seq![
        ("id"@, JsonVal::Str(s.id)),
        ("tag"@, JsonVal::Str(s.tag)),
        ("bytes"@, JsonVal::Arr(bytes_arr(s.bytes))),
    ] + (match s.data {
        Some(d) => seq![("data"@, d)],
        None => Seq::<(Seq<char>, JsonVal)>::empty(),
    })
}

/// The JSON document of an envelope: one outer member whose key names the kind.
pub open spec fn enc_message(m: AppMessageV) -> JsonVal {
    match m {
        AppMessageV::Request(r) => JsonVal::Obj(
            seq![("Request"@, JsonVal::Obj(enc_request_fields(r)))],
        ),
        AppMessageV::Response(r) => JsonVal::Obj(
            seq![("Response"@, JsonVal::Obj(enc_response_fields(r)))],
        ),
        AppMessageV::Event(e) => JsonVal::Obj(seq![("Event"@, JsonVal::Obj(enc_event_fields(e)))]),
        AppMessageV::Stream(s) => JsonVal::Obj(
            seq![("Stream"@, JsonVal::Obj(enc_stream_fields(s)))],
        ),
    }
}

pub open spec fn valid_code(v: JsonVal) -> bool {
    &&& v is Num
    &&& match parse_int_text(v->Num_0) {
        Some(c) => i32::MIN <= c <= i32::MAX,
        None => false,
    }
}

pub open spec fn code_of(v: JsonVal) -> i32
    recommends
        valid_code(v),
{
    match parse_int_text(v->Num_0) {
        Some(c) => c as i32,
        None => 0,
    }
}

pub open spec fn valid_byte(v: JsonVal) -> bool {
    &&& v is Num
    &&& match parse_int_text(v->Num_0) {
        Some(c) => 0 <= c <= 255,
        None => false,
    }
}

pub open spec fn byte_of(v: JsonVal) -> u8
    recommends
        valid_byte(v),
{
    match parse_int_text(v->Num_0) {
        Some(c) => c as u8,
        None => 0,
    }
}

pub open spec fn dec_bytes(items: Seq<JsonVal>) -> Option<Seq<u8>>
    decreases items.len(),
{
    if items.len() == 0 {
        Some(Seq::empty())
    } else {
        match dec_bytes(items.drop_last()) {
            None => None,
            Some(p) => if valid_byte(items.last()) {
                Some(p.push(byte_of(items.last())))
            } else {
                None
            },
        }
    }
}

pub open spec fn dec_request(v: JsonVal) -> Option<RequestV> {
    match v {
        JsonVal::Obj(ms) => if {
            &&& 2 <= ms.len() <= 3
            &&& ms[0].0 == "id"@ && ms[0].1 is Str
            &&& ms[1].0 == "command"@ && ms[1].1 is Str
            &&& ms.len() == 3 ==> ms[2].0 == "payload"@
        } {
            Some(
                RequestV {
                    id: ms[0].1->Str_0,
                    command: ms[1].1->Str_0,
                    payload: if ms.len() == 3 {
                        norm_opt(ms[2].1)
                    } else {
                        None
                    },
                },
            )
        } else {
            None
        },
        _ => None,
    }
}

pub open spec fn dec_response(v: JsonVal) -> Option<ResponseV> {
    match v {
        JsonVal::Obj(ms) => {
            let has_code = ms.len() > 1 && ms[1].0 == "code"@;
            let i2: int = if has_code {
                2
            } else {
                1
            };
            let has_msg = ms.len() > i2 && ms[i2].0 == "msg"@;
            let i3: int = if has_msg {
                i2 + 1
            } else {
                i2
            };
            let has_data = ms.len() > i3 && ms[i3].0 == "data"@;
            let i4: int = if has_data {
                i3 + 1
            } else {
                i3
            };
            if {
                &&& ms.len() >= 1
                &&& ms[0].0 == "id"@ && ms[0].1 is Str
                &&& ms.len() == i4
                &&& has_code ==> valid_code(ms[1].1)
                &&& has_msg ==> ms[i2].1 is Str
            } {
                Some(
                    ResponseV {
                        id: ms[0].1->Str_0,
                        code: if has_code {
                            Some(code_of(ms[1].1))
                        } else {
                            None
                        },
                        msg: if has_msg {
                            Some(ms[i2].1->Str_0)
                        } else {
                            None
                        },
                        data: if has_data {
                            norm_opt(ms[i3].1)
                        } else {
                            None
                        },
                    },
                )
            } else {
                None
            }
        },
        _ => None,
    }
}

pub open spec fn dec_event(v: JsonVal) -> Option<EventV> {
    match v {
        JsonVal::Obj(ms) => if {
            &&& 2 <= ms.len() <= 3
            &&& ms[0].0 == "id"@ && ms[0].1 is Str
            &&& ms[1].0 == "event"@ && ms[1].1 is Str
            &&& ms.len() == 3 ==> ms[2].0 == "data"@
        } {
            Some(
                EventV {
                    id: ms[0].1->Str_0,
                    event: ms[1].1->Str_0,
                    data: if ms.len() == 3 {
                        norm_opt(ms[2].1)
                    } else {
                        None
                    },
                },
            )
        } else {
            None
        },
        _ => None,
    }
}

pub open spec fn dec_stream(v: JsonVal) -> Option<StreamV> {
    match v {
        JsonVal::Obj(ms) => if {
            &&& 3 <= ms.len() <= 4
            &&& ms[0].0 == "id"@ && ms[0].1 is Str
            &&& ms[1].0 == "tag"@ && ms[1].1 is Str
            &&& ms[2].0 == "bytes"@ && ms[2].1 is Arr && dec_bytes(ms[2].1->Arr_0) is Some
            &&& ms.len() == 4 ==> ms[3].0 == "data"@
        } {
            Some(
                StreamV {
                    id: ms[0].1->Str_0,
                    tag: ms[1].1->Str_0,
                    bytes: dec_bytes(ms[2].1->Arr_0)->Some_0,
                    data: if ms.len() == 4 {
                        norm_opt(ms[3].1)
                    } else {
                        None
                    },
                },
            )
        } else {
            None
        },
        _ => None,
    }
}

/// The envelope of a JSON document, if the document has the right shape.
pub open spec fn dec_message(v: JsonVal) -> Option<AppMessageV> {
    match v {
        JsonVal::Obj(ms) => if ms.len() != 1 {
            None
        } else if ms[0].0 == "Request"@ {
            match dec_request(ms[0].1) {
                Some(r) => Some(AppMessageV::Request(r)),
                None => None,
            }
        } else if ms[0].0 == "Response"@ {
            match dec_response(ms[0].1) {
                Some(r) => Some(AppMessageV::Response(r)),
                None => None,
            }
        } else if ms[0].0 == "Event"@ {
            match dec_event(ms[0].1) {
                Some(e) => Some(AppMessageV::Event(e)),
                None => None,
            }
        } else if ms[0].0 == "Stream"@ {
            match dec_stream(ms[0].1) {
                Some(s) => Some(AppMessageV::Stream(s)),
                None => None,
            }
        } else {
            None
        },
        _ => None,
    }
}

// ---------------------------------------------------------------------------
// Round trip.
// ---------------------------------------------------------------------------

/// Decoding the byte-array encoding recovers the bytes.
pub proof fn lemma_bytes_round_trip(b: Seq<u8>)
    ensures
        dec_bytes(bytes_arr(b)) == Some(b),
    decreases b.len(),
{
    if b.len() == 0 {
        assert(bytes_arr(b) =~= Seq::<JsonVal>::empty());
    } else {
        lemma_bytes_round_trip(b.drop_last());
        let items = bytes_arr(b);
        assert(items.drop_last() =~= bytes_arr(b.drop_last()));
        assert(items.last() == JsonVal::Num(dec_digits(b.last() as nat)));
        lemma_parse_int_text(b.last() as int);
        assert(int_text(b.last() as int) == dec_digits(b.last() as nat));
        assert(valid_byte(items.last()));
        assert(byte_of(items.last()) == b.last());
        assert(dec_bytes(items) == Some(b.drop_last().push(b.last())));
        assert(b.drop_last().push(b.last()) =~= b);
    }
}

/// The lengths and telltale characters of the member keys, so that distinct
/// keys are provably distinct.
proof fn lemma_key_literals()
    ensures
        "Request"@.len() == 7,
        "Response"@.len() == 8,
        "Event"@.len() == 5,
        "Stream"@.len() == 6,
        "id"@.len() == 2,
        "command"@.len() == 7,
        "payload"@.len() == 7,
        "code"@.len() == 4,
        "msg"@.len() == 3,
        "data"@.len() == 4,
        "event"@.len() == 5,
        "tag"@.len() == 3,
        "bytes"@.len() == 5,
        "code"@[0] == 'c',
        "data"@[0] == 'd',
        "command"@[0] == 'c',
        "payload"@[0] == 'p',
{
    reveal_strlit("Request");
    reveal_strlit("Response");
    reveal_strlit("Event");
    reveal_strlit("Stream");
    reveal_strlit("id");
    reveal_strlit("command");
    reveal_strlit("payload");
    reveal_strlit("code");
    reveal_strlit("msg");
    reveal_strlit("data");
    reveal_strlit("event");
    reveal_strlit("tag");
    reveal_strlit("bytes");
}

/// Decoding an encoded envelope returns the original envelope: the codec
/// loses nothing, for every envelope in normal form.
pub proof fn lemma_codec_round_trip(m: AppMessageV)
    requires
        m.wf(),
    ensures
        dec_message(enc_message(m)) == Some(m),
{
    lemma_key_literals();
    match m {
        AppMessageV::Request(r) => {
            let fields = enc_request_fields(r);
            assert(dec_request(JsonVal::Obj(fields)) == Some(r));
        },
        AppMessageV::Response(r) => {
            let fields = enc_response_fields(r);
            if r.code is Some {
                lemma_parse_int_text(r.code->Some_0 as int);
            }
            let idm = ("id"@, JsonVal::Str(r.id));
            match (r.code, r.msg, r.data) {
                (Some(c), Some(mg), Some(d)) => {
                    assert(fields =~= seq![
                        idm,
                        ("code"@, JsonVal::Num(int_text(c as int))),
                        ("msg"@, JsonVal::Str(mg)),
                        ("data"@, d),
                    ]);
                },
                (Some(c), Some(mg), None) => {
                    assert(fields =~= seq![
                        idm,
                        ("code"@, JsonVal::Num(int_text(c as int))),
                        ("msg"@, JsonVal::Str(mg)),
                    ]);
                },
                (Some(c), None, Some(d)) => {
                    assert(fields =~= seq![
                        idm,
                        ("code"@, JsonVal::Num(int_text(c as int))),
                        ("data"@, d),
                    ]);
                },
                (Some(c), None, None) => {
                    assert(fields =~= seq![idm, ("code"@, JsonVal::Num(int_text(c as int)))]);
                },
                (None, Some(mg), Some(d)) => {
                    assert(fields =~= seq![idm, ("msg"@, JsonVal::Str(mg)), ("data"@, d)]);
                },
                (None, Some(mg), None) => {
                    assert(fields =~= seq![idm, ("msg"@, JsonVal::Str(mg))]);
                },
                (None, None, Some(d)) => {
                    assert(fields =~= seq![idm, ("data"@, d)]);
                },
                (None, None, None) => {
                    assert(fields =~= seq![idm]);
                },
            }
            assert(dec_response(JsonVal::Obj(fields)) == Some(r));
        },
        AppMessageV::Event(e) => {
            let fields = enc_event_fields(e);
            assert(dec_event(JsonVal::Obj(fields)) == Some(e));
        },
        AppMessageV::Stream(s) => {
            let fields = enc_stream_fields(s);
            lemma_bytes_round_trip(s.bytes);
            assert(dec_stream(JsonVal::Obj(fields)) == Some(s));
        },
    }
}

// ---------------------------------------------------------------------------
// The executable codec.
// ---------------------------------------------------------------------------

/// An absent optional document becomes an explicit `null`.
fn opt_to_json(o: Option<JsonValue>) -> (v: JsonValue)
    ensures
        v@ == opt_or_null(opt_view(o)),
{
    match o {
        Some(v) => v,
        None => JsonValue::Null,
    }
}

/// Folds an explicit `null` back into absence.
fn json_norm(v: JsonValue) -> (o: Option<JsonValue>)
    ensures
        opt_view(o) == norm_opt(v@),
        normalized(opt_view(o)),
{
    match v {
        JsonValue::Null => None,
        other => Some(other),
    }
}

/// Renders a media chunk as an array of decimal numbers.
fn bytes_to_json(b: &Vec<u8>) -> (v: JsonValue)
    ensures
        v@ == JsonVal::Arr(bytes_arr(b@)),
{
    let mut items: Vec<JsonValue> = Vec::new();
    let mut i: usize = 0;
    while i < b.len()
        invariant
            0 <= i <= b@.len(),
            items@.len() == i,
            forall|j: int|
                0 <= j < i ==> (#[trigger] items@[j])@ == JsonVal::Num(dec_digits(b@[j] as nat)),
        decreases b@.len() - i,
    {
        items.push(JsonValue::Num(u64_to_string(b[i] as u64)));
        i = i + 1;
    }
    proof {
        lemma_arr_view(items@);
        assert(arr_view(items@) =~= bytes_arr(b@));
    }
    JsonValue::Arr(items)
}

fn key(text: &str) -> (k: String)
    ensures
        k@ == text@,
{
    String::from_str(text)
}

/// Encodes the bare `Stream` object carried by a binary frame.
pub fn encode_stream(s: Stream) -> (v: JsonValue)
    ensures
        v@ == JsonVal::Obj(enc_stream_fields(s@)),
{
    let ghost sv = s@;
    let mut fields: Vec<(String, JsonValue)> = Vec::new();
    fields.push((key("id"), JsonValue::Str(s.id)));
    fields.push((key("tag"), JsonValue::Str(s.tag)));
    fields.push((key("bytes"), bytes_to_json(&s.bytes)));
    if let Some(d) = s.data {
        fields.push((key("data"), d));
    }
    proof {
        lemma_obj_view(fields@);
        assert(obj_view(fields@) =~= enc_stream_fields(sv));
    }
    JsonValue::Obj(fields)
}

/// Encodes an envelope as its JSON document.
pub fn encode_message(m: AppMessage) -> (v: JsonValue)
    ensures
        v@ == enc_message(m@),
{
    let ghost mv = m@;
    match m {
        AppMessage::Request(r) => {
            let ghost rv = r@;
            let mut fields: Vec<(String, JsonValue)> = Vec::new();
            fields.push((key("id"), JsonValue::Str(r.id)));
            fields.push((key("command"), JsonValue::Str(r.command)));
            fields.push((key("payload"), opt_to_json(r.payload)));
            proof {
                lemma_obj_view(fields@);
                assert(obj_view(fields@) =~= enc_request_fields(rv));
            }
            let mut outer: Vec<(String, JsonValue)> = Vec::new();
            outer.push((key("Request"), JsonValue::Obj(fields)));
            proof {
                lemma_obj_view(outer@);
                assert(obj_view(outer@) =~= seq![
                    ("Request"@, JsonVal::Obj(enc_request_fields(rv))),
                ]);
            }
            JsonValue::Obj(outer)
        },
        AppMessage::Response(r) => {
            let ghost rv = r@;
            let mut fields: Vec<(String, JsonValue)> = Vec::new();
            fields.push((key("id"), JsonValue::Str(r.id)));
            if let Some(c) = r.code {
                fields.push((key("code"), JsonValue::Num(i64_to_string(c as i64))));
            }
            if let Some(mg) = r.msg {
                fields.push((key("msg"), JsonValue::Str(mg)));
            }
            if let Some(d) = r.data {
                fields.push((key("data"), d));
            }
            proof {
                lemma_obj_view(fields@);
                assert(obj_view(fields@) =~= enc_response_fields(rv));
            }
            let mut outer: Vec<(String, JsonValue)> = Vec::new();
            outer.push((key("Response"), JsonValue::Obj(fields)));
            proof {
                lemma_obj_view(outer@);
                assert(obj_view(outer@) =~= seq![
                    ("Response"@, JsonVal::Obj(enc_response_fields(rv))),
                ]);
            }
            JsonValue::Obj(outer)
        },
        AppMessage::Event(e) => {
            let ghost ev = e@;
            let mut fields: Vec<(String, JsonValue)> = Vec::new();
            fields.push((key("id"), JsonValue::Str(e.id)));
            fields.push((key("event"), JsonValue::Str(e.event)));
            if let Some(d) = e.data {
                fields.push((key("data"), d));
            }
            proof {
                lemma_obj_view(fields@);
                assert(obj_view(fields@) =~= enc_event_fields(ev));
            }
            let mut outer: Vec<(String, JsonValue)> = Vec::new();
            outer.push((key("Event"), JsonValue::Obj(fields)));
            proof {
                lemma_obj_view(outer@);
                assert(obj_view(outer@) =~= seq![("Event"@, JsonVal::Obj(enc_event_fields(ev)))]);
            }
            JsonValue::Obj(outer)
        },
        AppMessage::Stream(st) => {
            let ghost stv = st@;
            let inner = encode_stream(st);
            let mut outer: Vec<(String, JsonValue)> = Vec::new();
            outer.push((key("Stream"), inner));
            proof {
                lemma_obj_view(outer@);
                assert(obj_view(outer@) =~= seq![("Stream"@, JsonVal::Obj(enc_stream_fields(stv)))]);
            }
            JsonValue::Obj(outer)
        },
    }
}

/// A prefix of a decodable byte array is decodable, and every element is a
/// valid byte.
proof fn lemma_dec_bytes_prefix(s: Seq<JsonVal>, i: int)
    requires
        dec_bytes(s) is Some,
        0 <= i <= s.len(),
    ensures
        dec_bytes(s)->Some_0.len() == s.len(),
        dec_bytes(s.take(i)) is Some,
        forall|j: int| 0 <= j < s.len() ==> valid_byte(#[trigger] s[j]),
        dec_bytes(s.take(i))->Some_0 == dec_bytes(s)->Some_0.take(i),
    decreases s.len(),
{
    if s.len() == 0 {
        assert(s.take(i) =~= s);
        assert(dec_bytes(s)->Some_0.take(i) =~= dec_bytes(s.take(i))->Some_0);
    } else {
        let p = s.drop_last();
        let pb = dec_bytes(p)->Some_0;
        lemma_dec_bytes_prefix(p, if i < s.len() { i } else { i - 1 });
        assert(dec_bytes(s)->Some_0 == pb.push(byte_of(s.last())));
        if i < s.len() {
            assert(s.take(i) =~= p.take(i));
            assert(dec_bytes(s)->Some_0.take(i) =~= pb.take(i));
            assert(dec_bytes(s.take(i))->Some_0 == dec_bytes(p)->Some_0.take(i));
        } else {
            assert(s.take(i) =~= s);
            assert(dec_bytes(s)->Some_0.take(i) =~= dec_bytes(s)->Some_0);
        }
        assert forall|j: int| 0 <= j < s.len() implies valid_byte(#[trigger] s[j]) by {
            if j < s.len() - 1 {
                assert(s[j] == p[j]);
            }
        }
    }
}

/// Reads a JSON array back as the media bytes it encodes.
fn json_to_bytes(items: Vec<JsonValue>) -> (r: Option<Vec<u8>>)
    ensures
        match r {
            Some(b) => dec_bytes(arr_view(items@)) == Some(b@),
            None => dec_bytes(arr_view(items@)) is None,
        },
{
    let ghost s = arr_view(items@);
    proof {
        lemma_arr_view(items@);
    }
    let mut out: Vec<u8> = Vec::new();
    let mut i: usize = 0;
    while i < items.len()
        invariant
            0 <= i <= items@.len(),
            s == arr_view(items@),
            s.len() == items@.len(),
            forall|j: int| 0 <= j < items@.len() ==> #[trigger] s[j] == items@[j]@,
            out@.len() == i,
            dec_bytes(s.take(i as int)) == Some(out@),
        decreases items@.len() - i,
    {
        let item = &items[i];
        proof {
            assert(s[i as int] == items@[i as int]@);
        }
        let t = match item {
            JsonValue::Num(t) => t,
            _ => {
                proof {
                    if dec_bytes(s) is Some {
                        lemma_dec_bytes_prefix(s, i as int);
                        assert(valid_byte(s[i as int]));
                    }
                }
                return None;
            },
        };
        proof {
            assert(s[i as int] == JsonVal::Num(t@));
        }
        let ci = match crate::num::parse_int_str(t.as_str()) {
            Some(ci) => ci,
            None => {
                proof {
                    if dec_bytes(s) is Some {
                        lemma_dec_bytes_prefix(s, i as int);
                        assert(valid_byte(s[i as int]));
                        assert(parse_int_text(t@) is Some);
                        let c = choose|c: int| t@ == int_text(c);
                        assert(t@ == int_text(c));
                        assert(0 <= c <= 255);
                        assert(t@ != int_text(c as i64 as int));
                    }
                }
                return None;
            },
        };
        if ci < 0 || ci > 255 {
            proof {
                if dec_bytes(s) is Some {
                    lemma_dec_bytes_prefix(s, i as int);
                    assert(valid_byte(s[i as int]));
                    assert(parse_int_text(t@) is Some);
                    let c = choose|c: int| t@ == int_text(c);
                    assert(t@ == int_text(c));
                    crate::num::lemma_int_text_injective(c, ci as int);
                }
            }
            return None;
        }
        proof {
            crate::num::lemma_parse_int_text(ci as int);
            assert(parse_int_text(t@) is Some);
            let c = choose|c: int| t@ == int_text(c);
            crate::num::lemma_int_text_injective(c, ci as int);
            assert(valid_byte(s[i as int]));
            assert(byte_of(s[i as int]) == ci as u8);
            let t1 = s.take(i as int + 1);
            assert(t1.drop_last() =~= s.take(i as int));
            assert(t1.last() == s[i as int]);
            assert(dec_bytes(t1) == Some(out@.push(ci as u8)));
        }
        out.push(ci as u8);
        i = i + 1;
    }
    proof {
        assert(s.take(items@.len() as int) =~= s);
    }
    Some(out)
}

/// Reads a `Request` out of its inner JSON object.
fn decode_request(v: JsonValue) -> (r: Option<Request>)
    ensures
        match r {
            Some(q) => dec_request(v@) == Some(q@),
            None => dec_request(v@) is None,
        },
{
    let ghost vv = v@;
    match v {
        JsonValue::Obj(mut ms) => {
            let ghost oms = obj_view(ms@);
            proof {
                lemma_obj_view(ms@);
            }
            let n = ms.len();
            if !(n == 2 || n == 3) {
                return None;
            }
            let (k0, v0) = ms.remove(0);
            if !(k0 == key("id")) {
                return None;
            }
            let id = match v0 {
                JsonValue::Str(t) => t,
                _ => {
                    return None;
                },
            };
            proof {
                lemma_obj_view(ms@);
                assert(obj_view(ms@) =~= oms.subrange(1, n as int));
            }
            let (k1, v1) = ms.remove(0);
            if !(k1 == key("command")) {
                return None;
            }
            let command = match v1 {
                JsonValue::Str(t) => t,
                _ => {
                    return None;
                },
            };
            proof {
                lemma_obj_view(ms@);
                assert(obj_view(ms@) =~= oms.subrange(2, n as int));
            }
            let payload: Option<JsonValue> = if ms.len() == 1 {
                let (k2, v2) = ms.remove(0);
                if !(k2 == key("payload")) {
                    return None;
                }
                json_norm(v2)
            } else {
                None
            };
            let q = Request { id, command, payload };
            proof {
                assert(dec_request(vv) == Some(q@));
            }
            Some(q)
        },
        _ => None,
    }
}

/// Reads a `Response` out of its inner JSON object.
fn decode_response(v: JsonValue) -> (r: Option<Response>)
    ensures
        match r {
            Some(q) => dec_response(v@) == Some(q@),
            None => dec_response(v@) is None,
        },
{
    let ghost vv = v@;
    match v {
        JsonValue::Obj(mut ms) => {
            let ghost oms = obj_view(ms@);
            proof {
                lemma_obj_view(ms@);
            }
            let n = ms.len();
            if n < 1 {
                return None;
            }
            let (k0, v0) = ms.remove(0);
            if !(k0 == key("id")) {
                return None;
            }
            let id = match v0 {
                JsonValue::Str(t) => t,
                _ => {
                    return None;
                },
            };
            proof {
                lemma_obj_view(ms@);
                assert(obj_view(ms@) =~= oms.subrange(1, n as int));
            }
            let ghost has_code = oms.len() > 1 && oms[1].0 == "code"@;
            let code: Option<i32> = if ms.len() > 0 && ms[0].0 == key("code") {
                let (_k1, v1) = ms.remove(0);
                let t = match v1 {
                    JsonValue::Num(t) => t,
                    _ => {
                        return None;
                    },
                };
                match crate::num::parse_int_str(t.as_str()) {
                    Some(ci) => {
                        if ci < -2147483648i64 || ci > 2147483647i64 {
                            proof {
                                if valid_code(oms[1].1) {
                                    let c = choose|c: int| t@ == int_text(c);
                                    crate::num::lemma_int_text_injective(c, ci as int);
                                }
                            }
                            return None;
                        }
                        proof {
                            crate::num::lemma_parse_int_text(ci as int);
                            assert(valid_code(oms[1].1));
                            let c = choose|c: int| t@ == int_text(c);
                            crate::num::lemma_int_text_injective(c, ci as int);
                            assert(code_of(oms[1].1) == ci as i32);
                            lemma_obj_view(ms@);
                            assert(obj_view(ms@) =~= oms.subrange(2, n as int));
                        }
                        Some(ci as i32)
                    },
                    None => {
                        proof {
                            if valid_code(oms[1].1) {
                                let c = choose|c: int| t@ == int_text(c);
                                assert(t@ == int_text(c));
                                assert(i32::MIN <= c <= i32::MAX);
                                assert(t@ != int_text(c as i64 as int));
                            }
                        }
                        return None;
                    },
                }
            } else {
                None
            };
            let ghost i2: int = if has_code { 2 } else { 1 };
            proof {
                lemma_obj_view(ms@);
                assert(obj_view(ms@) =~= oms.subrange(i2, n as int));
            }
            let ghost has_msg = oms.len() > i2 && oms[i2].0 == "msg"@;
            let msg: Option<String> = if ms.len() > 0 && ms[0].0 == key("msg") {
                let (_k2, v2) = ms.remove(0);
                let t = match v2 {
                    JsonValue::Str(t) => t,
                    _ => {
                        return None;
                    },
                };
                proof {
                    lemma_obj_view(ms@);
                    assert(obj_view(ms@) =~= oms.subrange(i2 + 1, n as int));
                }
                Some(t)
            } else {
                None
            };
            let ghost i3: int = if has_msg { i2 + 1 } else { i2 };
            let ghost has_data = oms.len() > i3 && oms[i3].0 == "data"@;
            let data: Option<JsonValue> = if ms.len() > 0 && ms[0].0 == key("data") {
                let (_k3, v3) = ms.remove(0);
                proof {
                    lemma_obj_view(ms@);
                    assert(obj_view(ms@) =~= oms.subrange(i3 + 1, n as int));
                }
                json_norm(v3)
            } else {
                None
            };
            if ms.len() > 0 {
                return None;
            }
            let q = Response { id, code, msg, data };
            proof {
                assert(dec_response(vv) == Some(q@));
            }
            Some(q)
        },
        _ => None,
    }
}

/// Reads an `Event` out of its inner JSON object.
fn decode_event(v: JsonValue) -> (r: Option<Event>)
    ensures
        match r {
            Some(q) => dec_event(v@) == Some(q@),
            None => dec_event(v@) is None,
        },
{
    let ghost vv = v@;
    match v {
        JsonValue::Obj(mut ms) => {
            let ghost oms = obj_view(ms@);
            proof {
                lemma_obj_view(ms@);
            }
            let n = ms.len();
            if !(n == 2 || n == 3) {
                return None;
            }
            let (k0, v0) = ms.remove(0);
            if !(k0 == key("id")) {
                return None;
            }
            let id = match v0 {
                JsonValue::Str(t) => t,
                _ => {
                    return None;
                },
            };
            proof {
                lemma_obj_view(ms@);
                assert(obj_view(ms@) =~= oms.subrange(1, n as int));
            }
            let (k1, v1) = ms.remove(0);
            if !(k1 == key("event")) {
                return None;
            }
            let event = match v1 {
                JsonValue::Str(t) => t,
                _ => {
                    return None;
                },
            };
            proof {
                lemma_obj_view(ms@);
                assert(obj_view(ms@) =~= oms.subrange(2, n as int));
            }
            let data: Option<JsonValue> = if ms.len() == 1 {
                let (k2, v2) = ms.remove(0);
                if !(k2 == key("data")) {
                    return None;
                }
                json_norm(v2)
            } else {
                None
            };
            let q = Event { id, event, data };
            proof {
                assert(dec_event(vv) == Some(q@));
            }
            Some(q)
        },
        _ => None,
    }
}

/// Reads the bare `Stream` object carried by a binary frame.
pub fn decode_stream(v: JsonValue) -> (r: Option<Stream>)
    ensures
        match r {
            Some(q) => dec_stream(v@) == Some(q@),
            None => dec_stream(v@) is None,
        },
{
    let ghost vv = v@;
    match v {
        JsonValue::Obj(mut ms) => {
            let ghost oms = obj_view(ms@);
            proof {
                lemma_obj_view(ms@);
            }
            let n = ms.len();
            if !(n == 3 || n == 4) {
                return None;
            }
            let (k0, v0) = ms.remove(0);
            if !(k0 == key("id")) {
                return None;
            }
            let id = match v0 {
                JsonValue::Str(t) => t,
                _ => {
                    return None;
                },
            };
            proof {
                lemma_obj_view(ms@);
                assert(obj_view(ms@) =~= oms.subrange(1, n as int));
            }
            let (k1, v1) = ms.remove(0);
            if !(k1 == key("tag")) {
                return None;
            }
            let tag = match v1 {
                JsonValue::Str(t) => t,
                _ => {
                    return None;
                },
            };
            proof {
                lemma_obj_view(ms@);
                assert(obj_view(ms@) =~= oms.subrange(2, n as int));
            }
            let (k2, v2) = ms.remove(0);
            if !(k2 == key("bytes")) {
                return None;
            }
            let items = match v2 {
                JsonValue::Arr(items) => items,
                _ => {
                    return None;
                },
            };
            let bytes = match json_to_bytes(items) {
                Some(b) => b,
                None => {
                    return None;
                },
            };
            proof {
                lemma_obj_view(ms@);
                assert(obj_view(ms@) =~= oms.subrange(3, n as int));
            }
            let data: Option<JsonValue> = if ms.len() == 1 {
                let (k3, v3) = ms.remove(0);
                if !(k3 == key("data")) {
                    return None;
                }
                json_norm(v3)
            } else {
                None
            };
            let q = Stream { id, tag, bytes, data };
            proof {
                assert(dec_stream(vv) == Some(q@));
            }
            Some(q)
        },
        _ => None,
    }
}

/// Reads an envelope back from its JSON document.
pub fn decode_message(v: JsonValue) -> (r: Option<AppMessage>)
    ensures
        match r {
            Some(m) => dec_message(v@) == Some(m@),
            None => dec_message(v@) is None,
        },
{
    let ghost vv = v@;
    match v {
        JsonValue::Obj(mut ms) => {
            let ghost oms = obj_view(ms@);
            proof {
                lemma_obj_view(ms@);
            }
            if ms.len() != 1 {
                return None;
            }
            let (k, inner) = ms.remove(0);
            if k == key("Request") {
                match decode_request(inner) {
                    Some(q) => Some(AppMessage::Request(q)),
                    None => None,
                }
            } else if k == key("Response") {
                match decode_response(inner) {
                    Some(q) => Some(AppMessage::Response(q)),
                    None => None,
                }
            } else if k == key("Event") {
                match decode_event(inner) {
                    Some(q) => Some(AppMessage::Event(q)),
                    None => None,
                }
            } else if k == key("Stream") {
                match decode_stream(inner) {
                    Some(q) => Some(AppMessage::Stream(q)),
                    None => None,
                }
            } else {
                None
            }
        },
        _ => None,
    }
}

impl Stream {
    /// A fresh media chunk with a random correlation token.
    pub fn new(tag: &str, bytes: Vec<u8>, data: Option<JsonValue>) -> (s: Self)
        ensures
            s@.tag == tag@,
            s@.bytes == bytes@,
            s@.data == opt_view(data),
            s@.id.len() == 36,
    {
        Stream {
            id: crate::extern_specs::new_correlation_id(),
            tag: String::from_str(tag),
            bytes,
            data,
        }
    }
}

impl Event {
    /// A fresh event with a random correlation token.
    pub fn new(event: &str, data: Option<JsonValue>) -> (e: Self)
        ensures
            e@.event == event@,
            e@.data == opt_view(data),
            e@.id.len() == 36,
    {
        Event { id: crate::extern_specs::new_correlation_id(), event: String::from_str(event), data }
    }
}

impl Response {
    /// An explicit-success response carrying no data.  Its id is the literal
    /// placeholder `0`, not a real correlation token: the router substitutes
    /// the request id before sending.
    pub fn success() -> (r: Self)
        ensures
            r@.id == "0"@,
            r@.code == Some(0i32),
            r@.msg == Some("success"@),
            r@.data is None,
    {
        Response {
            id: String::from_str("0"),
            code: Some(0),
            msg: Some(String::from_str("success")),
            data: None,
        }
    }

    /// A success response carrying `data`, with the placeholder id.
    pub fn from_data(data: JsonValue) -> (r: Self)
        ensures
            r@.id == "0"@,
            r@.code is None,
            r@.msg is None,
            r@.data == Some(data@),
    {
        Response { id: String::from_str("0"), code: None, msg: None, data: Some(data) }
    }

    /// An error response echoing `id`, with a negative status and the
    /// error's text.
    pub fn from_error(id: &str, msg: &str) -> (r: Self)
        ensures
            r@.id == id@,
            r@.code == Some(-1i32),
            r@.msg == Some(msg@),
            r@.data is None,
    {
        Response {
            id: String::from_str(id),
            code: Some(-1),
            msg: Some(String::from_str(msg)),
            data: None,
        }
    }
}


/// Whether an optional attached document is well formed.
pub open spec fn opt_doc_wf(o: Option<JsonVal>) -> bool {
    match o {
        Some(d) => wf_doc(d),
        None => true,
    }
}

impl RequestV {
    /// Every text field is carried faithfully by the codec.
    pub open spec fn frame_wf(self) -> bool {
        wf_str(self.id) && wf_str(self.command) && opt_doc_wf(self.payload)
    }
}

impl ResponseV {
    /// Every text field is carried faithfully by the codec.
    pub open spec fn frame_wf(self) -> bool {
        &&& wf_str(self.id)
        &&& match self.msg {
            Some(m) => wf_str(m),
            None => true,
        }
        &&& opt_doc_wf(self.data)
    }
}

impl EventV {
    /// Every text field is carried faithfully by the codec.
    pub open spec fn frame_wf(self) -> bool {
        wf_str(self.id) && wf_str(self.event) && opt_doc_wf(self.data)
    }
}

impl StreamV {
    /// Every text field is carried faithfully by the codec.
    pub open spec fn frame_wf(self) -> bool {
        wf_str(self.id) && wf_str(self.tag) && opt_doc_wf(self.data)
    }
}

impl AppMessageV {
    /// Every text field is carried faithfully by the codec.
    pub open spec fn frame_wf(self) -> bool {
        match self {
            AppMessageV::Request(r) => r.frame_wf(),
            AppMessageV::Response(r) => r.frame_wf(),
            AppMessageV::Event(e) => e.frame_wf(),
            AppMessageV::Stream(st) => st.frame_wf(),
        }
    }
}

/// The member keys and kind tags of the envelope are faithfully carried
/// strings.
proof fn lemma_keys_wf()
    ensures
        wf_str("Request"@),
        wf_str("Response"@),
        wf_str("Event"@),
        wf_str("Stream"@),
        wf_str("id"@),
        wf_str("command"@),
        wf_str("payload"@),
        wf_str("code"@),
        wf_str("msg"@),
        wf_str("data"@),
        wf_str("event"@),
        wf_str("tag"@),
        wf_str("bytes"@),
{
    reveal_strlit("Request");
    reveal_strlit("Response");
    reveal_strlit("Event");
    reveal_strlit("Stream");
    reveal_strlit("id");
    reveal_strlit("command");
    reveal_strlit("payload");
    reveal_strlit("code");
    reveal_strlit("msg");
    reveal_strlit("data");
    reveal_strlit("event");
    reveal_strlit("tag");
    reveal_strlit("bytes");
}

/// A rendered integer is a well-formed number literal.
proof fn lemma_int_text_wf(i: int)
    ensures
        wf_doc(JsonVal::Num(int_text(i))),
{
    crate::num::lemma_dec_digits(if i < 0 {
        (-i) as nat
    } else {
        i as nat
    });
    assert forall|q: int| 0 <= q < int_text(i).len() implies crate::json::is_num_char(
        #[trigger] int_text(i)[q],
    ) by {
        if i < 0 {
            if q > 0 {
                assert(int_text(i)[q] == dec_digits((-i) as nat)[q - 1]);
                assert(crate::num::is_digit(dec_digits((-i) as nat)[q - 1]));
            }
        } else {
            assert(crate::num::is_digit(dec_digits(i as nat)[q]));
        }
    }
}

/// The byte array of a media chunk is a well-formed document.
proof fn lemma_bytes_arr_wf(b: Seq<u8>)
    ensures
        wf_doc(JsonVal::Arr(bytes_arr(b))),
{
    assert forall|q: int| 0 <= q < bytes_arr(b).len() implies wf_doc(
        #[trigger] bytes_arr(b)[q],
    ) by {
        crate::num::lemma_dec_digits(b[q] as nat);
        assert(bytes_arr(b)[q] == JsonVal::Num(dec_digits(b[q] as nat)));
        assert forall|p: int| 0 <= p < dec_digits(b[q] as nat).len() implies crate::json::is_num_char(
            #[trigger] dec_digits(b[q] as nat)[p],
        ) by {
            assert(crate::num::is_digit(dec_digits(b[q] as nat)[p]));
        }
    }
}

/// The rendered fields of a faithfully-carried media chunk form a
/// well-formed document.
pub proof fn lemma_enc_stream_wf(st: StreamV)
    requires
        st.frame_wf(),
    ensures
        wf_doc(JsonVal::Obj(enc_stream_fields(st))),
{
    lemma_keys_wf();
    lemma_bytes_arr_wf(st.bytes);
    let fields = enc_stream_fields(st);
    assert forall|q: int| 0 <= q < fields.len() implies wf_str((#[trigger] fields[q]).0) && wf_doc(
        fields[q].1,
    ) by {
        match st.data {
            Some(d) => {
                assert(fields =~= seq![
                    ("id"@, JsonVal::Str(st.id)),
                    ("tag"@, JsonVal::Str(st.tag)),
                    ("bytes"@, JsonVal::Arr(bytes_arr(st.bytes))),
                    ("data"@, d),
                ]);
            },
            None => {
                assert(fields =~= seq![
                    ("id"@, JsonVal::Str(st.id)),
                    ("tag"@, JsonVal::Str(st.tag)),
                    ("bytes"@, JsonVal::Arr(bytes_arr(st.bytes))),
                ]);
            },
        }
    }
}

/// The encoding of a faithfully-carried envelope is a well-formed document.
pub proof fn lemma_enc_message_wf(m: AppMessageV)
    requires
        m.frame_wf(),
    ensures
        wf_doc(enc_message(m)),
{
    lemma_keys_wf();
    match m {
        AppMessageV::Request(r) => {
            let fields = enc_request_fields(r);
            assert forall|q: int| 0 <= q < fields.len() implies wf_str(
                (#[trigger] fields[q]).0,
            ) && wf_doc(fields[q].1) by {
                assert(fields =~= seq![
                    ("id"@, JsonVal::Str(r.id)),
                    ("command"@, JsonVal::Str(r.command)),
                    ("payload"@, opt_or_null(r.payload)),
                ]);
                match r.payload {
                    Some(p) => {},
                    None => {},
                }
            }
            assert(wf_doc(JsonVal::Obj(fields)));
            let outer = seq![("Request"@, JsonVal::Obj(fields))];
            assert forall|q: int| 0 <= q < outer.len() implies wf_str(
                (#[trigger] outer[q]).0,
            ) && wf_doc(outer[q].1) by {}
        },
        AppMessageV::Response(r) => {
            if r.code is Some {
                lemma_int_text_wf(r.code->Some_0 as int);
            }
            let fields = enc_response_fields(r);
            assert forall|q: int| 0 <= q < fields.len() implies wf_str(
                (#[trigger] fields[q]).0,
            ) && wf_doc(fields[q].1) by {
                let idm = ("id"@, JsonVal::Str(r.id));
                match (r.code, r.msg, r.data) {
                    (Some(c), Some(mg), Some(d)) => {
                        assert(fields =~= seq![
                            idm,
                            ("code"@, JsonVal::Num(int_text(c as int))),
                            ("msg"@, JsonVal::Str(mg)),
                            ("data"@, d),
                        ]);
                    },
                    (Some(c), Some(mg), None) => {
                        assert(fields =~= seq![
                            idm,
                            ("code"@, JsonVal::Num(int_text(c as int))),
                            ("msg"@, JsonVal::Str(mg)),
                        ]);
                    },
                    (Some(c), None, Some(d)) => {
                        assert(fields =~= seq![
                            idm,
                            ("code"@, JsonVal::Num(int_text(c as int))),
                            ("data"@, d),
                        ]);
                    },
                    (Some(c), None, None) => {
                        assert(fields =~= seq![idm, ("code"@, JsonVal::Num(int_text(c as int)))]);
                    },
                    (None, Some(mg), Some(d)) => {
                        assert(fields =~= seq![idm, ("msg"@, JsonVal::Str(mg)), ("data"@, d)]);
                    },
                    (None, Some(mg), None) => {
                        assert(fields =~= seq![idm, ("msg"@, JsonVal::Str(mg))]);
                    },
                    (None, None, Some(d)) => {
                        assert(fields =~= seq![idm, ("data"@, d)]);
                    },
                    (None, None, None) => {
                        assert(fields =~= seq![idm]);
                    },
                }
            }
            assert(wf_doc(JsonVal::Obj(fields)));
            let outer = seq![("Response"@, JsonVal::Obj(fields))];
            assert forall|q: int| 0 <= q < outer.len() implies wf_str(
                (#[trigger] outer[q]).0,
            ) && wf_doc(outer[q].1) by {}
        },
        AppMessageV::Event(e) => {
            let fields = enc_event_fields(e);
            assert forall|q: int| 0 <= q < fields.len() implies wf_str(
                (#[trigger] fields[q]).0,
            ) && wf_doc(fields[q].1) by {
                match e.data {
                    Some(d) => {
                        assert(fields =~= seq![
                            ("id"@, JsonVal::Str(e.id)),
                            ("event"@, JsonVal::Str(e.event)),
                            ("data"@, d),
                        ]);
                    },
                    None => {
                        assert(fields =~= seq![
                            ("id"@, JsonVal::Str(e.id)),
                            ("event"@, JsonVal::Str(e.event)),
                        ]);
                    },
                }
            }
            assert(wf_doc(JsonVal::Obj(fields)));
            let outer = seq![("Event"@, JsonVal::Obj(fields))];
            assert forall|q: int| 0 <= q < outer.len() implies wf_str(
                (#[trigger] outer[q]).0,
            ) && wf_doc(outer[q].1) by {}
        },
        AppMessageV::Stream(st) => {
            lemma_enc_stream_wf(st);
            let outer = seq![("Stream"@, JsonVal::Obj(enc_stream_fields(st)))];
            assert forall|q: int| 0 <= q < outer.len() implies wf_str(
                (#[trigger] outer[q]).0,
            ) && wf_doc(outer[q].1) by {}
        },
    }
}

/// Decoding an encoded media chunk returns the original chunk.
pub proof fn lemma_stream_round_trip(st: StreamV)
    requires
        st.wf(),
    ensures
        dec_stream(JsonVal::Obj(enc_stream_fields(st))) == Some(st),
{
    lemma_key_literals();
    lemma_bytes_round_trip(st.bytes);
    assert(dec_stream(JsonVal::Obj(enc_stream_fields(st))) == Some(st));
}

} // verus!
