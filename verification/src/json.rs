//! A JSON document model.
//!
//! Wire envelopes travel as JSON frames.  The library models a document as
//! [`JsonValue`]; numbers keep their literal digits (`Num` holds the text of
//! the literal), so a document survives a decode/encode cycle byte for byte
//! and the model never needs machine floating point.
//!
//! The codec is deliberately canonical on both sides: the printer emits one
//! compact rendering, and the parser accepts exactly that rendering — this
//! is what makes both directions provable, and both ends of the connection
//! speak this same codec.  A frame in any other JSON form is a decode
//! failure, which the router tolerates by dropping that frame; the
//! connection survives.
use vstd::prelude::*;
use vstd::string::{StringExecFns, StrSliceExecFns};
use crate::num::digit_char;

verus! {

broadcast use vstd::std_specs::vec::group_vec_axioms, vstd::seq::group_seq_axioms, vstd::string::group_string_axioms;

/// Mathematical model of a JSON document.
pub enum JsonVal {
    Null,
    Bool(bool),
    /// The text of the number literal, e.g. `-12` or `3.5e2`.
    Num(Seq<char>),
    Str(Seq<char>),
    Arr(Seq<JsonVal>),
    Obj(Seq<(Seq<char>, JsonVal)>),
}

/// A JSON document. Its view is a [`JsonVal`].
#[derive(Debug, PartialEq)]
pub enum JsonValue {
    Null,
    Bool(bool),
    /// The text of the number literal, e.g. `-12` or `3.5e2`.
    Num(String),
    Str(String),
    Arr(Vec<JsonValue>),
    Obj(Vec<(String, JsonValue)>),
}

impl View for JsonValue {
    type V = JsonVal;

    open spec fn view(&self) -> JsonVal
        decreases self,
    {
        match self {
            JsonValue::Null => JsonVal::Null,
            JsonValue::Bool(b) => JsonVal::Bool(*b),
            JsonValue::Num(s) => JsonVal::Num(s@),
            JsonValue::Str(s) => JsonVal::Str(s@),
            JsonValue::Arr(items) => JsonVal::Arr(arr_view(items@)),
            JsonValue::Obj(members) => JsonVal::Obj(obj_view(members@)),
        }
    }
}

/// The views of the elements of a JSON array, in order.
pub open spec fn arr_view(items: Seq<JsonValue>) -> Seq<JsonVal>
    decreases items,
{
    if items.len() == 0 {
        Seq::empty()
    } else {
        arr_view(items.drop_last()).push(items.last()@)
    }
}

/// The views of the members of a JSON object, in order.
pub open spec fn obj_view(members: Seq<(String, JsonValue)>) -> Seq<(Seq<char>, JsonVal)>
    decreases members,
{
    if members.len() == 0 {
        Seq::empty()
    } else {
        obj_view(members.drop_last()).push((members.last().0@, members.last().1@))
    }
}

/// `arr_view` maps the sequence pointwise.
pub broadcast proof fn lemma_arr_view(items: Seq<JsonValue>)
    ensures
        arr_view(items).len() == items.len(),
        forall|i: int| 0 <= i < items.len() ==> #[trigger] arr_view(items)[i] == items[i]@,
    decreases items,
{
    if items.len() > 0 {
        lemma_arr_view(items.drop_last());
        assert(arr_view(items.drop_last()).len() == items.drop_last().len());
        assert(items.drop_last().len() == items.len() - 1);
        assert(arr_view(items) == arr_view(items.drop_last()).push(items.last()@));
        assert(arr_view(items).len() == items.len());
        assert forall|i: int| 0 <= i < items.len() implies #[trigger] arr_view(items)[i] == items[i]@ by {
            if i < items.len() - 1 {
                assert(items.drop_last()[i] == items[i]);
                assert(arr_view(items.drop_last())[i] == items.drop_last()[i]@);
            } else {
                assert(items.last() == items[i]);
            }
        }
    }
}

/// `obj_view` maps the sequence pointwise.
pub broadcast proof fn lemma_obj_view(members: Seq<(String, JsonValue)>)
    ensures
        obj_view(members).len() == members.len(),
        forall|i: int|
            0 <= i < members.len() ==> #[trigger] obj_view(members)[i] == (
                members[i].0@,
                members[i].1@,
            ),
    decreases members,
{
    if members.len() > 0 {
        lemma_obj_view(members.drop_last());
        assert(obj_view(members.drop_last()).len() == members.drop_last().len());
        assert(members.drop_last().len() == members.len() - 1);
        assert(obj_view(members) == obj_view(members.drop_last()).push(
            (members.last().0@, members.last().1@),
        ));
        assert(obj_view(members).len() == members.len());
        assert forall|i: int|
            0 <= i < members.len() implies #[trigger] obj_view(members)[i] == (
                members[i].0@,
                members[i].1@,
            ) by {
            if i < members.len() - 1 {
                assert(members.drop_last()[i] == members[i]);
                assert(obj_view(members.drop_last())[i] == (
                    members.drop_last()[i].0@,
                    members.drop_last()[i].1@,
                ));
            } else {
                assert(members.last() == members[i]);
            }
        }
    }
}


/// The character for hex digit `d`, lowercase.
pub open spec fn hex_char(d: nat) -> char
    recommends
        d < 16,
{
    if d < 10 {
        digit_char(d)
    } else {
        ((87 + d) as u8) as char
    }
}

/// How one character appears inside a JSON string literal.
pub open spec fn esc_char(c: char) -> Seq<char> {
    if c == '"' {
        seq!['\\', '"']
    } else if c == '\\' {
        seq!['\\', '\\']
    } else if c == '\u{8}' {
        seq!['\\', 'b']
    } else if c == '\t' {
        seq!['\\', 't']
    } else if c == '\n' {
        seq!['\\', 'n']
    } else if c == '\u{c}' {
        seq!['\\', 'f']
    } else if c == '\r' {
        seq!['\\', 'r']
    } else if (c as u32) < 32 {
        seq!['\\', 'u', '0', '0', hex_char((c as u32 / 16) as nat), hex_char((c as u32 % 16) as nat)]
    } else {
        seq![c]
    }
}

/// The body of a JSON string literal: every character escaped as needed.
pub open spec fn esc_text(s: Seq<char>) -> Seq<char>
    decreases s.len(),
{
    if s.len() == 0 {
        Seq::empty()
    } else {
        esc_text(s.drop_last()) + esc_char(s.last())
    }
}

/// The compact JSON text of a document: no whitespace, members in order.
pub open spec fn json_text(v: JsonVal) -> Seq<char>
    decreases v,
{
    match v {
        JsonVal::Null => "null"@,
        JsonVal::Bool(b) => if b {
            "true"@
        } else {
            "false"@
        },
        JsonVal::Num(t) => t,
        JsonVal::Str(s) => seq!['"'] + esc_text(s) + seq!['"'],
        JsonVal::Arr(items) => seq!['['] + arr_text(items) + seq![']'],
        JsonVal::Obj(members) => seq!['{'] + obj_text(members) + seq!['}'],
    }
}

/// The comma-separated texts of array elements.
pub open spec fn arr_text(items: Seq<JsonVal>) -> Seq<char>
    decreases items,
{
    if items.len() == 0 {
        Seq::empty()
    } else if items.len() == 1 {
        json_text(items[0])
    } else {
        arr_text(items.drop_last()) + seq![','] + json_text(items.last())
    }
}

/// The text of one object member: quoted key, colon, value.
pub open spec fn member_text(m: (Seq<char>, JsonVal)) -> Seq<char>
    decreases m,
{
    seq!['"'] + esc_text(m.0) + seq!['"', ':'] + json_text(m.1)
}

/// The comma-separated texts of object members.
pub open spec fn obj_text(members: Seq<(Seq<char>, JsonVal)>) -> Seq<char>
    decreases members,
{
    if members.len() == 0 {
        Seq::empty()
    } else if members.len() == 1 {
        member_text(members[0])
    } else {
        obj_text(members.drop_last()) + seq![','] + member_text(members.last())
    }
}


/// The character for hex digit `d`, lowercase.
fn hex_char_exec(d: u32) -> (c: char)
    requires
        d < 16,
    ensures
        c == hex_char(d as nat),
{
    if d < 10 {
        (48 + d as u8) as char
    } else {
        (87 + d as u8) as char
    }
}

/// Appends the escaped body of a JSON string literal.
fn write_json_string(s: &str, out: &mut String)
    ensures
        final(out)@ == old(out)@ + seq!['"'] + esc_text(s@) + seq!['"'],
{
    out.push('"');
    let len = s.unicode_len();
    let mut i: usize = 0;
    while i < len
        invariant
            0 <= i <= len,
            len == s@.len(),
            out@ == old(out)@ + seq!['"'] + esc_text(s@.take(i as int)),
        decreases len - i,
    {
        let c = s.get_char(i);
        let cu = c as u32;
        if c == '"' {
            out.push('\\');
            out.push('"');
        } else if c == '\\' {
            out.push('\\');
            out.push('\\');
        } else if cu == 8 {
            out.push('\\');
            out.push('b');
        } else if cu == 9 {
            out.push('\\');
            out.push('t');
        } else if cu == 10 {
            out.push('\\');
            out.push('n');
        } else if cu == 12 {
            out.push('\\');
            out.push('f');
        } else if cu == 13 {
            out.push('\\');
            out.push('r');
        } else if cu < 32 {
            out.push('\\');
            out.push('u');
            out.push('0');
            out.push('0');
            out.push(hex_char_exec(cu / 16));
            out.push(hex_char_exec(cu % 16));
        } else {
            out.push(c);
        }
        proof {
            let t = s@.take(i as int + 1);
            assert(t.drop_last() =~= s@.take(i as int));
            assert(t.last() == c);
            assert(('\u{8}' as u32) == 8 && ('\t' as u32) == 9 && ('\n' as u32) == 10 && (
            '\u{c}' as u32) == 12 && ('\r' as u32) == 13);
            if cu == 8 {
                assert(c == '\u{8}');
            }
            if cu == 9 {
                assert(c == '\t');
            }
            if cu == 10 {
                assert(c == '\n');
            }
            if cu == 12 {
                assert(c == '\u{c}');
            }
            if cu == 13 {
                assert(c == '\r');
            }
            assert(out@ =~= old(out)@ + seq!['"'] + esc_text(t));
        }
        i = i + 1;
    }
    out.push('"');
    proof {
        assert(s@.take(len as int) =~= s@);
        assert(out@ =~= old(out)@ + seq!['"'] + esc_text(s@) + seq!['"']);
    }
}

/// Appends the compact JSON text of `v`.
#[verifier::loop_isolation(false)]
pub fn write_json(v: &JsonValue, out: &mut String)
    ensures
        final(out)@ == old(out)@ + json_text(v@),
    decreases v,
{
    match v {
        JsonValue::Null => {
            out.append("null");
        },
        JsonValue::Bool(b) => {
            if *b {
                out.append("true");
            } else {
                out.append("false");
            }
        },
        JsonValue::Num(t) => {
            out.append(t.as_str());
        },
        JsonValue::Str(t) => {
            write_json_string(t.as_str(), out);
        },
        JsonValue::Arr(items) => {
            out.push('[');
            let ghost iv = arr_view(items@);
            proof {
                lemma_arr_view(items@);
            }
            let mut i: usize = 0;
            while i < items.len()
                invariant
                    0 <= i <= items@.len(),
                    iv == arr_view(items@),
                    iv.len() == items@.len(),
                    forall|j: int| 0 <= j < items@.len() ==> #[trigger] iv[j] == items@[j]@,
                    out@ == old(out)@ + seq!['['] + arr_text(iv.take(i as int)),
                decreases items@.len() - i,
            {
                if i > 0 {
                    out.push(',');
                }
                write_json(&items[i], out);
                proof {
                    let t = iv.take(i as int + 1);
                    assert(t.drop_last() =~= iv.take(i as int));
                    assert(t.last() == iv[i as int]);
                    if i == 0 {
                        assert(arr_text(t) == json_text(iv[0]));
                    }
                    assert(out@ =~= old(out)@ + seq!['['] + arr_text(t));
                }
                i = i + 1;
            }
            out.push(']');
            proof {
                assert(iv.take(items@.len() as int) =~= iv);
                assert(out@ =~= old(out)@ + json_text(JsonVal::Arr(iv)));
            }
        },
        JsonValue::Obj(members) => {
            out.push('{');
            let ghost mv = obj_view(members@);
            proof {
                lemma_obj_view(members@);
            }
            let mut i: usize = 0;
            while i < members.len()
                invariant
                    0 <= i <= members@.len(),
                    mv == obj_view(members@),
                    mv.len() == members@.len(),
                    forall|j: int|
                        0 <= j < members@.len() ==> #[trigger] mv[j] == (
                            members@[j].0@,
                            members@[j].1@,
                        ),
                    out@ == old(out)@ + seq!['{'] + obj_text(mv.take(i as int)),
                decreases members@.len() - i,
            {
                if i > 0 {
                    out.push(',');
                }
                let m = &members[i];
                proof {
                    assert(mv[i as int] == (members@[i as int].0@, members@[i as int].1@));
                    assert(mv[i as int].0 == members@[i as int].0@);
                    assert(mv[i as int].1 == members@[i as int].1@);
                }
                write_json_string(m.0.as_str(), out);
                out.push(':');
                write_json(&m.1, out);
                proof {
                    let t = mv.take(i as int + 1);
                    assert(t.drop_last() =~= mv.take(i as int));
                    assert(t.last() == mv[i as int]);
                    assert(member_text(mv[i as int]) == seq!['"'] + esc_text(
                        members@[i as int].0@,
                    ) + seq!['"', ':'] + json_text(members@[i as int].1@));
                    if i == 0 {
                        assert(obj_text(t) == member_text(mv[0]));
                    } else {
                        assert(obj_text(t) == obj_text(t.drop_last()) + seq![','] + member_text(
                            t.last(),
                        ));
                    }
                    assert(out@ =~= old(out)@ + seq!['{'] + obj_text(t));
                }
                i = i + 1;
            }
            out.push('}');
            proof {
                assert(mv.take(members@.len() as int) =~= mv);
                assert(out@ =~= old(out)@ + json_text(JsonVal::Obj(mv)));
            }
        },
    }
}

/// The compact JSON text of a document.
pub fn json_to_text(v: &JsonValue) -> (s: String)
    ensures
        s@ == json_text(v@),
{
    let mut out = String::new();
    write_json(v, &mut out);
    proof {
        assert(out@ =~= json_text(v@));
    }
    out
}


/// Whether `c` can appear in a number literal scan.
pub open spec fn is_num_char(c: char) -> bool {
    crate::num::is_digit(c) || c == '-' || c == '+' || c == '.' || c == 'e' || c == 'E'
}

fn is_num_char_exec(c: char) -> (r: bool)
    ensures
        r == is_num_char(c),
{
    let cu = c as u32;
    (48 <= cu && cu <= 57) || c == '-' || c == '+' || c == '.' || c == 'e' || c == 'E'
}

/// Reads a string literal body starting after the opening quote; stops past
/// the closing quote.  Accepts exactly the escapes the printer emits, and
/// accepts every body the printer emits: whenever the text from `start` is
/// the escaped body of a faithfully-carried string `w` plus the closing
/// quote, the parse succeeds and returns exactly `w`.
#[verifier::loop_isolation(false)]
fn parse_json_string(s: &str, start: usize) -> (r: Option<(String, usize)>)
    requires
        start <= s@.len(),
    ensures
        match r {
            Some((t, j)) => start <= j <= s@.len() && s@.subrange(start as int, j as int)
                == esc_text(t@) + seq!['"'],
            None => true,
        },
        forall|w: Seq<char>, j: int| #[trigger] str_body_at(s@, start as int, j, w)
            ==> (r matches Some(p) && p.1 == j && p.0@ == w),
{
    let len = s.unicode_len();
    let mut out = String::new();
    let mut k: usize = start;
    proof {
        assert forall|w: Seq<char>, j: int| #[trigger] str_body_at(s@, start as int, j, w)
            implies out@.len() <= w.len() && out@ == w.take(out@.len() as int) && k as int <= j
            && s@.subrange(k as int, j) == esc_text_from(w, out@.len() as int) + seq!['"'] by {
            lemma_esc_text_from(w, 0);
            assert(esc_text(w.take(0)) == Seq::<char>::empty());
            assert(out@ =~= w.take(0));
            assert(esc_text(w) =~= esc_text_from(w, 0));
        }
    }
    loop
        invariant
            start <= k <= len,
            len == s@.len(),
            s@.subrange(start as int, k as int) == esc_text(out@),
            forall|w: Seq<char>, j: int| #[trigger] str_body_at(s@, start as int, j, w)
                ==> out@.len() <= w.len() && out@ == w.take(out@.len() as int) && k as int <= j
                && s@.subrange(k as int, j) == esc_text_from(w, out@.len() as int) + seq!['"'],
        decreases len - k,
    {
        let ghost m = out@.len() as int;
        if k >= len {
            proof {
                assert forall|w: Seq<char>, j: int| !str_body_at(s@, start as int, j, w) by {
                    if str_body_at(s@, start as int, j, w) {
                        assert(s@.subrange(k as int, j).len() == j - k);
                        assert((esc_text_from(w, m) + seq!['"']).len() >= 1);
                    }
                }
            }
            return None;
        }
        let c = s.get_char(k);
        let cu = c as u32;
        if c == '"' {
            proof {
                assert(s@.subrange(start as int, k as int + 1) =~= esc_text(out@) + seq!['"']);
                assert forall|w: Seq<char>, j: int| #[trigger] str_body_at(s@, start as int, j, w)
                    implies j == k as int + 1 && out@ == w by {
                    if m < w.len() {
                        lemma_esc_char_head(w[m]);
                        lemma_consume_escaped(s@, k as int, j, w, m, esc_char(w[m]).len() as int);
                        assert(s@[k as int] == esc_char(w[m])[0]);
                    }
                    assert(m == w.len());
                    assert(esc_text_from(w, m) == Seq::<char>::empty());
                    assert(s@.subrange(k as int, j) =~= seq!['"']);
                    assert(j - k == 1);
                    assert(out@ =~= w);
                }
            }
            return Some((out, k + 1));
        } else if c == '\\' {
            if len - k < 2 {
                proof {
                    assert forall|w: Seq<char>, j: int| !str_body_at(s@, start as int, j, w) by {
                        if str_body_at(s@, start as int, j, w) {
                            if m < w.len() {
                                lemma_esc_char_head(w[m]);
                                lemma_consume_escaped(
                                    s@,
                                    k as int,
                                    j,
                                    w,
                                    m,
                                    esc_char(w[m]).len() as int,
                                );
                                assert(s@[k as int] == esc_char(w[m])[0]);
                                assert(esc_char(w[m]).len() >= 2);
                                assert(j <= len);
                            } else {
                                assert(s@.subrange(k as int, j) =~= seq!['"']);
                                assert(s@.subrange(k as int, j).len() == 1);
                                assert(s@.subrange(k as int, j)[0] == s@[k as int]);
                                assert(s@[k as int] == '"');
                            }
                        }
                    }
                }
                return None;
            }
            let e = s.get_char(k + 1);
            proof {
                assert forall|w: Seq<char>, j: int| #[trigger] str_body_at(s@, start as int, j, w)
                    implies m < w.len() && esc_char(w[m])[0] == '\\' && esc_char(w[m])[1]
                    == e && (esc_char(w[m]).len() == 2 || esc_char(w[m]).len() == 6) by {
                    if m == w.len() {
                        assert(s@.subrange(k as int, j) =~= seq!['"']);
                        assert(s@.subrange(k as int, j).len() == 1);
                        assert(s@.subrange(k as int, j)[0] == s@[k as int]);
                        assert(s@[k as int] == '"');
                    }
                    lemma_esc_char_head(w[m]);
                    lemma_consume_escaped(s@, k as int, j, w, m, esc_char(w[m]).len() as int);
                    assert(s@[k as int] == esc_char(w[m])[0]);
                    assert(s@[k as int + 1] == esc_char(w[m])[1]);
                }
            }
            let unescaped: char = if e == '"' {
                '"'
            } else if e == '\\' {
                '\\'
            } else if e == 'b' {
                '\u{8}'
            } else if e == 't' {
                '\t'
            } else if e == 'n' {
                '\n'
            } else if e == 'f' {
                '\u{c}'
            } else if e == 'r' {
                '\r'
            } else if e == 'u' {
                if len - k < 6 {
                    proof {
                        assert forall|w: Seq<char>, j: int| !str_body_at(
                            s@,
                            start as int,
                            j,
                            w,
                        ) by {
                            if str_body_at(s@, start as int, j, w) {
                                lemma_consume_escaped(
                                    s@,
                                    k as int,
                                    j,
                                    w,
                                    m,
                                    esc_char(w[m]).len() as int,
                                );
                                assert(esc_char(w[m]).len() == 6);
                            }
                        }
                    }
                    return None;
                }
                proof {
                    assert forall|w: Seq<char>, j: int| #[trigger] str_body_at(
                        s@,
                        start as int,
                        j,
                        w,
                    ) implies esc_char(w[m]).len() == 6 && (w[m] as u32) < 32 && s@[k as int + 2]
                        == '0' && s@[k as int + 3] == '0' && s@[k as int + 4] == hex_char(
                        ((w[m] as u32) / 16) as nat,
                    ) && s@[k as int + 5] == hex_char(((w[m] as u32) % 16) as nat) by {
                        lemma_consume_escaped(s@, k as int, j, w, m, esc_char(w[m]).len() as int);
                    }
                }
                if !(s.get_char(k + 2) == '0' && s.get_char(k + 3) == '0') {
                    return None;
                }
                let h1 = s.get_char(k + 4);
                let h2 = s.get_char(k + 5);
                let (d1, d2) = match (hex_val(h1), hex_val(h2)) {
                    (Some(d1), Some(d2)) => (d1, d2),
                    _ => {
                        proof {
                            assert forall|w: Seq<char>, j: int| !str_body_at(
                                s@,
                                start as int,
                                j,
                                w,
                            ) by {
                                if str_body_at(s@, start as int, j, w) {
                                    let x = w[m];
                                    assert(h1 == hex_char(((x as u32) / 16) as nat));
                                    assert(h2 == hex_char(((x as u32) % 16) as nat));
                                    assert(((x as u32) / 16) < 16 && ((x as u32) % 16) < 16);
                                }
                            }
                        }
                        return None;
                    },
                };
                let cu2 = d1 * 16 + d2;
                if cu2 >= 32 || cu2 == 8 || cu2 == 9 || cu2 == 10 || cu2 == 12 || cu2 == 13 {
                    proof {
                        assert forall|w: Seq<char>, j: int| !str_body_at(
                            s@,
                            start as int,
                            j,
                            w,
                        ) by {
                            if str_body_at(s@, start as int, j, w) {
                                let x = w[m];
                                lemma_hex_char_inj(d1 as nat, ((x as u32) / 16) as nat);
                                lemma_hex_char_inj(d2 as nat, ((x as u32) % 16) as nat);
                                assert(cu2 == x as u32);
                                assert(8u8 as char == '\u{8}');
                                assert(9u8 as char == '\t');
                                assert(10u8 as char == '\n');
                                assert(12u8 as char == '\u{c}');
                                assert(13u8 as char == '\r');
                                assert(wf_str_char(x));
                                assert(((x as u32) as u8) as char == x);
                            }
                        }
                    }
                    return None;
                }
                let c2 = (cu2 as u8) as char;
                let ghost oldout = out@;
                proof {
                    assert forall|w: Seq<char>, j: int| #[trigger] str_body_at(
                        s@,
                        start as int,
                        j,
                        w,
                    ) implies oldout.push(c2).len() <= w.len() && oldout.push(c2) == w.take(
                        oldout.push(c2).len() as int,
                    ) && k as int + 6 <= j && s@.subrange(k as int + 6, j) == esc_text_from(
                        w,
                        oldout.push(c2).len() as int,
                    ) + seq!['"'] by {
                        let x = w[m];
                        lemma_hex_char_inj(d1 as nat, ((x as u32) / 16) as nat);
                        lemma_hex_char_inj(d2 as nat, ((x as u32) % 16) as nat);
                        assert(cu2 == x as u32);
                        assert(wf_str_char(x));
                        assert(8u8 as char == '\u{8}');
                        assert(9u8 as char == '\t');
                        assert(10u8 as char == '\n');
                        assert(12u8 as char == '\u{c}');
                        assert(13u8 as char == '\r');
                        assert(((x as u32) as u8) as char == x);
                        assert(c2 == x);
                        lemma_consume_escaped(s@, k as int, j, w, m, 6);
                        assert(w.take(m + 1) =~= w.take(m).push(x));
                    }
                    assert(s@.subrange(start as int, k as int + 6) =~= esc_text(oldout) + esc_char(
                        c2,
                    ));
                    assert(esc_text(oldout.push(c2)) == esc_text(oldout.push(c2).drop_last())
                        + esc_char(oldout.push(c2).last()));
                    assert(oldout.push(c2).drop_last() =~= oldout);
                }
                out.push(c2);
                k = k + 6;
                continue ;
            } else {
                proof {
                    assert forall|w: Seq<char>, j: int| !str_body_at(s@, start as int, j, w) by {
                        if str_body_at(s@, start as int, j, w) {
                            let x = w[m];
                            assert(esc_char(x)[1] == e);
                        }
                    }
                }
                return None;
            };
            let ghost oldout = out@;
            proof {
                assert forall|w: Seq<char>, j: int| #[trigger] str_body_at(s@, start as int, j, w)
                    implies oldout.push(unescaped).len() <= w.len() && oldout.push(unescaped)
                    == w.take(oldout.push(unescaped).len() as int) && k as int + 2 <= j
                    && s@.subrange(k as int + 2, j) == esc_text_from(
                    w,
                    oldout.push(unescaped).len() as int,
                ) + seq!['"'] by {
                    let x = w[m];
                    assert(esc_char(x)[1] == e);
                    assert(x == unescaped);
                    assert(esc_char(x).len() == 2);
                    lemma_consume_escaped(s@, k as int, j, w, m, 2);
                    assert(w.take(m + 1) =~= w.take(m).push(x));
                }
                assert(esc_char(unescaped) == seq!['\\', e]);
                assert(s@.subrange(start as int, k as int + 2) =~= esc_text(oldout) + esc_char(
                    unescaped,
                ));
                assert(esc_text(oldout.push(unescaped)) == esc_text(
                    oldout.push(unescaped).drop_last(),
                ) + esc_char(oldout.push(unescaped).last()));
                assert(oldout.push(unescaped).drop_last() =~= oldout);
            }
            out.push(unescaped);
            k = k + 2;
        } else if cu < 32 {
            proof {
                assert forall|w: Seq<char>, j: int| !str_body_at(s@, start as int, j, w) by {
                    if str_body_at(s@, start as int, j, w) {
                        if m == w.len() {
                            assert(s@.subrange(k as int, j) =~= seq!['"']);
                            assert(s@.subrange(k as int, j).len() == 1);
                            assert(s@.subrange(k as int, j)[0] == s@[k as int]);
                            assert(s@[k as int] == '"');
                            assert(('"' as u32) >= 32);
                        } else {
                            lemma_esc_char_head(w[m]);
                            lemma_consume_escaped(
                                s@,
                                k as int,
                                j,
                                w,
                                m,
                                esc_char(w[m]).len() as int,
                            );
                            assert(s@[k as int] == esc_char(w[m])[0]);
                            assert(('\\' as u32) >= 32);
                        }
                    }
                }
            }
            return None;
        } else {
            let ghost oldout = out@;
            proof {
                assert forall|w: Seq<char>, j: int| #[trigger] str_body_at(s@, start as int, j, w)
                    implies oldout.push(c).len() <= w.len() && oldout.push(c) == w.take(
                    oldout.push(c).len() as int,
                ) && k as int + 1 <= j && s@.subrange(k as int + 1, j) == esc_text_from(
                    w,
                    oldout.push(c).len() as int,
                ) + seq!['"'] by {
                    if m == w.len() {
                        assert(s@.subrange(k as int, j) =~= seq!['"']);
                        assert(s@.subrange(k as int, j).len() == 1);
                        assert(s@.subrange(k as int, j)[0] == s@[k as int]);
                        assert(s@[k as int] == '"');
                    }
                    let x = w[m];
                    lemma_esc_char_head(x);
                    lemma_consume_escaped(s@, k as int, j, w, m, esc_char(x).len() as int);
                    assert(s@[k as int] == esc_char(x)[0]);
                    assert(esc_char(x)[0] != '\\');
                    assert(esc_char(x) == seq![x]);
                    assert(x == c);
                    lemma_consume_escaped(s@, k as int, j, w, m, 1);
                    assert(w.take(m + 1) =~= w.take(m).push(x));
                }
                assert(esc_char(c) == seq![c]);
                assert(s@.subrange(start as int, k as int + 1) =~= esc_text(oldout) + esc_char(c));
                assert(esc_text(oldout.push(c)) == esc_text(oldout.push(c).drop_last()) + esc_char(
                    oldout.push(c).last(),
                ));
                assert(oldout.push(c).drop_last() =~= oldout);
            }
            out.push(c);
            k = k + 1;
        }
    }
}

/// Distinct hex digits render as distinct characters.
proof fn lemma_hex_char_inj(a: nat, b: nat)
    requires
        a < 16,
        b < 16,
        hex_char(a) == hex_char(b),
    ensures
        a == b,
{
    assert(hex_char(a) as u32 == if a < 10 {
        48 + a
    } else {
        87 + a
    });
    assert(hex_char(b) as u32 == if b < 10 {
        48 + b
    } else {
        87 + b
    });
}

/// The value of a lowercase hex digit character: `Some` exactly on the
/// sixteen characters the printer uses.
fn hex_val(c: char) -> (r: Option<u32>)
    ensures
        match r {
            Some(d) => d < 16 && hex_char(d as nat) == c,
            None => forall|d: nat| d < 16 ==> c != hex_char(d),
        },
{
    let cu = c as u32;
    if 48 <= cu && cu <= 57 {
        Some(cu - 48)
    } else if 97 <= cu && cu <= 102 {
        Some(cu - 87)
    } else {
        proof {
            assert forall|d: nat| d < 16 implies c != hex_char(d) by {
                assert(hex_char(d) as u32 == if d < 10 {
                    48 + d
                } else {
                    87 + d
                });
            }
        }
        None
    }
}


/// Reads one object member: quoted key, colon, value.  Accepts every
/// member the printer emits: whenever the text from `k` is the rendering of
/// a well-formed member, the parse succeeds and returns exactly it.
#[verifier::loop_isolation(false)]
fn parse_json_member(s: &str, k: usize) -> (r: Option<((String, JsonValue), usize)>)
    requires
        k <= s@.len(),
    ensures
        match r {
            Some((m, j)) => k < j <= s@.len() && s@.subrange(k as int, j as int) == member_text(
                (m.0@, m.1@),
            ),
            None => true,
        },
        forall|m: (Seq<char>, JsonVal), j: int| #[trigger] member_at(s@, k as int, j, m) ==> (
        r matches Some(p) && p.1 == j && (p.0).0@ == m.0 && (p.0).1@ == m.1),
    decreases s@.len() - k, 1int,
{
    let len = s.unicode_len();
    if k >= len {
        proof {
            assert forall|m: (Seq<char>, JsonVal), j: int| !member_at(s@, k as int, j, m) by {}
        }
        return None;
    }
    if s.get_char(k) != '"' {
        proof {
            assert forall|m: (Seq<char>, JsonVal), j: int| !member_at(s@, k as int, j, m) by {
                if member_at(s@, k as int, j, m) {
                    lemma_member_decompose(s@, k as int, j, m);
                }
            }
        }
        return None;
    }
    let (key, jk) = match parse_json_string(s, k + 1) {
        Some(p) => p,
        None => {
            proof {
                assert forall|m: (Seq<char>, JsonVal), j: int| !member_at(s@, k as int, j, m) by {
                    if member_at(s@, k as int, j, m) {
                        lemma_member_decompose(s@, k as int, j, m);
                    }
                }
            }
            return None;
        },
    };
    proof {
        assert forall|m: (Seq<char>, JsonVal), j: int| #[trigger] member_at(s@, k as int, j, m)
            implies jk == k + 2 + esc_text(m.0).len() && key@ == m.0 && jk < j && s@[jk as int]
            == ':' && text_at(s@, jk as int + 1, j, m.1) by {
            lemma_member_decompose(s@, k as int, j, m);
        }
    }
    if jk >= len || s.get_char(jk) != ':' {
        proof {
            assert forall|m: (Seq<char>, JsonVal), j: int| !member_at(s@, k as int, j, m) by {
                if member_at(s@, k as int, j, m) {
                    assert(jk < j <= len);
                }
            }
        }
        return None;
    }
    let (v, j) = match parse_json_value(s, jk + 1) {
        Some(p) => p,
        None => {
            proof {
                assert forall|m: (Seq<char>, JsonVal), j: int| !member_at(s@, k as int, j, m) by {
                    if member_at(s@, k as int, j, m) {
                        assert(text_at(s@, jk as int + 1, j, m.1));
                    }
                }
            }
            return None;
        },
    };
    proof {
        assert forall|m: (Seq<char>, JsonVal), jc: int| #[trigger] member_at(s@, k as int, jc, m)
            implies j == jc && key@ == m.0 && v@ == m.1 by {
            assert(text_at(s@, jk as int + 1, jc, m.1));
        }
        assert(s@[k as int] == '"');
        assert(s@.subrange(k as int + 1, jk as int) == esc_text(key@) + seq!['"']);
        assert(s@.subrange(k as int + 1, jk as int).len() == jk - k - 1);
        assert((esc_text(key@) + seq!['"']).len() == esc_text(key@).len() + 1);
        assert(esc_text(key@).len() == jk - k - 2);
        assert(s@[jk as int] == ':');
        assert(s@.subrange(jk as int + 1, j as int) == json_text(v@));
        let a = s@.subrange(k as int, jk as int);
        assert(a =~= seq!['"'] + (esc_text(key@) + seq!['"']));
        let b = s@.subrange(k as int, jk as int + 1);
        assert(b =~= a + seq![':']);
        assert(b =~= seq!['"'] + esc_text(key@) + seq!['"', ':']);
        let full = s@.subrange(k as int, j as int);
        assert(full =~= b + s@.subrange(jk as int + 1, j as int));
        assert(full =~= seq!['"'] + esc_text(key@) + seq!['"', ':'] + json_text(v@));
        assert(member_text((key@, v@)) == seq!['"'] + esc_text(key@) + seq!['"', ':'] + json_text(
            v@,
        ));
    }
    Some(((key, v), j))
}

/// Reads one JSON array starting at its opening bracket.
#[verifier::loop_isolation(false)]
#[verifier::rlimit(60)]
fn parse_json_array(s: &str, i: usize) -> (r: Option<(JsonValue, usize)>)
    requires
        i < s@.len(),
        s@[i as int] == '[',
    ensures
        match r {
            Some((v, j)) => i < j <= s@.len() && s@.subrange(i as int, j as int) == json_text(v@),
            None => true,
        },
        forall|v: JsonVal, j: int| #[trigger] text_at(s@, i as int, j, v) ==> (r matches Some(p)
            && p.1 == j && p.0@ == v),
    decreases s@.len() - i, 0int,
{
    let len = s.unicode_len();
    let mut items: Vec<JsonValue> = Vec::new();
    if i + 1 < len && s.get_char(i + 1) == ']' {
        proof {
            lemma_arr_view(items@);
            assert(arr_view(items@) =~= Seq::<JsonVal>::empty());
            assert(s@.subrange(i as int, i as int + 2) =~= seq!['['] + arr_text(arr_view(items@))
                + seq![']']);
            assert forall|v: JsonVal, j: int| #[trigger] text_at(s@, i as int, j, v)
                implies v == JsonVal::Arr(Seq::<JsonVal>::empty()) && j == i + 2 by {
                lemma_arr_cand(s@, i as int, j, v);
                assert(v->Arr_0.len() == 0);
                assert(v->Arr_0 =~= Seq::<JsonVal>::empty());
            }
        }
        return Some((JsonValue::Arr(items), i + 2));
    }
    proof {
        assert forall|v: JsonVal, j: int| #[trigger] text_at(s@, i as int, j, v)
            implies v is Arr && v->Arr_0.len() > 0 && (forall|q: int|
            0 <= q < v->Arr_0.len() ==> wf_doc(#[trigger] v->Arr_0[q])) && s@.subrange(
            i as int + 1,
            j,
        ) == arr_text_from(v->Arr_0, 0) + seq![']'] by {
            lemma_arr_cand(s@, i as int, j, v);
            if v->Arr_0.len() == 0 {
                assert(j == i + 2 && s@[i as int + 1] == ']');
            }
        }
    }
    let mut k: usize = i + 1;
    loop
        invariant
            i < k <= len,
            len == s@.len(),
            forall|v: JsonVal, j: int| #[trigger] text_at(s@, i as int, j, v) ==> items@.len()
                < v->Arr_0.len() && arr_view(items@) == v->Arr_0.take(items@.len() as int)
                && k as int <= j && s@.subrange(k as int, j) == arr_text_from(
                v->Arr_0,
                items@.len() as int,
            ) + seq![']'] && (forall|q: int|
                0 <= q < v->Arr_0.len() ==> wf_doc(#[trigger] v->Arr_0[q])),
            items@.len() > 0 ==> s@.subrange(i as int + 1, k as int) == arr_text(arr_view(items@))
                + seq![','],
            items@.len() == 0 ==> k == i + 1,
        decreases len - k,
    {
        let ghost n = items@.len() as int;
        let ghost prev = arr_view(items@);
        proof {
            assert forall|v: JsonVal, j: int| #[trigger] text_at(s@, i as int, j, v)
                implies text_at(
                s@,
                k as int,
                k as int + json_text(v->Arr_0[n]).len(),
                v->Arr_0[n],
            ) by {
                lemma_arr_step(s@, k as int, j, v->Arr_0, n);
            }
        }
        let (el, rj) = match parse_json_value(s, k) {
            Some(p) => p,
            None => {
                proof {
                    assert forall|v: JsonVal, j: int| !text_at(s@, i as int, j, v) by {
                        if text_at(s@, i as int, j, v) {
                            assert(text_at(
                                s@,
                                k as int,
                                k as int + json_text(v->Arr_0[n]).len(),
                                v->Arr_0[n],
                            ));
                        }
                    }
                }
                return None;
            },
        };
        proof {
            assert forall|v: JsonVal, j: int| #[trigger] text_at(s@, i as int, j, v)
                implies rj as int == k as int + json_text(v->Arr_0[n]).len() && el@ == v->Arr_0[n]
                && rj < j by {
                lemma_arr_step(s@, k as int, j, v->Arr_0, n);
                assert(text_at(s@, k as int, k as int + json_text(v->Arr_0[n]).len(), v->Arr_0[n]));
            }
            lemma_arr_view(items@);
            lemma_arr_view(items@.push(el));
            assert(arr_view(items@.push(el)) =~= prev.push(el@));
            if items@.len() == 0 {
                assert(arr_text(prev.push(el@)) == json_text(el@));
                assert(s@.subrange(i as int + 1, rj as int) =~= json_text(el@));
            } else {
                assert(prev.push(el@).drop_last() =~= prev);
                assert(arr_text(prev.push(el@)) == arr_text(prev) + seq![','] + json_text(el@));
                assert(s@.subrange(i as int + 1, rj as int) =~= arr_text(prev) + seq![',']
                    + json_text(el@));
            }
        }
        items.push(el);
        proof {
            assert(arr_view(items@) == prev.push(el@));
            assert(s@.subrange(i as int + 1, rj as int) == arr_text(arr_view(items@)));
        }
        if rj >= len {
            proof {
                assert forall|v: JsonVal, j: int| !text_at(s@, i as int, j, v) by {}
            }
            return None;
        }
        let d = s.get_char(rj);
        if d == ']' {
            proof {
                assert forall|v: JsonVal, j: int| #[trigger] text_at(s@, i as int, j, v)
                    implies v == JsonVal::Arr(arr_view(items@)) && j == rj + 1 by {
                    lemma_arr_step(s@, k as int, j, v->Arr_0, n);
                    if n + 1 < v->Arr_0.len() {
                        assert(s@[rj as int] == ',');
                    }
                    assert(n + 1 == v->Arr_0.len());
                    assert(arr_view(items@) =~= v->Arr_0);
                }
                assert(s@.subrange(i as int, rj as int + 1) =~= seq!['['] + arr_text(
                    arr_view(items@),
                ) + seq![']']);
            }
            return Some((JsonValue::Arr(items), rj + 1));
        } else if d == ',' {
            proof {
                assert forall|v: JsonVal, j: int| #[trigger] text_at(s@, i as int, j, v)
                    implies items@.len() < v->Arr_0.len() && arr_view(items@) == v->Arr_0.take(
                    items@.len() as int,
                ) && rj as int + 1 <= j && s@.subrange(rj as int + 1, j) == arr_text_from(
                    v->Arr_0,
                    items@.len() as int,
                ) + seq![']'] by {
                    lemma_arr_step(s@, k as int, j, v->Arr_0, n);
                    if n + 1 == v->Arr_0.len() {
                        assert(s@[rj as int] == ']');
                    }
                    assert(n + 1 < v->Arr_0.len());
                    assert(v->Arr_0.take(n + 1) =~= v->Arr_0.take(n).push(v->Arr_0[n]));
                }
            }
            k = rj + 1;
            proof {
                assert(s@.subrange(i as int + 1, k as int) =~= arr_text(arr_view(items@)) + seq![
                    ',',
                ]);
            }
        } else {
            proof {
                assert forall|v: JsonVal, j: int| !text_at(s@, i as int, j, v) by {
                    if text_at(s@, i as int, j, v) {
                        lemma_arr_step(s@, k as int, j, v->Arr_0, n);
                        if n + 1 < v->Arr_0.len() {
                            assert(s@[rj as int] == ',');
                        } else {
                            assert(s@[rj as int] == ']');
                        }
                    }
                }
            }
            return None;
        }
    }
}

/// Reads one JSON object starting at its opening brace.
#[verifier::loop_isolation(false)]
#[verifier::rlimit(60)]
fn parse_json_object(s: &str, i: usize) -> (r: Option<(JsonValue, usize)>)
    requires
        i < s@.len(),
        s@[i as int] == '{',
    ensures
        match r {
            Some((v, j)) => i < j <= s@.len() && s@.subrange(i as int, j as int) == json_text(v@),
            None => true,
        },
        forall|v: JsonVal, j: int| #[trigger] text_at(s@, i as int, j, v) ==> (r matches Some(p)
            && p.1 == j && p.0@ == v),
    decreases s@.len() - i, 0int,
{
    let len = s.unicode_len();
    let mut members: Vec<(String, JsonValue)> = Vec::new();
    if i + 1 < len && s.get_char(i + 1) == '}' {
        proof {
            lemma_obj_view(members@);
            assert(obj_view(members@) =~= Seq::<(Seq<char>, JsonVal)>::empty());
            assert(s@.subrange(i as int, i as int + 2) =~= seq!['{'] + obj_text(obj_view(members@))
                + seq!['}']);
            assert forall|v: JsonVal, j: int| #[trigger] text_at(s@, i as int, j, v)
                implies v == JsonVal::Obj(Seq::<(Seq<char>, JsonVal)>::empty()) && j == i + 2 by {
                lemma_obj_cand(s@, i as int, j, v);
                if v->Obj_0.len() > 0 {
                    assert(s@[i as int + 1] == '"');
                }
                assert(v->Obj_0.len() == 0);
                assert(v->Obj_0 =~= Seq::<(Seq<char>, JsonVal)>::empty());
            }
        }
        return Some((JsonValue::Obj(members), i + 2));
    }
    proof {
        assert forall|v: JsonVal, j: int| #[trigger] text_at(s@, i as int, j, v)
            implies v is Obj && v->Obj_0.len() > 0 && (forall|q: int|
            0 <= q < v->Obj_0.len() ==> wf_str((#[trigger] v->Obj_0[q]).0) && wf_doc(
                v->Obj_0[q].1,
            )) && s@.subrange(i as int + 1, j) == obj_text_from(v->Obj_0, 0) + seq!['}'] by {
            lemma_obj_cand(s@, i as int, j, v);
            if v->Obj_0.len() == 0 {
                assert(j == i + 2 && s@[i as int + 1] == '}');
            }
        }
    }
    let mut k: usize = i + 1;
    loop
        invariant
            i < k <= len,
            len == s@.len(),
            forall|v: JsonVal, j: int| #[trigger] text_at(s@, i as int, j, v) ==> members@.len()
                < v->Obj_0.len() && obj_view(members@) == v->Obj_0.take(members@.len() as int)
                && k as int <= j && s@.subrange(k as int, j) == obj_text_from(
                v->Obj_0,
                members@.len() as int,
            ) + seq!['}'] && (forall|q: int|
                0 <= q < v->Obj_0.len() ==> wf_str((#[trigger] v->Obj_0[q]).0) && wf_doc(
                    v->Obj_0[q].1,
                )),
            members@.len() > 0 ==> s@.subrange(i as int + 1, k as int) == obj_text(
                obj_view(members@),
            ) + seq![','],
            members@.len() == 0 ==> k == i + 1,
        decreases len - k,
    {
        let ghost n = members@.len() as int;
        let ghost prev = obj_view(members@);
        proof {
            assert forall|v: JsonVal, j: int| #[trigger] text_at(s@, i as int, j, v)
                implies member_at(
                s@,
                k as int,
                k as int + member_text(v->Obj_0[n]).len(),
                v->Obj_0[n],
            ) by {
                lemma_obj_step(s@, k as int, j, v->Obj_0, n);
            }
        }
        let (kv, rj) = match parse_json_member(s, k) {
            Some(p) => p,
            None => {
                proof {
                    assert forall|v: JsonVal, j: int| !text_at(s@, i as int, j, v) by {
                        if text_at(s@, i as int, j, v) {
                            assert(member_at(
                                s@,
                                k as int,
                                k as int + member_text(v->Obj_0[n]).len(),
                                v->Obj_0[n],
                            ));
                        }
                    }
                }
                return None;
            },
        };
        let (key, el) = kv;
        proof {
            assert forall|v: JsonVal, j: int| #[trigger] text_at(s@, i as int, j, v)
                implies rj as int == k as int + member_text(v->Obj_0[n]).len() && key@
                == v->Obj_0[n].0 && el@ == v->Obj_0[n].1 && rj < j by {
                lemma_obj_step(s@, k as int, j, v->Obj_0, n);
                assert(member_at(
                    s@,
                    k as int,
                    k as int + member_text(v->Obj_0[n]).len(),
                    v->Obj_0[n],
                ));
            }
            lemma_obj_view(members@);
            lemma_obj_view(members@.push((key, el)));
            assert(obj_view(members@.push((key, el))) =~= prev.push((key@, el@)));
            if members@.len() == 0 {
                assert(obj_text(prev.push((key@, el@))) == member_text((key@, el@)));
                assert(s@.subrange(i as int + 1, rj as int) =~= member_text((key@, el@)));
            } else {
                assert(prev.push((key@, el@)).drop_last() =~= prev);
                assert(obj_text(prev.push((key@, el@))) == obj_text(prev) + seq![','] + member_text(
                    (key@, el@),
                ));
                assert(s@.subrange(i as int + 1, rj as int) =~= obj_text(prev) + seq![',']
                    + member_text((key@, el@)));
            }
        }
        members.push((key, el));
        proof {
            assert(obj_view(members@) == prev.push((key@, el@)));
            assert(s@.subrange(i as int + 1, rj as int) == obj_text(obj_view(members@)));
        }
        if rj >= len {
            proof {
                assert forall|v: JsonVal, j: int| !text_at(s@, i as int, j, v) by {}
            }
            return None;
        }
        let d = s.get_char(rj);
        if d == '}' {
            proof {
                assert forall|v: JsonVal, j: int| #[trigger] text_at(s@, i as int, j, v)
                    implies v == JsonVal::Obj(obj_view(members@)) && j == rj + 1 by {
                    lemma_obj_step(s@, k as int, j, v->Obj_0, n);
                    if n + 1 < v->Obj_0.len() {
                        assert(s@[rj as int] == ',');
                    }
                    assert(n + 1 == v->Obj_0.len());
                    assert(obj_view(members@) =~= v->Obj_0);
                }
                assert(s@.subrange(i as int, rj as int + 1) =~= seq!['{'] + obj_text(
                    obj_view(members@),
                ) + seq!['}']);
            }
            return Some((JsonValue::Obj(members), rj + 1));
        } else if d == ',' {
            proof {
                assert forall|v: JsonVal, j: int| #[trigger] text_at(s@, i as int, j, v)
                    implies members@.len() < v->Obj_0.len() && obj_view(members@)
                    == v->Obj_0.take(members@.len() as int) && rj as int + 1 <= j && s@.subrange(
                    rj as int + 1,
                    j,
                ) == obj_text_from(v->Obj_0, members@.len() as int) + seq!['}'] by {
                    lemma_obj_step(s@, k as int, j, v->Obj_0, n);
                    if n + 1 == v->Obj_0.len() {
                        assert(s@[rj as int] == '}');
                    }
                    assert(n + 1 < v->Obj_0.len());
                    assert(v->Obj_0.take(n + 1) =~= v->Obj_0.take(n).push(v->Obj_0[n]));
                }
            }
            k = rj + 1;
            proof {
                assert(s@.subrange(i as int + 1, k as int) =~= obj_text(obj_view(members@)) + seq![
                    ',',
                ]);
            }
        } else {
            proof {
                assert forall|v: JsonVal, j: int| !text_at(s@, i as int, j, v) by {
                    if text_at(s@, i as int, j, v) {
                        lemma_obj_step(s@, k as int, j, v->Obj_0, n);
                        if n + 1 < v->Obj_0.len() {
                            assert(s@[rj as int] == ',');
                        } else {
                            assert(s@[rj as int] == '}');
                        }
                    }
                }
            }
            return None;
        }
    }
}

/// Reads one JSON value starting at `i`; returns it with the position just
/// past its text.  Strict and complete for well-formed documents: anything
/// accepted re-prints to exactly the consumed text, and whenever the text
/// from `i` is the rendering of a well-formed document (not run into by a
/// number literal at its end), the parse succeeds and returns exactly that
/// document.
#[verifier::loop_isolation(false)]
#[verifier::rlimit(80)]
pub fn parse_json_value(s: &str, i: usize) -> (r: Option<(JsonValue, usize)>)
    requires
        i <= s@.len(),
    ensures
        match r {
            Some((v, j)) => i < j <= s@.len() && s@.subrange(i as int, j as int) == json_text(v@),
            None => true,
        },
        forall|v: JsonVal, j: int| #[trigger] text_at(s@, i as int, j, v) ==> (r matches Some(p)
            && p.1 == j && p.0@ == v),
    decreases s@.len() - i, 1int,
{
    let len = s.unicode_len();
    if i >= len {
        proof {
            assert forall|v: JsonVal, j: int| !text_at(s@, i as int, j, v) by {}
        }
        return None;
    }
    let c = s.get_char(i);
    proof {
        assert forall|v: JsonVal, j: int| #[trigger] text_at(s@, i as int, j, v)
            implies json_text(v)[0] == c && json_text(v).len() == j - i && (forall|q: int|
            0 <= q < j - i ==> s@[i + q] == json_text(v)[q]) by {
            lemma_json_text_head(v);
            lemma_split(s@, i as int, j, json_text(v), Seq::<char>::empty());
            assert(s@.subrange(i as int, j) =~= json_text(v) + Seq::<char>::empty());
        }
    }
    if c == 'n' {
        proof {
            reveal_strlit("null");
            assert forall|v: JsonVal, j: int| #[trigger] text_at(s@, i as int, j, v)
                implies v == JsonVal::Null && j == i + 4 && s@[i as int + 1] == 'u' && s@[i as int
                + 2] == 'l' && s@[i as int + 3] == 'l' by {
                lemma_json_text_head(v);
                assert(!is_num_char('n'));
                assert(v is Null);
                assert(json_text(v) == "null"@);
                assert("null"@.len() == 4);
                assert(j == i + 4);
                assert(s@[i as int + 1] == json_text(v)[1] && s@[i as int + 2] == json_text(v)[2]
                    && s@[i as int + 3] == json_text(v)[3]);
            }
        }
        if len - i < 4 {
            return None;
        }
        if s.get_char(i + 1) == 'u' && s.get_char(i + 2) == 'l' && s.get_char(i + 3) == 'l' {
            proof {
                reveal_strlit("null");
                assert(s@.subrange(i as int, i as int + 4) =~= "null"@);
            }
            Some((JsonValue::Null, i + 4))
        } else {
            None
        }
    } else if c == 't' {
        proof {
            reveal_strlit("true");
            assert forall|v: JsonVal, j: int| #[trigger] text_at(s@, i as int, j, v)
                implies v == JsonVal::Bool(true) && j == i + 4 && s@[i as int + 1] == 'r' && s@[
                i as int + 2] == 'u' && s@[i as int + 3] == 'e' by {
                lemma_json_text_head(v);
                assert(!is_num_char('t'));
                assert(v is Bool);
                reveal_strlit("false");
                assert("false"@[0] == 'f' && "true"@[0] == 't');
                assert(v == JsonVal::Bool(true));
                assert(json_text(v) == "true"@);
                assert("true"@.len() == 4);
                assert(j == i + 4);
                assert(s@[i as int + 1] == json_text(v)[1] && s@[i as int + 2] == json_text(v)[2]
                    && s@[i as int + 3] == json_text(v)[3]);
            }
        }
        if len - i < 4 {
            return None;
        }
        if s.get_char(i + 1) == 'r' && s.get_char(i + 2) == 'u' && s.get_char(i + 3) == 'e' {
            proof {
                reveal_strlit("true");
                assert(s@.subrange(i as int, i as int + 4) =~= "true"@);
            }
            Some((JsonValue::Bool(true), i + 4))
        } else {
            None
        }
    } else if c == 'f' {
        proof {
            reveal_strlit("false");
            assert forall|v: JsonVal, j: int| #[trigger] text_at(s@, i as int, j, v)
                implies v == JsonVal::Bool(false) && j == i + 5 && s@[i as int + 1] == 'a' && s@[
                i as int + 2] == 'l' && s@[i as int + 3] == 's' && s@[i as int + 4] == 'e' by {
                lemma_json_text_head(v);
                assert(!is_num_char('f'));
                assert(v is Bool);
                reveal_strlit("true");
                assert("false"@[0] == 'f' && "true"@[0] == 't');
                assert(v == JsonVal::Bool(false));
                assert(json_text(v) == "false"@);
                assert("false"@.len() == 5);
                assert(j == i + 5);
                assert(s@[i as int + 1] == json_text(v)[1] && s@[i as int + 2] == json_text(v)[2]
                    && s@[i as int + 3] == json_text(v)[3] && s@[i as int + 4] == json_text(v)[4]);
            }
        }
        if len - i < 5 {
            return None;
        }
        if s.get_char(i + 1) == 'a' && s.get_char(i + 2) == 'l' && s.get_char(i + 3) == 's'
            && s.get_char(i + 4) == 'e' {
            proof {
                reveal_strlit("false");
                assert(s@.subrange(i as int, i as int + 5) =~= "false"@);
            }
            Some((JsonValue::Bool(false), i + 5))
        } else {
            None
        }
    } else if is_num_char_exec(c) {
        proof {
            assert forall|v: JsonVal, j: int| #[trigger] text_at(s@, i as int, j, v)
                implies v == JsonVal::Num(s@.subrange(i as int, j)) && (forall|q: int|
                i <= q < j ==> is_num_char(#[trigger] s@[q])) by {
                lemma_json_text_head(v);
                assert(v is Num);
                assert(s@.subrange(i as int, j) == json_text(v));
                assert(json_text(v) == v->Num_0);
                assert forall|q: int| i <= q < j implies is_num_char(#[trigger] s@[q]) by {
                    assert(s@[q] == json_text(v)[q - i]);
                    assert(is_num_char(v->Num_0[q - i]));
                }
            }
        }
        let mut t = String::new();
        let mut k: usize = i;
        while k < len && is_num_char_exec(s.get_char(k))
            invariant
                i <= k <= len,
                t@ == s@.subrange(i as int, k as int),
                forall|v: JsonVal, j: int| #[trigger] text_at(s@, i as int, j, v) ==> k <= j,
            decreases len - k,
        {
            proof {
                assert forall|v: JsonVal, j: int| #[trigger] text_at(s@, i as int, j, v)
                    implies k + 1 <= j by {
                    if k == j {
                        assert(is_num_char(s@[j]) || j == s@.len());
                    }
                }
            }
            t.push(s.get_char(k));
            proof {
                assert(t@ =~= s@.subrange(i as int, k as int + 1));
            }
            k = k + 1;
        }
        proof {
            assert forall|v: JsonVal, j: int| #[trigger] text_at(s@, i as int, j, v)
                implies j == k && v == JsonVal::Num(t@) by {
                if k < j {
                    assert(is_num_char(s@[k as int]));
                    assert(k < len);
                }
            }
        }
        Some((JsonValue::Num(t), k))
    } else if c == '"' {
        proof {
            assert forall|v: JsonVal, j: int| #[trigger] text_at(s@, i as int, j, v)
                implies v is Str && str_body_at(s@, i as int + 1, j, v->Str_0) by {
                lemma_json_text_head(v);
                assert(!is_num_char('"'));
                assert(v is Str);
                let w = v->Str_0;
                assert(s@.subrange(i as int, j) =~= seq!['"'] + (esc_text(w) + seq!['"']));
                lemma_split(s@, i as int, j, seq!['"'], esc_text(w) + seq!['"']);
            }
        }
        match parse_json_string(s, i + 1) {
            Some((t, j)) => {
                proof {
                    assert(s@[i as int] == '"');
                    assert(s@.subrange(i as int + 1, j as int) == esc_text(t@) + seq!['"']);
                    assert(s@.subrange(i as int, j as int) =~= seq!['"'] + (esc_text(t@) + seq![
                        '"',
                    ]));
                    assert(seq!['"'] + (esc_text(t@) + seq!['"']) =~= seq!['"'] + esc_text(t@)
                        + seq!['"']);
                }
                Some((JsonValue::Str(t), j))
            },
            None => None,
        }
    } else if c == '[' {
        parse_json_array(s, i)
    } else if c == '{' {
        parse_json_object(s, i)
    } else {
        proof {
            assert forall|v: JsonVal, j: int| !text_at(s@, i as int, j, v) by {
                if text_at(s@, i as int, j, v) {
                    lemma_json_text_head(v);
                }
            }
        }
        None
    }
}

/// Reads a whole JSON document: succeeds exactly when the text is the
/// compact rendering of a value — anything accepted re-prints to the input,
/// and the rendering of every well-formed document is accepted and returns
/// that document.
pub fn json_from_text(s: &str) -> (r: Option<JsonValue>)
    ensures
        match r {
            Some(v) => json_text(v@) == s@,
            None => true,
        },
        forall|d: JsonVal| wf_doc(d) && json_text(d) == s@ ==> (r matches Some(v) && v@ == d),
{
    proof {
        assert forall|d: JsonVal| wf_doc(d) && json_text(d) == s@ implies text_at(
            s@,
            0,
            s@.len() as int,
            d,
        ) by {
            lemma_json_text_head(d);
            assert(s@.subrange(0, s@.len() as int) =~= s@);
        }
    }
    match parse_json_value(s, 0) {
        Some((v, j)) => {
            if j == s.unicode_len() {
                proof {
                    assert(s@.subrange(0, s@.len() as int) =~= s@);
                }
                Some(v)
            } else {
                proof {
                    assert forall|d: JsonVal| !(wf_doc(d) && json_text(d) == s@) by {
                        if wf_doc(d) && json_text(d) == s@ {
                            assert(text_at(s@, 0, s@.len() as int, d));
                        }
                    }
                }
                None
            }
        },
        None => {
            proof {
                assert forall|d: JsonVal| !(wf_doc(d) && json_text(d) == s@) by {
                    if wf_doc(d) && json_text(d) == s@ {
                        assert(text_at(s@, 0, s@.len() as int, d));
                    }
                }
            }
            None
        },
    }
}

/// A string character the codec carries faithfully: printable, one of the
/// five named control escapes, or a control character whose codepoint
/// round-trips through the character model.  Every character of a real
/// string satisfies this; it is stated because a bare `Seq<char>` carries no
/// such guarantee.
pub open spec fn wf_str_char(c: char) -> bool {
    ||| (c as u32) >= 32
    ||| c == '\u{8}'
    ||| c == '\t'
    ||| c == '\n'
    ||| c == '\u{c}'
    ||| c == '\r'
    ||| ((c as u32) as u8) as char == c
}

/// Whether every character of `s` is carried faithfully.
pub open spec fn wf_str(s: Seq<char>) -> bool {
    forall|i: int| 0 <= i < s.len() ==> wf_str_char(#[trigger] s[i])
}

/// A well-formed document: number literals are nonempty runs of
/// number-literal characters, and strings are carried faithfully.  Exactly
/// these documents are guaranteed to survive printing and re-parsing.
pub open spec fn wf_doc(v: JsonVal) -> bool
    decreases v,
{
    match v {
        JsonVal::Null => true,
        JsonVal::Bool(b) => true,
        JsonVal::Num(t) => t.len() > 0 && (forall|i: int|
            0 <= i < t.len() ==> is_num_char(#[trigger] t[i])),
        JsonVal::Str(s) => wf_str(s),
        JsonVal::Arr(items) => forall|i: int|
            0 <= i < items.len() ==> wf_doc(#[trigger] items[i]),
        JsonVal::Obj(ms) => forall|i: int|
            0 <= i < ms.len() ==> wf_str((#[trigger] ms[i]).0) && wf_doc(ms[i].1),
    }
}

/// The escaped text of the characters of `w` from `m` on.
pub open spec fn esc_text_from(w: Seq<char>, m: int) -> Seq<char>
    recommends
        0 <= m <= w.len(),
    decreases w.len() - m,
{
    if m < 0 || m >= w.len() {
        Seq::empty()
    } else {
        esc_char(w[m]) + esc_text_from(w, m + 1)
    }
}

/// The back-recursive and front-recursive escape texts agree.
pub proof fn lemma_esc_text_from(w: Seq<char>, m: int)
    requires
        0 <= m <= w.len(),
    ensures
        esc_text(w) == esc_text(w.take(m)) + esc_text_from(w, m),
    decreases w.len() - m,
{
    if m == w.len() {
        assert(w.take(m) =~= w);
        assert(esc_text(w) =~= esc_text(w.take(m)) + esc_text_from(w, m));
    } else {
        lemma_esc_text_from(w, m + 1);
        let t = w.take(m + 1);
        assert(t.drop_last() =~= w.take(m));
        assert(t.last() == w[m]);
        assert(esc_text(t) == esc_text(w.take(m)) + esc_char(w[m]));
        assert(esc_text(w) =~= esc_text(w.take(m)) + esc_text_from(w, m));
    }
}

/// The texts of the elements of `items` from `n` on, comma-separated.
pub open spec fn arr_text_from(items: Seq<JsonVal>, n: int) -> Seq<char>
    recommends
        0 <= n <= items.len(),
    decreases items.len() - n,
{
    if n < 0 || n >= items.len() {
        Seq::empty()
    } else if n == items.len() - 1 {
        json_text(items[n])
    } else {
        json_text(items[n]) + seq![','] + arr_text_from(items, n + 1)
    }
}

proof fn lemma_arr_text_from_snoc(items: Seq<JsonVal>, n: int)
    requires
        0 <= n < items.len(),
        items.len() >= 2,
    ensures
        arr_text_from(items, n) == if n == items.len() - 1 {
            json_text(items.last())
        } else {
            arr_text_from(items.drop_last(), n) + seq![','] + json_text(items.last())
        },
    decreases items.len() - n,
{
    let dl = items.drop_last();
    if n == items.len() - 1 {
    } else {
        lemma_arr_text_from_snoc(items, n + 1);
        assert(dl[n] == items[n]);
        if n == items.len() - 2 {
            assert(arr_text_from(dl, n) == json_text(dl[n]));
            assert(arr_text_from(items, n) =~= arr_text_from(dl, n) + seq![','] + json_text(
                items.last(),
            ));
        } else {
            assert(arr_text_from(dl, n) == json_text(dl[n]) + seq![','] + arr_text_from(dl, n + 1));
            assert(arr_text_from(items, n) =~= arr_text_from(dl, n) + seq![','] + json_text(
                items.last(),
            ));
        }
    }
}

/// The back-recursive and front-recursive array texts agree.
pub proof fn lemma_arr_text_eq(items: Seq<JsonVal>)
    requires
        items.len() > 0,
    ensures
        arr_text(items) == arr_text_from(items, 0),
    decreases items.len(),
{
    if items.len() == 1 {
    } else {
        lemma_arr_text_eq(items.drop_last());
        lemma_arr_text_from_snoc(items, 0);
    }
}

/// The texts of the members of `ms` from `n` on, comma-separated.
pub open spec fn obj_text_from(ms: Seq<(Seq<char>, JsonVal)>, n: int) -> Seq<char>
    recommends
        0 <= n <= ms.len(),
    decreases ms.len() - n,
{
    if n < 0 || n >= ms.len() {
        Seq::empty()
    } else if n == ms.len() - 1 {
        member_text(ms[n])
    } else {
        member_text(ms[n]) + seq![','] + obj_text_from(ms, n + 1)
    }
}

proof fn lemma_obj_text_from_snoc(ms: Seq<(Seq<char>, JsonVal)>, n: int)
    requires
        0 <= n < ms.len(),
        ms.len() >= 2,
    ensures
        obj_text_from(ms, n) == if n == ms.len() - 1 {
            member_text(ms.last())
        } else {
            obj_text_from(ms.drop_last(), n) + seq![','] + member_text(ms.last())
        },
    decreases ms.len() - n,
{
    let dl = ms.drop_last();
    if n == ms.len() - 1 {
    } else {
        lemma_obj_text_from_snoc(ms, n + 1);
        assert(dl[n] == ms[n]);
        if n == ms.len() - 2 {
            assert(obj_text_from(dl, n) == member_text(dl[n]));
            assert(obj_text_from(ms, n) =~= obj_text_from(dl, n) + seq![','] + member_text(
                ms.last(),
            ));
        } else {
            assert(obj_text_from(dl, n) == member_text(dl[n]) + seq![','] + obj_text_from(
                dl,
                n + 1,
            ));
            assert(obj_text_from(ms, n) =~= obj_text_from(dl, n) + seq![','] + member_text(
                ms.last(),
            ));
        }
    }
}

/// The back-recursive and front-recursive object texts agree.
pub proof fn lemma_obj_text_eq(ms: Seq<(Seq<char>, JsonVal)>)
    requires
        ms.len() > 0,
    ensures
        obj_text(ms) == obj_text_from(ms, 0),
    decreases ms.len(),
{
    if ms.len() == 1 {
    } else {
        lemma_obj_text_eq(ms.drop_last());
        lemma_obj_text_from_snoc(ms, 0);
    }
}

/// A well-formed document's text is nonempty, and its first character names
/// its kind.
pub proof fn lemma_json_text_head(v: JsonVal)
    requires
        wf_doc(v),
    ensures
        json_text(v).len() >= 1,
        v is Null ==> json_text(v)[0] == 'n',
        v is Bool ==> json_text(v)[0] == 't' || json_text(v)[0] == 'f',
        v is Num ==> is_num_char(json_text(v)[0]),
        v is Str ==> json_text(v)[0] == '"',
        v is Arr ==> json_text(v)[0] == '[',
        v is Obj ==> json_text(v)[0] == '{',
{
    reveal_strlit("null");
    reveal_strlit("true");
    reveal_strlit("false");
    match v {
        JsonVal::Null => {
            assert("null"@.len() == 4);
        },
        JsonVal::Bool(b) => {
            assert("true"@.len() == 4 && "false"@.len() == 5);
        },
        JsonVal::Num(t) => {
            assert(is_num_char(t[0]));
            assert(json_text(v)[0] == t[0]);
        },
        JsonVal::Str(s) => {
            assert(json_text(v)[0] == '"');
        },
        JsonVal::Arr(items) => {
            assert(json_text(v)[0] == '[');
        },
        JsonVal::Obj(ms) => {
            assert(json_text(v)[0] == '{');
        },
    }
}

/// Whether the text of `s` from `start` to `j` is the escaped body of `w`
/// followed by the closing quote.
pub open spec fn str_body_at(s: Seq<char>, start: int, j: int, w: Seq<char>) -> bool {
    &&& 0 <= start <= j <= s.len()
    &&& wf_str(w)
    &&& s.subrange(start, j) == esc_text(w) + seq!['"']
}

/// Consuming one escaped character advances the remaining escaped text.
proof fn lemma_consume_escaped(
    s: Seq<char>,
    k: int,
    j: int,
    w: Seq<char>,
    m: int,
    step: int,
)
    requires
        0 <= m < w.len(),
        0 <= k <= j <= s.len(),
        s.subrange(k, j) == esc_text_from(w, m) + seq!['"'],
        esc_char(w[m]).len() == step,
    ensures
        k + step < j,
        s.subrange(k + step, j) == esc_text_from(w, m + 1) + seq!['"'],
        forall|q: int| 0 <= q < step ==> s[k + q] == esc_char(w[m])[q],
        s[k] == esc_char(w[m])[0],
        step >= 2 ==> s[k + 1] == esc_char(w[m])[1],
        step >= 6 ==> s[k + 2] == esc_char(w[m])[2] && s[k + 3] == esc_char(w[m])[3] && s[k + 4]
            == esc_char(w[m])[4] && s[k + 5] == esc_char(w[m])[5],
{
    let a = esc_char(w[m]);
    let b = esc_text_from(w, m + 1);
    assert(esc_text_from(w, m) == a + b);
    assert(s.subrange(k, j) == (a + b) + seq!['"']);
    assert(s.subrange(k, j).len() == j - k);
    assert(((a + b) + seq!['"']).len() == a.len() + b.len() + 1);
    assert(j - k == step + b.len() + 1);
    assert forall|q: int| 0 <= q < step implies s[k + q] == a[q] by {
        assert(s.subrange(k, j)[q] == s[k + q]);
        assert(((a + b) + seq!['"'])[q] == (a + b)[q]);
        assert((a + b)[q] == a[q]);
    }
    assert(s[k + 0] == a[0]);
    if step >= 2 {
        assert(s[k + 1] == a[1]);
    }
    if step >= 6 {
        assert(s[k + 2] == a[2] && s[k + 3] == a[3] && s[k + 4] == a[4] && s[k + 5] == a[5]);
    }
    assert forall|q: int| 0 <= q < j - (k + step) implies s.subrange(k + step, j)[q] == (b + seq![
        '"',
    ])[q] by {
        assert(s.subrange(k + step, j)[q] == s[k + step + q]);
        assert(s.subrange(k, j)[step + q] == s[k + step + q]);
        if step + q < a.len() + b.len() {
            assert(((a + b) + seq!['"'])[step + q] == (a + b)[step + q]);
            assert((a + b)[step + q] == b[q]);
            assert((b + seq!['"'])[q] == b[q]);
        } else {
            assert(((a + b) + seq!['"'])[step + q] == '"');
            assert((b + seq!['"'])[q] == '"');
        }
    }
    assert(s.subrange(k + step, j) =~= b + seq!['"']);
}

/// The first character of an escape never is a quote, and a backslash first
/// character marks exactly the escaped classes.
proof fn lemma_esc_char_head(x: char)
    ensures
        esc_char(x).len() == 1 || esc_char(x).len() == 2 || esc_char(x).len() == 6,
        esc_char(x)[0] != '"',
        esc_char(x)[0] == '\\' <==> (x == '"' || x == '\\' || x == '\u{8}' || x == '\t' || x
            == '\n' || x == '\u{c}' || x == '\r' || (x as u32) < 32),
        esc_char(x)[0] != '\\' ==> esc_char(x) == seq![x] && (x as u32) >= 32,
{
}


/// Whether the text of `s` from `i` to `j` is exactly the rendering of the
/// well-formed document `v`, with no number literal running on past `j`.
pub open spec fn text_at(s: Seq<char>, i: int, j: int, v: JsonVal) -> bool {
    &&& 0 <= i < j <= s.len()
    &&& wf_doc(v)
    &&& s.subrange(i, j) == json_text(v)
    &&& (j == s.len() || !is_num_char(s[j]))
}

/// Whether the text of `s` from `i` to `j` is exactly the rendering of the
/// well-formed object member `m`, with the same boundary condition.
pub open spec fn member_at(s: Seq<char>, i: int, j: int, m: (Seq<char>, JsonVal)) -> bool {
    &&& 0 <= i < j <= s.len()
    &&& wf_str(m.0)
    &&& wf_doc(m.1)
    &&& s.subrange(i, j) == member_text(m)
    &&& (j == s.len() || !is_num_char(s[j]))
}

/// Splitting a known stretch of text into its prefix and suffix.
proof fn lemma_split(s: Seq<char>, k: int, j: int, a: Seq<char>, b: Seq<char>)
    requires
        0 <= k <= j <= s.len(),
        s.subrange(k, j) == a + b,
    ensures
        j - k == a.len() + b.len(),
        s.subrange(k, k + a.len()) == a,
        s.subrange(k + a.len(), j) == b,
        forall|q: int| 0 <= q < a.len() ==> s[k + q] == a[q],
        forall|q: int| 0 <= q < b.len() ==> s[k + a.len() + q] == b[q],
        a.len() > 0 ==> s[k] == a[0],
        b.len() > 0 ==> s[k + a.len()] == b[0],
{
    assert(s.subrange(k, j).len() == j - k);
    assert forall|q: int| 0 <= q < a.len() implies s[k + q] == a[q] by {
        assert(s.subrange(k, j)[q] == s[k + q]);
        assert((a + b)[q] == a[q]);
    }
    assert forall|q: int| 0 <= q < b.len() implies s[k + a.len() + q] == b[q] by {
        assert(s.subrange(k, j)[a.len() + q] == s[k + a.len() + q]);
        assert((a + b)[a.len() + q] == b[q]);
    }
    assert(s.subrange(k, k + a.len()) =~= a);
    assert(s.subrange(k + a.len(), j) =~= b);
    if a.len() > 0 {
        assert(s[k + 0] == a[0]);
    }
    if b.len() > 0 {
        assert(s[k + a.len() + 0] == b[0]);
    }
}

/// Decomposing a member's text: the quoted key, the colon, and the value's
/// text, each in its place.
proof fn lemma_member_decompose(s: Seq<char>, k: int, j: int, m: (Seq<char>, JsonVal))
    requires
        member_at(s, k, j, m),
    ensures
        s[k] == '"',
        str_body_at(s, k + 1, k + 2 + esc_text(m.0).len(), m.0),
        k + 2 + esc_text(m.0).len() < j,
        s[k + 2 + esc_text(m.0).len()] == ':',
        text_at(s, k + 3 + esc_text(m.0).len(), j, m.1),
{
    let e = esc_text(m.0).len() as int;
    let a = seq!['"'] + esc_text(m.0) + seq!['"', ':'];
    let b = json_text(m.1);
    assert(member_text(m) == a + b) by {
        assert(member_text(m) =~= a + b);
    }
    lemma_split(s, k, j, a, b);
    lemma_json_text_head(m.1);
    assert(s[k] == a[0]);
    assert(a[0] == '"');
    assert(s[k + 2 + e] == a[2 + e]);
    assert(a[2 + e] == ':');
    assert(s.subrange(k + 1, k + 2 + e) =~= esc_text(m.0) + seq!['"']) by {
        assert forall|q: int| 0 <= q < e + 1 implies s.subrange(k + 1, k + 2 + e)[q] == (esc_text(
            m.0,
        ) + seq!['"'])[q] by {
            assert(s.subrange(k + 1, k + 2 + e)[q] == s[k + 1 + q]);
            assert(s[k + 1 + q] == a[1 + q]);
            assert(a[1 + q] == (esc_text(m.0) + seq!['"'])[q]);
        }
    }
    assert(s.subrange(k + 3 + e, j) == b);
}


/// What a well-formed array candidate tells about the text after the
/// opening bracket.
proof fn lemma_arr_cand(s: Seq<char>, i: int, j: int, v: JsonVal)
    requires
        text_at(s, i, j, v),
        s[i] == '[',
    ensures
        v is Arr,
        forall|q: int| 0 <= q < v->Arr_0.len() ==> wf_doc(#[trigger] v->Arr_0[q]),
        v->Arr_0.len() == 0 ==> j == i + 2 && s[i + 1] == ']',
        v->Arr_0.len() > 0 ==> s.subrange(i + 1, j) == arr_text_from(v->Arr_0, 0) + seq![']']
            && s[i + 1] == json_text(v->Arr_0[0])[0] && s[i + 1] != ']',
{
    lemma_json_text_head(v);
    assert(s.subrange(i, j)[0] == s[i]);
    assert(json_text(v)[0] == '[');
    assert(v is Arr);
    let items = v->Arr_0;
    assert(s.subrange(i, j) =~= seq!['['] + (arr_text(items) + seq![']']));
    lemma_split(s, i, j, seq!['['], arr_text(items) + seq![']']);
    assert(s.subrange(i + 1, j) == arr_text(items) + seq![']']);
    if items.len() == 0 {
        assert(arr_text(items) == Seq::<char>::empty());
        assert(s.subrange(i + 1, j) =~= seq![']']);
        assert(s.subrange(i + 1, j)[0] == s[i + 1]);
    } else {
        lemma_arr_text_eq(items);
        assert(s.subrange(i + 1, j) == arr_text_from(items, 0) + seq![']']);
        assert(wf_doc(items[0]));
        lemma_json_text_head(items[0]);
        let elt = json_text(items[0]);
        if items.len() == 1 {
            assert(arr_text_from(items, 0) == elt);
        } else {
            assert(arr_text_from(items, 0) == elt + seq![','] + arr_text_from(items, 1));
            assert(arr_text_from(items, 0)[0] == elt[0]);
        }
        assert((arr_text_from(items, 0) + seq![']'])[0] == elt[0]);
        assert(s.subrange(i + 1, j)[0] == s[i + 1]);
        assert(s[i + 1] == elt[0]);
        assert(!is_num_char(']'));
        assert(elt[0] != ']');
    }
}

/// What a well-formed object candidate tells about the text after the
/// opening brace.
proof fn lemma_obj_cand(s: Seq<char>, i: int, j: int, v: JsonVal)
    requires
        text_at(s, i, j, v),
        s[i] == '{',
    ensures
        v is Obj,
        forall|q: int|
            0 <= q < v->Obj_0.len() ==> wf_str((#[trigger] v->Obj_0[q]).0) && wf_doc(
                v->Obj_0[q].1,
            ),
        v->Obj_0.len() == 0 ==> j == i + 2 && s[i + 1] == '}',
        v->Obj_0.len() > 0 ==> s.subrange(i + 1, j) == obj_text_from(v->Obj_0, 0) + seq!['}']
            && s[i + 1] == '"',
{
    lemma_json_text_head(v);
    assert(s.subrange(i, j)[0] == s[i]);
    assert(json_text(v)[0] == '{');
    assert(v is Obj);
    let ms = v->Obj_0;
    assert(s.subrange(i, j) =~= seq!['{'] + (obj_text(ms) + seq!['}']));
    lemma_split(s, i, j, seq!['{'], obj_text(ms) + seq!['}']);
    assert(s.subrange(i + 1, j) == obj_text(ms) + seq!['}']);
    if ms.len() == 0 {
        assert(obj_text(ms) == Seq::<char>::empty());
        assert(s.subrange(i + 1, j) =~= seq!['}']);
        assert(s.subrange(i + 1, j)[0] == s[i + 1]);
    } else {
        lemma_obj_text_eq(ms);
        assert(s.subrange(i + 1, j) == obj_text_from(ms, 0) + seq!['}']);
        let mt = member_text(ms[0]);
        assert(mt[0] == '"');
        if ms.len() == 1 {
            assert(obj_text_from(ms, 0) == mt);
        } else {
            assert(obj_text_from(ms, 0) == mt + seq![','] + obj_text_from(ms, 1));
            assert(obj_text_from(ms, 0)[0] == mt[0]);
        }
        assert((obj_text_from(ms, 0) + seq!['}'])[0] == mt[0]);
        assert(s.subrange(i + 1, j)[0] == s[i + 1]);
    }
}

/// One step of the element list: the next element's exact text, and what
/// follows it.
proof fn lemma_arr_step(s: Seq<char>, k: int, j: int, items: Seq<JsonVal>, n: int)
    requires
        0 <= n < items.len(),
        0 <= k <= j <= s.len(),
        forall|q: int| 0 <= q < items.len() ==> wf_doc(#[trigger] items[q]),
        s.subrange(k, j) == arr_text_from(items, n) + seq![']'],
    ensures
        text_at(s, k, k + json_text(items[n]).len(), items[n]),
        k + json_text(items[n]).len() < j,
        n + 1 == items.len() ==> s[k + json_text(items[n]).len()] == ']' && j == k + json_text(
            items[n],
        ).len() + 1,
        n + 1 < items.len() ==> s[k + json_text(items[n]).len()] == ',' && s.subrange(
            k + json_text(items[n]).len() + 1,
            j,
        ) == arr_text_from(items, n + 1) + seq![']'],
{
    assert(wf_doc(items[n]));
    lemma_json_text_head(items[n]);
    let elt = json_text(items[n]);
    if n + 1 == items.len() {
        assert(arr_text_from(items, n) == elt);
        lemma_split(s, k, j, elt, seq![']']);
        assert(!is_num_char(']'));
        assert(text_at(s, k, k + elt.len(), items[n]));
    } else {
        assert(arr_text_from(items, n) == elt + seq![','] + arr_text_from(items, n + 1));
        assert(s.subrange(k, j) =~= elt + (seq![','] + (arr_text_from(items, n + 1) + seq![
            ']',
        ])));
        lemma_split(s, k, j, elt, seq![','] + (arr_text_from(items, n + 1) + seq![']']));
        assert(!is_num_char(','));
        assert(text_at(s, k, k + elt.len(), items[n]));
        assert(s.subrange(k + elt.len(), j) == seq![','] + (arr_text_from(items, n + 1) + seq![
            ']',
        ]));
        lemma_split(s, k + elt.len(), j, seq![','], arr_text_from(items, n + 1) + seq![']']);
    }
}

/// One step of the member list: the next member's exact text, and what
/// follows it.
proof fn lemma_obj_step(s: Seq<char>, k: int, j: int, ms: Seq<(Seq<char>, JsonVal)>, n: int)
    requires
        0 <= n < ms.len(),
        0 <= k <= j <= s.len(),
        forall|q: int| 0 <= q < ms.len() ==> wf_str((#[trigger] ms[q]).0) && wf_doc(ms[q].1),
        s.subrange(k, j) == obj_text_from(ms, n) + seq!['}'],
    ensures
        member_at(s, k, k + member_text(ms[n]).len(), ms[n]),
        k + member_text(ms[n]).len() < j,
        n + 1 == ms.len() ==> s[k + member_text(ms[n]).len()] == '}' && j == k + member_text(
            ms[n],
        ).len() + 1,
        n + 1 < ms.len() ==> s[k + member_text(ms[n]).len()] == ',' && s.subrange(
            k + member_text(ms[n]).len() + 1,
            j,
        ) == obj_text_from(ms, n + 1) + seq!['}'],
{
    assert(wf_str(ms[n].0) && wf_doc(ms[n].1));
    lemma_json_text_head(ms[n].1);
    let mt = member_text(ms[n]);
    assert(mt.len() > 0);
    if n + 1 == ms.len() {
        assert(obj_text_from(ms, n) == mt);
        lemma_split(s, k, j, mt, seq!['}']);
        assert(!is_num_char('}'));
        assert(member_at(s, k, k + mt.len(), ms[n]));
    } else {
        assert(obj_text_from(ms, n) == mt + seq![','] + obj_text_from(ms, n + 1));
        assert(s.subrange(k, j) =~= mt + (seq![','] + (obj_text_from(ms, n + 1) + seq!['}'])));
        lemma_split(s, k, j, mt, seq![','] + (obj_text_from(ms, n + 1) + seq!['}']));
        assert(!is_num_char(','));
        assert(member_at(s, k, k + mt.len(), ms[n]));
        assert(s.subrange(k + mt.len(), j) == seq![','] + (obj_text_from(ms, n + 1) + seq!['}']));
        lemma_split(s, k + mt.len(), j, seq![','], obj_text_from(ms, n + 1) + seq!['}']);
    }
}

} // verus!
