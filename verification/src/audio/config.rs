//! Audio format parameters, and the exact command lines they become.
use vstd::prelude::*;

use crate::json::{obj_view, lemma_obj_view, JsonVal, JsonValue};
use crate::num::{dec_digits, int_text, parse_int_text, lemma_parse_int_text, u64_to_string,
    lemma_int_text_injective};

verus! {

/// The format parameters handed to the audio subprocesses, verbatim.
#[derive(Debug, PartialEq)]
pub struct AudioConfig {
    pub pcm: String,
    pub channels: u16,
    pub bits_per_sample: u16,
    pub sample_rate: u32,
    pub period_size: u32,
    pub buffer_size: u32,
}

pub struct AudioConfigV {
    pub pcm: Seq<char>,
    pub channels: u16,
    pub bits_per_sample: u16,
    pub sample_rate: u32,
    pub period_size: u32,
    pub buffer_size: u32,
}

impl View for AudioConfig {
    type V = AudioConfigV;

    open spec fn view(&self) -> AudioConfigV {
        AudioConfigV {
            pcm: self.pcm@,
            channels: self.channels,
            bits_per_sample: self.bits_per_sample,
            sample_rate: self.sample_rate,
            period_size: self.period_size,
            buffer_size: self.buffer_size,
        }
    }
}

impl Clone for AudioConfig {
    /// A clone keeps every field.
    fn clone(&self) -> (c: Self)
        ensures
            c@ == self@,
    {
        AudioConfig {
            pcm: self.pcm.clone(),
            channels: self.channels,
            bits_per_sample: self.bits_per_sample,
            sample_rate: self.sample_rate,
            period_size: self.period_size,
            buffer_size: self.buffer_size,
        }
    }
}

/// The process-wide default: 16-bit mono at 24 kHz, 1440-frame buffer,
/// quarter-buffer period.
pub fn default_config() -> (c: AudioConfig)
    ensures
        c@.pcm == "noop"@,
        c@.channels == 1u16,
        c@.bits_per_sample == 16u16,
        c@.sample_rate == 24000u32,
        c@.period_size == 360u32,
        c@.buffer_size == 1440u32,
{
    AudioConfig {
        pcm: String::from_str("noop"),
        channels: 1,
        bits_per_sample: 16,
        sample_rate: 24000,
        period_size: 360,
        buffer_size: 1440,
    }
}

/// The sample-format argument: `S<bits>_LE`.
pub open spec fn format_arg(bits: u16) -> Seq<char> {
    "S"@ + dec_digits(bits as nat) + "_LE"@
}

fn format_arg_exec(bits: u16) -> (s: String)
    ensures
        s@ == format_arg(bits),
{
    let mut s = String::from_str("S");
    crate::num::push_dec_digits(bits as u64, &mut s);
    s.append("_LE");
    proof {
        assert(s@ =~= format_arg(bits));
    }
    s
}

/// The exact argument list of the playback subprocess.
pub open spec fn aplay_args_spec(c: AudioConfigV) -> Seq<Seq<char>> {
    seq![
        "--quiet"@,
        "-t"@,
        "raw"@,
        "-f"@,
        format_arg(c.bits_per_sample),
        "-r"@,
        dec_digits(c.sample_rate as nat),
        "-c"@,
        dec_digits(c.channels as nat),
        "--buffer-size"@,
        dec_digits(c.buffer_size as nat),
        "--period-size"@,
        dec_digits(c.period_size as nat),
        "-"@,
    ]
}

/// The exact argument list of the capture subprocess.
pub open spec fn arecord_args_spec(c: AudioConfigV) -> Seq<Seq<char>> {
    seq![
        "--quiet"@,
        "-t"@,
        "raw"@,
        "-D"@,
        c.pcm,
        "-f"@,
        format_arg(c.bits_per_sample),
        "-r"@,
        dec_digits(c.sample_rate as nat),
        "-c"@,
        dec_digits(c.channels as nat),
        "--buffer-size"@,
        dec_digits(c.buffer_size as nat),
        "--period-size"@,
        dec_digits(c.period_size as nat),
    ]
}

/// The views of an argument vector.
pub open spec fn args_view(args: Seq<String>) -> Seq<Seq<char>> {
    args.map(|i: int, s: String| s@)
}

/// Builds the playback command line.
pub fn aplay_args(c: &AudioConfig) -> (args: Vec<String>)
    ensures
        args_view(args@) == aplay_args_spec(c@),
{
    let mut args: Vec<String> = Vec::new();
    args.push(String::from_str("--quiet"));
    args.push(String::from_str("-t"));
    args.push(String::from_str("raw"));
    args.push(String::from_str("-f"));
    args.push(format_arg_exec(c.bits_per_sample));
    args.push(String::from_str("-r"));
    args.push(u64_to_string(c.sample_rate as u64));
    args.push(String::from_str("-c"));
    args.push(u64_to_string(c.channels as u64));
    args.push(String::from_str("--buffer-size"));
    args.push(u64_to_string(c.buffer_size as u64));
    args.push(String::from_str("--period-size"));
    args.push(u64_to_string(c.period_size as u64));
    args.push(String::from_str("-"));
    proof {
        assert(args_view(args@) =~= aplay_args_spec(c@));
    }
    args
}

/// Builds the capture command line.
pub fn arecord_args(c: &AudioConfig) -> (args: Vec<String>)
    ensures
        args_view(args@) == arecord_args_spec(c@),
{
    let mut args: Vec<String> = Vec::new();
    args.push(String::from_str("--quiet"));
    args.push(String::from_str("-t"));
    args.push(String::from_str("raw"));
    args.push(String::from_str("-D"));
    args.push(c.pcm.clone());
    args.push(String::from_str("-f"));
    args.push(format_arg_exec(c.bits_per_sample));
    args.push(String::from_str("-r"));
    args.push(u64_to_string(c.sample_rate as u64));
    args.push(String::from_str("-c"));
    args.push(u64_to_string(c.channels as u64));
    args.push(String::from_str("--buffer-size"));
    args.push(u64_to_string(c.buffer_size as u64));
    args.push(String::from_str("--period-size"));
    args.push(u64_to_string(c.period_size as u64));
    proof {
        assert(args_view(args@) =~= arecord_args_spec(c@));
    }
    args
}

/// The JSON shape of a configuration: its six fields in declaration order.
pub open spec fn enc_config_fields(c: AudioConfigV) -> Seq<(Seq<char>, JsonVal)> {
    seq![
        ("pcm"@, JsonVal::Str(c.pcm)),
        ("channels"@, JsonVal::Num(int_text(c.channels as int))),
        ("bits_per_sample"@, JsonVal::Num(int_text(c.bits_per_sample as int))),
        ("sample_rate"@, JsonVal::Num(int_text(c.sample_rate as int))),
        ("period_size"@, JsonVal::Num(int_text(c.period_size as int))),
        ("buffer_size"@, JsonVal::Num(int_text(c.buffer_size as int))),
    ]
}

pub open spec fn valid_u16(v: JsonVal) -> bool {
    &&& v is Num
    &&& match parse_int_text(v->Num_0) {
        Some(c) => 0 <= c <= u16::MAX,
        None => false,
    }
}

pub open spec fn u16_of(v: JsonVal) -> u16 {
    match parse_int_text(v->Num_0) {
        Some(c) => c as u16,
        None => 0,
    }
}

pub open spec fn valid_u32(v: JsonVal) -> bool {
    &&& v is Num
    &&& match parse_int_text(v->Num_0) {
        Some(c) => 0 <= c <= u32::MAX,
        None => false,
    }
}

pub open spec fn u32_of(v: JsonVal) -> u32 {
    match parse_int_text(v->Num_0) {
        Some(c) => c as u32,
        None => 0,
    }
}

/// The configuration carried by a JSON document, if it has the canonical
/// shape.
pub open spec fn dec_config(v: JsonVal) -> Option<AudioConfigV> {
    match v {
        JsonVal::Obj(ms) => if {
            &&& ms.len() == 6
            &&& ms[0].0 == "pcm"@ && ms[0].1 is Str
            &&& ms[1].0 == "channels"@ && valid_u16(ms[1].1)
            &&& ms[2].0 == "bits_per_sample"@ && valid_u16(ms[2].1)
            &&& ms[3].0 == "sample_rate"@ && valid_u32(ms[3].1)
            &&& ms[4].0 == "period_size"@ && valid_u32(ms[4].1)
            &&& ms[5].0 == "buffer_size"@ && valid_u32(ms[5].1)
        } {
            Some(
                AudioConfigV {
                    pcm: ms[0].1->Str_0,
                    channels: u16_of(ms[1].1),
                    bits_per_sample: u16_of(ms[2].1),
                    sample_rate: u32_of(ms[3].1),
                    period_size: u32_of(ms[4].1),
                    buffer_size: u32_of(ms[5].1),
                },
            )
        } else {
            None
        },
        _ => None,
    }
}

/// Encodes a configuration for the wire.
pub fn config_to_json(c: &AudioConfig) -> (v: JsonValue)
    ensures
        v@ == JsonVal::Obj(enc_config_fields(c@)),
{
    let mut fields: Vec<(String, JsonValue)> = Vec::new();
    fields.push((String::from_str("pcm"), JsonValue::Str(c.pcm.clone())));
    fields.push(
        (String::from_str("channels"), JsonValue::Num(crate::num::i64_to_string(c.channels as i64))),
    );
    fields.push(
        (
            String::from_str("bits_per_sample"),
            JsonValue::Num(crate::num::i64_to_string(c.bits_per_sample as i64)),
        ),
    );
    fields.push(
        (
            String::from_str("sample_rate"),
            JsonValue::Num(crate::num::i64_to_string(c.sample_rate as i64)),
        ),
    );
    fields.push(
        (
            String::from_str("period_size"),
            JsonValue::Num(crate::num::i64_to_string(c.period_size as i64)),
        ),
    );
    fields.push(
        (
            String::from_str("buffer_size"),
            JsonValue::Num(crate::num::i64_to_string(c.buffer_size as i64)),
        ),
    );
    proof {
        lemma_obj_view(fields@);
        assert(obj_view(fields@) =~= enc_config_fields(c@));
    }
    JsonValue::Obj(fields)
}

fn take_u64_field(v: JsonValue, max: u64) -> (r: Option<u64>)
    requires
        max <= 9223372036854775807u64,
    ensures
        match r {
            Some(n) => v@ is Num && parse_int_text(v@->Num_0) == Some(n as int) && n <= max,
            None => !(v@ is Num && match parse_int_text(v@->Num_0) {
                Some(c) => 0 <= c <= max,
                None => false,
            }),
        },
{
    let t = match v {
        JsonValue::Num(t) => t,
        _ => {
            return None;
        },
    };
    match crate::num::parse_int_str(t.as_str()) {
        Some(i) => {
            proof {
                lemma_parse_int_text(i as int);
            }
            if i < 0 || i as u64 > max {
                proof {
                    match parse_int_text(t@) {
                        Some(c) => if 0 <= c <= max as int {
                            assert(t@ == int_text(c));
                            lemma_int_text_injective(c, i as int);
                        },
                        None => (),
                    }
                }
                None
            } else {
                Some(i as u64)
            }
        },
        None => {
            proof {
                match parse_int_text(t@) {
                    Some(c) => if 0 <= c <= max as int {
                        assert(t@ == int_text(c));
                        assert((c as i64) as int == c);
                        assert(t@ != int_text(c as i64 as int));
                    },
                    None => (),
                }
            }
            None
        },
    }
}

/// Reads a configuration back from the wire: succeeds exactly on the
/// canonical shape with every field in range.
pub fn config_from_json(v: JsonValue) -> (r: Option<AudioConfig>)
    ensures
        match r {
            Some(c) => dec_config(v@) == Some(c@),
            None => dec_config(v@) is None,
        },
{
    let ghost vv = v@;
    match v {
        JsonValue::Obj(mut ms) => {
            let ghost oms = obj_view(ms@);
            proof {
                lemma_obj_view(ms@);
            }
            if ms.len() != 6 {
                return None;
            }
            let (k0, v0) = ms.remove(0);
            if !(k0 == String::from_str("pcm")) {
                return None;
            }
            let pcm = match v0 {
                JsonValue::Str(t) => t,
                _ => {
                    return None;
                },
            };
            let (k1, v1) = ms.remove(0);
            if !(k1 == String::from_str("channels")) {
                return None;
            }
            let channels = match take_u64_field(v1, 65535) {
                Some(n) => n as u16,
                None => {
                    return None;
                },
            };
            let (k2, v2) = ms.remove(0);
            if !(k2 == String::from_str("bits_per_sample")) {
                return None;
            }
            let bits_per_sample = match take_u64_field(v2, 65535) {
                Some(n) => n as u16,
                None => {
                    return None;
                },
            };
            let (k3, v3) = ms.remove(0);
            if !(k3 == String::from_str("sample_rate")) {
                return None;
            }
            let sample_rate = match take_u64_field(v3, 4294967295) {
                Some(n) => n as u32,
                None => {
                    return None;
                },
            };
            let (k4, v4) = ms.remove(0);
            if !(k4 == String::from_str("period_size")) {
                return None;
            }
            let period_size = match take_u64_field(v4, 4294967295) {
                Some(n) => n as u32,
                None => {
                    return None;
                },
            };
            let (k5, v5) = ms.remove(0);
            if !(k5 == String::from_str("buffer_size")) {
                return None;
            }
            let buffer_size = match take_u64_field(v5, 4294967295) {
                Some(n) => n as u32,
                None => {
                    return None;
                },
            };
            let c = AudioConfig { pcm, channels, bits_per_sample, sample_rate, period_size, buffer_size };
            proof {
                assert(dec_config(vv) == Some(c@));
            }
            Some(c)
        },
        _ => None,
    }
}


/// Decoding an encoded configuration returns the original configuration.
pub proof fn lemma_config_round_trip(c: AudioConfigV)
    ensures
        dec_config(JsonVal::Obj(enc_config_fields(c))) == Some(c),
{
    lemma_parse_int_text(c.channels as int);
    lemma_parse_int_text(c.bits_per_sample as int);
    lemma_parse_int_text(c.sample_rate as int);
    lemma_parse_int_text(c.period_size as int);
    lemma_parse_int_text(c.buffer_size as int);
    let ms = enc_config_fields(c);
    assert(valid_u16(ms[1].1) && u16_of(ms[1].1) == c.channels);
    assert(valid_u16(ms[2].1) && u16_of(ms[2].1) == c.bits_per_sample);
    assert(valid_u32(ms[3].1) && u32_of(ms[3].1) == c.sample_rate);
    assert(valid_u32(ms[4].1) && u32_of(ms[4].1) == c.period_size);
    assert(valid_u32(ms[5].1) && u32_of(ms[5].1) == c.buffer_size);
}


/// The capture reader's emission size: one full buffer of samples, in
/// bytes.
pub fn chunk_target(c: &AudioConfig) -> (r: u64)
    ensures
        r == c.buffer_size as u64 * (c.bits_per_sample as u64 / 8),
{
    let sample: u64 = c.bits_per_sample as u64 / 8;
    proof {
        assert(c.buffer_size as u64 * sample <= 0xFFFF_FFFFu64 * 0x2000u64) by (nonlinear_arith)
            requires
                c.buffer_size as u64 <= 0xFFFF_FFFFu64,
                sample <= 0x2000u64,
        ;
    }
    c.buffer_size as u64 * sample
}

/// The capture reader's read-buffer size: one period of samples, in bytes.
pub fn period_bytes(c: &AudioConfig) -> (r: u64)
    ensures
        r == c.period_size as u64 * (c.bits_per_sample as u64 / 8),
{
    let sample: u64 = c.bits_per_sample as u64 / 8;
    proof {
        assert(c.period_size as u64 * sample <= 0xFFFF_FFFFu64 * 0x2000u64) by (nonlinear_arith)
            requires
                c.period_size as u64 <= 0xFFFF_FFFFu64,
                sample <= 0x2000u64,
        ;
    }
    c.period_size as u64 * sample
}

} // verus!
