//! Request building: the JSON request body sent to the completions
//! endpoint, the fixed endpoint path, and the status check that decides
//! whether the response stream may be opened.
//!
//! The body is rendered byte for byte: `{"model":…[,"temperature":…]
//! [,"top_p":…],"messages":[…],"stream":…}`, the optional fields omitted
//! entirely when absent, never written as `null`. Rendering is a pure
//! function of the parameters, so re-encoding the same conversation gives
//! byte-identical output.

use crate::encoder::{encode_messages, pairs_view, Message, PairV, Role, WirePair};
use vstd::prelude::*;
use vstd::string::StringExecFns;
use vstd::utf8::encode_utf8;

verus! {

use crate::encoder::wire_of;

/// The request parameters of one completion call. The two sampling
/// parameters are carried as already-rendered JSON number text, so the
/// renderer can splice them without holding the numbers themselves.
pub struct Params {
    pub model: String,
    pub temperature: Option<String>,
    pub top_p: Option<String>,
    pub messages: Vec<Message>,
    pub stream: bool,
}

/// Decimal digit bytes of `n`, most significant digit first.
pub open spec fn dec_digits(n: nat) -> Seq<u8>
    decreases n,
{
    if n < 10 {
        seq![(48 + n) as u8]
    } else {
        dec_digits(n / 10) + seq![(48 + n % 10) as u8]
    }
}

/// Render a number as decimal ASCII digits.
pub fn u16_digits(n: u16) -> (r: Vec<u8>)
    ensures
        r@ == dec_digits(n as nat),
    decreases n,
{
    if n < 10 {
        let mut v: Vec<u8> = Vec::new();
        v.push(48 + n as u8);
        proof {
            assert(v@ =~= dec_digits(n as nat));
        }
        v
    } else {
        let mut v = u16_digits(n / 10);
        v.push(48 + (n % 10) as u8);
        proof {
            assert(v@ =~= dec_digits(n as nat));
        }
        v
    }
}

/// The lower-case hexadecimal digit of a value below sixteen.
pub open spec fn hex_digit(n: u8) -> u8 {
    if n < 10 {
        (48 + n) as u8
    } else {
        (87 + n) as u8
    }
}

/// The JSON string escape of one byte: quote and backslash are escaped,
/// control bytes get their short escapes or a `\u00..` form, everything
/// else (multi-byte UTF-8 tails included) passes through.
pub open spec fn escape_byte(b: u8) -> Seq<u8> {
    if b == 34 {
        seq![92u8, 34u8]
    } else if b == 92 {
        seq![92u8, 92u8]
    } else if b == 8 {
        seq![92u8, 98u8]
    } else if b == 9 {
        seq![92u8, 116u8]
    } else if b == 10 {
        seq![92u8, 110u8]
    } else if b == 12 {
        seq![92u8, 102u8]
    } else if b == 13 {
        seq![92u8, 114u8]
    } else if b < 32 {
        seq![92u8, 117u8, 48u8, 48u8, hex_digit(b / 16), hex_digit(b % 16)]
    } else {
        seq![b]
    }
}

/// The escapes of the bytes from index `i` on, concatenated.
pub open spec fn escape_from(s: Seq<u8>, i: int) -> Seq<u8>
    decreases s.len() - i,
{
    if i < 0 || i >= s.len() {
        Seq::empty()
    } else {
        escape_byte(s[i]) + escape_from(s, i + 1)
    }
}

/// A JSON string literal: the escaped bytes between two quotes.
pub open spec fn json_string(s: Seq<u8>) -> Seq<u8> {
    seq![34u8] + escape_from(s, 0) + seq![34u8]
}

/// `{"model":`
pub open spec fn lit_model() -> Seq<u8> {
    seq![123u8, 34u8, 109u8, 111u8, 100u8, 101u8, 108u8, 34u8, 58u8]
}

/// `,"temperature":`
pub open spec fn lit_temperature() -> Seq<u8> {
    seq![
        44u8,
        34u8,
        116u8,
        101u8,
        109u8,
        112u8,
        101u8,
        114u8,
        97u8,
        116u8,
        117u8,
        114u8,
        101u8,
        34u8,
        58u8,
    ]
}

/// `,"top_p":`
pub open spec fn lit_top_p() -> Seq<u8> {
    seq![44u8, 34u8, 116u8, 111u8, 112u8, 95u8, 112u8, 34u8, 58u8]
}

/// `,"messages":[`
pub open spec fn lit_messages() -> Seq<u8> {
    seq![44u8, 34u8, 109u8, 101u8, 115u8, 115u8, 97u8, 103u8, 101u8, 115u8, 34u8, 58u8, 91u8]
}

/// `],"stream":`
pub open spec fn lit_stream() -> Seq<u8> {
    seq![93u8, 44u8, 34u8, 115u8, 116u8, 114u8, 101u8, 97u8, 109u8, 34u8, 58u8]
}

/// `true`
pub open spec fn lit_true() -> Seq<u8> {
    seq![116u8, 114u8, 117u8, 101u8]
}

/// `false`
pub open spec fn lit_false() -> Seq<u8> {
    seq![102u8, 97u8, 108u8, 115u8, 101u8]
}

/// `{"role":"`
pub open spec fn lit_role() -> Seq<u8> {
    seq![123u8, 34u8, 114u8, 111u8, 108u8, 101u8, 34u8, 58u8, 34u8]
}

/// `","content":`
pub open spec fn lit_content() -> Seq<u8> {
    seq![34u8, 44u8, 34u8, 99u8, 111u8, 110u8, 116u8, 101u8, 110u8, 116u8, 34u8, 58u8]
}

/// The wire name of a role.
pub open spec fn role_bytes(r: Role) -> Seq<u8> {
    match r {
        Role::System => seq![115u8, 121u8, 115u8, 116u8, 101u8, 109u8],
        Role::User => seq![117u8, 115u8, 101u8, 114u8],
        Role::Assistant => seq![97u8, 115u8, 115u8, 105u8, 115u8, 116u8, 97u8, 110u8, 116u8],
        Role::Tool => seq![116u8, 111u8, 111u8, 108u8],
    }
}

/// The rendering of one wire pair: `{"role":"…","content":"…"}`.
pub open spec fn pair_bytes(p: PairV) -> Seq<u8> {
    lit_role() + role_bytes(p.role) + lit_content() + json_string(encode_utf8(p.content)) + seq![
        125u8,
    ]
}

/// The comma-separated renderings of the pairs from index `i` on.
pub open spec fn pairs_from(ps: Seq<PairV>, i: int) -> Seq<u8>
    decreases ps.len() - i,
{
    if i < 0 || i >= ps.len() {
        Seq::empty()
    } else {
        (if i > 0 {
            seq![44u8]
        } else {
            Seq::empty()
        }) + pair_bytes(ps[i]) + pairs_from(ps, i + 1)
    }
}

/// The rendering of an optional field: nothing at all when absent.
pub open spec fn opt_field(prefix: Seq<u8>, v: Option<String>) -> Seq<u8> {
    match v {
        Some(s) => prefix + encode_utf8(s@),
        None => Seq::empty(),
    }
}

/// The full JSON body of one completion request.
pub open spec fn body_bytes(p: Params) -> Seq<u8> {
    lit_model() + json_string(encode_utf8(p.model@)) + opt_field(lit_temperature(), p.temperature)
        + opt_field(lit_top_p(), p.top_p) + lit_messages() + pairs_from(wire_of(p.messages@), 0)
        + lit_stream() + (if p.stream {
        lit_true()
    } else {
        lit_false()
    }) + seq![125u8]
}

/// Append a copy of a byte slice.
fn push_bytes(out: &mut Vec<u8>, s: &[u8])
    ensures
        final(out)@ == old(out)@ + s@,
{
    let mut i: usize = 0;
    while i < s.len()
        invariant
            i <= s.len(),
            out@ == old(out)@ + s@.subrange(0, i as int),
        decreases s.len() - i,
    {
        out.push(s[i]);
        proof {
            assert(out@ =~= old(out)@ + s@.subrange(0, i as int + 1));
        }
        i = i + 1;
    }
    proof {
        assert(out@ =~= old(out)@ + s@);
    }
}

/// Append the escaped bytes of a string's UTF-8 form.
fn push_escaped(out: &mut Vec<u8>, s: &[u8])
    ensures
        final(out)@ == old(out)@ + escape_from(s@, 0),
{
    let mut i: usize = 0;
    while i < s.len()
        invariant
            i <= s.len(),
            out@ + escape_from(s@, i as int) == old(out)@ + escape_from(s@, 0),
        decreases s.len() - i,
    {
        let ghost before = out@;
        let b = s[i];
        if b == 34 {
            out.push(92);
            out.push(34);
        } else if b == 92 {
            out.push(92);
            out.push(92);
        } else if b == 8 {
            out.push(92);
            out.push(98);
        } else if b == 9 {
            out.push(92);
            out.push(116);
        } else if b == 10 {
            out.push(92);
            out.push(110);
        } else if b == 12 {
            out.push(92);
            out.push(102);
        } else if b == 13 {
            out.push(92);
            out.push(114);
        } else if b < 32 {
            out.push(92);
            out.push(117);
            out.push(48);
            out.push(48);
            if b / 16 < 10 {
                out.push(48 + b / 16);
            } else {
                out.push(87 + b / 16);
            }
            if b % 16 < 10 {
                out.push(48 + b % 16);
            } else {
                out.push(87 + b % 16);
            }
        } else {
            out.push(b);
        }
        proof {
            assert(out@ =~= before + escape_byte(s@[i as int]));
            assert(out@ + escape_from(s@, i as int + 1) =~= old(out)@ + escape_from(s@, 0));
        }
        i = i + 1;
    }
    proof {
        assert(out@ =~= old(out)@ + escape_from(s@, 0));
    }
}

/// Append a string as a JSON string literal.
fn push_json_string(out: &mut Vec<u8>, s: &str)
    ensures
        final(out)@ == old(out)@ + json_string(encode_utf8(s@)),
{
    out.push(34);
    let bytes = s.as_bytes();
    push_escaped(out, bytes);
    out.push(34);
    proof {
        assert(out@ =~= old(out)@ + json_string(encode_utf8(s@)));
    }
}

/// Append the wire name of a role.
fn push_role(out: &mut Vec<u8>, r: Role)
    ensures
        final(out)@ == old(out)@ + role_bytes(r),
{
    match r {
        Role::System => {
            out.push(115);
            out.push(121);
            out.push(115);
            out.push(116);
            out.push(101);
            out.push(109);
        },
        Role::User => {
            out.push(117);
            out.push(115);
            out.push(101);
            out.push(114);
        },
        Role::Assistant => {
            out.push(97);
            out.push(115);
            out.push(115);
            out.push(105);
            out.push(115);
            out.push(116);
            out.push(97);
            out.push(110);
            out.push(116);
        },
        Role::Tool => {
            out.push(116);
            out.push(111);
            out.push(111);
            out.push(108);
        },
    }
    proof {
        assert(out@ =~= old(out)@ + role_bytes(r));
    }
}

/// Append the rendering of one wire pair.
fn push_pair(out: &mut Vec<u8>, wp: &WirePair)
    ensures
        final(out)@ == old(out)@ + pair_bytes(wp@),
{
    out.push(123);
    out.push(34);
    out.push(114);
    out.push(111);
    out.push(108);
    out.push(101);
    out.push(34);
    out.push(58);
    out.push(34);
    push_role(out, wp.role);
    out.push(34);
    out.push(44);
    out.push(34);
    out.push(99);
    out.push(111);
    out.push(110);
    out.push(116);
    out.push(101);
    out.push(110);
    out.push(116);
    out.push(34);
    out.push(58);
    push_json_string(out, wp.content.as_str());
    out.push(125);
    proof {
        assert(out@ =~= old(out)@ + pair_bytes(wp@));
    }
}

/// Append `{"model":`.
fn push_lit_model(out: &mut Vec<u8>)
    ensures
        final(out)@ == old(out)@ + lit_model(),
{
    out.push(123);
    out.push(34);
    out.push(109);
    out.push(111);
    out.push(100);
    out.push(101);
    out.push(108);
    out.push(34);
    out.push(58);
    proof {
        assert(out@ =~= old(out)@ + lit_model());
    }
}

/// Append the temperature field, or nothing when it is absent.
fn push_opt_temperature(out: &mut Vec<u8>, v: &Option<String>)
    ensures
        final(out)@ == old(out)@ + opt_field(lit_temperature(), *v),
{
    if let Some(t) = v {
        out.push(44);
        out.push(34);
        out.push(116);
        out.push(101);
        out.push(109);
        out.push(112);
        out.push(101);
        out.push(114);
        out.push(97);
        out.push(116);
        out.push(117);
        out.push(114);
        out.push(101);
        out.push(34);
        out.push(58);
        proof {
            assert(out@ =~= old(out)@ + lit_temperature());
        }
        push_bytes(out, t.as_str().as_bytes());
        proof {
            assert(out@ =~= old(out)@ + opt_field(lit_temperature(), *v));
        }
    } else {
        proof {
            assert(out@ =~= old(out)@ + opt_field(lit_temperature(), *v));
        }
    }
}

/// Append the top-p field, or nothing when it is absent.
fn push_opt_top_p(out: &mut Vec<u8>, v: &Option<String>)
    ensures
        final(out)@ == old(out)@ + opt_field(lit_top_p(), *v),
{
    if let Some(t) = v {
        out.push(44);
        out.push(34);
        out.push(116);
        out.push(111);
        out.push(112);
        out.push(95);
        out.push(112);
        out.push(34);
        out.push(58);
        proof {
            assert(out@ =~= old(out)@ + lit_top_p());
        }
        push_bytes(out, t.as_str().as_bytes());
        proof {
            assert(out@ =~= old(out)@ + opt_field(lit_top_p(), *v));
        }
    } else {
        proof {
            assert(out@ =~= old(out)@ + opt_field(lit_top_p(), *v));
        }
    }
}

/// Append `,"messages":[`.
fn push_lit_messages(out: &mut Vec<u8>)
    ensures
        final(out)@ == old(out)@ + lit_messages(),
{
    out.push(44);
    out.push(34);
    out.push(109);
    out.push(101);
    out.push(115);
    out.push(115);
    out.push(97);
    out.push(103);
    out.push(101);
    out.push(115);
    out.push(34);
    out.push(58);
    out.push(91);
    proof {
        assert(out@ =~= old(out)@ + lit_messages());
    }
}

/// Append the comma-separated renderings of all wire pairs.
fn push_pairs(out: &mut Vec<u8>, pairs: &Vec<WirePair>)
    ensures
        final(out)@ == old(out)@ + pairs_from(pairs_view(pairs@), 0),
{
    let ghost wv = pairs_view(pairs@);
    let ghost base = out@;
    let mut i: usize = 0;
    while i < pairs.len()
        invariant
            i <= pairs.len(),
            wv == pairs_view(pairs@),
            base == old(out)@,
            out@ + pairs_from(wv, i as int) == base + pairs_from(wv, 0),
        decreases pairs.len() - i,
    {
        let ghost before_pair = out@;
        if i > 0 {
            out.push(44);
        }
        push_pair(out, &pairs[i]);
        proof {
            assert(pairs_view(pairs@)[i as int] == pairs@[i as int]@);
            assert(out@ =~= before_pair + (if i > 0 {
                seq![44u8]
            } else {
                Seq::<u8>::empty()
            }) + pair_bytes(wv[i as int]));
            assert(out@ + pairs_from(wv, i as int + 1) =~= base + pairs_from(wv, 0));
        }
        i = i + 1;
    }
    proof {
        assert(pairs_from(wv, pairs@.len() as int) =~= Seq::<u8>::empty());
        assert(out@ =~= base + pairs_from(wv, 0));
    }
}

/// Append `],"stream":`.
fn push_lit_stream(out: &mut Vec<u8>)
    ensures
        final(out)@ == old(out)@ + lit_stream(),
{
    out.push(93);
    out.push(44);
    out.push(34);
    out.push(115);
    out.push(116);
    out.push(114);
    out.push(101);
    out.push(97);
    out.push(109);
    out.push(34);
    out.push(58);
    proof {
        assert(out@ =~= old(out)@ + lit_stream());
    }
}

/// Append the streaming flag and the closing brace.
fn push_stream_flag(out: &mut Vec<u8>, stream: bool)
    ensures
        final(out)@ == old(out)@ + (if stream {
            lit_true()
        } else {
            lit_false()
        }) + seq![125u8],
{
    if stream {
        out.push(116);
        out.push(114);
        out.push(117);
        out.push(101);
    } else {
        out.push(102);
        out.push(97);
        out.push(108);
        out.push(115);
        out.push(101);
    }
    out.push(125);
    proof {
        assert(out@ =~= old(out)@ + (if stream {
            lit_true()
        } else {
            lit_false()
        }) + seq![125u8]);
    }
}

/// Render the full JSON request body for the given parameters.
pub fn render_body(p: &Params) -> (r: Vec<u8>)
    ensures
        r@ == body_bytes(*p),
{
    let pairs = encode_messages(&p.messages);
    let mut out: Vec<u8> = Vec::new();
    push_lit_model(&mut out);
    push_json_string(&mut out, p.model.as_str());
    push_opt_temperature(&mut out, &p.temperature);
    push_opt_top_p(&mut out, &p.top_p);
    push_lit_messages(&mut out);
    push_pairs(&mut out, &pairs);
    push_lit_stream(&mut out);
    push_stream_flag(&mut out, p.stream);
    proof {
        assert(out@ == body_bytes(*p));
    }
    out
}

/// Re-encoding the same parameters yields byte-identical wire output: the
/// body is a pure function of the parameters, with no hidden state.
pub proof fn lemma_reencoding_identical(p: Params, b1: Seq<u8>, b2: Seq<u8>)
    requires
        b1 == body_bytes(p),
        b2 == body_bytes(p),
    ensures
        b1 == b2,
{
}

/// The characters of the fixed completions path.
pub open spec fn completions_path() -> Seq<char> {
    seq![
        '/',
        'v',
        '1',
        '/',
        'c',
        'h',
        'a',
        't',
        '/',
        'c',
        'o',
        'm',
        'p',
        'l',
        'e',
        't',
        'i',
        'o',
        'n',
        's',
    ]
}

/// The URL a completion request is sent to: the base URL with the fixed
/// well-known path appended.
pub fn completions_url(base: &str) -> (r: String)
    ensures
        r@ == base@ + completions_path(),
{
    let mut url = base.to_owned();
    url.append("/v1/chat/completions");
    proof {
        reveal_strlit("/v1/chat/completions");
        assert("/v1/chat/completions"@ =~= completions_path());
        assert(url@ =~= base@ + completions_path());
    }
    url
}

/// `Status Code: `
pub open spec fn lit_status_code() -> Seq<u8> {
    seq![83u8, 116u8, 97u8, 116u8, 117u8, 115u8, 32u8, 67u8, 111u8, 100u8, 101u8, 58u8, 32u8]
}

/// A line break followed by `Response: `.
pub open spec fn lit_response() -> Seq<u8> {
    seq![10u8, 82u8, 101u8, 115u8, 112u8, 111u8, 110u8, 115u8, 101u8, 58u8, 32u8]
}

/// The diagnostic message of a failed call: the status code's digits and
/// the full response body.
pub open spec fn status_message(status: u16, body: Seq<u8>) -> Seq<u8> {
    lit_status_code() + dec_digits(status as nat) + lit_response() + body
}

/// Whether a status code is a success.
pub open spec fn is_success(status: u16) -> bool {
    200 <= status < 300
}

/// Decide whether the response stream may be opened. On a non-success
/// status the call fails with the diagnostic message carrying the status
/// code and the response body, and the stream is not to be opened.
pub fn check_status(status: u16, body: &[u8]) -> (r: Result<(), Vec<u8>>)
    ensures
        r is Ok <==> is_success(status),
        r is Err ==> r->Err_0@ == status_message(status, body@),
{
    if 200 <= status && status < 300 {
        Ok(())
    } else {
        let mut msg: Vec<u8> = Vec::new();
        msg.push(83);
        msg.push(116);
        msg.push(97);
        msg.push(116);
        msg.push(117);
        msg.push(115);
        msg.push(32);
        msg.push(67);
        msg.push(111);
        msg.push(100);
        msg.push(101);
        msg.push(58);
        msg.push(32);
        proof {
            assert(msg@ =~= lit_status_code());
        }
        let mut digits = u16_digits(status);
        msg.append(&mut digits);
        let ghost before = msg@;
        msg.push(10);
        msg.push(82);
        msg.push(101);
        msg.push(115);
        msg.push(112);
        msg.push(111);
        msg.push(110);
        msg.push(115);
        msg.push(101);
        msg.push(58);
        msg.push(32);
        proof {
            assert(msg@ =~= before + lit_response());
        }
        push_bytes(&mut msg, body);
        proof {
            assert(msg@ =~= status_message(status, body@));
        }
        Err(msg)
    }
}

/// The diagnostic message of a failed call shows the status code's digits
/// right after its fixed prefix, and ends with the full response body.
pub proof fn lemma_error_message_shows_status_and_body(status: u16, body: Seq<u8>)
    ensures
        status_message(status, body).subrange(
            13,
            13 + dec_digits(status as nat).len() as int,
        ) == dec_digits(status as nat),
        status_message(status, body).subrange(
            status_message(status, body).len() - body.len(),
            status_message(status, body).len() as int,
        ) == body,
{
    let m = status_message(status, body);
    let d = dec_digits(status as nat).len() as int;
    assert(m.subrange(13, 13 + d) =~= dec_digits(status as nat));
    assert(m.subrange(m.len() - body.len(), m.len() as int) =~= body);
}

} // verus!
