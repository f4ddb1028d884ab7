//! The framed transport: `Content-Length` headers around JSON bodies.
//!
//! `encode_msg` renders a message as one frame.  `MessageCodec` is the
//! streaming decoder: bytes are fed in arbitrary chunks and complete
//! messages come out; what comes out depends only on the bytes fed, not
//! on how they were split.

use vstd::prelude::*;
use crate::json::{is_ws, is_digit, emit};
use crate::parse::{skip_ws, parse_doc, parse_json};
use crate::msg::{Message, MessageV, msg_v, msg_wf, msg_jval, jval_msg, msg_to_json, json_to_msg};
use crate::bytes::k_content_length;

verus! {

pub const CR: u8 = 0x0D;

pub const LF: u8 = 0x0A;

pub const SP: u8 = 0x20;

pub const COLON_B: u8 = 0x3A;

/// Why decoding failed.  Any of these ends the session: the transport
/// is corrupt.
#[derive(Debug, Clone, Copy, PartialEq, Eq, Structural)]
pub enum DecodeError {
    /// A header line without CRLF or colon, or an unreadable
    /// `Content-Length` value.
    MalformedHeader,
    /// The blank line came and no `Content-Length` had been seen.
    MissingContentLength,
    /// The frame body was not a JSON-RPC message.
    BadBody,
}

// ------------------------------------------------------------------
// Decimal length tokens.
// ------------------------------------------------------------------

/// The decimal rendering of `n`.
pub open spec fn dec_rep(n: nat) -> Seq<u8>
    decreases n,
{
    if n < 10 {
        seq![(0x30 + n) as u8]
    } else {
        dec_rep(n / 10).push((0x30 + n % 10) as u8)
    }
}

pub proof fn lemma_dec_rep_digits(n: nat)
    ensures
        dec_rep(n).len() >= 1,
        forall|i: int| 0 <= i < dec_rep(n).len() ==> is_digit(#[trigger] dec_rep(n)[i]),
    decreases n,
{
    if n >= 10 {
        lemma_dec_rep_digits(n / 10);
    }
}

/// Reading a decimal value left to right, refusing values that do not
/// fit a `usize`; what the header parser does with the length token.
pub open spec fn parse_usize_rec(v: Seq<u8>, i: int, acc: int) -> Option<int>
    decreases v.len() - i,
{
    if i < 0 || i >= v.len() {
        Some(acc)
    } else if !is_digit(v[i]) {
        None
    } else {
        let d = v[i] - 0x30;
        if acc * 10 + d > usize::MAX {
            None
        } else {
            parse_usize_rec(v, i + 1, acc * 10 + d)
        }
    }
}

pub open spec fn parse_usize(v: Seq<u8>) -> Option<int> {
    if v.len() == 0 {
        None
    } else {
        parse_usize_rec(v, 0, 0)
    }
}

/// Appending a digit to the token multiplies the value by ten and adds
/// the digit, overflow refused.
proof fn lemma_parse_usize_push(u: Seq<u8>, d: u8, i: int, acc: int)
    requires
        0 <= i <= u.len(),
        is_digit(d),
    ensures
        parse_usize_rec(u.push(d), i, acc) == (match parse_usize_rec(u, i, acc) {
            Some(x) => if x * 10 + (d - 0x30) > usize::MAX {
                None
            } else {
                Some(x * 10 + (d - 0x30))
            },
            None => None,
        }),
    decreases u.len() - i,
{
    if i < u.len() {
        assert(u.push(d)[i] == u[i]);
        if is_digit(u[i]) && acc * 10 + (u[i] - 0x30) <= usize::MAX {
            lemma_parse_usize_push(u, d, i + 1, acc * 10 + (u[i] - 0x30));
        }
    } else {
        assert(u.push(d)[i] == d);
        assert(parse_usize_rec(u, i, acc) == Some(acc));
        let d2 = d - 0x30;
        if acc * 10 + d2 <= usize::MAX {
            assert(parse_usize_rec(u.push(d), i + 1, acc * 10 + d2) == Some(acc * 10 + d2));
        }
    }
}

proof fn lemma_parse_usize_nonneg(v: Seq<u8>, i: int, acc: int)
    requires
        acc >= 0,
        parse_usize_rec(v, i, acc) is Some,
    ensures
        parse_usize_rec(v, i, acc)->0 >= 0,
    decreases v.len() - i,
{
    if 0 <= i < v.len() && is_digit(v[i]) && acc * 10 + (v[i] - 0x30) <= usize::MAX {
        lemma_parse_usize_nonneg(v, i + 1, acc * 10 + (v[i] - 0x30));
    }
}

/// The decimal rendering of a representable value is read back as that
/// value.
pub proof fn lemma_parse_dec_rep(n: nat)
    requires
        n <= usize::MAX,
    ensures
        parse_usize(dec_rep(n)) == Some(n as int),
    decreases n,
{
    lemma_dec_rep_digits(n);
    if n < 10 {
        assert(dec_rep(n) == seq![(0x30 + n) as u8]);
        assert(parse_usize_rec(dec_rep(n), 1, n as int) == Some(n as int));
    } else {
        lemma_parse_dec_rep(n / 10);
        let u = dec_rep(n / 10);
        let d = (0x30 + n % 10) as u8;
        lemma_parse_usize_push(u, d, 0, 0);
        assert((n / 10) * 10 + (n % 10) == n) by (nonlinear_arith);
    }
}

// ------------------------------------------------------------------
// Frames.
// ------------------------------------------------------------------

/// The one frame carrying `body`.
pub open spec fn frame_of(body: Seq<u8>) -> Seq<u8> {
    k_content_length() + seq![SP] + dec_rep(body.len()) + seq![CR, LF, CR, LF] + body
}

/// The wire bytes of a message.
pub open spec fn encoded_msg(m: MessageV) -> Seq<u8> {
    frame_of(emit(msg_jval(m)))
}

// ------------------------------------------------------------------
// Header scanning.
// ------------------------------------------------------------------

/// Index of the first occurrence of `b` at or after `i`, or `s.len()`
/// when there is none.
pub open spec fn find_byte(s: Seq<u8>, b: u8, i: int) -> int
    decreases s.len() - i,
{
    if 0 <= i < s.len() {
        if s[i] == b {
            i
        } else {
            find_byte(s, b, i + 1)
        }
    } else if i < 0 {
        s.len() as int
    } else {
        i
    }
}

pub proof fn lemma_find_byte_ge(s: Seq<u8>, b: u8, i: int)
    requires
        0 <= i,
    ensures
        i <= find_byte(s, b, i),
    decreases s.len() - i,
{
    if 0 <= i < s.len() && s[i] != b {
        lemma_find_byte_ge(s, b, i + 1);
    }
}

pub proof fn lemma_find_byte_props(s: Seq<u8>, b: u8, i: int)
    requires
        0 <= i <= s.len(),
    ensures
        i <= find_byte(s, b, i) <= s.len(),
        find_byte(s, b, i) < s.len() ==> s[find_byte(s, b, i)] == b,
        forall|m: int| i <= m < find_byte(s, b, i) ==> s[m] != b,
    decreases s.len() - i,
{
    if i < s.len() && s[i] != b {
        lemma_find_byte_props(s, b, i + 1);
    }
}

/// Where a scan must stop: no occurrence before `pos`, one at `pos` (or
/// `pos` is the end).
pub proof fn lemma_find_byte_exact(s: Seq<u8>, b: u8, i: int, pos: int)
    requires
        0 <= i <= pos <= s.len(),
        forall|m: int| i <= m < pos ==> s[m] != b,
        pos == s.len() || s[pos] == b,
    ensures
        find_byte(s, b, i) == pos,
    decreases pos - i,
{
    if i < pos {
        lemma_find_byte_exact(s, b, i + 1, pos);
    }
}

/// Index just after the trailing whitespace run ending at `i`.
pub open spec fn rskip_ws(s: Seq<u8>, i: int) -> int
    decreases i,
{
    if 0 < i <= s.len() && is_ws(s[i - 1]) {
        rskip_ws(s, i - 1)
    } else {
        i
    }
}

/// The value of a header, its surrounding blanks removed.
pub open spec fn trim(s: Seq<u8>) -> Seq<u8> {
    let a = skip_ws(s, 0);
    let b = rskip_ws(s, s.len() as int);
    if a >= b {
        Seq::empty()
    } else {
        s.subrange(a, b)
    }
}

/// One pass over the header section.  `acc` carries the last
/// `Content-Length` seen.
pub enum HdrR {
    /// The blank line has not arrived yet.
    More,
    /// A line broke the header grammar.
    Fail(DecodeError),
    /// Headers complete: the body starts here, with this length if one
    /// was given.
    Done { body_start: int, len: Option<int> },
}

pub open spec fn hdr_loop(s: Seq<u8>, i: int, acc: Option<int>) -> HdrR
    decreases s.len() - i, 0nat
        via hdr_loop_dec
{
    if i < 0 {
        HdrR::Fail(DecodeError::MalformedHeader)
    } else {
        let f = find_byte(s, LF, i);
        if f >= s.len() {
            HdrR::More
        } else if f < i + 1 || s[f - 1] != CR {
            HdrR::Fail(DecodeError::MalformedHeader)
        } else {
            let interior = s.subrange(i, f - 1);
            if interior.len() == 0 {
                HdrR::Done { body_start: f + 1, len: acc }
            } else {
                let c = find_byte(interior, COLON_B, 0);
                if c >= interior.len() {
                    HdrR::Fail(DecodeError::MalformedHeader)
                } else if interior.subrange(0, c + 1) == k_content_length() {
                    let v = trim(interior.skip(c + 1));
                    match parse_usize(v) {
                        Some(n) => hdr_loop(s, f + 1, Some(n)),
                        None => HdrR::Fail(DecodeError::MalformedHeader),
                    }
                } else {
                    hdr_loop(s, f + 1, acc)
                }
            }
        }
    }
}

#[via_fn]
proof fn hdr_loop_dec(s: Seq<u8>, i: int, acc: Option<int>) {
    if i >= 0 {
        lemma_find_byte_ge(s, LF, i);
    }
}

/// What one attempt at the buffer yields.
pub enum ExtractR {
    More,
    Fail(DecodeError),
    Got { body: Seq<u8>, end: int },
}

/// Extract one frame from the front of the buffer, if it is complete.
pub open spec fn try_extract(s: Seq<u8>) -> ExtractR {
    match hdr_loop(s, 0, None) {
        HdrR::More => ExtractR::More,
        HdrR::Fail(e) => ExtractR::Fail(e),
        HdrR::Done { body_start, len } => match len {
            None => ExtractR::Fail(DecodeError::MissingContentLength),
            Some(n) => if body_start + n <= s.len() {
                ExtractR::Got { body: s.subrange(body_start, body_start + n), end: body_start + n }
            } else {
                ExtractR::More
            },
        },
    }
}

/// What one attempt at the buffer yields, as a message.
pub enum MsgExtract {
    More,
    Fail(DecodeError),
    Msg(MessageV, int),
}

/// Extract one message: a complete frame whose body is a JSON-RPC
/// message.
pub open spec fn msg_extract(s: Seq<u8>) -> MsgExtract {
    match try_extract(s) {
        ExtractR::More => MsgExtract::More,
        ExtractR::Fail(e) => MsgExtract::Fail(e),
        ExtractR::Got { body, end } => match parse_doc(body) {
            None => MsgExtract::Fail(DecodeError::BadBody),
            Some(j) => match jval_msg(j) {
                None => MsgExtract::Fail(DecodeError::BadBody),
                Some(m) => MsgExtract::Msg(m, end),
            },
        },
    }
}

/// Every message a byte stream holds, in order, up to the first stall
/// or error.
pub open spec fn stream_decode(s: Seq<u8>) -> Seq<MessageV>
    decreases s.len(),
{
    match msg_extract(s) {
        MsgExtract::Msg(m, end) => if 1 <= end <= s.len() {
            seq![m] + stream_decode(s.skip(end))
        } else {
            seq![m]
        },
        _ => Seq::empty(),
    }
}

/// The suffix left after the first `n` messages of the stream.
pub open spec fn drop_msgs(s: Seq<u8>, n: nat) -> Seq<u8>
    decreases n,
{
    if n == 0 {
        s
    } else {
        match msg_extract(s) {
            MsgExtract::Msg(m, end) => if 1 <= end <= s.len() {
                drop_msgs(s.skip(end), (n - 1) as nat)
            } else {
                s
            },
            _ => s,
        }
    }
}

// ------------------------------------------------------------------
// The encoder.
// ------------------------------------------------------------------

/// The decimal token of `n`.
pub fn dec_digits(n: usize) -> (r: Vec<u8>)
    ensures
        r@ == dec_rep(n as nat),
    decreases n,
{
    if n < 10 {
        let mut v: Vec<u8> = Vec::new();
        v.push(0x30 + (n as u8));
        proof {
            assert(v@ =~= dec_rep(n as nat));
        }
        v
    } else {
        let mut v = dec_digits(n / 10);
        v.push(0x30 + ((n % 10) as u8));
        v
    }
}

/// One frame around the rendered message.
pub fn encode_msg(m: &Message) -> (out: Vec<u8>)
    ensures
        out@ == encoded_msg(msg_v(*m)),
{
    let doc = msg_to_json(m);
    let body = crate::json::emit_json(&doc);
    let mut out = crate::bytes::b_content_length();
    out.push(SP);
    let digits = dec_digits(body.len());
    proof {
        assert(out@ =~= k_content_length() + seq![SP] + digits@.subrange(0, 0));
    }
    let mut k: usize = 0;
    while k < digits.len()
        invariant
            k <= digits@.len(),
            out@ == k_content_length() + seq![SP] + digits@.subrange(0, k as int),
        decreases digits@.len() - k,
    {
        out.push(digits[k]);
        k = k + 1;
        proof {
            assert(k_content_length() + seq![SP] + digits@.subrange(0, k as int) =~= (
            k_content_length() + seq![SP] + digits@.subrange(0, k - 1)).push(digits@[k - 1]));
        }
    }
    proof {
        assert(digits@.subrange(0, digits@.len() as int) =~= digits@);
    }
    out.push(CR);
    out.push(LF);
    out.push(CR);
    out.push(LF);
    proof {
        assert(out@ =~= k_content_length() + seq![SP] + dec_rep(body@.len() as nat) + seq![
            CR,
            LF,
            CR,
            LF,
        ] + body@.subrange(0, 0));
    }
    let mut b: usize = 0;
    while b < body.len()
        invariant
            b <= body@.len(),
            out@ == k_content_length() + seq![SP] + dec_rep(body@.len() as nat) + seq![
                CR,
                LF,
                CR,
                LF,
            ] + body@.subrange(0, b as int),
        decreases body@.len() - b,
    {
        out.push(body[b]);
        b = b + 1;
        proof {
            assert(k_content_length() + seq![SP] + dec_rep(body@.len() as nat) + seq![
                CR,
                LF,
                CR,
                LF,
            ] + body@.subrange(0, b as int) =~= (k_content_length() + seq![SP] + dec_rep(
                body@.len() as nat,
            ) + seq![CR, LF, CR, LF] + body@.subrange(0, b - 1)).push(body@[b - 1]));
        }
    }
    proof {
        assert(body@.subrange(0, body@.len() as int) =~= body@);
        assert(out@ =~= encoded_msg(msg_v(*m)));
    }
    out
}


// ------------------------------------------------------------------
// Stability: what a complete prefix of the stream means does not
// change when more bytes arrive.
// ------------------------------------------------------------------

proof fn lemma_find_byte_stable(s: Seq<u8>, ext: Seq<u8>, b: u8, i: int)
    requires
        0 <= i,
        find_byte(s, b, i) < s.len(),
    ensures
        find_byte(s + ext, b, i) == find_byte(s, b, i),
    decreases s.len() - i,
{
    if i < s.len() {
        assert((s + ext)[i] == s[i]);
        if s[i] != b {
            lemma_find_byte_stable(s, ext, b, i + 1);
        }
    }
}

/// A `Done` answer starts its body inside the buffer, past `i`, and
/// any length it carries is nonnegative.
proof fn lemma_hdr_done_bounds(s: Seq<u8>, i: int, acc: Option<int>)
    requires
        0 <= i,
        hdr_loop(s, i, acc) is Done,
        acc is Some ==> acc->0 >= 0,
    ensures
        i < hdr_loop(s, i, acc)->Done_body_start <= s.len(),
        hdr_loop(s, i, acc)->Done_len is Some ==> hdr_loop(s, i, acc)->Done_len->0 >= 0,
    decreases s.len() - i,
{
    let f = find_byte(s, LF, i);
    lemma_find_byte_props(s, LF, if i <= s.len() { i } else { s.len() as int });
    if i <= s.len() {
        lemma_find_byte_props(s, LF, i);
    }
    if f < s.len() && f >= i + 1 && s[f - 1] == CR {
        let interior = s.subrange(i, f - 1);
        if interior.len() != 0 {
            let c = find_byte(interior, COLON_B, 0);
            if c < interior.len() {
                if interior.subrange(0, c + 1) == k_content_length() {
                    match parse_usize(trim(interior.skip(c + 1))) {
                        Some(n) => {
                            lemma_parse_usize_nonneg(trim(interior.skip(c + 1)), 0, 0);
                            lemma_hdr_done_bounds(s, f + 1, Some(n));
                        },
                        None => {},
                    }
                } else {
                    lemma_hdr_done_bounds(s, f + 1, acc);
                }
            }
        }
    }
}

/// A settled header section reads the same however the stream grows.
proof fn lemma_hdr_stable(s: Seq<u8>, ext: Seq<u8>, i: int, acc: Option<int>)
    requires
        0 <= i,
        !(hdr_loop(s, i, acc) is More),
    ensures
        hdr_loop(s + ext, i, acc) == hdr_loop(s, i, acc),
    decreases s.len() - i,
{
    let f = find_byte(s, LF, i);
    if i <= s.len() {
        lemma_find_byte_props(s, LF, i);
    } else {
        lemma_find_byte_ge(s, LF, i);
    }
    if f < s.len() {
        lemma_find_byte_stable(s, ext, LF, i);
        if f >= i + 1 && s[f - 1] == CR {
            assert((s + ext)[f - 1] == s[f - 1]);
            let interior = s.subrange(i, f - 1);
            assert((s + ext).subrange(i, f - 1) =~= interior);
            if interior.len() != 0 {
                let c = find_byte(interior, COLON_B, 0);
                if c < interior.len() {
                    if interior.subrange(0, c + 1) == k_content_length() {
                        match parse_usize(trim(interior.skip(c + 1))) {
                            Some(n) => {
                                lemma_hdr_stable(s, ext, f + 1, Some(n));
                            },
                            None => {},
                        }
                    } else {
                        lemma_hdr_stable(s, ext, f + 1, acc);
                    }
                }
            }
        }
    }
}

/// A settled extraction reads the same however the stream grows.
pub proof fn lemma_msg_extract_stable(s: Seq<u8>, ext: Seq<u8>)
    requires
        !(msg_extract(s) is More),
    ensures
        msg_extract(s + ext) == msg_extract(s),
{
    assert(!(hdr_loop(s, 0, None) is More) || (try_extract(s) is More)) by {
        if hdr_loop(s, 0, None) is More {
        }
    }
    match hdr_loop(s, 0, None) {
        HdrR::More => {},
        HdrR::Fail(e) => {
            lemma_hdr_stable(s, ext, 0, None);
        },
        HdrR::Done { body_start, len } => {
            lemma_hdr_stable(s, ext, 0, None);
            lemma_hdr_done_bounds(s, 0, None);
            match len {
                None => {},
                Some(n) => {
                    assert(body_start + n <= s.len());
                    assert((s + ext).subrange(body_start, body_start + n) =~= s.subrange(
                        body_start,
                        body_start + n,
                    ));
                },
            }
        },
    }
}

/// An extracted message ends at a real position: past the start, within
/// the buffer.
pub proof fn lemma_msg_extract_end(s: Seq<u8>)
    requires
        msg_extract(s) is Msg,
    ensures
        1 <= msg_extract(s)->Msg_1 <= s.len(),
{
    lemma_hdr_done_bounds(s, 0, None);
}

/// The messages before any cut are stable when the stream grows, and
/// the leftover suffix grows by exactly the new bytes.
pub proof fn lemma_stream_prefix_stable(s: Seq<u8>, ext: Seq<u8>, n: nat)
    requires
        n <= stream_decode(s).len(),
    ensures
        n <= stream_decode(s + ext).len(),
        stream_decode(s + ext).take(n as int) == stream_decode(s).take(n as int),
        drop_msgs(s + ext, n) == drop_msgs(s, n) + ext,
    decreases n,
{
    if n == 0 {
        assert(stream_decode(s + ext).take(0) =~= stream_decode(s).take(0));
    } else {
        match msg_extract(s) {
            MsgExtract::Msg(m, end) => {
                lemma_msg_extract_end(s);
                lemma_msg_extract_stable(s, ext);
                assert((s + ext).skip(end) =~= s.skip(end) + ext);
                lemma_stream_prefix_stable(s.skip(end), ext, (n - 1) as nat);
                assert(stream_decode(s) == seq![m] + stream_decode(s.skip(end)));
                assert(stream_decode(s + ext) == seq![m] + stream_decode(s.skip(end) + ext));
                assert(stream_decode(s + ext).take(n as int) =~= seq![m] + stream_decode(
                    s.skip(end) + ext,
                ).take(n - 1));
                assert(stream_decode(s).take(n as int) =~= seq![m] + stream_decode(
                    s.skip(end),
                ).take(n - 1));
            },
            _ => {
                assert(stream_decode(s).len() == 0);
            },
        }
    }
}

/// Dropping `n` messages leaves the stream that decodes to the rest.
pub proof fn lemma_stream_at(s: Seq<u8>, n: nat)
    requires
        n <= stream_decode(s).len(),
    ensures
        stream_decode(drop_msgs(s, n)) == stream_decode(s).skip(n as int),
    decreases n,
{
    if n == 0 {
        assert(stream_decode(s).skip(0) =~= stream_decode(s));
    } else {
        match msg_extract(s) {
            MsgExtract::Msg(m, end) => {
                lemma_msg_extract_end(s);
                lemma_stream_at(s.skip(end), (n - 1) as nat);
                assert(stream_decode(s) == seq![m] + stream_decode(s.skip(end)));
                assert((seq![m] + stream_decode(s.skip(end))).skip(n as int) =~= stream_decode(
                    s.skip(end),
                ).skip(n - 1));
            },
            _ => {
                assert(stream_decode(s).len() == 0);
            },
        }
    }
}

/// Consuming one more message advances the leftover by its frame.
pub proof fn lemma_drop_msgs_snoc(s: Seq<u8>, n: nat)
    requires
        n < stream_decode(s).len(),
        msg_extract(drop_msgs(s, n)) is Msg,
    ensures
        drop_msgs(s, n + 1) == drop_msgs(s, n).skip(msg_extract(drop_msgs(s, n))->Msg_1),
    decreases n,
{
    if n == 0 {
        lemma_msg_extract_end(s);
        match msg_extract(s) {
            MsgExtract::Msg(m, end) => {
                assert(drop_msgs(s.skip(end), 0) == s.skip(end));
                assert(drop_msgs(s, 1) == s.skip(end));
            },
            _ => {
                assert(stream_decode(s).len() == 0);
            },
        }
    } else {
        match msg_extract(s) {
            MsgExtract::Msg(m, end) => {
                lemma_msg_extract_end(s);
                assert(stream_decode(s) == seq![m] + stream_decode(s.skip(end)));
                assert(drop_msgs(s, n) == drop_msgs(s.skip(end), (n - 1) as nat));
                assert(drop_msgs(s, n + 1) == drop_msgs(s.skip(end), n));
                lemma_drop_msgs_snoc(s.skip(end), (n - 1) as nat);
            },
            _ => {
                assert(stream_decode(s).len() == 0);
            },
        }
    }
}


// ------------------------------------------------------------------
// The streaming decoder.
// ------------------------------------------------------------------

fn x_find_byte(s: &Vec<u8>, b: u8, i: usize) -> (r: usize)
    requires
        i <= s@.len(),
    ensures
        r as int == find_byte(s@, b, i as int),
        i <= r <= s@.len(),
{
    let mut k: usize = i;
    while k < s.len() && s[k] != b
        invariant
            i <= k <= s@.len(),
            find_byte(s@, b, i as int) == find_byte(s@, b, k as int),
        decreases s@.len() - k,
    {
        k = k + 1;
    }
    k
}

fn x_rskip_ws(s: &Vec<u8>) -> (r: usize)
    ensures
        r as int == rskip_ws(s@, s@.len() as int),
        r <= s@.len(),
{
    let mut k: usize = s.len();
    while k > 0 && (s[k - 1] == 0x20 || s[k - 1] == 0x09 || s[k - 1] == 0x0A || s[k - 1] == 0x0D)
        invariant
            k <= s@.len(),
            rskip_ws(s@, s@.len() as int) == rskip_ws(s@, k as int),
        decreases k,
    {
        k = k - 1;
    }
    k
}

fn x_parse_usize(v: &Vec<u8>) -> (r: Option<usize>)
    ensures
        match r {
            Some(n) => parse_usize(v@) == Some(n as int),
            None => parse_usize(v@) is None,
        },
{
    if v.len() == 0 {
        return None;
    }
    let mut acc: usize = 0;
    let mut k: usize = 0;
    while k < v.len()
        invariant
            k <= v@.len(),
            parse_usize_rec(v@, 0, 0) == parse_usize_rec(v@, k as int, acc as int),
        decreases v@.len() - k,
    {
        let b = v[k];
        if !(0x30 <= b && b <= 0x39) {
            return None;
        }
        let d = (b - 0x30) as u128;
        let wide = (acc as u128) * 10 + d;
        if wide > (usize::MAX as u128) {
            return None;
        }
        acc = wide as usize;
        k = k + 1;
    }
    Some(acc)
}

/// The streaming frame-and-message decoder.  Bytes go in through
/// `feed`, in whatever pieces the transport delivers them; messages
/// come out of `poll`.  The ghost `fed` and `emitted` fields record the
/// whole history, and the decoder's contracts say that `emitted` is
/// always a prefix of `stream_decode(fed)`: what comes out depends on
/// the bytes alone, never on how they were split.
pub struct MessageCodec {
    /// The unconsumed bytes.
    pub buf: Vec<u8>,
    /// Every byte ever fed, in order.
    pub fed: Ghost<Seq<u8>>,
    /// Every message ever returned, in order.
    pub emitted: Ghost<Seq<MessageV>>,
}

impl MessageCodec {
    /// The decoder's invariant: the messages handed out so far are the
    /// first of the stream, and the buffer holds exactly the unconsumed
    /// suffix.
    pub open spec fn inv(self) -> bool {
        &&& self.emitted@.len() <= stream_decode(self.fed@).len()
        &&& self.emitted@ == stream_decode(self.fed@).take(self.emitted@.len() as int)
        &&& self.buf@ == drop_msgs(self.fed@, self.emitted@.len())
    }

    /// Whether the decoder has nothing complete left in its buffer.
    pub open spec fn drained(self) -> bool {
        !(msg_extract(self.buf@) is Msg)
    }

    pub fn new() -> (r: MessageCodec)
        ensures
            r.inv(),
            r.fed@ == Seq::<u8>::empty(),
            r.emitted@ == Seq::<MessageV>::empty(),
    {
        let r = MessageCodec { buf: Vec::new(), fed: Ghost(Seq::empty()), emitted: Ghost(
            Seq::empty(),
        ) };
        proof {
            assert(r.buf@ =~= drop_msgs(r.fed@, 0));
            assert(r.emitted@ =~= stream_decode(r.fed@).take(0));
        }
        r
    }

    /// Hand the decoder the next chunk of the byte stream.
    pub fn feed(&mut self, chunk: &Vec<u8>)
        requires
            old(self).inv(),
        ensures
            final(self).inv(),
            final(self).fed@ == old(self).fed@ + chunk@,
            final(self).emitted@ == old(self).emitted@,
    {
        let mut k: usize = 0;
        while k < chunk.len()
            invariant
                k <= chunk@.len(),
                self.buf@ == old(self).buf@ + chunk@.subrange(0, k as int),
                self.fed == old(self).fed,
                self.emitted == old(self).emitted,
            decreases chunk@.len() - k,
        {
            self.buf.push(chunk[k]);
            k = k + 1;
            proof {
                assert(old(self).buf@ + chunk@.subrange(0, k as int) =~= (old(self).buf@
                    + chunk@.subrange(0, k - 1)).push(chunk@[k - 1]));
            }
        }
        proof {
            assert(chunk@.subrange(0, chunk@.len() as int) =~= chunk@);
        }
        let ghost newfed = self.fed@ + chunk@;
        proof {
            let n = self.emitted@.len();
            lemma_stream_prefix_stable(self.fed@, chunk@, n);
            assert(stream_decode(newfed).take(n as int) == stream_decode(self.fed@).take(
                n as int,
            ));
        }
        self.fed = Ghost(newfed);
    }

    /// Take the next complete message out of the buffer.  `Ok(None)`
    /// means the stream so far has been decoded in full and more bytes
    /// are needed; an error means the stream is corrupt from here on.
    pub fn poll(&mut self) -> (r: Result<Option<Message>, DecodeError>)
        requires
            old(self).inv(),
        ensures
            final(self).inv(),
            final(self).fed@ == old(self).fed@,
            match r {
                Ok(Some(m)) => {
                    &&& old(self).emitted@.len() < stream_decode(old(self).fed@).len()
                    &&& msg_v(m) == stream_decode(old(self).fed@)[old(self).emitted@.len() as int]
                    &&& final(self).emitted@ == old(self).emitted@.push(msg_v(m))
                },
                Ok(None) => {
                    &&& *final(self) == *old(self)
                    &&& final(self).emitted@ == stream_decode(old(self).fed@)
                    &&& final(self).drained()
                },
                Err(e) => {
                    &&& *final(self) == *old(self)
                    &&& final(self).emitted@ == stream_decode(old(self).fed@)
                    &&& msg_extract(drop_msgs(old(self).fed@, old(self).emitted@.len()))
                        == MsgExtract::Fail(e)
                },
            },
    {
        let ghost bufv = self.buf@;
        let ghost n = self.emitted@.len();
        proof {
            lemma_stream_at(self.fed@, n);
        }
        let mut i: usize = 0;
        let mut acc: Option<usize> = None;
        let ghost acc_spec: Option<int> = None;
        loop
            invariant
                self == old(self),
                bufv == self.buf@,
                n == self.emitted@.len(),
                old(self).inv(),
                stream_decode(drop_msgs(old(self).fed@, n)) == stream_decode(old(self).fed@).skip(
                    n as int,
                ),
                i <= bufv.len(),
                acc_spec == (match acc {
                    Some(u) => Some(u as int),
                    None => None::<int>,
                }),
                hdr_loop(bufv, 0, None) == hdr_loop(bufv, i as int, acc_spec),
            decreases bufv.len() - i,
        {
            let f = x_find_byte(&self.buf, LF, i);
            if f >= self.buf.len() {
                proof {
                    assert(msg_extract(bufv) is More);
                    assert(stream_decode(bufv) =~= Seq::<MessageV>::empty());
                    assert(stream_decode(old(self).fed@).skip(n as int) =~= Seq::<
                        MessageV,
                    >::empty());
                    assert(stream_decode(old(self).fed@).len() == n);
                    assert(self.emitted@ =~= stream_decode(old(self).fed@));
                }
                return Ok(None);
            }
            if f < i + 1 || self.buf[f - 1] != CR {
                proof {
                    assert(msg_extract(bufv) == MsgExtract::Fail(DecodeError::MalformedHeader));
                    assert(stream_decode(bufv) =~= Seq::<MessageV>::empty());
                    assert(stream_decode(old(self).fed@).len() == n);
                    assert(self.emitted@ =~= stream_decode(old(self).fed@));
                }
                return Err(DecodeError::MalformedHeader);
            }
            let interior = crate::parse::copy_range(&self.buf, i, f - 1);
            if interior.len() == 0 {
                // headers complete
                match acc {
                    None => {
                        proof {
                            assert(msg_extract(bufv) == MsgExtract::Fail(
                                DecodeError::MissingContentLength,
                            ));
                            assert(stream_decode(bufv) =~= Seq::<MessageV>::empty());
                            assert(stream_decode(old(self).fed@).len() == n);
                            assert(self.emitted@ =~= stream_decode(old(self).fed@));
                        }
                        return Err(DecodeError::MissingContentLength);
                    },
                    Some(clen) => {
                        let body_start = f + 1;
                        if clen > self.buf.len() - body_start {
                            proof {
                                assert(msg_extract(bufv) is More);
                                assert(stream_decode(bufv) =~= Seq::<MessageV>::empty());
                                assert(stream_decode(old(self).fed@).len() == n);
                                assert(self.emitted@ =~= stream_decode(old(self).fed@));
                            }
                            return Ok(None);
                        }
                        let end = body_start + clen;
                        let body = crate::parse::copy_range(&self.buf, body_start, end);
                        proof {
                            assert(try_extract(bufv) == ExtractR::Got {
                                body: body@,
                                end: end as int,
                            });
                        }
                        match crate::parse::parse_json(&body) {
                            None => {
                                proof {
                                    assert(msg_extract(bufv) == MsgExtract::Fail(
                                        DecodeError::BadBody,
                                    ));
                                    assert(stream_decode(bufv) =~= Seq::<MessageV>::empty());
                                    assert(stream_decode(old(self).fed@).len() == n);
                                    assert(self.emitted@ =~= stream_decode(old(self).fed@));
                                }
                                return Err(DecodeError::BadBody);
                            },
                            Some(doc) => {
                                match crate::msg::json_to_msg(&doc) {
                                    None => {
                                        proof {
                                            assert(msg_extract(bufv) == MsgExtract::Fail(
                                                DecodeError::BadBody,
                                            ));
                                            assert(stream_decode(bufv) =~= Seq::<
                                                MessageV,
                                            >::empty());
                                            assert(stream_decode(old(self).fed@).len() == n);
                                            assert(self.emitted@ =~= stream_decode(
                                                old(self).fed@,
                                            ));
                                        }
                                        return Err(DecodeError::BadBody);
                                    },
                                    Some(m) => {
                                        proof {
                                            assert(msg_extract(bufv) == MsgExtract::Msg(
                                                msg_v(m),
                                                end as int,
                                            ));
                                            lemma_msg_extract_end(bufv);
                                            assert(stream_decode(bufv) == seq![msg_v(m)]
                                                + stream_decode(bufv.skip(end as int)));
                                            assert(stream_decode(old(self).fed@).skip(n as int)[0]
                                                == msg_v(m));
                                            assert(stream_decode(old(self).fed@).len() > n);
                                            assert(stream_decode(old(self).fed@)[n as int]
                                                == msg_v(m));
                                        }
                                        let rest = crate::parse::copy_range(
                                            &self.buf,
                                            end,
                                            self.buf.len(),
                                        );
                                        self.buf = rest;
                                        proof {
                                            lemma_drop_msgs_snoc(old(self).fed@, n);
                                            assert(self.buf@ =~= bufv.skip(end as int));
                                            assert(self.buf@ == drop_msgs(old(self).fed@, n + 1));
                                            let st = stream_decode(old(self).fed@);
                                            assert(st.take(n + 1 as int) =~= st.take(
                                                n as int,
                                            ).push(st[n as int]));
                                        }
                                        self.emitted = Ghost(self.emitted@.push(msg_v(m)));
                                        return Ok(Some(m));
                                    },
                                }
                            },
                        }
                    },
                }
            } else {
                // one header line
                let c = x_find_byte(&interior, COLON_B, 0);
                if c >= interior.len() {
                    proof {
                        assert(msg_extract(bufv) == MsgExtract::Fail(DecodeError::MalformedHeader));
                        assert(stream_decode(bufv) =~= Seq::<MessageV>::empty());
                        assert(stream_decode(old(self).fed@).len() == n);
                        assert(self.emitted@ =~= stream_decode(old(self).fed@));
                    }
                    return Err(DecodeError::MalformedHeader);
                }
                let head = crate::parse::copy_range(&interior, 0, c + 1);
                let name = crate::bytes::b_content_length();
                if crate::bytes::bytes_eq(&head, &name) {
                    let value = crate::parse::copy_range(&interior, c + 1, interior.len());
                    proof {
                        assert(value@ =~= interior@.skip(c + 1));
                    }
                    let a = crate::parse::x_skip_ws(&value, 0);
                    let b = x_rskip_ws(&value);
                    let trimmed = if a >= b {
                        Vec::new()
                    } else {
                        crate::parse::copy_range(&value, a, b)
                    };
                    proof {
                        assert(trimmed@ =~= trim(value@));
                    }
                    match x_parse_usize(&trimmed) {
                        Some(nval) => {
                            acc = Some(nval);
                            proof {
                                acc_spec = Some(nval as int);
                            }
                            i = f + 1;
                        },
                        None => {
                            proof {
                                assert(msg_extract(bufv) == MsgExtract::Fail(
                                    DecodeError::MalformedHeader,
                                ));
                                assert(stream_decode(bufv) =~= Seq::<MessageV>::empty());
                                assert(stream_decode(old(self).fed@).len() == n);
                                assert(self.emitted@ =~= stream_decode(old(self).fed@));
                            }
                            return Err(DecodeError::MalformedHeader);
                        },
                    }
                } else {
                    i = f + 1;
                }
            }
        }
    }
}


// ------------------------------------------------------------------
// The transport round trip.
// ------------------------------------------------------------------

/// Decoding inverts encoding: the frame of a well-formed message is
/// extracted as exactly that message, consuming exactly the frame.
pub proof fn lemma_message_wire_round_trip(m: MessageV)
    requires
        msg_wf(m),
        emit(msg_jval(m)).len() <= usize::MAX,
    ensures
        msg_extract(encoded_msg(m)) == MsgExtract::Msg(m, encoded_msg(m).len() as int),
        stream_decode(encoded_msg(m)) == seq![m],
{
    let body = emit(msg_jval(m));
    let bl = body.len() as int;
    let d = dec_rep(body.len());
    let dl = d.len() as int;
    let s = encoded_msg(m);
    lemma_dec_rep_digits(body.len());
    assert(k_content_length().len() == 15);
    assert(s.len() == 20 + dl + bl);
    // the byte at every position of the header
    assert forall|u: int| 0 <= u < 15 implies s[u] == k_content_length()[u] by {}
    assert(s[15] == SP);
    assert forall|u: int| 16 <= u < 16 + dl implies s[u] == d[u - 16] by {}
    assert(s[16 + dl] == CR);
    assert(s[17 + dl] == LF);
    assert(s[18 + dl] == CR);
    assert(s[19 + dl] == LF);
    assert forall|u: int| 20 + dl <= u < s.len() implies s[u] == body[u - 20 - dl] by {}
    // the first line
    assert forall|u: int| 0 <= u < 17 + dl implies s[u] != LF by {
        if u < 15 {
            assert(s[u] == k_content_length()[u]);
        } else if 16 <= u < 16 + dl {
            assert(is_digit(d[u - 16]));
        }
    }
    lemma_find_byte_exact(s, LF, 0, 17 + dl);
    let interior = s.subrange(0, 16 + dl);
    assert(interior.len() == 16 + dl);
    // the colon
    assert forall|u: int| 0 <= u < 14 implies interior[u] != COLON_B by {
        assert(interior[u] == k_content_length()[u]);
    }
    assert(interior[14] == k_content_length()[14]);
    assert(interior[14] == COLON_B);
    lemma_find_byte_exact(interior, COLON_B, 0, 14);
    assert(interior.subrange(0, 15) =~= k_content_length());
    // the value
    let v = interior.skip(15);
    assert(v.len() == 1 + dl);
    assert(v[0] == SP);
    assert forall|u: int| 1 <= u < 1 + dl implies v[u] == d[u - 1] by {
        assert(v[u] == interior[u + 15]);
        assert(interior[u + 15] == s[u + 15]);
    }
    assert(crate::parse::skip_ws(v, 0) == 1) by {
        assert(is_ws(v[0]));
        assert(is_digit(v[1]));
        assert(!is_ws(v[1]));
        assert(crate::parse::skip_ws(v, 1) == 1);
    }
    assert(rskip_ws(v, v.len() as int) == v.len()) by {
        assert(is_digit(v[v.len() - 1]));
        assert(!is_ws(v[v.len() - 1]));
    }
    assert(trim(v) =~= d);
    lemma_parse_dec_rep(body.len());
    assert(parse_usize(trim(v)) == Some(bl));
    // the blank line
    assert forall|u: int| 18 + dl <= u < 19 + dl implies s[u] != LF by {}
    lemma_find_byte_exact(s, LF, 18 + dl, 19 + dl);
    assert(s.subrange(18 + dl, 18 + dl) =~= Seq::<u8>::empty());
    assert(hdr_loop(s, 18 + dl, Some(bl)) == HdrR::Done { body_start: 20 + dl, len: Some(bl) });
    assert(hdr_loop(s, 0, None) == HdrR::Done { body_start: 20 + dl, len: Some(bl) });
    // the body
    assert(s.subrange(20 + dl, 20 + dl + bl) =~= body);
    assert(try_extract(s) == ExtractR::Got { body, end: s.len() as int });
    crate::msg::lemma_msg_jval_wf(m);
    crate::roundtrip::lemma_json_round_trip(msg_jval(m));
    crate::msg::lemma_msg_round_trip(m);
    assert(msg_extract(s) == MsgExtract::Msg(m, s.len() as int));
    // the stream holds this one message
    assert(s.skip(s.len() as int) =~= Seq::<u8>::empty());
    assert(find_byte(Seq::<u8>::empty(), LF, 0) == 0);
    assert(msg_extract(Seq::<u8>::empty()) is More);
    assert(stream_decode(Seq::<u8>::empty()) =~= Seq::<MessageV>::empty());
    assert(stream_decode(s) =~= seq![m]);
}

/// Partial-read tolerance: two decoders fed the same bytes, in however
/// different chunks, and both drained, have produced the same messages.
pub proof fn lemma_partial_read_tolerance(d1: MessageCodec, d2: MessageCodec)
    requires
        d1.inv(),
        d2.inv(),
        d1.fed@ == d2.fed@,
        d1.drained(),
        d2.drained(),
    ensures
        d1.emitted@ == d2.emitted@,
{
    let s = d1.fed@;
    lemma_stream_at(s, d1.emitted@.len());
    lemma_stream_at(s, d2.emitted@.len());
    assert(stream_decode(d1.buf@) =~= Seq::<MessageV>::empty());
    assert(stream_decode(d2.buf@) =~= Seq::<MessageV>::empty());
    assert(d1.emitted@.len() == stream_decode(s).len());
    assert(d2.emitted@.len() == stream_decode(s).len());
}

} // verus!
