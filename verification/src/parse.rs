//! Parsing JSON documents back out of frame bodies.
//!
//! The specification parser below is the meaning of decoding; the
//! executable parser is proved to compute exactly what it says.  It
//! accepts the canonical form the emitter produces and, beyond it,
//! whitespace between tokens, as peers on the wire are free to insert.

use vstd::prelude::*;
use crate::json::{
    Json, JField, JVal, JFieldV, jv, jv_seq, jv_fields, is_ws, is_num_char, is_num_start, lit_null,
    lit_true, lit_false, lemma_jv_seq_len, lemma_jv_fields_len, lemma_jv_seq_push, lemma_jv_fields_push, QUOTE, BACKSLASH, LBRACKET,
    RBRACKET, LBRACE, RBRACE, COMMA, COLON,
};

verus! {

/// Index of the first byte at or after `i` that is not JSON whitespace.
pub open spec fn skip_ws(s: Seq<u8>, i: int) -> int
    decreases s.len() - i,
{
    if 0 <= i < s.len() && is_ws(s[i]) {
        skip_ws(s, i + 1)
    } else {
        i
    }
}

pub proof fn lemma_skip_ws_ge(s: Seq<u8>, i: int)
    ensures
        skip_ws(s, i) >= i,
    decreases s.len() - i,
{
    if 0 <= i < s.len() && is_ws(s[i]) {
        lemma_skip_ws_ge(s, i + 1);
    }
}

pub broadcast proof fn lemma_skip_ws_bounds(s: Seq<u8>, i: int)
    requires
        0 <= i <= s.len(),
    ensures
        i <= #[trigger] skip_ws(s, i) <= s.len(),
    decreases s.len() - i,
{
    if i < s.len() && is_ws(s[i]) {
        lemma_skip_ws_bounds(s, i + 1);
    }
}

/// Index of the first byte at or after `i` that cannot continue a
/// number token.
pub open spec fn scan_num(s: Seq<u8>, i: int) -> int
    decreases s.len() - i,
{
    if 0 <= i < s.len() && is_num_char(s[i]) {
        scan_num(s, i + 1)
    } else {
        i
    }
}

pub broadcast proof fn lemma_scan_num_bounds(s: Seq<u8>, i: int)
    requires
        0 <= i <= s.len(),
    ensures
        i <= #[trigger] scan_num(s, i) <= s.len(),
    decreases s.len() - i,
{
    if i < s.len() && is_num_char(s[i]) {
        lemma_scan_num_bounds(s, i + 1);
    }
}

/// Scan a string body starting just after the opening quote.  Returns
/// the body (escapes kept) and the index just past the closing quote.
pub open spec fn parse_str_body(s: Seq<u8>, i: int) -> Option<(Seq<u8>, int)>
    decreases s.len() - i,
{
    if i < 0 || i >= s.len() {
        None
    } else if s[i] == QUOTE {
        Some((Seq::empty(), i + 1))
    } else if s[i] == BACKSLASH {
        if i + 2 > s.len() {
            None
        } else {
            match parse_str_body(s, i + 2) {
                None => None,
                Some((t, e)) => Some((seq![s[i], s[i + 1]] + t, e)),
            }
        }
    } else {
        match parse_str_body(s, i + 1) {
            None => None,
            Some((t, e)) => Some((seq![s[i]] + t, e)),
        }
    }
}

pub proof fn lemma_parse_str_body_adv(s: Seq<u8>, i: int)
    requires
        parse_str_body(s, i) is Some,
    ensures
        i < parse_str_body(s, i)->Some_0.1 <= s.len(),
        parse_str_body(s, i)->Some_0.0.len() == parse_str_body(s, i)->Some_0.1 - i - 1,
    decreases s.len() - i,
{
    if 0 <= i < s.len() {
        if s[i] == QUOTE {
        } else if s[i] == BACKSLASH {
            if i + 2 <= s.len() && parse_str_body(s, i + 2) is Some {
                lemma_parse_str_body_adv(s, i + 2);
            }
        } else {
            if parse_str_body(s, i + 1) is Some {
                lemma_parse_str_body_adv(s, i + 1);
            }
        }
    }
}

/// Parse one JSON value starting at or after `i` (leading whitespace
/// skipped).  Returns the value and the index just past it.
pub open spec fn parse_val(s: Seq<u8>, i: int) -> Option<(JVal, int)>
    decreases s.len() - i, 2nat
        via parse_val_dec
{
    if i < 0 {
        None
    } else {
        let j = skip_ws(s, i);
        if j >= s.len() {
            None
        } else {
            let b = s[j];
            if b == QUOTE {
                match parse_str_body(s, j + 1) {
                    None => None,
                    Some((t, e)) => Some((JVal::Str(t), e)),
                }
            } else if b == LBRACKET {
                let k = skip_ws(s, j + 1);
                if k < s.len() && s[k] == RBRACKET {
                    Some((JVal::Arr(Seq::empty()), k + 1))
                } else {
                    match parse_arr_rest(s, j + 1) {
                        None => None,
                        Some((es, e)) => Some((JVal::Arr(es), e)),
                    }
                }
            } else if b == LBRACE {
                let k = skip_ws(s, j + 1);
                if k < s.len() && s[k] == RBRACE {
                    Some((JVal::Obj(Seq::empty()), k + 1))
                } else {
                    match parse_obj_rest(s, j + 1) {
                        None => None,
                        Some((fs, e)) => Some((JVal::Obj(fs), e)),
                    }
                }
            } else if is_num_start(b) {
                Some((JVal::Num(s.subrange(j, scan_num(s, j))), scan_num(s, j)))
            } else if b == 0x6E {
                if j + 4 <= s.len() && s.subrange(j, j + 4) == lit_null() {
                    Some((JVal::Null, j + 4))
                } else {
                    None
                }
            } else if b == 0x74 {
                if j + 4 <= s.len() && s.subrange(j, j + 4) == lit_true() {
                    Some((JVal::Bool(true), j + 4))
                } else {
                    None
                }
            } else if b == 0x66 {
                if j + 5 <= s.len() && s.subrange(j, j + 5) == lit_false() {
                    Some((JVal::Bool(false), j + 5))
                } else {
                    None
                }
            } else {
                None
            }
        }
    }
}

#[via_fn]
proof fn parse_val_dec(s: Seq<u8>, i: int) {
    assert forall|x: int| #[trigger] skip_ws(s, x) >= x by {
        lemma_skip_ws_ge(s, x);
    }
}

/// Parse the elements of a non-empty array, starting just after the
/// `[` or after a separating comma.  Ends just past the `]`.
pub open spec fn parse_arr_rest(s: Seq<u8>, i: int) -> Option<(Seq<JVal>, int)>
    decreases s.len() - i, 3nat
        via parse_arr_rest_dec
{
    if i < 0 {
        None
    } else {
        match parse_val(s, i) {
            None => None,
            Some((v, e)) => {
                let e2 = if e > i {
                    e
                } else {
                    i + 1
                };
                let w = skip_ws(s, e2);
                if w < s.len() && s[w] == COMMA {
                    match parse_arr_rest(s, w + 1) {
                        None => None,
                        Some((vs, e3)) => Some((seq![v] + vs, e3)),
                    }
                } else if w < s.len() && s[w] == RBRACKET {
                    Some((seq![v], w + 1))
                } else {
                    None
                }
            },
        }
    }
}

#[via_fn]
proof fn parse_arr_rest_dec(s: Seq<u8>, i: int) {
    assert forall|x: int| #[trigger] skip_ws(s, x) >= x by {
        lemma_skip_ws_ge(s, x);
    }
}

/// Parse the members of a non-empty object, starting just after the
/// `{` or after a separating comma.  Ends just past the `}`.
pub open spec fn parse_obj_rest(s: Seq<u8>, i: int) -> Option<(Seq<JFieldV>, int)>
    decreases s.len() - i, 3nat
        via parse_obj_rest_dec
{
    if i < 0 {
        None
    } else {
        let j = skip_ws(s, i);
        if j >= s.len() || s[j] != QUOTE {
            None
        } else {
            match parse_str_body(s, j + 1) {
                None => None,
                Some((key, e)) => {
                    let e2 = if e > j + 1 {
                        e
                    } else {
                        j + 2
                    };
                    let c = skip_ws(s, e2);
                    if c >= s.len() || s[c] != COLON {
                        None
                    } else {
                        match parse_val(s, c + 1) {
                            None => None,
                            Some((v, ev)) => {
                                let ev2 = if ev > c + 1 {
                                    ev
                                } else {
                                    c + 2
                                };
                                let w = skip_ws(s, ev2);
                                if w < s.len() && s[w] == COMMA {
                                    match parse_obj_rest(s, w + 1) {
                                        None => None,
                                        Some((fs, e3)) => Some(
                                            (seq![JFieldV { key, val: v }] + fs, e3),
                                        ),
                                    }
                                } else if w < s.len() && s[w] == RBRACE {
                                    Some((seq![JFieldV { key, val: v }], w + 1))
                                } else {
                                    None
                                }
                            },
                        }
                    }
                },
            }
        }
    }
}

#[via_fn]
proof fn parse_obj_rest_dec(s: Seq<u8>, i: int) {
    assert forall|x: int| #[trigger] skip_ws(s, x) >= x by {
        lemma_skip_ws_ge(s, x);
    }
}

/// Parse a whole document: one value, then nothing but whitespace.
pub open spec fn parse_doc(s: Seq<u8>) -> Option<JVal> {
    match parse_val(s, 0) {
        None => None,
        Some((v, e)) => if skip_ws(s, e) == s.len() {
            Some(v)
        } else {
            None
        },
    }
}


/// How a string body parsed from position `k` extends one already
/// accumulated.
pub open spec fn str_glue(a: Seq<u8>, r: Option<(Seq<u8>, int)>) -> Option<(Seq<u8>, int)> {
    match r {
        None => None,
        Some((t, e)) => Some((a + t, e)),
    }
}

/// How the elements parsed from position `k` of an array extend those
/// already accumulated.
pub open spec fn arr_glue(a: Seq<JVal>, r: Option<(Seq<JVal>, int)>) -> Option<(JVal, int)> {
    match r {
        None => None,
        Some((vs, e)) => Some((JVal::Arr(a + vs), e)),
    }
}

/// The object counterpart of `arr_glue`.
pub open spec fn obj_glue(a: Seq<JFieldV>, r: Option<(Seq<JFieldV>, int)>) -> Option<(JVal, int)> {
    match r {
        None => None,
        Some((fs, e)) => Some((JVal::Obj(a + fs), e)),
    }
}

pub fn x_skip_ws(s: &Vec<u8>, i: usize) -> (r: usize)
    requires
        i <= s@.len(),
    ensures
        r as int == skip_ws(s@, i as int),
        i <= r <= s@.len(),
{
    let mut k: usize = i;
    while k < s.len() && (s[k] == 0x20 || s[k] == 0x09 || s[k] == 0x0A || s[k] == 0x0D)
        invariant
            i <= k <= s@.len(),
            skip_ws(s@, i as int) == skip_ws(s@, k as int),
        decreases s@.len() - k,
    {
        k = k + 1;
    }
    k
}

pub fn x_scan_num(s: &Vec<u8>, i: usize) -> (r: usize)
    requires
        i <= s@.len(),
    ensures
        r as int == scan_num(s@, i as int),
        i <= r <= s@.len(),
{
    let mut k: usize = i;
    while k < s.len() && (0x30 <= s[k] && s[k] <= 0x39 || s[k] == 0x2D || s[k] == 0x2B || s[k]
        == 0x2E || s[k] == 0x65 || s[k] == 0x45)
        invariant
            i <= k <= s@.len(),
            scan_num(s@, i as int) == scan_num(s@, k as int),
        decreases s@.len() - k,
    {
        k = k + 1;
    }
    k
}

pub fn x_parse_str_body(s: &Vec<u8>, i: usize) -> (r: Option<(Vec<u8>, usize)>)
    requires
        i <= s@.len(),
    ensures
        match r {
            Some((t, e)) => {
                &&& parse_str_body(s@, i as int) == Some((t@, e as int))
                &&& i < e <= s@.len()
            },
            None => parse_str_body(s@, i as int) is None,
        },
{
    let mut acc: Vec<u8> = Vec::new();
    let mut k: usize = i;
    loop
        invariant
            i <= k <= s@.len(),
            parse_str_body(s@, i as int) == str_glue(acc@, parse_str_body(s@, k as int)),
        decreases s@.len() - k,
    {
        if k >= s.len() {
            return None;
        }
        let b = s[k];
        if b == QUOTE {
            proof {
                assert(parse_str_body(s@, k as int) == Some((Seq::<u8>::empty(), k + 1)));
                assert(acc@ + Seq::<u8>::empty() =~= acc@);
            }
            return Some((acc, k + 1));
        } else if b == BACKSLASH {
            if s.len() - k < 2 {
                return None;
            }
            let ghost old_acc = acc@;
            acc.push(b);
            acc.push(s[k + 1]);
            proof {
                let rest = parse_str_body(s@, k + 2);
                match rest {
                    None => {},
                    Some((t, e)) => {
                        assert(old_acc + (seq![s@[k as int], s@[k as int + 1]] + t) =~= acc@ + t);
                    },
                }
            }
            k = k + 2;
        } else {
            let ghost old_acc = acc@;
            acc.push(b);
            proof {
                let rest = parse_str_body(s@, k + 1);
                match rest {
                    None => {},
                    Some((t, e)) => {
                        assert(old_acc + (seq![s@[k as int]] + t) =~= acc@ + t);
                    },
                }
            }
            k = k + 1;
        }
    }
}

/// Copy `s[from..to]` into a fresh vector.
pub fn copy_range(s: &Vec<u8>, from: usize, to: usize) -> (r: Vec<u8>)
    requires
        from <= to <= s@.len(),
    ensures
        r@ == s@.subrange(from as int, to as int),
{
    let mut out: Vec<u8> = Vec::new();
    let mut k: usize = from;
    while k < to
        invariant
            from <= k <= to <= s@.len(),
            out@ == s@.subrange(from as int, k as int),
        decreases to - k,
    {
        out.push(s[k]);
        k = k + 1;
        proof {
            assert(s@.subrange(from as int, k as int) =~= s@.subrange(from as int, k - 1).push(
                s@[k - 1],
            ));
        }
    }
    out
}

/// Parse one JSON value out of `s` starting at `i`; the executable
/// counterpart of `parse_val`.
pub fn x_parse_val(s: &Vec<u8>, i: usize) -> (r: Option<(Json, usize)>)
    requires
        i <= s@.len(),
    ensures
        match r {
            Some((j, e)) => {
                &&& parse_val(s@, i as int) == Some((jv(j), e as int))
                &&& i < e <= s@.len()
            },
            None => parse_val(s@, i as int) is None,
        },
    decreases s@.len() - i,
{
    let j = x_skip_ws(s, i);
    if j >= s.len() {
        return None;
    }
    let b = s[j];
    if b == QUOTE {
        match x_parse_str_body(s, j + 1) {
            None => None,
            Some((t, e)) => Some((Json::Str(t), e)),
        }
    } else if b == LBRACKET {
        let k = x_skip_ws(s, j + 1);
        if k < s.len() && s[k] == RBRACKET {
            let items: Vec<Json> = Vec::new();
            proof {
                lemma_jv_seq_len(items@, 0);
                assert(jv_seq(items@, 0) =~= Seq::<JVal>::empty());
            }
            return Some((Json::Arr(items), k + 1));
        }
        let mut items: Vec<Json> = Vec::new();
        let mut cur: usize = j + 1;
        proof {
            lemma_jv_seq_len(items@, 0);
            assert(jv_seq(items@, 0) =~= Seq::<JVal>::empty());
        }
    
        loop
            invariant
                i < cur <= s@.len(),
                i <= s@.len(),
                parse_val(s@, i as int) == arr_glue(
                    jv_seq(items@, 0),
                    parse_arr_rest(s@, cur as int),
                ),
            decreases s@.len() - cur,
        {
            match x_parse_val(s, cur) {
                None => {
                    return None;
                },
                Some((v, e)) => {
                    let w = x_skip_ws(s, e);
                    let ghost old_items = items@;
                    if w < s.len() && s[w] == COMMA {
                        items.push(v);
                        proof {
                            lemma_jv_seq_push(old_items, v);
                            let rest = parse_arr_rest(s@, w + 1);
                            match rest {
                                None => {},
                                Some((vs, e3)) => {
                                    assert(jv_seq(old_items, 0) + (seq![jv(v)] + vs) =~= jv_seq(
                                        items@,
                                        0,
                                    ) + vs);
                                },
                            }
                        }
                        cur = w + 1;
                    } else if w < s.len() && s[w] == RBRACKET {
                        items.push(v);
                        proof {
                            lemma_jv_seq_push(old_items, v);
                            assert(jv_seq(old_items, 0) + seq![jv(v)] =~= jv_seq(items@, 0));
                        }
                        return Some((Json::Arr(items), w + 1));
                    } else {
                        return None;
                    }
                },
            }
        }
    } else if b == LBRACE {
        let k = x_skip_ws(s, j + 1);
        if k < s.len() && s[k] == RBRACE {
            let fields: Vec<JField> = Vec::new();
            proof {
                lemma_jv_fields_len(fields@, 0);
                assert(jv_fields(fields@, 0) =~= Seq::<JFieldV>::empty());
            }
            return Some((Json::Obj(fields), k + 1));
        }
        let mut fields: Vec<JField> = Vec::new();
        let mut cur: usize = j + 1;
        proof {
            lemma_jv_fields_len(fields@, 0);
            assert(jv_fields(fields@, 0) =~= Seq::<JFieldV>::empty());
        }
    
        loop
            invariant
                i < cur <= s@.len(),
                i <= s@.len(),
                parse_val(s@, i as int) == obj_glue(
                    jv_fields(fields@, 0),
                    parse_obj_rest(s@, cur as int),
                ),
            decreases s@.len() - cur,
        {
            let kq = x_skip_ws(s, cur);
            if kq >= s.len() {
                return None;
            }
            if s[kq] != QUOTE {
                return None;
            }
            match x_parse_str_body(s, kq + 1) {
                None => {
                    return None;
                },
                Some((key, e)) => {
                    let c = x_skip_ws(s, e);
                    if c >= s.len() {
                        return None;
                    }
                    if s[c] != COLON {
                        return None;
                    }
                    match x_parse_val(s, c + 1) {
                        None => {
                            return None;
                        },
                        Some((v, ev)) => {
                            let w = x_skip_ws(s, ev);
                            let ghost old_fields = fields@;
                            let ghost keyv = key@;
                            if w < s.len() && s[w] == COMMA {
                                fields.push(JField { key, val: v });
                                proof {
                                    lemma_jv_fields_push(
                                        old_fields,
                                        JField { key: fields@[fields@.len() - 1].key, val: fields@[fields@.len() - 1].val },
                                    );
                                    let rest = parse_obj_rest(s@, w + 1);
                                    match rest {
                                        None => {},
                                        Some((fs, e3)) => {
                                            assert(jv_fields(old_fields, 0) + (seq![
                                                JFieldV { key: keyv, val: jv(v) },
                                            ] + fs) =~= jv_fields(fields@, 0) + fs);
                                        },
                                    }
                                }
                                cur = w + 1;
                            } else if w < s.len() && s[w] == RBRACE {
                                fields.push(JField { key, val: v });
                                proof {
                                    lemma_jv_fields_push(
                                        old_fields,
                                        JField { key: fields@[fields@.len() - 1].key, val: fields@[fields@.len() - 1].val },
                                    );
                                    assert(jv_fields(old_fields, 0) + seq![
                                        JFieldV { key: keyv, val: jv(v) },
                                    ] =~= jv_fields(fields@, 0));
                                }
                                return Some((Json::Obj(fields), w + 1));
                            } else {
                                return None;
                            }
                        },
                    }
                },
            }
        }
    } else if 0x30 <= b && b <= 0x39 || b == 0x2D {
        let e = x_scan_num(s, j);
        proof {
            lemma_scan_num_bounds(s@, j + 1);
        }
        let tok = copy_range(s, j, e);
        Some((Json::Num(tok), e))
    } else if b == 0x6E {
        if s.len() - j >= 4 && s[j + 1] == 0x75 && s[j + 2] == 0x6C && s[j + 3] == 0x6C {
            proof {
                assert(s@.subrange(j as int, j + 4) =~= lit_null());
            }
            Some((Json::Null, j + 4))
        } else {
            proof {
                if j + 4 <= s@.len() {
                    assert(s@.subrange(j as int, j + 4) != lit_null()) by {
                        if s@.subrange(j as int, j + 4) == lit_null() {
                            assert(s@.subrange(j as int, j + 4)[1] == s@[j + 1]);
                            assert(s@.subrange(j as int, j + 4)[2] == s@[j + 2]);
                            assert(s@.subrange(j as int, j + 4)[3] == s@[j + 3]);
                        }
                    }
                }
            }
            None
        }
    } else if b == 0x74 {
        if s.len() - j >= 4 && s[j + 1] == 0x72 && s[j + 2] == 0x75 && s[j + 3] == 0x65 {
            proof {
                assert(s@.subrange(j as int, j + 4) =~= lit_true());
            }
            Some((Json::Bool(true), j + 4))
        } else {
            proof {
                if j + 4 <= s@.len() {
                    assert(s@.subrange(j as int, j + 4) != lit_true()) by {
                        if s@.subrange(j as int, j + 4) == lit_true() {
                            assert(s@.subrange(j as int, j + 4)[1] == s@[j + 1]);
                            assert(s@.subrange(j as int, j + 4)[2] == s@[j + 2]);
                            assert(s@.subrange(j as int, j + 4)[3] == s@[j + 3]);
                        }
                    }
                }
            }
            None
        }
    } else if b == 0x66 {
        if s.len() - j >= 5 && s[j + 1] == 0x61 && s[j + 2] == 0x6C && s[j + 3] == 0x73 && s[j + 4]
            == 0x65 {
            proof {
                assert(s@.subrange(j as int, j + 5) =~= lit_false());
            }
            Some((Json::Bool(false), j + 5))
        } else {
            proof {
                if j + 5 <= s@.len() {
                    assert(s@.subrange(j as int, j + 5) != lit_false()) by {
                        if s@.subrange(j as int, j + 5) == lit_false() {
                            assert(s@.subrange(j as int, j + 5)[1] == s@[j + 1]);
                            assert(s@.subrange(j as int, j + 5)[2] == s@[j + 2]);
                            assert(s@.subrange(j as int, j + 5)[3] == s@[j + 3]);
                            assert(s@.subrange(j as int, j + 5)[4] == s@[j + 4]);
                        }
                    }
                }
            }
            None
        }
    } else {
        None
    }
}

/// Parse a whole document; the executable counterpart of `parse_doc`.
pub fn parse_json(s: &Vec<u8>) -> (r: Option<Json>)
    ensures
        match r {
            Some(j) => parse_doc(s@) == Some(jv(j)),
            None => parse_doc(s@) is None,
        },
{
    match x_parse_val(s, 0) {
        None => None,
        Some((j, e)) => {
            let w = x_skip_ws(s, e);
            if w == s.len() {
                Some(j)
            } else {
                None
            }
        },
    }
}

} // verus!
