//! The JSON documents that ride inside LSP frames, modelled as a tree of
//! raw tokens.
//!
//! Numbers and string bodies are kept as the byte tokens that appeared (or
//! will appear) between the delimiters on the wire; the tree structure is
//! explicit.  This keeps every routing decision a decision about plain
//! bytes, and makes encoding and decoding exact inverses.

use vstd::prelude::*;

verus! {

/// A JSON value. `Num` holds the literal number token; `Str` holds the
/// bytes between the quotes, escapes included, unprocessed.
#[derive(Debug)]
pub enum Json {
    Null,
    Bool(bool),
    Num(Vec<u8>),
    Str(Vec<u8>),
    Arr(Vec<Json>),
    Obj(Vec<JField>),
}

/// One `key: value` member of a JSON object. The key is stored like a
/// `Json::Str` body: the bytes between the quotes.
#[derive(Debug)]
pub struct JField {
    pub key: Vec<u8>,
    pub val: Json,
}

/// The mathematical mirror of `Json`.
pub enum JVal {
    Null,
    Bool(bool),
    Num(Seq<u8>),
    Str(Seq<u8>),
    Arr(Seq<JVal>),
    Obj(Seq<JFieldV>),
}

/// The mathematical mirror of `JField`.
pub struct JFieldV {
    pub key: Seq<u8>,
    pub val: JVal,
}

/// The abstraction of an executable JSON tree.
pub open spec fn jv(j: Json) -> JVal
    decreases j, 1nat, 0nat
        via jv_dec
{
    match j {
        Json::Null => JVal::Null,
        Json::Bool(b) => JVal::Bool(b),
        Json::Num(s) => JVal::Num(s@),
        Json::Str(s) => JVal::Str(s@),
        Json::Arr(v) => JVal::Arr(jv_seq(v@, 0)),
        Json::Obj(v) => JVal::Obj(jv_fields(v@, 0)),
    }
}

#[via_fn]
proof fn jv_dec(j: Json) {
    match j {
        Json::Arr(v) => {
            assert(decreases_to!(j => v));
            assert(decreases_to!(v => v@));
        },
        Json::Obj(v) => {
            assert(decreases_to!(j => v));
            assert(decreases_to!(v => v@));
        },
        _ => {},
    }
}

pub open spec fn jv_seq(s: Seq<Json>, i: int) -> Seq<JVal>
    decreases s, 0nat, s.len() - i,
{
    if i < 0 || i >= s.len() {
        Seq::empty()
    } else {
        seq![jv(s[i])] + jv_seq(s, i + 1)
    }
}

pub open spec fn jv_fields(s: Seq<JField>, i: int) -> Seq<JFieldV>
    decreases s, 0nat, s.len() - i,
{
    if i < 0 || i >= s.len() {
        Seq::empty()
    } else {
        seq![JFieldV { key: s[i].key@, val: jv(s[i].val) }] + jv_fields(s, i + 1)
    }
}

pub proof fn lemma_jv_seq_len(s: Seq<Json>, i: int)
    requires
        0 <= i <= s.len(),
    ensures
        jv_seq(s, i).len() == s.len() - i,
        forall|k: int| i <= k < s.len() ==> jv_seq(s, i)[k - i] == jv(s[k]),
    decreases s.len() - i,
{
    if i < s.len() {
        lemma_jv_seq_len(s, i + 1);
    }
}

pub proof fn lemma_jv_fields_len(s: Seq<JField>, i: int)
    requires
        0 <= i <= s.len(),
    ensures
        jv_fields(s, i).len() == s.len() - i,
        forall|k: int|
            i <= k < s.len() ==> jv_fields(s, i)[k - i] == (JFieldV {
                key: s[k].key@,
                val: jv(s[k].val),
            }),
    decreases s.len() - i,
{
    if i < s.len() {
        lemma_jv_fields_len(s, i + 1);
    }
}



pub proof fn lemma_jv_seq_push(s: Seq<Json>, x: Json)
    ensures
        jv_seq(s.push(x), 0) =~= jv_seq(s, 0) + seq![jv(x)],
{
    lemma_jv_seq_len(s, 0);
    lemma_jv_seq_len(s.push(x), 0);
    assert forall|k: int| 0 <= k < s.len() + 1 implies jv_seq(s.push(x), 0)[k] == (jv_seq(s, 0)
        + seq![jv(x)])[k] by {
        if k < s.len() {
            assert(s.push(x)[k] == s[k]);
        } else {
            assert(s.push(x)[k] == x);
        }
    }
}

pub proof fn lemma_jv_fields_push(s: Seq<JField>, x: JField)
    ensures
        jv_fields(s.push(x), 0) =~= jv_fields(s, 0) + seq![
            JFieldV { key: x.key@, val: jv(x.val) },
        ],
{
    lemma_jv_fields_len(s, 0);
    lemma_jv_fields_len(s.push(x), 0);
    assert forall|k: int| 0 <= k < s.len() + 1 implies jv_fields(s.push(x), 0)[k] == (jv_fields(
        s,
        0,
    ) + seq![JFieldV { key: x.key@, val: jv(x.val) }])[k] by {
        if k < s.len() {
            assert(s.push(x)[k] == s[k]);
        } else {
            assert(s.push(x)[k] == x);
        }
    }
}

/// Nesting depth of a JSON tree: the termination measure of the
/// executable functions that walk a `Json`.
pub open spec fn jdepth(j: JVal) -> nat
    decreases j, 1nat, 0nat,
{
    match j {
        JVal::Null => 0,
        JVal::Bool(_) => 0,
        JVal::Num(_) => 0,
        JVal::Str(_) => 0,
        JVal::Arr(es) => 1 + jdepth_seq(es, 0),
        JVal::Obj(fs) => 1 + jdepth_fields(fs, 0),
    }
}

pub open spec fn jdepth_seq(es: Seq<JVal>, i: int) -> nat
    decreases es, 0nat, es.len() - i,
{
    if i < 0 || i >= es.len() {
        0
    } else {
        let d = jdepth(es[i]);
        let r = jdepth_seq(es, i + 1);
        if d > r {
            d
        } else {
            r
        }
    }
}

pub open spec fn jdepth_fields(fs: Seq<JFieldV>, i: int) -> nat
    decreases fs, 0nat, fs.len() - i,
{
    if i < 0 || i >= fs.len() {
        0
    } else {
        let d = jdepth(fs[i].val);
        let r = jdepth_fields(fs, i + 1);
        if d > r {
            d
        } else {
            r
        }
    }
}

pub proof fn lemma_jdepth_seq_ge(es: Seq<JVal>, i: int, k: int)
    requires
        0 <= i <= k < es.len(),
    ensures
        jdepth_seq(es, i) >= jdepth(es[k]),
    decreases k - i,
{
    if i < k {
        lemma_jdepth_seq_ge(es, i + 1, k);
    }
}

pub proof fn lemma_jdepth_fields_ge(fs: Seq<JFieldV>, i: int, k: int)
    requires
        0 <= i <= k < fs.len(),
    ensures
        jdepth_fields(fs, i) >= jdepth(fs[k].val),
    decreases k - i,
{
    if i < k {
        lemma_jdepth_fields_ge(fs, i + 1, k);
    }
}

// Byte constants of the JSON syntax.
pub const QUOTE: u8 = 0x22;
pub const BACKSLASH: u8 = 0x5C;
pub const LBRACKET: u8 = 0x5B;
pub const RBRACKET: u8 = 0x5D;
pub const LBRACE: u8 = 0x7B;
pub const RBRACE: u8 = 0x7D;
pub const COMMA: u8 = 0x2C;
pub const COLON: u8 = 0x3A;

/// The bytes JSON treats as whitespace between tokens.
pub open spec fn is_ws(b: u8) -> bool {
    b == 0x20 || b == 0x09 || b == 0x0A || b == 0x0D
}

pub open spec fn is_digit(b: u8) -> bool {
    0x30 <= b <= 0x39
}

/// Bytes that may continue a number token once one has started.
pub open spec fn is_num_char(b: u8) -> bool {
    is_digit(b) || b == 0x2D || b == 0x2B || b == 0x2E || b == 0x65 || b == 0x45
}

/// Bytes that may start a number token: a digit or `-`.
pub open spec fn is_num_start(b: u8) -> bool {
    is_digit(b) || b == 0x2D
}

/// A well-formed number token: starts like a number and consists of
/// number bytes throughout, so that scanning it back stops exactly at
/// its end.
pub open spec fn num_ok(s: Seq<u8>) -> bool {
    &&& s.len() > 0
    &&& is_num_start(s[0])
    &&& forall|i: int| 0 <= i < s.len() ==> is_num_char(#[trigger] s[i])
}

/// A well-formed string body: no bare quote, and every backslash is
/// followed by another byte it escapes.  Scanning such a body never runs
/// past its end and never stops early.
pub open spec fn str_ok(s: Seq<u8>) -> bool
    decreases s.len(),
{
    if s.len() == 0 {
        true
    } else if s[0] == QUOTE {
        false
    } else if s[0] == BACKSLASH {
        s.len() >= 2 && str_ok(s.skip(2))
    } else {
        str_ok(s.skip(1))
    }
}

/// Well-formedness of a JSON tree: every number and string token in it
/// is well formed.
pub open spec fn jwf(j: JVal) -> bool
    decreases j, 1nat, 0nat,
{
    match j {
        JVal::Null => true,
        JVal::Bool(_) => true,
        JVal::Num(s) => num_ok(s),
        JVal::Str(s) => str_ok(s),
        JVal::Arr(es) => jwf_seq(es, 0),
        JVal::Obj(fs) => jwf_fields(fs, 0),
    }
}

pub open spec fn jwf_seq(es: Seq<JVal>, i: int) -> bool
    decreases es, 0nat, es.len() - i,
{
    if i < 0 || i >= es.len() {
        true
    } else {
        jwf(es[i]) && jwf_seq(es, i + 1)
    }
}

pub open spec fn jwf_fields(fs: Seq<JFieldV>, i: int) -> bool
    decreases fs, 0nat, fs.len() - i,
{
    if i < 0 || i >= fs.len() {
        true
    } else {
        str_ok(fs[i].key) && jwf(fs[i].val) && jwf_fields(fs, i + 1)
    }
}



pub proof fn lemma_jv_seq_at0(s: Seq<Json>)
    ensures
        jv_seq(s, 0).len() == s.len(),
        forall|k: int| 0 <= k < s.len() ==> #[trigger] jv_seq(s, 0)[k] == jv(s[k]),
{
    lemma_jv_seq_len(s, 0);
    assert forall|k: int| 0 <= k < s.len() implies #[trigger] jv_seq(s, 0)[k] == jv(s[k]) by {
        assert(jv_seq(s, 0)[k - 0] == jv(s[k]));
    }
}

pub proof fn lemma_jv_fields_at0(s: Seq<JField>)
    ensures
        jv_fields(s, 0).len() == s.len(),
        forall|k: int|
            0 <= k < s.len() ==> #[trigger] jv_fields(s, 0)[k] == (JFieldV {
                key: s[k].key@,
                val: jv(s[k].val),
            }),
{
    lemma_jv_fields_len(s, 0);
    assert forall|k: int| 0 <= k < s.len() implies #[trigger] jv_fields(s, 0)[k] == (JFieldV {
        key: s[k].key@,
        val: jv(s[k].val),
    }) by {
        assert(jv_fields(s, 0)[k - 0] == (JFieldV { key: s[k].key@, val: jv(s[k].val) }));
    }
}

/// The abstraction keeps the constructor.
pub proof fn lemma_jv_is_arr(x: Json)
    ensures
        (jv(x) is Arr) <==> (x is Arr),
{
    match x {
        Json::Null => {},
        Json::Bool(_) => {},
        Json::Num(_) => {},
        Json::Str(_) => {},
        Json::Arr(_) => {},
        Json::Obj(_) => {},
    }
}

/// A body with neither a bare quote nor a backslash is a well-formed
/// string body.
pub proof fn lemma_str_ok_plain(s: Seq<u8>)
    requires
        forall|i: int| 0 <= i < s.len() ==> #[trigger] s[i] != QUOTE && s[i] != BACKSLASH,
    ensures
        str_ok(s),
    decreases s.len(),
{
    if s.len() > 0 {
        lemma_str_ok_plain(s.skip(1));
    }
}

/// A deep copy of a JSON tree.
pub fn clone_json(j: &Json) -> (r: Json)
    ensures
        jv(r) == jv(*j),
    decreases jdepth(jv(*j)),
{
    match j {
        Json::Null => Json::Null,
        Json::Bool(b) => Json::Bool(*b),
        Json::Num(s) => Json::Num(crate::bytes::bytes_clone(s)),
        Json::Str(s) => Json::Str(crate::bytes::bytes_clone(s)),
        Json::Arr(es) => {
            let ghost vs = jv_seq(es@, 0);
            proof {
                lemma_jv_seq_len(es@, 0);
            }
            let mut out: Vec<Json> = Vec::new();
            let mut i: usize = 0;
            proof {
                lemma_jv_seq_len(out@, 0);
                assert(jv_seq(out@, 0) =~= vs.subrange(0, 0));
            }
            while i < es.len()
                invariant
                    *j == Json::Arr(*es),
                    i <= es.len(),
                    vs == jv_seq(es@, 0),
                    vs.len() == es@.len(),
                    forall|k: int| 0 <= k < es@.len() ==> vs[k] == jv(es@[k]),
                    jv_seq(out@, 0) == vs.subrange(0, i as int),
                decreases es.len() - i,
            {
                proof {
                    lemma_jdepth_seq_ge(vs, 0, i as int);
                    assert(jv(*j) == JVal::Arr(vs));
                }
                let c = clone_json(&es[i]);
                let ghost old_out = out@;
                out.push(c);
                proof {
                    lemma_jv_seq_push(old_out, c);
                    assert(jv_seq(out@, 0) =~= vs.subrange(0, i + 1));
                }
                i = i + 1;
            }
            proof {
                assert(vs.subrange(0, es@.len() as int) =~= vs);
            }
            Json::Arr(out)
        },
        Json::Obj(fs) => {
            let ghost vs = jv_fields(fs@, 0);
            proof {
                lemma_jv_fields_len(fs@, 0);
            }
            let mut out: Vec<JField> = Vec::new();
            let mut i: usize = 0;
            proof {
                lemma_jv_fields_len(out@, 0);
                assert(jv_fields(out@, 0) =~= vs.subrange(0, 0));
            }
            while i < fs.len()
                invariant
                    *j == Json::Obj(*fs),
                    i <= fs.len(),
                    vs == jv_fields(fs@, 0),
                    vs.len() == fs@.len(),
                    forall|k: int|
                        0 <= k < fs@.len() ==> vs[k] == (JFieldV {
                            key: fs@[k].key@,
                            val: jv(fs@[k].val),
                        }),
                    jv_fields(out@, 0) == vs.subrange(0, i as int),
                decreases fs.len() - i,
            {
                proof {
                    lemma_jdepth_fields_ge(vs, 0, i as int);
                    assert(jv(*j) == JVal::Obj(vs));
                }
                let c = clone_json(&fs[i].val);
                let key = crate::bytes::bytes_clone(&fs[i].key);
                let ghost old_out = out@;
                out.push(JField { key, val: c });
                proof {
                    lemma_jv_fields_push(old_out, JField {
                        key: out@[out@.len() - 1].key,
                        val: out@[out@.len() - 1].val,
                    });
                    assert(jv_fields(out@, 0) =~= vs.subrange(0, i + 1));
                }
                i = i + 1;
            }
            proof {
                assert(vs.subrange(0, fs@.len() as int) =~= vs);
            }
            Json::Obj(out)
        },
    }
}

// ------------------------------------------------------------------
// Emission: the canonical wire form of a JSON tree (no whitespace).
// ------------------------------------------------------------------

/// `null`, `true`, `false` as byte sequences.
pub open spec fn lit_null() -> Seq<u8> {
    seq![0x6Eu8, 0x75u8, 0x6Cu8, 0x6Cu8]
}

pub open spec fn lit_true() -> Seq<u8> {
    seq![0x74u8, 0x72u8, 0x75u8, 0x65u8]
}

pub open spec fn lit_false() -> Seq<u8> {
    seq![0x66u8, 0x61u8, 0x6Cu8, 0x73u8, 0x65u8]
}

/// The canonical byte rendering of a JSON tree.
pub open spec fn emit(j: JVal) -> Seq<u8>
    decreases j, 1nat, 0nat,
{
    match j {
        JVal::Null => lit_null(),
        JVal::Bool(b) => if b {
            lit_true()
        } else {
            lit_false()
        },
        JVal::Num(s) => s,
        JVal::Str(s) => seq![QUOTE] + s + seq![QUOTE],
        JVal::Arr(es) => seq![LBRACKET] + emit_arr_from(es, 0) + seq![RBRACKET],
        JVal::Obj(fs) => seq![LBRACE] + emit_obj_from(fs, 0) + seq![RBRACE],
    }
}

/// Elements of an array from index `i` on, each but the first preceded
/// by a comma.
pub open spec fn emit_arr_from(es: Seq<JVal>, i: int) -> Seq<u8>
    decreases es, 0nat, es.len() - i,
{
    if i < 0 || i >= es.len() {
        Seq::empty()
    } else {
        let sep: Seq<u8> = if i > 0 {
            seq![COMMA]
        } else {
            Seq::empty()
        };
        sep + emit(es[i]) + emit_arr_from(es, i + 1)
    }
}

/// Members of an object from index `i` on, each but the first preceded
/// by a comma.
pub open spec fn emit_obj_from(fs: Seq<JFieldV>, i: int) -> Seq<u8>
    decreases fs, 0nat, fs.len() - i,
{
    if i < 0 || i >= fs.len() {
        Seq::empty()
    } else {
        let sep: Seq<u8> = if i > 0 {
            seq![COMMA]
        } else {
            Seq::empty()
        };
        sep + seq![QUOTE] + fs[i].key + seq![QUOTE, COLON] + emit(fs[i].val) + emit_obj_from(
            fs,
            i + 1,
        )
    }
}



// ------------------------------------------------------------------
// Building string tokens from raw bytes.
// ------------------------------------------------------------------

/// The hex digit of `n < 16`, lower case.
pub open spec fn hex_digit(n: u8) -> u8 {
    if n < 10 {
        (0x30 + n) as u8
    } else {
        (0x57 + n) as u8
    }
}

/// The escaped form of one byte inside a string token.
pub open spec fn esc_byte(b: u8) -> Seq<u8> {
    if b == QUOTE {
        seq![BACKSLASH, QUOTE]
    } else if b == BACKSLASH {
        seq![BACKSLASH, BACKSLASH]
    } else if b < 0x20 {
        seq![BACKSLASH, 0x75u8, 0x30u8, 0x30u8, hex_digit(b / 16), hex_digit(b % 16)]
    } else {
        seq![b]
    }
}

/// Raw bytes escaped into a well-formed string token.
pub open spec fn esc(s: Seq<u8>) -> Seq<u8>
    decreases s.len(),
{
    if s.len() == 0 {
        Seq::empty()
    } else {
        esc_byte(s[0]) + esc(s.skip(1))
    }
}

pub proof fn lemma_esc_snoc(s: Seq<u8>, b: u8)
    ensures
        esc(s.push(b)) == esc(s) + esc_byte(b),
    decreases s.len(),
{
    if s.len() == 0 {
        assert(s.push(b)[0] == b);
        assert(s.push(b).skip(1) =~= Seq::<u8>::empty());
        assert(esc(s) + esc_byte(b) =~= esc_byte(b));
        assert(esc(s.push(b)) =~= esc_byte(b) + esc(s.push(b).skip(1)));
        assert(esc(s.push(b)) =~= esc_byte(b));
    } else {
        assert(s.push(b)[0] == s[0]);
        assert(s.push(b).skip(1) =~= s.skip(1).push(b));
        lemma_esc_snoc(s.skip(1), b);
        assert(esc(s.push(b)) == esc_byte(s[0]) + (esc(s.skip(1)) + esc_byte(b)));
        assert(esc_byte(s[0]) + (esc(s.skip(1)) + esc_byte(b)) =~= (esc_byte(s[0]) + esc(
            s.skip(1),
        )) + esc_byte(b));
    }
}

/// Escaping yields a well-formed string token.
pub proof fn lemma_esc_ok(s: Seq<u8>)
    ensures
        str_ok(esc(s)),
    decreases s.len(),
{
    reveal_with_fuel(str_ok, 8);
    if s.len() > 0 {
        lemma_esc_ok(s.skip(1));
        let b = s[0];
        let e = esc(s);
        assert(e == esc_byte(b) + esc(s.skip(1)));
        if b == QUOTE || b == BACKSLASH {
            assert(e.skip(2) =~= esc(s.skip(1)));
        } else if b < 0x20 {
            assert(e[0] == BACKSLASH);
            assert(e.skip(2) =~= seq![0x30u8, 0x30u8, hex_digit(b / 16), hex_digit(b % 16)] + esc(
                s.skip(1),
            ));
            assert(hex_digit(b / 16) != QUOTE && hex_digit(b / 16) != BACKSLASH);
            assert(hex_digit(b % 16) != QUOTE && hex_digit(b % 16) != BACKSLASH);
            assert(e.skip(2).skip(1) =~= seq![0x30u8, hex_digit(b / 16), hex_digit(b % 16)] + esc(
                s.skip(1),
            ));
            assert(e.skip(2).skip(1).skip(1) =~= seq![hex_digit(b / 16), hex_digit(b % 16)] + esc(
                s.skip(1),
            ));
            assert(e.skip(2).skip(1).skip(1).skip(1) =~= seq![hex_digit(b % 16)] + esc(s.skip(1)));
            assert(e.skip(2).skip(1).skip(1).skip(1).skip(1) =~= esc(s.skip(1)));
        } else {
            assert(e.skip(1) =~= esc(s.skip(1)));
        }
    }
}

/// A `Json::Str` whose token is the escaped form of `raw`.
pub fn json_str_from(raw: &Vec<u8>) -> (r: Json)
    ensures
        jv(r) == JVal::Str(esc(raw@)),
{
    let mut out: Vec<u8> = Vec::new();
    let mut k: usize = 0;
    proof {
        assert(raw@.subrange(0, 0) =~= Seq::<u8>::empty());
    }
    while k < raw.len()
        invariant
            k <= raw@.len(),
            out@ == esc(raw@.subrange(0, k as int)),
        decreases raw@.len() - k,
    {
        let b = raw[k];
        let ghost pre = raw@.subrange(0, k as int);
        if b == QUOTE {
            out.push(BACKSLASH);
            out.push(QUOTE);
        } else if b == BACKSLASH {
            out.push(BACKSLASH);
            out.push(BACKSLASH);
        } else if b < 0x20 {
            out.push(BACKSLASH);
            out.push(0x75);
            out.push(0x30);
            out.push(0x30);
            let hi = b / 16;
            let lo = b % 16;
            out.push(if hi < 10 { 0x30 + hi } else { 0x57 + hi });
            out.push(if lo < 10 { 0x30 + lo } else { 0x57 + lo });
        } else {
            out.push(b);
        }
        k = k + 1;
        proof {
            lemma_esc_snoc(pre, b);
            assert(raw@.subrange(0, k as int) =~= pre.push(b));
            assert(out@ =~= esc(pre) + esc_byte(b));
        }
    }
    proof {
        assert(raw@.subrange(0, raw@.len() as int) =~= raw@);
    }
    Json::Str(out)
}

// ------------------------------------------------------------------
// Object member access.
// ------------------------------------------------------------------

/// The value of the first member named `key`, if any.
pub open spec fn obj_get(fs: Seq<JFieldV>, key: Seq<u8>) -> Option<JVal>
    decreases fs.len(),
{
    if fs.len() == 0 {
        None
    } else if fs[0].key == key {
        Some(fs[0].val)
    } else {
        obj_get(fs.skip(1), key)
    }
}

/// Replace the first member named `key`, or append one.
pub open spec fn obj_set(fs: Seq<JFieldV>, key: Seq<u8>, val: JVal) -> Seq<JFieldV>
    decreases fs.len(),
{
    if fs.len() == 0 {
        seq![JFieldV { key, val }]
    } else if fs[0].key == key {
        seq![JFieldV { key, val }] + fs.skip(1)
    } else {
        seq![fs[0]] + obj_set(fs.skip(1), key, val)
    }
}

/// A copy of the first member of `fields` named `key`, if any.
pub fn obj_get_clone(fields: &Vec<JField>, key: &Vec<u8>) -> (r: Option<Json>)
    ensures
        match r {
            Some(v) => obj_get(jv_fields(fields@, 0), key@) == Some(jv(v)),
            None => obj_get(jv_fields(fields@, 0), key@) is None,
        },
{
    proof {
        lemma_jv_fields_len(fields@, 0);
    }
    let mut k: usize = 0;
    while k < fields.len()
        invariant
            k <= fields@.len(),
            obj_get(jv_fields(fields@, 0), key@) == obj_get(jv_fields(fields@, k as int), key@),
        decreases fields@.len() - k,
    {
        proof {
            lemma_jv_fields_len(fields@, k as int);
            assert((seq![JFieldV { key: fields@[k as int].key@, val: jv(fields@[k as int].val) }]
                + jv_fields(fields@, k + 1)).skip(1) =~= jv_fields(fields@, k + 1));
        }
        if crate::bytes::bytes_eq(&fields[k].key, key) {
            let v = clone_json(&fields[k].val);
            return Some(v);
        }
        k = k + 1;
    }
    None
}

/// Replace the first member of `fields` named `key` in place, or append
/// one; the executable `obj_set`.
pub fn obj_set_in(fields: &mut Vec<JField>, key: Vec<u8>, val: Json)
    ensures
        jv_fields(final(fields)@, 0) == obj_set(jv_fields(old(fields)@, 0), key@, jv(val)),
{
    proof {
        lemma_jv_fields_len(fields@, 0);
    }
    let mut k: usize = 0;
    while k < fields.len()
        invariant
            k <= fields@.len(),
            fields@ == old(fields)@,
            forall|m: int|
                0 <= m < k ==> #[trigger] fields@[m].key@ != key@,
        decreases fields@.len() - k,
    {
        if crate::bytes::bytes_eq(&fields[k].key, &key) {
            fields.set(k, JField { key, val });
            proof {
                lemma_obj_set_at(old(fields)@, fields@, k as int, 0);
            }
            return;
        }
        k = k + 1;
    }
    let ghost before = fields@;
    fields.push(JField { key, val });
    proof {
        lemma_obj_set_append(before, fields@, 0);
    }
}

/// When the members before `k` miss the key and member `k` is replaced,
/// the suffix views from `i <= k` relate by `obj_set`.
proof fn lemma_obj_set_at(pre: Seq<JField>, post: Seq<JField>, k: int, i: int)
    requires
        pre.len() == post.len(),
        0 <= i <= k < pre.len(),
        forall|m: int| 0 <= m < pre.len() && m != k ==> post[m] == pre[m],
        forall|m: int| 0 <= m < k ==> #[trigger] pre[m].key@ != post[k].key@,
        pre[k].key@ == post[k].key@,
    ensures
        jv_fields(post, i) == obj_set(jv_fields(pre, i), post[k].key@, jv(post[k].val)),
    decreases k - i,
{
    lemma_jv_fields_len(pre, i);
    lemma_jv_fields_len(post, i);
    let key = post[k].key@;
    if i == k {
        assert((seq![JFieldV { key: pre[i].key@, val: jv(pre[i].val) }] + jv_fields(
            pre,
            i + 1,
        )).skip(1) =~= jv_fields(pre, i + 1));
        assert(jv_fields(post, i) =~= seq![JFieldV { key, val: jv(post[k].val) }] + jv_fields(
            post,
            i + 1,
        ));
        assert(jv_fields(post, i + 1) =~= jv_fields(pre, i + 1)) by {
            lemma_jv_fields_same(pre, post, i + 1);
        }
    } else {
        lemma_obj_set_at(pre, post, k, i + 1);
        assert(pre[i].key@ != key);
        assert((seq![JFieldV { key: pre[i].key@, val: jv(pre[i].val) }] + jv_fields(
            pre,
            i + 1,
        )).skip(1) =~= jv_fields(pre, i + 1));
        assert(jv_fields(post, i) == seq![JFieldV { key: post[i].key@, val: jv(post[i].val) }]
            + jv_fields(post, i + 1));
        assert(post[i] == pre[i]);
        assert(jv_fields(post, i) =~= seq![JFieldV { key: pre[i].key@, val: jv(pre[i].val) }]
            + obj_set(jv_fields(pre, i + 1), key, jv(post[k].val)));
    }
}

/// Suffix views agree where the members agree.
proof fn lemma_jv_fields_same(a: Seq<JField>, b: Seq<JField>, i: int)
    requires
        a.len() == b.len(),
        0 <= i,
        forall|m: int| i <= m < a.len() ==> a[m] == b[m],
    ensures
        jv_fields(a, i) == jv_fields(b, i),
    decreases a.len() - i,
{
    if i < a.len() {
        lemma_jv_fields_same(a, b, i + 1);
    }
}

/// When no member carries the key, appending one is `obj_set`.
proof fn lemma_obj_set_append(pre: Seq<JField>, post: Seq<JField>, i: int)
    requires
        post.len() == pre.len() + 1,
        0 <= i <= pre.len(),
        forall|m: int| 0 <= m < pre.len() ==> post[m] == pre[m],
        forall|m: int| 0 <= m < pre.len() ==> #[trigger] pre[m].key@ != post[pre.len() as int].key@,
    ensures
        jv_fields(post, i) == obj_set(
            jv_fields(pre, i),
            post[pre.len() as int].key@,
            jv(post[pre.len() as int].val),
        ),
    decreases pre.len() - i,
{
    lemma_jv_fields_len(pre, i);
    lemma_jv_fields_len(post, i);
    let key = post[pre.len() as int].key@;
    if i == pre.len() {
        assert(jv_fields(pre, i) =~= Seq::<JFieldV>::empty());
        assert(jv_fields(post, i) =~= seq![
            JFieldV { key, val: jv(post[pre.len() as int].val) },
        ]);
    } else {
        lemma_obj_set_append(pre, post, i + 1);
        assert(pre[i].key@ != key);
        assert((seq![JFieldV { key: pre[i].key@, val: jv(pre[i].val) }] + jv_fields(
            pre,
            i + 1,
        )).skip(1) =~= jv_fields(pre, i + 1));
        assert(post[i] == pre[i]);
        assert(jv_fields(post, i) =~= seq![JFieldV { key: pre[i].key@, val: jv(pre[i].val) }]
            + obj_set(jv_fields(pre, i + 1), key, jv(post[pre.len() as int].val)));
    }
}

// ------------------------------------------------------------------
// The executable emitter.
// ------------------------------------------------------------------

fn push_all(out: &mut Vec<u8>, bytes: &[u8])
    ensures
        final(out)@ == old(out)@ + bytes@,
{
    let mut k: usize = 0;
    while k < bytes.len()
        invariant
            k <= bytes.len(),
            out@ == old(out)@ + bytes@.subrange(0, k as int),
        decreases bytes.len() - k,
    {
        out.push(bytes[k]);
        k = k + 1;
        assert(old(out)@ + bytes@.subrange(0, k as int) =~= (old(out)@ + bytes@.subrange(
            0,
            k - 1,
        )).push(bytes@[k - 1]));
    }
    assert(bytes@.subrange(0, bytes@.len() as int) =~= bytes@);
}

/// Append the canonical rendering of `j` to `out`.
pub fn emit_into(j: &Json, out: &mut Vec<u8>)
    ensures
        final(out)@ == old(out)@ + emit(jv(*j)),
    decreases jdepth(jv(*j)),
{
    match j {
        Json::Null => {
            push_all(out, &[0x6Eu8, 0x75u8, 0x6Cu8, 0x6Cu8]);
            assert(emit(jv(*j)) =~= lit_null());
            assert(out@ =~= old(out)@ + emit(jv(*j)));
        },
        Json::Bool(b) => {
            if *b {
                push_all(out, &[0x74u8, 0x72u8, 0x75u8, 0x65u8]);
                assert(emit(jv(*j)) =~= lit_true());
            } else {
                push_all(out, &[0x66u8, 0x61u8, 0x6Cu8, 0x73u8, 0x65u8]);
                assert(emit(jv(*j)) =~= lit_false());
            }
            assert(out@ =~= old(out)@ + emit(jv(*j)));
        },
        Json::Num(s) => {
            push_all(out, s.as_slice());
            assert(out@ =~= old(out)@ + emit(jv(*j)));
        },
        Json::Str(s) => {
            out.push(QUOTE);
            push_all(out, s.as_slice());
            out.push(QUOTE);
            assert(out@ =~= old(out)@ + emit(jv(*j)));
        },
        Json::Arr(es) => {
            out.push(LBRACKET);
            let ghost vs = jv_seq(es@, 0);
            proof {
                lemma_jv_seq_len(es@, 0);
            }
            let mut i: usize = 0;
            while i < es.len()
                invariant
                    *j == Json::Arr(*es),
                    i <= es.len(),
                    vs == jv_seq(es@, 0),
                    vs.len() == es@.len(),
                    forall|k: int| 0 <= k < es@.len() ==> vs[k] == jv(es@[k]),
                    out@ + emit_arr_from(vs, i as int) == old(out)@ + seq![LBRACKET]
                        + emit_arr_from(vs, 0),
                decreases es.len() - i,
            {
                if i > 0 {
                    out.push(COMMA);
                }
                let ghost mid = out@;
                proof {
                    lemma_jdepth_seq_ge(vs, 0, i as int);
                    assert(*j == Json::Arr(*es));
                    assert(jv(*j) == JVal::Arr(jv_seq(es@, 0)));
                    assert(jv(*j) == JVal::Arr(vs));
                    assert(jdepth(jv(*j)) == 1 + jdepth_seq(vs, 0));
                    assert(vs[i as int] == jv(es@[i as int]));
                    assert(jdepth(jv(es@[i as int])) <= jdepth_seq(vs, 0));
                }
                emit_into(&es[i], out);
                proof {
                    let ii = i as int;
                    let sep: Seq<u8> = if ii > 0 {
                        seq![COMMA]
                    } else {
                        Seq::empty()
                    };
                    assert(emit_arr_from(vs, ii) == sep + emit(vs[ii]) + emit_arr_from(
                        vs,
                        ii + 1,
                    ));
                    assert(out@ + emit_arr_from(vs, ii + 1) =~= old(out)@ + seq![LBRACKET]
                        + emit_arr_from(vs, 0));
                }
                i = i + 1;
            }
            out.push(RBRACKET);
            proof {
                assert(emit_arr_from(vs, es@.len() as int) =~= Seq::<u8>::empty());
                assert(out@ =~= old(out)@ + (seq![LBRACKET] + emit_arr_from(vs, 0)
                    + seq![RBRACKET]));
                assert(emit(jv(*j)) =~= seq![LBRACKET] + emit_arr_from(vs, 0) + seq![RBRACKET]);
            }
        },
        Json::Obj(fs) => {
            out.push(LBRACE);
            let ghost vs = jv_fields(fs@, 0);
            proof {
                lemma_jv_fields_len(fs@, 0);
            }
            let mut i: usize = 0;
            while i < fs.len()
                invariant
                    *j == Json::Obj(*fs),
                    i <= fs.len(),
                    vs == jv_fields(fs@, 0),
                    vs.len() == fs@.len(),
                    forall|k: int|
                        0 <= k < fs@.len() ==> vs[k] == (JFieldV {
                            key: fs@[k].key@,
                            val: jv(fs@[k].val),
                        }),
                    out@ + emit_obj_from(vs, i as int) == old(out)@ + seq![LBRACE]
                        + emit_obj_from(vs, 0),
                decreases fs.len() - i,
            {
                if i > 0 {
                    out.push(COMMA);
                }
                out.push(QUOTE);
                push_all(out, fs[i].key.as_slice());
                out.push(QUOTE);
                out.push(COLON);
                proof {
                    lemma_jdepth_fields_ge(vs, 0, i as int);
                    assert(*j == Json::Obj(*fs));
                    assert(jv(*j) == JVal::Obj(jv_fields(fs@, 0)));
                    assert(jv(*j) == JVal::Obj(vs));
                    assert(jdepth(jv(*j)) == 1 + jdepth_fields(vs, 0));
                    assert(vs[i as int].val == jv(fs@[i as int].val));
                    assert(jdepth(jv(fs@[i as int].val)) <= jdepth_fields(vs, 0));
                }
                emit_into(&fs[i].val, out);
                proof {
                    let ii = i as int;
                    let sep: Seq<u8> = if ii > 0 {
                        seq![COMMA]
                    } else {
                        Seq::empty()
                    };
                    assert(emit_obj_from(vs, ii) == sep + seq![QUOTE] + vs[ii].key + seq![
                        QUOTE,
                        COLON,
                    ] + emit(vs[ii].val) + emit_obj_from(vs, ii + 1));
                    assert(out@ + emit_obj_from(vs, ii + 1) =~= old(out)@ + seq![LBRACE]
                        + emit_obj_from(vs, 0));
                }
                i = i + 1;
            }
            out.push(RBRACE);
            proof {
                assert(emit_obj_from(vs, fs@.len() as int) =~= Seq::<u8>::empty());
                assert(out@ =~= old(out)@ + (seq![LBRACE] + emit_obj_from(vs, 0) + seq![RBRACE]));
                assert(emit(jv(*j)) =~= seq![LBRACE] + emit_obj_from(vs, 0) + seq![RBRACE]);
            }
        },
    }
}

/// The canonical rendering of `j` as a fresh byte vector.
pub fn emit_json(j: &Json) -> (out: Vec<u8>)
    ensures
        out@ == emit(jv(*j)),
{
    let mut out: Vec<u8> = Vec::new();
    emit_into(j, &mut out);
    out
}

} // verus!
