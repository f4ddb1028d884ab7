//! Decoding inverts encoding: a well-formed JSON tree, rendered by the
//! emitter and read back by the parser, comes back unchanged.

use vstd::prelude::*;
use crate::json::{
    JVal, JFieldV, jwf, jwf_seq, jwf_fields, str_ok, is_ws, is_num_char, is_num_start,
    emit, emit_arr_from, emit_obj_from, lit_null, lit_true, lit_false, QUOTE, BACKSLASH, LBRACKET,
    RBRACKET, LBRACE, RBRACE, COMMA, COLON,
};
use crate::parse::{
    skip_ws, scan_num, parse_str_body, parse_val, parse_arr_rest, parse_obj_rest, parse_doc,
};

verus! {

/// Bytes that can open a well-formed value.  None of them is
/// whitespace, a closing delimiter, a comma or a colon.
pub open spec fn value_start(b: u8) -> bool {
    b == QUOTE || b == LBRACKET || b == LBRACE || is_num_start(b) || b == 0x6E || b == 0x74 || b
        == 0x66
}

/// The rendering of a well-formed value is nonempty and opens with a
/// byte that starts a value.
pub proof fn lemma_emit_first(j: JVal)
    requires
        jwf(j),
    ensures
        emit(j).len() > 0,
        value_start(emit(j)[0]),
{
    match j {
        JVal::Null => {},
        JVal::Bool(b) => {},
        JVal::Num(s) => {},
        JVal::Str(s) => {},
        JVal::Arr(es) => {},
        JVal::Obj(fs) => {},
    }
}

/// A number scan stops exactly at the first byte that cannot continue
/// the token.
proof fn lemma_scan_num_stop(s: Seq<u8>, i: int, end: int)
    requires
        0 <= i <= end <= s.len(),
        forall|m: int| i <= m < end ==> is_num_char(#[trigger] s[m]),
        end == s.len() || !is_num_char(s[end]),
    ensures
        scan_num(s, i) == end,
    decreases end - i,
{
    if i < end {
        lemma_scan_num_stop(s, i + 1, end);
    }
}

/// A well-formed string body written at `i` and closed by a quote is
/// scanned back exactly.
proof fn lemma_str_body_exact(s: Seq<u8>, i: int, t: Seq<u8>)
    requires
        str_ok(t),
        0 <= i,
        i + t.len() + 1 <= s.len(),
        s.subrange(i, i + t.len()) == t,
        s[i + t.len()] == QUOTE,
    ensures
        parse_str_body(s, i) == Some((t, i + t.len() + 1)),
    decreases t.len(),
{
    if t.len() == 0 {
        assert(s[i] == QUOTE);
    } else {
        assert(s[i] == t[0]) by {
            assert(s.subrange(i, i + t.len())[0] == s[i]);
        }
        assert(t[0] != QUOTE);
        if t[0] == BACKSLASH {
            let t2 = t.skip(2);
            assert(s.subrange(i + 2, i + 2 + t2.len()) =~= t2) by {
                assert forall|u: int| 0 <= u < t2.len() implies s.subrange(
                    i + 2,
                    i + 2 + t2.len(),
                )[u] == t2[u] by {
                    assert(s.subrange(i, i + t.len())[u + 2] == s[i + 2 + u]);
                }
            }
            lemma_str_body_exact(s, i + 2, t2);
            assert(s[i + 1] == t[1]) by {
                assert(s.subrange(i, i + t.len())[1] == s[i + 1]);
            }
            assert(seq![s[i], s[i + 1]] + t2 =~= t);
        } else {
            let t2 = t.skip(1);
            assert(s.subrange(i + 1, i + 1 + t2.len()) =~= t2) by {
                assert forall|u: int| 0 <= u < t2.len() implies s.subrange(
                    i + 1,
                    i + 1 + t2.len(),
                )[u] == t2[u] by {
                    assert(s.subrange(i, i + t.len())[u + 1] == s[i + 1 + u]);
                }
            }
            lemma_str_body_exact(s, i + 1, t2);
            assert(seq![s[i]] + t2 =~= t);
        }
    }
}

/// Parsing reads back exactly what the emitter wrote: the value at `i`,
/// ending right after it.  The byte that follows, if any, must not be
/// able to continue a number token, as is the case after any element of
/// a frame body.
pub proof fn lemma_rt_val(s: Seq<u8>, i: int, j: JVal)
    requires
        jwf(j),
        0 <= i,
        i + emit(j).len() <= s.len(),
        s.subrange(i, i + emit(j).len()) == emit(j),
        i + emit(j).len() == s.len() || !is_num_char(s[i + emit(j).len()]),
    ensures
        parse_val(s, i) == Some((j, i + emit(j).len())),
    decreases j, 1nat, 0nat,
{
    let l = emit(j).len() as int;
    lemma_emit_first(j);
    assert(s[i] == emit(j)[0]) by {
        assert(s.subrange(i, i + l)[0] == s[i]);
    }
    assert(!is_ws(s[i]));
    assert(skip_ws(s, i) == i);
    match j {
        JVal::Null => {
            assert(s.subrange(i, i + 4) =~= lit_null());
        },
        JVal::Bool(b) => {
            if b {
                assert(s.subrange(i, i + 4) =~= lit_true());
            } else {
                assert(s.subrange(i, i + 5) =~= lit_false());
            }
        },
        JVal::Num(t) => {
            assert forall|m: int| i <= m < i + l implies is_num_char(#[trigger] s[m]) by {
                assert(s.subrange(i, i + l)[m - i] == s[m]);
            }
            lemma_scan_num_stop(s, i, i + l);
            assert(s.subrange(i, i + l) == t);
        },
        JVal::Str(t) => {
            assert(s[i] == QUOTE);
            assert(s.subrange(i + 1, i + 1 + t.len()) =~= t) by {
                assert forall|u: int| 0 <= u < t.len() implies s.subrange(
                    i + 1,
                    i + 1 + t.len(),
                )[u] == t[u] by {
                    assert(s.subrange(i, i + l)[u + 1] == s[i + 1 + u]);
                    assert(emit(j)[u + 1] == t[u]);
                }
            }
            assert(s[i + 1 + t.len()] == QUOTE) by {
                assert(s.subrange(i, i + l)[l - 1] == s[i + l - 1]);
                assert(emit(j)[l - 1] == QUOTE);
            }
            lemma_str_body_exact(s, i + 1, t);
        },
        JVal::Arr(es) => {
            assert(s[i] == LBRACKET);
            let inner = emit_arr_from(es, 0);
            if es.len() == 0 {
                assert(inner =~= Seq::<u8>::empty());
                assert(s[i + 1] == RBRACKET) by {
                    assert(s.subrange(i, i + l)[1] == s[i + 1]);
                    assert(emit(j)[1] == RBRACKET);
                }
                assert(skip_ws(s, i + 1) == i + 1);
                assert(es =~= Seq::<JVal>::empty());
            } else {
                assert(jwf(es[0]) && emit(es[0]).len() > 0) by {
                    assert(jwf_seq(es, 0));
                    lemma_emit_first(es[0]);
                }
                assert(inner == emit(es[0]) + emit_arr_from(es, 1));
                assert(s[i + 1] == emit(es[0])[0]) by {
                    assert(s.subrange(i, i + l)[1] == s[i + 1]);
                    assert(emit(j)[1] == inner[0]);
                }
                lemma_emit_first(es[0]);
                assert(!is_ws(s[i + 1]) && s[i + 1] != RBRACKET);
                assert(skip_ws(s, i + 1) == i + 1);
                // content hypothesis for the element chain
                assert(s.subrange(i + 1, i + 1 + inner.len()) =~= inner) by {
                    assert forall|u: int| 0 <= u < inner.len() implies s.subrange(
                        i + 1,
                        i + 1 + inner.len(),
                    )[u] == inner[u] by {
                        assert(s.subrange(i, i + l)[u + 1] == s[i + 1 + u]);
                        assert(emit(j)[u + 1] == inner[u]);
                    }
                }
                assert(s[i + 1 + inner.len()] == RBRACKET) by {
                    assert(s.subrange(i, i + l)[l - 1] == s[i + l - 1]);
                    assert(emit(j)[l - 1] == RBRACKET);
                }
                lemma_rt_arr(s, i + 1, es, 0);
                assert(es.skip(0) =~= es);
            }
        },
        JVal::Obj(fs) => {
            assert(s[i] == LBRACE);
            let inner = emit_obj_from(fs, 0);
            if fs.len() == 0 {
                assert(inner =~= Seq::<u8>::empty());
                assert(s[i + 1] == RBRACE) by {
                    assert(s.subrange(i, i + l)[1] == s[i + 1]);
                    assert(emit(j)[1] == RBRACE);
                }
                assert(skip_ws(s, i + 1) == i + 1);
                assert(fs =~= Seq::<JFieldV>::empty());
            } else {
                assert(inner == seq![QUOTE] + fs[0].key + seq![QUOTE, COLON] + emit(fs[0].val)
                    + emit_obj_from(fs, 1));
                assert(s[i + 1] == QUOTE) by {
                    assert(s.subrange(i, i + l)[1] == s[i + 1]);
                    assert(emit(j)[1] == inner[0]);
                    assert(inner[0] == QUOTE);
                }
                assert(skip_ws(s, i + 1) == i + 1);
                assert(s.subrange(i + 1, i + 1 + inner.len()) =~= inner) by {
                    assert forall|u: int| 0 <= u < inner.len() implies s.subrange(
                        i + 1,
                        i + 1 + inner.len(),
                    )[u] == inner[u] by {
                        assert(s.subrange(i, i + l)[u + 1] == s[i + 1 + u]);
                        assert(emit(j)[u + 1] == inner[u]);
                    }
                }
                assert(s[i + 1 + inner.len()] == RBRACE) by {
                    assert(s.subrange(i, i + l)[l - 1] == s[i + l - 1]);
                    assert(emit(j)[l - 1] == RBRACE);
                }
                lemma_rt_obj(s, i + 1, fs, 0);
                assert(fs.skip(0) =~= fs);
            }
        },
    }
}

/// The elements of `es` from `k` on, written out with commas between
/// them and a closing bracket after them, parse back to exactly those
/// elements.
pub proof fn lemma_rt_arr(s: Seq<u8>, i: int, es: Seq<JVal>, k: int)
    requires
        0 <= k < es.len(),
        jwf_seq(es, k),
        0 <= i,
        i + emit(es[k]).len() + emit_arr_from(es, k + 1).len() + 1 <= s.len(),
        s.subrange(i, i + emit(es[k]).len() + emit_arr_from(es, k + 1).len()) == emit(es[k])
            + emit_arr_from(es, k + 1),
        s[i + emit(es[k]).len() + emit_arr_from(es, k + 1).len()] == RBRACKET,
    ensures
        parse_arr_rest(s, i) == Some(
            (es.skip(k), i + emit(es[k]).len() + emit_arr_from(es, k + 1).len() + 1),
        ),
    decreases es, 0nat, es.len() - k,
{
    let le = emit(es[k]).len() as int;
    let rest = emit_arr_from(es, k + 1);
    let tl = le + rest.len() as int;
    assert(jwf(es[k]));
    lemma_emit_first(es[k]);
    // the element itself
    assert(s.subrange(i, i + le) =~= emit(es[k])) by {
        assert forall|u: int| 0 <= u < le implies s.subrange(i, i + le)[u] == emit(es[k])[u] by {
            assert(s.subrange(i, i + tl)[u] == s[i + u]);
            assert((emit(es[k]) + rest)[u] == emit(es[k])[u]);
        }
    }
    if k + 1 < es.len() {
        assert(rest == seq![COMMA] + emit(es[k + 1]) + emit_arr_from(es, k + 2));
        assert(s[i + le] == COMMA) by {
            assert(s.subrange(i, i + tl)[le] == s[i + le]);
            assert((emit(es[k]) + rest)[le] == rest[0]);
        }
        lemma_rt_val(s, i, es[k]);
        assert(skip_ws(s, i + le) == i + le);
        // chain hypothesis one element further
        let le2 = emit(es[k + 1]).len() as int;
        let rest2 = emit_arr_from(es, k + 2);
        let i2 = i + le + 1;
        assert(s.subrange(i2, i2 + le2 + rest2.len()) =~= emit(es[k + 1]) + rest2) by {
            assert forall|u: int| 0 <= u < le2 + rest2.len() implies s.subrange(
                i2,
                i2 + le2 + rest2.len(),
            )[u] == #[trigger] ((emit(es[k + 1]) + rest2)[u]) by {
                assert(s.subrange(i, i + tl)[le + 1 + u] == s[i + le + 1 + u]);
                assert((emit(es[k]) + rest)[le + 1 + u] == rest[1 + u]);
                assert(rest[1 + u] == (emit(es[k + 1]) + rest2)[u]);
            }
        }
        assert(s[i2 + le2 + rest2.len()] == RBRACKET);
        lemma_rt_arr(s, i2, es, k + 1);
        assert(seq![es[k]] + es.skip(k + 1) =~= es.skip(k));
    } else {
        assert(rest =~= Seq::<u8>::empty());
        assert(s[i + le] == RBRACKET);
        lemma_rt_val(s, i, es[k]);
        assert(skip_ws(s, i + le) == i + le);
        assert(s[i + le] != COMMA);
        assert(seq![es[k]] =~= es.skip(k));
    }
}

/// The members of `fs` from `k` on, written out and closed by a brace,
/// parse back to exactly those members.
pub proof fn lemma_rt_obj(s: Seq<u8>, i: int, fs: Seq<JFieldV>, k: int)
    requires
        0 <= k < fs.len(),
        jwf_fields(fs, k),
        0 <= i,
        i + 3 + fs[k].key.len() + emit(fs[k].val).len() + emit_obj_from(fs, k + 1).len() + 1
            <= s.len(),
        s.subrange(
            i,
            i + 3 + fs[k].key.len() + emit(fs[k].val).len() + emit_obj_from(fs, k + 1).len(),
        ) == seq![QUOTE] + fs[k].key + seq![QUOTE, COLON] + emit(fs[k].val) + emit_obj_from(
            fs,
            k + 1,
        ),
        s[i + 3 + fs[k].key.len() + emit(fs[k].val).len() + emit_obj_from(fs, k + 1).len()]
            == RBRACE,
    ensures
        parse_obj_rest(s, i) == Some(
            (
                fs.skip(k),
                i + 3 + fs[k].key.len() + emit(fs[k].val).len() + emit_obj_from(fs, k + 1).len()
                    + 1,
            ),
        ),
    decreases fs, 0nat, fs.len() - k,
{
    let key = fs[k].key;
    let kl = key.len() as int;
    let lv = emit(fs[k].val).len() as int;
    let rest = emit_obj_from(fs, k + 1);
    let tl = 3 + kl + lv + rest.len() as int;
    let content = seq![QUOTE] + key + seq![QUOTE, COLON] + emit(fs[k].val) + rest;
    assert(str_ok(key) && jwf(fs[k].val));
    lemma_emit_first(fs[k].val);
    assert(s[i] == QUOTE) by {
        assert(s.subrange(i, i + tl)[0] == s[i]);
        assert(content[0] == QUOTE);
    }
    assert(skip_ws(s, i) == i);
    // the key string
    assert(s.subrange(i + 1, i + 1 + kl) =~= key) by {
        assert forall|u: int| 0 <= u < kl implies s.subrange(i + 1, i + 1 + kl)[u] == key[u] by {
            assert(s.subrange(i, i + tl)[1 + u] == s[i + 1 + u]);
            assert(content[1 + u] == key[u]);
        }
    }
    assert(s[i + 1 + kl] == QUOTE) by {
        assert(s.subrange(i, i + tl)[1 + kl] == s[i + 1 + kl]);
        assert(content[1 + kl] == QUOTE);
    }
    lemma_str_body_exact(s, i + 1, key);
    // the colon
    assert(s[i + 2 + kl] == COLON) by {
        assert(s.subrange(i, i + tl)[2 + kl] == s[i + 2 + kl]);
        assert(content[2 + kl] == COLON);
    }
    assert(skip_ws(s, i + 2 + kl) == i + 2 + kl);
    // the value
    let iv = i + 3 + kl;
    assert(s.subrange(iv, iv + lv) =~= emit(fs[k].val)) by {
        assert forall|u: int| 0 <= u < lv implies s.subrange(iv, iv + lv)[u] == emit(
            fs[k].val,
        )[u] by {
            assert(s.subrange(i, i + tl)[3 + kl + u] == s[iv + u]);
            assert(content[3 + kl + u] == emit(fs[k].val)[u]);
        }
    }
    if k + 1 < fs.len() {
        assert(rest == seq![COMMA] + seq![QUOTE] + fs[k + 1].key + seq![QUOTE, COLON] + emit(
            fs[k + 1].val,
        ) + emit_obj_from(fs, k + 2));
        assert(s[iv + lv] == COMMA) by {
            assert(s.subrange(i, i + tl)[3 + kl + lv] == s[iv + lv]);
            assert(content[3 + kl + lv] == rest[0]);
        }
        lemma_rt_val(s, iv, fs[k].val);
        assert(skip_ws(s, iv + lv) == iv + lv);
        let i2 = iv + lv + 1;
        let kl2 = fs[k + 1].key.len() as int;
        let lv2 = emit(fs[k + 1].val).len() as int;
        let rest2 = emit_obj_from(fs, k + 2);
        let content2 = seq![QUOTE] + fs[k + 1].key + seq![QUOTE, COLON] + emit(fs[k + 1].val)
            + rest2;
        assert(s.subrange(i2, i2 + 3 + kl2 + lv2 + rest2.len()) =~= content2) by {
            assert forall|u: int| 0 <= u < 3 + kl2 + lv2 + rest2.len() implies s.subrange(
                i2,
                i2 + 3 + kl2 + lv2 + rest2.len(),
            )[u] == content2[u] by {
                assert(s.subrange(i, i + tl)[3 + kl + lv + 1 + u] == s[i2 + u]);
                assert(content[3 + kl + lv + 1 + u] == rest[1 + u]);
                assert(rest[1 + u] == content2[u]);
            }
        }
        assert(s[i2 + 3 + kl2 + lv2 + rest2.len()] == RBRACE);
        lemma_rt_obj(s, i2, fs, k + 1);
        assert(seq![fs[k]] + fs.skip(k + 1) =~= fs.skip(k));
        assert(JFieldV { key, val: fs[k].val } == fs[k]);
    } else {
        assert(rest =~= Seq::<u8>::empty());
        assert(s[iv + lv] == RBRACE);
        lemma_rt_val(s, iv, fs[k].val);
        assert(skip_ws(s, iv + lv) == iv + lv);
        assert(s[iv + lv] != COMMA);
        assert(seq![fs[k]] =~= fs.skip(k));
        assert(JFieldV { key, val: fs[k].val } == fs[k]);
    }
}

/// A well-formed JSON tree survives the trip onto the wire and back.
pub proof fn lemma_json_round_trip(j: JVal)
    requires
        jwf(j),
    ensures
        parse_doc(emit(j)) == Some(j),
{
    let s = emit(j);
    assert(s.subrange(0, s.len() as int) =~= s);
    lemma_rt_val(s, 0, j);
    assert(skip_ws(s, s.len() as int) == s.len());
}

} // verus!
