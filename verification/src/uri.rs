//! Translating file URIs between the editor's view (the script file)
//! and the backend's view (the file inside the synthesized package),
//! and walking whole payloads to rewrite every URI-bearing member.

use vstd::prelude::*;
use crate::json::{
    Json, JField, JVal, JFieldV, jv, jv_seq, jv_fields, jdepth, lemma_jdepth_seq_ge, lemma_jdepth_fields_ge, lemma_jv_seq_at0, lemma_jv_fields_at0,
    lemma_jv_seq_push, lemma_jv_fields_push,
};
use crate::bytes::{
    bytes_eq, bytes_clone, k_file_scheme, b_file_scheme, k_uri, k_target_uri, k_scope_uri,
    k_root_uri, k_new_uri, k_old_uri, k_href, b_uri, b_target_uri, b_scope_uri, b_root_uri,
    b_new_uri, b_old_uri, b_href,
};

verus! {

/// The two path forms of one script: where the editor sees it, and
/// where it sits inside the synthesized package.
pub struct Context {
    pub script: Vec<u8>,
    pub package: Vec<u8>,
}

/// A file URI whose path is `path`.
pub open spec fn file_uri(path: Seq<u8>) -> Seq<u8> {
    k_file_scheme() + path
}

/// Translate a URI: a file URI whose path is `from` becomes the file
/// URI of `to`; everything else passes through unchanged.
pub open spec fn translate_uri(u: Seq<u8>, from: Seq<u8>, to: Seq<u8>) -> Seq<u8> {
    if u == file_uri(from) {
        file_uri(to)
    } else {
        u
    }
}

/// The executable translation of one URI.
pub fn translate_uri_bytes(u: &Vec<u8>, from: &Vec<u8>, to: &Vec<u8>) -> (r: Vec<u8>)
    ensures
        r@ == translate_uri(u@, from@, to@),
{
    let scheme = b_file_scheme();
    let mut probe = bytes_clone(&scheme);
    let mut k: usize = 0;
    while k < from.len()
        invariant
            k <= from@.len(),
            probe@ == k_file_scheme() + from@.subrange(0, k as int),
        decreases from@.len() - k,
    {
        probe.push(from[k]);
        k = k + 1;
        proof {
            assert(k_file_scheme() + from@.subrange(0, k as int) =~= (k_file_scheme()
                + from@.subrange(0, k - 1)).push(from@[k - 1]));
        }
    }
    proof {
        assert(from@.subrange(0, from@.len() as int) =~= from@);
    }
    if bytes_eq(u, &probe) {
        let mut out = bytes_clone(&scheme);
        let mut j: usize = 0;
        while j < to.len()
            invariant
                j <= to@.len(),
                out@ == k_file_scheme() + to@.subrange(0, j as int),
            decreases to@.len() - j,
        {
            out.push(to[j]);
            j = j + 1;
            proof {
                assert(k_file_scheme() + to@.subrange(0, j as int) =~= (k_file_scheme()
                    + to@.subrange(0, j - 1)).push(to@[j - 1]));
            }
        }
        proof {
            assert(to@.subrange(0, to@.len() as int) =~= to@);
        }
        out
    } else {
        bytes_clone(u)
    }
}

impl Context {
    pub fn new(script: Vec<u8>, package: Vec<u8>) -> (r: Context)
        ensures
            r.script@ == script@,
            r.package@ == package@,
    {
        Context { script, package }
    }

    /// The editor's URI as the backend must see it.
    pub fn translate_client_uri_to_server_uri(&self, uri: &Vec<u8>) -> (r: Vec<u8>)
        ensures
            r@ == translate_uri(uri@, self.script@, self.package@),
    {
        translate_uri_bytes(uri, &self.script, &self.package)
    }

    /// The backend's URI as the editor must see it.
    pub fn translate_server_uri_to_client_uri(&self, uri: &Vec<u8>) -> (r: Vec<u8>)
        ensures
            r@ == translate_uri(uri@, self.package@, self.script@),
    {
        translate_uri_bytes(uri, &self.package, &self.script)
    }
}

/// Translating a script-form URI to the server view and back yields the
/// original URI; so does the reverse trip on a package-form URI.  URIs
/// in neither form pass through both directions untouched.
pub proof fn lemma_uri_round_trip(c: Context, u: Seq<u8>)
    requires
        u == file_uri(c.script@) || !(u == file_uri(c.package@)),
    ensures
        translate_uri(translate_uri(u, c.script@, c.package@), c.package@, c.script@) == u,
{
}

/// The reverse direction of the round trip, for package-form URIs.
pub proof fn lemma_uri_round_trip_back(c: Context, u: Seq<u8>)
    requires
        u == file_uri(c.package@) || !(u == file_uri(c.script@)),
    ensures
        translate_uri(translate_uri(u, c.package@, c.script@), c.script@, c.package@) == u,
{
}

// ------------------------------------------------------------------
// Rewriting whole payloads.
// ------------------------------------------------------------------

/// The object keys that carry URIs in LSP payloads: text-document
/// identifiers, locations and links, workspace folders, diagnostic
/// code descriptions, and the create/rename/delete resource
/// operations.
pub open spec fn is_uri_key(k: Seq<u8>) -> bool {
    k == k_uri() || k == k_target_uri() || k == k_scope_uri() || k == k_root_uri() || k
        == k_new_uri() || k == k_old_uri() || k == k_href()
}

/// One payload with every URI-bearing member translated.
pub open spec fn trans_jval(j: JVal, from: Seq<u8>, to: Seq<u8>) -> JVal
    decreases j, 1nat, 0nat,
{
    match j {
        JVal::Arr(es) => JVal::Arr(trans_seq(es, 0, from, to)),
        JVal::Obj(fs) => JVal::Obj(trans_fields(fs, 0, from, to)),
        _ => j,
    }
}

pub open spec fn trans_seq(es: Seq<JVal>, i: int, from: Seq<u8>, to: Seq<u8>) -> Seq<JVal>
    decreases es, 0nat, es.len() - i,
{
    if i < 0 || i >= es.len() {
        Seq::empty()
    } else {
        seq![trans_jval(es[i], from, to)] + trans_seq(es, i + 1, from, to)
    }
}

pub open spec fn trans_field(f: JFieldV, from: Seq<u8>, to: Seq<u8>) -> JFieldV
    decreases f.val, 2nat, 0nat,
{
    if is_uri_key(f.key) {
        match f.val {
            JVal::Str(u) => JFieldV { key: f.key, val: JVal::Str(translate_uri(u, from, to)) },
            _ => JFieldV { key: f.key, val: trans_jval(f.val, from, to) },
        }
    } else {
        JFieldV { key: f.key, val: trans_jval(f.val, from, to) }
    }
}

pub open spec fn trans_fields(fs: Seq<JFieldV>, i: int, from: Seq<u8>, to: Seq<u8>) -> Seq<JFieldV>
    decreases fs, 0nat, fs.len() - i,
{
    if i < 0 || i >= fs.len() {
        Seq::empty()
    } else {
        seq![trans_field(fs[i], from, to)] + trans_fields(fs, i + 1, from, to)
    }
}

pub proof fn lemma_trans_seq_at0(es: Seq<JVal>, from: Seq<u8>, to: Seq<u8>)
    ensures
        trans_seq(es, 0, from, to).len() == es.len(),
        forall|k: int|
            0 <= k < es.len() ==> #[trigger] trans_seq(es, 0, from, to)[k] == trans_jval(
                es[k],
                from,
                to,
            ),
{
    lemma_trans_seq_len(es, 0, from, to);
    assert forall|k: int| 0 <= k < es.len() implies #[trigger] trans_seq(es, 0, from, to)[k]
        == trans_jval(es[k], from, to) by {
        assert(trans_seq(es, 0, from, to)[k - 0] == trans_jval(es[k], from, to));
    }
}

proof fn lemma_trans_seq_len(es: Seq<JVal>, i: int, from: Seq<u8>, to: Seq<u8>)
    requires
        0 <= i <= es.len(),
    ensures
        trans_seq(es, i, from, to).len() == es.len() - i,
        forall|k: int|
            i <= k < es.len() ==> trans_seq(es, i, from, to)[k - i] == trans_jval(
                es[k],
                from,
                to,
            ),
    decreases es.len() - i,
{
    if i < es.len() {
        lemma_trans_seq_len(es, i + 1, from, to);
    }
}

pub proof fn lemma_trans_fields_at0(fs: Seq<JFieldV>, from: Seq<u8>, to: Seq<u8>)
    ensures
        trans_fields(fs, 0, from, to).len() == fs.len(),
        forall|k: int|
            0 <= k < fs.len() ==> #[trigger] trans_fields(fs, 0, from, to)[k] == trans_field(
                fs[k],
                from,
                to,
            ),
{
    lemma_trans_fields_len(fs, 0, from, to);
    assert forall|k: int| 0 <= k < fs.len() implies #[trigger] trans_fields(fs, 0, from, to)[k]
        == trans_field(fs[k], from, to) by {
        assert(trans_fields(fs, 0, from, to)[k - 0] == trans_field(fs[k], from, to));
    }
}

proof fn lemma_trans_fields_len(fs: Seq<JFieldV>, i: int, from: Seq<u8>, to: Seq<u8>)
    requires
        0 <= i <= fs.len(),
    ensures
        trans_fields(fs, i, from, to).len() == fs.len() - i,
        forall|k: int|
            i <= k < fs.len() ==> trans_fields(fs, i, from, to)[k - i] == trans_field(
                fs[k],
                from,
                to,
            ),
    decreases fs.len() - i,
{
    if i < fs.len() {
        lemma_trans_fields_len(fs, i + 1, from, to);
    }
}

/// Whether `k` names a URI-bearing member.
fn is_uri_key_exec(k: &Vec<u8>) -> (r: bool)
    ensures
        r == is_uri_key(k@),
{
    bytes_eq(k, &b_uri()) || bytes_eq(k, &b_target_uri()) || bytes_eq(k, &b_scope_uri())
        || bytes_eq(k, &b_root_uri()) || bytes_eq(k, &b_new_uri()) || bytes_eq(k, &b_old_uri())
        || bytes_eq(k, &b_href())
}

/// A copy of `j` with every URI-bearing member translated.
pub fn trans_json(j: &Json, from: &Vec<u8>, to: &Vec<u8>) -> (r: Json)
    ensures
        jv(r) == trans_jval(jv(*j), from@, to@),
    decreases jdepth(jv(*j)),
{
    match j {
        Json::Null => Json::Null,
        Json::Bool(b) => Json::Bool(*b),
        Json::Num(s) => Json::Num(bytes_clone(s)),
        Json::Str(s) => Json::Str(bytes_clone(s)),
        Json::Arr(es) => {
            let ghost vs = jv_seq(es@, 0);
            proof {
                lemma_jv_seq_at0(es@);
                lemma_trans_seq_at0(vs, from@, to@);
            }
            let mut out: Vec<Json> = Vec::new();
            let mut i: usize = 0;
            proof {
                lemma_jv_seq_at0(out@);
                assert(jv_seq(out@, 0) =~= trans_seq(vs, 0, from@, to@).subrange(0, 0));
            }
            while i < es.len()
                invariant
                    *j == Json::Arr(*es),
                    i <= es.len(),
                    vs == jv_seq(es@, 0),
                    vs.len() == es@.len(),
                    forall|k: int| 0 <= k < es@.len() ==> vs[k] == jv(es@[k]),
                    trans_seq(vs, 0, from@, to@).len() == vs.len(),
                    forall|k: int|
                        0 <= k < vs.len() ==> #[trigger] trans_seq(vs, 0, from@, to@)[k]
                            == trans_jval(vs[k], from@, to@),
                    jv_seq(out@, 0) == trans_seq(vs, 0, from@, to@).subrange(0, i as int),
                decreases es.len() - i,
            {
                proof {
                    lemma_jdepth_seq_ge(vs, 0, i as int);
                    assert(jv(*j) == JVal::Arr(vs));
                }
                let c = trans_json(&es[i], from, to);
                let ghost old_out = out@;
                out.push(c);
                proof {
                    lemma_jv_seq_push(old_out, c);
                    assert(jv_seq(out@, 0) =~= trans_seq(vs, 0, from@, to@).subrange(0, i + 1));
                }
                i = i + 1;
            }
            proof {
                assert(trans_seq(vs, 0, from@, to@).subrange(0, vs.len() as int) =~= trans_seq(
                    vs,
                    0,
                    from@,
                    to@,
                ));
            }
            Json::Arr(out)
        },
        Json::Obj(fs) => {
            let ghost vs = jv_fields(fs@, 0);
            proof {
                lemma_jv_fields_at0(fs@);
                lemma_trans_fields_at0(vs, from@, to@);
            }
            let mut out: Vec<JField> = Vec::new();
            let mut i: usize = 0;
            proof {
                lemma_jv_fields_at0(out@);
                assert(jv_fields(out@, 0) =~= trans_fields(vs, 0, from@, to@).subrange(0, 0));
            }
            while i < fs.len()
                invariant
                    *j == Json::Obj(*fs),
                    i <= fs.len(),
                    vs == jv_fields(fs@, 0),
                    vs.len() == fs@.len(),
                    forall|k: int|
                        0 <= k < fs@.len() ==> vs[k] == (JFieldV {
                            key: fs@[k].key@,
                            val: jv(fs@[k].val),
                        }),
                    trans_fields(vs, 0, from@, to@).len() == vs.len(),
                    forall|k: int|
                        0 <= k < vs.len() ==> #[trigger] trans_fields(vs, 0, from@, to@)[k]
                            == trans_field(vs[k], from@, to@),
                    jv_fields(out@, 0) == trans_fields(vs, 0, from@, to@).subrange(0, i as int),
                decreases fs.len() - i,
            {
                proof {
                    lemma_jdepth_fields_ge(vs, 0, i as int);
                    assert(jv(*j) == JVal::Obj(vs));
                }
                let key = bytes_clone(&fs[i].key);
                let uri_key = is_uri_key_exec(&key);
                let translated_val: Json = match &fs[i].val {
                    Json::Str(u) if uri_key => Json::Str(translate_uri_bytes(u, from, to)),
                    other => trans_json(other, from, to),
                };
                let ghost old_out = out@;
                out.push(JField { key, val: translated_val });
                proof {
                    lemma_jv_fields_push(old_out, JField {
                        key: out@[out@.len() - 1].key,
                        val: out@[out@.len() - 1].val,
                    });
                    assert(jv_fields(out@, 0) =~= trans_fields(vs, 0, from@, to@).subrange(
                        0,
                        i + 1,
                    ));
                }
                i = i + 1;
            }
            proof {
                assert(trans_fields(vs, 0, from@, to@).subrange(0, vs.len() as int)
                    =~= trans_fields(vs, 0, from@, to@));
            }
            Json::Obj(out)
        },
    }
}

} // verus!
