//! The routing engine: one step of the main loop.  The loop itself —
//! threads, pipes, the child process — lives outside; everything the
//! router decides is here, as a function from state and event to new
//! state and actions.

use vstd::prelude::*;
use crate::json::{
    Json, JField, JVal, JFieldV, jv, jv_seq, jv_fields, obj_get, obj_set, obj_get_clone,
    obj_set_in, clone_json, lemma_jv_seq_at0, lemma_jv_fields_at0,
};
use crate::msg::{
    Message, MessageV, msg_v, ReqId, ReqIdV, rid_v, rid_eq, rid_clone, };
use crate::event::{Event, VersionCounter};
use crate::script::{
    Scripts, ScriptEntry, scripts_wf, descriptor_of, RegisterOutcome, has_uri, find_uri,
    spawn_list, file_path_of_uri,
};
use crate::uri::{Context, trans_jval};
use crate::handler::{is_method};
use crate::bytes::{
    bytes_eq, bytes_clone, b_crates, k_crates, b_linked_projects, k_linked_projects,
    b_initialization_options, k_initialization_options, b_initialize, k_initialize, b_items,
    k_items, b_section, k_section, b_rust_analyzer_section, k_rust_analyzer_section,
    b_text_document, k_text_document, b_language_id, k_language_id, b_uri, k_uri,
    b_rust_script_lang, k_rust_script_lang, b_rust_lang, k_rust_lang, b_did_open, k_did_open,
    b_did_close, k_did_close, b_did_save, k_did_save, b_workspace_configuration,
    k_workspace_configuration, b_did_change_configuration, k_did_change_configuration,
    b_reload_workspace, k_reload_workspace, b_settings, k_settings,
};

verus! {

// ------------------------------------------------------------------
// Pending requests.
// ------------------------------------------------------------------

/// A request seen in one direction and not yet answered from the
/// other: what is needed to treat its response.
pub struct PendingEntry {
    pub id: ReqId,
    pub method: Vec<u8>,
    pub params: Json,
}

/// First index holding `id`, or the length when none does.
pub open spec fn pend_find(v: Seq<PendingEntry>, id: ReqIdV, i: int) -> int
    decreases v.len() - i,
{
    if i < 0 || i >= v.len() {
        v.len() as int
    } else if rid_v(v[i].id) == id {
        i
    } else {
        pend_find(v, id, i + 1)
    }
}

pub open spec fn pend_has(v: Seq<PendingEntry>, id: ReqIdV) -> bool {
    pend_find(v, id, 0) < v.len()
}

pub proof fn lemma_pend_find_props(v: Seq<PendingEntry>, id: ReqIdV, i: int)
    requires
        0 <= i <= v.len(),
    ensures
        i <= pend_find(v, id, i) <= v.len(),
        pend_find(v, id, i) < v.len() ==> rid_v(v[pend_find(v, id, i)].id) == id,
        forall|m: int| i <= m < pend_find(v, id, i) ==> rid_v(v[m].id) != id,
    decreases v.len() - i,
{
    if i < v.len() && rid_v(v[i].id) != id {
        lemma_pend_find_props(v, id, i + 1);
    }
}

/// Where a search must land: no match before `pos`, a match at `pos`
/// (or `pos` is the end).
pub proof fn lemma_pend_find_exact(v: Seq<PendingEntry>, id: ReqIdV, i: int, pos: int)
    requires
        0 <= i <= pos <= v.len(),
        forall|m: int| i <= m < pos ==> rid_v(v[m].id) != id,
        pos == v.len() || rid_v(v[pos].id) == id,
    ensures
        pend_find(v, id, i) == pos,
    decreases pos - i,
{
    if i < pos {
        lemma_pend_find_exact(v, id, i + 1, pos);
    }
}

/// Presence of other ids is untouched when one position changes or an
/// entry with a different id is appended.
pub proof fn lemma_pend_has_same(a: Seq<PendingEntry>, b: Seq<PendingEntry>, id2: ReqIdV)
    requires
        a.len() == b.len(),
        forall|m: int| 0 <= m < a.len() ==> (rid_v(a[m].id) == id2) == (rid_v(b[m].id) == id2),
    ensures
        pend_has(a, id2) == pend_has(b, id2),
{
    lemma_pend_find_props(a, id2, 0);
    lemma_pend_find_props(b, id2, 0);
    if pend_has(a, id2) {
        let k = pend_find(a, id2, 0);
        assert(rid_v(b[k].id) == id2);
        assert(pend_find(b, id2, 0) < b.len()) by {
            if pend_find(b, id2, 0) >= b.len() {
                assert(rid_v(b[k].id) != id2);
            }
        }
    }
    if pend_has(b, id2) {
        let k = pend_find(b, id2, 0);
        assert(rid_v(a[k].id) == id2);
        assert(pend_find(a, id2, 0) < a.len()) by {
            if pend_find(a, id2, 0) >= a.len() {
                assert(rid_v(a[k].id) != id2);
            }
        }
    }
}

/// Appending an entry with a different id keeps presence.
pub proof fn lemma_pend_has_push(a: Seq<PendingEntry>, e: PendingEntry, id2: ReqIdV)
    requires
        id2 != rid_v(e.id),
    ensures
        pend_has(a.push(e), id2) == pend_has(a, id2),
{
    let b = a.push(e);
    lemma_pend_find_props(a, id2, 0);
    lemma_pend_find_props(b, id2, 0);
    if pend_has(a, id2) {
        let k = pend_find(a, id2, 0);
        assert(rid_v(b[k].id) == id2);
        if pend_find(b, id2, 0) >= b.len() {
            assert(rid_v(b[k].id) != id2);
        }
    }
    if pend_has(b, id2) {
        let k = pend_find(b, id2, 0);
        if k < a.len() {
            if pend_find(a, id2, 0) >= a.len() {
                assert(rid_v(a[k].id) != id2);
            }
        } else {
            assert(rid_v(b[k].id) == rid_v(e.id));
        }
    }
}

/// Dropping one position keeps presence of other ids.
pub proof fn lemma_pend_has_drop(a: Seq<PendingEntry>, k: int, id2: ReqIdV)
    requires
        0 <= k < a.len(),
        rid_v(a[k].id) != id2,
    ensures
        pend_has(a.subrange(0, k) + a.subrange(k + 1, a.len() as int), id2) == pend_has(a, id2),
{
    let b = a.subrange(0, k) + a.subrange(k + 1, a.len() as int);
    lemma_pend_find_props(a, id2, 0);
    lemma_pend_find_props(b, id2, 0);
    if pend_has(a, id2) {
        let m = pend_find(a, id2, 0);
        let m2 = if m < k {
            m
        } else {
            m - 1
        };
        assert(m != k);
        assert(b[m2] == a[m]);
        if pend_find(b, id2, 0) >= b.len() {
            assert(rid_v(b[m2].id) != id2);
        }
    }
    if pend_has(b, id2) {
        let m2 = pend_find(b, id2, 0);
        let m = if m2 < k {
            m2
        } else {
            m2 + 1
        };
        assert(b[m2] == a[m]);
        if pend_find(a, id2, 0) >= a.len() {
            assert(rid_v(a[m].id) != id2);
        }
    }
}

/// Pending ids are pairwise distinct.
pub open spec fn pend_wf(v: Seq<PendingEntry>) -> bool {
    forall|i: int, j: int| 0 <= i < j < v.len() ==> rid_v(v[i].id) != rid_v(v[j].id)
}

/// Remember a request under its id; a second request under the same id
/// replaces the first, as a rogue peer's reuse must not grow the map.
pub fn pend_upsert(v: &mut Vec<PendingEntry>, e: PendingEntry)
    requires
        pend_wf(old(v)@),
    ensures
        pend_wf(final(v)@),
        pend_has(final(v)@, rid_v(e.id)),
        forall|id2: ReqIdV|
            id2 != rid_v(e.id) ==> pend_has(final(v)@, id2) == pend_has(old(v)@, id2),
        !pend_has(old(v)@, rid_v(e.id)) ==> final(v)@ == old(v)@.push(e),
        pend_has(old(v)@, rid_v(e.id)) ==> final(v)@ == old(v)@.update(
            pend_find(old(v)@, rid_v(e.id), 0),
            e,
        ),
{
    let mut k: usize = 0;
    while k < v.len()
        invariant
            k <= v@.len(),
            v@ == old(v)@,
            pend_wf(old(v)@),
            pend_find(v@, rid_v(e.id), 0) == pend_find(v@, rid_v(e.id), k as int),
        decreases v@.len() - k,
    {
        if rid_eq(&v[k].id, &e.id) {
            let ghost idv = rid_v(e.id);
            proof {
                assert(pend_find(old(v)@, idv, k as int) == k as int);
                lemma_pend_find_props(old(v)@, idv, 0);
            }
            v.remove(k);
            v.insert(k, e);
            proof {
                assert(v@ =~= old(v)@.update(k as int, v@[k as int]));
                assert forall|m: int| 0 <= m < k as int implies rid_v(v@[m].id) != idv by {
                    assert(v@[m] == old(v)@[m]);
                }
                lemma_pend_find_exact(v@, idv, 0, k as int);
                assert forall|id2: ReqIdV| id2 != idv implies pend_has(v@, id2) == pend_has(
                    old(v)@,
                    id2,
                ) by {
                    lemma_pend_has_same(v@, old(v)@, id2);
                }
                assert forall|i: int, j: int|
                    0 <= i < j < v@.len() implies rid_v(v@[i].id) != rid_v(v@[j].id) by {
                    if i != k as int && j != k as int {
                        assert(rid_v(old(v)@[i].id) != rid_v(old(v)@[j].id));
                    } else if i == k as int {
                        assert(rid_v(v@[i].id) == idv);
                        assert(rid_v(old(v)@[j].id) != idv);
                    } else {
                        assert(rid_v(v@[j].id) == idv);
                        assert(rid_v(old(v)@[i].id) != idv);
                    }
                }
            }
            return;
        }
        k = k + 1;
    }
    let ghost idv = rid_v(e.id);
    proof {
        lemma_pend_find_props(old(v)@, idv, 0);
    }
    v.push(e);
    proof {
        assert(v@.subrange(0, old(v)@.len() as int) =~= old(v)@);
        assert forall|m: int| 0 <= m < old(v)@.len() implies rid_v(v@[m].id) != idv by {
            assert(v@[m] == old(v)@[m]);
        }
        assert(rid_v(v@[old(v)@.len() as int].id) == idv);
        lemma_pend_find_exact(v@, idv, 0, old(v)@.len() as int);
        assert forall|id2: ReqIdV| id2 != idv implies pend_has(v@, id2) == pend_has(
            old(v)@,
            id2,
        ) by {
            assert(v@ =~= old(v)@.push(v@[old(v)@.len() as int]));
            lemma_pend_has_push(old(v)@, v@[old(v)@.len() as int], id2);
        }
        assert forall|i: int, j: int|
            0 <= i < j < v@.len() implies rid_v(v@[i].id) != rid_v(v@[j].id) by {
            if j < old(v)@.len() {
                assert(rid_v(old(v)@[i].id) != rid_v(old(v)@[j].id));
            } else {
                assert(rid_v(v@[j].id) == idv);
                assert(rid_v(old(v)@[i].id) != idv);
            }
        }
    }
}

/// Take the pending request with this id out of the map, if it is
/// there.
pub fn pend_remove(v: &mut Vec<PendingEntry>, id: &ReqId) -> (r: Option<PendingEntry>)
    requires
        pend_wf(old(v)@),
    ensures
        pend_wf(final(v)@),
        !pend_has(old(v)@, rid_v(*id)) ==> final(v)@ == old(v)@ && r is None,
        pend_has(old(v)@, rid_v(*id)) ==> {
            let k = pend_find(old(v)@, rid_v(*id), 0);
            &&& r == Some(old(v)@[k])
            &&& final(v)@ == old(v)@.subrange(0, k) + old(v)@.subrange(
                k + 1,
                old(v)@.len() as int,
            )
            &&& !pend_has(final(v)@, rid_v(*id))
        },
        forall|id2: ReqIdV|
            id2 != rid_v(*id) ==> pend_has(final(v)@, id2) == pend_has(old(v)@, id2),
{
    let mut k: usize = 0;
    while k < v.len()
        invariant
            k <= v@.len(),
            v@ == old(v)@,
            pend_wf(old(v)@),
            pend_find(v@, rid_v(*id), 0) == pend_find(v@, rid_v(*id), k as int),
        decreases v@.len() - k,
    {
        if rid_eq(&v[k].id, id) {
            let ghost idv = rid_v(*id);
            proof {
                assert(pend_find(old(v)@, idv, k as int) == k as int);
                lemma_pend_find_props(old(v)@, idv, 0);
            }
            let e = v.remove(k);
            proof {
                assert(v@ =~= old(v)@.subrange(0, k as int) + old(v)@.subrange(
                    k + 1,
                    old(v)@.len() as int,
                ));
                assert forall|m: int| 0 <= m < v@.len() implies rid_v(#[trigger] v@[m].id)
                    != idv by {
                    if m < k as int {
                        assert(v@[m] == old(v)@.subrange(0, k as int)[m]);
                        assert(v@[m] == old(v)@[m]);
                    } else {
                        assert(v@[m] == old(v)@.subrange(k + 1, old(v)@.len() as int)[m
                            - k as int]);
                        assert(v@[m] == old(v)@[m + 1]);
                        assert(rid_v(old(v)@[k as int].id) == idv);
                        assert(rid_v(old(v)@[m + 1].id) != idv);
                    }
                }
                lemma_pend_find_exact(v@, idv, 0, v@.len() as int);
                assert forall|id2: ReqIdV| id2 != idv implies pend_has(v@, id2) == pend_has(
                    old(v)@,
                    id2,
                ) by {
                    lemma_pend_has_drop(old(v)@, k as int, id2);
                }
                assert forall|i: int, j: int|
                    0 <= i < j < v@.len() implies rid_v(v@[i].id) != rid_v(v@[j].id) by {
                    let i0 = if i < k as int {
                        i
                    } else {
                        i + 1
                    };
                    let j0 = if j < k as int {
                        j
                    } else {
                        j + 1
                    };
                    assert(v@[i] == old(v)@[i0]);
                    assert(v@[j] == old(v)@[j0]);
                    assert(rid_v(old(v)@[i0].id) != rid_v(old(v)@[j0].id));
                }
            }
            return Some(e);
        }
        k = k + 1;
    }
    None
}

// ------------------------------------------------------------------
// Configuration injection.
// ------------------------------------------------------------------

/// The placeholder project sent when no script is registered, so the
/// backend does not complain about missing projects.
pub open spec fn dummy_project() -> JVal {
    JVal::Obj(seq![JFieldV { key: k_crates(), val: JVal::Arr(Seq::empty()) }])
}

/// A configuration blob with the current project list written into its
/// `linkedProjects`: `null` becomes an object first, anything else that
/// is not an object passes through untouched.
pub open spec fn inject_config(opts: JVal, projects: Seq<JVal>) -> JVal {
    let o = if opts is Null {
        JVal::Obj(Seq::empty())
    } else {
        opts
    };
    match o {
        JVal::Obj(fs) => JVal::Obj(
            obj_set(
                fs,
                k_linked_projects(),
                JVal::Arr(
                    if projects.len() == 0 {
                        seq![dummy_project()]
                    } else {
                        projects
                    },
                ),
            ),
        ),
        _ => o,
    }
}

/// The placeholder project, executable form.
pub fn dummy_project_json() -> (r: Json)
    ensures
        jv(r) == dummy_project(),
{
    let mut fields: Vec<JField> = Vec::new();
    fields.push(JField { key: b_crates(), val: Json::Arr(Vec::new()) });
    let r = Json::Obj(fields);
    proof {
        lemma_jv_fields_at0(fields@);
        lemma_jv_seq_at0(Seq::<Json>::empty());
        assert(jv_fields(fields@, 0) =~= dummy_project()->Obj_0);
    }
    r
}

/// Write the project list into a configuration blob.
pub fn modify_config(opts: &mut Json, rust_projects: Vec<Json>)
    ensures
        jv(*final(opts)) == inject_config(jv(*old(opts)), jv_seq(rust_projects@, 0)),
{
    let ghost pv = jv_seq(rust_projects@, 0);
    proof {
        lemma_jv_seq_at0(rust_projects@);
    }
    let is_null = match opts {
        Json::Null => true,
        _ => false,
    };
    if is_null {
        *opts = Json::Obj(Vec::new());
        proof {
            lemma_jv_fields_at0(Seq::<JField>::empty());
            assert(jv_fields(Seq::<JField>::empty(), 0) =~= Seq::<JFieldV>::empty());
        }
    }
    match opts {
        Json::Obj(fields) => {
            let arr: Vec<Json> = if rust_projects.len() == 0 {
                let mut a: Vec<Json> = Vec::new();
                a.push(dummy_project_json());
                proof {
                    lemma_jv_seq_at0(a@);
                    assert(jv_seq(a@, 0) =~= seq![dummy_project()]);
                }
                a
            } else {
                rust_projects
            };
            proof {
                lemma_jv_seq_at0(arr@);
            }
            obj_set_in(fields, b_linked_projects(), Json::Arr(arr));
        },
        _ => {},
    }
}

/// An `initialize` request's parameters with the project list injected
/// into `initializationOptions` (an absent member counts as `null`).
/// Parameters that are not an object pass through untouched.
pub open spec fn initialize_out(params: JVal, projects: Seq<JVal>) -> JVal {
    match params {
        JVal::Obj(fs) => {
            let opts = match obj_get(fs, k_initialization_options()) {
                Some(o) => o,
                None => JVal::Null,
            };
            JVal::Obj(obj_set(fs, k_initialization_options(), inject_config(opts, projects)))
        },
        _ => params,
    }
}

/// Whether the injection applies: the router bumps the reload version
/// exactly when it does.
pub open spec fn initialize_applies(params: JVal) -> bool {
    params is Obj
}

/// Rewrite an `initialize` request's parameters in place; reports
/// whether the injection applied.
pub fn handle_initialize(params: &mut Json, rust_projects: Vec<Json>) -> (applied: bool)
    ensures
        applied == initialize_applies(jv(*old(params))),
        jv(*final(params)) == initialize_out(jv(*old(params)), jv_seq(rust_projects@, 0)),
{
    match params {
        Json::Obj(fields) => {
            let mut opts = match obj_get_clone(fields, &b_initialization_options()) {
                Some(o) => o,
                None => Json::Null,
            };
            modify_config(&mut opts, rust_projects);
            obj_set_in(fields, b_initialization_options(), opts);
            true
        },
        _ => false,
    }
}


// ------------------------------------------------------------------
// Applying the URI translation across the whole cache.
// ------------------------------------------------------------------

/// The translation pairs the cache currently offers: one per script
/// whose package is known, in cache order.  `c2s` picks the direction.
pub open spec fn ctxs_of(es: Seq<ScriptEntry>, i: int, c2s: bool) -> Seq<(Seq<u8>, Seq<u8>)>
    decreases es.len() - i,
{
    if i < 0 || i >= es.len() {
        Seq::empty()
    } else {
        let rest = ctxs_of(es, i + 1, c2s);
        match es[i].package_root {
            Some(p) => if c2s {
                seq![(es[i].source@, p@)] + rest
            } else {
                seq![(p@, es[i].source@)] + rest
            },
            None => rest,
        }
    }
}

/// A payload translated under every pair in turn.
pub open spec fn trans_multi(j: JVal, pairs: Seq<(Seq<u8>, Seq<u8>)>, i: int) -> JVal
    decreases pairs.len() - i,
{
    if i < 0 || i >= pairs.len() {
        j
    } else {
        trans_multi(trans_jval(j, pairs[i].0, pairs[i].1), pairs, i + 1)
    }
}

/// The `(from, to)` views of a list of contexts.
pub open spec fn pairs_view(cs: Seq<Context>) -> Seq<(Seq<u8>, Seq<u8>)> {
    Seq::new(cs.len(), |m: int| (cs[m].script@, cs[m].package@))
}

/// The contexts of the cache, executable form.
fn contexts(scripts: &Scripts, c2s: bool) -> (r: Vec<Context>)
    ensures
        pairs_view(r@) == ctxs_of(scripts.entries@, 0, c2s),
{
    let es = &scripts.entries;
    let mut out: Vec<Context> = Vec::new();
    let mut k: usize = 0;
    while k < es.len()
        invariant
            k <= es@.len(),
            es@ == scripts.entries@,
            ctxs_of(es@, 0, c2s) == pairs_view(out@) + ctxs_of(es@, k as int, c2s),
        decreases es@.len() - k,
    {
        let e = &es[k];
        match &e.package_root {
            Some(p) => {
                let c = if c2s {
                    Context { script: bytes_clone(&e.source), package: bytes_clone(p) }
                } else {
                    Context { script: bytes_clone(p), package: bytes_clone(&e.source) }
                };
                let ghost pre = out@;
                let ghost pair = if c2s {
                    (es@[k as int].source@, es@[k as int].package_root->0@)
                } else {
                    (es@[k as int].package_root->0@, es@[k as int].source@)
                };
                out.push(c);
                proof {
                    assert(pairs_view(out@) =~= pairs_view(pre) + seq![pair]);
                    assert(ctxs_of(es@, k as int, c2s) == seq![pair] + ctxs_of(
                        es@,
                        k + 1,
                        c2s,
                    ));
                    assert(pairs_view(pre) + (seq![pair] + ctxs_of(es@, k + 1, c2s)) =~= (
                    pairs_view(pre) + seq![pair]) + ctxs_of(es@, k + 1, c2s));
                }
            },
            None => {},
        }
        k = k + 1;
    }
    proof {
        assert(ctxs_of(es@, es@.len() as int, c2s) =~= Seq::<(Seq<u8>, Seq<u8>)>::empty());
        assert(pairs_view(out@) + ctxs_of(es@, es@.len() as int, c2s) =~= pairs_view(out@));
    }
    out
}

/// A payload run through every context in turn.
pub fn translate_payload(j: &Json, ctxs: &Vec<Context>) -> (r: Json)
    ensures
        jv(r) == trans_multi(jv(*j), pairs_view(ctxs@), 0),
{
    let ghost pv = pairs_view(ctxs@);
    let mut cur = crate::json::clone_json(j);
    let mut k: usize = 0;
    while k < ctxs.len()
        invariant
            k <= ctxs@.len(),
            pv == pairs_view(ctxs@),
            trans_multi(jv(*j), pv, 0) == trans_multi(jv(cur), pv, k as int),
        decreases ctxs@.len() - k,
    {
        let c = &ctxs[k];
        proof {
            assert(pv[k as int] == (c.script@, c.package@));
        }
        cur = crate::uri::trans_json(&cur, &c.script, &c.package);
        k = k + 1;
    }
    cur
}

// ------------------------------------------------------------------
// The didOpen rewrite.
// ------------------------------------------------------------------

/// The URI of a `textDocument/didOpen` for a rust-script document, if
/// the parameters have that shape.
pub open spec fn did_open_uri(params: JVal) -> Option<Seq<u8>> {
    match params {
        JVal::Obj(fs) => match obj_get(fs, k_text_document()) {
            Some(JVal::Obj(tfs)) => if obj_get(tfs, k_language_id()) == Some(
                JVal::Str(k_rust_script_lang()),
            ) {
                match obj_get(tfs, k_uri()) {
                    Some(JVal::Str(u)) => Some(u),
                    _ => None,
                }
            } else {
                None
            },
            _ => None,
        },
        _ => None,
    }
}

/// The same parameters with the language id rewritten to `rust`.
pub open spec fn did_open_rewritten(params: JVal) -> JVal {
    if did_open_uri(params) is Some {
        let fs = params->Obj_0;
        let tfs = obj_get(fs, k_text_document())->0->Obj_0;
        JVal::Obj(
            obj_set(
                fs,
                k_text_document(),
                JVal::Obj(obj_set(tfs, k_language_id(), JVal::Str(k_rust_lang()))),
            ),
        )
    } else {
        params
    }
}

/// Rewrite a rust-script `didOpen` in place and hand back the URI to
/// register; parameters of any other shape stay untouched.
pub fn handle_did_open(params: &mut Json) -> (r: Option<Vec<u8>>)
    ensures
        match r {
            Some(u) => {
                &&& did_open_uri(jv(*old(params))) == Some(u@)
                &&& jv(*final(params)) == did_open_rewritten(jv(*old(params)))
            },
            None => {
                &&& did_open_uri(jv(*old(params))) is None
                &&& *final(params) == *old(params)
            },
        },
{
    match params {
        Json::Obj(fields) => {
            let td = obj_get_clone(fields, &b_text_document());
            match td {
                Some(Json::Obj(mut tfs)) => {
                    let lang = obj_get_clone(&tfs, &b_language_id());
                    let is_script = match &lang {
                        Some(Json::Str(l)) => bytes_eq(l, &b_rust_script_lang()),
                        _ => false,
                    };
                    if !is_script {
                        return None;
                    }
                    let uri = obj_get_clone(&tfs, &b_uri());
                    match uri {
                        Some(Json::Str(u)) => {
                            obj_set_in(&mut tfs, b_language_id(), Json::Str(b_rust_lang()));
                            obj_set_in(fields, b_text_document(), Json::Obj(tfs));
                            Some(u)
                        },
                        _ => None,
                    }
                },
                _ => None,
            }
        },
        _ => None,
    }
}


// ------------------------------------------------------------------
// The workspace/configuration response rewrite.
// ------------------------------------------------------------------

/// View of an optional byte vector.
pub open spec fn opt_bv(o: Option<Vec<u8>>) -> Option<Seq<u8>> {
    match o {
        Some(v) => Some(v@),
        None => None,
    }
}

/// The descriptor list the cache would report, in cache order.
pub open spec fn descriptors_view(s: Scripts) -> Seq<JVal> {
    Seq::new(
        s.entries@.len(),
        |k: int|
            descriptor_of(opt_bv(s.entries@[k].manifest), s.entries@[k].source@, opt_bv(s.sysroot)),
    )
}

/// The `items` array of a stored `workspace/configuration` request.
pub open spec fn cfg_items(req_params: JVal) -> Seq<JVal> {
    match req_params {
        JVal::Obj(fs) => match obj_get(fs, k_items()) {
            Some(JVal::Arr(es)) => es,
            _ => Seq::empty(),
        },
        _ => Seq::empty(),
    }
}

/// Whether a configuration item asks for the `rust-analyzer` section.
pub open spec fn is_ra_section(item: JVal) -> bool {
    match item {
        JVal::Obj(fs) => obj_get(fs, k_section()) == Some(JVal::Str(k_rust_analyzer_section())),
        _ => false,
    }
}

/// The rewritten result array: each element whose item asked for the
/// `rust-analyzer` section gets the project list injected.
pub open spec fn rewrite_results(items: Seq<JVal>, rs: Seq<JVal>, descs: Seq<JVal>) -> Seq<JVal> {
    Seq::new(
        rs.len(),
        |i: int|
            if 0 <= i < items.len() && is_ra_section(items[i]) {
                inject_config(rs[i], descs)
            } else {
                rs[i]
            },
    )
}

/// How many elements with index below `i` get rewritten: one reload
/// version is named for each.
pub open spec fn cnt_ra(items: Seq<JVal>, i: int) -> int
    decreases i,
{
    if i <= 0 {
        0
    } else {
        cnt_ra(items, i - 1) + (
        if i - 1 < items.len() && is_ra_section(items[i - 1]) {
            1int
        } else {
            0int
        })
    }
}

/// The counter after `k` more reload versions have been named.
pub open spec fn sat_add(a: int, k: int) -> int {
    if a + k <= usize::MAX {
        a + k
    } else {
        usize::MAX as int
    }
}

fn is_ra_section_exec(item: &Json) -> (r: bool)
    ensures
        r == is_ra_section(jv(*item)),
{
    match item {
        Json::Obj(fs) => {
            match obj_get_clone(fs, &b_section()) {
                Some(Json::Str(sec)) => bytes_eq(&sec, &b_rust_analyzer_section()),
                _ => false,
            }
        },
        _ => false,
    }
}

/// Rewrite a `workspace/configuration` response's result in place:
/// every element whose item asked for the `rust-analyzer` section gets
/// the current project list, and one reload version is named for each.
/// A result that is not an array passes through untouched.
pub fn handle_config_response(
    req_params: &Json,
    result: &mut Json,
    scripts: &Scripts,
    counter: &mut VersionCounter,
    last_accepted: &mut usize,
)
    ensures
        ({
            let items = cfg_items(jv(*req_params));
            let descs = descriptors_view(*scripts);
            match *old(result) {
                Json::Arr(_) => {
                    let rs = jv(*old(result))->Arr_0;
                    let nm = cnt_ra(items, rs.len() as int);
                    &&& nm >= 0
                    &&& jv(*final(result)) == JVal::Arr(rewrite_results(items, rs, descs))
                    &&& final(counter).v == sat_add(old(counter).v as int, nm)
                    &&& *final(last_accepted) == (if nm > 0 {
                        final(counter).v as int
                    } else {
                        *old(last_accepted) as int
                    })
                },
                _ => {
                    &&& *final(result) == *old(result)
                    &&& *final(counter) == *old(counter)
                    &&& *final(last_accepted) == *old(last_accepted)
                },
            }
        }),
{
    let ghost items = cfg_items(jv(*req_params));
    let ghost descs = descriptors_view(*scripts);
    let items_vec: Vec<Json> = match req_params {
        Json::Obj(f) => {
            match obj_get_clone(f, &b_items()) {
                Some(Json::Arr(v)) => v,
                _ => Vec::new(),
            }
        },
        _ => Vec::new(),
    };
    proof {
        lemma_jv_seq_at0(items_vec@);
        assert(jv_seq(items_vec@, 0) =~= items);
    }
    match result {
        Json::Arr(results) => {
            let ghost rs0 = jv_seq(results@, 0);
            proof {
                lemma_jv_seq_at0(results@);
            }
            let mut i: usize = 0;
            while i < results.len()
                invariant
                    i <= results@.len(),
                    results@.len() == rs0.len(),
                    items == jv_seq(items_vec@, 0),
                    items.len() == items_vec@.len(),
                    forall|m: int| 0 <= m < items_vec@.len() ==> items[m] == jv(items_vec@[m]),
                    descs == descriptors_view(*scripts),
                    forall|m: int|
                        i as int <= m < rs0.len() ==> jv(#[trigger] results@[m]) == rs0[m],
                    forall|m: int|
                        0 <= m < i as int ==> jv(#[trigger] results@[m]) == rewrite_results(
                            items,
                            rs0,
                            descs,
                        )[m],
                    cnt_ra(items, i as int) >= 0,
                    counter.v as int == sat_add(old(counter).v as int, cnt_ra(items, i as int)),
                    *last_accepted as int == (if cnt_ra(items, i as int) > 0 {
                        counter.v as int
                    } else {
                        *old(last_accepted) as int
                    }),
                decreases results@.len() - i,
            {
                let matches = if i < items_vec.len() {
                    is_ra_section_exec(&items_vec[i])
                } else {
                    false
                };
                if matches {
                    let mut elem = results.remove(i);
                    let v = counter.start_reload();
                    *last_accepted = v.0;
                    let projects = scripts.projects();
                    proof {
                        lemma_jv_seq_at0(projects@);
                        assert(jv_seq(projects@, 0) =~= descs);
                    }
                    modify_config(&mut elem, projects);
                    results.insert(i, elem);
                    proof {
                        lemma_jv_seq_at0(results@);
                    }
                }
                i = i + 1;
            }
            proof {
                lemma_jv_seq_at0(results@);
                assert(jv_seq(results@, 0) =~= rewrite_results(items, rs0, descs));
            }
        },
        _ => {},
    }
}

// ------------------------------------------------------------------
// Whole-message translation.
// ------------------------------------------------------------------

/// A message with its payload translated under every pair in turn:
/// the params of a request or notification, the result of a response.
pub open spec fn trans_msg(m: MessageV, pairs: Seq<(Seq<u8>, Seq<u8>)>) -> MessageV {
    match m {
        MessageV::Request { id, method, params } => MessageV::Request {
            id,
            method,
            params: trans_multi(params, pairs, 0),
        },
        MessageV::Notification { method, params } => MessageV::Notification {
            method,
            params: trans_multi(params, pairs, 0),
        },
        MessageV::Response { id, result, error } => MessageV::Response {
            id,
            result: match result {
                Some(r) => Some(trans_multi(r, pairs, 0)),
                None => None,
            },
            error,
        },
    }
}

/// Translate a whole message under the cache's contexts.
pub fn translate_message(m: Message, ctxs: &Vec<Context>) -> (r: Message)
    ensures
        msg_v(r) == trans_msg(msg_v(m), pairs_view(ctxs@)),
{
    match m {
        Message::Request { id, method, params } => {
            let params2 = translate_payload(&params, ctxs);
            Message::Request { id, method, params: params2 }
        },
        Message::Notification { method, params } => {
            let params2 = translate_payload(&params, ctxs);
            Message::Notification { method, params: params2 }
        },
        Message::Response { id, result, error } => {
            let result2 = match result {
                Some(r) => Some(translate_payload(&r, ctxs)),
                None => None,
            };
            Message::Response { id, result: result2, error }
        },
    }
}


// ------------------------------------------------------------------
// The router.
// ------------------------------------------------------------------

/// What one step asks of the surrounding process.
#[derive(Debug)]
pub enum Action {
    /// Write this message to the backend.
    ToServer(Message),
    /// Write this message to the editor.
    ToClient(Message),
    /// Write this line to the diagnostic stream.
    Log(Vec<u8>),
    /// Publish a dirty mark on the bus, stamped with the current
    /// version.
    MarkNeedReload,
    /// Start a refresh task for this script URI.
    StartRefresh(Vec<u8>),
    /// The session is over: stop the loop.
    Exit,
}

/// A protocol violation by a peer: a response whose id was never seen,
/// or already answered.  Fatal.
#[derive(Debug, Clone, Copy, PartialEq, Eq, Structural)]
pub enum RouterError {
    UnknownClientResponse,
    UnknownServerResponse,
}

/// The `textDocument.uri` of a notification's parameters, if they have
/// that shape.
pub open spec fn td_uri(params: JVal) -> Option<Seq<u8>> {
    match params {
        JVal::Obj(fs) => match obj_get(fs, k_text_document()) {
            Some(JVal::Obj(tfs)) => match obj_get(tfs, k_uri()) {
                Some(JVal::Str(u)) => Some(u),
                _ => None,
            },
            _ => None,
        },
        _ => None,
    }
}

fn get_td_uri(params: &Json) -> (r: Option<Vec<u8>>)
    ensures
        match r {
            Some(u) => td_uri(jv(*params)) == Some(u@),
            None => td_uri(jv(*params)) is None,
        },
{
    match params {
        Json::Obj(fields) => {
            match obj_get_clone(fields, &b_text_document()) {
                Some(Json::Obj(tfs)) => {
                    match obj_get_clone(&tfs, &b_uri()) {
                        Some(Json::Str(u)) => Some(u),
                        _ => None,
                    }
                },
                _ => None,
            }
        },
        _ => None,
    }
}

/// The synthesized reload notification: `workspace/didChangeConfiguration`
/// with empty settings, which makes the backend pull configuration
/// afresh.
pub open spec fn reload_note() -> MessageV {
    MessageV::Notification {
        method: k_did_change_configuration(),
        params: JVal::Obj(seq![JFieldV { key: k_settings(), val: JVal::Null }]),
    }
}

fn build_reload_note() -> (r: Message)
    ensures
        msg_v(r) == reload_note(),
{
    let mut fields: Vec<JField> = Vec::new();
    fields.push(JField { key: b_settings(), val: Json::Null });
    proof {
        lemma_jv_fields_at0(fields@);
        assert(jv_fields(fields@, 0) =~= reload_note()->Notification_params->Obj_0);
    }
    Message::Notification { method: b_did_change_configuration(), params: Json::Obj(fields) }
}

/// One more version accepted, saturating at the top of the range.
pub open spec fn sat1(v: int) -> int {
    if v < usize::MAX {
        v + 1
    } else {
        usize::MAX as int
    }
}

/// The routing engine's own state: the two pending-request maps and
/// the newest reload version already flushed.
pub struct Router {
    /// Requests the backend sent, awaiting the editor's response.
    pub from_server: Vec<PendingEntry>,
    /// Requests the editor sent, awaiting the backend's response.
    pub from_client: Vec<PendingEntry>,
    /// Dirty marks older than this are already covered by a flush.
    pub last_accepted: usize,
}

pub open spec fn router_wf(r: Router) -> bool {
    pend_wf(r.from_server@) && pend_wf(r.from_client@)
}

impl Router {
    pub fn new() -> (r: Router)
        ensures
            router_wf(r),
            r.from_server@.len() == 0,
            r.from_client@.len() == 0,
            r.last_accepted == 0,
    {
        Router { from_server: Vec::new(), from_client: Vec::new(), last_accepted: 0 }
    }

    /// Consume one event: mutate the caches and say what to send
    /// where.  Everything the router ever decides is decided here.
    pub fn step(
        &mut self,
        scripts: &mut Scripts,
        counter: &mut VersionCounter,
        event: Event,
    ) -> (r: Result<Vec<Action>, RouterError>)
        requires
            router_wf(*old(self)),
            scripts_wf(old(scripts).entries@),
        ensures
            router_wf(*final(self)),
            scripts_wf(final(scripts).entries@),
            old(counter).v <= final(counter).v,
            match event {
                Event::ServerLog(line) => {
                    &&& r is Ok
                    &&& r->Ok_0@.len() == 1
                    &&& r->Ok_0@[0] == Action::Log(line)
                    &&& *final(self) == *old(self)
                    &&& *final(scripts) == *old(scripts)
                    &&& *final(counter) == *old(counter)
                },
                Event::NeedReload(v) => {
                    &&& *final(scripts) == *old(scripts)
                    &&& *final(counter) == *old(counter)
                    &&& final(self).from_server == old(self).from_server
                    &&& final(self).from_client == old(self).from_client
                    &&& r is Ok
                    &&& final(self).last_accepted as int == threshold_next(
                        old(self).last_accepted as int,
                        v.0 as int,
                    )
                    &&& (if mark_passes(old(self).last_accepted as int, v.0 as int) {
                        &&& r->Ok_0@.len() == 1
                        &&& r->Ok_0@[0] is ToServer
                        &&& msg_v(r->Ok_0@[0]->ToServer_0) == reload_note()
                    } else {
                        r->Ok_0@.len() == 0
                    })
                },
                Event::ServerToClient(m) => step_server_post(
                    *old(self),
                    *final(self),
                    *old(scripts),
                    *final(scripts),
                    *old(counter),
                    *final(counter),
                    msg_v(m),
                    r,
                ),
                Event::ClientToServer(m) => step_client_post(
                    *old(self),
                    *final(self),
                    *old(scripts),
                    *final(scripts),
                    *old(counter),
                    *final(counter),
                    msg_v(m),
                    r,
                ),
            },
    {
        match event {
            Event::ServerLog(line) => {
                let mut acts: Vec<Action> = Vec::new();
                acts.push(Action::Log(line));
                Ok(acts)
            },
            Event::NeedReload(v) => {
                let mut acts: Vec<Action> = Vec::new();
                if v.0 < self.last_accepted {
                    Ok(acts)
                } else {
                    acts.push(Action::ToServer(build_reload_note()));
                    if v.0 < usize::MAX {
                        self.last_accepted = v.0 + 1;
                    } else {
                        self.last_accepted = usize::MAX;
                    }
                    Ok(acts)
                }
            },
            Event::ServerToClient(m) => self.step_server(scripts, m),
            Event::ClientToServer(m) => self.step_client(scripts, counter, m),
        }
    }

    /// Traffic from the backend towards the editor.
    fn step_server(&mut self, scripts: &Scripts, m: Message) -> (r: Result<
        Vec<Action>,
        RouterError,
    >)
        requires
            router_wf(*old(self)),
        ensures
            router_wf(*final(self)),
            step_server_post(
                *old(self),
                *final(self),
                *scripts,
                *scripts,
                VersionCounter { v: 0 },
                VersionCounter { v: 0 },
                msg_v(m),
                r,
            ),
    {
        let ctxs = contexts(scripts, false);
        match m {
            Message::Request { id, method, params } => {
                let entry = PendingEntry {
                    id: rid_clone(&id),
                    method: bytes_clone(&method),
                    params: clone_json(&params),
                };
                pend_upsert(&mut self.from_server, entry);
                let out = translate_message(
                    Message::Request { id, method, params },
                    &ctxs,
                );
                let mut acts: Vec<Action> = Vec::new();
                acts.push(Action::ToClient(out));
                Ok(acts)
            },
            Message::Response { id, result, error } => {
                match pend_remove(&mut self.from_client, &id) {
                    None => Err(RouterError::UnknownServerResponse),
                    Some(_) => {
                        let out = translate_message(
                            Message::Response { id, result, error },
                            &ctxs,
                        );
                        let mut acts: Vec<Action> = Vec::new();
                        acts.push(Action::ToClient(out));
                        Ok(acts)
                    },
                }
            },
            Message::Notification { method, params } => {
                let out = translate_message(
                    Message::Notification { method, params },
                    &ctxs,
                );
                let mut acts: Vec<Action> = Vec::new();
                acts.push(Action::ToClient(out));
                Ok(acts)
            },
        }
    }
}

/// What a server-to-client step promises: requests are remembered then
/// forwarded, responses must answer a pending request and consume it,
/// notifications pass through; every payload is translated towards the
/// editor.
pub open spec fn step_server_post(
    pre: Router,
    post: Router,
    s_pre: Scripts,
    s_post: Scripts,
    c_pre: VersionCounter,
    c_post: VersionCounter,
    mv: MessageV,
    r: Result<Vec<Action>, RouterError>,
) -> bool {
    let pairs = ctxs_of(s_pre.entries@, 0, false);
    &&& s_post == s_pre
    &&& c_post == c_pre
    &&& post.last_accepted == pre.last_accepted
    &&& match mv {
        MessageV::Request { id, method, params } => {
            &&& r is Ok
            &&& r->Ok_0@.len() == 1
            &&& r->Ok_0@[0] is ToClient
            &&& msg_v(r->Ok_0@[0]->ToClient_0) == trans_msg(mv, pairs)
            &&& post.from_client@ == pre.from_client@
            &&& pend_has(post.from_server@, id)
            &&& (forall|id2: ReqIdV|
                id2 != id ==> pend_has(post.from_server@, id2) == pend_has(
                    pre.from_server@,
                    id2,
                ))
            &&& (!pend_has(pre.from_server@, id) ==> {
                &&& post.from_server@.len() == pre.from_server@.len() + 1
                &&& rid_v(post.from_server@.last().id) == id
                &&& post.from_server@.last().method@ == method
                &&& jv(post.from_server@.last().params) == params
            })
        },
        MessageV::Response { id, result, error } => {
            &&& post.from_server@ == pre.from_server@
            &&& (!pend_has(pre.from_client@, id) ==> r == Err::<Vec<Action>, RouterError>(
                RouterError::UnknownServerResponse,
            ) && post.from_client@ == pre.from_client@)
            &&& (pend_has(pre.from_client@, id) ==> {
                &&& r is Ok
                &&& r->Ok_0@.len() == 1
                &&& r->Ok_0@[0] is ToClient
                &&& msg_v(r->Ok_0@[0]->ToClient_0) == trans_msg(mv, pairs)
                &&& !pend_has(post.from_client@, id)
                &&& (forall|id2: ReqIdV|
                    id2 != id ==> pend_has(post.from_client@, id2) == pend_has(
                        pre.from_client@,
                        id2,
                    ))
            })
        },
        MessageV::Notification { method, params } => {
            &&& r is Ok
            &&& r->Ok_0@.len() == 1
            &&& r->Ok_0@[0] is ToClient
            &&& msg_v(r->Ok_0@[0]->ToClient_0) == trans_msg(mv, pairs)
            &&& post.from_server@ == pre.from_server@
            &&& post.from_client@ == pre.from_client@
        },
    }
}


/// The rewritten parameters of a client request, before translation:
/// `initialize` gets the project list, everything else passes.
pub open spec fn c2s_req_params(method: Seq<u8>, params: JVal, descs: Seq<JVal>) -> JVal {
    if method == k_initialize() {
        initialize_out(params, descs)
    } else {
        params
    }
}

/// The rewritten parameters of a client notification, before
/// translation: a rust-script `didOpen` gets its language id
/// rewritten, everything else passes.
pub open spec fn c2s_note_params(method: Seq<u8>, params: JVal) -> JVal {
    if method == k_did_open() {
        did_open_rewritten(params)
    } else {
        params
    }
}

/// What a client-to-server step promises.
pub open spec fn step_client_post(
    pre: Router,
    post: Router,
    s_pre: Scripts,
    s_post: Scripts,
    c_pre: VersionCounter,
    c_post: VersionCounter,
    mv: MessageV,
    r: Result<Vec<Action>, RouterError>,
) -> bool {
    let pairs = ctxs_of(s_post.entries@, 0, true);
    let descs = descriptors_view(s_pre);
    match mv {
        MessageV::Request { id, method, params } => {
            let applied = method == k_initialize() && initialize_applies(params);
            let outv = MessageV::Request {
                id,
                method,
                params: trans_multi(c2s_req_params(method, params, descs), pairs, 0),
            };
            &&& r is Ok
            &&& pend_has(post.from_client@, id)
            &&& (forall|id2: ReqIdV|
                id2 != id ==> pend_has(post.from_client@, id2) == pend_has(
                    pre.from_client@,
                    id2,
                ))
            &&& (!pend_has(pre.from_client@, id) ==> {
                &&& post.from_client@.len() == pre.from_client@.len() + 1
                &&& rid_v(post.from_client@.last().id) == id
                &&& post.from_client@.last().method@ == method
                &&& jv(post.from_client@.last().params) == params
            })
            &&& post.from_server@ == pre.from_server@
            &&& c_post.v as int == (if applied {
                sat1(c_pre.v as int)
            } else {
                c_pre.v as int
            })
            &&& post.last_accepted as int == (if applied {
                c_post.v as int
            } else {
                pre.last_accepted as int
            })
            &&& (if method == k_reload_workspace() {
                &&& s_post.entries@.len() == s_pre.entries@.len()
                &&& s_post.sysroot == s_pre.sysroot
                &&& (forall|k: int|
                    0 <= k < s_pre.entries@.len() ==> {
                        &&& (#[trigger] s_post.entries@[k]).uri == s_pre.entries@[k].uri
                        &&& s_post.entries@[k].source == s_pre.entries@[k].source
                        &&& s_post.entries@[k].manifest == s_pre.entries@[k].manifest
                        &&& s_post.entries@[k].package_root == s_pre.entries@[k].package_root
                        &&& s_post.entries@[k].need_refresh
                        &&& s_post.entries@[k].refreshing
                    })
                &&& r->Ok_0@.len() == spawn_list(s_pre.entries@, 0).len() + 1
                &&& (forall|k: int|
                    0 <= k < spawn_list(s_pre.entries@, 0).len() ==> (#[trigger] r->Ok_0@[k])
                        is StartRefresh && r->Ok_0@[k]->StartRefresh_0@ == spawn_list(
                        s_pre.entries@,
                        0,
                    )[k])
                &&& r->Ok_0@.last() is ToServer
                &&& msg_v(r->Ok_0@.last()->ToServer_0) == outv
            } else {
                &&& s_post == s_pre
                &&& r->Ok_0@.len() == 1
                &&& r->Ok_0@[0] is ToServer
                &&& msg_v(r->Ok_0@[0]->ToServer_0) == outv
            })
        },
        MessageV::Response { id, result, error } => {
            &&& post.from_client@ == pre.from_client@
            &&& (!pend_has(pre.from_server@, id) ==> {
                &&& r == Err::<Vec<Action>, RouterError>(RouterError::UnknownClientResponse)
                &&& post.from_server@ == pre.from_server@
                &&& s_post == s_pre
                &&& c_post == c_pre
                &&& post.last_accepted == pre.last_accepted
            })
            &&& (pend_has(pre.from_server@, id) ==> {
                let entry = pre.from_server@[pend_find(pre.from_server@, id, 0)];
                let iscfg = entry.method@ == k_workspace_configuration();
                let items = cfg_items(jv(entry.params));
                let res2: Option<JVal> = match result {
                    Some(rv) => Some(
                        if iscfg && rv is Arr {
                            JVal::Arr(rewrite_results(items, rv->Arr_0, descs))
                        } else {
                            rv
                        },
                    ),
                    None => None,
                };
                let nm: int = match result {
                    Some(rv) => if iscfg && rv is Arr {
                        cnt_ra(items, rv->Arr_0.len() as int)
                    } else {
                        0
                    },
                    None => 0,
                };
                &&& s_post == s_pre
                &&& !pend_has(post.from_server@, id)
                &&& (forall|id2: ReqIdV|
                    id2 != id ==> pend_has(post.from_server@, id2) == pend_has(
                        pre.from_server@,
                        id2,
                    ))
                &&& c_post.v as int == sat_add(c_pre.v as int, nm)
                &&& post.last_accepted as int == (if nm > 0 {
                    c_post.v as int
                } else {
                    pre.last_accepted as int
                })
                &&& r is Ok
                &&& r->Ok_0@.len() == 1
                &&& r->Ok_0@[0] is ToServer
                &&& msg_v(r->Ok_0@[0]->ToServer_0) == trans_msg(
                    MessageV::Response { id, result: res2, error },
                    pairs,
                )
            })
        },
        MessageV::Notification { method, params } => {
            let outv = MessageV::Notification {
                method,
                params: trans_multi(c2s_note_params(method, params), pairs, 0),
            };
            let is_exit = method == crate::bytes::k_exit();
            let base: int = if is_exit {
                2
            } else {
                1
            };
            &&& post.from_server@ == pre.from_server@
            &&& post.from_client@ == pre.from_client@
            &&& c_post == c_pre
            &&& post.last_accepted == pre.last_accepted
            &&& r is Ok
            &&& r->Ok_0@.len() >= base
            &&& (is_exit ==> r->Ok_0@.last() is Exit)
            &&& (if method == k_did_open() && did_open_uri(params) is Some && !has_uri(
                s_pre.entries@,
                did_open_uri(params)->0,
            ) && file_path_of_uri(did_open_uri(params)->0) is Some {
                let u = did_open_uri(params)->0;
                &&& s_post.entries@.len() == s_pre.entries@.len() + 1
                &&& s_post.entries@.subrange(0, s_pre.entries@.len() as int) == s_pre.entries@
                &&& s_post.sysroot == s_pre.sysroot
                &&& s_post.entries@.last().uri@ == u
                &&& s_post.entries@.last().source@ == file_path_of_uri(u)->0
                &&& s_post.entries@.last().manifest is None
                &&& s_post.entries@.last().package_root is None
                &&& s_post.entries@.last().need_refresh
                &&& s_post.entries@.last().refreshing
                &&& r->Ok_0@.len() == base + 2
                &&& r->Ok_0@[0] is MarkNeedReload
                &&& r->Ok_0@[1] is StartRefresh
                &&& r->Ok_0@[1]->StartRefresh_0@ == u
                &&& r->Ok_0@[2] is ToServer
                &&& msg_v(r->Ok_0@[2]->ToServer_0) == outv
            } else if method == k_did_close() && td_uri(params) is Some && has_uri(
                s_pre.entries@,
                td_uri(params)->0,
            ) {
                let k = find_uri(s_pre.entries@, td_uri(params)->0, 0);
                &&& s_post.entries@ == s_pre.entries@.subrange(0, k) + s_pre.entries@.subrange(
                    k + 1,
                    s_pre.entries@.len() as int,
                )
                &&& s_post.sysroot == s_pre.sysroot
                &&& r->Ok_0@.len() == base + 1
                &&& r->Ok_0@[0] is MarkNeedReload
                &&& r->Ok_0@[1] is ToServer
                &&& msg_v(r->Ok_0@[1]->ToServer_0) == outv
            } else if method == k_did_save() && td_uri(params) is Some && has_uri(
                s_pre.entries@,
                td_uri(params)->0,
            ) {
                let u = td_uri(params)->0;
                let k = find_uri(s_pre.entries@, u, 0);
                let spawn = !s_pre.entries@[k].refreshing;
                &&& s_post.entries@.len() == s_pre.entries@.len()
                &&& s_post.sysroot == s_pre.sysroot
                &&& s_post.entries@[k].need_refresh
                &&& s_post.entries@[k].refreshing
                &&& s_post.entries@[k].manifest == s_pre.entries@[k].manifest
                &&& s_post.entries@[k].package_root == s_pre.entries@[k].package_root
                &&& (forall|m: int|
                    0 <= m < s_pre.entries@.len() && m != k ==> s_post.entries@[m]
                        == s_pre.entries@[m])
                &&& (if spawn {
                    &&& r->Ok_0@.len() == base + 1
                    &&& r->Ok_0@[0] is StartRefresh
                    &&& r->Ok_0@[0]->StartRefresh_0@ == u
                    &&& r->Ok_0@[1] is ToServer
                    &&& msg_v(r->Ok_0@[1]->ToServer_0) == outv
                } else {
                    &&& r->Ok_0@.len() == base
                    &&& r->Ok_0@[0] is ToServer
                    &&& msg_v(r->Ok_0@[0]->ToServer_0) == outv
                })
            } else {
                &&& s_post == s_pre
                &&& r->Ok_0@.len() == base
                &&& r->Ok_0@[0] is ToServer
                &&& msg_v(r->Ok_0@[0]->ToServer_0) == outv
            })
        },
    }
}

impl Router {
    /// Traffic from the editor towards the backend.
    fn step_client(&mut self, scripts: &mut Scripts, counter: &mut VersionCounter, m: Message) -> (r:
        Result<Vec<Action>, RouterError>)
        requires
            router_wf(*old(self)),
            scripts_wf(old(scripts).entries@),
        ensures
            router_wf(*final(self)),
            scripts_wf(final(scripts).entries@),
            old(counter).v <= final(counter).v,
            step_client_post(
                *old(self),
                *final(self),
                *old(scripts),
                *final(scripts),
                *old(counter),
                *final(counter),
                msg_v(m),
                r,
            ),
    {
        let ghost descs = descriptors_view(*scripts);
        match m {
            Message::Request { id, method, mut params } => {
                let entry = PendingEntry {
                    id: rid_clone(&id),
                    method: bytes_clone(&method),
                    params: clone_json(&params),
                };
                pend_upsert(&mut self.from_client, entry);
                let mut acts: Vec<Action> = Vec::new();
                if bytes_eq(&method, &b_initialize()) {
                    let projects = scripts.projects();
                    proof {
                        lemma_jv_seq_at0(projects@);
                        assert(jv_seq(projects@, 0) =~= descs);
                    }
                    let applied = handle_initialize(&mut params, projects);
                    if applied {
                        let v = counter.start_reload();
                        self.last_accepted = v.0;
                    }
                } else if bytes_eq(&method, &b_reload_workspace()) {
                    let spawns = scripts.queue_refresh_all();
                    let ghost sl = crate::script::spawn_list(old(scripts).entries@, 0);
                    let mut k: usize = 0;
                    while k < spawns.len()
                        invariant
                            k <= spawns@.len(),
                            spawns@.map_values(|u: Vec<u8>| u@) == sl,
                            acts@.len() == k,
                            forall|q: int|
                                0 <= q < k as int ==> (#[trigger] acts@[q]) is StartRefresh
                                    && acts@[q]->StartRefresh_0@ == sl[q],
                        decreases spawns@.len() - k,
                    {
                        let u = crate::bytes::bytes_clone(&spawns[k]);
                        acts.push(Action::StartRefresh(u));
                        k = k + 1;
                    }
                }
                let ctxs = contexts(scripts, true);
                let out = translate_message(Message::Request { id, method, params }, &ctxs);
                acts.push(Action::ToServer(out));
                Ok(acts)
            },
            Message::Response { id, mut result, error } => {
                match pend_remove(&mut self.from_server, &id) {
                    None => Err(RouterError::UnknownClientResponse),
                    Some(entry) => {
                        if bytes_eq(&entry.method, &b_workspace_configuration()) {
                            match &mut result {
                                Some(rj) => {
                                    proof {
                                        crate::json::lemma_jv_is_arr(*rj);
                                    }
                                    handle_config_response(
                                        &entry.params,
                                        rj,
                                        scripts,
                                        counter,
                                        &mut self.last_accepted,
                                    );
                                },
                                None => {},
                            }
                        }
                        let ctxs = contexts(scripts, true);
                        let out = translate_message(
                            Message::Response { id, result, error },
                            &ctxs,
                        );
                        let mut acts: Vec<Action> = Vec::new();
                        acts.push(Action::ToServer(out));
                        Ok(acts)
                    },
                }
            },
            Message::Notification { method, mut params } => {
                let mut acts: Vec<Action> = Vec::new();
                if bytes_eq(&method, &b_did_open()) {
                    match handle_did_open(&mut params) {
                        Some(u) => {
                            match scripts.register(&u) {
                                RegisterOutcome::Registered => {
                                    acts.push(Action::MarkNeedReload);
                                    acts.push(Action::StartRefresh(u));
                                },
                                _ => {},
                            }
                        },
                        None => {},
                    }
                } else if bytes_eq(&method, &b_did_close()) {
                    match get_td_uri(&params) {
                        Some(u) => {
                            if scripts.deregister_if_registered(&u) {
                                acts.push(Action::MarkNeedReload);
                            }
                        },
                        None => {},
                    }
                } else if bytes_eq(&method, &b_did_save()) {
                    match get_td_uri(&params) {
                        Some(u) => {
                            if scripts.queue_refresh(&u) {
                                acts.push(Action::StartRefresh(u));
                            }
                        },
                        None => {},
                    }
                }
                let need_exit = bytes_eq(&method, &crate::bytes::b_exit());
                let ctxs = contexts(scripts, true);
                let out = translate_message(Message::Notification { method, params }, &ctxs);
                acts.push(Action::ToServer(out));
                if need_exit {
                    acts.push(Action::Exit);
                }
                Ok(acts)
            },
        }
    }
}


// ------------------------------------------------------------------
// Reload coalescing.
// ------------------------------------------------------------------

/// Whether a dirty mark is still of interest at this threshold.
pub open spec fn mark_passes(last: int, v: int) -> bool {
    v >= last
}

/// The threshold after a dirty mark: an accepted version closes the
/// door behind itself.
pub open spec fn threshold_next(last: int, v: int) -> int {
    if v < last {
        last
    } else {
        sat1(v)
    }
}

/// How many reload notifications a run of dirty marks produces.
pub open spec fn count_emits(last: int, vs: Seq<int>) -> int
    decreases vs.len(),
{
    if vs.len() == 0 {
        0
    } else {
        (if mark_passes(last, vs[0]) {
            1int
        } else {
            0int
        }) + count_emits(threshold_next(last, vs[0]), vs.skip(1))
    }
}

/// A threshold already ahead of every mark in the burst lets none
/// through.
proof fn lemma_threshold_quiet(last: int, vs: Seq<int>, cap: int)
    requires
        forall|i: int| 0 <= i < vs.len() ==> vs[i] <= cap,
        last > cap,
    ensures
        count_emits(last, vs) == 0,
    decreases vs.len(),
{
    if vs.len() > 0 {
        assert(vs[0] <= cap);
        assert forall|i: int| 0 <= i < vs.skip(1).len() implies vs.skip(1)[i] <= cap by {
            assert(vs.skip(1)[i] == vs[i + 1]);
        }
        lemma_threshold_quiet(last, vs.skip(1), cap);
    }
}

/// Reload coalescing: between two successive `start_reload` calls the
/// router sends at most one reload notification.  A `start_reload`
/// raises the threshold to the new counter value `cap`; until the next
/// one, every dirty mark is stamped with a version at most `cap`, and
/// at most one of them is accepted.  (At the very top of the counter's
/// range the threshold cannot rise and the bound does not hold; a
/// session never reaches it.)
pub proof fn lemma_reload_coalescing(last: int, vs: Seq<int>, cap: int)
    requires
        forall|i: int| 0 <= i < vs.len() ==> vs[i] <= cap,
        last >= cap,
        cap < usize::MAX,
    ensures
        count_emits(last, vs) <= 1,
    decreases vs.len(),
{
    if vs.len() > 0 {
        assert(vs[0] <= cap);
        assert forall|i: int| 0 <= i < vs.skip(1).len() implies vs.skip(1)[i] <= cap by {
            assert(vs.skip(1)[i] == vs[i + 1]);
        }
        if mark_passes(last, vs[0]) {
            assert(threshold_next(last, vs[0]) == sat1(vs[0]));
            lemma_threshold_quiet(sat1(vs[0]), vs.skip(1), cap);
        } else {
            lemma_reload_coalescing(last, vs.skip(1), cap);
        }
    }
}

// ------------------------------------------------------------------
// Correlation.
// ------------------------------------------------------------------

/// The correlation trace of one direction of a run: a request seen, or
/// a response delivered.  `step` admits a response only when its id is
/// pending and removes the id then, so every run's trace is valid in
/// the sense below.
pub enum CorrEvent {
    Saw(ReqIdV),
    Answered(ReqIdV),
}

/// The pending ids after a trace.
pub open spec fn corr_pending(tr: Seq<CorrEvent>) -> Set<ReqIdV>
    decreases tr.len(),
{
    if tr.len() == 0 {
        Set::empty()
    } else {
        let s = corr_pending(tr.drop_last());
        match tr.last() {
            CorrEvent::Saw(id) => s.insert(id),
            CorrEvent::Answered(id) => s.remove(id),
        }
    }
}

/// A trace the router can produce: every response answers an id that
/// was pending at that moment.
pub open spec fn corr_valid(tr: Seq<CorrEvent>) -> bool {
    forall|i: int|
        0 <= i < tr.len() && tr[i] is Answered ==> corr_pending(tr.take(i)).contains(
            tr[i]->Answered_0,
        )
}

pub open spec fn count_saw(tr: Seq<CorrEvent>, id: ReqIdV) -> int
    decreases tr.len(),
{
    if tr.len() == 0 {
        0
    } else {
        count_saw(tr.drop_last(), id) + (
        if tr.last() == CorrEvent::Saw(id) {
            1int
        } else {
            0int
        })
    }
}

pub open spec fn count_answered(tr: Seq<CorrEvent>, id: ReqIdV) -> int
    decreases tr.len(),
{
    if tr.len() == 0 {
        0
    } else {
        count_answered(tr.drop_last(), id) + (
        if tr.last() == CorrEvent::Answered(id) {
            1int
        } else {
            0int
        })
    }
}

proof fn lemma_corr_inv(tr: Seq<CorrEvent>, id: ReqIdV)
    requires
        corr_valid(tr),
    ensures
        count_answered(tr, id) + (if corr_pending(tr).contains(id) {
            1int
        } else {
            0int
        }) <= count_saw(tr, id),
        count_answered(tr, id) >= 0,
        count_saw(tr, id) >= 0,
    decreases tr.len(),
{
    if tr.len() > 0 {
        let t = tr.drop_last();
        assert(corr_valid(t)) by {
            assert forall|i: int|
                0 <= i < t.len() && t[i] is Answered implies corr_pending(t.take(i)).contains(
                    t[i]->Answered_0,
                ) by {
                assert(t[i] == tr[i]);
                assert(t.take(i) =~= tr.take(i));
            }
        }
        lemma_corr_inv(t, id);
        match tr.last() {
            CorrEvent::Saw(id2) => {},
            CorrEvent::Answered(id2) => {
                assert(tr[tr.len() - 1] is Answered);
                assert(corr_pending(tr.take(tr.len() - 1)).contains(id2));
                assert(tr.take(tr.len() - 1) =~= t);
            },
        }
    }
}

/// Correlation: in a valid trace, every id is answered at most as
/// often as it was asked — a response is only ever delivered for a
/// request previously seen in the opposite direction, and each request
/// is answered at most once.
pub proof fn lemma_correlation(tr: Seq<CorrEvent>, id: ReqIdV)
    requires
        corr_valid(tr),
    ensures
        count_answered(tr, id) <= count_saw(tr, id),
{
    lemma_corr_inv(tr, id);
}

} // verus!
