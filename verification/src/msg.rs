//! JSON-RPC messages: the tagged union the router works with, its JSON
//! shape, and the proof that the shape is read back exactly.

use vstd::prelude::*;
use crate::json::{
    Json, JField, JVal, JFieldV, jv, jv_fields, jwf, jwf_fields, num_ok, str_ok, obj_get,
    lemma_jv_fields_at0, lemma_str_ok_plain, clone_json, obj_get_clone, };
use crate::bytes::{
    bytes_eq, bytes_clone, k_jsonrpc, b_jsonrpc, k_two_zero, b_two_zero, k_id, b_id, k_method,
    b_method, k_params, b_params, k_result, b_result, k_error, b_error, k_exit,
};

verus! {

/// A request id: an integer (kept as its number token) or a string.
#[derive(Debug)]
pub enum ReqId {
    Num(Vec<u8>),
    Str(Vec<u8>),
}

/// The mathematical mirror of `ReqId`.
pub enum ReqIdV {
    Num(Seq<u8>),
    Str(Seq<u8>),
}

pub open spec fn rid_v(id: ReqId) -> ReqIdV {
    match id {
        ReqId::Num(t) => ReqIdV::Num(t@),
        ReqId::Str(t) => ReqIdV::Str(t@),
    }
}

pub open spec fn rid_wf(id: ReqIdV) -> bool {
    match id {
        ReqIdV::Num(t) => num_ok(t),
        ReqIdV::Str(t) => str_ok(t),
    }
}

/// The JSON value carrying a request id.
pub open spec fn rid_jval(id: ReqIdV) -> JVal {
    match id {
        ReqIdV::Num(t) => JVal::Num(t),
        ReqIdV::Str(t) => JVal::Str(t),
    }
}

/// Which JSON values are accepted as request ids.
pub open spec fn jval_rid(j: JVal) -> Option<ReqIdV> {
    match j {
        JVal::Num(t) => Some(ReqIdV::Num(t)),
        JVal::Str(t) => Some(ReqIdV::Str(t)),
        _ => None,
    }
}

pub fn rid_eq(a: &ReqId, b: &ReqId) -> (r: bool)
    ensures
        r == (rid_v(*a) == rid_v(*b)),
{
    match (a, b) {
        (ReqId::Num(x), ReqId::Num(y)) => bytes_eq(x, y),
        (ReqId::Str(x), ReqId::Str(y)) => bytes_eq(x, y),
        _ => false,
    }
}

pub fn rid_clone(a: &ReqId) -> (r: ReqId)
    ensures
        rid_v(r) == rid_v(*a),
{
    match a {
        ReqId::Num(x) => ReqId::Num(bytes_clone(x)),
        ReqId::Str(x) => ReqId::Str(bytes_clone(x)),
    }
}

/// A JSON-RPC message.  A `Response` carries its result or its error,
/// each optional, as on the wire.
#[derive(Debug)]
pub enum Message {
    Request { id: ReqId, method: Vec<u8>, params: Json },
    Response { id: ReqId, result: Option<Json>, error: Option<Json> },
    Notification { method: Vec<u8>, params: Json },
}

/// The mathematical mirror of `Message`.
pub enum MessageV {
    Request { id: ReqIdV, method: Seq<u8>, params: JVal },
    Response { id: ReqIdV, result: Option<JVal>, error: Option<JVal> },
    Notification { method: Seq<u8>, params: JVal },
}

pub open spec fn msg_v(m: Message) -> MessageV {
    match m {
        Message::Request { id, method, params } => MessageV::Request {
            id: rid_v(id),
            method: method@,
            params: jv(params),
        },
        Message::Response { id, result, error } => MessageV::Response {
            id: rid_v(id),
            result: match result {
                Some(r) => Some(jv(r)),
                None => None,
            },
            error: match error {
                Some(e) => Some(jv(e)),
                None => None,
            },
        },
        Message::Notification { method, params } => MessageV::Notification {
            method: method@,
            params: jv(params),
        },
    }
}

/// Well-formedness of a message: every token in it is well formed.
pub open spec fn msg_wf(m: MessageV) -> bool {
    match m {
        MessageV::Request { id, method, params } => rid_wf(id) && str_ok(method) && jwf(params),
        MessageV::Response { id, result, error } => {
            &&& rid_wf(id)
            &&& match result {
                Some(r) => jwf(r),
                None => true,
            }
            &&& match error {
                Some(e) => jwf(e),
                None => true,
            }
        },
        MessageV::Notification { method, params } => str_ok(method) && jwf(params),
    }
}

/// The JSON document carrying a message.
pub open spec fn msg_jval(m: MessageV) -> JVal {
    match m {
        MessageV::Request { id, method, params } => JVal::Obj(
            seq![
                JFieldV { key: k_jsonrpc(), val: JVal::Str(k_two_zero()) },
                JFieldV { key: k_id(), val: rid_jval(id) },
                JFieldV { key: k_method(), val: JVal::Str(method) },
                JFieldV { key: k_params(), val: params },
            ],
        ),
        MessageV::Response { id, result, error } => JVal::Obj(
            seq![
                JFieldV { key: k_jsonrpc(), val: JVal::Str(k_two_zero()) },
                JFieldV { key: k_id(), val: rid_jval(id) },
            ] + (match result {
                Some(r) => seq![JFieldV { key: k_result(), val: r }],
                None => Seq::empty(),
            }) + (match error {
                Some(e) => seq![JFieldV { key: k_error(), val: e }],
                None => Seq::empty(),
            }),
        ),
        MessageV::Notification { method, params } => JVal::Obj(
            seq![
                JFieldV { key: k_jsonrpc(), val: JVal::Str(k_two_zero()) },
                JFieldV { key: k_method(), val: JVal::Str(method) },
                JFieldV { key: k_params(), val: params },
            ],
        ),
    }
}

/// The `params` member, or `null` when absent.
pub open spec fn params_of(fs: Seq<JFieldV>) -> JVal {
    match obj_get(fs, k_params()) {
        Some(p) => p,
        None => JVal::Null,
    }
}

/// Which messages a JSON document carries: a `method` member makes it a
/// request (with `id`) or a notification (without); otherwise an `id`
/// makes it a response.
pub open spec fn jval_msg(j: JVal) -> Option<MessageV> {
    match j {
        JVal::Obj(fs) => match obj_get(fs, k_method()) {
            Some(mj) => match mj {
                JVal::Str(name) => match obj_get(fs, k_id()) {
                    Some(idj) => match jval_rid(idj) {
                        Some(id) => Some(
                            MessageV::Request { id, method: name, params: params_of(fs) },
                        ),
                        None => None,
                    },
                    None => Some(MessageV::Notification { method: name, params: params_of(fs) }),
                },
                _ => None,
            },
            None => match obj_get(fs, k_id()) {
                Some(idj) => match jval_rid(idj) {
                    Some(id) => Some(
                        MessageV::Response {
                            id,
                            result: obj_get(fs, k_result()),
                            error: obj_get(fs, k_error()),
                        },
                    ),
                    None => None,
                },
                None => None,
            },
        },
        _ => None,
    }
}

/// Classification reads back exactly the message that was rendered.
#[verifier::rlimit(100)]
pub proof fn lemma_msg_round_trip(m: MessageV)
    ensures
        jval_msg(msg_jval(m)) == Some(m),
{
    reveal_with_fuel(obj_get, 6);
    let j = msg_jval(m);
    match m {
        MessageV::Request { id, method, params } => {
            let fs = j->Obj_0;
            assert(fs.skip(1) =~= seq![
                JFieldV { key: k_id(), val: rid_jval(id) },
                JFieldV { key: k_method(), val: JVal::Str(method) },
                JFieldV { key: k_params(), val: params },
            ]);
            assert(fs.skip(1).skip(1) =~= seq![
                JFieldV { key: k_method(), val: JVal::Str(method) },
                JFieldV { key: k_params(), val: params },
            ]);
            assert(fs.skip(1).skip(1).skip(1) =~= seq![
                JFieldV { key: k_params(), val: params },
            ]);
            assert(k_jsonrpc() != k_method() && k_id() != k_method());
            assert(obj_get(fs, k_method()) == Some(JVal::Str(method)));
            assert(k_jsonrpc() != k_id());
            assert(obj_get(fs, k_id()) == Some(rid_jval(id)));
            assert(k_jsonrpc() != k_params() && k_id() != k_params() && k_method() != k_params());
            assert(obj_get(fs, k_params()) == Some(params));
        },
        MessageV::Notification { method, params } => {
            let fs = j->Obj_0;
            assert(fs.skip(1) =~= seq![
                JFieldV { key: k_method(), val: JVal::Str(method) },
                JFieldV { key: k_params(), val: params },
            ]);
            assert(fs.skip(1).skip(1) =~= seq![
                JFieldV { key: k_params(), val: params },
            ]);
            assert(fs.skip(1).skip(1).skip(1) =~= Seq::<JFieldV>::empty());
            assert(k_jsonrpc() != k_method());
            assert(obj_get(fs, k_method()) == Some(JVal::Str(method)));
            assert(k_jsonrpc() != k_id() && k_method() != k_id() && k_params() != k_id());
            assert(obj_get(fs, k_id()) is None);
            assert(obj_get(fs, k_params()) == Some(params));
        },
        MessageV::Response { id, result, error } => {
            let fs = j->Obj_0;
            let head = seq![
                JFieldV { key: k_jsonrpc(), val: JVal::Str(k_two_zero()) },
                JFieldV { key: k_id(), val: rid_jval(id) },
            ];
            assert(k_jsonrpc() != k_id());
            assert(k_jsonrpc() != k_method() && k_id() != k_method() && k_result() != k_method()
                && k_error() != k_method());
            assert(k_jsonrpc() != k_result() && k_id() != k_result() && k_error() != k_result());
            assert(k_jsonrpc() != k_error() && k_id() != k_error() && k_result() != k_error());
            match (result, error) {
                (Some(r), Some(e)) => {
                    assert(fs =~= seq![
                        head[0],
                        head[1],
                        JFieldV { key: k_result(), val: r },
                        JFieldV { key: k_error(), val: e },
                    ]);
                    assert(fs.skip(1) =~= seq![
                        head[1],
                        JFieldV { key: k_result(), val: r },
                        JFieldV { key: k_error(), val: e },
                    ]);
                    assert(fs.skip(1).skip(1) =~= seq![
                        JFieldV { key: k_result(), val: r },
                        JFieldV { key: k_error(), val: e },
                    ]);
                    assert(fs.skip(1).skip(1).skip(1) =~= seq![
                        JFieldV { key: k_error(), val: e },
                    ]);
                    assert(fs.skip(1).skip(1).skip(1).skip(1) =~= Seq::<JFieldV>::empty());
                    assert(obj_get(fs, k_method()) is None);
                    assert(obj_get(fs, k_id()) == Some(rid_jval(id)));
                    assert(obj_get(fs, k_result()) == Some(r));
                    assert(obj_get(fs, k_error()) == Some(e));
                },
                (Some(r), None) => {
                    assert(fs =~= seq![head[0], head[1], JFieldV { key: k_result(), val: r }]);
                    assert(fs.skip(1) =~= seq![head[1], JFieldV { key: k_result(), val: r }]);
                    assert(fs.skip(1).skip(1) =~= seq![JFieldV { key: k_result(), val: r }]);
                    assert(fs.skip(1).skip(1).skip(1) =~= Seq::<JFieldV>::empty());
                    assert(obj_get(fs, k_method()) is None);
                    assert(obj_get(fs, k_id()) == Some(rid_jval(id)));
                    assert(obj_get(fs, k_result()) == Some(r));
                    assert(obj_get(fs, k_error()) is None);
                },
                (None, Some(e)) => {
                    assert(fs =~= seq![head[0], head[1], JFieldV { key: k_error(), val: e }]);
                    assert(fs.skip(1) =~= seq![head[1], JFieldV { key: k_error(), val: e }]);
                    assert(fs.skip(1).skip(1) =~= seq![JFieldV { key: k_error(), val: e }]);
                    assert(fs.skip(1).skip(1).skip(1) =~= Seq::<JFieldV>::empty());
                    assert(obj_get(fs, k_method()) is None);
                    assert(obj_get(fs, k_id()) == Some(rid_jval(id)));
                    assert(obj_get(fs, k_result()) is None);
                    assert(obj_get(fs, k_error()) == Some(e));
                },
                (None, None) => {
                    assert(fs =~= seq![head[0], head[1]]);
                    assert(fs.skip(1) =~= seq![head[1]]);
                    assert(fs.skip(1).skip(1) =~= Seq::<JFieldV>::empty());
                    assert(obj_get(fs, k_method()) is None);
                    assert(obj_get(fs, k_id()) == Some(rid_jval(id)));
                    assert(obj_get(fs, k_result()) is None);
                    assert(obj_get(fs, k_error()) is None);
                },
            }
        },
    }
}

/// The document carrying a well-formed message is itself well formed.
pub proof fn lemma_msg_jval_wf(m: MessageV)
    requires
        msg_wf(m),
    ensures
        jwf(msg_jval(m)),
{
    lemma_str_ok_plain(k_jsonrpc());
    lemma_str_ok_plain(k_two_zero());
    lemma_str_ok_plain(k_id());
    lemma_str_ok_plain(k_method());
    lemma_str_ok_plain(k_params());
    lemma_str_ok_plain(k_result());
    lemma_str_ok_plain(k_error());
    let fs = msg_jval(m)->Obj_0;
    assert forall|i: int| 0 <= i < fs.len() implies str_ok(#[trigger] fs[i].key) && jwf(
        fs[i].val,
    ) by {
        match m {
            MessageV::Request { id, method, params } => {},
            MessageV::Notification { method, params } => {},
            MessageV::Response { id, result, error } => {},
        }
    }
    lemma_jwf_fields_from_all(fs, 0);
}

/// Pointwise well-formedness of the members gives `jwf_fields`.
pub proof fn lemma_jwf_fields_from_all(fs: Seq<JFieldV>, i: int)
    requires
        0 <= i <= fs.len(),
        forall|k: int| 0 <= k < fs.len() ==> str_ok(#[trigger] fs[k].key) && jwf(fs[k].val),
    ensures
        jwf_fields(fs, i),
    decreases fs.len() - i,
{
    if i < fs.len() {
        lemma_jwf_fields_from_all(fs, i + 1);
        assert(str_ok(fs[i].key) && jwf(fs[i].val));
    }
}

// ------------------------------------------------------------------
// Executable conversions.
// ------------------------------------------------------------------

/// The JSON value carrying a request id.
pub fn rid_to_json(id: &ReqId) -> (r: Json)
    ensures
        jv(r) == rid_jval(rid_v(*id)),
{
    match id {
        ReqId::Num(t) => Json::Num(bytes_clone(t)),
        ReqId::Str(t) => Json::Str(bytes_clone(t)),
    }
}

/// Render a message as its JSON document.
pub fn msg_to_json(m: &Message) -> (r: Json)
    ensures
        jv(r) == msg_jval(msg_v(*m)),
{
    let mut fields: Vec<JField> = Vec::new();
    fields.push(JField { key: b_jsonrpc(), val: Json::Str(b_two_zero()) });
    match m {
        Message::Request { id, method, params } => {
            let idj = rid_to_json(id);
            fields.push(JField { key: b_id(), val: idj });
            fields.push(JField { key: b_method(), val: Json::Str(bytes_clone(method)) });
            fields.push(JField { key: b_params(), val: clone_json(params) });
            proof {
                lemma_jv_fields_at0(fields@);
                assert(jv_fields(fields@, 0) =~= msg_jval(msg_v(*m))->Obj_0);
            }
            Json::Obj(fields)
        },
        Message::Notification { method, params } => {
            fields.push(JField { key: b_method(), val: Json::Str(bytes_clone(method)) });
            fields.push(JField { key: b_params(), val: clone_json(params) });
            proof {
                lemma_jv_fields_at0(fields@);
                assert(jv_fields(fields@, 0) =~= msg_jval(msg_v(*m))->Obj_0);
            }
            Json::Obj(fields)
        },
        Message::Response { id, result, error } => {
            let idj = rid_to_json(id);
            fields.push(JField { key: b_id(), val: idj });
            match result {
                Some(r) => {
                    fields.push(JField { key: b_result(), val: clone_json(r) });
                },
                None => {},
            }
            match error {
                Some(e) => {
                    fields.push(JField { key: b_error(), val: clone_json(e) });
                },
                None => {},
            }
            proof {
                lemma_jv_fields_at0(fields@);
                assert(jv_fields(fields@, 0) =~= msg_jval(msg_v(*m))->Obj_0);
            }
            Json::Obj(fields)
        },
    }
}

/// Classify a JSON document as the message it carries.
pub fn json_to_msg(j: &Json) -> (r: Option<Message>)
    ensures
        match r {
            Some(m) => jval_msg(jv(*j)) == Some(msg_v(m)),
            None => jval_msg(jv(*j)) is None,
        },
{
    match j {
        Json::Obj(fields) => {
            let params = match obj_get_clone(fields, &b_params()) {
                Some(p) => p,
                None => Json::Null,
            };
            match obj_get_clone(fields, &b_method()) {
                Some(mj) => {
                    match mj {
                        Json::Str(name) => {
                            match obj_get_clone(fields, &b_id()) {
                                Some(idj) => {
                                    match idj {
                                        Json::Num(t) => Some(
                                            Message::Request {
                                                id: ReqId::Num(t),
                                                method: name,
                                                params,
                                            },
                                        ),
                                        Json::Str(t) => Some(
                                            Message::Request {
                                                id: ReqId::Str(t),
                                                method: name,
                                                params,
                                            },
                                        ),
                                        _ => None,
                                    }
                                },
                                None => Some(
                                    Message::Notification { method: name, params },
                                ),
                            }
                        },
                        _ => None,
                    }
                },
                None => {
                    match obj_get_clone(fields, &b_id()) {
                        Some(idj) => {
                            let id = match idj {
                                Json::Num(t) => Some(ReqId::Num(t)),
                                Json::Str(t) => Some(ReqId::Str(t)),
                                _ => None,
                            };
                            match id {
                                Some(id) => {
                                    let result = obj_get_clone(fields, &b_result());
                                    let error = obj_get_clone(fields, &b_error());
                                    Some(Message::Response { id, result, error })
                                },
                                None => None,
                            }
                        },
                        None => None,
                    }
                },
            }
        },
        _ => None,
    }
}

// ------------------------------------------------------------------
// The exit notification.
// ------------------------------------------------------------------

/// Whether a message is the `exit` notification, which shuts the
/// session down.
pub open spec fn is_exit_msg(m: MessageV) -> bool {
    match m {
        MessageV::Notification { method, params } => method == k_exit(),
        _ => false,
    }
}

/// What a message answers: the shutdown test the router and both
/// endpoints share.
pub trait MessageExt {
    spec fn is_exit_spec(&self) -> bool;

    fn is_exit(&self) -> (r: bool)
        ensures
            r == self.is_exit_spec(),
    ;
}

impl MessageExt for Message {
    open spec fn is_exit_spec(&self) -> bool {
        is_exit_msg(msg_v(*self))
    }

    fn is_exit(&self) -> (r: bool) {
        match self {
            Message::Notification { method, params } => bytes_eq(method, &crate::bytes::b_exit()),
            _ => false,
        }
    }
}

/// A deep copy of a message.
pub fn clone_msg(m: &Message) -> (r: Message)
    ensures
        msg_v(r) == msg_v(*m),
{
    match m {
        Message::Request { id, method, params } => Message::Request {
            id: rid_clone(id),
            method: bytes_clone(method),
            params: clone_json(params),
        },
        Message::Response { id, result, error } => Message::Response {
            id: rid_clone(id),
            result: match result {
                Some(r) => Some(clone_json(r)),
                None => None,
            },
            error: match error {
                Some(e) => Some(clone_json(e)),
                None => None,
            },
        },
        Message::Notification { method, params } => Message::Notification {
            method: bytes_clone(method),
            params: clone_json(params),
        },
    }
}

} // verus!
