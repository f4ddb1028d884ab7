//! The JSON layer and the small dispatch pieces, exercised directly.

use scriptls::handler::{is_method, Move};
use scriptls::json::{emit_json, JField, Json};
use scriptls::parse::parse_json;
use scriptls::lsp_extra::{RebuildProcMacros, ReloadWorkspace, RunFlyCheck};
use scriptls::msg::{Message, ReqId};

#[test]
fn emit_canonical_document() {
    let doc = Json::Obj(vec![
        JField { key: b"a".to_vec(), val: Json::Num(b"-1.5e3".to_vec()) },
        JField {
            key: b"b".to_vec(),
            val: Json::Arr(vec![Json::Bool(true), Json::Bool(false), Json::Null]),
        },
        JField { key: b"c".to_vec(), val: Json::Obj(vec![]) },
    ]);
    let bytes = emit_json(&doc);
    assert_eq!(bytes, br#"{"a":-1.5e3,"b":[true,false,null],"c":{}}"#.to_vec());
}

#[test]
fn parse_accepts_whitespace_and_nesting() {
    let text = b" [ 1 , { \"k\" : [ ] } , \"s\" ] ".to_vec();
    let doc = parse_json(&text).expect("well-formed document");
    match doc {
        Json::Arr(es) => {
            assert_eq!(es.len(), 3);
            assert!(matches!(&es[0], Json::Num(n) if n == b"1"));
            match &es[1] {
                Json::Obj(fs) => {
                    assert_eq!(fs[0].key, b"k".to_vec());
                    assert!(matches!(&fs[0].val, Json::Arr(a) if a.is_empty()));
                },
                _ => panic!("second element should be an object"),
            }
            assert!(matches!(&es[2], Json::Str(s) if s == b"s"));
        },
        _ => panic!("should parse as an array"),
    }
}

#[test]
fn parse_rejects_trailing_garbage() {
    assert!(parse_json(&b"{} x".to_vec()).is_none());
    assert!(parse_json(&b"".to_vec()).is_none());
    assert!(parse_json(&b"[1,".to_vec()).is_none());
    assert!(parse_json(&b"\"unterminated".to_vec()).is_none());
}

#[test]
fn moved_hands_back_the_value() {
    let m = Move(7usize);
    assert_eq!(m.moved(), 7);
}

#[test]
fn method_dispatch() {
    let req = Message::Request {
        id: ReqId::Num(b"1".to_vec()),
        method: ReloadWorkspace::method(),
        params: Json::Obj(vec![]),
    };
    assert!(is_method(&req, &b"rust-analyzer/reloadWorkspace".to_vec()));
    assert!(!is_method(&req, &RebuildProcMacros::method()));
    let resp = Message::Response { id: ReqId::Num(b"1".to_vec()), result: None, error: None };
    assert!(!is_method(&resp, &RunFlyCheck::method()));
    assert_eq!(RunFlyCheck::method(), b"rust-analyzer/runFlyCheck".to_vec());
}
