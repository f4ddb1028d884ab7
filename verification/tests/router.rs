//! The routing engine, driven through whole scenarios.

use scriptls::event::{Event, Version, VersionCounter};
use scriptls::json::{JField, Json};
use scriptls::msg::{Message, ReqId};
use scriptls::router::{Action, Router, RouterError};
use scriptls::script::Scripts;

fn jstr(s: &str) -> Json {
    Json::Str(s.as_bytes().to_vec())
}

fn field(k: &str, v: Json) -> JField {
    JField { key: k.as_bytes().to_vec(), val: v }
}

fn obj(fields: Vec<JField>) -> Json {
    Json::Obj(fields)
}

fn did_open(uri: &str, lang: &str) -> Message {
    Message::Notification {
        method: b"textDocument/didOpen".to_vec(),
        params: obj(vec![field(
            "textDocument",
            obj(vec![
                field("uri", jstr(uri)),
                field("languageId", jstr(lang)),
                field("version", Json::Num(b"1".to_vec())),
                field("text", jstr("fn main() {}")),
            ]),
        )]),
    }
}

fn get(j: &Json, key: &str) -> Json {
    match j {
        Json::Obj(fs) => {
            for f in fs {
                if f.key == key.as_bytes() {
                    return clone(&f.val);
                }
            }
            panic!("no member {key}");
        },
        _ => panic!("not an object"),
    }
}

fn clone(j: &Json) -> Json {
    match j {
        Json::Null => Json::Null,
        Json::Bool(b) => Json::Bool(*b),
        Json::Num(n) => Json::Num(n.clone()),
        Json::Str(s) => Json::Str(s.clone()),
        Json::Arr(es) => Json::Arr(es.iter().map(clone).collect()),
        Json::Obj(fs) => Json::Obj(
            fs.iter().map(|f| JField { key: f.key.clone(), val: clone(&f.val) }).collect(),
        ),
    }
}

fn world() -> (Router, Scripts, VersionCounter) {
    (Router::new(), Scripts::new(None), VersionCounter::new())
}

fn forwarded_to_server(acts: &[Action]) -> &Message {
    for a in acts {
        if let Action::ToServer(m) = a {
            return m;
        }
    }
    panic!("nothing was forwarded to the server");
}

#[test]
fn did_open_rewrite() {
    let (mut router, mut scripts, mut counter) = world();
    let acts = router
        .step(&mut scripts, &mut counter, Event::ClientToServer(did_open("file:///tmp/x.rs", "rust-script")))
        .unwrap();
    // the cache holds one entry keyed by the URI
    assert_eq!(scripts.entries.len(), 1);
    assert_eq!(scripts.entries[0].uri, b"file:///tmp/x.rs".to_vec());
    assert_eq!(scripts.entries[0].source, b"/tmp/x.rs".to_vec());
    // one dirty mark, one refresh task, one forwarded message
    assert!(matches!(acts[0], Action::MarkNeedReload));
    assert!(matches!(&acts[1], Action::StartRefresh(u) if u == b"file:///tmp/x.rs"));
    let out = forwarded_to_server(&acts);
    match out {
        Message::Notification { method, params } => {
            assert_eq!(method, &b"textDocument/didOpen".to_vec());
            let td = get(params, "textDocument");
            assert!(matches!(get(&td, "languageId"), Json::Str(s) if s == b"rust"));
            assert!(matches!(get(&td, "uri"), Json::Str(s) if s == b"file:///tmp/x.rs"));
            assert!(matches!(get(&td, "text"), Json::Str(s) if s == b"fn main() {}"));
        },
        _ => panic!("didOpen should be forwarded as a notification"),
    }
}

#[test]
fn did_open_other_language_passes_through() {
    let (mut router, mut scripts, mut counter) = world();
    let acts = router
        .step(&mut scripts, &mut counter, Event::ClientToServer(did_open("file:///tmp/y.rs", "rust")))
        .unwrap();
    assert_eq!(scripts.entries.len(), 0);
    assert_eq!(acts.len(), 1);
    let out = forwarded_to_server(&acts);
    match out {
        Message::Notification { params, .. } => {
            let td = get(params, "textDocument");
            assert!(matches!(get(&td, "languageId"), Json::Str(s) if s == b"rust"));
        },
        _ => panic!("should stay a notification"),
    }
}

#[test]
fn registration_is_idempotent() {
    let (mut router, mut scripts, mut counter) = world();
    router
        .step(&mut scripts, &mut counter, Event::ClientToServer(did_open("file:///tmp/x.rs", "rust-script")))
        .unwrap();
    let acts = router
        .step(&mut scripts, &mut counter, Event::ClientToServer(did_open("file:///tmp/x.rs", "rust-script")))
        .unwrap();
    // second registration: no new entry, no dirty mark, no new task
    assert_eq!(scripts.entries.len(), 1);
    assert_eq!(acts.len(), 1);
    assert!(matches!(acts[0], Action::ToServer(_)));
}

#[test]
fn initialize_injection_with_two_scripts() {
    let (mut router, mut scripts, mut counter) = world();
    router
        .step(&mut scripts, &mut counter, Event::ClientToServer(did_open("file:///tmp/a.rs", "rust-script")))
        .unwrap();
    router
        .step(&mut scripts, &mut counter, Event::ClientToServer(did_open("file:///tmp/b.rs", "rust-script")))
        .unwrap();
    let init = Message::Request {
        id: ReqId::Num(b"1".to_vec()),
        method: b"initialize".to_vec(),
        params: obj(vec![
            field("capabilities", obj(vec![])),
            field("initializationOptions", Json::Null),
        ]),
    };
    let v0 = counter.current_version();
    let acts = router.step(&mut scripts, &mut counter, Event::ClientToServer(init)).unwrap();
    let v1 = counter.current_version();
    assert_eq!(v1.0, v0.0 + 1);
    let out = forwarded_to_server(&acts);
    match out {
        Message::Request { params, .. } => {
            let opts = get(params, "initializationOptions");
            let projects = get(&opts, "linkedProjects");
            match projects {
                Json::Arr(es) => {
                    assert_eq!(es.len(), 2);
                    let first = get(&es[0], "crates");
                    match first {
                        Json::Arr(cs) => {
                            assert_eq!(cs.len(), 1);
                            assert!(matches!(
                                get(&cs[0], "root_module"),
                                Json::Str(s) if s == b"/tmp/a.rs"
                            ));
                            assert!(matches!(
                                get(&cs[0], "edition"),
                                Json::Str(s) if s == b"2021"
                            ));
                            assert!(matches!(get(&cs[0], "is_proc_macro"), Json::Bool(false)));
                        },
                        _ => panic!("crates should be an array"),
                    }
                },
                _ => panic!("linkedProjects should be an array"),
            }
        },
        _ => panic!("initialize should stay a request"),
    }
}

#[test]
fn initialize_injection_empty_project_list() {
    let (mut router, mut scripts, mut counter) = world();
    let init = Message::Request {
        id: ReqId::Num(b"1".to_vec()),
        method: b"initialize".to_vec(),
        params: obj(vec![field("initializationOptions", Json::Null)]),
    };
    let acts = router.step(&mut scripts, &mut counter, Event::ClientToServer(init)).unwrap();
    let out = forwarded_to_server(&acts);
    match out {
        Message::Request { params, .. } => {
            let opts = get(params, "initializationOptions");
            let projects = get(&opts, "linkedProjects");
            match projects {
                Json::Arr(es) => {
                    assert_eq!(es.len(), 1);
                    assert!(matches!(get(&es[0], "crates"), Json::Arr(cs) if cs.is_empty()));
                },
                _ => panic!("linkedProjects should be an array"),
            }
        },
        _ => panic!("initialize should stay a request"),
    }
}

#[test]
fn workspace_configuration_rewrite() {
    let (mut router, mut scripts, mut counter) = world();
    router
        .step(&mut scripts, &mut counter, Event::ClientToServer(did_open("file:///tmp/a.rs", "rust-script")))
        .unwrap();
    // the backend asks for two sections
    let req = Message::Request {
        id: ReqId::Num(b"7".to_vec()),
        method: b"workspace/configuration".to_vec(),
        params: obj(vec![field(
            "items",
            Json::Arr(vec![
                obj(vec![field("section", jstr("rust-analyzer"))]),
                obj(vec![field("section", jstr("files"))]),
            ]),
        )]),
    };
    let acts = router.step(&mut scripts, &mut counter, Event::ServerToClient(req)).unwrap();
    assert!(matches!(acts[0], Action::ToClient(_)));
    // the editor answers [null, {...}]
    let resp = Message::Response {
        id: ReqId::Num(b"7".to_vec()),
        result: Some(Json::Arr(vec![
            Json::Null,
            obj(vec![field("watcherExclude", Json::Bool(true))]),
        ])),
        error: None,
    };
    let v0 = counter.current_version();
    let acts2 = router.step(&mut scripts, &mut counter, Event::ClientToServer(resp)).unwrap();
    let v1 = counter.current_version();
    // exactly one reload version named: one matching item
    assert_eq!(v1.0, v0.0 + 1);
    let out = forwarded_to_server(&acts2);
    match out {
        Message::Response { result: Some(Json::Arr(es)), .. } => {
            assert_eq!(es.len(), 2);
            // element 0 was null: it became an object with the projects
            let projects = get(&es[0], "linkedProjects");
            assert!(matches!(projects, Json::Arr(ps) if ps.len() == 1));
            // element 1 untouched
            assert!(matches!(get(&es[1], "watcherExclude"), Json::Bool(true)));
        },
        _ => panic!("the response should keep its array result"),
    }
}

#[test]
fn unknown_response_id_is_fatal() {
    let (mut router, mut scripts, mut counter) = world();
    let resp = Message::Response {
        id: ReqId::Num(b"99".to_vec()),
        result: Some(Json::Null),
        error: None,
    };
    let err = router
        .step(&mut scripts, &mut counter, Event::ClientToServer(resp))
        .unwrap_err();
    assert_eq!(err, RouterError::UnknownClientResponse);

    let resp2 = Message::Response {
        id: ReqId::Num(b"99".to_vec()),
        result: Some(Json::Null),
        error: None,
    };
    let err2 = router
        .step(&mut scripts, &mut counter, Event::ServerToClient(resp2))
        .unwrap_err();
    assert_eq!(err2, RouterError::UnknownServerResponse);
}

#[test]
fn each_request_is_answered_at_most_once() {
    let (mut router, mut scripts, mut counter) = world();
    let req = Message::Request {
        id: ReqId::Num(b"5".to_vec()),
        method: b"window/showMessageRequest".to_vec(),
        params: Json::Null,
    };
    router.step(&mut scripts, &mut counter, Event::ServerToClient(req)).unwrap();
    let resp = Message::Response {
        id: ReqId::Num(b"5".to_vec()),
        result: Some(Json::Null),
        error: None,
    };
    router.step(&mut scripts, &mut counter, Event::ClientToServer(resp)).unwrap();
    // a second response to the same id is a protocol violation
    let resp2 = Message::Response {
        id: ReqId::Num(b"5".to_vec()),
        result: Some(Json::Null),
        error: None,
    };
    let err = router
        .step(&mut scripts, &mut counter, Event::ClientToServer(resp2))
        .unwrap_err();
    assert_eq!(err, RouterError::UnknownClientResponse);
}

#[test]
fn reload_coalescing() {
    let (mut router, mut scripts, mut counter) = world();
    // three rapid dirty marks, all stamped with the current version
    let v = counter.current_version();
    let mut reloads = 0;
    for _ in 0..3 {
        let acts = router
            .step(&mut scripts, &mut counter, Event::NeedReload(Version(v.0)))
            .unwrap();
        for a in &acts {
            if let Action::ToServer(Message::Notification { method, params }) = a {
                assert_eq!(method, &b"workspace/didChangeConfiguration".to_vec());
                assert!(matches!(get(params, "settings"), Json::Null));
                reloads += 1;
            }
        }
    }
    assert_eq!(reloads, 1);
}

#[test]
fn exit_propagation() {
    let (mut router, mut scripts, mut counter) = world();
    let exit = Message::Notification { method: b"exit".to_vec(), params: Json::Null };
    let acts = router.step(&mut scripts, &mut counter, Event::ClientToServer(exit)).unwrap();
    assert_eq!(acts.len(), 2);
    match &acts[0] {
        Action::ToServer(Message::Notification { method, .. }) => {
            assert_eq!(method, &b"exit".to_vec());
        },
        _ => panic!("exit must be forwarded first"),
    }
    assert!(matches!(acts[1], Action::Exit));
}

#[test]
fn server_log_goes_to_the_log() {
    let (mut router, mut scripts, mut counter) = world();
    let acts = router
        .step(&mut scripts, &mut counter, Event::ServerLog(b"backend says hi".to_vec()))
        .unwrap();
    assert_eq!(acts.len(), 1);
    assert!(matches!(&acts[0], Action::Log(l) if l == b"backend says hi"));
}
