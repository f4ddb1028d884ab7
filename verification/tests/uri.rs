//! URI translation between the script and package views.

use scriptls::event::{Event, VersionCounter};
use scriptls::json::{JField, Json};
use scriptls::msg::{Message, ReqId};
use scriptls::router::{Action, Router};
use scriptls::script::Scripts;
use scriptls::uri::Context;

#[test]
fn translate_both_directions() {
    let c = Context::new(b"/tmp/x.rs".to_vec(), b"/tmp/pkg/x.rs".to_vec());
    let u = b"file:///tmp/x.rs".to_vec();
    let to_server = c.translate_client_uri_to_server_uri(&u);
    assert_eq!(to_server, b"file:///tmp/pkg/x.rs".to_vec());
    let back = c.translate_server_uri_to_client_uri(&to_server);
    assert_eq!(back, u);
}

#[test]
fn round_trip_from_the_package_side() {
    let c = Context::new(b"/tmp/x.rs".to_vec(), b"/tmp/pkg/x.rs".to_vec());
    let u = b"file:///tmp/pkg/x.rs".to_vec();
    let to_client = c.translate_server_uri_to_client_uri(&u);
    assert_eq!(to_client, b"file:///tmp/x.rs".to_vec());
    let back = c.translate_client_uri_to_server_uri(&to_client);
    assert_eq!(back, u);
}

#[test]
fn unrelated_uris_pass_through() {
    let c = Context::new(b"/tmp/x.rs".to_vec(), b"/tmp/pkg/x.rs".to_vec());
    let u = b"file:///etc/hosts".to_vec();
    assert_eq!(c.translate_client_uri_to_server_uri(&u), u);
    assert_eq!(c.translate_server_uri_to_client_uri(&u), u);
    let web = b"https://example.invalid/x.rs".to_vec();
    assert_eq!(c.translate_client_uri_to_server_uri(&web), web);
}

#[test]
fn payload_walk_rewrites_uri_members() {
    // register a script and teach the cache its package
    let mut scripts = Scripts::new(None);
    let uri = b"file:///tmp/x.rs".to_vec();
    scripts.register(&uri);
    let _ = scripts.begin_refresh(&uri);
    scripts.finish_refresh(&uri, &b"/tmp/pkg/Cargo.toml".to_vec(), &b"/tmp/pkg/x.rs".to_vec());

    // a definition request touching the script flows to the backend
    let mut router = Router::new();
    let mut counter = VersionCounter::new();
    let req = Message::Request {
        id: ReqId::Num(b"2".to_vec()),
        method: b"textDocument/definition".to_vec(),
        params: Json::Obj(vec![JField {
            key: b"textDocument".to_vec(),
            val: Json::Obj(vec![JField {
                key: b"uri".to_vec(),
                val: Json::Str(b"file:///tmp/x.rs".to_vec()),
            }]),
        }]),
    };
    let acts = router.step(&mut scripts, &mut counter, Event::ClientToServer(req)).unwrap();
    let out = acts
        .iter()
        .find_map(|a| match a {
            Action::ToServer(m) => Some(m),
            _ => None,
        })
        .unwrap();
    match out {
        Message::Request { params: Json::Obj(fs), .. } => match &fs[0].val {
            Json::Obj(tfs) => {
                assert!(
                    matches!(&tfs[0].val, Json::Str(u) if u == b"file:///tmp/pkg/x.rs"),
                    "the script URI must become the package URI"
                );
            },
            _ => panic!("textDocument should be an object"),
        },
        _ => panic!("should stay a request"),
    }

    // a location coming back from the backend is translated the other way
    let note = Message::Notification {
        method: b"textDocument/publishDiagnostics".to_vec(),
        params: Json::Obj(vec![JField {
            key: b"uri".to_vec(),
            val: Json::Str(b"file:///tmp/pkg/x.rs".to_vec()),
        }]),
    };
    let acts2 = router.step(&mut scripts, &mut counter, Event::ServerToClient(note)).unwrap();
    let out2 = acts2
        .iter()
        .find_map(|a| match a {
            Action::ToClient(m) => Some(m),
            _ => None,
        })
        .unwrap();
    match out2 {
        Message::Notification { params: Json::Obj(fs), .. } => {
            assert!(matches!(&fs[0].val, Json::Str(u) if u == b"file:///tmp/x.rs"));
        },
        _ => panic!("should stay a notification"),
    }
}
