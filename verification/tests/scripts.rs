//! The script cache: registration, ordering, refresh coalescing.

use scriptls::json::Json;
use scriptls::script::{RegisterOutcome, Scripts};

fn get_str(j: &Json, key: &str) -> Vec<u8> {
    match j {
        Json::Obj(fs) => {
            for f in fs {
                if f.key == key.as_bytes() {
                    if let Json::Str(s) = &f.val {
                        return s.clone();
                    }
                    panic!("{key} is not a string");
                }
            }
            panic!("no member {key}");
        },
        _ => panic!("not an object"),
    }
}

#[test]
fn register_resolves_the_file_path() {
    // a fresh registration stores the path the URI names, not the URI
    let mut s = Scripts::new(None);
    let uri = b"file:///tmp/dir/x.rs".to_vec();
    assert!(matches!(s.register(&uri), RegisterOutcome::Registered));
    assert_eq!(s.entries[0].source, b"/tmp/dir/x.rs".to_vec());
    assert!(s.entries[0].need_refresh);
    assert!(s.entries[0].refreshing);
}

#[test]
fn register_rejects_non_file_uris() {
    let mut s = Scripts::new(None);
    let uri = b"untitled:Untitled-1".to_vec();
    assert!(matches!(s.register(&uri), RegisterOutcome::NoPath));
    assert_eq!(s.entries.len(), 0);
}

#[test]
fn register_twice_is_register_once() {
    let mut s = Scripts::new(None);
    let uri = b"file:///tmp/x.rs".to_vec();
    assert!(matches!(s.register(&uri), RegisterOutcome::Registered));
    assert!(matches!(s.register(&uri), RegisterOutcome::AlreadyPresent));
    assert_eq!(s.entries.len(), 1);
}

#[test]
fn projects_keep_registration_order() {
    let mut s = Scripts::new(None);
    s.register(&b"file:///tmp/c.rs".to_vec());
    s.register(&b"file:///tmp/a.rs".to_vec());
    s.register(&b"file:///tmp/b.rs".to_vec());
    // drop the middle one; the others keep their order
    assert!(s.deregister_if_registered(&b"file:///tmp/a.rs".to_vec()));
    let ps = s.projects();
    assert_eq!(ps.len(), 2);
    let first = match &ps[0] {
        Json::Obj(fs) => fs.iter().find(|f| f.key == b"crates").map(|f| &f.val).unwrap(),
        _ => panic!("fallback descriptor should be an object"),
    };
    match first {
        Json::Arr(cs) => assert_eq!(get_str(&cs[0], "root_module"), b"/tmp/c.rs".to_vec()),
        _ => panic!("crates should be an array"),
    }
    let second = match &ps[1] {
        Json::Obj(fs) => fs.iter().find(|f| f.key == b"crates").map(|f| &f.val).unwrap(),
        _ => panic!("fallback descriptor should be an object"),
    };
    match second {
        Json::Arr(cs) => assert_eq!(get_str(&cs[0], "root_module"), b"/tmp/b.rs".to_vec()),
        _ => panic!("crates should be an array"),
    }
}

#[test]
fn deregister_of_absent_uri_changes_nothing() {
    let mut s = Scripts::new(None);
    s.register(&b"file:///tmp/x.rs".to_vec());
    assert!(!s.deregister_if_registered(&b"file:///tmp/other.rs".to_vec()));
    assert_eq!(s.entries.len(), 1);
}

#[test]
fn refresh_reports_a_changed_descriptor_once() {
    let mut s = Scripts::new(None);
    let uri = b"file:///tmp/x.rs".to_vec();
    s.register(&uri);
    // the task takes the queued work
    let src = s.begin_refresh(&uri).expect("work was queued");
    assert_eq!(src, b"/tmp/x.rs".to_vec());
    // the tool produced a package; storing it is a change
    let changed = s.finish_refresh(
        &uri,
        &b"/tmp/pkg/Cargo.toml".to_vec(),
        &b"/tmp/pkg/x.rs".to_vec(),
    );
    assert!(changed);
    // the same answer again is no change
    s.queue_refresh(&uri);
    let _ = s.begin_refresh(&uri).expect("work was queued again");
    let changed2 = s.finish_refresh(
        &uri,
        &b"/tmp/pkg/Cargo.toml".to_vec(),
        &b"/tmp/pkg/x.rs".to_vec(),
    );
    assert!(!changed2);
    // with no work queued, the task stands down
    assert!(s.begin_refresh(&uri).is_none());
    assert!(!s.entries[0].refreshing);
    // the descriptor is now the manifest path
    let ps = s.projects();
    assert!(matches!(&ps[0], Json::Str(p) if p == b"/tmp/pkg/Cargo.toml"));
}

#[test]
fn queue_refresh_coalesces_tasks() {
    let mut s = Scripts::new(None);
    let uri = b"file:///tmp/x.rs".to_vec();
    s.register(&uri);
    // a task is already in flight from registration
    assert!(!s.queue_refresh(&uri));
    // the task drains both asks in one go
    assert!(s.begin_refresh(&uri).is_some());
    assert!(s.begin_refresh(&uri).is_none());
    // now a fresh ask wants a fresh task
    assert!(s.queue_refresh(&uri));
}

#[test]
fn queue_refresh_all_spawns_for_idle_entries() {
    let mut s = Scripts::new(None);
    s.register(&b"file:///tmp/a.rs".to_vec());
    s.register(&b"file:///tmp/b.rs".to_vec());
    // drain a's task; b's stays in flight
    let _ = s.begin_refresh(&b"file:///tmp/a.rs".to_vec());
    let _ = s.begin_refresh(&b"file:///tmp/a.rs".to_vec());
    let spawns = s.queue_refresh_all();
    assert_eq!(spawns, vec![b"file:///tmp/a.rs".to_vec()]);
    assert!(s.entries.iter().all(|e| e.need_refresh && e.refreshing));
}

#[test]
fn sysroot_lands_in_the_fallback() {
    let mut s = Scripts::new(Some(b"/opt/sysroot".to_vec()));
    s.register(&b"file:///tmp/x.rs".to_vec());
    let ps = s.projects();
    assert_eq!(get_str(&ps[0], "sysroot"), b"/opt/sysroot".to_vec());
}
