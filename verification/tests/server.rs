use session_kanban::server::asset_reply;
use session_kanban::server::content_type;
use session_kanban::server::host_check;
use session_kanban::server::json_reply;
use session_kanban::server::serve_static_inner;
use session_kanban::server::session_reply;
use session_kanban::server::FAVICON;
use session_kanban::server::INDEX;

#[test]
fn assets_that_are_there() {
    let r = serve_static_inner(INDEX, Some(b"<p>".to_vec()));
    assert_eq!(r.status, 200);
    assert_eq!(r.content_type, "text/html; charset=utf-8");
    assert_eq!(r.body, b"<p>".to_vec());
    let r = serve_static_inner("style.css", Some(vec![]));
    assert_eq!(r.content_type, "text/css; charset=utf-8");
    let r = serve_static_inner("app.js", Some(vec![1, 2]));
    assert_eq!(r.content_type, "text/javascript; charset=utf-8");
    let r = serve_static_inner(FAVICON, Some(vec![1]));
    assert_eq!(r.content_type, "image/svg+xml");
    let r = serve_static_inner("data.json", Some(vec![1]));
    assert_eq!(r.content_type, "application/json; charset=utf-8");
    let r = serve_static_inner("blob.unknown", Some(vec![0, 255]));
    assert_eq!(r.content_type, "application/octet-stream");
    assert_eq!(serve_static_inner("/a/b.css", Some(vec![])).content_type, "text/css; charset=utf-8");
    assert_eq!(r.body, vec![0, 255]);
}

#[test]
fn assets_that_are_not() {
    let r = serve_static_inner("nope.css", None);
    assert_eq!(r.status, 404);
    assert_eq!(r.content_type, "text/plain; charset=utf-8");
    assert_eq!(r.body, b"not found".to_vec());
}

#[test]
fn no_way_up() {
    for path in ["..", "../secret", "a/../b", "a..b", "a/.."] {
        for file in [None, Some(b"secret".to_vec())] {
            let r = serve_static_inner(path, file);
            assert_eq!(r.status, 403, "{}", path);
            assert_eq!(r.body, b"bad path".to_vec());
        }
    }
    assert_eq!(serve_static_inner("a.b.c", Some(vec![])).status, 200);
    assert_eq!(serve_static_inner(".", None).status, 404);
}

#[test]
fn content_types() {
    assert_eq!(content_type("text/plain"), "text/plain; charset=utf-8");
    assert_eq!(content_type("application/javascript"), "application/javascript; charset=utf-8");
    assert_eq!(content_type("application/ld+json"), "application/ld+json; charset=utf-8");
    assert_eq!(content_type("image/png"), "image/png");
    assert_eq!(content_type("application/text/x"), "application/text/x");
    assert_eq!(content_type("text"), "text");
    assert_eq!(content_type(""), "");
}

#[test]
fn assets_of_a_known_type() {
    let r = asset_reply("x", "text/x-new", Some(vec![9]));
    assert_eq!(r.status, 200);
    assert_eq!(r.content_type, "text/x-new; charset=utf-8");
    assert_eq!(r.body, vec![9]);
}

#[test]
fn documents() {
    let r = json_reply(b"{}".to_vec());
    assert_eq!(r.status, 200);
    assert_eq!(r.content_type, "application/json; charset=utf-8");
    assert_eq!(r.body, b"{}".to_vec());
    let r = session_reply(Some(b"{\"sid\":1}".to_vec()));
    assert_eq!(r.status, 200);
    assert_eq!(r.body, b"{\"sid\":1}".to_vec());
    let r = session_reply(None);
    assert_eq!(r.status, 404);
    assert_eq!(r.body, b"no such session".to_vec());
}

#[test]
fn strangers_are_refused() {
    assert!(host_check(Some("localhost"), 8081).is_none());
    let r = host_check(None, 8081).unwrap();
    assert_eq!(r.status, 403);
    assert_eq!(r.content_type, "text/plain; charset=utf-8");
    assert_eq!(r.body, b"Bad Host".to_vec());
    assert_eq!(host_check(Some("evil.example"), 8081).unwrap().status, 403);
}
