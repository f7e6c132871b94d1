use session_kanban::json::parse_json;
use session_kanban::keyed::Keyed;
use session_kanban::parser::apply_event;
use session_kanban::parser::SessionState;
use session_kanban::parser::Todo;
use session_kanban::seconds::Seconds;
use session_kanban::state::sort_key;
use session_kanban::state::Event;
use session_kanban::state::Store;
use session_kanban::summary::truncate;
use session_kanban::summary::SessionSummary;

fn at(secs: i64) -> Seconds {
    Seconds::whole(secs)
}

#[test]
fn touch_idempotent() {
    let mut s = Store::new();
    s.touch("sid1", "/x", "/p");
    s.touch("sid1", "/y", "/q");
    let sess = s.sessions.get("sid1").unwrap();
    assert_eq!(sess.cwd, "/x"); // first wins
    assert_eq!(sess.file_path, "/p");
}

#[test]
fn snapshot_filters_empty_sessions() {
    let mut s = Store::new();
    s.touch("sid_empty", "/x", "/no.jsonl");
    // event_count is 0 → filtered out
    let snap = s.snapshot();
    assert!(snap.sessions.is_empty());
}

fn mk(status: &'static str, ts: i64) -> SessionSummary {
    SessionSummary {
        sid: status.into(),
        cwd: "".into(),
        status,
        last_event_ts: at(ts),
        last_user_input_ts: at(0),
        last_assistant_ts: at(0),
        last_stop_ts: at(0),
        last_stop_reason: "".into(),
        last_tool_name: "".into(),
        pending_tools: vec![],
        first_user_text: "".into(),
        last_assistant_text: "".into(),
        event_count: 1,
        todos: vec![],
        todos_source: "none",
    }
}

#[test]
fn sort_priority() {
    let mut list = vec![
        mk("idle", 400),
        mk("running", 300),
        mk("waiting_for_user", 200),
        mk("needs_permission", 100),
    ];
    list.sort_by(|a, b| sort_key(a).cmp(&sort_key(b)));
    let order: Vec<&str> = list.iter().map(|s| s.status).collect();
    assert_eq!(
        order,
        vec!["needs_permission", "waiting_for_user", "running", "idle"]
    );
}

#[test]
fn keys_of_the_order() {
    assert_eq!(sort_key(&mk("needs_permission", 5)), (0, 5000));
    assert_eq!(sort_key(&mk("waiting_for_user", 5)), (1, 5000));
    assert_eq!(sort_key(&mk("running", 5)), (2, -5000));
    assert_eq!(sort_key(&mk("idle", 5)), (3, -5000));
    assert_eq!(sort_key(&mk("what else", 5)), (99, -5000));
}

fn session(store: &mut Store, sid: &str, events: &[&str]) {
    store.touch(sid, "/w", "/f.jsonl");
    store.with_session_mut(sid, |s: &mut SessionState| {
        for e in events {
            apply_event(s, &parse_json(e).unwrap());
        }
    });
}

#[test]
fn snapshot_is_sorted_by_urgency() {
    let mut store = Store::new();
    session(&mut store, "idle_old", &[r#"{"type":"x","timestamp":100}"#]);
    session(&mut store, "idle_new", &[r#"{"type":"x","timestamp":200}"#]);
    session(
        &mut store,
        "wait_new",
        &[r#"{"type":"assistant","timestamp":900,"message":{"stop_reason":"end_turn"}}"#],
    );
    session(
        &mut store,
        "wait_old",
        &[r#"{"type":"assistant","timestamp":800,"message":{"stop_reason":"end_turn"}}"#],
    );
    session(&mut store, "perm", &[r#"{"type":"permission-mode","timestamp":990}"#]);
    session(&mut store, "run_old", &[r#"{"type":"x","timestamp":996}"#]);
    session(&mut store, "run_new", &[r#"{"type":"x","timestamp":999}"#]);
    store.touch("untold", "/w", "/f.jsonl");
    let snap = store.snapshot_at(at(1000));
    let order: Vec<&str> = snap.sessions.iter().map(|s| s.sid.as_str()).collect();
    assert_eq!(
        order,
        vec!["perm", "wait_old", "wait_new", "run_new", "run_old", "idle_new", "idle_old"]
    );
    assert_eq!(snap.now, at(1000));
    assert_eq!(store.all_summaries_at(at(1000)).len(), 8);
    assert_eq!(store.all_summaries().len(), 8);
}

#[test]
fn session_without_a_file_is_hidden() {
    let mut store = Store::new();
    store.mutate_or_create("ghost", |s: &mut SessionState| {
        apply_event(s, &parse_json(r#"{"type":"x","timestamp":1}"#).unwrap());
    });
    assert!(store.snapshot_at(at(2)).sessions.is_empty());
    store.touch("ghost", "", "/f");
    assert_eq!(store.snapshot_at(at(2)).sessions.len(), 1);
}

#[test]
fn changing_sessions() {
    let mut store = Store::new();
    assert!(store.with_session_mut("a", |s: &mut SessionState| s.event_count).is_none());
    assert!(store.sessions.is_empty());
    let n = store.mutate_or_create("a", |s: &mut SessionState| {
        s.event_count = 7;
        s.event_count
    });
    assert_eq!(n, 7);
    let m = store.with_session_mut("a", |s: &mut SessionState| {
        s.event_count += 1;
        s.event_count
    });
    assert_eq!(m, Some(8));
    assert_eq!(store.sessions.len(), 1);
    assert_eq!(store.event_count("a"), 8);
    assert_eq!(store.event_count("b"), 0);
}

#[test]
fn summaries_of_one_session() {
    let mut store = Store::new();
    session(&mut store, "a", &[r#"{"type":"x","timestamp":10}"#]);
    let s = store.session_summary_at("a", at(12)).unwrap();
    assert_eq!(s.sid, "a");
    assert_eq!(s.cwd, "/w");
    assert_eq!(s.status, "running");
    assert_eq!(s.event_count, 1);
    assert_eq!(s.todos_source, "none");
    assert_eq!(store.session_summary_at("a", at(20)).unwrap().status, "idle");
    assert_eq!(store.session_summary("a").unwrap().status, "idle");
    assert!(store.session_summary("b").is_none());
}

#[test]
fn events_of_one_session() {
    let mut store = Store::new();
    session(
        &mut store,
        "a",
        &[r#"{"type":"assistant","timestamp":10,"message":{"content":[
            {"type":"text","text":"- [x] one\n- [ ] two"},
            {"type":"tool_use","id":"t","name":"Bash"}]}}"#],
    );
    match store.publish_session_at("a", at(12)) {
        Some(Event::SessionUpdate(s)) => {
            assert_eq!(s.status, "running");
            assert_eq!(s.todos_source, "checklist");
            assert_eq!(s.pending_tools.len(), 1);
            assert_eq!(s.pending_tools[0].id, "t");
            assert_eq!(s.pending_tools[0].name, "Bash");
            assert_eq!(s.pending_tools[0].started_at, at(10));
        }
        other => panic!("{:?}", other),
    }
    match store.publish_task("a") {
        Some(Event::TaskUpdate { sid, todos }) => {
            assert_eq!(sid, "a");
            assert_eq!(todos.len(), 2);
            assert_eq!(todos[0].content, "one");
            assert_eq!(todos[0].status, "completed");
            assert_eq!(todos[1].content, "two");
            assert_eq!(todos[1].status, "pending");
        }
        other => panic!("{:?}", other),
    }
    assert!(store.publish_session("b").is_none());
    assert!(store.publish_task("b").is_none());
    assert_eq!(store.publish_session("a").unwrap().name(), "session_update");
    assert_eq!(store.publish_task("a").unwrap().name(), "task_update");
    assert_eq!(store.publish_heartbeat().name(), "heartbeat");
    for e in [
        store.publish_session_at("a", at(12)).unwrap(),
        store.publish_task("a").unwrap(),
        Store::publish_heartbeat_at(at(3)),
    ] {
        assert_eq!(format!("{:?}", e.clone()), format!("{:?}", e));
    }
    match Store::publish_heartbeat_at(at(3)) {
        Event::Heartbeat { ts } => assert_eq!(ts, at(3)),
        other => panic!("{:?}", other),
    }
}

fn card(content: &str) -> Todo {
    Todo {
        content: content.to_string(),
        status: "pending".to_string(),
        active_form: String::new(),
    }
}

#[test]
fn first_source_of_cards_wins() {
    let mut s = SessionState::new("a");
    assert_eq!(s.shown().1, "none");
    s.last_assistant_text = "- ✅ scraped".to_string();
    assert_eq!(s.shown().1, "checklist");
    assert_eq!(s.shown().0[0].content, "scraped");
    s.todos_from_jsonl = vec![card("written")];
    assert_eq!(s.shown().1, "jsonl");
    assert_eq!(s.shown().0[0].content, "written");
    s.todos = vec![card("filed")];
    assert_eq!(s.shown().1, "todo_file");
    assert_eq!(s.shown().0[0].content, "filed");
}

#[test]
fn texts_are_cut_at_the_limit() {
    let mut s = SessionState::new("a");
    s.first_user_text = "é".repeat(201);
    s.last_assistant_text = "x".repeat(200);
    let shown = s.summary_at(at(1));
    assert_eq!(shown.first_user_text, "é".repeat(200));
    assert_eq!(shown.last_assistant_text, "x".repeat(200));
    assert_eq!(truncate("abc", 2), "ab");
    assert_eq!(truncate("abc", 3), "abc");
    assert_eq!(truncate("", 0), "");
    assert_eq!(s.to_summary().sid, "a");
}

#[test]
fn keyed_values() {
    let mut m: Keyed<u32> = Keyed::new();
    assert!(m.is_empty());
    m.insert("a", 1);
    m.insert("b", 2);
    m.insert("a", 3);
    assert_eq!(m.len(), 2);
    assert_eq!(m.get("a"), Some(&3));
    assert_eq!(m.get("c"), None);
    assert_eq!(m.position("b"), Some(1));
    assert_eq!(m.entry(0), (&"a".to_string(), &3));
    assert_eq!(m.change("b", |v: &mut u32| { *v += 5; *v }), Some(7));
    assert_eq!(m.change("c", |v: &mut u32| { *v += 5; *v }), None);
    m.remove("a");
    m.remove("zz");
    assert_eq!(m.len(), 1);
    assert_eq!(m.get("b"), Some(&7));
}
