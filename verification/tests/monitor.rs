use std::path::PathBuf;

use session_kanban::follow::OffsetMap;
use session_kanban::json::parse_json;
use session_kanban::monitor::agent_of_program;
use session_kanban::monitor::decode_cwd;
use session_kanban::monitor::place;
use session_kanban::monitor::route;
use session_kanban::monitor::session_file_sid;
use session_kanban::monitor::todo_file_sid;
use session_kanban::monitor::todos_in_file;
use session_kanban::monitor::ConfigError;
use session_kanban::monitor::Monitor;
use session_kanban::monitor::MonitorConfig;
use session_kanban::monitor::Route;
use session_kanban::parser::any_in_progress;
use session_kanban::parser::now_secs;
use session_kanban::seconds::Elapsed;
use session_kanban::seconds::Seconds;
use session_kanban::seconds::SECOND;
use session_kanban::server::host_check;
use session_kanban::state::Event;
use session_kanban::state::Store;

const SID: &str = "00000000-0000-0000-0000-0000000000aa";
const ENCODED: &str = "-tmp-fake-project";

fn monitor() -> Monitor {
    let cfg = MonitorConfig {
        projects_root: PathBuf::from("/tmp/x/projects"),
        todos_root: PathBuf::from("/tmp/x/todos"),
        offsets_path: PathBuf::from("/tmp/x/offsets.json"),
        debounce: Elapsed::of_millis(50),
    };
    Monitor::new(Store::new(), cfg, OffsetMap::new())
}

fn iso(now: Seconds, back: i64) -> String {
    let ts = (now.ticks / SECOND) as i64 - back;
    let dt = time::OffsetDateTime::from_unix_timestamp(ts).unwrap();
    dt.format(&time::format_description::well_known::Rfc3339).unwrap()
}

#[test]
fn decode_cwd_basic() {
    assert_eq!(decode_cwd("-home-user-projects"), "/home/user/projects");
    assert_eq!(decode_cwd("-Users-alice-code"), "/Users/alice/code");
    assert_eq!(decode_cwd("plain"), "plain");
}

#[test]
fn decode_cwd_edges() {
    assert_eq!(decode_cwd(""), "");
    assert_eq!(decode_cwd("-"), "/");
    assert_eq!(decode_cwd("--a"), "//a");
    assert_eq!(decode_cwd("a-b"), "a-b");
    assert_eq!(decode_cwd("-é-b"), "/é/b");
}

// the scenarios of the running server, without sockets and files ---------

#[test]
fn snapshot_and_host_header() {
    let m = monitor();
    let port: u16 = 43210;
    // Bad host → 403
    let bad = host_check(Some("evil.example:8081"), port).unwrap();
    assert_eq!(bad.status, 403);
    // Good host → 200, JSON shape
    let ok = host_check(Some(&format!("127.0.0.1:{}", port)), port);
    assert!(ok.is_none());
    let headers = session_kanban::security::security_headers();
    assert!(
        headers.iter().any(|h| h.0 == "content-security-policy"),
        "CSP header must be present"
    );
    assert!(m.store.snapshot().sessions.is_empty());
}

#[test]
fn jsonl_picked_up_by_watcher() {
    let mut m = monitor();
    let now = now_secs();
    let name = format!("{SID}.jsonl");
    let (sid, cwd) = match route(ENCODED, &name, true, false) {
        Route::Session { sid, cwd } => (sid, cwd),
        other => panic!("{:?}", other),
    };
    assert_eq!(sid, SID);
    assert_eq!(cwd, "/tmp/fake/project");
    let path = format!("/tmp/x/projects/{ENCODED}/{name}");
    m.store.touch(&sid, &cwd, &path);

    // craft a `waiting_for_user` session: user → assistant with stop_reason
    let text = format!(
        "{}\n{}\n",
        format!(
            r#"{{"type":"user","timestamp":"{}","message":{{"content":[{{"type":"text","text":"ping"}}]}}}}"#,
            iso(now, 60)
        ),
        format!(
            r#"{{"type":"assistant","timestamp":"{}","message":{{"stop_reason":"end_turn","content":[{{"type":"text","text":"pong"}}]}}}}"#,
            iso(now, 30)
        ),
    );
    let bytes = text.as_bytes();
    let start = m.offsets.begin(&path, 9, bytes.len() as u64, false);
    assert_eq!(start, 0);
    let told = m.read_jsonl_at(&path, &sid, start, 9, bytes, true, now);
    match told {
        Some(Event::SessionUpdate(s)) => assert_eq!(s.status, "waiting_for_user"),
        other => panic!("{:?}", other),
    }
    let snap = m.store.snapshot();
    let s = snap.sessions.iter().find(|s| s.sid == SID).unwrap();
    assert_eq!(s.status, "waiting_for_user");
    assert_eq!(s.cwd, "/tmp/fake/project");
    assert_eq!(m.offsets.map.get(&path).unwrap().offset, bytes.len() as u64);
    assert_eq!(m.offsets.map.get(&path).unwrap().inode, 9);
}

#[test]
fn todo_file_updates_kanban() {
    let mut m = monitor();
    let now = now_secs();
    let path = format!("/tmp/x/projects/{ENCODED}/{SID}.jsonl");
    m.store.touch(SID, "/tmp/fake/project", &path);
    let line = format!(
        "{}\n",
        format!(
            r#"{{"type":"user","timestamp":"{}","message":{{"content":[{{"type":"text","text":"hi"}}]}}}}"#,
            iso(now, 5)
        )
    );
    let none = m.read_jsonl_at(&path, SID, 0, 1, line.as_bytes(), false, now);
    assert!(none.is_none());

    let sid = match route("todos", &format!("{SID}-agent-{SID}.json"), false, true) {
        Route::Todos { sid } => sid,
        other => panic!("{:?}", other),
    };
    let told = m.read_todo_at(
        &sid,
        r#"[{"content":"a","status":"pending","activeForm":"ing a"},{"content":"b","status":"in_progress","activeForm":"ing b"}]"#,
        true,
        now,
    );
    assert_eq!(told.len(), 2);
    assert_eq!(told[0].name(), "task_update");
    assert_eq!(told[1].name(), "session_update");
    let snap = m.store.snapshot();
    let s = snap.sessions.iter().find(|s| s.sid == SID).unwrap();
    assert_eq!(s.todos.len(), 2);
    assert_eq!(s.todos_source, "todo_file");
    assert_eq!(s.todos[1].active_form, "ing b");
    assert_eq!(s.status, "running");
}

// names -------------------------------------------------------------------

#[test]
fn routes() {
    let jsonl = format!("{SID}.jsonl");
    let todos = format!("{SID}-agent-{SID}.json");
    assert!(matches!(route("-a", &jsonl, true, false), Route::Session { .. }));
    assert!(matches!(route("-a", &jsonl, false, true), Route::Other));
    assert!(matches!(route("-a", &jsonl, false, false), Route::Other));
    assert!(matches!(route("todos", &todos, false, true), Route::Todos { .. }));
    assert!(matches!(route("todos", &todos, true, false), Route::Other));
    assert!(matches!(route("todos", "tmp.json", false, true), Route::Other));
    assert!(matches!(route("-a", "", true, true), Route::Other));
    match route("", &jsonl, true, false) {
        Route::Session { sid, cwd } => {
            assert_eq!(sid, SID);
            assert_eq!(cwd, "");
        }
        other => panic!("{:?}", other),
    }
}

#[test]
fn file_names_as_the_patterns_have_them() {
    let uuid_jsonl = regex::Regex::new(
        r"^[0-9a-f]{8}-[0-9a-f]{4}-[0-9a-f]{4}-[0-9a-f]{4}-[0-9a-f]{12}\.jsonl$",
    )
    .unwrap();
    let todo_file =
        regex::Regex::new(r"^([0-9a-f-]{36})-agent-([0-9a-f-]{36})\.json$").unwrap();
    let other = "01234567-89ab-cdef-0123-456789abcdef";
    let dashes = "-".repeat(36);
    let mut names: Vec<String> = vec![
        "".to_string(),
        "x".to_string(),
        format!("{SID}.jsonl"),
        format!("{other}.jsonl"),
        format!("{other}.jsonl\n"),
        format!("{other}.json"),
        format!("{other}.jsonl.jsonl"),
        format!(" {other}.jsonl"),
        format!("{}.jsonl", other.to_uppercase()),
        format!("{}.jsonl", other.replace('-', "_")),
        format!("{dashes}.jsonl"),
        format!("{SID}-agent-{SID}.json"),
        format!("{other}-agent-{other}.json"),
        format!("{other}-agent-{SID}.json"),
        format!("{dashes}-agent-{dashes}.json"),
        format!("{SID}-agent-{SID}.jsonl"),
        format!("{SID}-Agent-{SID}.json"),
        format!("{SID}-agent-{SID}.json "),
        format!("é{}", &format!("{other}.jsonl")[1..]),
    ];
    // every name with one character changed
    for base in [format!("{other}.jsonl"), format!("{other}-agent-{other}.json")] {
        for i in 0..base.len() {
            for c in ['-', 'g', 'A', '0', '.', 'f', 'l'] {
                let mut cs: Vec<char> = base.chars().collect();
                cs[i] = c;
                names.push(cs.iter().collect());
                cs.remove(i);
                names.push(cs.iter().collect());
            }
        }
    }
    for name in names {
        let wanted = if uuid_jsonl.is_match(&name) {
            Some(name.trim_end_matches(".jsonl").to_string())
        } else {
            None
        };
        assert_eq!(session_file_sid(&name), wanted, "{:?}", name);
        let wanted = todo_file.captures(&name).and_then(|caps| {
            if caps[1] == caps[2] {
                Some(caps[1].to_string())
            } else {
                None
            }
        });
        assert_eq!(todo_file_sid(&name), wanted, "{:?}", name);
    }
}

// where the files are -------------------------------------------------------

#[test]
fn files_at_home() {
    let home = PathBuf::from("/home/alice");
    let cfg = MonitorConfig::at_home(Some(home.clone()), None, "agent").unwrap();
    assert_eq!(cfg.projects_root, PathBuf::from("/home/alice/.agent/projects"));
    assert_eq!(cfg.todos_root, PathBuf::from("/home/alice/.agent/todos"));
    assert_eq!(cfg.offsets_path, PathBuf::from("/home/alice/.cache/agent-checker/offsets.json"));
    assert_eq!(cfg.debounce.nanos, 200_000_000);
    let cache = PathBuf::from("/var/cache");
    let cfg = MonitorConfig::at_home(Some(home), Some(cache), "agent").unwrap();
    assert_eq!(cfg.offsets_path, PathBuf::from("/var/cache/agent-checker/offsets.json"));
}

#[test]
fn files_nowhere() {
    assert_eq!(MonitorConfig::at_home(None, None, "agent").unwrap_err(), ConfigError::NoHome);
    let home = PathBuf::from("/home/alice");
    for bad in ["a/b", "a\\b", "c:", ".", "/"] {
        assert_eq!(
            MonitorConfig::at_home(Some(home.clone()), None, bad).unwrap_err(),
            ConfigError::BadAgent,
            "{}",
            bad
        );
    }
    // an empty name would leave a lone dot
    assert_eq!(MonitorConfig::at_home(Some(home), None, "").unwrap_err(), ConfigError::BadAgent);
}

#[test]
fn files_of_this_user() {
    match MonitorConfig::from_home("agent") {
        Ok(cfg) => {
            let own = ".agent";
            let cached = "agent-checker";
            let home = dirs::home_dir().unwrap();
            let cache = dirs::cache_dir().unwrap_or_else(|| home.join(".cache"));
            assert_eq!(cfg.projects_root, home.join(own).join("projects"));
            assert_eq!(cfg.todos_root, home.join(own).join("todos"));
            assert_eq!(cfg.offsets_path, cache.join(cached).join("offsets.json"));
        }
        Err(e) => {
            assert_eq!(e, ConfigError::NoHome);
            assert!(dirs::home_dir().is_none());
        }
    }
}

#[test]
fn places_of_directories() {
    let parts = |s: &str| s.split('/').map(|p| p.to_string()).collect::<Vec<String>>();
    let projects = parts("home/p");
    let todos = parts("home/t");
    assert_eq!(place(&parts("home/p"), &projects, &todos), (true, false));
    assert_eq!(place(&parts("home/p/a/b"), &projects, &todos), (true, false));
    assert_eq!(place(&parts("home/t"), &projects, &todos), (false, true));
    assert_eq!(place(&parts("home/t/a"), &projects, &todos), (false, false));
    assert_eq!(place(&parts("home/pp"), &projects, &todos), (false, false));
    assert_eq!(place(&parts("home"), &projects, &todos), (false, false));
    assert_eq!(place(&vec![], &projects, &todos), (false, false));
    assert_eq!(place(&parts("x"), &vec![], &parts("x")), (true, true));
}

#[test]
fn configurations_are_copied() {
    let cfg = monitor().cfg;
    let copy = cfg.clone();
    assert_eq!(copy.projects_root, cfg.projects_root);
    assert_eq!(copy.todos_root, cfg.todos_root);
    assert_eq!(copy.offsets_path, cfg.offsets_path);
    assert_eq!(copy.debounce, cfg.debounce);
}

#[test]
fn programs_named_for_an_agent() {
    assert_eq!(agent_of_program("agent-checker"), Some("agent".to_string()));
    assert_eq!(agent_of_program("a-checker-checker"), Some("a-checker".to_string()));
    assert_eq!(agent_of_program("-checker"), Some("".to_string()));
    assert_eq!(agent_of_program("checker"), None);
    assert_eq!(agent_of_program("agent-checkers"), None);
    assert_eq!(agent_of_program(""), None);
    assert_eq!(MonitorConfig::from_home("a/b").unwrap_err(), ConfigError::BadAgent);
}

// todo files ----------------------------------------------------------------

#[test]
fn todo_files_that_are_no_lists() {
    let mut m = monitor();
    for text in ["", "{}", "nonsense", "\"a\"", "[1,", "null"] {
        assert!(m.read_todo_at(SID, text, true, Seconds::whole(1)).is_empty());
    }
    assert!(m.store.sessions.is_empty());
    assert!(todos_in_file(None).is_none());
    assert!(todos_in_file(parse_json("{}")).is_none());
    assert_eq!(todos_in_file(parse_json("[]")).unwrap().len(), 0);
    assert_eq!(todos_in_file(parse_json("[{},1,[],{}]")).unwrap().len(), 2);
}

#[test]
fn todo_file_sets_and_clears_the_task() {
    let mut m = monitor();
    let busy = r#"[{"content":"b","status":"in_progress"}]"#;
    assert!(m.read_todo_at(SID, busy, false, Seconds::whole(1)).is_empty());
    assert!(m.store.sessions.get(SID).unwrap().has_active_subagent_task);
    assert!(any_in_progress(&m.store.sessions.get(SID).unwrap().todos));
    let done = r#"[{"content":"b","status":"completed"}]"#;
    assert_eq!(m.read_todo_at(SID, done, true, Seconds::whole(1)).len(), 2);
    assert!(!m.store.sessions.get(SID).unwrap().has_active_subagent_task);
    assert!(!any_in_progress(&m.store.sessions.get(SID).unwrap().todos));
    // an empty list leaves no cards
    assert_eq!(m.read_todo_at(SID, "[]", true, Seconds::whole(1)).len(), 2);
    assert!(m.store.sessions.get(SID).unwrap().todos.is_empty());
}

#[test]
fn streams_and_todo_files_do_not_mix() {
    let mut m = monitor();
    let now = Seconds::whole(100);
    m.store.touch(SID, "/w", "/f");
    m.read_todo_at(SID, r#"[{"content":"filed"}]"#, false, now);
    let wrote = concat_lines(&[
        r#"{"type":"assistant","timestamp":90,"message":{"content":[{"type":"tool_use","id":"t","name":"TodoWrite","input":{"todos":[{"content":"written"}]}}]}}"#,
    ]);
    m.read_jsonl_at("/f", SID, 0, 1, wrote.as_bytes(), false, now);
    let s = m.store.sessions.get(SID).unwrap();
    assert_eq!(s.todos[0].content, "filed");
    assert_eq!(s.todos_from_jsonl[0].content, "written");
    assert_eq!(s.event_count, 1);
    m.read_todo_at(SID, "[]", false, now);
    let s = m.store.sessions.get(SID).unwrap();
    assert_eq!(s.todos_from_jsonl[0].content, "written");
    assert_eq!(s.shown().1, "jsonl");
    assert_eq!(s.event_count, 1);
}

fn concat_lines(lines: &[&str]) -> String {
    lines.iter().map(|l| format!("{l}\n")).collect()
}

#[test]
fn sessions_stay_filed_by_their_ids() {
    let mut m = monitor();
    let now = Seconds::whole(100);
    m.store.touch("a", "/w", "/f");
    m.read_todo_at("b", "[]", false, now);
    m.read_jsonl_at("/g", "c", 0, 1, b"{\"sid\":\"x\",\"timestamp\":1}\n", false, now);
    m.read_jsonl_at("/g", "a", 0, 1, b"{\"sid\":\"x\",\"timestamp\":1}\n", false, now);
    for sid in ["a", "b", "c"] {
        assert_eq!(m.store.sessions.get(sid).unwrap().sid, sid);
    }
    let mut sids: Vec<String> =
        m.store.all_summaries_at(now).into_iter().map(|s| s.sid).collect();
    sids.sort();
    assert_eq!(sids, vec!["a", "b", "c"]);
}
