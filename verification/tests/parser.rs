use session_kanban::json::parse_json;
use session_kanban::json::Json;
use session_kanban::parser::apply_event;
use session_kanban::parser::classify;
use session_kanban::parser::now_secs;
use session_kanban::parser::parse_checklist;
use session_kanban::parser::parse_jsonl_lines;
use session_kanban::parser::parse_ts;
use session_kanban::parser::Defaults;
use session_kanban::parser::PendingTool;
use session_kanban::parser::SessionState;
use session_kanban::parser::Todo;
use session_kanban::seconds::seconds_of_clock;
use session_kanban::seconds::seconds_of_double;
use session_kanban::seconds::seconds_of_instant;
use session_kanban::seconds::Seconds;
use session_kanban::seconds::SECOND;

fn iso(now: Seconds, back: i64) -> String {
    let ts = (now.ticks / SECOND) as i64 - back;
    let dt = time::OffsetDateTime::from_unix_timestamp(ts).unwrap();
    dt.format(&time::format_description::well_known::Rfc3339).unwrap()
}

fn make() -> SessionState {
    SessionState::new("00000000-0000-0000-0000-000000000001")
}

fn event(text: &str) -> Json {
    parse_json(text).unwrap()
}

#[test]
fn running_when_pending_tool_use() {
    let now = now_secs();
    let mut s = make();
    let ev = event(&format!(
        r#"{{"type":"assistant","timestamp":"{}","message":{{"content":[{{"type":"tool_use","id":"t1","name":"Bash"}}]}}}}"#,
        iso(now, 1)
    ));
    apply_event(&mut s, &ev);
    assert_eq!(classify(&s, now, Defaults::default()), "running");
    assert_eq!(s.last_tool_name, "Bash");
}

#[test]
fn waiting_for_user_after_stop_reason() {
    let now = now_secs();
    let mut s = make();
    let user = event(&format!(
        r#"{{"type":"user","timestamp":"{}","message":{{"content":[{{"type":"text","text":"hi"}}]}}}}"#,
        iso(now, 60)
    ));
    apply_event(&mut s, &user);
    let asst = event(&format!(
        r#"{{"type":"assistant","timestamp":"{}","message":{{"stop_reason":"end_turn","content":[{{"type":"text","text":"hello"}}]}}}}"#,
        iso(now, 30)
    ));
    apply_event(&mut s, &asst);
    assert_eq!(classify(&s, now, Defaults::default()), "waiting_for_user");
    assert_eq!(s.first_user_text, "hi");
    assert_eq!(s.last_assistant_text, "hello");
    assert_eq!(s.last_stop_reason, "end_turn");
}

#[test]
fn idle_when_long_inactive() {
    let now = now_secs();
    let mut s = make();
    let ev = event(&format!(
        r#"{{"type":"user","timestamp":"{}","message":{{"content":[{{"type":"text","text":"old"}}]}}}}"#,
        iso(now, 7 * 3600)
    ));
    apply_event(&mut s, &ev);
    assert_eq!(classify(&s, now, Defaults::default()), "idle");
}

#[test]
fn needs_permission_when_tool_stuck_long() {
    let now = now_secs();
    let mut s = make();
    let ev = event(&format!(
        r#"{{"type":"assistant","timestamp":"{}","message":{{"content":[{{"type":"tool_use","id":"t1","name":"Bash"}}]}}}}"#,
        iso(now, 180)
    ));
    apply_event(&mut s, &ev);
    assert_eq!(classify(&s, now, Defaults::default()), "needs_permission");
}

#[test]
fn needs_permission_after_explicit_event() {
    let now = now_secs();
    let mut s = make();
    let ev = event(&format!(r#"{{"type":"permission-mode","timestamp":"{}"}}"#, iso(now, 5)));
    apply_event(&mut s, &ev);
    assert_eq!(classify(&s, now, Defaults::default()), "needs_permission");
}

#[test]
fn priority_perm_beats_running() {
    let now = now_secs();
    let mut s = make();
    let ev = event(&format!(
        r#"{{"type":"assistant","timestamp":"{}","message":{{"content":[{{"type":"tool_use","id":"t1","name":"X"}}]}}}}"#,
        iso(now, 1)
    ));
    apply_event(&mut s, &ev);
    let perm = event(&format!(r#"{{"type":"permission-mode","timestamp":"{}"}}"#, iso(now, 2)));
    apply_event(&mut s, &perm);
    assert_eq!(classify(&s, now, Defaults::default()), "needs_permission");
}

#[test]
fn parse_jsonl_skips_garbage() {
    let mut s = make();
    let lines = vec![
        "".to_string(),
        "not json".to_string(),
        format!(r#"{{"type":"assistant","timestamp":"{}","message":{{}}}}"#, iso(now_secs(), 0)),
    ];
    parse_jsonl_lines(lines, &mut s);
    assert_eq!(s.event_count, 1);
}

// checklist scraper -----------------------------------------------------

fn by_status(todos: &[Todo]) -> (Vec<&str>, Vec<&str>, Vec<&str>) {
    let mut done = vec![];
    let mut prog = vec![];
    let mut pend = vec![];
    for t in todos {
        match t.status.as_str() {
            "completed" => done.push(t.content.as_str()),
            "in_progress" => prog.push(t.content.as_str()),
            "pending" => pend.push(t.content.as_str()),
            _ => {}
        }
    }
    (pend, prog, done)
}

#[test]
fn money_printer_real_pattern() {
    let text = "INFJ 完了、ENFJ 開始 (02:57:54)。\n\n\
                - ✅ INFP, ENFP, INFJ (3/15)\n\
                - 🔄 ENFJ (4/15)\n\
                - ペース安定 (~13分/タイプ)、完了見込み 5:00〜5:15\n";
    let todos = parse_checklist(text);
    let (pend, prog, done) = by_status(&todos);
    assert_eq!(done, vec!["INFP", "ENFP", "INFJ"]);
    assert!(prog.iter().any(|c| c.contains("ENFJ")));
    assert!(pend.is_empty());
}

#[test]
fn brackets_pattern() {
    let text = "- [x] task A\n- [ ] task B\n- [X] task C\n";
    let todos = parse_checklist(text);
    let (pend, prog, done) = by_status(&todos);
    assert_eq!(done, vec!["task A", "task C"]);
    assert_eq!(pend, vec!["task B"]);
    assert!(prog.is_empty());
}

#[test]
fn empty_text_returns_empty() {
    assert!(parse_checklist("").is_empty());
}

#[test]
fn no_markers_returns_empty() {
    assert!(parse_checklist("Just a paragraph with no checklist.").is_empty());
}

#[test]
fn in_progress_emojis() {
    let text = "- 🔄 building\n- ⏳ waiting for review\n- 🚧 deploying\n";
    let todos = parse_checklist(text);
    assert!(todos.iter().all(|t| t.status == "in_progress"));
    let names: Vec<&str> = todos.iter().map(|t| t.content.as_str()).collect();
    assert_eq!(names, vec!["building", "waiting for review", "deploying"]);
}

#[test]
fn failed_marker_stays_pending() {
    let text = "- ❌ broken thing\n- ✅ fixed thing\n";
    let todos = parse_checklist(text);
    let (pend, _prog, done) = by_status(&todos);
    assert_eq!(pend, vec!["broken thing"]);
    assert_eq!(done, vec!["fixed thing"]);
}

#[test]
fn completed_with_sentence_does_not_split() {
    let text = "- ✅ INFP, ENFP のテスト完了。次は INFJ。\n";
    let todos = parse_checklist(text);
    assert_eq!(todos.len(), 1);
    assert!(todos[0].content.contains("INFP"));
}

#[test]
fn summary_paren_count_stripped() {
    let text = "- ✅ A, B, C (3/15)\n";
    let todos = parse_checklist(text);
    let names: Vec<&str> = todos.iter().map(|t| t.content.as_str()).collect();
    assert_eq!(names, vec!["A", "B", "C"]);
}

#[test]
fn in_progress_not_split() {
    let text = "- 🔄 step1, step2 (running)\n";
    let todos = parse_checklist(text);
    assert_eq!(todos.len(), 1);
    assert_eq!(todos[0].status, "in_progress");
}

// times -----------------------------------------------------------------

/// The ticks in a number of seconds; exact, since there is a power of two of them in one.
fn ticks(secs: f64) -> i128 {
    (secs * 9223372036854775808.0) as i128
}

/// Numbers of all sizes that occur as times, and others.
fn numbers() -> Vec<f64> {
    let mut out: Vec<f64> = vec![
        0.0, 1.0, -1.0, 0.1, 0.3, 5.0, 1000.1, 1060.1, 21600.3, 123456.789, 1e9, 1.7e9, -3.25e5,
        1700000000.123, 1700000000.125, 1700000059.9999998, 1700000060.123, 1.7e12, 9007199254740993.0,
        9.3e15, -9.3e15, 1.7e18,
    ];
    let mut x: u64 = 88172645463325252;
    for i in 0..600u64 {
        x ^= x << 13;
        x ^= x >> 7;
        x ^= x << 17;
        let fraction = (x >> 11) as f64 / 9007199254740992.0;
        let scale = 2f64.powi((i % 64) as i32 - 8);
        out.push((1.0 + fraction) * scale);
        out.push(1700000000.0 + fraction * 30000.0);
        out.push(1700000000.0 + ((x >> 20) % 30000000) as f64 / 1000.0);
    }
    out
}

fn held(v: f64) -> Seconds {
    seconds_of_double(v.to_bits()).unwrap()
}

#[test]
fn timestamps_as_numbers() {
    assert_eq!(parse_ts(&event("12")).unwrap().ticks, ticks(12.0));
    assert_eq!(parse_ts(&event("1.5")).unwrap().ticks, ticks(1.5));
    assert_eq!(parse_ts(&event("-2.25")).unwrap().ticks, ticks(-2.25));
    assert_eq!(parse_ts(&event("1700000000.123")).unwrap().ticks, ticks(1700000000.123));
    // what is not zero stays apart from it
    assert_eq!(parse_ts(&event("1e-30")).unwrap().ticks, 1);
    assert_eq!(parse_ts(&event("-1e-30")).unwrap().ticks, -1);
    assert_eq!(parse_ts(&event("0.0")).unwrap().ticks, 0);
    assert_eq!(parse_ts(&event("-0.0")).unwrap().ticks, 0);
}

#[test]
fn timestamps_as_texts() {
    let t = parse_ts(&event(r#""1970-01-01T00:00:01.25Z""#)).unwrap();
    assert_eq!(t.ticks, ticks(1.25));
    let t = parse_ts(&event(r#""2023-11-14T22:13:20+00:00""#)).unwrap();
    assert_eq!(t.ticks, ticks(1700000000.0));
    let t = parse_ts(&event(r#""2023-11-14T23:13:20+01:00""#)).unwrap();
    assert_eq!(t.ticks, ticks(1700000000.0));
    let t = parse_ts(&event(r#""1969-12-31T23:59:59.5Z""#)).unwrap();
    assert_eq!(t.ticks, ticks(-0.5));
    let t = parse_ts(&event(r#""2023-11-14T22:13:20.123Z""#)).unwrap();
    assert_eq!(t.ticks, ticks(1700000000.123));
    assert_eq!(t.millis(), 1700000000123);
}

#[test]
fn what_is_no_timestamp() {
    assert!(parse_ts(&event(r#""yesterday""#)).is_none());
    assert!(parse_ts(&event("null")).is_none());
    assert!(parse_ts(&event("true")).is_none());
    assert!(parse_ts(&event("[1]")).is_none());
    assert!(parse_ts(&event("{}")).is_none());
}

#[test]
fn doubles_keep_their_value() {
    for v in numbers() {
        assert_eq!(held(v).ticks, ticks(v), "{}", v);
        assert_eq!(held(-v).ticks, -ticks(v), "{}", v);
    }
    // a power of two is held down to the last tick, other small numbers without their fraction
    assert_eq!(held(2f64.powi(-40)).ticks, 1 << 23);
    assert_eq!(held(2f64.powi(-63)).ticks, 1);
    assert_eq!(held(1e-9).ticks, 9223372036);
    assert_eq!(held(5e-324).ticks, 1);
    assert_eq!(held(f64::MAX).ticks, i128::MAX);
    assert_eq!(held(-f64::MAX).ticks, -i128::MAX);
    assert!(seconds_of_double(f64::INFINITY.to_bits()).is_none());
    assert!(seconds_of_double(f64::NEG_INFINITY.to_bits()).is_none());
    assert!(seconds_of_double(f64::NAN.to_bits()).is_none());
}

#[test]
fn ages_are_those_of_doubles() {
    let all = numbers();
    for (i, start) in all.iter().enumerate() {
        for now in all.iter().skip(i % 7).step_by(7) {
            for limit in [5.0, 30.0, 60.0, 1800.0, 21600.0, now - start] {
                let age: f64 = now - start;
                assert_eq!(held(*now).is_past(held(*start), held(limit)), age > limit);
                assert_eq!(held(*now).is_within(held(*start), held(limit)), age < limit);
            }
        }
    }
}

#[test]
fn milliseconds_are_those_of_doubles() {
    for v in numbers() {
        for w in [v, -v] {
            let wanted = std::cmp::max((w * 1000.0) as i64, -i64::MAX);
            assert_eq!(held(w).millis(), wanted, "{}", w);
        }
    }
    assert_eq!(held(1700000000.123).millis(), 1700000000123);
    let of = |ticks: i128| Seconds { ticks }.millis();
    assert_eq!(of(0), 0);
    assert_eq!(of(i128::MAX), i64::MAX);
    assert_eq!(of(i128::MIN), -i64::MAX);
}

#[test]
fn instants_are_those_of_doubles() {
    for secs in [0i64, 1, -1, 59, 1700000000, 1763300000, -62135596800, 253402300799] {
        for nanos in [0u32, 1, 7, 1000000, 123000000, 123456789, 122999999, 500000000, 999999999] {
            let wanted = secs as f64 + nanos as f64 / 1e9;
            let s = seconds_of_instant((secs, nanos));
            // below a millisecond a double has digits that are smaller than a tick
            if secs != 0 || nanos == 0 || nanos >= 1000000 {
                assert_eq!(s.ticks, ticks(wanted), "{} {}", secs, nanos);
            }
            if secs >= 0 {
                let d = std::time::Duration::new(secs as u64, nanos);
                let c = seconds_of_clock(Some((secs as u64, nanos)));
                assert_eq!(c, s);
                if secs != 0 {
                    assert_eq!(c.ticks, ticks(d.as_secs_f64()));
                }
            }
        }
    }
}

#[test]
fn the_clock_is_never_before_the_epoch() {
    assert_eq!(seconds_of_clock(None).ticks, 0);
    assert_eq!(seconds_of_clock(Some((7, 0))).ticks, ticks(7.0));
    assert_eq!(seconds_of_clock(Some((u64::MAX, 0))).ticks, i128::MAX);
    assert!(now_secs().ticks > ticks(1600000000.0));
    let a = now_secs();
    let b = now_secs();
    assert!(a.ticks <= b.ticks + SECOND);
}

// events ----------------------------------------------------------------

#[test]
fn untimed_events_only_count() {
    let mut s = make();
    apply_event(&mut s, &event(r#"{"type":"user","message":{"content":"hello"}}"#));
    apply_event(&mut s, &event(r#"{"type":"user","timestamp":"?","message":{"content":"x"}}"#));
    apply_event(&mut s, &event("[1,2]"));
    apply_event(&mut s, &event("17"));
    assert_eq!(s.event_count, 4);
    assert_eq!(s.last_event_ts.ticks, 0);
    assert_eq!(s.first_user_text, "");
    assert_eq!(classify(&s, now_secs(), Defaults::default()), "idle");
}

#[test]
fn result_resolves_the_call() {
    let mut s = make();
    let call = r#"{"type":"assistant","timestamp":100,"message":{"content":[
        {"type":"tool_use","id":"a","name":"Read"},
        {"type":"tool_use","id":"b","name":"Write"},
        {"type":"tool_use","id":"","name":"Nameless"}]}}"#;
    apply_event(&mut s, &event(call));
    assert_eq!(s.pending_tools.len(), 2);
    assert_eq!(s.last_tool_name, "Write");
    assert_eq!(s.pending_tools.get("a").unwrap().started_at.ticks, ticks(100.0));
    let result = r#"{"type":"user","timestamp":101,"message":{"content":[
        {"type":"tool_result","tool_use_id":"a"},{"type":"tool_result"}]}}"#;
    apply_event(&mut s, &event(result));
    assert_eq!(s.pending_tools.len(), 1);
    assert!(s.pending_tools.get("a").is_none());
    assert_eq!(s.pending_tools.get("b").unwrap().name, "Write");
    // the result of a tool is no input of the user
    assert_eq!(s.last_user_input_ts.ticks, 0);
    assert_eq!(s.last_event_ts.ticks, ticks(101.0));
    // the same id again replaces the call
    let again = r#"{"type":"assistant","timestamp":107,"message":{"content":[
        {"type":"tool_use","id":"b","name":"Edit"}]}}"#;
    apply_event(&mut s, &event(again));
    assert_eq!(s.pending_tools.len(), 1);
    assert_eq!(s.pending_tools.get("b").unwrap().name, "Edit");
    assert_eq!(s.pending_tools.get("b").unwrap().started_at.ticks, ticks(107.0));
}

#[test]
fn first_text_of_the_user_stays() {
    let mut s = make();
    apply_event(&mut s, &event(r#"{"type":"user","timestamp":1,"message":{"content":"one"}}"#));
    apply_event(&mut s, &event(r#"{"type":"user","timestamp":2,"message":{"content":"two"}}"#));
    let list = r#"{"type":"user","timestamp":3,"message":{"content":[{"type":"text","text":"three"}]}}"#;
    apply_event(&mut s, &event(list));
    assert_eq!(s.first_user_text, "one");
    assert_eq!(s.last_user_input_ts.ticks, ticks(3.0));
}

#[test]
fn last_text_of_the_assistant_counts() {
    let mut s = make();
    let said = r#"{"type":"assistant","timestamp":4,"message":{"content":[
        {"type":"text","text":"first"},{"type":"text","text":""},{"type":"text","text":"last"},
        {"type":"thinking","text":"hidden"},{"type":"text"}]}}"#;
    apply_event(&mut s, &event(said));
    assert_eq!(s.last_assistant_text, "last");
    assert_eq!(s.last_assistant_ts.ticks, ticks(4.0));
    assert_eq!(s.last_stop_ts.ticks, 0);
}

#[test]
fn written_cards_are_captured() {
    let mut s = make();
    let wrote = r#"{"type":"assistant","timestamp":5,"message":{"content":[
        {"type":"tool_use","id":"t","name":"TodoWrite","input":{"todos":[
            {"content":"a","status":"completed","activeForm":"doing a"},
            "no card",
            {"status":7}]}}]}}"#;
    apply_event(&mut s, &event(wrote));
    assert_eq!(s.todos_from_jsonl.len(), 2);
    assert_eq!(s.todos_from_jsonl[0].content, "a");
    assert_eq!(s.todos_from_jsonl[0].status, "completed");
    assert_eq!(s.todos_from_jsonl[0].active_form, "doing a");
    assert_eq!(s.todos_from_jsonl[1].content, "");
    assert_eq!(s.todos_from_jsonl[1].status, "pending");
    assert_eq!(s.todos_from_jsonl[1].active_form, "");
    assert!(s.todos.is_empty());
    assert!(!s.has_active_subagent_task);
    // a later call replaces them, one without a list does not
    let none = r#"{"type":"assistant","timestamp":6,"message":{"content":[
        {"type":"tool_use","id":"u","name":"TodoWrite","input":{}}]}}"#;
    apply_event(&mut s, &event(none));
    assert_eq!(s.todos_from_jsonl.len(), 2);
    let empty = r#"{"type":"assistant","timestamp":7,"message":{"content":[
        {"type":"tool_use","id":"v","name":"TodoWrite","input":{"todos":[]}}]}}"#;
    apply_event(&mut s, &event(empty));
    assert!(s.todos_from_jsonl.is_empty());
}

#[test]
fn events_keep_what_is_not_theirs() {
    let mut s = make();
    s.cwd = "/home".to_string();
    s.file_path = "/f".to_string();
    s.has_active_subagent_task = true;
    for text in [
        r#"{"type":"user","timestamp":1,"message":{"content":"x"}}"#,
        r#"{"type":"assistant","timestamp":2,"message":{"stop_reason":"end_turn"}}"#,
        r#"{"type":"permission-mode","timestamp":3}"#,
        r#"{"type":"summary","timestamp":4}"#,
        r#"{"timestamp":5}"#,
    ] {
        apply_event(&mut s, &event(text));
    }
    assert_eq!(s.sid, "00000000-0000-0000-0000-000000000001");
    assert_eq!(s.cwd, "/home");
    assert_eq!(s.file_path, "/f");
    assert!(s.has_active_subagent_task);
    assert!(s.todos.is_empty());
    assert_eq!(s.event_count, 5);
    assert_eq!(s.last_event_ts.ticks, ticks(5.0));
    assert_eq!(s.last_permission_event_ts.ticks, ticks(3.0));
    assert_eq!(s.last_stop_ts.ticks, ticks(2.0));
}

#[test]
fn lines_in_two_goes() {
    let lines: Vec<String> = vec![
        r#"{"type":"user","timestamp":1,"message":{"content":"x"}}"#.to_string(),
        "   ".to_string(),
        r#"  {"type":"assistant","timestamp":2,"message":{"stop_reason":"end_turn"}}  "#.to_string(),
        "{".to_string(),
    ];
    let mut whole = make();
    parse_jsonl_lines(lines.clone(), &mut whole);
    let mut pieces = make();
    parse_jsonl_lines(lines[..2].to_vec(), &mut pieces);
    parse_jsonl_lines(lines[2..].to_vec(), &mut pieces);
    assert_eq!(format!("{:?}", whole), format!("{:?}", pieces));
    assert_eq!(whole.event_count, 2);
}

// statuses --------------------------------------------------------------

fn at(secs: i64) -> Seconds {
    Seconds::whole(secs)
}

fn status(s: &SessionState, now: i64) -> &'static str {
    classify(s, at(now), Defaults::default())
}

#[test]
fn default_periods() {
    let d = Defaults::default();
    assert_eq!(d.perm_window, at(30));
    assert_eq!(d.stuck_threshold, at(60));
    assert_eq!(d.stuck_max, at(1800));
    assert_eq!(d.idle_threshold, at(21600));
}

#[test]
fn new_session_is_idle() {
    assert_eq!(status(&make(), 1_000_000), "idle");
    assert_eq!(status(&make(), 0), "idle");
}

#[test]
fn silence_beats_everything() {
    let mut s = make();
    s.last_event_ts = at(1000);
    s.has_active_subagent_task = true;
    assert_eq!(status(&s, 1000 + 21599), "running");
    assert_eq!(status(&s, 1000 + 21600), "idle");
    s.last_permission_event_ts = at(1000 + 21599);
    assert_eq!(status(&s, 1000 + 21600), "idle");
}

#[test]
fn permission_lasts_half_a_minute() {
    let mut s = make();
    apply_event(&mut s, &event(r#"{"type":"permission-mode","timestamp":1000}"#));
    s.last_stop_ts = at(900);
    assert_eq!(status(&s, 1029), "needs_permission");
    assert_eq!(status(&s, 1030), "waiting_for_user");
}

#[test]
fn tool_goes_from_running_to_stuck_to_abandoned() {
    let mut s = make();
    let call = r#"{"type":"assistant","timestamp":1000,"message":{"content":[
        {"type":"tool_use","id":"a","name":"Read"}]}}"#;
    apply_event(&mut s, &event(call));
    assert_eq!(status(&s, 1060), "running");
    assert_eq!(status(&s, 1061), "needs_permission");
    assert_eq!(status(&s, 2800), "needs_permission");
    assert_eq!(status(&s, 2801), "idle");
    // an abandoned call does not hide a younger one
    let young = r#"{"type":"assistant","timestamp":2800,"message":{"content":[
        {"type":"tool_use","id":"b","name":"Read"}]}}"#;
    apply_event(&mut s, &event(young));
    assert_eq!(status(&s, 2800), "needs_permission");
    assert_eq!(status(&s, 2801), "running");
    assert_eq!(status(&s, 2860), "running");
    assert_eq!(status(&s, 2861), "needs_permission");
    assert_eq!(status(&s, 4600), "needs_permission");
    assert_eq!(status(&s, 4601), "idle");
    // without the abandoned call it is the same
    s.pending_tools.remove("a");
    assert_eq!(status(&s, 2801), "running");
    assert_eq!(status(&s, 2861), "needs_permission");
}

#[test]
fn abandoned_tool_beside_a_young_one() {
    let mut s = SessionState::new("s");
    s.last_event_ts = at(9990);
    s.pending_tools.insert("old", PendingTool { name: "A".to_string(), started_at: at(5000) });
    s.pending_tools.insert("new", PendingTool { name: "B".to_string(), started_at: at(9990) });
    assert_eq!(status(&s, 10000), "running");
}

#[test]
fn written_card_in_progress_runs() {
    let mut s = SessionState::new("s");
    let wrote = r#"{"type":"assistant","timestamp":1000,"message":{"content":[
        {"type":"tool_use","id":"t1","name":"TodoWrite","input":{"todos":[
            {"content":"a","status":"in_progress"}]}}]}}"#;
    apply_event(&mut s, &event(wrote));
    let result = r#"{"type":"user","timestamp":1001,"message":{"content":[
        {"type":"tool_result","tool_use_id":"t1"}]}}"#;
    apply_event(&mut s, &event(result));
    assert!(s.has_active_subagent_task);
    assert_eq!(status(&s, 1020), "running");
    // an event in which no cards are written changes nothing of that
    let other = r#"{"type":"assistant","timestamp":1021,"message":{"stop_reason":"end_turn","content":[
        {"type":"tool_use","id":"t2","name":"TodoWrite"},
        {"type":"tool_use","id":"t3","name":"Bash","input":{"todos":[]}}]}}"#;
    apply_event(&mut s, &event(other));
    assert!(s.has_active_subagent_task);
    // of several lists the last one counts
    let done = r#"{"type":"assistant","timestamp":1030,"message":{"content":[
        {"type":"tool_use","id":"t4","name":"TodoWrite","input":{"todos":[{"status":"in_progress"}]}},
        {"type":"tool_use","id":"t5","name":"TodoWrite","input":{"todos":[{"status":"completed"}]}}]}}"#;
    apply_event(&mut s, &event(done));
    assert!(!s.has_active_subagent_task);
    assert_eq!(s.todos_from_jsonl[0].status, "completed");
}

#[test]
fn activity_counts_for_five_seconds() {
    let mut s = make();
    apply_event(&mut s, &event(r#"{"type":"user","timestamp":1000,"message":{"content":"x"}}"#));
    assert_eq!(status(&s, 1004), "running");
    assert_eq!(status(&s, 1005), "idle");
    s.last_stop_ts = at(1);
    assert_eq!(status(&s, 1004), "idle");
}

#[test]
fn the_smallest_time_is_a_time() {
    let mut s = make();
    // two to the power of minus forty
    apply_event(&mut s, &event(r#"{"type":"x","timestamp":9.094947017729282e-13}"#));
    assert_eq!(status(&s, 1), "running");
    assert_eq!(status(&s, 5), "running");
    assert_eq!(status(&s, 6), "idle");
    let mut never = make();
    apply_event(&mut never, &event(r#"{"type":"x","timestamp":0}"#));
    assert_eq!(status(&never, 1), "idle");
}

#[test]
fn a_written_list_does_not_overrule_the_todo_file() {
    let mut s = make();
    s.todos = vec![Todo { status: "in_progress".to_string(), ..Todo::default() }];
    s.has_active_subagent_task = true;
    let done = r#"{"type":"assistant","timestamp":1030,"message":{"content":[
        {"type":"tool_use","id":"t","name":"TodoWrite","input":{"todos":[{"status":"completed"}]}}]}}"#;
    apply_event(&mut s, &event(done));
    assert!(s.has_active_subagent_task);
    assert_eq!(s.shown().1, "todo_file");
    s.todos = vec![];
    apply_event(&mut s, &event(done));
    assert!(!s.has_active_subagent_task);
}

#[test]
fn copies_and_defaults() {
    let mut s = make();
    apply_event(&mut s, &event(r#"{"type":"assistant","timestamp":7,"message":{"content":[
        {"type":"tool_use","id":"t","name":"TodoWrite","input":{"todos":[{"content":"c"}]}}]}}"#));
    assert_eq!(format!("{:?}", s.clone()), format!("{:?}", s));
    let shown = s.summary_at(at(8));
    assert_eq!(format!("{:?}", shown.clone()), format!("{:?}", shown));
    assert_eq!(format!("{:?}", SessionState::default()), format!("{:?}", SessionState::new("")));
    let tool = PendingTool::default();
    assert_eq!(tool.name, "");
    assert_eq!(tool.started_at.ticks, 0);
    assert_eq!(Todo::default().status, "");
}

#[test]
fn a_reply_ends_the_waiting() {
    let mut s = make();
    let stop = r#"{"type":"assistant","timestamp":1000,"message":{"stop_reason":"end_turn"}}"#;
    apply_event(&mut s, &event(stop));
    assert_eq!(status(&s, 1100), "waiting_for_user");
    apply_event(&mut s, &event(r#"{"type":"user","timestamp":1000,"message":{"content":"x"}}"#));
    assert_eq!(status(&s, 1100), "idle");
}

#[test]
fn milliseconds_keep_the_order() {
    let mut all: Vec<i128> = numbers().into_iter().map(ticks).collect();
    all.extend([i128::MIN, i128::MAX, -1, 1]);
    all.sort();
    for i in 1..all.len() {
        let a = Seconds { ticks: all[i - 1] };
        let b = Seconds { ticks: all[i] };
        assert!(a.millis() <= b.millis());
    }
}
