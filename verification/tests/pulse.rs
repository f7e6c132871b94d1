use session_kanban::json::parse_json;
use session_kanban::parser::apply_event;
use session_kanban::parser::SessionState;
use session_kanban::pulse::Debouncer;
use session_kanban::pulse::Pulse;
use session_kanban::pulse::HEARTBEAT_SECS;
use session_kanban::pulse::POLL_MILLIS;
use session_kanban::pulse::TICK_SECS;
use session_kanban::seconds::Elapsed;
use session_kanban::seconds::Seconds;
use session_kanban::state::Event;
use session_kanban::state::Store;

fn ms(n: u32) -> Elapsed {
    Elapsed::of_millis(n)
}

#[test]
fn changes_collapse() {
    let mut d = Debouncer::new();
    d.note(1, ms(0));
    d.note(2, ms(10));
    d.note(1, ms(150));
    assert!(d.take_due(ms(209), ms(200)).is_empty());
    assert_eq!(d.take_due(ms(210), ms(200)), vec![2]);
    assert!(d.take_due(ms(349), ms(200)).is_empty());
    assert_eq!(d.take_due(ms(350), ms(200)), vec![1]);
    assert!(d.take_due(ms(9999), ms(200)).is_empty());
}

#[test]
fn several_files_are_due() {
    let mut d = Debouncer::new();
    for file in 0..5u64 {
        d.note(file, ms(file as u32 * 10));
    }
    let mut due = d.take_due(ms(220), ms(200));
    due.sort();
    assert_eq!(due, vec![0, 1, 2]);
    let mut due = d.take_due(ms(1000), ms(200));
    due.sort();
    assert_eq!(due, vec![3, 4]);
}

fn tell(store: &mut Store, sid: &str, event: &str) {
    store.mutate_or_create(sid, |s: &mut SessionState| {
        apply_event(s, &parse_json(event).unwrap());
    });
}

fn sids(events: &[Event]) -> Vec<String> {
    events
        .iter()
        .filter_map(|e| match e {
            Event::SessionUpdate(s) => Some(format!("{} {}", s.sid, s.status)),
            _ => None,
        })
        .collect()
}

#[test]
fn news_on_every_change_and_on_no_other_occasion() {
    let mut store = Store::new();
    let mut pulse = Pulse::new(ms(0));
    let t = |n: i64| Seconds::whole(n);
    assert!(pulse.tick(&store, t(1000), ms(0)).is_empty());
    tell(&mut store, "a", r#"{"type":"x","timestamp":1000}"#);
    tell(&mut store, "b", r#"{"type":"permission-mode","timestamp":1000}"#);
    assert_eq!(sids(&pulse.tick(&store, t(1002), ms(10))), vec!["a running", "b needs_permission"]);
    assert!(pulse.tick(&store, t(1004), ms(20)).is_empty());
    assert_eq!(sids(&pulse.tick(&store, t(1006), ms(30))), vec!["a idle"]);
    assert!(pulse.tick(&store, t(1029), ms(40)).is_empty());
    assert_eq!(sids(&pulse.tick(&store, t(1030), ms(50))), vec!["b idle"]);
    // news of the same status is none
    tell(&mut store, "a", r#"{"type":"x","timestamp":100}"#);
    assert!(pulse.tick(&store, t(1031), ms(60)).is_empty());
}

#[test]
fn the_heart_beats() {
    let store = Store::new();
    let mut pulse = Pulse::new(ms(500));
    assert!(pulse.tick(&store, Seconds::whole(7), ms(15_499)).is_empty());
    let events = pulse.tick(&store, Seconds::whole(8), ms(15_500));
    assert_eq!(events.len(), 1);
    match &events[0] {
        Event::Heartbeat { ts } => assert_eq!(*ts, Seconds::whole(8)),
        other => panic!("{:?}", other),
    }
    assert!(pulse.tick(&store, Seconds::whole(9), ms(30_499)).is_empty());
    assert_eq!(pulse.tick(&store, Seconds::whole(9), ms(30_500)).len(), 1);
}

#[test]
fn what_needs_a_human_is_told_within_a_second() {
    assert_eq!(TICK_SECS, 1);
    assert_eq!(HEARTBEAT_SECS, 15);
    assert_eq!(POLL_MILLIS, 50);
}

#[test]
fn observing_summaries() {
    let mut store = Store::new();
    tell(&mut store, "a", r#"{"type":"x","timestamp":10}"#);
    let mut pulse = Pulse::new(ms(0));
    let list = store.all_summaries_at(Seconds::whole(11));
    assert_eq!(pulse.observe(&list), vec!["a"]);
    assert!(pulse.observe(&list).is_empty());
    assert_eq!(pulse.statuses.get("a").unwrap(), "running");
}
