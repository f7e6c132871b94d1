use session_kanban::follow::complete_lines;
use session_kanban::follow::read_piece;
use session_kanban::follow::OffsetEntry;
use session_kanban::follow::OffsetMap;
use session_kanban::follow::Reading;
use session_kanban::parser::SessionState;
use session_kanban::state::Store;

#[test]
fn lines_that_are_complete() {
    let part = complete_lines(b"ab\nc\nde").unwrap();
    assert_eq!(part.consumed, 5);
    assert_eq!(part.lines, vec!["ab", "c"]);
    assert!(complete_lines(b"").is_none());
    assert!(complete_lines(b"abc").is_none());
    let part = complete_lines(b"\n").unwrap();
    assert_eq!(part.consumed, 1);
    assert_eq!(part.lines, vec![""]);
    let part = complete_lines("é\r\n✅".as_bytes()).unwrap();
    assert_eq!(part.consumed, 4);
    assert_eq!(part.lines, vec!["é\r"]);
}

#[test]
fn bytes_that_are_no_text() {
    // what stands in for a stray byte is longer, but it is the bytes that count
    let part = complete_lines(b"\xff\nrest").unwrap();
    assert_eq!(part.consumed, 2);
    assert_eq!(part.lines, vec!["\u{fffd}"]);
    // a character that is cut off by a newline does not take the newline with it
    let part = complete_lines(b"a\xe2\x9c\nb\n").unwrap();
    assert_eq!(part.consumed, 6);
    assert_eq!(part.lines, vec!["a\u{fffd}", "b"]);
    // a character that is cut off behind the last newline does not matter
    let part = complete_lines(b"a\n\xc3").unwrap();
    assert_eq!(part.consumed, 2);
    assert_eq!(part.lines, vec!["a"]);
}

#[test]
fn offsets_resume() {
    let mut o = OffsetMap::new();
    assert_eq!(o.begin("f", 7, 100, false), 0);
    assert_eq!(*o.map.get("f").unwrap(), OffsetEntry { offset: 0, inode: 0 });
    o.commit("f", 40, 7);
    assert_eq!(o.begin("f", 7, 100, false), 40);
    assert_eq!(o.begin("f", 7, 40, false), 40);
    assert_eq!(*o.map.get("f").unwrap(), OffsetEntry { offset: 40, inode: 7 });
    // truncated
    assert_eq!(o.begin("f", 7, 39, false), 0);
    assert_eq!(*o.map.get("f").unwrap(), OffsetEntry { offset: 0, inode: 7 });
    // another file
    o.commit("f", 40, 7);
    assert_eq!(o.begin("f", 8, 100, false), 0);
    // all over again
    o.commit("f", 40, 7);
    assert_eq!(o.begin("f", 7, 100, true), 0);
    o.commit("g", 3, 7);
    assert_eq!(o.map.len(), 2);
}

const FILE: &str = "{\"type\":\"user\",\"timestamp\":1,\"message\":{\"content\":\"h\u{e9}llo\"}}\n\nnot json\n{\"type\":\"assistant\",\"timestamp\":2,\"message\":{\"stop_reason\":\"end_turn\",\"content\":[{\"type\":\"text\",\"text\":\"\u{2705} a\"}]}}\n{\"type\":\"x\",\"timestamp\":3}\n{\"half";

#[test]
fn reading_in_pieces_is_reading_at_once() {
    let bytes = FILE.as_bytes();
    let mut whole = Store::new();
    let mut whole_offsets = OffsetMap::new();
    let r = read_piece(&mut whole, &mut whole_offsets, "f", "s", 0, 7, bytes);
    assert_eq!(r, Reading::Done);
    assert_eq!(whole.event_count("s"), 3);
    let end = whole_offsets.map.get("f").unwrap().offset;
    assert_eq!(end as usize, bytes.len() - "{\"half".len());
    // whatever the places at which the file was looked at
    for cut in 0..bytes.len() {
        let mut store = Store::new();
        let mut offsets = OffsetMap::new();
        let start = offsets.begin("f", 7, cut as u64, false);
        assert_eq!(start, 0);
        let first = read_piece(&mut store, &mut offsets, "f", "s", start, 7, &bytes[..cut]);
        assert_eq!(first == Reading::Incomplete, !bytes[..cut].contains(&10));
        let start = if first == Reading::Done {
            offsets.begin("f", 7, bytes.len() as u64, false)
        } else {
            0
        };
        let second =
            read_piece(&mut store, &mut offsets, "f", "s", start, 7, &bytes[start as usize..]);
        if second == Reading::Incomplete {
            assert_eq!(start, end);
        }
        assert_eq!(offsets.map.get("f").unwrap().offset, end);
        assert_eq!(
            format!("{:?}", store.sessions.get("s").unwrap()),
            format!("{:?}", whole.sessions.get("s").unwrap())
        );
    }
}

#[test]
fn ranges_that_would_be_left() {
    let mut store = Store::new();
    let mut offsets = OffsetMap::new();
    let r = read_piece(&mut store, &mut offsets, "f", "s", u64::MAX, 7, b"x\n");
    assert_eq!(r, Reading::OutOfRange);
    assert!(store.sessions.is_empty());
    assert!(offsets.map.is_empty());
    let r = read_piece(&mut store, &mut offsets, "f", "s", u64::MAX - 2, 7, b"x\n");
    assert_eq!(r, Reading::Done);
    assert_eq!(offsets.map.get("f").unwrap().offset, u64::MAX);
    store.with_session_mut("s", |s: &mut SessionState| s.event_count = u64::MAX - 1);
    let r = read_piece(&mut store, &mut offsets, "f", "s", 0, 7, b"x\ny\n");
    assert_eq!(r, Reading::OutOfRange);
    let r = read_piece(&mut store, &mut offsets, "f", "s", 0, 7, b"x\n");
    assert_eq!(r, Reading::Done);
}

#[test]
fn looking_many_times_is_looking_once() {
    let bytes = FILE.as_bytes();
    let mut whole = Store::new();
    let mut whole_offsets = OffsetMap::new();
    read_piece(&mut whole, &mut whole_offsets, "f", "s", 0, 7, bytes);
    for step in [1usize, 3, 10, 64, 150] {
        let mut store = Store::new();
        let mut offsets = OffsetMap::new();
        let mut len = 0;
        while len < bytes.len() {
            len = std::cmp::min(len + step, bytes.len());
            let start = match offsets.map.get("f") {
                Some(_) => offsets.begin("f", 7, len as u64, false),
                None => 0,
            };
            read_piece(&mut store, &mut offsets, "f", "s", start, 7, &bytes[start as usize..len]);
        }
        assert_eq!(offsets.map.get("f").unwrap().offset, whole_offsets.map.get("f").unwrap().offset);
        assert_eq!(
            format!("{:?}", store.sessions.get("s").unwrap()),
            format!("{:?}", whole.sessions.get("s").unwrap())
        );
    }
}

#[test]
fn bytes_that_are_no_text_are_read_once() {
    let bytes: &[u8] =
        b"\xff\n{\"timestamp\":1}\n\xe2\x9c\n{\"timestamp\":2}\nbad \xc3{\n{\"timestamp\":3}\n\xf0";
    let mut offsets = OffsetMap::new();
    let mut whole = Store::new();
    assert_eq!(read_piece(&mut whole, &mut offsets, "f", "s", 0, 7, bytes), Reading::Done);
    assert_eq!(whole.event_count("s"), 3);
    assert_eq!(offsets.map.get("f").unwrap().offset as usize, bytes.len() - 1);
    for cut in 0..=bytes.len() {
        let mut store = Store::new();
        let mut offsets = OffsetMap::new();
        for seen in [&bytes[..cut], bytes] {
            let start = offsets.begin("f", 7, seen.len() as u64, false);
            read_piece(&mut store, &mut offsets, "f", "s", start, 7, &seen[start as usize..]);
        }
        assert_eq!(offsets.map.get("f").unwrap().offset as usize, bytes.len() - 1);
        assert_eq!(offsets.map.get("f").unwrap().inode, 7);
        assert_eq!(
            format!("{:?}", store.sessions.get("s").unwrap()),
            format!("{:?}", whole.sessions.get("s").unwrap())
        );
    }
}
