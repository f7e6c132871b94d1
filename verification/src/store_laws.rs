//! What becomes of files and sessions, said of the plain values that go in and come out.
use vstd::prelude::*;

use crate::follow::OffsetEntry;
use crate::follow::Reading;
use crate::monitor::MonitorConfig;
use crate::monitor::RouteView;
use crate::parser::SessionView;
use crate::state::Event;
use crate::summary::SummaryView;

verus! {

// ---------------------------------------------------------------------------------------------
// Lines in bytes
// ---------------------------------------------------------------------------------------------

/// Bytes without a newline hold no complete line.
pub proof fn law_no_newline_no_line(bytes: Seq<u8>)
    requires
        !bytes.contains(10u8),
    ensures
        crate::follow::complete_len(bytes) == 0,
        crate::follow::lines_of(bytes) == Seq::<Seq<char>>::empty(),
{
    crate::follow::lemma_complete_len(bytes);
    if crate::follow::complete_len(bytes) > 0 {
        assert(bytes[crate::follow::complete_len(bytes) - 1] == 10);
    }
    crate::follow::lemma_no_lines(bytes);
}

/// What stands in front of the first newline is the first line; the others are those of what stands
/// behind it.
pub proof fn law_first_complete_line(line: Seq<u8>, rest: Seq<u8>)
    requires
        !line.contains(10u8),
    ensures
        crate::follow::complete_len(line + seq![10u8] + rest) == line.len() + 1
            + crate::follow::complete_len(rest),
        crate::follow::lines_of(line + seq![10u8] + rest) == seq![crate::follow::text_of(line)]
            + crate::follow::lines_of(rest),
{
    let a = line + seq![10u8];
    assert(a.last() == 10);
    crate::follow::lemma_lines_of_both(a, rest);
    assert(crate::follow::complete_bytes(a) =~= a);
    assert(a.drop_last() =~= line);
    crate::line_laws::law_one_piece(line, 10u8);
    assert(crate::follow::complete_pieces(a) =~= seq![line]);
    assert(crate::follow::lines_of(a) =~= seq![crate::follow::text_of(line)]);
}

/// Bytes that encode a text give that text back; any others give what stands in for them.
pub proof fn law_bytes_are_text(text: Seq<char>, bytes: Seq<u8>)
    ensures
        crate::follow::text_of(vstd::utf8::encode_utf8(text)) == text,
        !vstd::utf8::valid_utf8(bytes) ==> crate::follow::text_of(bytes)
            == crate::follow::lossy_text(bytes),
{
    vstd::utf8::encode_utf8_valid_utf8(text);
    vstd::utf8::encode_utf8_decode_utf8(text);
}

/// The first complete line brings the session up to date, and then those behind it do; what is not
/// complete yet does nothing.
pub proof fn law_bytes_are_lines(s: SessionView, line: Seq<u8>, rest: Seq<u8>)
    requires
        !line.contains(10u8),
    ensures
        crate::follow::after_bytes(s, line) == s,
        crate::follow::after_bytes(s, line + seq![10u8] + rest) == crate::follow::after_bytes(
            crate::parser::after_lines(s, seq![crate::follow::text_of(line)]),
            rest,
        ),
{
    law_no_newline_no_line(line);
    law_first_complete_line(line, rest);
    crate::parser::law_lines_in_two_goes(
        s,
        seq![crate::follow::text_of(line)],
        crate::follow::lines_of(rest),
    );
}

/// A piece of a file is read where it holds a complete line, unless the offset or the count would
/// leave the range of 64 bits.
pub proof fn law_piece_is_read(bytes: Seq<u8>, start: u64, count: int)
    ensures
        ({
            let r = crate::follow::reading_of(bytes, start, count);
            &&& (r == Reading::Incomplete) == !bytes.contains(10u8)
            &&& bytes.contains(10u8) && start + bytes.len() <= 0xffff_ffff_ffff_ffff && count
                + bytes.len() <= 0xffff_ffff_ffff_ffff ==> r == Reading::Done
            &&& r == Reading::Done ==> start + crate::follow::complete_len(bytes)
                <= 0xffff_ffff_ffff_ffff && count + crate::follow::lines_of(bytes).len()
                <= 0xffff_ffff_ffff_ffff
            &&& r == Reading::OutOfRange ==> start + crate::follow::complete_len(bytes)
                > 0xffff_ffff_ffff_ffff || count + crate::follow::lines_of(bytes).len()
                > 0xffff_ffff_ffff_ffff
        }),
{
    crate::follow::lemma_complete_len(bytes);
    if bytes.contains(10u8) {
        let i = choose|i: int| 0 <= i < bytes.len() && bytes[i] == 10;
        assert(crate::follow::complete_len(bytes) > i);
    } else {
        law_no_newline_no_line(bytes);
    }
    lemma_fewer_lines(crate::follow::complete_bytes(bytes));
}

proof fn lemma_fewer_lines(bytes: Seq<u8>)
    ensures
        1 <= crate::text::split_on(bytes, 10u8).len() <= bytes.len() + 1,
    decreases bytes.len(),
{
    if bytes.len() > 0 {
        lemma_fewer_lines(bytes.drop_last());
    }
}

/// A file is known by its path; of an unknown one nothing is read yet.
pub proof fn law_offset_of_file(offsets: Map<Seq<char>, OffsetEntry>, key: Seq<char>)
    ensures
        offsets.dom().contains(key) ==> crate::follow::entry_or_default(offsets, key)
            == offsets[key],
        !offsets.dom().contains(key) ==> crate::follow::entry_or_default(offsets, key) == (
        OffsetEntry { offset: 0, inode: 0 }),
{
}

/// A file is read on where it was left, if it is the same file, has not become shorter and is not
/// to be read whole; else from its beginning.
pub proof fn law_start(entry: OffsetEntry, inode: u64, size: u64, force_full: bool)
    ensures
        !force_full && entry.inode == inode && entry.offset <= size ==> crate::follow::start_of(
            entry,
            inode,
            size,
            force_full,
        ) == entry.offset,
        force_full || entry.inode != inode || entry.offset > size ==> crate::follow::start_of(
            entry,
            inode,
            size,
            force_full,
        ) == 0,
{
}

// ---------------------------------------------------------------------------------------------
// Sessions
// ---------------------------------------------------------------------------------------------

/// A new session has its id, and nothing else.
pub proof fn law_new_session(sid: Seq<char>)
    ensures
        ({
            let s = crate::parser::fresh_session(sid);
            &&& s.sid == sid
            &&& s.cwd.len() == 0
            &&& s.file_path.len() == 0
            &&& forall|id: Seq<char>| !#[trigger] s.pending_tools.dom().contains(id)
            &&& s.last_event_ts == 0
            &&& s.last_user_input_ts == 0
            &&& s.last_assistant_ts == 0
            &&& s.last_stop_ts == 0
            &&& s.last_stop_reason.len() == 0
            &&& s.last_permission_event_ts == 0
            &&& s.first_user_text.len() == 0
            &&& s.last_assistant_text.len() == 0
            &&& s.last_tool_name.len() == 0
            &&& s.event_count == 0
            &&& s.todos.len() == 0
            &&& s.todos_from_jsonl.len() == 0
            &&& !s.has_active_subagent_task
        }),
{
}

/// A session that is known is the one in memory; any other is new.
pub proof fn law_session_in_memory(sessions: Map<Seq<char>, SessionView>, sid: Seq<char>)
    ensures
        sessions.dom().contains(sid) ==> crate::state::session_or_fresh(sessions, sid)
            == sessions[sid],
        !sessions.dom().contains(sid) ==> crate::state::session_or_fresh(sessions, sid)
            == crate::parser::fresh_session(sid),
{
}

/// To touch a session gives it a directory and a file where it had none, and changes nothing else.
pub proof fn law_touch(s: SessionView, cwd: Seq<char>, file_path: Seq<char>)
    ensures
        ({
            let r = crate::state::touched(s, cwd, file_path);
            &&& r == (SessionView { cwd: r.cwd, file_path: r.file_path, ..s })
            &&& s.cwd.len() == 0 ==> r.cwd == cwd
            &&& s.cwd.len() > 0 ==> r.cwd == s.cwd
            &&& s.file_path.len() == 0 ==> r.file_path == file_path
            &&& s.file_path.len() > 0 ==> r.file_path == s.file_path
        }),
{
}

/// The session has a file, and an event was seen in it.
pub open spec fn is_shown(s: SessionView) -> bool {
    s.file_path.len() > 0 && s.event_count > 0
}

/// `keys` names the session of each summary in `list`.
pub open spec fn names_each(
    keys: Seq<Seq<char>>,
    list: Seq<SummaryView>,
    sessions: Map<Seq<char>, SessionView>,
    now: int,
) -> bool {
    &&& keys.len() == list.len()
    &&& keys.no_duplicates()
    &&& forall|i: int|
        0 <= i < list.len() ==> crate::summary::is_summary(
            #[trigger] list[i],
            sessions[keys[i]],
            now,
        )
}

/// A list of all sessions holds each of them once, and no other; a list of those worth showing
/// each that has a file and in which an event was seen, once, and no other.
pub proof fn law_list_is_complete(
    list: Seq<SummaryView>,
    sessions: Map<Seq<char>, SessionView>,
    now: int,
    all: bool,
)
    requires
        crate::state::lists_sessions(list, sessions, now, all),
    ensures
        exists|keys: Seq<Seq<char>>| #[trigger]
            names_each(keys, list, sessions, now) && forall|k: Seq<char>| #[trigger]
                keys.contains(k) == (sessions.dom().contains(k) && (all || is_shown(sessions[k]))),
{
    let keys = choose|keys: Seq<Seq<char>>| #[trigger]
        crate::state::summarises(list, keys, sessions, now, all) && forall|k: Seq<char>| #[trigger]
            sessions.dom().contains(k) && crate::state::is_listed(sessions[k], all)
                ==> keys.contains(k);
    assert forall|i: int| 0 <= i < list.len() implies crate::summary::is_summary(
        #[trigger] list[i],
        sessions[keys[i]],
        now,
    ) by {
        assert(sessions.dom().contains(keys[i]));
    }
    assert forall|k: Seq<char>| #[trigger] keys.contains(k) == (sessions.dom().contains(k) && (all
        || is_shown(sessions[k]))) by {
        if keys.contains(k) {
            let i = choose|i: int| 0 <= i < keys.len() && keys[i] == k;
            assert(sessions.dom().contains(keys[i]));
        }
    }
    assert(names_each(keys, list, sessions, now));
}

/// A list that holds each session once, and no other, is a list of the sessions.
pub proof fn law_complete_list_is_a_list(
    list: Seq<SummaryView>,
    keys: Seq<Seq<char>>,
    sessions: Map<Seq<char>, SessionView>,
    now: int,
    all: bool,
)
    requires
        names_each(keys, list, sessions, now),
        forall|k: Seq<char>| #[trigger]
            keys.contains(k) == (sessions.dom().contains(k) && (all || is_shown(sessions[k]))),
    ensures
        crate::state::lists_sessions(list, sessions, now, all),
{
    assert forall|i: int| 0 <= i < list.len() implies {
        &&& sessions.dom().contains(#[trigger] keys[i])
        &&& crate::state::is_listed(sessions[keys[i]], all)
        &&& crate::summary::is_summary(list[i], sessions[keys[i]], now)
    } by {
        assert(keys.contains(keys[i]));
    }
    assert(crate::state::summarises(list, keys, sessions, now, all));
    assert forall|k: Seq<char>| #[trigger]
        sessions.dom().contains(k) && crate::state::is_listed(
            sessions[k],
            all,
        ) implies keys.contains(k) by {
        assert(keys.contains(k) == (sessions.dom().contains(k) && (all || is_shown(sessions[k]))));
    }
}

/// By what sessions are ordered.
pub proof fn law_key(s: SummaryView)
    ensures
        ({
            let millis = crate::seconds::millis_spec(s.last_event_ts);
            &&& s.status == "needs_permission"@ ==> crate::state::key_of(s) == (0int, millis)
            &&& s.status == "waiting_for_user"@ ==> crate::state::key_of(s) == (1int, millis)
            &&& s.status == "running"@ ==> crate::state::key_of(s) == (2int, -millis)
            &&& s.status == "idle"@ ==> crate::state::key_of(s) == (3int, -millis)
            &&& s.status != "needs_permission"@ && s.status != "waiting_for_user"@ && s.status
                != "running"@ && s.status != "idle"@ ==> crate::state::key_of(s) == (99int, -millis)
        }),
{
    crate::state::law_ranks();
}

/// One of two sessions may stand in front of the other: its status is more urgent, or the same and
/// its last event, in milliseconds, is older where the status asks for a human, newer where not.
pub open spec fn may_precede(a: SummaryView, b: SummaryView) -> bool {
    let x = crate::seconds::millis_spec(a.last_event_ts);
    let y = crate::seconds::millis_spec(b.last_event_ts);
    if b.status == "needs_permission"@ {
        a.status == b.status && x <= y
    } else if b.status == "waiting_for_user"@ {
        a.status == "needs_permission"@ || (a.status == b.status && x <= y)
    } else if b.status == "running"@ {
        a.status == "needs_permission"@ || a.status == "waiting_for_user"@ || (a.status == b.status
            && x >= y)
    } else {
        a.status == "needs_permission"@ || a.status == "waiting_for_user"@ || a.status
            == "running"@ || (a.status == b.status && x >= y)
    }
}

/// The status is one of the four.
pub open spec fn has_status(s: SummaryView) -> bool {
    s.status == "needs_permission"@ || s.status == "waiting_for_user"@ || s.status == "running"@
        || s.status == "idle"@
}

/// A list is sorted where each session may stand in front of those behind it, and only there.
pub proof fn law_sorted(list: Seq<SummaryView>)
    requires
        forall|i: int| 0 <= i < list.len() ==> has_status(#[trigger] list[i]),
    ensures
        crate::state::is_sorted(list) == forall|i: int, j: int|
            0 <= i < j < list.len() ==> may_precede(#[trigger] list[i], #[trigger] list[j]),
{
    assert forall|i: int, j: int| 0 <= i < j < list.len() implies may_precede(
        #[trigger] list[i],
        #[trigger] list[j],
    ) == crate::state::key_le(
        crate::state::key_of(list[i]),
        crate::state::key_of(list[j]),
    ) by {
        assert(has_status(list[i]) && has_status(list[j]));
        law_key(list[i]);
        law_key(list[j]);
        crate::state::law_ranks();
    }
    if crate::state::is_sorted(list) {
        assert forall|i: int, j: int| 0 <= i < j < list.len() implies may_precede(
            #[trigger] list[i],
            #[trigger] list[j],
        ) by {}
    }
    if forall|i: int, j: int|
        0 <= i < j < list.len() ==> may_precede(#[trigger] list[i], #[trigger] list[j]) {
        assert forall|i: int, j: int| 0 <= i < j < list.len() implies crate::state::key_le(
            crate::state::key_of(#[trigger] list[i]),
            crate::state::key_of(#[trigger] list[j]),
        ) by {
            assert(may_precede(list[i], list[j]));
        }
    }
}

/// What the events are called.
pub proof fn law_event_names(e: Event)
    ensures
        e is SessionUpdate ==> e.name_spec() == "session_update"@,
        e is TaskUpdate ==> e.name_spec() == "task_update"@,
        e is Heartbeat ==> e.name_spec() == "heartbeat"@,
{
}

/// What is told of a session is its summary at that time.
pub proof fn law_told_session(e: Event, s: SessionView, now: int)
    ensures
        crate::monitor::tells_session(e, s, now) == match e {
            Event::SessionUpdate(summary) => crate::summary::is_summary(summary@, s, now),
            _ => false,
        },
{
}

/// What is told of the cards of a session are those of its todo file; without any, those that the
/// assistant wrote last; without any, those in its last text.
pub proof fn law_told_cards(e: Event, sid: Seq<char>, s: SessionView)
    ensures
        crate::monitor::tells_todos(e, sid, s) == match e {
            Event::TaskUpdate { sid: id, todos } => id@ == sid && crate::parser::todo_views(todos@)
                == (if s.todos.len() > 0 {
                s.todos
            } else if s.todos_from_jsonl.len() > 0 {
                s.todos_from_jsonl
            } else {
                crate::checklist::cards_of(s.last_assistant_text)
            }),
            _ => false,
        },
{
    crate::summary::law_first_source_wins(s);
}

// ---------------------------------------------------------------------------------------------
// Names
// ---------------------------------------------------------------------------------------------

/// The name of a project directory that begins with a dash stands for a path, a dash for each
/// separator; any other stands for itself.
pub proof fn law_decoded_chars(encoded: Seq<char>)
    ensures
        crate::monitor::decoded(encoded).len() == encoded.len(),
        encoded.len() == 0 || encoded[0] != '-' ==> crate::monitor::decoded(encoded) == encoded,
        encoded.len() > 0 && encoded[0] == '-' ==> forall|i: int|
            0 <= i < encoded.len() ==> #[trigger] crate::monitor::decoded(encoded)[i] == (
            if encoded[i] == '-' {
                '/'
            } else {
                encoded[i]
            }),
{
}

/// A hexadecimal digit, with small letters.
pub open spec fn is_digit(c: char) -> bool {
    ||| c == '0' || c == '1' || c == '2' || c == '3' || c == '4'
    ||| c == '5' || c == '6' || c == '7' || c == '8' || c == '9'
    ||| c == 'a' || c == 'b' || c == 'c' || c == 'd' || c == 'e' || c == 'f'
}

/// The id of a session: eight, four, four, four and twelve digits, with dashes between.
pub open spec fn is_session_id(s: Seq<char>) -> bool {
    &&& s.len() == 36
    &&& s[8] == '-' && s[13] == '-' && s[18] == '-' && s[23] == '-'
    &&& forall|i: int|
        0 <= i < 36 && i != 8 && i != 13 && i != 18 && i != 23 ==> is_digit(#[trigger] s[i])
}

/// The name of an event stream is the id of its session and `.jsonl`, and any such name is one.
pub proof fn law_stream_name(name: Seq<char>, sid: Seq<char>)
    ensures
        (crate::monitor::session_of_name(name) == Some(sid)) == (is_session_id(sid) && name == sid
            + ".jsonl"@),
{
    assert(forall|c: char| crate::monitor::is_hex(c) == is_digit(c));
    assert(crate::monitor::is_uuid(sid) == is_session_id(sid)) by {
        if crate::monitor::is_uuid(sid) {
            assert(sid[8] == '-' && sid[13] == '-' && sid[18] == '-' && sid[23] == '-');
            assert forall|i: int|
                0 <= i < 36 && i != 8 && i != 13 && i != 18 && i != 23 implies is_digit(
                #[trigger] sid[i],
            ) by {
                assert(crate::monitor::is_hex(sid[i]));
            }
        }
        if is_session_id(sid) {
            assert forall|i: int| 0 <= i < sid.len() implies if crate::monitor::is_dash_place(i) {
                #[trigger] sid[i] == '-'
            } else {
                crate::monitor::is_hex(sid[i])
            } by {
                if !crate::monitor::is_dash_place(i) {
                    assert(is_digit(sid[i]));
                }
            }
        }
    }
    if crate::monitor::session_of_name(name) == Some(sid) {
        assert(name =~= sid + ".jsonl"@);
    }
    if is_session_id(sid) && name == sid + ".jsonl"@ {
        assert(name.take(36) =~= sid);
        assert(name.skip(36) =~= ".jsonl"@);
    }
}

/// The name of a todo file is thirty-six digits and dashes twice, with `-agent-` between and
/// `.json` behind, and any such name is one.
pub proof fn law_todo_name(name: Seq<char>, sid: Seq<char>)
    ensures
        (crate::monitor::session_of_todo(name) == Some(sid)) == (sid.len() == 36 && (forall|i: int|
            0 <= i < 36 ==> #[trigger] sid[i] == '-' || is_digit(sid[i])) && name == sid
            + "-agent-"@ + sid + ".json"@),
{
    assert(forall|c: char| crate::monitor::is_hex(c) == is_digit(c));
    if crate::monitor::session_of_todo(name) == Some(sid) {
        assert forall|i: int| 0 <= i < 36 implies #[trigger] sid[i] == '-' || is_digit(sid[i]) by {
            assert(sid[i] == '-' || crate::monitor::is_hex(sid[i]));
        }
    }
    if sid.len() == 36 && (forall|i: int|
        0 <= i < 36 ==> #[trigger] sid[i] == '-' || is_digit(sid[i])) && name == sid + "-agent-"@
        + sid + ".json"@ {
        assert(name.take(36) =~= sid);
        assert(crate::monitor::is_id(sid));
    }
}

/// A file among the projects that is named as an event stream is one, and tells its session and
/// where that works.
pub proof fn law_stream_found(
    directory: Seq<char>,
    name: Seq<char>,
    sid: Seq<char>,
    in_todos: bool,
)
    requires
        crate::monitor::session_of_name(name) == Some(sid),
    ensures
        crate::monitor::route_of(directory, name, true, in_todos) == (RouteView::Session {
            sid,
            cwd: crate::monitor::decoded(directory),
        }),
{
}

/// A file among the todo files that is named as one is one, and tells its session.
pub proof fn law_todo_found(
    directory: Seq<char>,
    name: Seq<char>,
    sid: Seq<char>,
    in_projects: bool,
)
    requires
        crate::monitor::session_of_todo(name) == Some(sid),
    ensures
        crate::monitor::route_of(directory, name, in_projects, true) == (RouteView::Todos { sid }),
{
    crate::monitor::law_names_tell(name);
}

/// Any other file is none of both.
pub proof fn law_other_file(
    directory: Seq<char>,
    name: Seq<char>,
    in_projects: bool,
    in_todos: bool,
)
    requires
        !in_projects || crate::monitor::session_of_name(name) is None,
        !in_todos || crate::monitor::session_of_todo(name) is None,
    ensures
        crate::monitor::route_of(directory, name, in_projects, in_todos) == RouteView::Other,
{
}

/// Where the files of an agent are: event streams and todo files under a directory at home that is
/// named after it behind a dot, the offsets in a directory of its own among the caches, which are
/// under `.cache` at home where the user has no other place for them. Changes within a fifth of a
/// second are taken together.
pub proof fn law_places(
    cfg: MonitorConfig,
    home: std::path::PathBuf,
    cache: Option<std::path::PathBuf>,
    agent: Seq<char>,
)
    requires
        crate::monitor::is_at_home(cfg, home, cache, agent),
    ensures
        ({
            let at_home = crate::monitor::path_parts(home);
            &&& crate::monitor::path_parts(cfg.projects_root) == at_home + seq![
                "."@ + agent,
                "projects"@,
            ]
            &&& crate::monitor::path_parts(cfg.todos_root) == at_home + seq!["."@ + agent, "todos"@]
            &&& cache matches Some(caches) ==> crate::monitor::path_parts(cfg.offsets_path)
                == crate::monitor::path_parts(caches) + seq![agent + "-checker"@, "offsets.json"@]
            &&& cache is None ==> crate::monitor::path_parts(cfg.offsets_path) == at_home + seq![
                ".cache"@,
                agent + "-checker"@,
                "offsets.json"@,
            ]
            &&& cfg.debounce.nanos == 200_000_000
        }),
{
    let at_home = crate::monitor::path_parts(home);
    assert(crate::monitor::path_parts(cfg.projects_root) =~= at_home + seq![
        "."@ + agent,
        "projects"@,
    ]);
    assert(crate::monitor::path_parts(cfg.todos_root) =~= at_home + seq!["."@ + agent, "todos"@]);
    match cache {
        Some(caches) => {
            assert(crate::monitor::path_parts(cfg.offsets_path) =~= crate::monitor::path_parts(
                caches,
            ) + seq![agent + "-checker"@, "offsets.json"@]);
        },
        None => {
            assert(crate::monitor::path_parts(cfg.offsets_path) =~= at_home + seq![
                ".cache"@,
                agent + "-checker"@,
                "offsets.json"@,
            ]);
        },
    }
}

/// What the directories of an agent are called.
pub proof fn law_agent_names(agent: Seq<char>)
    ensures
        crate::monitor::agent_dir(agent) == seq!['.'] + agent,
        crate::monitor::cache_name(agent) == agent + seq!['-', 'c', 'h', 'e', 'c', 'k', 'e', 'r'],
{
    reveal_strlit(".");
    reveal_strlit("-checker");
    assert("."@ =~= seq!['.']);
    assert("-checker"@ =~= seq!['-', 'c', 'h', 'e', 'c', 'k', 'e', 'r']);
}

/// Any name can be that of an agent that holds no separator and no colon, unless it is a lone dot
/// or empty.
pub proof fn law_agent(agent: Seq<char>)
    ensures
        crate::monitor::is_agent(agent) == (agent.len() > 0 && agent != seq!['.']
            && !agent.contains('/') && !agent.contains('\\') && !agent.contains(':')),
{
    reveal_strlit(".");
    reveal_strlit("-checker");
    let own = "."@ + agent;
    let cached = agent + "-checker"@;
    assert("."@ =~= seq!['.']);
    assert("-checker"@ =~= seq!['-', 'c', 'h', 'e', 'c', 'k', 'e', 'r']);
    assert(own[0] == '.');
    assert(cached.len() >= 8);
    assert(forall|c: char| agent.contains(c) ==> own.contains(c) && cached.contains(c)) by {
        assert forall|c: char| agent.contains(c) implies own.contains(c) && cached.contains(c) by {
            let i = choose|i: int| 0 <= i < agent.len() && agent[i] == c;
            assert(own[i + 1] == c);
            assert(cached[i] == c);
        }
    }
    assert forall|c: char| c != '.' && !agent.contains(c) implies !own.contains(c) by {
        if own.contains(c) {
            let i = choose|i: int| 0 <= i < own.len() && own[i] == c;
            assert(i > 0 && agent[i - 1] == c);
        }
    }
    assert forall|c: char|
        (c == '/' || c == '\\' || c == ':') && !agent.contains(c) implies !cached.contains(c) by {
        if cached.contains(c) {
            let i = choose|i: int| 0 <= i < cached.len() && cached[i] == c;
            if i < agent.len() {
                assert(agent[i] == c);
            } else {
                assert(cached[i] == "-checker"@[i - agent.len()]);
            }
        }
    }
    if agent.len() == 0 {
        assert(own =~= seq!['.']);
    }
    if agent == seq!['.'] {
        assert(own =~= seq!['.', '.']);
    }
    if own == seq!['.', '.'] {
        assert(own.len() == 1 + agent.len());
        assert(own.len() == 2);
        assert(agent[0] == own[1]);
        assert(own[1] == '.');
        assert(agent =~= seq!['.']);
    }
}

} // verus!
