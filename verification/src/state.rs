//! The sessions in memory, their order of urgency, and the events that tell of them.
use vstd::prelude::*;

use crate::keyed::Keyed;
use crate::parser::copy_todos;
use crate::parser::SessionState;
use crate::parser::SessionView;
use crate::parser::Todo;
use crate::seconds::now_secs;
use crate::seconds::Seconds;
use crate::summary::SessionSummary;
use crate::summary::SummaryView;
use crate::text::same;

verus! {

// ---------------------------------------------------------------------------------------------
// Events
// ---------------------------------------------------------------------------------------------

/// What subscribers are told.
#[derive(Debug)]
pub enum Event {
    SessionUpdate(SessionSummary),
    TaskUpdate { sid: String, todos: Vec<Todo> },
    Heartbeat { ts: Seconds },
}

/// The content of an [`Event`].
pub enum EventView {
    SessionUpdate(SummaryView),
    TaskUpdate { sid: Seq<char>, todos: Seq<crate::parser::TodoView> },
    Heartbeat { ts: int },
}

impl View for Event {
    type V = EventView;

    open spec fn view(&self) -> EventView {
        match self {
            Event::SessionUpdate(s) => EventView::SessionUpdate(s@),
            Event::TaskUpdate { sid, todos } => EventView::TaskUpdate {
                sid: sid@,
                todos: crate::parser::todo_views(todos@),
            },
            Event::Heartbeat { ts } => EventView::Heartbeat { ts: ts@ },
        }
    }
}

impl Clone for Event {
    fn clone(&self) -> (r: Event)
        ensures
            r@ == self@,
    {
        match self {
            Event::SessionUpdate(s) => Event::SessionUpdate(s.clone()),
            Event::TaskUpdate { sid, todos } => Event::TaskUpdate {
                sid: sid.clone(),
                todos: copy_todos(todos),
            },
            Event::Heartbeat { ts } => Event::Heartbeat { ts: *ts },
        }
    }
}

impl Event {
    /// The name of an event on the wire.
    pub open spec fn name_spec(self) -> Seq<char> {
        match self {
            Event::SessionUpdate(_) => "session_update"@,
            Event::TaskUpdate { .. } => "task_update"@,
            Event::Heartbeat { .. } => "heartbeat"@,
        }
    }

    /// The name of an event on the wire.
    pub fn name(&self) -> (r: &'static str)
        ensures
            r@ == self.name_spec(),
    {
        match self {
            Event::SessionUpdate(_) => "session_update",
            Event::TaskUpdate { .. } => "task_update",
            Event::Heartbeat { .. } => "heartbeat",
        }
    }
}

// ---------------------------------------------------------------------------------------------
// Urgency
// ---------------------------------------------------------------------------------------------

/// The rank of a status: the lower, the more urgent.
pub open spec fn rank_of(status: Seq<char>) -> int {
    if status == "needs_permission"@ {
        0
    } else if status == "waiting_for_user"@ {
        1
    } else if status == "running"@ {
        2
    } else if status == "idle"@ {
        3
    } else {
        99
    }
}

/// The status asks for a human.
pub open spec fn is_urgent(status: Seq<char>) -> bool {
    status == "needs_permission"@ || status == "waiting_for_user"@
}

/// By what sessions are ordered: the rank of their status, then their last event in milliseconds,
/// the oldest first where they are urgent, else the newest.
pub open spec fn key_of(s: SummaryView) -> (int, int) {
    let millis = crate::seconds::millis_spec(s.last_event_ts);
    (
        rank_of(s.status),
        if is_urgent(s.status) {
            millis
        } else {
            -millis
        },
    )
}

/// One key does not come behind another.
pub open spec fn key_le(a: (int, int), b: (int, int)) -> bool {
    a.0 < b.0 || (a.0 == b.0 && a.1 <= b.1)
}

/// The most urgent sessions stand first.
pub open spec fn is_sorted(list: Seq<SummaryView>) -> bool {
    forall|i: int, j: int|
        0 <= i < j < list.len() ==> key_le(key_of(#[trigger] list[i]), key_of(#[trigger] list[j]))
}

/// By what sessions are ordered.
pub fn sort_key(s: &SessionSummary) -> (r: (u8, i64))
    ensures
        (r.0 as int, r.1 as int) == key_of(s@),
{
    let urgent: bool = same(s.status, "needs_permission") || same(s.status, "waiting_for_user");
    let rank: u8 = if same(s.status, "needs_permission") {
        0
    } else if same(s.status, "waiting_for_user") {
        1
    } else if same(s.status, "running") {
        2
    } else if same(s.status, "idle") {
        3
    } else {
        99
    };
    let millis: i64 = s.last_event_ts.millis();
    if urgent {
        (rank, millis)
    } else {
        (rank, -millis)
    }
}

/// The contents of some summaries.
pub open spec fn summary_views(list: Seq<SessionSummary>) -> Seq<SummaryView> {
    Seq::new(list.len(), |i: int| list[i]@)
}

/// Puts a summary where it belongs in a sorted list, behind those of the same urgency.
pub fn insert_sorted(list: &mut Vec<SessionSummary>, summary: SessionSummary) -> (r: usize)
    requires
        is_sorted(summary_views(old(list)@)),
    ensures
        r <= old(list)@.len(),
        final(list)@ == old(list)@.insert(r as int, summary),
        is_sorted(summary_views(final(list)@)),
        forall|i: int|
            r <= i < old(list)@.len() ==> !key_le(
                key_of((#[trigger] old(list)@[i])@),
                key_of(summary@),
            ),
{
    let ghost before = list@;
    let key = sort_key(&summary);
    let mut p: usize = list.len();
    let mut done: bool = false;
    while p > 0 && !done
        invariant
            p <= list@.len(),
            list@ == before,
            is_sorted(summary_views(before)),
            (key.0 as int, key.1 as int) == key_of(summary@),
            done ==> p > 0 && key_le(key_of(before[p - 1]@), key_of(summary@)),
            forall|i: int|
                p <= i < before.len() ==> !key_le(
                    key_of((#[trigger] before[i])@),
                    key_of(summary@),
                ),
        decreases p + if done { 0int } else { 1int },
    {
        let other = sort_key(&list[p - 1]);
        if other.0 < key.0 || (other.0 == key.0 && other.1 <= key.1) {
            done = true;
        } else {
            p -= 1;
        }
    }
    let ghost s = summary;
    list.insert(p, summary);
    proof {
        let views = summary_views(list@);
        let old_views = summary_views(before);
        assert forall|i: int, j: int| 0 <= i < j < views.len() implies key_le(
            key_of(#[trigger] views[i]),
            key_of(#[trigger] views[j]),
        ) by {
            let a = if i < p {
                i
            } else {
                i - 1
            };
            let b = if j < p {
                j
            } else {
                j - 1
            };
            if i != p && j != p {
                assert(key_le(key_of(old_views[a]), key_of(old_views[b])));
            } else if j == p {
                assert(views[j] == s@);
                assert(views[i] == before[i]@);
                if i < p - 1 {
                    assert(key_le(key_of(old_views[i]), key_of(old_views[p - 1])));
                }
            } else {
                assert(views[i] == s@);
                assert(views[j] == before[b]@);
            }
        }
    }
    p
}

// ---------------------------------------------------------------------------------------------
// The store
// ---------------------------------------------------------------------------------------------

/// The sessions in memory, by their ids.
#[derive(Debug)]
pub struct Store {
    pub sessions: Keyed<SessionState>,
}

/// All sessions that are worth showing, at a point in time.
#[derive(Debug)]
pub struct SnapshotPayload {
    pub now: Seconds,
    pub sessions: Vec<SessionSummary>,
}

/// The contents of some sessions.
pub open spec fn session_views(sessions: Map<Seq<char>, SessionState>) -> Map<
    Seq<char>,
    SessionView,
> {
    Map::new(|k: Seq<char>| sessions.dom().contains(k), |k: Seq<char>| sessions[k]@)
}

impl View for Store {
    type V = Map<Seq<char>, SessionView>;

    open spec fn view(&self) -> Map<Seq<char>, SessionView> {
        session_views(self.sessions@)
    }
}

/// The session `sid`, which is new where there is none.
pub open spec fn session_or_fresh(
    sessions: Map<Seq<char>, SessionView>,
    sid: Seq<char>,
) -> SessionView {
    if sessions.dom().contains(sid) {
        sessions[sid]
    } else {
        crate::parser::fresh_session(sid)
    }
}

/// `old`, or `new` where that is empty.
pub open spec fn or_else_text(old_text: Seq<char>, new_text: Seq<char>) -> Seq<char> {
    if old_text.len() == 0 {
        new_text
    } else {
        old_text
    }
}

/// The session with its directory and its file, unless it has them already.
pub open spec fn touched(s: SessionView, cwd: Seq<char>, file_path: Seq<char>) -> SessionView {
    SessionView {
        cwd: or_else_text(s.cwd, cwd),
        file_path: or_else_text(s.file_path, file_path),
        ..s
    }
}

/// The session is worth showing: it has a file, and an event was seen in it.
pub open spec fn is_visible(s: SessionView) -> bool {
    s.file_path.len() > 0 && s.event_count > 0
}

/// The session belongs in a list of all sessions, or in one of those worth showing.
pub open spec fn is_listed(s: SessionView, all: bool) -> bool {
    all || is_visible(s)
}

/// `list[i]` is the summary of the session `keys[i]` for each `i`.
pub open spec fn summarises(
    list: Seq<SummaryView>,
    keys: Seq<Seq<char>>,
    sessions: Map<Seq<char>, SessionView>,
    now: int,
    all: bool,
) -> bool {
    &&& keys.len() == list.len()
    &&& keys.no_duplicates()
    &&& forall|i: int|
        0 <= i < list.len() ==> {
            &&& sessions.dom().contains(#[trigger] keys[i])
            &&& is_listed(sessions[keys[i]], all)
            &&& crate::summary::is_summary(list[i], sessions[keys[i]], now)
        }
}

/// `list` holds the summary of each session (that is worth showing, unless `all`) once, and
/// nothing else.
pub open spec fn lists_sessions(
    list: Seq<SummaryView>,
    sessions: Map<Seq<char>, SessionView>,
    now: int,
    all: bool,
) -> bool {
    exists|keys: Seq<Seq<char>>| #[trigger]
        summarises(list, keys, sessions, now, all) && forall|k: Seq<char>| #[trigger]
            sessions.dom().contains(k) && is_listed(sessions[k], all) ==> keys.contains(k)
}

/// To set a session is to set its content.
pub proof fn lemma_views_insert(
    sessions: Map<Seq<char>, SessionState>,
    sid: Seq<char>,
    s: SessionState,
)
    ensures
        session_views(sessions.insert(sid, s)) == session_views(sessions).insert(sid, s@),
{
    assert(session_views(sessions.insert(sid, s)) =~= session_views(sessions).insert(sid, s@));
}

proof fn lemma_key_listed(list: Seq<(Seq<char>, SessionState)>, k: Seq<char>)
    requires
        crate::keyed::distinct(list),
        crate::keyed::as_map(list).dom().contains(k),
    ensures
        exists|j: int| 0 <= j < list.len() && (#[trigger] list[j]).0 == k,
{
    let j = choose|j: int| crate::keyed::key_at(list, k, j);
    assert(crate::keyed::key_at(list, k, j));
    assert(list[j].0 == k);
}

proof fn lemma_inserted(keys: Seq<Seq<char>>, p: int, sid: Seq<char>)
    requires
        0 <= p <= keys.len(),
    ensures
        forall|k: Seq<char>|
            #[trigger] keys.insert(p, sid).contains(k) == (k == sid || keys.contains(k)),
{
    let more = keys.insert(p, sid);
    assert forall|k: Seq<char>| #[trigger] more.contains(k) == (k == sid || keys.contains(k)) by {
        if more.contains(k) {
            let i = choose|i: int| 0 <= i < more.len() && more[i] == k;
            if i < p {
                assert(keys[i] == k);
            } else if i > p {
                assert(keys[i - 1] == k);
            }
        }
        if k == sid {
            assert(more[p] == k);
        }
        if keys.contains(k) {
            let i = choose|i: int| 0 <= i < keys.len() && keys[i] == k;
            if i < p {
                assert(more[i] == k);
            } else {
                assert(more[i + 1] == k);
            }
        }
    }
}

/// A summary of a session that is not listed yet can be put anywhere.
proof fn lemma_place(
    list: Seq<SessionSummary>,
    keys: Seq<Seq<char>>,
    p: int,
    summary: SessionSummary,
    sid: Seq<char>,
    sessions: Map<Seq<char>, SessionView>,
    now: int,
    all: bool,
)
    requires
        summarises(summary_views(list), keys, sessions, now, all),
        0 <= p <= list.len(),
        !keys.contains(sid),
        sessions.dom().contains(sid),
        is_listed(sessions[sid], all),
        crate::summary::is_summary(summary@, sessions[sid], now),
    ensures
        summarises(
            summary_views(list.insert(p, summary)),
            keys.insert(p, sid),
            sessions,
            now,
            all,
        ),
{
    let more = keys.insert(p, sid);
    let views = summary_views(list.insert(p, summary));
    assert forall|i: int, j: int| 0 <= i < more.len() && 0 <= j < more.len() && i
        != j implies more[i] != more[j] by {
        let a = if i < p {
            i
        } else {
            i - 1
        };
        let b = if j < p {
            j
        } else {
            j - 1
        };
        if i != p && j != p {
            assert(keys[a] != keys[b]);
        } else if i == p {
            assert(keys[b] != sid);
        } else {
            assert(keys[a] != sid);
        }
    }
    assert forall|i: int| 0 <= i < views.len() implies {
        &&& sessions.dom().contains(#[trigger] more[i])
        &&& is_listed(sessions[more[i]], all)
        &&& crate::summary::is_summary(views[i], sessions[more[i]], now)
    } by {
        let a = if i < p {
            i
        } else {
            i - 1
        };
        if i != p {
            assert(sessions.dom().contains(keys[a]));
            assert(views[i] == summary_views(list)[a]);
        }
    }
}

impl Store {
    /// The store without sessions.
    pub fn new() -> (r: Store)
        ensures
            r@ == Map::<Seq<char>, SessionView>::empty(),
    {
        let r = Store { sessions: Keyed::new() };
        assert(r@ =~= Map::<Seq<char>, SessionView>::empty());
        r
    }

    /// Makes the session known, with its directory and its file, unless it has them already.
    pub fn touch(&mut self, sid: &str, cwd: &str, file_path: &str)
        ensures
            final(self)@ == old(self)@.insert(
                sid@,
                touched(session_or_fresh(old(self)@, sid@), cwd@, file_path@),
            ),
    {
        let ghost before = self.sessions@;
        let ghost known = session_or_fresh(self@, sid@);
        let f = |s: &mut SessionState|
            ensures
                final(s)@ == touched(old(s)@, cwd@, file_path@),
            {
                if s.cwd.as_str().is_empty() {
                    s.cwd = cwd.to_owned();
                }
                if s.file_path.as_str().is_empty() {
                    s.file_path = file_path.to_owned();
                }
                assert(s@ =~= touched(old(s)@, cwd@, file_path@));
            };
        self.mutate_or_create(sid, f);
        proof {
            lemma_views_insert(before, sid@, self.sessions@[sid@]);
        }
    }

    /// Lets `f` change the session `sid`, and hands on what it returns; does nothing where there
    /// is no such session.
    pub fn with_session_mut<F, R>(&mut self, sid: &str, f: F) -> (r: Option<R>) where
        F: FnOnce(&mut SessionState) -> R,

        requires
            forall|s: &mut SessionState|
                old(self).sessions@.dom().contains(sid@) && *s == old(self).sessions@[sid@]
                    ==> f.requires((s,)),
        ensures
            r is Some == old(self)@.dom().contains(sid@),
            r is None ==> *final(self) == *old(self),
            r is Some ==> final(self).sessions@ == old(self).sessions@.insert(
                sid@,
                final(self).sessions@[sid@],
            ),
            r is Some ==> exists|s: &mut SessionState| #[trigger]
                f.ensures((s,), r->0) && *s == old(self).sessions@[sid@]
                && *final(s) == final(self).sessions@[sid@],
    {
        self.sessions.change(sid, f)
    }

    /// Lets `f` change the session `sid`, which is made where there is none, and hands on what it
    /// returns.
    pub fn mutate_or_create<F, R>(&mut self, sid: &str, f: F) -> (r: R) where
        F: FnOnce(&mut SessionState) -> R,

        requires
            forall|s: &mut SessionState|
                s@ == session_or_fresh(old(self)@, sid@) && (old(self).sessions@.dom().contains(
                    sid@,
                ) ==> *s == old(self).sessions@[sid@]) ==> f.requires((s,)),
        ensures
            final(self).sessions@ == old(self).sessions@.insert(
                sid@,
                final(self).sessions@[sid@],
            ),
            exists|s: &mut SessionState| #[trigger]
                f.ensures((s,), r) && s@ == session_or_fresh(old(self)@, sid@)
                && (old(self).sessions@.dom().contains(sid@) ==> *s == old(self).sessions@[sid@])
                && *final(s) == final(self).sessions@[sid@],
    {
        if self.sessions.get(sid).is_none() {
            let s = SessionState::new(sid);
            self.sessions.insert(sid, s);
        }
        let ghost made = self.sessions@;
        assert(made[sid@]@ == session_or_fresh(old(self)@, sid@));
        let out = self.sessions.change(sid, f);
        assert(self.sessions@ =~= old(self).sessions@.insert(sid@, self.sessions@[sid@]));
        out.unwrap()
    }

    /// The summaries of all sessions at `now`, in no particular order.
    pub fn all_summaries_at(&self, now: Seconds) -> (r: Vec<SessionSummary>)
        ensures
            lists_sessions(summary_views(r@), self@, now@, true),
    {
        let n: usize = self.sessions.len();
        let ghost entries = self.sessions.list();
        let ghost mut keys: Seq<Seq<char>> = Seq::empty();
        let mut out: Vec<SessionSummary> = Vec::new();
        let mut i: usize = 0;
        while i < n
            invariant
                i <= n == entries.len(),
                entries == self.sessions.list(),
                crate::keyed::distinct(entries),
                keys.len() == i,
                summarises(summary_views(out@), keys, self@, now@, true),
                forall|k: Seq<char>|
                    keys.contains(k) ==> exists|j: int|
                        0 <= j < i && (#[trigger] entries[j]).0 == k,
                forall|j: int| 0 <= j < i ==> keys.contains((#[trigger] entries[j]).0),
            decreases n - i,
        {
            let (sid, s) = self.sessions.entry(i);
            let summary = s.summary_at(now);
            let ghost before = out@;
            let ghost known = keys;
            out.push(summary);
            proof {
                keys = keys.insert(i as int, sid@);
                lemma_place(before, known, i as int, summary, sid@, self@, now@, true);
                lemma_inserted(known, i as int, sid@);
                assert(before.push(summary) =~= before.insert(i as int, summary));
            }
            i += 1;
        }
        proof {
            assert forall|k: Seq<char>| #[trigger]
                self@.dom().contains(k) implies keys.contains(k) by {
                lemma_key_listed(entries, k);
                let j = choose|j: int| 0 <= j < entries.len() && (#[trigger] entries[j]).0 == k;
                assert(keys.contains(entries[j].0));
            }
            assert(summarises(summary_views(out@), keys, self@, now@, true));
        }
        out
    }

    /// The summaries of the sessions worth showing at `now`, the most urgent first.
    pub fn snapshot_at(&self, now: Seconds) -> (r: SnapshotPayload)
        ensures
            r.now == now,
            lists_sessions(summary_views(r.sessions@), self@, now@, false),
            is_sorted(summary_views(r.sessions@)),
    {
        let n: usize = self.sessions.len();
        let ghost entries = self.sessions.list();
        let ghost mut keys: Seq<Seq<char>> = Seq::empty();
        let mut out: Vec<SessionSummary> = Vec::new();
        let mut i: usize = 0;
        while i < n
            invariant
                i <= n == entries.len(),
                entries == self.sessions.list(),
                crate::keyed::distinct(entries),
                is_sorted(summary_views(out@)),
                summarises(summary_views(out@), keys, self@, now@, false),
                forall|k: Seq<char>|
                    keys.contains(k) ==> exists|j: int|
                        0 <= j < i && (#[trigger] entries[j]).0 == k,
                forall|j: int|
                    0 <= j < i && is_visible((#[trigger] entries[j]).1@) ==> keys.contains(
                        entries[j].0,
                    ),
            decreases n - i,
        {
            let (sid, s) = self.sessions.entry(i);
            let ghost known = keys;
            if !s.file_path.as_str().is_empty() && s.event_count > 0 {
                let summary = s.summary_at(now);
                let ghost before = out@;
                let p = insert_sorted(&mut out, summary);
                proof {
                    keys = keys.insert(p as int, sid@);
                    lemma_place(before, known, p as int, summary, sid@, self@, now@, false);
                    lemma_inserted(known, p as int, sid@);
                }
            }
            i += 1;
        }
        proof {
            assert forall|k: Seq<char>| #[trigger]
                self@.dom().contains(k) && is_visible(self@[k]) implies keys.contains(k) by {
                lemma_key_listed(entries, k);
                let j = choose|j: int| 0 <= j < entries.len() && (#[trigger] entries[j]).0 == k;
                crate::keyed::lemma_entry(entries, j);
            }
            assert(summarises(summary_views(out@), keys, self@, now@, false));
        }
        SnapshotPayload { now, sessions: out }
    }

    /// The summary of the session `sid` at `now`.
    pub fn session_summary_at(&self, sid: &str, now: Seconds) -> (r: Option<SessionSummary>)
        ensures
            r is Some == self@.dom().contains(sid@),
            r matches Some(s) ==> crate::summary::is_summary(s@, self@[sid@], now@),
    {
        match self.sessions.get(sid) {
            Some(s) => Some(s.summary_at(now)),
            None => None,
        }
    }

    /// The summaries of all sessions by the clock, in no particular order.
    pub fn all_summaries(&self) -> (r: Vec<SessionSummary>)
        ensures
            exists|now: int| now >= 0 && #[trigger] lists_sessions(
                summary_views(r@),
                self@,
                now,
                true,
            ),
    {
        self.all_summaries_at(now_secs())
    }

    /// The summaries of the sessions worth showing by the clock, the most urgent first.
    pub fn snapshot(&self) -> (r: SnapshotPayload)
        ensures
            r.now@ >= 0,
            lists_sessions(summary_views(r.sessions@), self@, r.now@, false),
            is_sorted(summary_views(r.sessions@)),
    {
        self.snapshot_at(now_secs())
    }

    /// The summary of the session `sid` by the clock.
    pub fn session_summary(&self, sid: &str) -> (r: Option<SessionSummary>)
        ensures
            r is Some == self@.dom().contains(sid@),
            r matches Some(s) ==> exists|now: int|
                now >= 0 && #[trigger] crate::summary::is_summary(s@, self@[sid@], now),
    {
        self.session_summary_at(sid, now_secs())
    }

    /// What is told of the session `sid` at `now`; nothing where there is no such session.
    pub fn publish_session_at(&self, sid: &str, now: Seconds) -> (r: Option<Event>)
        ensures
            r is Some == self@.dom().contains(sid@),
            r matches Some(e) ==> e matches Event::SessionUpdate(s) && crate::summary::is_summary(
                s@,
                self@[sid@],
                now@,
            ),
    {
        match self.session_summary_at(sid, now) {
            Some(s) => Some(Event::SessionUpdate(s)),
            None => None,
        }
    }

    /// What is told of the session `sid` by the clock; nothing where there is no such session.
    pub fn publish_session(&self, sid: &str) -> (r: Option<Event>)
        ensures
            r is Some == self@.dom().contains(sid@),
            r matches Some(e) ==> e matches Event::SessionUpdate(s) && exists|now: int|
                now >= 0 && #[trigger] crate::summary::is_summary(s@, self@[sid@], now),
    {
        self.publish_session_at(sid, now_secs())
    }

    /// What is told of the cards of the session `sid`; nothing where there is no such session.
    pub fn publish_task(&self, sid: &str) -> (r: Option<Event>)
        ensures
            r is Some == self@.dom().contains(sid@),
            r matches Some(e) ==> e matches Event::TaskUpdate { sid: s, todos } && s@ == sid@
                && crate::parser::todo_views(todos@) == crate::summary::shown_todos(
                self@[sid@],
            ).0,
    {
        match self.sessions.get(sid) {
            Some(s) => {
                let (todos, _source) = s.shown();
                Some(Event::TaskUpdate { sid: sid.to_owned(), todos })
            },
            None => None,
        }
    }

    /// The sign of life at `now`.
    pub fn publish_heartbeat_at(now: Seconds) -> (r: Event)
        ensures
            r == (Event::Heartbeat { ts: now }),
    {
        Event::Heartbeat { ts: now }
    }

    /// The sign of life by the clock.
    pub fn publish_heartbeat(&self) -> (r: Event)
        ensures
            r matches Event::Heartbeat { ts } && ts@ >= 0,
    {
        Store::publish_heartbeat_at(now_secs())
    }
}

// ---------------------------------------------------------------------------------------------
// Laws
// ---------------------------------------------------------------------------------------------

/// The first directory and the first file that are told of a session stay; to tell them again
/// changes nothing.
pub proof fn law_first_touch_wins(
    s: SessionView,
    cwd: Seq<char>,
    file_path: Seq<char>,
    other_cwd: Seq<char>,
    other_path: Seq<char>,
)
    ensures
        touched(touched(s, cwd, file_path), cwd, file_path) == touched(s, cwd, file_path),
        cwd.len() > 0 ==> touched(touched(s, cwd, file_path), other_cwd, other_path).cwd == touched(
            s,
            cwd,
            file_path,
        ).cwd,
        file_path.len() > 0 ==> touched(
            touched(s, cwd, file_path),
            other_cwd,
            other_path,
        ).file_path == touched(s, cwd, file_path).file_path,
{
}

/// A session that has a file is shown from its first event on.
pub proof fn law_told_session_is_shown(
    s: SessionView,
    cwd: Seq<char>,
    file_path: Seq<char>,
    event: crate::json::JsonModel,
)
    requires
        s.event_count >= 0,
        file_path.len() > 0,
    ensures
        is_visible(crate::parser::after_event(touched(s, cwd, file_path), event)),
{
    let known = touched(s, cwd, file_path);
    crate::parser::law_event_keeps(known, event);
    crate::parser::law_every_event_counts(known, event);
}

/// A session in which no event was seen is not shown.
pub proof fn law_untold_session_is_hidden(sid: Seq<char>, cwd: Seq<char>, file_path: Seq<char>)
    ensures
        !is_visible(touched(crate::parser::fresh_session(sid), cwd, file_path)),
{
}

/// Sorted by urgency: those that need permission, those that wait for the user, those that run,
/// those that are idle. Among those that ask for a human the oldest stand first, among the others
/// the newest.
pub proof fn law_urgency_first(list: Seq<SummaryView>, i: int, j: int)
    requires
        is_sorted(list),
        0 <= i < j < list.len(),
    ensures
        rank_of(list[i].status) <= rank_of(list[j].status),
        list[i].status == list[j].status && is_urgent(list[i].status)
            ==> crate::seconds::millis_spec(list[i].last_event_ts) <= crate::seconds::millis_spec(
            list[j].last_event_ts,
        ),
        list[i].status == list[j].status && !is_urgent(list[i].status)
            ==> crate::seconds::millis_spec(list[i].last_event_ts) >= crate::seconds::millis_spec(
            list[j].last_event_ts,
        ),
{
    assert(key_le(key_of(list[i]), key_of(list[j])));
}

/// The ranks of the four statuses.
pub proof fn law_ranks()
    ensures
        rank_of(crate::status::Status::NeedsPermission.name_spec()) == 0,
        rank_of(crate::status::Status::WaitingForUser.name_spec()) == 1,
        rank_of(crate::status::Status::Running.name_spec()) == 2,
        rank_of(crate::status::Status::Idle.name_spec()) == 3,
        is_urgent(crate::status::Status::NeedsPermission.name_spec()),
        is_urgent(crate::status::Status::WaitingForUser.name_spec()),
        !is_urgent(crate::status::Status::Running.name_spec()),
        !is_urgent(crate::status::Status::Idle.name_spec()),
{
    let p = crate::status::Status::NeedsPermission;
    let w = crate::status::Status::WaitingForUser;
    let r = crate::status::Status::Running;
    let i = crate::status::Status::Idle;
    if p.name_spec() == w.name_spec() {
        crate::status::lemma_names_differ(p, w);
    }
    if p.name_spec() == r.name_spec() {
        crate::status::lemma_names_differ(p, r);
    }
    if p.name_spec() == i.name_spec() {
        crate::status::lemma_names_differ(p, i);
    }
    if w.name_spec() == r.name_spec() {
        crate::status::lemma_names_differ(w, r);
    }
    if w.name_spec() == i.name_spec() {
        crate::status::lemma_names_differ(w, i);
    }
    if r.name_spec() == i.name_spec() {
        crate::status::lemma_names_differ(r, i);
    }
}

/// Every session is kept under its own id.
pub open spec fn filed_by_id(sessions: Map<Seq<char>, SessionView>) -> bool {
    forall|k: Seq<char>| #[trigger] sessions.dom().contains(k) ==> sessions[k].sid == k
}

/// Whatever is told of a session, it stays filed under its own id.
pub proof fn law_filed_by_id(
    sessions: Map<Seq<char>, SessionView>,
    sid: Seq<char>,
    cwd: Seq<char>,
    file_path: Seq<char>,
    lines: Seq<Seq<char>>,
    todos: Seq<crate::parser::TodoView>,
)
    requires
        filed_by_id(sessions),
    ensures
        filed_by_id(
            sessions.insert(sid, touched(session_or_fresh(sessions, sid), cwd, file_path)),
        ),
        filed_by_id(
            sessions.insert(
                sid,
                crate::parser::after_lines(session_or_fresh(sessions, sid), lines),
            ),
        ),
        filed_by_id(
            sessions.insert(
                sid,
                crate::monitor::with_file_todos(session_or_fresh(sessions, sid), todos),
            ),
        ),
{
    crate::parser::law_lines_keep(session_or_fresh(sessions, sid), lines);
}

/// Where sessions are filed by their ids, a list of them names no id twice.
pub proof fn law_listed_once(
    list: Seq<SummaryView>,
    sessions: Map<Seq<char>, SessionView>,
    now: int,
    all: bool,
)
    requires
        filed_by_id(sessions),
        lists_sessions(list, sessions, now, all),
    ensures
        crate::pulse::ids_distinct(list),
        forall|k: Seq<char>| #[trigger]
            sessions.dom().contains(k) && is_listed(sessions[k], all) ==> exists|i: int|
                0 <= i < list.len() && (#[trigger] list[i]).sid == k,
{
    let keys = choose|keys: Seq<Seq<char>>| #[trigger]
        summarises(list, keys, sessions, now, all) && forall|k: Seq<char>| #[trigger]
            sessions.dom().contains(k) && is_listed(sessions[k], all) ==> keys.contains(k);
    assert forall|i: int| 0 <= i < list.len() implies (#[trigger] list[i]).sid == keys[i] by {
        assert(sessions.dom().contains(keys[i]));
    }
    assert forall|i: int, j: int| 0 <= i < j < list.len() implies (#[trigger] list[i]).sid != (
    #[trigger] list[j]).sid by {
        assert(keys[i] != keys[j]);
    }
    assert forall|k: Seq<char>| #[trigger]
        sessions.dom().contains(k) && is_listed(sessions[k], all) implies exists|i: int|
        0 <= i < list.len() && (#[trigger] list[i]).sid == k by {
        assert(keys.contains(k));
        let i = choose|i: int| 0 <= i < keys.len() && keys[i] == k;
        assert(list[i].sid == k);
    }
}

} // verus!
