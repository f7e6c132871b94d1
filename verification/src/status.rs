//! The status of a session at a point in time.
use vstd::prelude::*;

use crate::parser::PendingView;
use crate::parser::SessionState;
use crate::parser::SessionView;
use crate::seconds::Seconds;

verus! {

/// What a session is doing.
#[derive(Clone, Copy, PartialEq, Eq, Structural, Debug)]
pub enum Status {
    NeedsPermission,
    WaitingForUser,
    Running,
    Idle,
}

impl Status {
    /// The name of the status.
    pub open spec fn name_spec(self) -> Seq<char> {
        match self {
            Status::NeedsPermission => "needs_permission"@,
            Status::WaitingForUser => "waiting_for_user"@,
            Status::Running => "running"@,
            Status::Idle => "idle"@,
        }
    }

    /// The name of the status.
    pub fn name(self) -> (r: &'static str)
        ensures
            r@ == self.name_spec(),
    {
        match self {
            Status::NeedsPermission => "needs_permission",
            Status::WaitingForUser => "waiting_for_user",
            Status::Running => "running",
            Status::Idle => "idle",
        }
    }
}

/// No two statuses have the same name.
pub proof fn lemma_names_differ(a: Status, b: Status)
    requires
        a.name_spec() == b.name_spec(),
    ensures
        a == b,
{
    reveal_strlit("needs_permission");
    reveal_strlit("waiting_for_user");
    reveal_strlit("running");
    reveal_strlit("idle");
    assert("needs_permission"@[0] != "waiting_for_user"@[0]);
    assert("needs_permission"@.len() == 16);
    assert("waiting_for_user"@.len() == 16);
    assert("running"@.len() == 7);
    assert("idle"@.len() == 4);
}

/// The periods that decide on the status.
#[derive(Clone, Copy, Debug)]
pub struct Defaults {
    /// How long a permission event asks for attention.
    pub perm_window: Seconds,
    /// How long a tool call may go without a result.
    pub stuck_threshold: Seconds,
    /// How long a tool call without a result is taken seriously.
    pub stuck_max: Seconds,
    /// How long a session may be silent.
    pub idle_threshold: Seconds,
}

impl Defaults {
    /// Half a minute, a minute, half an hour and six hours.
    pub open spec fn default_spec() -> Defaults {
        Defaults {
            perm_window: Seconds { ticks: (30 * crate::seconds::SECOND) as i128 },
            stuck_threshold: Seconds { ticks: (60 * crate::seconds::SECOND) as i128 },
            stuck_max: Seconds { ticks: (1800 * crate::seconds::SECOND) as i128 },
            idle_threshold: Seconds { ticks: (21600 * crate::seconds::SECOND) as i128 },
        }
    }
}

impl Default for Defaults {
    fn default() -> (r: Defaults)
        ensures
            r == Defaults::default_spec(),
    {
        Defaults {
            perm_window: Seconds::whole(30),
            stuck_threshold: Seconds::whole(60),
            stuck_max: Seconds::whole(30 * 60),
            idle_threshold: Seconds::whole(6 * 3600),
        }
    }
}

/// How long an event keeps a session running that has not stopped yet.
pub const ACTIVE_SECS: i64 = 5;

/// The tool call has not been abandoned: it is no older than `stuck_max`.
pub open spec fn is_live(tool: PendingView, now: int, d: Defaults) -> bool {
    crate::seconds::age(tool.started_at, now) <= d.stuck_max@
}

/// The tool call has gone without a result for too long, and has not been abandoned.
pub open spec fn is_stuck(tool: PendingView, now: int, d: Defaults) -> bool {
    is_live(tool, now, d) && crate::seconds::age(tool.started_at, now) > d.stuck_threshold@
}

/// Some pending tool call has not been abandoned.
pub open spec fn some_live(tools: Map<Seq<char>, PendingView>, now: int, d: Defaults) -> bool {
    exists|id: Seq<char>| #[trigger] tools.dom().contains(id) && is_live(tools[id], now, d)
}

/// Some pending tool call has gone without a result for too long, and has not been abandoned.
pub open spec fn some_stuck(tools: Map<Seq<char>, PendingView>, now: int, d: Defaults) -> bool {
    exists|id: Seq<char>| #[trigger]
        tools.dom().contains(id) && is_stuck(tools[id], now, d)
}

/// The session has been silent for so long that nothing else counts.
pub open spec fn is_silent(s: SessionView, now: int, d: Defaults) -> bool {
    s.last_event_ts <= 0 || crate::seconds::age(s.last_event_ts, now) >= d.idle_threshold@
}

/// A permission event asks for attention.
pub open spec fn permission_asked(s: SessionView, now: int, d: Defaults) -> bool {
    s.last_permission_event_ts > 0 && crate::seconds::age(s.last_permission_event_ts, now)
        < d.perm_window@
}

/// The assistant stopped, and the user has not replied.
pub open spec fn reply_awaited(s: SessionView) -> bool {
    s.last_stop_ts > 0 && s.last_user_input_ts < s.last_stop_ts
}

/// An event came just now, and the assistant has never stopped.
pub open spec fn is_active(s: SessionView, now: int) -> bool {
    crate::seconds::age(s.last_event_ts, now) < ACTIVE_SECS * crate::seconds::SECOND
        && s.last_stop_ts == 0
}

/// The status of a session at `now`: the first of the rules that applies.
pub open spec fn status_at(s: SessionView, now: int, d: Defaults) -> Status {
    if is_silent(s, now, d) {
        Status::Idle
    } else if permission_asked(s, now, d) {
        Status::NeedsPermission
    } else if some_stuck(s.pending_tools, now, d) {
        Status::NeedsPermission
    } else if some_live(s.pending_tools, now, d) {
        Status::Running
    } else if s.has_active_subagent_task {
        Status::Running
    } else if reply_awaited(s) {
        Status::WaitingForUser
    } else if is_active(s, now) {
        Status::Running
    } else {
        Status::Idle
    }
}

/// Whether some pending tool call has not been abandoned, and whether one of these is stuck.
fn look_at_tools(state: &SessionState, now: Seconds, d: Defaults) -> (r: (bool, bool))
    ensures
        r.0 == some_live(state@.pending_tools, now@, d),
        r.1 == some_stuck(state@.pending_tools, now@, d),
{
    let tools = &state.pending_tools;
    let n: usize = tools.len();
    let ghost views = state@.pending_tools;
    let ghost list = tools.list();
    let mut live: bool = false;
    let mut stuck: bool = false;
    let mut i: usize = 0;
    while i < n
        invariant
            i <= n == list.len(),
            list == tools.list(),
            *tools == state.pending_tools,
            views == state@.pending_tools,
            crate::keyed::distinct(list),
            live ==> some_live(views, now@, d),
            stuck ==> some_stuck(views, now@, d),
            !live ==> forall|j: int|
                0 <= j < i ==> !is_live((#[trigger] list[j]).1@, now@, d),
            !stuck ==> forall|j: int|
                0 <= j < i ==> !is_stuck((#[trigger] list[j]).1@, now@, d),
        decreases n - i,
    {
        let (id, tool) = tools.entry(i);
        assert(views.dom().contains(id@) && views[id@] == list[i as int].1@);
        if !now.is_past(tool.started_at, d.stuck_max) {
            live = true;
            if now.is_past(tool.started_at, d.stuck_threshold) {
                stuck = true;
            }
        }
        i += 1;
    }
    assert forall|id: Seq<char>| #[trigger] views.dom().contains(id) implies exists|j: int|
        0 <= j < list.len() && (#[trigger] list[j]).1@ == views[id] by {
        let j = choose|j: int| crate::keyed::key_at(list, id, j);
        assert(crate::keyed::key_at(list, id, j));
        crate::keyed::lemma_entry(list, j);
        assert(list[j].1@ == views[id]);
    }
    (live, stuck)
}

/// The status of a session.
pub fn session_status(state: &SessionState, now: Seconds, d: Defaults) -> (r: Status)
    ensures
        r == status_at(state@, now@, d),
{
    if state.last_event_ts.ticks <= 0 || !now.is_within(state.last_event_ts, d.idle_threshold) {
        return Status::Idle;
    }
    if state.last_permission_event_ts.ticks > 0 && now.is_within(
        state.last_permission_event_ts,
        d.perm_window,
    ) {
        return Status::NeedsPermission;
    }
    let (live, stuck) = look_at_tools(state, now, d);
    if stuck {
        return Status::NeedsPermission;
    }
    if live {
        return Status::Running;
    }
    if state.has_active_subagent_task {
        return Status::Running;
    }
    if state.last_stop_ts.ticks > 0 && state.last_user_input_ts.ticks < state.last_stop_ts.ticks {
        return Status::WaitingForUser;
    }
    if now.is_within(state.last_event_ts, Seconds::whole(ACTIVE_SECS)) && state.last_stop_ts.ticks
        == 0 {
        return Status::Running;
    }
    Status::Idle
}

/// The name of the status of a session.
pub fn classify(state: &SessionState, now: Seconds, d: Defaults) -> (r: &'static str)
    ensures
        r@ == status_at(state@, now@, d).name_spec(),
{
    session_status(state, now, d).name()
}

// ---------------------------------------------------------------------------------------------
// Laws
// ---------------------------------------------------------------------------------------------

/// The rules by their priority: a session that has been silent for long is idle, whatever else
/// there is; of the others, a need for permission comes first, then what is running, then what
/// waits for the user; what is left is idle.
pub proof fn law_priority(s: SessionView, now: int, d: Defaults)
    ensures
        is_silent(s, now, d) ==> status_at(s, now, d) == Status::Idle,
        !is_silent(s, now, d) ==> {
            let asks = permission_asked(s, now, d) || some_stuck(s.pending_tools, now, d);
            let runs = some_live(s.pending_tools, now, d) || s.has_active_subagent_task
                || is_active(s, now);
            status_at(s, now, d) == (if asks {
                Status::NeedsPermission
            } else if runs {
                Status::Running
            } else if reply_awaited(s) {
                Status::WaitingForUser
            } else {
                Status::Idle
            })
        },
{
}

/// A tool call that has been abandoned counts for nothing: without it the status is the same.
pub proof fn law_abandoned_tool_is_ignored(s: SessionView, id: Seq<char>, now: int, d: Defaults)
    requires
        s.pending_tools.dom().contains(id),
        !is_live(s.pending_tools[id], now, d),
    ensures
        status_at(s, now, d) == status_at(
            (SessionView { pending_tools: s.pending_tools.remove(id), ..s }),
            now,
            d,
        ),
{
    let tools = s.pending_tools;
    let rest = tools.remove(id);
    assert(some_live(tools, now, d) == some_live(rest, now, d)) by {
        if some_live(tools, now, d) {
            let k = choose|k: Seq<char>| #[trigger]
                tools.dom().contains(k) && is_live(tools[k], now, d);
            assert(rest.dom().contains(k));
        }
        if some_live(rest, now, d) {
            let k = choose|k: Seq<char>| #[trigger]
                rest.dom().contains(k) && is_live(rest[k], now, d);
            assert(tools.dom().contains(k));
        }
    }
    assert(some_stuck(tools, now, d) == some_stuck(rest, now, d)) by {
        if some_stuck(tools, now, d) {
            let k = choose|k: Seq<char>| #[trigger]
                tools.dom().contains(k) && is_stuck(tools[k], now, d);
            assert(rest.dom().contains(k));
        }
        if some_stuck(rest, now, d) {
            let k = choose|k: Seq<char>| #[trigger]
                rest.dom().contains(k) && is_stuck(rest[k], now, d);
            assert(tools.dom().contains(k));
        }
    }
}

/// A session with a tool call that has not been abandoned needs permission or runs, unless it has
/// been silent for long.
pub proof fn law_live_tool_counts(s: SessionView, id: Seq<char>, now: int, d: Defaults)
    requires
        s.pending_tools.dom().contains(id),
        is_live(s.pending_tools[id], now, d),
        !is_silent(s, now, d),
    ensures
        status_at(s, now, d) == Status::NeedsPermission || status_at(s, now, d)
            == Status::Running,
        is_stuck(s.pending_tools[id], now, d) ==> status_at(s, now, d) == Status::NeedsPermission,
{
}

/// A session with an active task does not wait for the user, and is idle only where it has been
/// silent for long.
pub proof fn law_active_task_runs(s: SessionView, now: int, d: Defaults)
    requires
        s.has_active_subagent_task,
        !is_silent(s, now, d),
    ensures
        status_at(s, now, d) == Status::Running || status_at(s, now, d)
            == Status::NeedsPermission,
{
}

/// A session that has fallen silent stays idle until an event comes.
pub proof fn law_silence_lasts(s: SessionView, now: int, later: int, d: Defaults)
    requires
        is_silent(s, now, d),
        now <= later,
    ensures
        status_at(s, later, d) == Status::Idle,
{
    crate::seconds::law_rounding_keeps_order(now - s.last_event_ts, later - s.last_event_ts);
}

/// A session in which nothing has happened is idle.
pub proof fn law_new_session_is_idle(sid: Seq<char>, now: int, d: Defaults)
    ensures
        status_at(crate::parser::fresh_session(sid), now, d) == Status::Idle,
{
}

} // verus!
