//! What a session shows of itself.
use vstd::prelude::*;

use crate::checklist::parse_checklist;
use crate::parser::copy_todos;
use crate::parser::PendingView;
use crate::parser::SessionState;
use crate::parser::SessionView;
use crate::parser::Todo;
use crate::parser::TodoView;
use crate::seconds::now_secs;
use crate::seconds::Seconds;
use crate::status::classify;
use crate::status::Defaults;

verus! {

/// A pending tool call, with its id.
#[derive(Debug)]
pub struct PendingToolOut {
    pub id: String,
    pub name: String,
    pub started_at: Seconds,
}

/// The content of a [`PendingToolOut`].
pub struct PendingOutView {
    pub id: Seq<char>,
    pub name: Seq<char>,
    pub started_at: int,
}

impl View for PendingToolOut {
    type V = PendingOutView;

    open spec fn view(&self) -> PendingOutView {
        PendingOutView { id: self.id@, name: self.name@, started_at: self.started_at@ }
    }
}

impl Clone for PendingToolOut {
    fn clone(&self) -> (r: PendingToolOut)
        ensures
            r == *self,
    {
        PendingToolOut {
            id: self.id.clone(),
            name: self.name.clone(),
            started_at: self.started_at,
        }
    }
}

/// What a session shows of itself.
#[derive(Debug)]
pub struct SessionSummary {
    pub sid: String,
    pub cwd: String,
    pub status: &'static str,
    pub last_event_ts: Seconds,
    pub last_user_input_ts: Seconds,
    pub last_assistant_ts: Seconds,
    pub last_stop_ts: Seconds,
    pub last_stop_reason: String,
    pub last_tool_name: String,
    pub pending_tools: Vec<PendingToolOut>,
    pub first_user_text: String,
    pub last_assistant_text: String,
    pub event_count: u64,
    pub todos: Vec<Todo>,
    pub todos_source: &'static str,
}

/// The content of a [`SessionSummary`].
#[verifier::ext_equal]
pub struct SummaryView {
    pub sid: Seq<char>,
    pub cwd: Seq<char>,
    pub status: Seq<char>,
    pub last_event_ts: int,
    pub last_user_input_ts: int,
    pub last_assistant_ts: int,
    pub last_stop_ts: int,
    pub last_stop_reason: Seq<char>,
    pub last_tool_name: Seq<char>,
    pub pending_tools: Seq<PendingOutView>,
    pub first_user_text: Seq<char>,
    pub last_assistant_text: Seq<char>,
    pub event_count: int,
    pub todos: Seq<TodoView>,
    pub todos_source: Seq<char>,
}

/// The contents of listed tool calls.
pub open spec fn out_views(tools: Seq<PendingToolOut>) -> Seq<PendingOutView> {
    Seq::new(tools.len(), |i: int| tools[i]@)
}

impl View for SessionSummary {
    type V = SummaryView;

    open spec fn view(&self) -> SummaryView {
        SummaryView {
            sid: self.sid@,
            cwd: self.cwd@,
            status: self.status@,
            last_event_ts: self.last_event_ts@,
            last_user_input_ts: self.last_user_input_ts@,
            last_assistant_ts: self.last_assistant_ts@,
            last_stop_ts: self.last_stop_ts@,
            last_stop_reason: self.last_stop_reason@,
            last_tool_name: self.last_tool_name@,
            pending_tools: out_views(self.pending_tools@),
            first_user_text: self.first_user_text@,
            last_assistant_text: self.last_assistant_text@,
            event_count: self.event_count as int,
            todos: crate::parser::todo_views(self.todos@),
            todos_source: self.todos_source@,
        }
    }
}

/// A copy of listed tool calls.
fn copy_tools(tools: &Vec<PendingToolOut>) -> (r: Vec<PendingToolOut>)
    ensures
        out_views(r@) == out_views(tools@),
{
    let mut out: Vec<PendingToolOut> = Vec::new();
    let mut i: usize = 0;
    while i < tools.len()
        invariant
            i <= tools@.len(),
            out@ == tools@.take(i as int),
        decreases tools@.len() - i,
    {
        out.push(tools[i].clone());
        assert(tools@.take(i + 1) =~= tools@.take(i as int).push(tools@[i as int]));
        i += 1;
    }
    assert(tools@.take(tools@.len() as int) =~= tools@);
    out
}

impl Clone for SessionSummary {
    fn clone(&self) -> (r: SessionSummary)
        ensures
            r@ == self@,
    {
        SessionSummary {
            sid: self.sid.clone(),
            cwd: self.cwd.clone(),
            status: self.status,
            last_event_ts: self.last_event_ts,
            last_user_input_ts: self.last_user_input_ts,
            last_assistant_ts: self.last_assistant_ts,
            last_stop_ts: self.last_stop_ts,
            last_stop_reason: self.last_stop_reason.clone(),
            last_tool_name: self.last_tool_name.clone(),
            pending_tools: copy_tools(&self.pending_tools),
            first_user_text: self.first_user_text.clone(),
            last_assistant_text: self.last_assistant_text.clone(),
            event_count: self.event_count,
            todos: copy_todos(&self.todos),
            todos_source: self.todos_source,
        }
    }
}

/// The most characters of a text that a summary shows.
pub const SHOWN_CHARS: usize = 200;

/// The first `n` characters of `s`, or all where there are no more.
pub open spec fn truncate_spec(s: Seq<char>, n: int) -> Seq<char> {
    if s.len() <= n {
        s
    } else {
        s.take(n)
    }
}

/// The first `n` characters of `s`, or all where there are no more.
pub fn truncate(s: &str, n: usize) -> (r: String)
    ensures
        r@ == truncate_spec(s@, n as int),
{
    let cs = crate::text::chars_of(s);
    if cs.len() <= n {
        return s.to_owned();
    }
    crate::text::string_of(&cs, 0, n)
}

/// `list` names each pending tool call once, and nothing else.
pub open spec fn lists_tools(
    list: Seq<PendingOutView>,
    tools: Map<Seq<char>, PendingView>,
) -> bool {
    &&& forall|i: int, j: int|
        0 <= i < j < list.len() ==> (#[trigger] list[i]).id != (#[trigger] list[j]).id
    &&& forall|i: int|
        0 <= i < list.len() ==> tools.dom().contains((#[trigger] list[i]).id)
            && tools[list[i].id] == (PendingView {
            name: list[i].name,
            started_at: list[i].started_at,
        })
    &&& forall|id: Seq<char>| #[trigger]
        tools.dom().contains(id) ==> exists|i: int|
            0 <= i < list.len() && (#[trigger] list[i]).id == id
}

/// The cards of a session and where they come from: its todo file, else the last cards that it
/// wrote, else the checklist in its last text.
pub open spec fn shown_todos(s: SessionView) -> (Seq<TodoView>, Seq<char>) {
    let scraped = crate::checklist::cards_of(s.last_assistant_text);
    if s.todos.len() > 0 {
        (s.todos, "todo_file"@)
    } else if s.todos_from_jsonl.len() > 0 {
        (s.todos_from_jsonl, "jsonl"@)
    } else if scraped.len() > 0 {
        (scraped, "checklist"@)
    } else {
        (Seq::empty(), "none"@)
    }
}

/// The name of the status of a session, by the default periods.
pub open spec fn default_status(s: SessionView, now: int) -> Seq<char> {
    crate::status::status_at(s, now, Defaults::default_spec()).name_spec()
}

/// `r` is the summary of the session `s` at `now`.
pub open spec fn is_summary(r: SummaryView, s: SessionView, now: int) -> bool {
    &&& r == (SummaryView {
        sid: s.sid,
        cwd: s.cwd,
        status: default_status(s, now),
        last_event_ts: s.last_event_ts,
        last_user_input_ts: s.last_user_input_ts,
        last_assistant_ts: s.last_assistant_ts,
        last_stop_ts: s.last_stop_ts,
        last_stop_reason: s.last_stop_reason,
        last_tool_name: s.last_tool_name,
        pending_tools: r.pending_tools,
        first_user_text: truncate_spec(s.first_user_text, SHOWN_CHARS as int),
        last_assistant_text: truncate_spec(s.last_assistant_text, SHOWN_CHARS as int),
        event_count: s.event_count,
        todos: shown_todos(s).0,
        todos_source: shown_todos(s).1,
    })
    &&& lists_tools(r.pending_tools, s.pending_tools)
}

/// The pending tool calls of a session, with their ids.
fn list_tools(state: &SessionState) -> (r: Vec<PendingToolOut>)
    ensures
        lists_tools(out_views(r@), state@.pending_tools),
{
    let tools = &state.pending_tools;
    let n: usize = tools.len();
    let mut out: Vec<PendingToolOut> = Vec::new();
    let mut i: usize = 0;
    while i < n
        invariant
            i <= n == tools.list().len(),
            *tools == state.pending_tools,
            crate::keyed::distinct(tools.list()),
            out@.len() == i,
            forall|j: int|
                0 <= j < i ==> (#[trigger] out@[j]).id@ == tools.list()[j].0 && out@[j].name@
                    == tools.list()[j].1.name@ && out@[j].started_at
                    == tools.list()[j].1.started_at,
        decreases n - i,
    {
        let (id, tool) = tools.entry(i);
        out.push(
            PendingToolOut {
                id: id.clone(),
                name: tool.name.clone(),
                started_at: tool.started_at,
            },
        );
        i += 1;
    }
    proof {
        let list = out_views(out@);
        assert forall|i: int, j: int| 0 <= i < j < list.len() implies (#[trigger] list[i]).id != (
        #[trigger] list[j]).id by {
            assert(tools.list()[i].0 != tools.list()[j].0);
        }
        assert forall|i: int| 0 <= i < list.len() implies state@.pending_tools.dom().contains(
            (#[trigger] list[i]).id,
        ) && state@.pending_tools[list[i].id] == (PendingView {
            name: list[i].name,
            started_at: list[i].started_at,
        }) by {
            crate::keyed::lemma_entry(tools.list(), i);
        }
        assert forall|id: Seq<char>| #[trigger]
            state@.pending_tools.dom().contains(id) implies exists|i: int|
            0 <= i < list.len() && (#[trigger] list[i]).id == id by {
            let j = choose|j: int| crate::keyed::key_at(tools.list(), id, j);
            assert(crate::keyed::key_at(tools.list(), id, j));
            assert(list[j].id == id);
        }
    }
    out
}

impl SessionState {
    /// The cards of the session and where they come from.
    pub fn shown(&self) -> (r: (Vec<Todo>, &'static str))
        ensures
            (crate::parser::todo_views(r.0@), r.1@) == shown_todos(self@),
    {
        if self.todos.len() > 0 {
            return (copy_todos(&self.todos), "todo_file");
        }
        if self.todos_from_jsonl.len() > 0 {
            return (copy_todos(&self.todos_from_jsonl), "jsonl");
        }
        let cards = parse_checklist(self.last_assistant_text.as_str());
        if cards.len() > 0 {
            return (cards, "checklist");
        }
        let none: Vec<Todo> = Vec::new();
        assert(crate::parser::todo_views(none@) =~= Seq::<TodoView>::empty());
        (none, "none")
    }

    /// What the session shows of itself at `now`.
    pub fn summary_at(&self, now: Seconds) -> (r: SessionSummary)
        ensures
            is_summary(r@, self@, now@),
    {
        let status = classify(self, now, Defaults::default());
        let (todos, todos_source) = self.shown();
        SessionSummary {
            sid: self.sid.clone(),
            cwd: self.cwd.clone(),
            status,
            last_event_ts: self.last_event_ts,
            last_user_input_ts: self.last_user_input_ts,
            last_assistant_ts: self.last_assistant_ts,
            last_stop_ts: self.last_stop_ts,
            last_stop_reason: self.last_stop_reason.clone(),
            last_tool_name: self.last_tool_name.clone(),
            pending_tools: list_tools(self),
            first_user_text: truncate(self.first_user_text.as_str(), SHOWN_CHARS),
            last_assistant_text: truncate(self.last_assistant_text.as_str(), SHOWN_CHARS),
            event_count: self.event_count,
            todos,
            todos_source,
        }
    }

    /// What the session shows of itself by the clock.
    pub fn to_summary(&self) -> (r: SessionSummary)
        ensures
            exists|now: int| now >= 0 && #[trigger] is_summary(r@, self@, now),
    {
        self.summary_at(now_secs())
    }
}

// ---------------------------------------------------------------------------------------------
// Laws
// ---------------------------------------------------------------------------------------------

/// What is shown of a text is its beginning, and no more than the limit; a text within the limit
/// is shown whole.
pub proof fn law_truncated(s: Seq<char>, n: int)
    requires
        0 <= n,
    ensures
        truncate_spec(s, n).len() <= n,
        truncate_spec(s, n) == s.take(truncate_spec(s, n).len() as int),
        s.len() <= n ==> truncate_spec(s, n) == s,
        s.len() > n ==> truncate_spec(s, n).len() == n,
{
    assert(s.take(s.len() as int) =~= s);
}

/// The cards come from the first source that has any: the todo file, the cards that the session
/// wrote, the checklist in its last text.
pub proof fn law_first_source_wins(s: SessionView)
    ensures
        s.todos.len() > 0 ==> shown_todos(s) == (s.todos, "todo_file"@),
        s.todos.len() == 0 && s.todos_from_jsonl.len() > 0 ==> shown_todos(s) == (
            s.todos_from_jsonl,
            "jsonl"@,
        ),
        s.todos.len() == 0 && s.todos_from_jsonl.len() == 0 ==> shown_todos(s).0
            == crate::checklist::cards_of(s.last_assistant_text),
        (shown_todos(s).0.len() == 0) == (shown_todos(s).1 == "none"@),
{
    reveal_strlit("todo_file");
    reveal_strlit("jsonl");
    reveal_strlit("checklist");
    reveal_strlit("none");
    assert("todo_file"@.len() == 9);
    assert("jsonl"@.len() == 5);
    assert("checklist"@.len() == 9);
    assert("none"@.len() == 4);
    if s.todos.len() == 0 && s.todos_from_jsonl.len() == 0 {
        assert(crate::checklist::cards_of(s.last_assistant_text).len() == 0
            ==> crate::checklist::cards_of(s.last_assistant_text) =~= Seq::<TodoView>::empty());
    }
}

} // verus!
