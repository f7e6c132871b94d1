//! Sessions, and what their event stream says of them.
use vstd::prelude::*;

use crate::json::Json;
use crate::json::JsonModel;
use crate::keyed::Keyed;
use crate::seconds::Seconds;
use crate::text::same;

pub use crate::checklist::parse_checklist;
pub use crate::seconds::now_secs;
pub use crate::status::classify;
pub use crate::status::Defaults;
pub use crate::summary::PendingToolOut;
pub use crate::summary::SessionSummary;

verus! {

// ---------------------------------------------------------------------------------------------
// Data
// ---------------------------------------------------------------------------------------------

/// A tool call that has no result yet.
#[derive(Debug)]
pub struct PendingTool {
    pub name: String,
    pub started_at: Seconds,
}

/// The content of a [`PendingTool`].
pub struct PendingView {
    pub name: Seq<char>,
    pub started_at: int,
}

impl View for PendingTool {
    type V = PendingView;

    open spec fn view(&self) -> PendingView {
        PendingView { name: self.name@, started_at: self.started_at@ }
    }
}

impl Clone for PendingTool {
    fn clone(&self) -> (r: PendingTool)
        ensures
            r == *self,
    {
        PendingTool { name: self.name.clone(), started_at: self.started_at }
    }
}

impl Default for PendingTool {
    fn default() -> (r: PendingTool)
        ensures
            r@ == (PendingView { name: Seq::empty(), started_at: 0 }),
    {
        PendingTool { name: String::new(), started_at: Seconds::zero() }
    }
}

/// One card of the board.
#[derive(Debug)]
pub struct Todo {
    pub content: String,
    pub status: String,
    pub active_form: String,
}

/// The content of a [`Todo`].
pub struct TodoView {
    pub content: Seq<char>,
    pub status: Seq<char>,
    pub active_form: Seq<char>,
}

impl View for Todo {
    type V = TodoView;

    open spec fn view(&self) -> TodoView {
        TodoView { content: self.content@, status: self.status@, active_form: self.active_form@ }
    }
}

impl Clone for Todo {
    fn clone(&self) -> (r: Todo)
        ensures
            r == *self,
    {
        Todo {
            content: self.content.clone(),
            status: self.status.clone(),
            active_form: self.active_form.clone(),
        }
    }
}

impl Default for Todo {
    fn default() -> (r: Todo)
        ensures
            r@ == (TodoView {
                content: Seq::empty(),
                status: Seq::empty(),
                active_form: Seq::empty(),
            }),
    {
        Todo { content: String::new(), status: String::new(), active_form: String::new() }
    }
}

/// The contents of a list of cards.
pub open spec fn todo_views(todos: Seq<Todo>) -> Seq<TodoView> {
    Seq::new(todos.len(), |i: int| todos[i]@)
}

/// What is known of a session.
#[derive(Debug)]
pub struct SessionState {
    pub sid: String,
    pub cwd: String,
    pub file_path: String,
    pub pending_tools: Keyed<PendingTool>,
    pub last_event_ts: Seconds,
    pub last_user_input_ts: Seconds,
    pub last_assistant_ts: Seconds,
    pub last_stop_ts: Seconds,
    pub last_stop_reason: String,
    pub last_permission_event_ts: Seconds,
    pub first_user_text: String,
    pub last_assistant_text: String,
    pub last_tool_name: String,
    pub event_count: u64,
    pub todos: Vec<Todo>,
    pub todos_from_jsonl: Vec<Todo>,
    pub has_active_subagent_task: bool,
}

/// The content of a [`SessionState`]; points in time are in ticks.
#[verifier::ext_equal]
pub struct SessionView {
    pub sid: Seq<char>,
    pub cwd: Seq<char>,
    pub file_path: Seq<char>,
    pub pending_tools: Map<Seq<char>, PendingView>,
    pub last_event_ts: int,
    pub last_user_input_ts: int,
    pub last_assistant_ts: int,
    pub last_stop_ts: int,
    pub last_stop_reason: Seq<char>,
    pub last_permission_event_ts: int,
    pub first_user_text: Seq<char>,
    pub last_assistant_text: Seq<char>,
    pub last_tool_name: Seq<char>,
    pub event_count: int,
    pub todos: Seq<TodoView>,
    pub todos_from_jsonl: Seq<TodoView>,
    pub has_active_subagent_task: bool,
}

/// The contents of the pending tool calls.
pub open spec fn pending_views(tools: Map<Seq<char>, PendingTool>) -> Map<Seq<char>, PendingView> {
    Map::new(|k: Seq<char>| tools.dom().contains(k), |k: Seq<char>| tools[k]@)
}

impl View for SessionState {
    type V = SessionView;

    open spec fn view(&self) -> SessionView {
        SessionView {
            sid: self.sid@,
            cwd: self.cwd@,
            file_path: self.file_path@,
            pending_tools: pending_views(self.pending_tools@),
            last_event_ts: self.last_event_ts@,
            last_user_input_ts: self.last_user_input_ts@,
            last_assistant_ts: self.last_assistant_ts@,
            last_stop_ts: self.last_stop_ts@,
            last_stop_reason: self.last_stop_reason@,
            last_permission_event_ts: self.last_permission_event_ts@,
            first_user_text: self.first_user_text@,
            last_assistant_text: self.last_assistant_text@,
            last_tool_name: self.last_tool_name@,
            event_count: self.event_count as int,
            todos: todo_views(self.todos@),
            todos_from_jsonl: todo_views(self.todos_from_jsonl@),
            has_active_subagent_task: self.has_active_subagent_task,
        }
    }
}

/// A session of which nothing is known but its id.
pub open spec fn fresh_session(sid: Seq<char>) -> SessionView {
    SessionView {
        sid,
        cwd: Seq::empty(),
        file_path: Seq::empty(),
        pending_tools: Map::empty(),
        last_event_ts: 0,
        last_user_input_ts: 0,
        last_assistant_ts: 0,
        last_stop_ts: 0,
        last_stop_reason: Seq::empty(),
        last_permission_event_ts: 0,
        first_user_text: Seq::empty(),
        last_assistant_text: Seq::empty(),
        last_tool_name: Seq::empty(),
        event_count: 0,
        todos: Seq::empty(),
        todos_from_jsonl: Seq::empty(),
        has_active_subagent_task: false,
    }
}

impl SessionState {
    /// A session of which nothing is known but its id.
    pub fn new(sid: &str) -> (r: SessionState)
        ensures
            r@ == fresh_session(sid@),
    {
        let r = SessionState {
            sid: sid.to_owned(),
            cwd: String::new(),
            file_path: String::new(),
            pending_tools: Keyed::new(),
            last_event_ts: Seconds::zero(),
            last_user_input_ts: Seconds::zero(),
            last_assistant_ts: Seconds::zero(),
            last_stop_ts: Seconds::zero(),
            last_stop_reason: String::new(),
            last_permission_event_ts: Seconds::zero(),
            first_user_text: String::new(),
            last_assistant_text: String::new(),
            last_tool_name: String::new(),
            event_count: 0,
            todos: Vec::new(),
            todos_from_jsonl: Vec::new(),
            has_active_subagent_task: false,
        };
        assert(r@ =~= fresh_session(sid@));
        r
    }
}

impl Default for SessionState {
    fn default() -> (r: SessionState)
        ensures
            r@ == fresh_session(Seq::empty()),
    {
        proof {
            reveal_strlit("");
            assert(""@ =~= Seq::<char>::empty());
        }
        SessionState::new("")
    }
}

/// A copy of some cards.
pub fn copy_todos(todos: &Vec<Todo>) -> (r: Vec<Todo>)
    ensures
        todo_views(r@) == todo_views(todos@),
{
    let mut out: Vec<Todo> = Vec::new();
    let mut i: usize = 0;
    while i < todos.len()
        invariant
            i <= todos@.len(),
            out@ == todos@.take(i as int),
        decreases todos@.len() - i,
    {
        out.push(todos[i].clone());
        assert(todos@.take(i + 1) =~= todos@.take(i as int).push(todos@[i as int]));
        i += 1;
    }
    assert(todos@.take(todos@.len() as int) =~= todos@);
    out
}

impl Clone for SessionState {
    fn clone(&self) -> (r: SessionState)
        ensures
            r@ == self@,
    {
        let pending_tools = self.pending_tools.clone();
        assert(pending_tools.list() =~= self.pending_tools.list());
        let r = SessionState {
            sid: self.sid.clone(),
            cwd: self.cwd.clone(),
            file_path: self.file_path.clone(),
            pending_tools,
            last_event_ts: self.last_event_ts,
            last_user_input_ts: self.last_user_input_ts,
            last_assistant_ts: self.last_assistant_ts,
            last_stop_ts: self.last_stop_ts,
            last_stop_reason: self.last_stop_reason.clone(),
            last_permission_event_ts: self.last_permission_event_ts,
            first_user_text: self.first_user_text.clone(),
            last_assistant_text: self.last_assistant_text.clone(),
            last_tool_name: self.last_tool_name.clone(),
            event_count: self.event_count,
            todos: copy_todos(&self.todos),
            todos_from_jsonl: copy_todos(&self.todos_from_jsonl),
            has_active_subagent_task: self.has_active_subagent_task,
        };
        assert(r@ =~= self@);
        r
    }
}

// ---------------------------------------------------------------------------------------------
// Events
// ---------------------------------------------------------------------------------------------

/// The point in time that a `timestamp` gives: seconds since the epoch as a number, or a date and
/// time in RFC 3339 as a text.
pub open spec fn time_of(value: JsonModel) -> Option<int> {
    match value {
        JsonModel::Number(bits) => crate::seconds::double_ticks(bits),
        JsonModel::Text(s) => match crate::seconds::rfc3339_instant(s) {
            Some((secs, nanos)) => Some(
                crate::seconds::instant_ticks(secs as int, nanos as nat),
            ),
            None => None,
        },
        _ => None,
    }
}

/// The point in time that a `timestamp` gives.
pub fn parse_ts(value: &Json) -> (r: Option<Seconds>)
    ensures
        r is Some == time_of(value@) is Some,
        r matches Some(s) ==> time_of(value@) == Some(s@),
{
    match value {
        Json::Number(bits) => crate::seconds::seconds_of_double(*bits),
        Json::Text(s) => crate::seconds::seconds_of_rfc3339(s.as_str()),
        _ => None,
    }
}

/// When the event happened.
pub open spec fn event_time(event: JsonModel) -> Option<int> {
    match event.field("timestamp"@) {
        Some(v) => time_of(v),
        None => None,
    }
}

/// The card that an object describes; what it lacks is empty, but for the status.
pub open spec fn todo_of(item: JsonModel) -> TodoView {
    TodoView {
        content: item.text_field_or("content"@, Seq::empty()),
        status: item.text_field_or("status"@, "pending"@),
        active_form: item.text_field_or("activeForm"@, Seq::empty()),
    }
}

/// The cards that the objects in a list describe, in their order.
pub open spec fn todos_of(items: Seq<JsonModel>) -> Seq<TodoView>
    decreases items.len(),
{
    if items.len() == 0 {
        Seq::empty()
    } else if items.last() is Object {
        todos_of(items.drop_last()).push(todo_of(items.last()))
    } else {
        todos_of(items.drop_last())
    }
}

/// The card that an object describes.
pub fn todo_from(item: &Json) -> (r: Todo)
    ensures
        r@ == todo_of(item@),
{
    proof {
        reveal_strlit("");
        assert(""@ =~= Seq::<char>::empty());
    }
    Todo {
        content: item.get_str_or("content", "").to_owned(),
        status: item.get_str_or("status", "pending").to_owned(),
        active_form: item.get_str_or("activeForm", "").to_owned(),
    }
}

/// The cards that the objects in a list describe.
pub fn todos_from(items: &Vec<Json>) -> (r: Vec<Todo>)
    ensures
        todo_views(r@) == todos_of(crate::json::models(items@)),
{
    let ghost all = crate::json::models(items@);
    let mut out: Vec<Todo> = Vec::new();
    let mut i: usize = 0;
    while i < items.len()
        invariant
            i <= items@.len(),
            all == crate::json::models(items@),
            todo_views(out@) == todos_of(all.take(i as int)),
        decreases items@.len() - i,
    {
        assert(all.take(i + 1).drop_last() == all.take(i as int));
        assert(all.take(i + 1).last() == items@[i as int]@);
        if items[i].is_object() {
            let todo = todo_from(&items[i]);
            let ghost before = out@;
            out.push(todo);
            assert(todo_views(out@) =~= todo_views(before).push(todo@));
        }
        i += 1;
    }
    assert(all.take(items@.len() as int) == all);
    out
}

/// Some card is in progress.
pub open spec fn some_in_progress(todos: Seq<TodoView>) -> bool {
    exists|i: int| 0 <= i < todos.len() && (#[trigger] todos[i]).status == "in_progress"@
}

/// Whether some card is in progress.
pub fn any_in_progress(todos: &Vec<Todo>) -> (r: bool)
    ensures
        r == some_in_progress(todo_views(todos@)),
{
    let ghost views = todo_views(todos@);
    let mut i: usize = 0;
    while i < todos.len()
        invariant
            i <= todos@.len(),
            views == todo_views(todos@),
            forall|j: int| 0 <= j < i ==> (#[trigger] views[j]).status != "in_progress"@,
        decreases todos@.len() - i,
    {
        assert(views[i as int] == todos@[i as int]@);
        if same(todos[i].status.as_str(), "in_progress") {
            return true;
        }
        i += 1;
    }
    false
}

/// The list of cards that a `TodoWrite` call writes.
pub open spec fn written_todos(block: JsonModel) -> Option<Seq<JsonModel>> {
    match block.field("input"@) {
        Some(input) => match input.field("todos"@) {
            Some(todos) => todos.items(),
            None => None,
        },
        None => None,
    }
}

/// A tool call: it is pending from now on (unless it has no id), and where it is `TodoWrite`, the
/// cards are those that it writes; a task is active where one of them, or of those in the todo file,
/// is in progress.
pub open spec fn after_tool_use(s: SessionView, ts: int, block: JsonModel) -> SessionView {
    let id = block.text_field_or("id"@, Seq::empty());
    let name = block.text_field_or("name"@, Seq::empty());
    let called = if id.len() > 0 {
        SessionView {
            pending_tools: s.pending_tools.insert(id, PendingView { name, started_at: ts }),
            last_tool_name: name,
            ..s
        }
    } else {
        s
    };
    match written_todos(block) {
        Some(items) if name == "TodoWrite"@ => SessionView {
            todos_from_jsonl: todos_of(items),
            has_active_subagent_task: some_in_progress(todos_of(items)) || some_in_progress(s.todos),
            ..called
        },
        _ => called,
    }
}

/// One block of what the assistant said: a tool call, or a text.
pub open spec fn after_assistant_block(s: SessionView, ts: int, block: JsonModel) -> SessionView {
    let kind = block.text_field_or("type"@, Seq::empty());
    let words = block.text_field_or("text"@, Seq::empty());
    if kind == "tool_use"@ {
        after_tool_use(s, ts, block)
    } else if kind == "text"@ && words.len() > 0 {
        SessionView { last_assistant_text: words, ..s }
    } else {
        s
    }
}

/// All blocks of what the assistant said, in their order.
pub open spec fn after_assistant_blocks(
    s: SessionView,
    ts: int,
    blocks: Seq<JsonModel>,
) -> SessionView
    decreases blocks.len(),
{
    if blocks.len() == 0 {
        s
    } else {
        after_assistant_block(
            after_assistant_blocks(s, ts, blocks.drop_last()),
            ts,
            blocks.last(),
        )
    }
}

/// The blocks of a message, where its content is a list.
pub open spec fn message_blocks(message: JsonModel) -> Option<Seq<JsonModel>> {
    match message.field("content"@) {
        Some(content) => content.items(),
        None => None,
    }
}

/// A message of the assistant: its blocks, and the reason to stop where it gives one.
pub open spec fn after_assistant(s: SessionView, ts: int, message: JsonModel) -> SessionView {
    let heard = SessionView { last_assistant_ts: ts, ..s };
    let read = match message_blocks(message) {
        Some(blocks) => after_assistant_blocks(heard, ts, blocks),
        None => heard,
    };
    match message.text_field("stop_reason"@) {
        Some(reason) => SessionView { last_stop_reason: reason, last_stop_ts: ts, ..read },
        None => read,
    }
}

/// `text` becomes the first text of the user, unless there is one.
pub open spec fn with_first_text(s: SessionView, text: Seq<char>) -> SessionView {
    if s.first_user_text.len() == 0 {
        SessionView { first_user_text: text, ..s }
    } else {
        s
    }
}

/// One block of what the user sent: the result of a tool call, or a text.
pub open spec fn after_user_block(s: SessionView, block: JsonModel) -> SessionView {
    let kind = block.text_field_or("type"@, Seq::empty());
    if kind == "tool_result"@ {
        match block.text_field("tool_use_id"@) {
            Some(id) => SessionView { pending_tools: s.pending_tools.remove(id), ..s },
            None => s,
        }
    } else if kind == "text"@ {
        match block.text_field("text"@) {
            Some(text) => with_first_text(s, text),
            None => s,
        }
    } else {
        s
    }
}

/// All blocks of what the user sent, in their order.
pub open spec fn after_user_blocks(s: SessionView, blocks: Seq<JsonModel>) -> SessionView
    decreases blocks.len(),
{
    if blocks.len() == 0 {
        s
    } else {
        after_user_block(after_user_blocks(s, blocks.drop_last()), blocks.last())
    }
}

/// The block is a text.
pub open spec fn is_text_block(block: JsonModel) -> bool {
    block.text_field_or("type"@, Seq::empty()) == "text"@
}

/// Some block is a text.
pub open spec fn has_text_block(blocks: Seq<JsonModel>) -> bool {
    exists|i: int| 0 <= i < blocks.len() && #[trigger] is_text_block(blocks[i])
}

/// The user spoke at `ts`.
pub open spec fn with_user_input(s: SessionView, ts: int) -> SessionView {
    SessionView { last_user_input_ts: ts, ..s }
}

/// A message of the user: a list of blocks, or one text. It counts as input where it holds a
/// text.
pub open spec fn after_user(s: SessionView, ts: int, message: JsonModel) -> SessionView {
    match message_blocks(message) {
        Some(blocks) => {
            let read = after_user_blocks(s, blocks);
            if has_text_block(blocks) {
                with_user_input(read, ts)
            } else {
                read
            }
        },
        None => match message.text_field("content"@) {
            Some(text) => with_user_input(with_first_text(s, text), ts),
            None => s,
        },
    }
}

/// The message that an event carries.
pub open spec fn event_message(event: JsonModel) -> JsonModel {
    match event.field("message"@) {
        Some(m) => m,
        None => JsonModel::Null,
    }
}

/// The session after an event. Every event counts; one without a timestamp does no more.
pub open spec fn after_event(s: SessionView, event: JsonModel) -> SessionView {
    let counted = SessionView { event_count: s.event_count + 1, ..s };
    match event_time(event) {
        None => counted,
        Some(ts) => {
            let kind = event.text_field_or("type"@, Seq::empty());
            let seen = SessionView { last_event_ts: ts, ..counted };
            if kind == "assistant"@ {
                after_assistant(seen, ts, event_message(event))
            } else if kind == "user"@ {
                after_user(seen, ts, event_message(event))
            } else if kind == "permission-mode"@ {
                SessionView { last_permission_event_ts: ts, ..seen }
            } else {
                seen
            }
        },
    }
}

proof fn lemma_pending_insert(tools: Map<Seq<char>, PendingTool>, id: Seq<char>, tool: PendingTool)
    ensures
        pending_views(tools.insert(id, tool)) == pending_views(tools).insert(id, tool@),
{
    assert(pending_views(tools.insert(id, tool)) =~= pending_views(tools).insert(id, tool@));
}

proof fn lemma_pending_remove(tools: Map<Seq<char>, PendingTool>, id: Seq<char>)
    ensures
        pending_views(tools.remove(id)) == pending_views(tools).remove(id),
{
    assert(pending_views(tools.remove(id)) =~= pending_views(tools).remove(id));
}

/// A tool call.
fn apply_tool_use(state: &mut SessionState, ts: Seconds, block: &Json)
    ensures
        final(state)@ == after_tool_use(old(state)@, ts@, block@),
{
    proof {
        reveal_strlit("");
        assert(""@ =~= Seq::<char>::empty());
    }
    let id = block.get_str_or("id", "");
    let name = block.get_str_or("name", "");
    if !id.is_empty() {
        let tool = PendingTool { name: name.to_owned(), started_at: ts };
        proof {
            lemma_pending_insert(state.pending_tools@, id@, tool);
        }
        state.pending_tools.insert(id, tool);
        state.last_tool_name = name.to_owned();
    }
    let ghost called = state@;
    if same(name, "TodoWrite") {
        if let Some(input) = block.get("input") {
            if let Some(todos) = input.get("todos") {
                if let Some(items) = todos.as_array() {
                    let written = todos_from(items);
                    state.has_active_subagent_task = any_in_progress(&written) || any_in_progress(
                        &state.todos,
                    );
                    state.todos_from_jsonl = written;
                    let ghost cards = todos_of(crate::json::models(items@));
                    assert(state@ =~= SessionView {
                        todos_from_jsonl: cards,
                        has_active_subagent_task: some_in_progress(cards) || some_in_progress(
                            called.todos,
                        ),
                        ..called
                    });
                }
            }
        }
    }
    assert(state@ =~= after_tool_use(old(state)@, ts@, block@));
}

/// One block of what the assistant said.
fn apply_assistant_block(state: &mut SessionState, ts: Seconds, block: &Json)
    ensures
        final(state)@ == after_assistant_block(old(state)@, ts@, block@),
{
    proof {
        reveal_strlit("");
        assert(""@ =~= Seq::<char>::empty());
    }
    let kind = block.get_str_or("type", "");
    if same(kind, "tool_use") {
        apply_tool_use(state, ts, block);
    } else if same(kind, "text") {
        let words = block.get_str_or("text", "");
        if !words.is_empty() {
            state.last_assistant_text = words.to_owned();
        }
        assert(state@ =~= after_assistant_block(old(state)@, ts@, block@));
    }
}

/// A message of the assistant.
fn apply_assistant(state: &mut SessionState, ts: Seconds, message: &Json)
    ensures
        final(state)@ == after_assistant(old(state)@, ts@, message@),
{
    state.last_assistant_ts = ts;
    let ghost heard = state@;
    if let Some(content) = message.get("content") {
        if let Some(blocks) = content.as_array() {
            let ghost all = crate::json::models(blocks@);
            assert(all.take(0) == Seq::<JsonModel>::empty());
            let mut i: usize = 0;
            while i < blocks.len()
                invariant
                    i <= blocks@.len(),
                    all == crate::json::models(blocks@),
                    state@ == after_assistant_blocks(heard, ts@, all.take(i as int)),
                decreases blocks@.len() - i,
            {
                assert(all.take(i + 1).drop_last() == all.take(i as int));
                assert(all.take(i + 1).last() == blocks@[i as int]@);
                apply_assistant_block(state, ts, &blocks[i]);
                i += 1;
            }
            assert(all.take(blocks@.len() as int) == all);
        }
    }
    if let Some(reason) = message.get_str("stop_reason") {
        state.last_stop_reason = reason.to_owned();
        state.last_stop_ts = ts;
    }
    assert(state@ =~= after_assistant(old(state)@, ts@, message@));
}

/// One block of what the user sent. Returns whether it is a text.
fn apply_user_block(state: &mut SessionState, block: &Json) -> (r: bool)
    ensures
        final(state)@ == after_user_block(old(state)@, block@),
        r == is_text_block(block@),
{
    proof {
        reveal_strlit("");
        assert(""@ =~= Seq::<char>::empty());
        reveal_strlit("text");
        reveal_strlit("tool_result");
        assert("text"@.len() != "tool_result"@.len());
    }
    let kind = block.get_str_or("type", "");
    if same(kind, "tool_result") {
        if let Some(id) = block.get_str("tool_use_id") {
            proof {
                lemma_pending_remove(state.pending_tools@, id@);
            }
            state.pending_tools.remove(id);
        }
        assert(state@ =~= after_user_block(old(state)@, block@));
        false
    } else if same(kind, "text") {
        if state.first_user_text.as_str().is_empty() {
            if let Some(text) = block.get_str("text") {
                state.first_user_text = text.to_owned();
            }
        }
        assert(state@ =~= after_user_block(old(state)@, block@));
        true
    } else {
        false
    }
}

/// A message of the user.
fn apply_user(state: &mut SessionState, ts: Seconds, message: &Json)
    ensures
        final(state)@ == after_user(old(state)@, ts@, message@),
{
    let ghost start = state@;
    let mut had_text: bool = false;
    if let Some(content) = message.get("content") {
        if let Some(blocks) = content.as_array() {
            let ghost all = crate::json::models(blocks@);
            assert(all.take(0) == Seq::<JsonModel>::empty());
            let mut i: usize = 0;
            while i < blocks.len()
                invariant
                    i <= blocks@.len(),
                    all == crate::json::models(blocks@),
                    state@ == after_user_blocks(start, all.take(i as int)),
                    had_text == (exists|j: int|
                        0 <= j < i && #[trigger] is_text_block(all[j])),
                decreases blocks@.len() - i,
            {
                assert(all.take(i + 1).drop_last() == all.take(i as int));
                assert(all.take(i + 1).last() == blocks@[i as int]@);
                let is_text = apply_user_block(state, &blocks[i]);
                if is_text {
                    assert(is_text_block(all[i as int]));
                    had_text = true;
                }
                i += 1;
            }
            assert(all.take(blocks@.len() as int) == all);
            assert(had_text == has_text_block(all));
        } else if let Some(text) = content.as_str() {
            had_text = true;
            if state.first_user_text.as_str().is_empty() {
                state.first_user_text = text.to_owned();
            }
        }
    }
    if had_text {
        state.last_user_input_ts = ts;
    }
    assert(state@ =~= after_user(old(state)@, ts@, message@));
}

/// Brings the session up to date with one event.
pub fn apply_event(state: &mut SessionState, event: &Json)
    requires
        old(state).event_count < u64::MAX,
    ensures
        final(state)@ == after_event(old(state)@, event@),
{
    proof {
        reveal_strlit("");
        assert(""@ =~= Seq::<char>::empty());
    }
    state.event_count = state.event_count + 1;
    let kind = event.get_str_or("type", "");
    let time = match event.get("timestamp") {
        Some(v) => parse_ts(v),
        None => None,
    };
    let ts = match time {
        Some(ts) => ts,
        None => {
            assert(state@ =~= after_event(old(state)@, event@));
            return;
        },
    };
    state.last_event_ts = ts;
    assert(state@ =~= SessionView {
        event_count: old(state)@.event_count + 1,
        last_event_ts: ts@,
        ..old(state)@
    });
    if same(kind, "assistant") {
        match event.get("message") {
            Some(message) => apply_assistant(state, ts, message),
            None => apply_assistant(state, ts, &Json::Null),
        }
    } else if same(kind, "user") {
        match event.get("message") {
            Some(message) => apply_user(state, ts, message),
            None => apply_user(state, ts, &Json::Null),
        }
    } else if same(kind, "permission-mode") {
        state.last_permission_event_ts = ts;
    }
    assert(state@ =~= after_event(old(state)@, event@));
}

// ---------------------------------------------------------------------------------------------
// Lines
// ---------------------------------------------------------------------------------------------

/// The session after what was read in a line: an event, or nothing that is one.
pub open spec fn after_reading(s: SessionView, event: Option<JsonModel>) -> SessionView {
    match event {
        Some(e) => after_event(s, e),
        None => s,
    }
}

/// What a line holds: the document in it, if it is one; a blank line holds nothing.
pub open spec fn line_event(line: Seq<char>) -> Option<JsonModel> {
    let words = crate::text::trim_spec(line);
    if words.len() == 0 {
        None
    } else {
        crate::json::json_in_text(words)
    }
}

/// The session after some lines of its event stream.
pub open spec fn after_lines(s: SessionView, lines: Seq<Seq<char>>) -> SessionView
    decreases lines.len(),
{
    if lines.len() == 0 {
        s
    } else {
        after_reading(after_lines(s, lines.drop_last()), line_event(lines.last()))
    }
}

/// Lines count at most one event each.
pub proof fn lemma_lines_count(s: SessionView, lines: Seq<Seq<char>>)
    ensures
        s.event_count <= after_lines(s, lines).event_count <= s.event_count + lines.len(),
    decreases lines.len(),
{
    if lines.len() > 0 {
        lemma_lines_count(s, lines.drop_last());
        let before = after_lines(s, lines.drop_last());
        if let Some(e) = line_event(lines.last()) {
            law_every_event_counts(before, e);
        }
    }
}

/// Lines can be read in two goes.
pub proof fn law_lines_in_two_goes(s: SessionView, a: Seq<Seq<char>>, b: Seq<Seq<char>>)
    ensures
        after_lines(s, a + b) == after_lines(after_lines(s, a), b),
    decreases b.len(),
{
    if b.len() == 0 {
        assert(a + b =~= a);
    } else {
        assert((a + b).drop_last() =~= a + b.drop_last());
        assert((a + b).last() == b.last());
        law_lines_in_two_goes(s, a, b.drop_last());
    }
}

/// A line that holds no document changes nothing.
pub proof fn law_garbage_is_skipped(s: SessionView, lines: Seq<Seq<char>>, line: Seq<char>)
    requires
        line_event(line) is None,
    ensures
        after_lines(s, lines.push(line)) == after_lines(s, lines),
{
    assert(lines.push(line).drop_last() =~= lines);
}

/// Every event counts once.
pub proof fn law_every_event_counts(s: SessionView, event: JsonModel)
    ensures
        after_event(s, event).event_count == s.event_count + 1,
{
    if let Some(ts) = event_time(event) {
        let seen = SessionView { event_count: s.event_count + 1, last_event_ts: ts, ..s };
        let message = event_message(event);
        if let Some(blocks) = message_blocks(message) {
            lemma_assistant_blocks_keep(SessionView { last_assistant_ts: ts, ..seen }, ts, blocks);
            lemma_user_blocks_keep(seen, blocks);
        }
    }
}

/// What the assistant says changes nothing but its last text, the pending tools, the name of the
/// last of them, the cards that were written and whether a task is active.
proof fn lemma_assistant_blocks_keep(s: SessionView, ts: int, blocks: Seq<JsonModel>)
    ensures
        ({
            let r = after_assistant_blocks(s, ts, blocks);
            r == SessionView {
                pending_tools: r.pending_tools,
                last_tool_name: r.last_tool_name,
                todos_from_jsonl: r.todos_from_jsonl,
                has_active_subagent_task: r.has_active_subagent_task,
                last_assistant_text: r.last_assistant_text,
                ..s
            }
        }),
    decreases blocks.len(),
{
    if blocks.len() > 0 {
        lemma_assistant_blocks_keep(s, ts, blocks.drop_last());
    }
}

/// What the user sends changes nothing but the pending tools and the first text.
proof fn lemma_user_blocks_keep(s: SessionView, blocks: Seq<JsonModel>)
    ensures
        ({
            let r = after_user_blocks(s, blocks);
            r == SessionView {
                pending_tools: r.pending_tools,
                first_user_text: r.first_user_text,
                ..s
            }
        }),
    decreases blocks.len(),
{
    if blocks.len() > 0 {
        lemma_user_blocks_keep(s, blocks.drop_last());
    }
}

/// Brings the session up to date with what was read in a line.
pub fn apply_reading(state: &mut SessionState, event: Option<Json>)
    requires
        old(state).event_count < u64::MAX,
    ensures
        final(state)@ == after_reading(
            old(state)@,
            match event {
                Some(e) => Some(e@),
                None => None,
            },
        ),
{
    match event {
        Some(e) => apply_event(state, &e),
        None => {},
    }
}

/// Reads one line of an event stream.
pub fn read_line(line: &str) -> (r: Option<Json>)
    ensures
        r is Some == line_event(line@) is Some,
        r matches Some(e) ==> line_event(line@) == Some(e@),
{
    let words = crate::text::trim(line);
    if words.as_str().is_empty() {
        return None;
    }
    crate::json::parse_json(words.as_str())
}

/// Brings the session up to date with some lines of its event stream. Blank lines, and those that
/// hold no JSON, are skipped.
pub fn parse_jsonl_lines(lines: Vec<String>, state: &mut SessionState)
    requires
        old(state).event_count + lines@.len() <= u64::MAX,
    ensures
        final(state)@ == after_lines(old(state)@, crate::text::string_views(lines@)),
{
    let ghost all = crate::text::string_views(lines@);
    let ghost start = state@;
    assert(all.take(0) =~= Seq::<Seq<char>>::empty());
    let mut i: usize = 0;
    while i < lines.len()
        invariant
            i <= lines@.len(),
            all == crate::text::string_views(lines@),
            state@ == after_lines(start, all.take(i as int)),
            start.event_count + lines@.len() <= u64::MAX,
        decreases lines@.len() - i,
    {
        proof {
            assert(all.take(i + 1).drop_last() =~= all.take(i as int));
            assert(all.take(i + 1).last() == lines@[i as int]@);
            lemma_lines_count(start, all.take(i as int));
        }
        let event = read_line(lines[i].as_str());
        apply_reading(state, event);
        i += 1;
    }
    assert(all.take(lines@.len() as int) =~= all);
}

// ---------------------------------------------------------------------------------------------
// Laws
// ---------------------------------------------------------------------------------------------

/// An event without a timestamp does not advance the clock: it is counted, and that is all.
pub proof fn law_untimed_event_only_counts(s: SessionView, event: JsonModel)
    requires
        event_time(event) is None,
    ensures
        after_event(s, event) == (SessionView { event_count: s.event_count + 1, ..s }),
{
}

/// An event with a timestamp becomes the last one.
pub proof fn law_timed_event_is_last(s: SessionView, event: JsonModel)
    requires
        event_time(event) is Some,
    ensures
        after_event(s, event).last_event_ts == event_time(event)->0,
{
    let ts = event_time(event)->0;
    let seen = SessionView { event_count: s.event_count + 1, last_event_ts: ts, ..s };
    if let Some(blocks) = message_blocks(event_message(event)) {
        lemma_assistant_blocks_keep(SessionView { last_assistant_ts: ts, ..seen }, ts, blocks);
        lemma_user_blocks_keep(seen, blocks);
    }
}

/// No event touches what the session is called, where it works, where its file is and the cards of
/// its todo file.
pub proof fn law_event_keeps(s: SessionView, event: JsonModel)
    ensures
        ({
            let r = after_event(s, event);
            &&& r.sid == s.sid
            &&& r.cwd == s.cwd
            &&& r.file_path == s.file_path
            &&& r.todos == s.todos
        }),
{
    if let Some(ts) = event_time(event) {
        let seen = SessionView { event_count: s.event_count + 1, last_event_ts: ts, ..s };
        if let Some(blocks) = message_blocks(event_message(event)) {
            lemma_assistant_blocks_keep(SessionView { last_assistant_ts: ts, ..seen }, ts, blocks);
            lemma_user_blocks_keep(seen, blocks);
        }
    }
}

/// No line of the event stream touches what the session is called, where it works, where its file
/// is and the cards of its todo file.
pub proof fn law_lines_keep(s: SessionView, lines: Seq<Seq<char>>)
    ensures
        ({
            let r = after_lines(s, lines);
            &&& r.sid == s.sid
            &&& r.cwd == s.cwd
            &&& r.file_path == s.file_path
            &&& r.todos == s.todos
        }),
    decreases lines.len(),
{
    if lines.len() > 0 {
        law_lines_keep(s, lines.drop_last());
        if let Some(e) = line_event(lines.last()) {
            law_event_keeps(after_lines(s, lines.drop_last()), e);
        }
    }
}

/// The block is a call of `TodoWrite` that writes a list of cards.
pub open spec fn writes_todos(block: JsonModel) -> bool {
    &&& block.text_field_or("type"@, Seq::empty()) == "tool_use"@
    &&& block.text_field_or("name"@, Seq::empty()) == "TodoWrite"@
    &&& written_todos(block) is Some
}

/// None of the blocks from `from` on writes cards.
pub open spec fn writes_none_from(blocks: Seq<JsonModel>, from: int) -> bool {
    forall|j: int| from <= j < blocks.len() ==> !writes_todos(#[trigger] blocks[j])
}

proof fn lemma_no_writing(s: SessionView, ts: int, blocks: Seq<JsonModel>)
    requires
        writes_none_from(blocks, 0),
    ensures
        ({
            let r = after_assistant_blocks(s, ts, blocks);
            &&& r.todos_from_jsonl == s.todos_from_jsonl
            &&& r.has_active_subagent_task == s.has_active_subagent_task
        }),
    decreases blocks.len(),
{
    if blocks.len() > 0 {
        let rest = blocks.drop_last();
        assert forall|j: int| 0 <= j < rest.len() implies !writes_todos(#[trigger] rest[j]) by {
            assert(!writes_todos(blocks[j]));
        }
        lemma_no_writing(s, ts, rest);
        assert(!writes_todos(blocks[rest.len() as int]));
    }
}

proof fn lemma_last_writing(s: SessionView, ts: int, blocks: Seq<JsonModel>, i: int)
    requires
        0 <= i < blocks.len(),
        writes_todos(blocks[i]),
        writes_none_from(blocks, i + 1),
    ensures
        ({
            let r = after_assistant_blocks(s, ts, blocks);
            let cards = todos_of(written_todos(blocks[i])->0);
            &&& r.todos_from_jsonl == cards
            &&& r.has_active_subagent_task == (some_in_progress(cards) || some_in_progress(
                s.todos,
            ))
        }),
    decreases blocks.len(),
{
    let rest = blocks.drop_last();
    lemma_assistant_blocks_keep(s, ts, rest);
    if i < rest.len() {
        assert(rest[i] == blocks[i]);
        assert forall|j: int| i + 1 <= j < rest.len() implies !writes_todos(#[trigger] rest[j]) by {
            assert(!writes_todos(blocks[j]));
        }
        lemma_last_writing(s, ts, rest, i);
        assert(!writes_todos(blocks[rest.len() as int]));
    }
}

/// An event in which no cards are written leaves the written cards as they are, and whether a task
/// is active.
pub proof fn law_no_cards_no_task(s: SessionView, event: JsonModel)
    requires
        message_blocks(event_message(event)) matches Some(blocks) ==> writes_none_from(blocks, 0),
    ensures
        after_event(s, event).todos_from_jsonl == s.todos_from_jsonl,
        after_event(s, event).has_active_subagent_task == s.has_active_subagent_task,
{
    if let Some(ts) = event_time(event) {
        let seen = SessionView { event_count: s.event_count + 1, last_event_ts: ts, ..s };
        if let Some(blocks) = message_blocks(event_message(event)) {
            lemma_no_writing(SessionView { last_assistant_ts: ts, ..seen }, ts, blocks);
            lemma_user_blocks_keep(seen, blocks);
        }
    }
}

/// The last cards that the assistant writes are the ones that count, and a task is active where,
/// and only where, one of them or of those in the todo file is in progress.
pub proof fn law_last_cards_count(
    s: SessionView,
    event: JsonModel,
    ts: int,
    blocks: Seq<JsonModel>,
    i: int,
)
    requires
        is_message(event, "assistant"@, ts, blocks),
        0 <= i < blocks.len(),
        writes_todos(blocks[i]),
        writes_none_from(blocks, i + 1),
    ensures
        ({
            let r = after_event(s, event);
            let cards = todos_of(written_todos(blocks[i])->0);
            &&& r.todos_from_jsonl == cards
            &&& r.has_active_subagent_task == (some_in_progress(cards) || some_in_progress(
                s.todos,
            ))
        }),
{
    let seen = SessionView { event_count: s.event_count + 1, last_event_ts: ts, ..s };
    lemma_last_writing(SessionView { last_assistant_ts: ts, ..seen }, ts, blocks, i);
}

proof fn lemma_user_blocks_keep_text(s: SessionView, blocks: Seq<JsonModel>)
    requires
        s.first_user_text.len() > 0,
    ensures
        after_user_blocks(s, blocks).first_user_text == s.first_user_text,
    decreases blocks.len(),
{
    if blocks.len() > 0 {
        lemma_user_blocks_keep_text(s, blocks.drop_last());
    }
}

/// The first text of the user stays.
pub proof fn law_first_text_stays(s: SessionView, event: JsonModel)
    requires
        s.first_user_text.len() > 0,
    ensures
        after_event(s, event).first_user_text == s.first_user_text,
{
    if let Some(ts) = event_time(event) {
        let seen = SessionView { event_count: s.event_count + 1, last_event_ts: ts, ..s };
        if let Some(blocks) = message_blocks(event_message(event)) {
            lemma_assistant_blocks_keep(SessionView { last_assistant_ts: ts, ..seen }, ts, blocks);
            lemma_user_blocks_keep_text(seen, blocks);
        }
    }
}

/// The event is a message of `kind`, at `ts`, with these blocks.
pub open spec fn is_message(
    event: JsonModel,
    kind: Seq<char>,
    ts: int,
    blocks: Seq<JsonModel>,
) -> bool {
    &&& event_time(event) == Some(ts)
    &&& event.text_field_or("type"@, Seq::empty()) == kind
    &&& message_blocks(event_message(event)) == Some(blocks)
}

/// The block is a call of a tool, with the id `id`.
pub open spec fn is_call(block: JsonModel, id: Seq<char>) -> bool {
    &&& block.text_field_or("type"@, Seq::empty()) == "tool_use"@
    &&& block.text_field_or("id"@, Seq::empty()) == id
}

/// The block is the result of the call with the id `id`.
pub open spec fn is_result(block: JsonModel, id: Seq<char>) -> bool {
    &&& block.text_field_or("type"@, Seq::empty()) == "tool_result"@
    &&& block.text_field("tool_use_id"@) == Some(id)
}

proof fn lemma_call_pends(s: SessionView, ts: int, blocks: Seq<JsonModel>, i: int, id: Seq<char>)
    requires
        0 <= i < blocks.len(),
        is_call(blocks[i], id),
        id.len() > 0,
    ensures
        ({
            let tools = after_assistant_blocks(s, ts, blocks).pending_tools;
            tools.dom().contains(id) && tools[id].started_at == ts
        }),
    decreases blocks.len(),
{
    let rest = blocks.drop_last();
    if i < rest.len() {
        assert(rest[i] == blocks[i]);
        lemma_call_pends(s, ts, rest, i, id);
    }
}

/// A tool that the assistant calls is pending from then on.
pub proof fn law_call_pends(
    s: SessionView,
    event: JsonModel,
    ts: int,
    blocks: Seq<JsonModel>,
    i: int,
    id: Seq<char>,
)
    requires
        is_message(event, "assistant"@, ts, blocks),
        0 <= i < blocks.len(),
        is_call(blocks[i], id),
        id.len() > 0,
    ensures
        after_event(s, event).pending_tools.dom().contains(id),
        after_event(s, event).pending_tools[id].started_at == ts,
{
    let seen = SessionView { event_count: s.event_count + 1, last_event_ts: ts, ..s };
    lemma_call_pends(SessionView { last_assistant_ts: ts, ..seen }, ts, blocks, i, id);
}

proof fn lemma_result_resolves(s: SessionView, blocks: Seq<JsonModel>, i: int, id: Seq<char>)
    requires
        0 <= i < blocks.len(),
        is_result(blocks[i], id),
    ensures
        !after_user_blocks(s, blocks).pending_tools.dom().contains(id),
    decreases blocks.len(),
{
    let rest = blocks.drop_last();
    if i < rest.len() {
        assert(rest[i] == blocks[i]);
        lemma_result_resolves(s, rest, i, id);
    }
}

/// A tool whose result the user sends is pending no more.
pub proof fn law_result_resolves(
    s: SessionView,
    event: JsonModel,
    ts: int,
    blocks: Seq<JsonModel>,
    i: int,
    id: Seq<char>,
)
    requires
        is_message(event, "user"@, ts, blocks),
        0 <= i < blocks.len(),
        is_result(blocks[i], id),
    ensures
        !after_event(s, event).pending_tools.dom().contains(id),
{
    reveal_strlit("assistant");
    reveal_strlit("user");
    assert("assistant"@.len() != "user"@.len());
    let seen = SessionView { event_count: s.event_count + 1, last_event_ts: ts, ..s };
    lemma_result_resolves(seen, blocks, i, id);
}

} // verus!
