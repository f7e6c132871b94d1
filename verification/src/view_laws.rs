//! What is said of a value is said of what it holds, each part under its own name.
use vstd::prelude::*;

use crate::json::Json;
use crate::json::JsonModel;
use crate::monitor::Route;
use crate::monitor::RouteView;
use crate::parser::PendingTool;
use crate::parser::SessionState;
use crate::parser::Todo;
use crate::server::Reply;
use crate::state::Event;
use crate::state::EventView;
use crate::summary::PendingToolOut;
use crate::summary::SessionSummary;

verus! {

/// The content of a session is that of its fields.
pub proof fn law_session_view(s: SessionState)
    ensures
        s@.sid == s.sid@,
        s@.cwd == s.cwd@,
        s@.file_path == s.file_path@,
        s@.last_event_ts == s.last_event_ts.ticks,
        s@.last_user_input_ts == s.last_user_input_ts.ticks,
        s@.last_assistant_ts == s.last_assistant_ts.ticks,
        s@.last_stop_ts == s.last_stop_ts.ticks,
        s@.last_stop_reason == s.last_stop_reason@,
        s@.last_permission_event_ts == s.last_permission_event_ts.ticks,
        s@.first_user_text == s.first_user_text@,
        s@.last_assistant_text == s.last_assistant_text@,
        s@.last_tool_name == s.last_tool_name@,
        s@.event_count == s.event_count,
        s@.has_active_subagent_task == s.has_active_subagent_task,
{
}

/// The pending calls of a session are those that it holds, by their ids.
pub proof fn law_session_calls(s: SessionState, id: Seq<char>)
    ensures
        s@.pending_tools.dom().contains(id) == s.pending_tools@.dom().contains(id),
        s@.pending_tools.dom().contains(id) ==> s@.pending_tools[id].name
            == s.pending_tools@[id].name@ && s@.pending_tools[id].started_at
            == s.pending_tools@[id].started_at.ticks,
{
}

/// The cards of a session are those that it holds, in their order.
pub proof fn law_session_cards(s: SessionState)
    ensures
        s@.todos.len() == s.todos@.len(),
        forall|i: int| 0 <= i < s.todos@.len() ==> #[trigger] s@.todos[i] == s.todos@[i]@,
        s@.todos_from_jsonl.len() == s.todos_from_jsonl@.len(),
        forall|i: int|
            0 <= i < s.todos_from_jsonl@.len() ==> #[trigger] s@.todos_from_jsonl[i]
                == s.todos_from_jsonl@[i]@,
{
}

/// The content of a card, of a pending call and of a listed one is that of their fields.
pub proof fn law_card_view(todo: Todo, call: PendingTool, listed: PendingToolOut)
    ensures
        todo@.content == todo.content@,
        todo@.status == todo.status@,
        todo@.active_form == todo.active_form@,
        call@.name == call.name@,
        call@.started_at == call.started_at.ticks,
        listed@.id == listed.id@,
        listed@.name == listed.name@,
        listed@.started_at == listed.started_at.ticks,
{
}

/// The content of a summary is that of its fields.
pub proof fn law_summary_view(s: SessionSummary)
    ensures
        s@.sid == s.sid@,
        s@.cwd == s.cwd@,
        s@.status == s.status@,
        s@.last_event_ts == s.last_event_ts.ticks,
        s@.last_user_input_ts == s.last_user_input_ts.ticks,
        s@.last_assistant_ts == s.last_assistant_ts.ticks,
        s@.last_stop_ts == s.last_stop_ts.ticks,
        s@.last_stop_reason == s.last_stop_reason@,
        s@.last_tool_name == s.last_tool_name@,
        s@.first_user_text == s.first_user_text@,
        s@.last_assistant_text == s.last_assistant_text@,
        s@.event_count == s.event_count,
        s@.todos_source == s.todos_source@,
{
}

/// The calls and the cards of a summary are those that it holds, in their order.
pub proof fn law_summary_lists(s: SessionSummary)
    ensures
        s@.pending_tools.len() == s.pending_tools@.len(),
        forall|i: int|
            0 <= i < s.pending_tools@.len() ==> #[trigger] s@.pending_tools[i]
                == s.pending_tools@[i]@,
        s@.todos.len() == s.todos@.len(),
        forall|i: int| 0 <= i < s.todos@.len() ==> #[trigger] s@.todos[i] == s.todos@[i]@,
{
}

/// The content of an event is what it tells.
pub proof fn law_event_view(e: Event)
    ensures
        match e {
            Event::SessionUpdate(summary) => e@ == EventView::SessionUpdate(summary@),
            Event::TaskUpdate { sid, todos } => e@ matches EventView::TaskUpdate {
                sid: id,
                todos: cards,
            } && id == sid@ && cards == crate::parser::todo_views(todos@),
            Event::Heartbeat { ts } => e@ matches EventView::Heartbeat { ts: at } && at == ts.ticks,
        },
{
}

/// The content of a route is where it leads.
pub proof fn law_route_view(route: Route)
    ensures
        match route {
            Route::Session { sid, cwd } => route@ matches RouteView::Session { sid: id, cwd: at }
                && id == sid@ && at == cwd@,
            Route::Todos { sid } => route@ matches RouteView::Todos { sid: id } && id == sid@,
            Route::Other => route@ == RouteView::Other,
        },
{
}

/// The content of a reply is that of its fields.
pub proof fn law_reply_view(reply: Reply)
    ensures
        reply@.status == reply.status,
        reply@.content_type == reply.content_type@,
        reply@.body == reply.body@,
{
}

/// The contents of lists are those of their items, in their order.
pub proof fn law_list_views(
    texts: Seq<String>,
    todos: Seq<Todo>,
    summaries: Seq<SessionSummary>,
    documents: Seq<Json>,
    headers: Seq<(&'static str, &'static str)>,
)
    ensures
        crate::text::string_views(texts).len() == texts.len(),
        forall|i: int|
            0 <= i < texts.len() ==> #[trigger] crate::text::string_views(texts)[i] == texts[i]@,
        crate::parser::todo_views(todos).len() == todos.len(),
        forall|i: int|
            0 <= i < todos.len() ==> #[trigger] crate::parser::todo_views(todos)[i] == todos[i]@,
        crate::state::summary_views(summaries).len() == summaries.len(),
        forall|i: int|
            0 <= i < summaries.len() ==> #[trigger] crate::state::summary_views(summaries)[i]
                == summaries[i]@,
        crate::json::models(documents).len() == documents.len(),
        forall|i: int|
            0 <= i < documents.len() ==> #[trigger] crate::json::models(documents)[i]
                == documents[i]@,
        crate::security::header_views(headers).len() == headers.len(),
        forall|i: int|
            0 <= i < headers.len() ==> #[trigger] crate::security::header_views(headers)[i] == (
                headers[i].0@,
                headers[i].1@,
            ),
{
}

/// The contents of maps are those of their values, under the same keys.
pub proof fn law_map_views(
    sessions: Map<Seq<char>, SessionState>,
    texts: Map<Seq<char>, String>,
    key: Seq<char>,
)
    ensures
        crate::state::session_views(sessions).dom().contains(key) == sessions.dom().contains(key),
        sessions.dom().contains(key) ==> crate::state::session_views(sessions)[key]
            == sessions[key]@,
        crate::pulse::text_views(texts).dom().contains(key) == texts.dom().contains(key),
        texts.dom().contains(key) ==> crate::pulse::text_views(texts)[key] == texts[key]@,
{
}

/// The content of a document is that of what it holds.
pub proof fn law_document_view(document: Json)
    ensures
        match document {
            Json::Null => document@ == JsonModel::Null,
            Json::Bool(b) => document@ == JsonModel::Bool(b),
            Json::Number(bits) => document@ == JsonModel::Number(bits),
            Json::Text(text) => document@ == JsonModel::Text(text@),
            Json::Array(items) => document@ matches JsonModel::Array(list) && list.len()
                == items@.len() && forall|i: int|
                0 <= i < items@.len() ==> #[trigger] list[i] == items@[i]@,
            Json::Object(fields) => document@ matches JsonModel::Object(list) && list.len()
                == fields@.len() && forall|i: int|
                0 <= i < fields@.len() ==> #[trigger] list[i] == (fields@[i].0@, fields@[i].1@),
        },
{
}

/// The content of a document or a file that may be missing is that of the one that is there.
pub proof fn law_missing_views(document: Json, body: Vec<u8>)
    ensures
        crate::monitor::document_view(Some(document)) == Some(document@),
        crate::monitor::document_view(None) is None,
        crate::server::file_view(Some(body)) == Some(body@),
        crate::server::file_view(None) is None,
{
}

/// A text has its characters and an array its items, and nothing else has any; a field is read as a
/// text where it is one.
pub proof fn law_document_parts(document: JsonModel, key: Seq<char>, default: Seq<char>)
    ensures
        document.text() == (match document {
            JsonModel::Text(text) => Some(text),
            _ => None,
        }),
        document.items() == (match document {
            JsonModel::Array(items) => Some(items),
            _ => None,
        }),
        document.text_field(key) == (match document.field(key) {
            Some(JsonModel::Text(text)) => Some(text),
            _ => None,
        }),
        document.text_field_or(key, default) == (match document.field(key) {
            Some(JsonModel::Text(text)) => text,
            _ => default,
        }),
{
}

/// In a list without repeated keys a key leads to the value that stands with it; a key that is not
/// listed leads nowhere.
pub proof fn law_keys_lead_to_values<V>(list: Seq<(Seq<char>, V)>, key: Seq<char>, value: V)
    requires
        forall|i: int, j: int|
            0 <= i < j < list.len() ==> (#[trigger] list[i]).0 != (#[trigger] list[j]).0,
    ensures
        (crate::keyed::as_map(list).dom().contains(key) && crate::keyed::as_map(list)[key] == value)
            == list.contains((key, value)),
{
    let map = crate::keyed::as_map(list);
    if map.dom().contains(key) && map[key] == value {
        let i = choose|i: int| crate::keyed::key_at(list, key, i);
        assert(crate::keyed::key_at(list, key, i));
        crate::keyed::lemma_entry(list, i);
        assert(list[i] == (key, value));
    }
    if list.contains((key, value)) {
        let i = choose|i: int| 0 <= i < list.len() && list[i] == (key, value);
        crate::keyed::lemma_entry(list, i);
    }
}

} // verus!
