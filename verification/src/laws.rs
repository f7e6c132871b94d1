//! What the library promises, said of the plain values that go in and come out.
use vstd::prelude::*;

use crate::json::JsonModel;
use crate::parser::PendingView;
use crate::parser::SessionView;
use crate::parser::TodoView;
use crate::status::Defaults;
use crate::status::Status;
use crate::summary::SummaryView;

verus! {

// ---------------------------------------------------------------------------------------------
// Documents
// ---------------------------------------------------------------------------------------------

/// The field of an object is the first one of that name.
pub proof fn law_field_is_the_first(
    fields: Seq<(Seq<char>, JsonModel)>,
    key: Seq<char>,
    i: int,
)
    requires
        0 <= i < fields.len(),
        fields[i].0 == key,
        forall|j: int| 0 <= j < i ==> (#[trigger] fields[j]).0 != key,
    ensures
        JsonModel::Object(fields).field(key) == Some(fields[i].1),
    decreases fields.len(),
{
    if i > 0 {
        assert(fields[0].0 != key);
        let rest = fields.skip(1);
        assert(rest[i - 1] == fields[i]);
        assert forall|j: int| 0 <= j < i - 1 implies (#[trigger] rest[j]).0 != key by {
            assert(fields[j + 1].0 != key);
        }
        law_field_is_the_first(rest, key, i - 1);
    }
}

/// A name that no field has leads to nothing, and nothing but an object has fields.
pub proof fn law_no_such_field(document: JsonModel, key: Seq<char>)
    requires
        document matches JsonModel::Object(fields) ==> forall|j: int|
            0 <= j < fields.len() ==> (#[trigger] fields[j]).0 != key,
    ensures
        document.field(key) is None,
{
    if let JsonModel::Object(fields) = document {
        lemma_no_such_field(fields, key);
    }
}

proof fn lemma_no_such_field(fields: Seq<(Seq<char>, JsonModel)>, key: Seq<char>)
    requires
        forall|j: int| 0 <= j < fields.len() ==> (#[trigger] fields[j]).0 != key,
    ensures
        crate::json::find_field(fields, key) is None,
    decreases fields.len(),
{
    if fields.len() > 0 {
        assert(fields[0].0 != key);
        let rest = fields.skip(1);
        assert forall|j: int| 0 <= j < rest.len() implies (#[trigger] rest[j]).0 != key by {
            assert(fields[j + 1].0 != key);
        }
        lemma_no_such_field(rest, key);
    }
}

/// The field `key` is a text, and this is it.
pub open spec fn says(document: JsonModel, key: Seq<char>, text: Seq<char>) -> bool {
    document.field(key) == Some(JsonModel::Text(text))
}

/// The field `key` is no text.
pub open spec fn says_nothing(document: JsonModel, key: Seq<char>) -> bool {
    !(document.field(key) matches Some(JsonModel::Text(_)))
}

/// The text in the field `key`, or `default`.
pub open spec fn text_or(document: JsonModel, key: Seq<char>, default: Seq<char>) -> Seq<char> {
    match document.field(key) {
        Some(JsonModel::Text(text)) => text,
        _ => default,
    }
}

/// The words that tell kinds of events and blocks apart differ.
proof fn lemma_words()
    ensures
        "assistant"@ != "user"@,
        "assistant"@ != "permission-mode"@,
        "user"@ != "permission-mode"@,
        "assistant"@.len() > 0,
        "user"@.len() > 0,
        "permission-mode"@.len() > 0,
        "tool_use"@ != "text"@,
        "tool_result"@ != "text"@,
        "tool_use"@.len() > 0,
        "tool_result"@.len() > 0,
        "text"@.len() > 0,
        "TodoWrite"@.len() > 0,
{
    reveal_strlit("assistant");
    reveal_strlit("user");
    reveal_strlit("permission-mode");
    reveal_strlit("tool_use");
    reveal_strlit("tool_result");
    reveal_strlit("text");
    reveal_strlit("TodoWrite");
    assert("assistant"@.len() == 9);
    assert("user"@.len() == 4);
    assert("permission-mode"@.len() == 15);
    assert("tool_use"@.len() == 8);
    assert("tool_result"@.len() == 11);
    assert("text"@.len() == 4);
    assert("TodoWrite"@.len() == 9);
}

// ---------------------------------------------------------------------------------------------
// Cards in documents
// ---------------------------------------------------------------------------------------------

/// An object is one card: what it says of itself, and `pending` where it says nothing of its
/// status. Anything else is none.
pub proof fn law_object_is_a_card(item: JsonModel)
    ensures
        crate::parser::todos_of(seq![item]) == (if item is Object {
            seq![
                TodoView {
                    content: text_or(item, "content"@, Seq::empty()),
                    status: text_or(item, "status"@, "pending"@),
                    active_form: text_or(item, "activeForm"@, Seq::empty()),
                },
            ]
        } else {
            Seq::empty()
        }),
{
    assert(seq![item].drop_last() =~= Seq::<JsonModel>::empty());
    assert(seq![item].last() == item);
    let none = Seq::<JsonModel>::empty();
    assert(crate::parser::todos_of(none) =~= Seq::<TodoView>::empty());
    assert(crate::parser::todos_of(seq![item]) =~= (if item is Object {
        seq![crate::parser::todo_of(item)]
    } else {
        Seq::empty()
    }));
}

/// The cards of two lists, one behind the other, are those of the first and then those of the
/// second.
pub proof fn law_cards_of_both_lists(a: Seq<JsonModel>, b: Seq<JsonModel>)
    ensures
        crate::parser::todos_of(a + b) == crate::parser::todos_of(a) + crate::parser::todos_of(b),
    decreases b.len(),
{
    if b.len() == 0 {
        assert(a + b =~= a);
        assert(crate::parser::todos_of(a) + crate::parser::todos_of(b)
            =~= crate::parser::todos_of(a));
    } else {
        assert((a + b).drop_last() =~= a + b.drop_last());
        law_cards_of_both_lists(a, b.drop_last());
        assert(crate::parser::todos_of(a + b) =~= crate::parser::todos_of(a)
            + crate::parser::todos_of(b));
    }
}

/// The cards of a todo file are those of the list that it is.
pub proof fn law_todo_file_is_a_list(document: JsonModel)
    ensures
        crate::monitor::file_todos(Some(document)) == (match document {
            JsonModel::Array(items) => Some(crate::parser::todos_of(items)),
            _ => None,
        }),
        crate::monitor::file_todos(None) is None,
{
}

/// A todo file sets the cards that it holds, and a task is active where one of them is in progress;
/// nothing else of the session changes.
pub proof fn law_todo_file_sets(s: SessionView, todos: Seq<TodoView>)
    ensures
        ({
            let r = crate::monitor::with_file_todos(s, todos);
            &&& r.todos == todos
            &&& r.has_active_subagent_task == exists|i: int|
                0 <= i < todos.len() && (#[trigger] todos[i]).status == "in_progress"@
            &&& r == (SessionView {
                todos: r.todos,
                has_active_subagent_task: r.has_active_subagent_task,
                ..s
            })
        }),
{
}

// ---------------------------------------------------------------------------------------------
// Events
// ---------------------------------------------------------------------------------------------

/// A timestamp is a number of seconds, or a date and time in RFC 3339.
pub proof fn law_timestamp(value: JsonModel)
    ensures
        crate::parser::time_of(value) == (match value {
            JsonModel::Number(bits) => crate::seconds::double_ticks(bits),
            JsonModel::Text(text) => match crate::seconds::rfc3339_instant(text) {
                Some((secs, nanos)) => Some(
                    crate::seconds::instant_ticks(secs as int, nanos as nat),
                ),
                None => None,
            },
            _ => None,
        }),
{
}

/// The event happened at `ts`.
pub open spec fn is_at(event: JsonModel, ts: int) -> bool {
    event.field("timestamp"@) matches Some(value) && crate::parser::time_of(value) == Some(ts)
}

/// The event has no timestamp that can be read.
pub open spec fn is_untimed(event: JsonModel) -> bool {
    event.field("timestamp"@) matches Some(value) ==> crate::parser::time_of(value) is None
}

/// The event carries this message.
pub open spec fn carries(event: JsonModel, message: JsonModel) -> bool {
    event.field("message"@) == Some(message)
}

/// The event carries a message whose content is this list of blocks.
pub open spec fn carries_blocks(event: JsonModel, blocks: Seq<JsonModel>) -> bool {
    event.field("message"@) matches Some(message) && message.field("content"@) == Some(
        JsonModel::Array(blocks),
    )
}

/// The event carries no message whose content is a list of blocks.
pub open spec fn carries_no_blocks(event: JsonModel) -> bool {
    event.field("message"@) matches Some(message) ==> !(message.field("content"@) matches Some(
        JsonModel::Array(_),
    ))
}

/// The block is a call of a tool, with the id `id`.
pub open spec fn calls(block: JsonModel, id: Seq<char>) -> bool {
    says(block, "type"@, "tool_use"@) && says(block, "id"@, id)
}

/// The block is a call of a tool that has an id.
pub open spec fn calls_some(block: JsonModel) -> bool {
    says(block, "type"@, "tool_use"@) && text_or(block, "id"@, Seq::empty()).len() > 0
}

/// The block is the result of the call with the id `id`.
pub open spec fn answers(block: JsonModel, id: Seq<char>) -> bool {
    says(block, "type"@, "tool_result"@) && says(block, "tool_use_id"@, id)
}

/// The block is a text.
pub open spec fn is_text(block: JsonModel) -> bool {
    says(block, "type"@, "text"@)
}

/// The block is a text, and not an empty one.
pub open spec fn is_worded(block: JsonModel) -> bool {
    is_text(block) && text_or(block, "text"@, Seq::empty()).len() > 0
}

/// The block calls `TodoWrite`, with this list.
pub open spec fn writes(block: JsonModel, items: Seq<JsonModel>) -> bool {
    &&& says(block, "type"@, "tool_use"@)
    &&& says(block, "name"@, "TodoWrite"@)
    &&& block.field("input"@) matches Some(input) && input.field("todos"@) == Some(
        JsonModel::Array(items),
    )
}

/// The block calls `TodoWrite` with a list.
pub open spec fn writes_some(block: JsonModel) -> bool {
    exists|items: Seq<JsonModel>| writes(block, items)
}

/// An event without a timestamp is counted, and that is all.
pub proof fn law_untimed(s: SessionView, event: JsonModel)
    requires
        is_untimed(event),
    ensures
        crate::parser::after_event(s, event) == (SessionView {
            event_count: s.event_count + 1,
            ..s
        }),
{
}

/// An event of another kind than the three that are known is counted and becomes the last one, and
/// that is all.
pub proof fn law_unknown_kind(s: SessionView, event: JsonModel, ts: int)
    requires
        is_at(event, ts),
        !says(event, "type"@, "assistant"@),
        !says(event, "type"@, "user"@),
        !says(event, "type"@, "permission-mode"@),
    ensures
        crate::parser::after_event(s, event) == (SessionView {
            event_count: s.event_count + 1,
            last_event_ts: ts,
            ..s
        }),
{
    lemma_words();
}

/// A permission event is counted, becomes the last event and the last permission event.
pub proof fn law_permission(s: SessionView, event: JsonModel, ts: int)
    requires
        is_at(event, ts),
        says(event, "type"@, "permission-mode"@),
    ensures
        crate::parser::after_event(s, event) == (SessionView {
            event_count: s.event_count + 1,
            last_event_ts: ts,
            last_permission_event_ts: ts,
            ..s
        }),
{
    lemma_words();
}

/// A message of the assistant touches no more than what it tells: when it came, the calls, the last
/// text, the cards that were written, and the reason to stop, where it gives one.
pub proof fn law_assistant(s: SessionView, event: JsonModel, ts: int)
    requires
        is_at(event, ts),
        says(event, "type"@, "assistant"@),
    ensures
        ({
            let r = crate::parser::after_event(s, event);
            &&& r == (SessionView {
                event_count: s.event_count + 1,
                last_event_ts: ts,
                last_assistant_ts: ts,
                pending_tools: r.pending_tools,
                last_tool_name: r.last_tool_name,
                last_assistant_text: r.last_assistant_text,
                todos_from_jsonl: r.todos_from_jsonl,
                has_active_subagent_task: r.has_active_subagent_task,
                last_stop_reason: r.last_stop_reason,
                last_stop_ts: r.last_stop_ts,
                ..s
            })
            &&& carries_no_blocks(event) ==> {
                &&& r.pending_tools == s.pending_tools
                &&& r.last_tool_name == s.last_tool_name
                &&& r.last_assistant_text == s.last_assistant_text
                &&& r.todos_from_jsonl == s.todos_from_jsonl
                &&& r.has_active_subagent_task == s.has_active_subagent_task
            }
        }),
        (event.field("message"@) matches Some(message) ==> says_nothing(message, "stop_reason"@))
            ==> {
            let r = crate::parser::after_event(s, event);
            r.last_stop_reason == s.last_stop_reason && r.last_stop_ts == s.last_stop_ts
        },
{
    lemma_words();
    let seen = SessionView {
        event_count: s.event_count + 1,
        last_event_ts: ts,
        last_assistant_ts: ts,
        ..s
    };
    if let Some(blocks) = crate::parser::message_blocks(crate::parser::event_message(event)) {
        lemma_assistant_frame(seen, ts, blocks);
    }
}

/// A message of the assistant that gives a reason to stop stops the session, for that reason.
pub proof fn law_stop(
    s: SessionView,
    event: JsonModel,
    ts: int,
    message: JsonModel,
    reason: Seq<char>,
)
    requires
        is_at(event, ts),
        says(event, "type"@, "assistant"@),
        carries(event, message),
        says(message, "stop_reason"@, reason),
    ensures
        crate::parser::after_event(s, event).last_stop_reason == reason,
        crate::parser::after_event(s, event).last_stop_ts == ts,
{
}

proof fn lemma_assistant_frame(s: SessionView, ts: int, blocks: Seq<JsonModel>)
    ensures
        ({
            let r = crate::parser::after_assistant_blocks(s, ts, blocks);
            r == SessionView {
                pending_tools: r.pending_tools,
                last_tool_name: r.last_tool_name,
                todos_from_jsonl: r.todos_from_jsonl,
                has_active_subagent_task: r.has_active_subagent_task,
                last_assistant_text: r.last_assistant_text,
                ..s
            }
        }),
    decreases blocks.len(),
{
    if blocks.len() > 0 {
        lemma_assistant_frame(s, ts, blocks.drop_last());
    }
}

/// What the blocks of the assistant come down to, block by block.
proof fn lemma_assistant_last(
    s: SessionView,
    ts: int,
    blocks: Seq<JsonModel>,
    i: int,
    id: Seq<char>,
)
    requires
        -1 <= i < blocks.len(),
        id.len() > 0,
    ensures
        ({
            let r = crate::parser::after_assistant_blocks(s, ts, blocks);
            &&& (i >= 0 && calls(blocks[i], id) && forall|j: int|
                i < j < blocks.len() ==> !calls(#[trigger] blocks[j], id)) ==> {
                &&& r.pending_tools.dom().contains(id)
                &&& r.pending_tools[id] == (PendingView {
                    name: text_or(blocks[i], "name"@, Seq::empty()),
                    started_at: ts,
                })
            }
            &&& (i == -1 && forall|j: int|
                0 <= j < blocks.len() ==> !calls(#[trigger] blocks[j], id)) ==> {
                &&& r.pending_tools.dom().contains(id) == s.pending_tools.dom().contains(id)
                &&& r.pending_tools[id] == s.pending_tools[id]
            }
            &&& (i >= 0 && calls_some(blocks[i]) && forall|j: int|
                i < j < blocks.len() ==> !calls_some(#[trigger] blocks[j])) ==> r.last_tool_name
                == text_or(blocks[i], "name"@, Seq::empty())
            &&& (i == -1 && forall|j: int|
                0 <= j < blocks.len() ==> !calls_some(#[trigger] blocks[j])) ==> r.last_tool_name
                == s.last_tool_name
            &&& (i >= 0 && is_worded(blocks[i]) && forall|j: int|
                i < j < blocks.len() ==> !is_worded(#[trigger] blocks[j]))
                ==> r.last_assistant_text == text_or(blocks[i], "text"@, Seq::empty())
            &&& (i == -1 && forall|j: int|
                0 <= j < blocks.len() ==> !is_worded(#[trigger] blocks[j]))
                ==> r.last_assistant_text == s.last_assistant_text
        }),
    decreases blocks.len(),
{
    lemma_words();
    if blocks.len() > 0 {
        let n = blocks.len() - 1;
        let rest = blocks.drop_last();
        assert forall|j: int| 0 <= j < n implies rest[j] == blocks[j] by {}
        if i < n {
            lemma_assistant_last(s, ts, rest, i, id);
        }
        let last = blocks[n];
        assert(blocks.last() == last);
        if i < n {
            let from = if i < 0 {
                0
            } else {
                i + 1
            };
            if forall|j: int| from <= j < blocks.len() ==> !calls(#[trigger] blocks[j], id) {
                assert(!calls(blocks[n], id));
                assert forall|j: int| from <= j < rest.len() implies !calls(
                    #[trigger] rest[j],
                    id,
                ) by {
                    assert(!calls(blocks[j], id));
                }
            }
            if forall|j: int| from <= j < blocks.len() ==> !calls_some(#[trigger] blocks[j]) {
                assert(!calls_some(blocks[n]));
                assert forall|j: int| from <= j < rest.len() implies !calls_some(
                    #[trigger] rest[j],
                ) by {
                    assert(!calls_some(blocks[j]));
                }
            }
            if forall|j: int| from <= j < blocks.len() ==> !is_worded(#[trigger] blocks[j]) {
                assert(!is_worded(blocks[n]));
                assert forall|j: int| from <= j < rest.len() implies !is_worded(
                    #[trigger] rest[j],
                ) by {
                    assert(!is_worded(blocks[j]));
                }
            }
        }
    }
}

/// A tool that the assistant calls is pending from then on, under the name of the call: of several
/// calls with one id, the last.
pub proof fn law_called_tool_pends(
    s: SessionView,
    event: JsonModel,
    ts: int,
    blocks: Seq<JsonModel>,
    i: int,
    id: Seq<char>,
)
    requires
        is_at(event, ts),
        says(event, "type"@, "assistant"@),
        carries_blocks(event, blocks),
        0 <= i < blocks.len(),
        calls(blocks[i], id),
        id.len() > 0,
        forall|j: int| i < j < blocks.len() ==> !calls(#[trigger] blocks[j], id),
    ensures
        crate::parser::after_event(s, event).pending_tools.dom().contains(id),
        crate::parser::after_event(s, event).pending_tools[id] == (PendingView {
            name: text_or(blocks[i], "name"@, Seq::empty()),
            started_at: ts,
        }),
{
    let seen = SessionView {
        event_count: s.event_count + 1,
        last_event_ts: ts,
        last_assistant_ts: ts,
        ..s
    };
    lemma_assistant_last(seen, ts, blocks, i, id);
}

/// The last tool is the one that was called last, of those that have an id.
pub proof fn law_last_tool(
    s: SessionView,
    event: JsonModel,
    ts: int,
    blocks: Seq<JsonModel>,
    i: int,
)
    requires
        is_at(event, ts),
        says(event, "type"@, "assistant"@),
        carries_blocks(event, blocks),
        -1 <= i < blocks.len(),
        i >= 0 ==> calls_some(blocks[i]),
        forall|j: int| i < j < blocks.len() ==> !calls_some(#[trigger] blocks[j]),
    ensures
        crate::parser::after_event(s, event).last_tool_name == (if i >= 0 {
            text_or(blocks[i], "name"@, Seq::empty())
        } else {
            s.last_tool_name
        }),
{
    let seen = SessionView {
        event_count: s.event_count + 1,
        last_event_ts: ts,
        last_assistant_ts: ts,
        ..s
    };
    lemma_assistant_last(seen, ts, blocks, i, seq!['x']);
}

/// The last text of the assistant is the last one that is not empty.
pub proof fn law_last_text(
    s: SessionView,
    event: JsonModel,
    ts: int,
    blocks: Seq<JsonModel>,
    i: int,
)
    requires
        is_at(event, ts),
        says(event, "type"@, "assistant"@),
        carries_blocks(event, blocks),
        -1 <= i < blocks.len(),
        i >= 0 ==> is_worded(blocks[i]),
        forall|j: int| i < j < blocks.len() ==> !is_worded(#[trigger] blocks[j]),
    ensures
        crate::parser::after_event(s, event).last_assistant_text == (if i >= 0 {
            text_or(blocks[i], "text"@, Seq::empty())
        } else {
            s.last_assistant_text
        }),
{
    let seen = SessionView {
        event_count: s.event_count + 1,
        last_event_ts: ts,
        last_assistant_ts: ts,
        ..s
    };
    lemma_assistant_last(seen, ts, blocks, i, seq!['x']);
}

proof fn lemma_written(s: SessionView, ts: int, blocks: Seq<JsonModel>, i: int)
    requires
        -1 <= i < blocks.len(),
        forall|j: int| i < j < blocks.len() ==> !writes_some(#[trigger] blocks[j]),
    ensures
        ({
            let r = crate::parser::after_assistant_blocks(s, ts, blocks);
            &&& i == -1 ==> r.todos_from_jsonl == s.todos_from_jsonl
                && r.has_active_subagent_task == s.has_active_subagent_task
            &&& forall|items: Seq<JsonModel>|
                i >= 0 && #[trigger] writes(blocks[i], items) ==> {
                    let cards = crate::parser::todos_of(items);
                    &&& r.todos_from_jsonl == cards
                    &&& r.has_active_subagent_task == (crate::parser::some_in_progress(cards)
                        || crate::parser::some_in_progress(s.todos))
                }
        }),
    decreases blocks.len(),
{
    lemma_words();
    if blocks.len() > 0 {
        let n = blocks.len() - 1;
        let rest = blocks.drop_last();
        lemma_assistant_frame(s, ts, rest);
        let last = blocks[n];
        assert(blocks.last() == last);
        if i < n {
            assert forall|j: int| i < j < rest.len() implies !writes_some(#[trigger] rest[j]) by {
                assert(!writes_some(blocks[j]));
            }
            lemma_written(s, ts, rest, i);
            assert(i >= 0 ==> rest[i] == blocks[i]);
            assert(!writes_some(blocks[n]));
            if says(last, "type"@, "tool_use"@) && says(last, "name"@, "TodoWrite"@) {
                if let Some(items) = crate::parser::written_todos(last) {
                    assert(writes(last, items));
                }
            }
        }
    }
}

/// The cards that the assistant wrote are those of the last list that it wrote. A task is active
/// where one of them, or one in the todo file, is in progress.
pub proof fn law_last_list(
    s: SessionView,
    event: JsonModel,
    ts: int,
    blocks: Seq<JsonModel>,
    i: int,
    items: Seq<JsonModel>,
)
    requires
        is_at(event, ts),
        says(event, "type"@, "assistant"@),
        carries_blocks(event, blocks),
        0 <= i < blocks.len(),
        writes(blocks[i], items),
        forall|j: int| i < j < blocks.len() ==> !writes_some(#[trigger] blocks[j]),
    ensures
        ({
            let r = crate::parser::after_event(s, event);
            let cards = crate::parser::todos_of(items);
            &&& r.todos_from_jsonl == cards
            &&& r.has_active_subagent_task == ((exists|k: int|
                0 <= k < cards.len() && (#[trigger] cards[k]).status == "in_progress"@) || (
            exists|k: int|
                0 <= k < s.todos.len() && (#[trigger] s.todos[k]).status == "in_progress"@))
        }),
{
    let seen = SessionView {
        event_count: s.event_count + 1,
        last_event_ts: ts,
        last_assistant_ts: ts,
        ..s
    };
    lemma_written(seen, ts, blocks, i);
}

/// Where the assistant writes no list, the cards that it wrote stay, and so does what is said of an
/// active task.
pub proof fn law_no_list(s: SessionView, event: JsonModel, ts: int, blocks: Seq<JsonModel>)
    requires
        is_at(event, ts),
        says(event, "type"@, "assistant"@),
        carries_blocks(event, blocks),
        forall|j: int| 0 <= j < blocks.len() ==> !writes_some(#[trigger] blocks[j]),
    ensures
        crate::parser::after_event(s, event).todos_from_jsonl == s.todos_from_jsonl,
        crate::parser::after_event(s, event).has_active_subagent_task
            == s.has_active_subagent_task,
{
    let seen = SessionView {
        event_count: s.event_count + 1,
        last_event_ts: ts,
        last_assistant_ts: ts,
        ..s
    };
    lemma_written(seen, ts, blocks, -1);
}

proof fn lemma_user(s: SessionView, blocks: Seq<JsonModel>, id: Seq<char>, i: int)
    requires
        -1 <= i < blocks.len(),
    ensures
        ({
            let r = crate::parser::after_user_blocks(s, blocks);
            &&& r == (SessionView {
                pending_tools: r.pending_tools,
                first_user_text: r.first_user_text,
                ..s
            })
            &&& r.pending_tools.dom().contains(id) == (s.pending_tools.dom().contains(id) && forall|
                j: int,
            |
                0 <= j < blocks.len() ==> !answers(#[trigger] blocks[j], id))
            &&& r.pending_tools.dom().contains(id) ==> r.pending_tools[id] == s.pending_tools[id]
            &&& s.first_user_text.len() > 0 ==> r.first_user_text == s.first_user_text
            &&& (s.first_user_text.len() == 0 && i >= 0 && is_worded(blocks[i]) && forall|j: int|
                0 <= j < i ==> !is_worded(#[trigger] blocks[j])) ==> r.first_user_text == text_or(
                blocks[i],
                "text"@,
                Seq::empty(),
            )
            &&& (s.first_user_text.len() == 0 && forall|j: int|
                0 <= j < blocks.len() ==> !is_worded(#[trigger] blocks[j]))
                ==> r.first_user_text.len() == 0
        }),
    decreases blocks.len(),
{
    lemma_words();
    if blocks.len() > 0 {
        let n = blocks.len() - 1;
        let rest = blocks.drop_last();
        let last = blocks[n];
        assert(blocks.last() == last);
        assert forall|j: int| 0 <= j < n implies rest[j] == blocks[j] by {}
        lemma_user(
            s,
            rest,
            id,
            if i < n {
                i
            } else {
                -1
            },
        );
        if forall|j: int| 0 <= j < blocks.len() ==> !answers(#[trigger] blocks[j], id) {
            assert(!answers(blocks[n], id));
            assert forall|j: int| 0 <= j < rest.len() implies !answers(#[trigger] rest[j], id) by {
                assert(!answers(blocks[j], id));
            }
        } else if forall|j: int| 0 <= j < rest.len() ==> !answers(#[trigger] rest[j], id) {
            let j = choose|j: int| 0 <= j < blocks.len() && answers(#[trigger] blocks[j], id);
            if j < n {
                assert(!answers(rest[j], id));
            }
            assert(answers(last, id));
        }
        if forall|j: int| 0 <= j < blocks.len() ==> !is_worded(#[trigger] blocks[j]) {
            assert(!is_worded(blocks[n]));
            assert forall|j: int| 0 <= j < rest.len() implies !is_worded(#[trigger] rest[j]) by {
                assert(!is_worded(blocks[j]));
            }
        }
        if i >= 0 && forall|j: int| 0 <= j < i ==> !is_worded(#[trigger] blocks[j]) {
            assert forall|j: int| 0 <= j < rest.len() && j < i implies !is_worded(
                #[trigger] rest[j],
            ) by {
                assert(!is_worded(blocks[j]));
            }
        }
    }
}

/// A message of the user touches no more than the pending calls, the first text and when the user
/// spoke. A call is pending behind it if it was before, and no block is its result.
pub proof fn law_user(
    s: SessionView,
    event: JsonModel,
    ts: int,
    blocks: Seq<JsonModel>,
    id: Seq<char>,
)
    requires
        is_at(event, ts),
        says(event, "type"@, "user"@),
        carries_blocks(event, blocks),
    ensures
        ({
            let r = crate::parser::after_event(s, event);
            &&& r == (SessionView {
                event_count: s.event_count + 1,
                last_event_ts: ts,
                pending_tools: r.pending_tools,
                first_user_text: r.first_user_text,
                last_user_input_ts: r.last_user_input_ts,
                ..s
            })
            &&& r.pending_tools.dom().contains(id) == (s.pending_tools.dom().contains(id) && forall|
                j: int,
            |
                0 <= j < blocks.len() ==> !answers(#[trigger] blocks[j], id))
            &&& r.pending_tools.dom().contains(id) ==> r.pending_tools[id] == s.pending_tools[id]
            &&& r.last_user_input_ts == (if exists|j: int|
                0 <= j < blocks.len() && is_text(#[trigger] blocks[j]) {
                ts
            } else {
                s.last_user_input_ts
            })
            &&& s.first_user_text.len() > 0 ==> r.first_user_text == s.first_user_text
        }),
{
    lemma_words();
    let seen = SessionView { event_count: s.event_count + 1, last_event_ts: ts, ..s };
    lemma_user(seen, blocks, id, -1);
    if exists|j: int| 0 <= j < blocks.len() && is_text(#[trigger] blocks[j]) {
        let j = choose|j: int| 0 <= j < blocks.len() && is_text(#[trigger] blocks[j]);
        assert(crate::parser::is_text_block(blocks[j]));
    }
    if crate::parser::has_text_block(blocks) {
        let j = choose|j: int|
            0 <= j < blocks.len() && #[trigger] crate::parser::is_text_block(blocks[j]);
        assert(is_text(blocks[j]));
    }
}

/// The first text of the user is the first one that is not empty, as long as there was none.
pub proof fn law_first_text(
    s: SessionView,
    event: JsonModel,
    ts: int,
    blocks: Seq<JsonModel>,
    i: int,
)
    requires
        is_at(event, ts),
        says(event, "type"@, "user"@),
        carries_blocks(event, blocks),
        s.first_user_text.len() == 0,
        0 <= i <= blocks.len(),
        i < blocks.len() ==> is_worded(blocks[i]),
        forall|j: int| 0 <= j < i ==> !is_worded(#[trigger] blocks[j]),
    ensures
        i < blocks.len() ==> crate::parser::after_event(s, event).first_user_text == text_or(
            blocks[i],
            "text"@,
            Seq::empty(),
        ),
        i == blocks.len() ==> crate::parser::after_event(s, event).first_user_text.len() == 0,
{
    lemma_words();
    let seen = SessionView { event_count: s.event_count + 1, last_event_ts: ts, ..s };
    lemma_user(
        seen,
        blocks,
        Seq::empty(),
        if i < blocks.len() {
            i
        } else {
            -1
        },
    );
}

/// A message of the user that is one text counts as input, and may be the first text; one that is
/// neither a text nor a list of blocks is counted and becomes the last event, and that is all.
pub proof fn law_user_text(s: SessionView, event: JsonModel, ts: int)
    requires
        is_at(event, ts),
        says(event, "type"@, "user"@),
        carries_no_blocks(event),
    ensures
        ({
            let seen = SessionView { event_count: s.event_count + 1, last_event_ts: ts, ..s };
            let r = crate::parser::after_event(s, event);
            match event.field("message"@) {
                Some(message) => match message.field("content"@) {
                    Some(JsonModel::Text(text)) => r == (SessionView {
                        first_user_text: if s.first_user_text.len() == 0 {
                            text
                        } else {
                            s.first_user_text
                        },
                        last_user_input_ts: ts,
                        ..seen
                    }),
                    _ => r == seen,
                },
                None => r == seen,
            }
        }),
{
    lemma_words();
}

/// A call that is pending stays so, with its name and its start, unless the user sends its result
/// or the assistant makes a call with the same id; a call without an id does not count.
pub proof fn law_pending_call_stays(s: SessionView, event: JsonModel, id: Seq<char>)
    requires
        s.pending_tools.dom().contains(id),
        says(event, "type"@, "user"@) ==> forall|blocks: Seq<JsonModel>, j: int|
            carries_blocks(event, blocks) && 0 <= j < blocks.len() ==> !answers(
                #[trigger] blocks[j],
                id,
            ),
        says(event, "type"@, "assistant"@) && id.len() > 0 ==> forall|
            blocks: Seq<JsonModel>,
            j: int,
        |
            carries_blocks(event, blocks) && 0 <= j < blocks.len() ==> !calls(
                #[trigger] blocks[j],
                id,
            ),
    ensures
        crate::parser::after_event(s, event).pending_tools.dom().contains(id),
        crate::parser::after_event(s, event).pending_tools[id] == s.pending_tools[id],
{
    lemma_words();
    if let Some(ts) = crate::parser::event_time(event) {
        assert(is_at(event, ts));
        let message = crate::parser::event_message(event);
        if let Some(blocks) = crate::parser::message_blocks(message) {
            assert(carries_blocks(event, blocks)) by {
                assert(event.field("message"@) is Some);
            }
            if says(event, "type"@, "user"@) {
                law_user(s, event, ts, blocks, id);
            } else if says(event, "type"@, "assistant"@) {
                let seen = SessionView {
                    event_count: s.event_count + 1,
                    last_event_ts: ts,
                    last_assistant_ts: ts,
                    ..s
                };
                if id.len() == 0 {
                    lemma_empty_id(seen, ts, blocks, id);
                } else {
                    lemma_uncalled(seen, ts, blocks, id);
                }
            }
        }
    }
}

proof fn lemma_uncalled(s: SessionView, ts: int, blocks: Seq<JsonModel>, id: Seq<char>)
    requires
        forall|j: int| 0 <= j < blocks.len() ==> !calls(#[trigger] blocks[j], id),
    ensures
        ({
            let r = crate::parser::after_assistant_blocks(s, ts, blocks);
            &&& r.pending_tools.dom().contains(id) == s.pending_tools.dom().contains(id)
            &&& r.pending_tools[id] == s.pending_tools[id]
        }),
    decreases blocks.len(),
{
    lemma_words();
    if blocks.len() > 0 {
        let n = blocks.len() - 1;
        let rest = blocks.drop_last();
        assert forall|j: int| 0 <= j < rest.len() implies !calls(#[trigger] rest[j], id) by {
            assert(!calls(blocks[j], id));
        }
        lemma_uncalled(s, ts, rest, id);
        assert(!calls(blocks[n], id));
    }
}

/// A call that was not pending is so only where the assistant makes it.
pub proof fn law_no_call_from_nowhere(s: SessionView, event: JsonModel, id: Seq<char>)
    requires
        !s.pending_tools.dom().contains(id),
        crate::parser::after_event(s, event).pending_tools.dom().contains(id),
    ensures
        says(event, "type"@, "assistant"@),
        id.len() > 0,
        exists|blocks: Seq<JsonModel>, j: int|
            carries_blocks(event, blocks) && 0 <= j < blocks.len() && calls(
                #[trigger] blocks[j],
                id,
            ),
{
    lemma_words();
    if let Some(ts) = crate::parser::event_time(event) {
        assert(is_at(event, ts));
        let message = crate::parser::event_message(event);
        if let Some(blocks) = crate::parser::message_blocks(message) {
            assert(carries_blocks(event, blocks)) by {
                assert(event.field("message"@) is Some);
            }
            if says(event, "type"@, "user"@) {
                law_user(s, event, ts, blocks, id);
            } else if says(event, "type"@, "assistant"@) {
                let seen = SessionView {
                    event_count: s.event_count + 1,
                    last_event_ts: ts,
                    last_assistant_ts: ts,
                    ..s
                };
                if forall|j: int| 0 <= j < blocks.len() ==> !calls(#[trigger] blocks[j], id) {
                    lemma_uncalled(seen, ts, blocks, id);
                }
                if id.len() == 0 {
                    lemma_empty_id(seen, ts, blocks, id);
                }
            }
        }
    }
}

proof fn lemma_empty_id(s: SessionView, ts: int, blocks: Seq<JsonModel>, id: Seq<char>)
    requires
        id.len() == 0,
    ensures
        ({
            let r = crate::parser::after_assistant_blocks(s, ts, blocks);
            &&& r.pending_tools.dom().contains(id) == s.pending_tools.dom().contains(id)
            &&& r.pending_tools[id] == s.pending_tools[id]
        }),
    decreases blocks.len(),
{
    if blocks.len() > 0 {
        lemma_empty_id(s, ts, blocks.drop_last(), id);
    }
}

// ---------------------------------------------------------------------------------------------
// Lines
// ---------------------------------------------------------------------------------------------

/// All of these characters are whitespace.
pub open spec fn is_blank(s: Seq<char>) -> bool {
    forall|i: int| 0 <= i < s.len() ==> crate::text::is_white_spec(#[trigger] s[i])
}

/// The text has no whitespace at either end.
pub open spec fn is_tight(s: Seq<char>) -> bool {
    s.len() > 0 ==> !crate::text::is_white_spec(s[0]) && !crate::text::is_white_spec(s.last())
}

/// Whitespace is the six control characters and the eleven kinds of spaces and separators that
/// Unicode counts as such.
pub proof fn law_whitespace(c: char)
    ensures
        crate::text::is_white_spec(c) == (c == '\t' || c == '\n' || c == '\u{b}' || c == '\u{c}'
            || c == '\r' || c == ' ' || c == '\u{85}' || c == '\u{a0}' || c == '\u{1680}' || (
        '\u{2000}' <= c && c <= '\u{200a}') || c == '\u{2028}' || c == '\u{2029}' || c
            == '\u{202f}' || c == '\u{205f}' || c == '\u{3000}'),
{
}

/// To trim a text is to take away the whitespace in front of it and behind it, and nothing else.
pub proof fn law_trim(front: Seq<char>, words: Seq<char>, back: Seq<char>)
    requires
        is_blank(front),
        is_tight(words),
        is_blank(back),
    ensures
        crate::text::trim_spec(front + words + back) == words,
{
    let s = front + words + back;
    assert(s =~= front + (words + back));
    lemma_trim_front(front, words + back);
    if words.len() > 0 {
        assert((words + back)[0] == words[0]);
        assert(crate::text::trim_start(words + back) == words + back);
        lemma_trim_back(words, back);
        assert(crate::text::trim_end(words) == words);
    } else {
        assert(words + back =~= back);
        assert(back =~= back + words);
        lemma_trim_front(back, words);
        assert(words =~= Seq::<char>::empty());
        assert(crate::text::trim_start(words) == words);
        assert(crate::text::trim_end(words) == words);
    }
}

/// Whitespace in front is trimmed away.
pub proof fn lemma_trim_front(front: Seq<char>, rest: Seq<char>)
    requires
        is_blank(front),
    ensures
        crate::text::trim_start(front + rest) == crate::text::trim_start(rest),
    decreases front.len(),
{
    if front.len() == 0 {
        assert(front + rest =~= rest);
    } else {
        let less = front.skip(1);
        assert(crate::text::is_white_spec(front[0]));
        assert forall|i: int| 0 <= i < less.len() implies crate::text::is_white_spec(
            #[trigger] less[i],
        ) by {
            assert(crate::text::is_white_spec(front[i + 1]));
        }
        lemma_trim_front(less, rest);
        assert((front + rest).skip(1) =~= less + rest);
        assert((front + rest)[0] == front[0]);
    }
}

/// Whitespace behind is trimmed away.
pub proof fn lemma_trim_back(words: Seq<char>, back: Seq<char>)
    requires
        is_blank(back),
    ensures
        crate::text::trim_end(words + back) == crate::text::trim_end(words),
    decreases back.len(),
{
    if back.len() == 0 {
        assert(words + back =~= words);
    } else {
        let less = back.drop_last();
        assert(crate::text::is_white_spec(back[back.len() - 1]));
        assert forall|i: int| 0 <= i < less.len() implies crate::text::is_white_spec(
            #[trigger] less[i],
        ) by {
            assert(crate::text::is_white_spec(back[i]));
        }
        lemma_trim_back(words, less);
        assert((words + back).drop_last() =~= words + less);
        assert((words + back).last() == back.last());
    }
}

/// What a line holds is the document between its whitespace, if there is one.
pub proof fn law_line_holds(front: Seq<char>, words: Seq<char>, back: Seq<char>)
    requires
        is_blank(front),
        is_tight(words),
        is_blank(back),
    ensures
        words.len() > 0 ==> crate::parser::line_event(front + words + back)
            == crate::json::json_in_text(words),
        words.len() == 0 ==> crate::parser::line_event(front + words + back) is None,
{
    law_trim(front, words, back);
}

/// An event that was read brings the session up to date; where none was, nothing changes.
pub proof fn law_reading(s: SessionView, event: JsonModel)
    ensures
        crate::parser::after_reading(s, Some(event)) == crate::parser::after_event(s, event),
        crate::parser::after_reading(s, None) == s,
{
}

/// No lines, no change.
pub proof fn law_no_lines(s: SessionView)
    ensures
        crate::parser::after_lines(s, Seq::empty()) == s,
{
}

/// A line that holds a document, with whitespace around it or not, is one event more, however long
/// it is and whatever came before.
pub proof fn law_line_is_an_event(
    s: SessionView,
    lines: Seq<Seq<char>>,
    front: Seq<char>,
    words: Seq<char>,
    back: Seq<char>,
    event: JsonModel,
)
    requires
        is_blank(front),
        is_tight(words),
        is_blank(back),
        words.len() > 0,
        crate::json::json_in_text(words) == Some(event),
    ensures
        crate::parser::after_lines(s, lines.push(front + words + back))
            == crate::parser::after_event(crate::parser::after_lines(s, lines), event),
{
    law_trim(front, words, back);
    assert(lines.push(front + words + back).drop_last() =~= lines);
}

/// Whatever the line: where its trimmed text is not empty and holds a document, that is the event.
pub proof fn law_trimmed_line_is_an_event(
    s: SessionView,
    lines: Seq<Seq<char>>,
    line: Seq<char>,
    event: JsonModel,
)
    requires
        crate::text::trim_spec(line).len() > 0,
        crate::json::json_in_text(crate::text::trim_spec(line)) == Some(event),
    ensures
        crate::parser::after_lines(s, lines.push(line)) == crate::parser::after_event(
            crate::parser::after_lines(s, lines),
            event,
        ),
{
    assert(lines.push(line).drop_last() =~= lines);
}

/// A line that is blank, or holds no document, is skipped.
pub proof fn law_line_is_no_event(
    s: SessionView,
    lines: Seq<Seq<char>>,
    front: Seq<char>,
    words: Seq<char>,
    back: Seq<char>,
)
    requires
        is_blank(front),
        is_tight(words),
        is_blank(back),
        words.len() == 0 || crate::json::json_in_text(words) is None,
    ensures
        crate::parser::after_lines(s, lines.push(front + words + back))
            == crate::parser::after_lines(s, lines),
{
    law_trim(front, words, back);
    assert(lines.push(front + words + back).drop_last() =~= lines);
}

// ---------------------------------------------------------------------------------------------
// Status
// ---------------------------------------------------------------------------------------------

/// The session has had an event, and the last one is less than `idle_threshold` old.
pub open spec fn is_awake(s: SessionView, now: int, d: Defaults) -> bool {
    s.last_event_ts > 0 && crate::seconds::age(s.last_event_ts, now) < d.idle_threshold.ticks
}

/// The last permission event is less than `perm_window` old.
pub open spec fn is_asked(s: SessionView, now: int, d: Defaults) -> bool {
    s.last_permission_event_ts > 0 && crate::seconds::age(s.last_permission_event_ts, now)
        < d.perm_window.ticks
}

/// Every pending call is older than `stuck_max`.
pub open spec fn all_abandoned(s: SessionView, now: int, d: Defaults) -> bool {
    forall|id: Seq<char>| #[trigger]
        s.pending_tools.dom().contains(id) ==> crate::seconds::age(
            s.pending_tools[id].started_at,
            now,
        ) > d.stuck_max.ticks
}

/// A session without events, or whose last event is old, is idle.
pub proof fn law_silent_is_idle(s: SessionView, now: int, d: Defaults)
    requires
        s.last_event_ts <= 0 || crate::seconds::age(s.last_event_ts, now)
            >= d.idle_threshold.ticks,
    ensures
        crate::status::status_at(s, now, d) == Status::Idle,
{
}

/// A session that is awake and was asked for a permission a short time ago needs it.
pub proof fn law_asked_needs_permission(s: SessionView, now: int, d: Defaults)
    requires
        is_awake(s, now, d),
        is_asked(s, now, d),
    ensures
        crate::status::status_at(s, now, d) == Status::NeedsPermission,
{
}

/// A session that is awake and has a pending call older than `stuck_threshold`, but not older than
/// `stuck_max`, needs permission.
pub proof fn law_stuck_needs_permission(s: SessionView, id: Seq<char>, now: int, d: Defaults)
    requires
        is_awake(s, now, d),
        s.pending_tools.dom().contains(id),
        d.stuck_threshold.ticks < crate::seconds::age(s.pending_tools[id].started_at, now)
            <= d.stuck_max.ticks,
    ensures
        crate::status::status_at(s, now, d) == Status::NeedsPermission,
{
    assert(crate::status::is_stuck(s.pending_tools[id], now, d));
}

/// A session that is awake, was not asked and has pending calls of which none is stuck, but one is
/// not abandoned, is running.
pub proof fn law_pending_call_runs(s: SessionView, id: Seq<char>, now: int, d: Defaults)
    requires
        is_awake(s, now, d),
        !is_asked(s, now, d),
        s.pending_tools.dom().contains(id),
        crate::seconds::age(s.pending_tools[id].started_at, now) <= d.stuck_max.ticks,
        forall|other: Seq<char>| #[trigger]
            s.pending_tools.dom().contains(other) ==> {
                let age = crate::seconds::age(s.pending_tools[other].started_at, now);
                age <= d.stuck_threshold.ticks || age > d.stuck_max.ticks
            },
    ensures
        crate::status::status_at(s, now, d) == Status::Running,
{
    assert(crate::status::is_live(s.pending_tools[id], now, d));
}

/// A session that is awake, was not asked, has no call pending but abandoned ones, and an active
/// task, is running.
pub proof fn law_task_runs(s: SessionView, now: int, d: Defaults)
    requires
        is_awake(s, now, d),
        !is_asked(s, now, d),
        all_abandoned(s, now, d),
        s.has_active_subagent_task,
    ensures
        crate::status::status_at(s, now, d) == Status::Running,
{
}

/// A session that is awake, was not asked, has no call pending but abandoned ones and no active
/// task waits for the user where the assistant stopped and the user has not spoken since, and only
/// there.
pub proof fn law_stopped_waits(s: SessionView, now: int, d: Defaults)
    requires
        is_awake(s, now, d),
        !is_asked(s, now, d),
        all_abandoned(s, now, d),
        !s.has_active_subagent_task,
    ensures
        (crate::status::status_at(s, now, d) == Status::WaitingForUser) == (s.last_stop_ts > 0
            && s.last_user_input_ts < s.last_stop_ts),
{
}

/// Of the sessions that are left, one that has had an event in the last five seconds and has never
/// stopped is running; any other is idle.
pub proof fn law_fresh_event_runs(s: SessionView, now: int, d: Defaults)
    requires
        is_awake(s, now, d),
        !is_asked(s, now, d),
        all_abandoned(s, now, d),
        !s.has_active_subagent_task,
        s.last_stop_ts <= 0 || s.last_user_input_ts >= s.last_stop_ts,
    ensures
        crate::status::status_at(s, now, d) == (if s.last_stop_ts == 0 && crate::seconds::age(
            s.last_event_ts,
            now,
        ) < 5 * 0x8000_0000_0000_0000 {
            Status::Running
        } else {
            Status::Idle
        }),
{
}

/// The status depends on when four things happened, on the pending calls and on whether a task is
/// active: nothing else of a session changes it.
pub proof fn law_status_depends(a: SessionView, b: SessionView, now: int, d: Defaults)
    requires
        a.last_event_ts == b.last_event_ts,
        a.last_permission_event_ts == b.last_permission_event_ts,
        a.last_stop_ts == b.last_stop_ts,
        a.last_user_input_ts == b.last_user_input_ts,
        a.pending_tools == b.pending_tools,
        a.has_active_subagent_task == b.has_active_subagent_task,
    ensures
        crate::status::status_at(a, now, d) == crate::status::status_at(b, now, d),
{
}

/// What the statuses are called.
pub proof fn law_status_names()
    ensures
        Status::NeedsPermission.name_spec() == "needs_permission"@,
        Status::WaitingForUser.name_spec() == "waiting_for_user"@,
        Status::Running.name_spec() == "running"@,
        Status::Idle.name_spec() == "idle"@,
{
}

/// The default periods are thirty seconds, sixty seconds, thirty minutes and six hours.
pub proof fn law_default_periods()
    ensures
        ({
            let d = Defaults::default_spec();
            &&& d.perm_window.ticks == 30 * 0x8000_0000_0000_0000
            &&& d.stuck_threshold.ticks == 60 * 0x8000_0000_0000_0000
            &&& d.stuck_max.ticks == 30 * 60 * 0x8000_0000_0000_0000
            &&& d.idle_threshold.ticks == 6 * 60 * 60 * 0x8000_0000_0000_0000
        }),
{
}

// ---------------------------------------------------------------------------------------------
// Summaries
// ---------------------------------------------------------------------------------------------

/// A summary repeats what the session is called, where it works, when things happened, why it
/// stopped, its last tool and how many events it had, each under its own name.
pub proof fn law_summary_repeats(r: SummaryView, s: SessionView, now: int)
    requires
        crate::summary::is_summary(r, s, now),
    ensures
        r.sid == s.sid,
        r.cwd == s.cwd,
        r.last_event_ts == s.last_event_ts,
        r.last_user_input_ts == s.last_user_input_ts,
        r.last_assistant_ts == s.last_assistant_ts,
        r.last_stop_ts == s.last_stop_ts,
        r.last_stop_reason == s.last_stop_reason,
        r.last_tool_name == s.last_tool_name,
        r.event_count == s.event_count,
{
}

/// The status that a summary names is the one by the default periods.
pub proof fn law_summary_status(r: SummaryView, s: SessionView, now: int, status: Status)
    requires
        crate::summary::is_summary(r, s, now),
        crate::status::status_at(s, now, Defaults::default_spec()) == status,
    ensures
        r.status == (match status {
            Status::NeedsPermission => "needs_permission"@,
            Status::WaitingForUser => "waiting_for_user"@,
            Status::Running => "running"@,
            Status::Idle => "idle"@,
        }),
{
}

/// Of the first text of the user and the last of the assistant, a summary shows the first two
/// hundred characters, or all where there are no more.
pub proof fn law_summary_texts(r: SummaryView, s: SessionView, now: int)
    requires
        crate::summary::is_summary(r, s, now),
    ensures
        s.first_user_text.len() <= 200 ==> r.first_user_text == s.first_user_text,
        s.first_user_text.len() > 200 ==> r.first_user_text == s.first_user_text.take(200),
        s.last_assistant_text.len() <= 200 ==> r.last_assistant_text == s.last_assistant_text,
        s.last_assistant_text.len() > 200 ==> r.last_assistant_text == s.last_assistant_text.take(
            200,
        ),
{
}

/// A summary shows the cards of the todo file; without any, those that the assistant wrote last;
/// without any, those in its last text: and says which.
pub proof fn law_summary_cards(r: SummaryView, s: SessionView, now: int)
    requires
        crate::summary::is_summary(r, s, now),
    ensures
        ({
            let scraped = crate::checklist::cards_of(s.last_assistant_text);
            if s.todos.len() > 0 {
                r.todos == s.todos && r.todos_source == "todo_file"@
            } else if s.todos_from_jsonl.len() > 0 {
                r.todos == s.todos_from_jsonl && r.todos_source == "jsonl"@
            } else {
                r.todos == scraped && r.todos_source == (if scraped.len() > 0 {
                    "checklist"@
                } else {
                    "none"@
                })
            }
        }),
{
    if crate::checklist::cards_of(s.last_assistant_text).len() == 0 {
        assert(crate::checklist::cards_of(s.last_assistant_text) =~= Seq::<TodoView>::empty());
    }
}

/// A summary lists each pending call once, with its name and its start, and no other.
pub proof fn law_summary_calls(
    r: SummaryView,
    s: SessionView,
    now: int,
    id: Seq<char>,
    call: PendingView,
)
    requires
        crate::summary::is_summary(r, s, now),
    ensures
        (s.pending_tools.dom().contains(id) && s.pending_tools[id] == call) == (exists|i: int|
            0 <= i < r.pending_tools.len() && (#[trigger] r.pending_tools[i]).id == id
                && r.pending_tools[i].name == call.name && r.pending_tools[i].started_at
                == call.started_at),
        forall|i: int, j: int|
            0 <= i < j < r.pending_tools.len() ==> (#[trigger] r.pending_tools[i]).id != (
            #[trigger] r.pending_tools[j]).id,
{
    let list = r.pending_tools;
    if s.pending_tools.dom().contains(id) && s.pending_tools[id] == call {
        let i = choose|i: int| 0 <= i < list.len() && (#[trigger] list[i]).id == id;
        assert(list[i].name == call.name && list[i].started_at == call.started_at);
    }
    if exists|i: int|
        0 <= i < list.len() && (#[trigger] list[i]).id == id && list[i].name == call.name
            && list[i].started_at == call.started_at {
        let i = choose|i: int|
            0 <= i < list.len() && (#[trigger] list[i]).id == id && list[i].name == call.name
                && list[i].started_at == call.started_at;
        assert(s.pending_tools.dom().contains(list[i].id));
    }
}

} // verus!
