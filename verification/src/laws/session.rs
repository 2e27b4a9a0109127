//! What holds of the analysis of every recorded session.
use crate::command::summary_of;
use crate::counts::count_of;
use crate::phrase::key_of;
use crate::recent::ThreadModel;
use crate::rollout::{EventMsg, ExecCommandStatus, ResponseItem, RolloutItem};
use crate::session::{
    analysis_of, context_compaction, how_many, lemma_item_within, opened, SessionModel,
};
use crate::text::texts;
use vstd::prelude::*;

verus! {

// ---------------------------------------------------------------------------------------------
// Kinds of entries
// ---------------------------------------------------------------------------------------------
/// The name under which the call of a tool is counted, if the entry is one.
pub open spec fn tool_of(item: RolloutItem) -> Option<Seq<char>> {
    match item {
        RolloutItem::ResponseItem(ResponseItem::FunctionCall { name }) => Some(name@),
        RolloutItem::ResponseItem(ResponseItem::CustomToolCall { name }) => Some(
            "custom:"@ + name@,
        ),
        RolloutItem::ResponseItem(ResponseItem::ToolSearchCall) => Some("tool_search"@),
        RolloutItem::ResponseItem(ResponseItem::WebSearchCall) => Some("web_search"@),
        RolloutItem::ResponseItem(ResponseItem::ImageGenerationCall) => Some("image_generation"@),
        RolloutItem::ResponseItem(ResponseItem::LocalShellCall) => Some("local_shell"@),
        _ => None,
    }
}

pub open spec fn tool_call() -> spec_fn(RolloutItem) -> bool {
    |item: RolloutItem| tool_of(item) is Some
}

pub open spec fn call_of_tool(name: Seq<char>) -> spec_fn(RolloutItem) -> bool {
    |item: RolloutItem| tool_of(item) == Some(name)
}

pub open spec fn command_end() -> spec_fn(RolloutItem) -> bool {
    |item: RolloutItem| item matches RolloutItem::EventMsg(EventMsg::ExecCommandEnd(_))
}

pub open spec fn end_of_command(name: Seq<char>) -> spec_fn(RolloutItem) -> bool {
    |item: RolloutItem|
        item matches RolloutItem::EventMsg(EventMsg::ExecCommandEnd(exec)) && summary_of(
            texts(exec.command@),
        ) == name
}

pub open spec fn failed_end() -> spec_fn(RolloutItem) -> bool {
    |item: RolloutItem|
        item matches RolloutItem::EventMsg(EventMsg::ExecCommandEnd(exec)) && (exec.status
            != ExecCommandStatus::Completed || exec.exit_code != 0)
}

pub open spec fn failed_end_of_command(name: Seq<char>) -> spec_fn(RolloutItem) -> bool {
    |item: RolloutItem|
        item matches RolloutItem::EventMsg(EventMsg::ExecCommandEnd(exec)) && (exec.status
            != ExecCommandStatus::Completed || exec.exit_code != 0) && summary_of(
            texts(exec.command@),
        ) == name
}

pub open spec fn declined_end() -> spec_fn(RolloutItem) -> bool {
    |item: RolloutItem|
        item matches RolloutItem::EventMsg(EventMsg::ExecCommandEnd(exec)) && exec.status
            == ExecCommandStatus::Declined
}

pub open spec fn stream_error() -> spec_fn(RolloutItem) -> bool {
    |item: RolloutItem| item == RolloutItem::EventMsg(EventMsg::StreamError)
}

pub open spec fn turn_abort() -> spec_fn(RolloutItem) -> bool {
    |item: RolloutItem| item == RolloutItem::EventMsg(EventMsg::TurnAborted)
}

pub open spec fn approval_request() -> spec_fn(RolloutItem) -> bool {
    |item: RolloutItem|
        item == RolloutItem::EventMsg(EventMsg::ExecApprovalRequest) || item
            == RolloutItem::EventMsg(EventMsg::ApplyPatchApprovalRequest) || item
            == RolloutItem::EventMsg(EventMsg::RequestPermissions)
}

/// Holds of the events that announce that the context was compacted.
pub open spec fn announced_compaction() -> spec_fn(RolloutItem) -> bool {
    |item: RolloutItem| item == RolloutItem::EventMsg(EventMsg::ContextCompacted)
}

pub open spec fn compaction() -> spec_fn(RolloutItem) -> bool {
    |item: RolloutItem| item == RolloutItem::Compacted
}

/// Holds of the messages of the given role.
pub open spec fn message_of(role: Seq<char>) -> spec_fn(RolloutItem) -> bool {
    |item: RolloutItem|
        item matches RolloutItem::ResponseItem(ResponseItem::Message { role: r, .. }) && r@ == role
}

pub open spec fn user_event() -> spec_fn(RolloutItem) -> bool {
    |item: RolloutItem| item matches RolloutItem::EventMsg(EventMsg::UserMessage { .. })
}

pub open spec fn agent_event() -> spec_fn(RolloutItem) -> bool {
    |item: RolloutItem| item matches RolloutItem::EventMsg(EventMsg::AgentMessage { .. })
}

// ---------------------------------------------------------------------------------------------
// Laws
// ---------------------------------------------------------------------------------------------
/// Tool calls, commands, errors, aborts, approvals and compactions are counted by the entries that
/// report them. Compactions are counted by their own entries where there is one, and else by the
/// events that announce them.
pub proof fn law_counts(session: ThreadModel, items: Seq<RolloutItem>)
    ensures
        ({
            let m = analysis_of(session, items);
            &&& m.tool_calls == how_many(items, tool_call())
            &&& m.exec_commands == how_many(items, command_end())
            &&& m.failed_exec_commands == how_many(items, failed_end())
            &&& m.declined_exec_commands == how_many(items, declined_end())
            &&& m.stream_errors == how_many(items, stream_error())
            &&& m.turn_aborts == how_many(items, turn_abort())
            &&& m.approvals == how_many(items, approval_request())
            &&& how_many(items, compaction()) > 0 ==> m.compactions == how_many(
                items,
                compaction(),
            )
            &&& how_many(items, compaction()) == 0 ==> m.compactions == how_many(
                items,
                announced_compaction(),
            )
        }),
{
    lemma_counts(session, items);
    lemma_how_many_same(items, announced_compaction(), context_compaction());
}

proof fn lemma_how_many_same(
    items: Seq<RolloutItem>,
    kind: spec_fn(RolloutItem) -> bool,
    other: spec_fn(RolloutItem) -> bool,
)
    requires
        forall|item: RolloutItem| #[trigger] kind(item) == other(item),
    ensures
        how_many(items, kind) == how_many(items, other),
    decreases items.len(),
{
    if items.len() > 0 {
        lemma_how_many_same(items.drop_last(), kind, other);
    }
}

/// Counting the entries of a kind is counting what is left when all others are taken out.
pub proof fn law_how_many(items: Seq<RolloutItem>, kind: spec_fn(RolloutItem) -> bool)
    ensures
        how_many(items, kind) == items.filter(kind).len(),
    decreases items.len(),
{
    reveal(Seq::filter);
    if items.len() > 0 {
        law_how_many(items.drop_last(), kind);
    }
}

proof fn lemma_counts(session: ThreadModel, items: Seq<RolloutItem>)
    ensures
        ({
            let m = opened(session).after_items(items);
            &&& m.tool_calls == how_many(items, tool_call())
            &&& m.exec_commands == how_many(items, command_end())
            &&& m.failed_exec_commands == how_many(items, failed_end())
            &&& m.declined_exec_commands == how_many(items, declined_end())
            &&& m.stream_errors == how_many(items, stream_error())
            &&& m.turn_aborts == how_many(items, turn_abort())
            &&& m.approvals == how_many(items, approval_request())
            &&& m.compactions == how_many(items, compaction())
        }),
    decreases items.len(),
{
    if items.len() > 0 {
        lemma_counts(session, items.drop_last());
    }
}

/// Each tool and each command is counted by the entries that name it.
pub proof fn law_counts_by_name(session: ThreadModel, items: Seq<RolloutItem>, name: Seq<char>)
    ensures
        ({
            let m = analysis_of(session, items);
            &&& count_of(m.tool_counts, name) == how_many(items, call_of_tool(name))
            &&& count_of(m.command_counts, name) == how_many(items, end_of_command(name))
            &&& count_of(m.failed_command_counts, name) == how_many(
                items,
                failed_end_of_command(name),
            )
        }),
{
    lemma_counts_by_name(session, items, name);
}

proof fn lemma_counts_by_name(session: ThreadModel, items: Seq<RolloutItem>, name: Seq<char>)
    ensures
        ({
            let m = opened(session).after_items(items);
            &&& count_of(m.tool_counts, name) == how_many(items, call_of_tool(name))
            &&& count_of(m.command_counts, name) == how_many(items, end_of_command(name))
            &&& count_of(m.failed_command_counts, name) == how_many(
                items,
                failed_end_of_command(name),
            )
        }),
    decreases items.len(),
{
    if items.len() > 0 {
        lemma_counts_by_name(session, items.drop_last(), name);
    }
}

/// Every message of the assistant is either commentary or an answer; every declined command failed,
/// and every failed one was executed; a command failed no more often than it was executed; and every
/// phrase sample belongs to a message of the assistant and has a repetition key.
pub open spec fn consistent(m: SessionModel) -> bool {
    &&& m.assistant_messages == m.commentary_messages + m.final_answers
    &&& m.declined_exec_commands <= m.failed_exec_commands <= m.exec_commands
    &&& forall|name: Seq<char>| #[trigger]
        count_of(m.failed_command_counts, name) <= count_of(m.command_counts, name)
    &&& m.assistant_phrase_samples.len() <= m.assistant_messages
    &&& forall|i: int|
        0 <= i < m.assistant_phrase_samples.len() ==> key_of(
            #[trigger] m.assistant_phrase_samples[i],
        ) is Some
}

/// The analysis of every session is consistent.
pub proof fn law_consistent(session: ThreadModel, items: Seq<RolloutItem>)
    ensures
        consistent(analysis_of(session, items)),
{
    lemma_consistent(session, items);
}

proof fn lemma_consistent(session: ThreadModel, items: Seq<RolloutItem>)
    ensures
        consistent(opened(session).after_items(items)),
    decreases items.len(),
{
    if items.len() > 0 {
        let before = opened(session).after_items(items.drop_last());
        let after = opened(session).after_items(items);
        lemma_consistent(session, items.drop_last());
        assert forall|name: Seq<char>| #[trigger]
            count_of(after.failed_command_counts, name) <= count_of(after.command_counts, name) by {
            assert(count_of(before.failed_command_counts, name) <= count_of(
                before.command_counts,
                name,
            ));
        }
    }
}

/// Messages that are announced by events are not counted where the messages themselves are recorded:
/// the events of a session add at most one message of the user and one of the assistant, and none
/// where the messages come first.
pub proof fn law_messages(session: ThreadModel, items: Seq<RolloutItem>)
    ensures
        ({
            let m = analysis_of(session, items);
            let users = how_many(items, message_of("user"@));
            let assistants = how_many(items, message_of("assistant"@));
            &&& users <= m.user_messages <= users + 1
            &&& assistants <= m.assistant_messages <= assistants + 1
            &&& how_many(items, user_event()) == 0 ==> m.user_messages == users
            &&& how_many(items, agent_event()) == 0 ==> m.assistant_messages == assistants
            &&& how_many(items, user_event()) > 0 ==> m.user_messages > 0
            &&& how_many(items, agent_event()) > 0 ==> m.assistant_messages > 0
            &&& items.len() > 0 && message_of("user"@)(items[0]) ==> m.user_messages == users
            &&& items.len() > 0 && message_of("assistant"@)(items[0]) ==> m.assistant_messages
                == assistants
        }),
{
    lemma_messages(session, items);
}

proof fn lemma_messages(session: ThreadModel, items: Seq<RolloutItem>)
    ensures
        ({
            let m = opened(session).after_items(items);
            let users = how_many(items, message_of("user"@));
            let assistants = how_many(items, message_of("assistant"@));
            &&& users <= m.user_messages <= users + 1
            &&& assistants <= m.assistant_messages <= assistants + 1
            &&& how_many(items, user_event()) == 0 ==> m.user_messages == users
            &&& how_many(items, agent_event()) == 0 ==> m.assistant_messages == assistants
            &&& how_many(items, user_event()) > 0 ==> m.user_messages > 0
            &&& how_many(items, agent_event()) > 0 ==> m.assistant_messages > 0
            &&& items.len() > 0 && message_of("user"@)(items[0]) ==> m.user_messages == users > 0
            &&& items.len() > 0 && message_of("assistant"@)(items[0]) ==> m.assistant_messages
                == assistants > 0
        }),
    decreases items.len(),
{
    reveal_strlit("user");
    reveal_strlit("assistant");
    assert("user"@.len() != "assistant"@.len());
    if items.len() > 0 {
        lemma_messages(session, items.drop_last());
        if items.len() > 1 {
            assert(items.drop_last()[0] == items[0]);
        } else {
            assert(items.drop_last().len() == 0);
            assert(how_many(items.drop_last(), message_of("user"@)) == 0);
        }
    }
}

/// No count of a session exceeds the number of its entries, nor does the number of its samples; and
/// its friction is at most seven times that number.
pub proof fn law_bounds(session: ThreadModel, items: Seq<RolloutItem>)
    ensures
        analysis_of(session, items).within(items.len()),
        analysis_of(session, items).assistant_phrase_samples.len() <= items.len(),
        analysis_of(session, items).friction() <= 7 * items.len(),
{
    lemma_bounds(session, items);
    lemma_how_many_bound(items, context_compaction());
    let end = opened(session).after_items(items);
    let m = analysis_of(session, items);
    assert forall|name: Seq<char>| #[trigger] count_of(m.tool_counts, name) <= items.len() by {
        assert(count_of(end.tool_counts, name) <= items.len());
    }
    assert forall|name: Seq<char>| #[trigger] count_of(m.command_counts, name) <= items.len() by {
        assert(count_of(end.command_counts, name) <= items.len());
    }
    assert forall|name: Seq<char>| #[trigger]
        count_of(m.failed_command_counts, name) <= items.len() by {
        assert(count_of(end.failed_command_counts, name) <= items.len());
    }
}

proof fn lemma_how_many_bound(items: Seq<RolloutItem>, kind: spec_fn(RolloutItem) -> bool)
    ensures
        how_many(items, kind) <= items.len(),
    decreases items.len(),
{
    if items.len() > 0 {
        lemma_how_many_bound(items.drop_last(), kind);
    }
}

proof fn lemma_bounds(session: ThreadModel, items: Seq<RolloutItem>)
    ensures
        ({
            let m = opened(session).after_items(items);
            &&& m.within(items.len())
            &&& m.assistant_phrase_samples.len() <= items.len()
            &&& m.failed_exec_commands * 4 + m.stream_errors * 4 + m.turn_aborts * 3
                + m.declined_exec_commands * 2 + m.approvals + m.exec_commands <= 7 * items.len()
        }),
    decreases items.len(),
{
    if items.len() > 0 {
        let before = opened(session).after_items(items.drop_last());
        lemma_bounds(session, items.drop_last());
        lemma_item_within(before, items.last(), items.drop_last().len());
    }
}

/// A failed command weighs at least four, a stream error four, an aborted turn three and an approval
/// one, and a session without any of these has friction only where it executed many commands.
pub proof fn law_friction(m: SessionModel)
    ensures
        m.friction() >= 4 * m.failed_exec_commands,
        m.friction() >= 4 * m.stream_errors,
        m.friction() >= 3 * m.turn_aborts,
        m.friction() >= m.approvals,
        consistent(m) ==> (m.friction() == 0 <==> m.failed_exec_commands == 0 && m.stream_errors
            == 0 && m.turn_aborts == 0 && m.approvals == 0 && m.exec_commands <= 8),
{
}

/// What each sign of trouble adds to the friction of a session: a failed command four, and two more where
/// it was declined, a stream error four, an aborted turn three, an approval one, and a command one where
/// eight or more came before it. Without any of these there is no friction.
pub proof fn law_friction_weights(m: SessionModel)
    ensures
        (SessionModel { failed_exec_commands: m.failed_exec_commands + 1, ..m }).friction()
            == m.friction() + 4,
        (SessionModel { declined_exec_commands: m.declined_exec_commands + 1, ..m }).friction()
            == m.friction() + 2,
        (SessionModel { stream_errors: m.stream_errors + 1, ..m }).friction() == m.friction() + 4,
        (SessionModel { turn_aborts: m.turn_aborts + 1, ..m }).friction() == m.friction() + 3,
        (SessionModel { approvals: m.approvals + 1, ..m }).friction() == m.friction() + 1,
        (SessionModel { exec_commands: m.exec_commands + 1, ..m }).friction() == m.friction() + (
        if m.exec_commands >= 8 {
            1nat
        } else {
            0
        }),
        m.failed_exec_commands == 0 && m.declined_exec_commands == 0 && m.stream_errors == 0
            && m.turn_aborts == 0 && m.approvals == 0 && m.exec_commands == 0 ==> m.friction() == 0,
{
}

/// The friction of a session depends on these six counts alone.
pub proof fn law_friction_depends(a: SessionModel, b: SessionModel)
    requires
        a.failed_exec_commands == b.failed_exec_commands,
        a.declined_exec_commands == b.declined_exec_commands,
        a.stream_errors == b.stream_errors,
        a.turn_aborts == b.turn_aborts,
        a.approvals == b.approvals,
        a.exec_commands == b.exec_commands,
    ensures
        a.friction() == b.friction(),
{
}

/// Only names that occurred are counted: a tool or a command has an entry exactly where some entry of the
/// recording names it, and there are finitely many of them.
pub proof fn law_counted_names(session: ThreadModel, items: Seq<RolloutItem>, name: Seq<char>)
    ensures
        ({
            let m = analysis_of(session, items);
            &&& m.tool_counts.contains_key(name) <==> how_many(items, call_of_tool(name)) > 0
            &&& m.command_counts.contains_key(name) <==> how_many(items, end_of_command(name)) > 0
            &&& m.failed_command_counts.contains_key(name) <==> how_many(
                items,
                failed_end_of_command(name),
            ) > 0
            &&& m.tool_counts.dom().finite()
            &&& m.command_counts.dom().finite()
            &&& m.failed_command_counts.dom().finite()
        }),
{
    lemma_counts_by_name(session, items, name);
    lemma_counted_names(session, items, name);
}

proof fn lemma_counted_names(session: ThreadModel, items: Seq<RolloutItem>, name: Seq<char>)
    ensures
        ({
            let m = opened(session).after_items(items);
            &&& m.tool_counts.contains_key(name) ==> m.tool_counts[name] > 0
            &&& m.command_counts.contains_key(name) ==> m.command_counts[name] > 0
            &&& m.failed_command_counts.contains_key(name) ==> m.failed_command_counts[name] > 0
            &&& m.tool_counts.dom().finite()
            &&& m.command_counts.dom().finite()
            &&& m.failed_command_counts.dom().finite()
        }),
    decreases items.len(),
{
    if items.len() > 0 {
        lemma_counted_names(session, items.drop_last(), name);
    }
}

} // verus!
