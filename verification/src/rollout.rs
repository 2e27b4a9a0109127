//! What a recorded session consists of.
use crate::text::{collapse_whitespace, collapsed, opt_text};
use vstd::prelude::*;

verus! {

/// The part of a turn to which an assistant message belongs.
#[derive(Clone, Copy, Debug, PartialEq, Eq, Structural)]
pub enum MessagePhase {
    Commentary,
    FinalAnswer,
}

/// A piece of the content of a message.
#[derive(Clone, Debug, PartialEq, Eq)]
pub enum ContentItem {
    InputText { text: String },
    InputImage,
    OutputText { text: String },
}

/// What goes between the user, the model and its tools.
#[derive(Clone, Debug, PartialEq, Eq)]
pub enum ResponseItem {
    Message { role: String, content: Vec<ContentItem>, phase: Option<MessagePhase> },
    Reasoning,
    LocalShellCall,
    FunctionCall { name: String },
    ToolSearchCall,
    FunctionCallOutput,
    CustomToolCall { name: String },
    CustomToolCallOutput,
    ToolSearchOutput,
    WebSearchCall,
    ImageGenerationCall,
    GhostSnapshot,
    Compaction,
    Other,
}

/// How the execution of a command ended.
#[derive(Clone, Copy, Debug, PartialEq, Eq, Structural)]
pub enum ExecCommandStatus {
    Completed,
    Failed,
    Declined,
}

/// The end of the execution of a command.
#[derive(Clone, Debug, PartialEq, Eq)]
pub struct ExecCommandEndEvent {
    pub command: Vec<String>,
    pub exit_code: i32,
    pub status: ExecCommandStatus,
}

/// Something that happened during a session.
#[derive(Clone, Debug, PartialEq, Eq)]
pub enum EventMsg {
    ExecCommandEnd(ExecCommandEndEvent),
    StreamError,
    TurnAborted,
    ExecApprovalRequest,
    ApplyPatchApprovalRequest,
    RequestPermissions,
    AgentMessage { message: String, phase: Option<MessagePhase> },
    UserMessage { message: String },
    ContextCompacted,
    Other,
}

/// One entry of the recording of a session.
#[derive(Clone, Debug, PartialEq, Eq)]
pub enum RolloutItem {
    SessionMeta,
    ResponseItem(ResponseItem),
    Compacted,
    TurnContext,
    EventMsg(EventMsg),
}

/// The text of a piece of content; images have none.
pub open spec fn item_text(item: ContentItem) -> Seq<char> {
    match item {
        ContentItem::InputText { text } => text@,
        ContentItem::OutputText { text } => text@,
        ContentItem::InputImage => Seq::empty(),
    }
}

/// The texts of the pieces of content, one directly after the other.
pub open spec fn content_text(content: Seq<ContentItem>) -> Seq<char>
    decreases content.len(),
{
    if content.len() == 0 {
        Seq::empty()
    } else {
        content_text(content.drop_last()) + item_text(content.last())
    }
}

/// The text of a message, if it is not blank.
pub open spec fn message_text(content: Seq<ContentItem>) -> Option<Seq<char>> {
    let text = collapsed(content_text(content));
    if text.len() > 0 {
        Some(text)
    } else {
        None
    }
}

/// The text of a message with its whitespace collapsed, if it is not blank.
pub fn extract_message_text(content: &[ContentItem]) -> (r: Option<String>)
    ensures
        opt_text(r) == message_text(content@),
{
    let mut text = String::new();
    for i in 0..content.len()
        invariant
            text@ == content_text(content@.take(i as int)),
    {
        let ghost next = content@.take(i + 1);
        assert(next.drop_last() =~= content@.take(i as int));
        match &content[i] {
            ContentItem::InputText { text: item_text } => {
                text.append(item_text.as_str());
            },
            ContentItem::OutputText { text: item_text } => {
                text.append(item_text.as_str());
            },
            ContentItem::InputImage => {},
        }
        assert(text@ =~= content_text(next));
    }
    assert(content@.take(content@.len() as int) =~= content@);
    let text = collapse_whitespace(text.as_str());
    if text.as_str().is_empty() {
        None
    } else {
        Some(text)
    }
}

} // verus!
