//! The analysis of one recorded session.
use crate::command::{summarize_exec_command, summary_of};
use crate::counts::{
    count_of, entries_text, format_count_entries, increment_count, raised, top, top_counts,
    CountMap, Counts,
};
use crate::phrase::{assistant_phrase_sample, sample_of};
use crate::recent::{ThreadItem, ThreadModel};
use crate::rollout::{
    extract_message_text, message_text, EventMsg, ExecCommandEndEvent, ExecCommandStatus,
    MessagePhase, ResponseItem, RolloutItem,
};
use crate::text::{
    decimal, decimal_text, join, join_texts, lossy_text, opt_text, same_text, shorten, shorten_path,
    shortened, texts, PATH_CHAR_LIMIT,
};
use vstd::prelude::*;
use vstd::utf8::{decode_utf8, valid_utf8};

verus! {

/// The length to which the preview of a session is shortened.
pub const PREVIEW_CHAR_LIMIT: usize = 110;

/// The number of executed commands of a session that are no sign of friction.
pub const CALM_EXEC_COMMANDS: usize = 8;

// ---------------------------------------------------------------------------------------------
// Model
// ---------------------------------------------------------------------------------------------
/// What is known of a session.
pub struct SessionModel {
    pub created_at: Seq<char>,
    pub preview: Seq<char>,
    pub cwd: Option<Seq<char>>,
    pub user_messages: nat,
    pub assistant_messages: nat,
    pub final_answers: nat,
    pub commentary_messages: nat,
    pub tool_calls: nat,
    pub exec_commands: nat,
    pub failed_exec_commands: nat,
    pub declined_exec_commands: nat,
    pub stream_errors: nat,
    pub turn_aborts: nat,
    pub approvals: nat,
    pub compactions: nat,
    pub tool_counts: Counts,
    pub command_counts: Counts,
    pub failed_command_counts: Counts,
    pub assistant_phrase_samples: Seq<Seq<char>>,
}

/// The preview of a session of which no user message is known.
pub open spec fn no_preview() -> Seq<char> {
    "(no user preview recorded)"@
}

/// A session of which only the listing is known.
pub open spec fn opened(session: ThreadModel) -> SessionModel {
    SessionModel {
        created_at: match session.created_at {
            Some(time) => time,
            None => "unknown time"@,
        },
        preview: match session.first_user_message {
            Some(text) => shortened(text, PREVIEW_CHAR_LIMIT as nat),
            None => no_preview(),
        },
        cwd: match session.cwd {
            Some(path) => Some(shortened(lossy_text(path), PATH_CHAR_LIMIT as nat)),
            None => None,
        },
        user_messages: 0,
        assistant_messages: 0,
        final_answers: 0,
        commentary_messages: 0,
        tool_calls: 0,
        exec_commands: 0,
        failed_exec_commands: 0,
        declined_exec_commands: 0,
        stream_errors: 0,
        turn_aborts: 0,
        approvals: 0,
        compactions: 0,
        tool_counts: Map::empty(),
        command_counts: Map::empty(),
        failed_command_counts: Map::empty(),
        assistant_phrase_samples: Seq::empty(),
    }
}

/// A working directory whose path is valid UTF-8 is shown by the text that the path encodes.
pub open spec fn shows_plain_path(session: ThreadModel, m: SessionModel) -> bool {
    session.cwd is Some && valid_utf8(session.cwd->0) ==> m.cwd == Some(
        shortened(decode_utf8(session.cwd->0), PATH_CHAR_LIMIT as nat),
    )
}

/// Whether a command did not succeed.
pub open spec fn exec_failed(exec: ExecCommandEndEvent) -> bool {
    exec.status != ExecCommandStatus::Completed || exec.exit_code != 0
}

impl SessionModel {
    /// After a message of the user; its text becomes the preview where there was none.
    pub open spec fn after_user_message(self, text: Option<Seq<char>>) -> SessionModel {
        SessionModel {
            user_messages: self.user_messages + 1,
            preview: if self.preview == no_preview() && text is Some {
                shortened(text->0, PREVIEW_CHAR_LIMIT as nat)
            } else {
                self.preview
            },
            ..self
        }
    }

    /// After a message of the assistant: commentary, or else an answer.
    pub open spec fn after_assistant_message(
        self,
        phase: Option<MessagePhase>,
        sample: Option<Seq<char>>,
    ) -> SessionModel {
        let commentary = phase == Some(MessagePhase::Commentary);
        SessionModel {
            assistant_messages: self.assistant_messages + 1,
            commentary_messages: if commentary {
                self.commentary_messages + 1
            } else {
                self.commentary_messages
            },
            final_answers: if commentary {
                self.final_answers
            } else {
                self.final_answers + 1
            },
            assistant_phrase_samples: match sample {
                Some(s) => self.assistant_phrase_samples.push(s),
                None => self.assistant_phrase_samples,
            },
            ..self
        }
    }

    /// After a call of the tool `name`.
    pub open spec fn after_tool_call(self, name: Seq<char>) -> SessionModel {
        SessionModel {
            tool_calls: self.tool_calls + 1,
            tool_counts: raised(self.tool_counts, name, 1),
            ..self
        }
    }

    /// After the end of a command.
    pub open spec fn after_exec(self, exec: ExecCommandEndEvent) -> SessionModel {
        let name = summary_of(texts(exec.command@));
        let counted = SessionModel {
            exec_commands: self.exec_commands + 1,
            command_counts: raised(self.command_counts, name, 1),
            ..self
        };
        if exec_failed(exec) {
            SessionModel {
                failed_exec_commands: self.failed_exec_commands + 1,
                declined_exec_commands: if exec.status == ExecCommandStatus::Declined {
                    self.declined_exec_commands + 1
                } else {
                    self.declined_exec_commands
                },
                failed_command_counts: raised(self.failed_command_counts, name, 1),
                ..counted
            }
        } else {
            counted
        }
    }

    /// After what went between the user, the model and its tools.
    pub open spec fn after_response(self, response: ResponseItem) -> SessionModel {
        match response {
            ResponseItem::Message { role, content, phase } => {
                let text = message_text(content@);
                if role@ == "user"@ {
                    self.after_user_message(text)
                } else if role@ == "assistant"@ {
                    self.after_assistant_message(
                        phase,
                        match text {
                            Some(t) => sample_of(t),
                            None => None,
                        },
                    )
                } else {
                    self
                }
            },
            ResponseItem::FunctionCall { name } => self.after_tool_call(name@),
            ResponseItem::CustomToolCall { name } => self.after_tool_call("custom:"@ + name@),
            ResponseItem::ToolSearchCall => self.after_tool_call("tool_search"@),
            ResponseItem::WebSearchCall => self.after_tool_call("web_search"@),
            ResponseItem::ImageGenerationCall => self.after_tool_call("image_generation"@),
            ResponseItem::LocalShellCall => self.after_tool_call("local_shell"@),
            _ => self,
        }
    }

    /// After an event. Messages that are announced by events count only where none is known yet.
    pub open spec fn after_event(self, event: EventMsg) -> SessionModel {
        match event {
            EventMsg::ExecCommandEnd(exec) => self.after_exec(exec),
            EventMsg::StreamError => SessionModel { stream_errors: self.stream_errors + 1, ..self },
            EventMsg::TurnAborted => SessionModel { turn_aborts: self.turn_aborts + 1, ..self },
            EventMsg::ExecApprovalRequest
            | EventMsg::ApplyPatchApprovalRequest
            | EventMsg::RequestPermissions => SessionModel {
                approvals: self.approvals + 1,
                ..self
            },
            EventMsg::AgentMessage { message, phase } => {
                if self.assistant_messages == 0 {
                    self.after_assistant_message(phase, sample_of(message@))
                } else {
                    self
                }
            },
            EventMsg::UserMessage { message } => {
                if self.user_messages == 0 {
                    self.after_user_message(
                        if message@.len() > 0 {
                            Some(message@)
                        } else {
                            None
                        },
                    )
                } else {
                    self
                }
            },
            EventMsg::ContextCompacted | EventMsg::Other => self,
        }
    }

    /// After one entry of the recording.
    pub open spec fn after_item(self, item: RolloutItem) -> SessionModel {
        match item {
            RolloutItem::ResponseItem(response) => self.after_response(response),
            RolloutItem::Compacted => SessionModel { compactions: self.compactions + 1, ..self },
            RolloutItem::EventMsg(event) => self.after_event(event),
            RolloutItem::SessionMeta | RolloutItem::TurnContext => self,
        }
    }

    /// After all of the given entries.
    pub open spec fn after_items(self, items: Seq<RolloutItem>) -> SessionModel
        decreases items.len(),
    {
        if items.len() == 0 {
            self
        } else {
            self.after_items(items.drop_last()).after_item(items.last())
        }
    }

    /// Whether no count exceeds `n`.
    pub open spec fn within(self, n: nat) -> bool {
        &&& self.user_messages <= n
        &&& self.assistant_messages <= n
        &&& self.final_answers <= n
        &&& self.commentary_messages <= n
        &&& self.tool_calls <= n
        &&& self.exec_commands <= n
        &&& self.failed_exec_commands <= n
        &&& self.declined_exec_commands <= n
        &&& self.stream_errors <= n
        &&& self.turn_aborts <= n
        &&& self.approvals <= n
        &&& self.compactions <= n
        &&& forall|name: Seq<char>| #[trigger] count_of(self.tool_counts, name) <= n
        &&& forall|name: Seq<char>| #[trigger] count_of(self.command_counts, name) <= n
        &&& forall|name: Seq<char>| #[trigger] count_of(self.failed_command_counts, name) <= n
    }

    /// Whether the counts that are raised on the way to `after` still fit into a machine word.
    pub open spec fn has_room_for(self, after: SessionModel) -> bool {
        let max = usize::MAX as nat;
        &&& after.user_messages <= max
        &&& after.assistant_messages <= max
        &&& after.final_answers <= max
        &&& after.commentary_messages <= max
        &&& after.tool_calls <= max
        &&& after.exec_commands <= max
        &&& after.failed_exec_commands <= max
        &&& after.declined_exec_commands <= max
        &&& after.stream_errors <= max
        &&& after.turn_aborts <= max
        &&& after.approvals <= max
        &&& after.compactions <= max
        &&& raises_within(self.tool_counts, after.tool_counts, max)
        &&& raises_within(self.command_counts, after.command_counts, max)
        &&& raises_within(self.failed_command_counts, after.failed_command_counts, max)
    }

    /// How much trouble the session had.
    pub open spec fn friction(self) -> nat {
        self.failed_exec_commands * 4 + self.stream_errors * 4 + self.turn_aborts * 3
            + self.declined_exec_commands * 2 + self.approvals + (if self.exec_commands
            > CALM_EXEC_COMMANDS {
            (self.exec_commands - CALM_EXEC_COMMANDS) as nat
        } else {
            0
        })
    }

    /// The line that sums the session up.
    pub open spec fn summary(self) -> Seq<char> {
        let line = "- "@ + self.created_at + " | "@ + self.preview + " | users "@ + decimal(
            self.user_messages,
        ) + ", assistant "@ + decimal(self.assistant_messages) + ", commentary "@ + decimal(
            self.commentary_messages,
        ) + ", tools "@ + decimal(self.tool_calls) + ", exec "@ + decimal(self.exec_commands)
            + ", failed exec "@ + decimal(self.failed_exec_commands) + ", approvals "@ + decimal(
            self.approvals,
        ) + ", compactions "@ + decimal(self.compactions);
        match self.cwd {
            Some(cwd) => line + " | cwd "@ + cwd,
            None => line,
        }
    }

    /// The signs of friction.
    pub open spec fn reasons(self) -> Seq<Seq<char>> {
        let found = signal("failed exec "@, self.failed_exec_commands) + signal(
            "stream errors "@,
            self.stream_errors,
        ) + signal("turn aborts "@, self.turn_aborts) + signal("approvals "@, self.approvals);
        if found.len() == 0 {
            signal("exec commands "@, self.exec_commands)
        } else {
            found
        }
    }

    /// The line that says what trouble the session had.
    pub open spec fn friction_text(self) -> Seq<char> {
        "- score "@ + decimal(self.friction()) + " | "@ + self.created_at + " | "@ + self.preview
            + " | "@ + join(self.reasons(), ", "@) + labelled(
            " | top tools: "@,
            entries_text(top(self.tool_counts, 3)),
        ) + labelled(
            " | failed commands: "@,
            entries_text(top(self.failed_command_counts, 2)),
        )
    }
}

/// Whether no count that differs between the two exceeds `n`.
pub open spec fn raises_within(before: Counts, after: Counts, n: nat) -> bool {
    forall|name: Seq<char>|
        count_of(before, name) != #[trigger] count_of(after, name) ==> count_of(after, name) <= n
}

/// A count with its name, unless it is zero.
pub open spec fn signal(label: Seq<char>, n: nat) -> Seq<Seq<char>> {
    if n > 0 {
        seq![label + decimal(n)]
    } else {
        Seq::empty()
    }
}

/// A text with its label, unless it is empty.
pub open spec fn labelled(label: Seq<char>, text: Seq<char>) -> Seq<char> {
    if text.len() > 0 {
        label + text
    } else {
        Seq::empty()
    }
}

/// How many of the entries `kind` holds of.
pub open spec fn how_many(items: Seq<RolloutItem>, kind: spec_fn(RolloutItem) -> bool) -> nat
    decreases items.len(),
{
    if items.len() == 0 {
        0
    } else {
        how_many(items.drop_last(), kind) + (if kind(items.last()) {
            1nat
        } else {
            0
        })
    }
}

/// Holds of the events that announce that the context was compacted.
pub open spec fn context_compaction() -> spec_fn(RolloutItem) -> bool {
    |item: RolloutItem| item == RolloutItem::EventMsg(EventMsg::ContextCompacted)
}

/// The analysis of a recorded session. Compactions are counted by their own entries, or, where there
/// is none, by the events that announce them.
pub open spec fn analysis_of(session: ThreadModel, items: Seq<RolloutItem>) -> SessionModel {
    let end = opened(session).after_items(items);
    if end.compactions == 0 {
        SessionModel { compactions: how_many(items, context_compaction()), ..end }
    } else {
        end
    }
}

// ---------------------------------------------------------------------------------------------
// Laws
// ---------------------------------------------------------------------------------------------
/// One entry raises no count by more than one.
pub proof fn lemma_item_within(m: SessionModel, item: RolloutItem, n: nat)
    requires
        m.within(n),
    ensures
        m.after_item(item).within(n + 1),
{
    let after = m.after_item(item);
    assert forall|name: Seq<char>| #[trigger] count_of(after.tool_counts, name) <= n + 1 by {
        assert(count_of(m.tool_counts, name) <= n);
        if let RolloutItem::ResponseItem(ResponseItem::FunctionCall { name: tool }) = item {
            assert(count_of(m.tool_counts, tool@) <= n);
        }
        if let RolloutItem::ResponseItem(ResponseItem::CustomToolCall { name: tool }) = item {
            assert(count_of(m.tool_counts, "custom:"@ + tool@) <= n);
        }
        assert(count_of(m.tool_counts, "tool_search"@) <= n);
        assert(count_of(m.tool_counts, "web_search"@) <= n);
        assert(count_of(m.tool_counts, "image_generation"@) <= n);
        assert(count_of(m.tool_counts, "local_shell"@) <= n);
    }
    assert forall|name: Seq<char>| #[trigger] count_of(after.command_counts, name) <= n + 1 by {
        assert(count_of(m.command_counts, name) <= n);
    }
    assert forall|name: Seq<char>| #[trigger]
        count_of(after.failed_command_counts, name) <= n + 1 by {
        assert(count_of(m.failed_command_counts, name) <= n);
    }
}

// ---------------------------------------------------------------------------------------------
// Analysis
// ---------------------------------------------------------------------------------------------
/// What is known of a session.
pub struct SessionAnalysis {
    pub created_at: String,
    pub preview: String,
    pub cwd: Option<String>,
    pub user_messages: usize,
    pub assistant_messages: usize,
    pub final_answers: usize,
    pub commentary_messages: usize,
    pub tool_calls: usize,
    pub exec_commands: usize,
    pub failed_exec_commands: usize,
    pub declined_exec_commands: usize,
    pub stream_errors: usize,
    pub turn_aborts: usize,
    pub approvals: usize,
    pub compactions: usize,
    pub tool_counts: CountMap,
    pub command_counts: CountMap,
    pub failed_command_counts: CountMap,
    pub assistant_phrase_samples: Vec<String>,
}

impl View for SessionAnalysis {
    type V = SessionModel;

    open spec fn view(&self) -> SessionModel {
        SessionModel {
            created_at: self.created_at@,
            preview: self.preview@,
            cwd: opt_text(self.cwd),
            user_messages: self.user_messages as nat,
            assistant_messages: self.assistant_messages as nat,
            final_answers: self.final_answers as nat,
            commentary_messages: self.commentary_messages as nat,
            tool_calls: self.tool_calls as nat,
            exec_commands: self.exec_commands as nat,
            failed_exec_commands: self.failed_exec_commands as nat,
            declined_exec_commands: self.declined_exec_commands as nat,
            stream_errors: self.stream_errors as nat,
            turn_aborts: self.turn_aborts as nat,
            approvals: self.approvals as nat,
            compactions: self.compactions as nat,
            tool_counts: self.tool_counts@,
            command_counts: self.command_counts@,
            failed_command_counts: self.failed_command_counts@,
            assistant_phrase_samples: texts(self.assistant_phrase_samples@),
        }
    }
}

impl SessionAnalysis {
    /// The analysis of a session of which only the listing is known.
    fn open(session: &ThreadItem) -> (r: SessionAnalysis)
        ensures
            r@ == opened(session@),
            shows_plain_path(session@, r@),
    {
        let r = SessionAnalysis {
            created_at: match &session.created_at {
                Some(time) => time.clone(),
                None => "unknown time".to_owned(),
            },
            preview: match &session.first_user_message {
                Some(text) => shorten(text.as_str(), PREVIEW_CHAR_LIMIT),
                None => "(no user preview recorded)".to_owned(),
            },
            cwd: match &session.cwd {
                Some(cwd) => Some(shorten_path(cwd.as_slice())),
                None => None,
            },
            user_messages: 0,
            assistant_messages: 0,
            final_answers: 0,
            commentary_messages: 0,
            tool_calls: 0,
            exec_commands: 0,
            failed_exec_commands: 0,
            declined_exec_commands: 0,
            stream_errors: 0,
            turn_aborts: 0,
            approvals: 0,
            compactions: 0,
            tool_counts: CountMap::new(),
            command_counts: CountMap::new(),
            failed_command_counts: CountMap::new(),
            assistant_phrase_samples: Vec::new(),
        };
        assert(r@.assistant_phrase_samples =~= Seq::<Seq<char>>::empty());
        r
    }

    fn record_user_message(&mut self, text: Option<&str>)
        requires
            old(self).user_messages < usize::MAX,
        ensures
            final(self)@ == old(self)@.after_user_message(
                match text {
                    Some(t) => Some(t@),
                    None => None,
                },
            ),
    {
        self.user_messages = self.user_messages + 1;
        if same_text(self.preview.as_str(), "(no user preview recorded)") {
            match text {
                Some(text) => {
                    self.preview = shorten(text, PREVIEW_CHAR_LIMIT);
                },
                None => {},
            }
        }
    }

    fn record_assistant_message(&mut self, phase: Option<MessagePhase>, sample: Option<String>)
        requires
            old(self)@.has_room_for(old(self)@.after_assistant_message(phase, opt_text(sample))),
        ensures
            final(self)@ == old(self)@.after_assistant_message(phase, opt_text(sample)),
    {
        self.assistant_messages = self.assistant_messages + 1;
        let commentary = match phase {
            Some(MessagePhase::Commentary) => true,
            _ => false,
        };
        if commentary {
            self.commentary_messages = self.commentary_messages + 1;
        } else {
            self.final_answers = self.final_answers + 1;
        }
        match sample {
            Some(sample) => {
                let ghost before = self.assistant_phrase_samples@;
                self.assistant_phrase_samples.push(sample);
                assert(texts(self.assistant_phrase_samples@) =~= texts(before).push(sample@));
            },
            None => {},
        }
    }

    fn record_tool_call(&mut self, name: String)
        requires
            old(self)@.has_room_for(old(self)@.after_tool_call(name@)),
        ensures
            final(self)@ == old(self)@.after_tool_call(name@),
    {
        proof {
            let after = self@.after_tool_call(name@);
            assert(count_of(after.tool_counts, name@) <= usize::MAX);
        }
        self.tool_calls = self.tool_calls + 1;
        increment_count(&mut self.tool_counts, name);
    }

    /// Takes in what went between the user, the model and its tools.
    pub fn record_response_item(&mut self, response: ResponseItem)
        requires
            old(self)@.has_room_for(old(self)@.after_response(response)),
        ensures
            final(self)@ == old(self)@.after_response(response),
    {
        match response {
            ResponseItem::Message { role, content, phase } => {
                let text = extract_message_text(content.as_slice());
                if same_text(role.as_str(), "user") {
                    match &text {
                        Some(text) => {
                            self.record_user_message(Some(text.as_str()));
                        },
                        None => {
                            self.record_user_message(None);
                        },
                    }
                } else if same_text(role.as_str(), "assistant") {
                    let sample = match &text {
                        Some(text) => assistant_phrase_sample(text.as_str()),
                        None => None,
                    };
                    self.record_assistant_message(phase, sample);
                }
            },
            ResponseItem::FunctionCall { name } => {
                self.record_tool_call(name);
            },
            ResponseItem::CustomToolCall { name } => {
                let mut label = "custom:".to_owned();
                label.append(name.as_str());
                self.record_tool_call(label);
            },
            ResponseItem::ToolSearchCall => {
                self.record_tool_call("tool_search".to_owned());
            },
            ResponseItem::WebSearchCall => {
                self.record_tool_call("web_search".to_owned());
            },
            ResponseItem::ImageGenerationCall => {
                self.record_tool_call("image_generation".to_owned());
            },
            ResponseItem::LocalShellCall => {
                self.record_tool_call("local_shell".to_owned());
            },
            _ => {},
        }
    }

    /// Takes in an event.
    pub fn record_event(&mut self, event: EventMsg)
        requires
            old(self)@.has_room_for(old(self)@.after_event(event)),
        ensures
            final(self)@ == old(self)@.after_event(event),
    {
        match event {
            EventMsg::ExecCommandEnd(exec) => {
                self.record_exec_event(exec);
            },
            EventMsg::StreamError => {
                self.stream_errors = self.stream_errors + 1;
            },
            EventMsg::TurnAborted => {
                self.turn_aborts = self.turn_aborts + 1;
            },
            EventMsg::ExecApprovalRequest
            | EventMsg::ApplyPatchApprovalRequest
            | EventMsg::RequestPermissions => {
                self.approvals = self.approvals + 1;
            },
            EventMsg::AgentMessage { message, phase } => {
                if self.assistant_messages == 0 {
                    let sample = assistant_phrase_sample(message.as_str());
                    self.record_assistant_message(phase, sample);
                }
            },
            EventMsg::UserMessage { message } => {
                if self.user_messages == 0 {
                    if message.as_str().is_empty() {
                        self.record_user_message(None);
                    } else {
                        self.record_user_message(Some(message.as_str()));
                    }
                }
            },
            EventMsg::ContextCompacted | EventMsg::Other => {},
        }
    }

    /// Takes in the end of a command.
    pub fn record_exec_event(&mut self, exec: ExecCommandEndEvent)
        requires
            old(self)@.has_room_for(old(self)@.after_exec(exec)),
        ensures
            final(self)@ == old(self)@.after_exec(exec),
    {
        let command = summarize_exec_command(exec.command.as_slice());
        proof {
            let after = self@.after_exec(exec);
            assert(count_of(after.command_counts, command@) <= usize::MAX);
            assert(exec_failed(exec) ==> count_of(after.failed_command_counts, command@)
                <= usize::MAX);
        }
        self.exec_commands = self.exec_commands + 1;
        increment_count(&mut self.command_counts, command.clone());
        if exec.status != ExecCommandStatus::Completed || exec.exit_code != 0 {
            self.failed_exec_commands = self.failed_exec_commands + 1;
            if exec.status == ExecCommandStatus::Declined {
                self.declined_exec_commands = self.declined_exec_commands + 1;
            }
            increment_count(&mut self.failed_command_counts, command);
        }
    }

    /// The analysis of a recorded session.
    pub fn from_rollout(session: ThreadItem, items: Vec<RolloutItem>) -> (r: SessionAnalysis)
        ensures
            r@ == analysis_of(session@, items@),
            shows_plain_path(session@, r@),
    {
        let mut analysis = SessionAnalysis::open(&session);
        let mut compaction_events: usize = 0;
        let ghost start = opened(session@);
        let n = items.len();
        for item in it: items
            invariant
                it.seq() == items@,
                n == items@.len(),
                analysis@ == start.after_items(items@.take(it.index() as int)),
                analysis@.cwd == start.cwd,
                shows_plain_path(session@, start),
                analysis@.within(it.index() as nat),
                compaction_events == how_many(
                    items@.take(it.index() as int),
                    context_compaction(),
                ),
                compaction_events <= it.index(),
        {
            let ghost next = items@.take(it.index() + 1);
            proof {
                assert(next.drop_last() =~= items@.take(it.index() as int));
                lemma_item_within(analysis@, item, it.index() as nat);
                assert(analysis@.has_room_for(analysis@.after_item(item)));
            }
            match item {
                RolloutItem::ResponseItem(response) => {
                    analysis.record_response_item(response);
                },
                RolloutItem::Compacted => {
                    analysis.compactions = analysis.compactions + 1;
                },
                RolloutItem::EventMsg(event) => {
                    let compacted = match &event {
                        EventMsg::ContextCompacted => true,
                        _ => false,
                    };
                    if compacted {
                        compaction_events = compaction_events + 1;
                    }
                    analysis.record_event(event);
                },
                RolloutItem::SessionMeta | RolloutItem::TurnContext => {},
            }
        }
        assert(items@.take(items@.len() as int) =~= items@);
        if analysis.compactions == 0 {
            analysis.compactions = compaction_events;
        }
        analysis
    }

    /// How much trouble the session had.
    pub fn friction_score(&self) -> (r: usize)
        requires
            self@.friction() <= usize::MAX,
        ensures
            r == self@.friction(),
    {
        self.failed_exec_commands * 4 + self.stream_errors * 4 + self.turn_aborts * 3
            + self.declined_exec_commands * 2 + self.approvals + self.exec_commands.saturating_sub(
            CALM_EXEC_COMMANDS,
        )
    }

    /// The line that sums the session up.
    pub fn summary_line(&self) -> (r: String)
        ensures
            r@ == self@.summary(),
    {
        let mut line = "- ".to_owned();
        line.append(self.created_at.as_str());
        line.append(" | ");
        line.append(self.preview.as_str());
        append_number(&mut line, " | users ", self.user_messages);
        append_number(&mut line, ", assistant ", self.assistant_messages);
        append_number(&mut line, ", commentary ", self.commentary_messages);
        append_number(&mut line, ", tools ", self.tool_calls);
        append_number(&mut line, ", exec ", self.exec_commands);
        append_number(&mut line, ", failed exec ", self.failed_exec_commands);
        append_number(&mut line, ", approvals ", self.approvals);
        append_number(&mut line, ", compactions ", self.compactions);
        match &self.cwd {
            Some(cwd) => {
                line.append(" | cwd ");
                line.append(cwd.as_str());
            },
            None => {},
        }
        line
    }

    /// The line that says what trouble the session had.
    pub fn friction_line(&self) -> (r: String)
        requires
            self@.friction() <= usize::MAX,
        ensures
            r@ == self@.friction_text(),
    {
        let mut reasons: Vec<String> = Vec::new();
        push_signal(&mut reasons, "failed exec ", self.failed_exec_commands);
        push_signal(&mut reasons, "stream errors ", self.stream_errors);
        push_signal(&mut reasons, "turn aborts ", self.turn_aborts);
        push_signal(&mut reasons, "approvals ", self.approvals);
        if reasons.len() == 0 {
            push_signal(&mut reasons, "exec commands ", self.exec_commands);
        }
        assert(texts(reasons@) =~= self@.reasons());
        let top_tools = format_count_entries(top_counts(&self.tool_counts, 3));
        let top_failed = format_count_entries(top_counts(&self.failed_command_counts, 2));
        let mut line = String::new();
        append_number(&mut line, "- score ", self.friction_score());
        line.append(" | ");
        line.append(self.created_at.as_str());
        line.append(" | ");
        line.append(self.preview.as_str());
        line.append(" | ");
        line.append(join_texts(reasons.as_slice(), ", ").as_str());
        append_labelled(&mut line, " | top tools: ", top_tools.as_str());
        append_labelled(&mut line, " | failed commands: ", top_failed.as_str());
        line
    }
}

/// Appends a label and a number.
pub fn append_number(line: &mut String, label: &str, n: usize)
    ensures
        final(line)@ == old(line)@ + label@ + decimal(n as nat),
{
    line.append(label);
    line.append(decimal_text(n).as_str());
}

fn append_labelled(line: &mut String, label: &str, text: &str)
    ensures
        final(line)@ == old(line)@ + labelled(label@, text@),
{
    if !text.is_empty() {
        line.append(label);
        line.append(text);
    }
    assert(line@ =~= old(line)@ + labelled(label@, text@));
}

fn push_signal(reasons: &mut Vec<String>, label: &str, n: usize)
    ensures
        texts(final(reasons)@) == texts(old(reasons)@) + signal(label@, n as nat),
{
    if n > 0 {
        let mut reason = label.to_owned();
        reason.append(decimal_text(n).as_str());
        reasons.push(reason);
    }
    assert(texts(reasons@) =~= texts(old(reasons)@) + signal(label@, n as nat));
}

} // verus!
