use improve_command::recent::{RolloutPath, ThreadItem};
use improve_command::rollout::{
    extract_message_text, ContentItem, EventMsg, ExecCommandEndEvent, ExecCommandStatus,
    MessagePhase, ResponseItem, RolloutItem,
};
use improve_command::session::{append_number, SessionAnalysis};

fn thread(message: Option<&str>) -> ThreadItem {
    ThreadItem {
        path: RolloutPath { components: Vec::new() },
        created_at: Some("2026-03-11T09:00:00Z".to_string()),
        first_user_message: message.map(|text| text.to_string()),
        cwd: Some(b"/work/project".to_vec()),
    }
}

fn bare() -> ThreadItem {
    ThreadItem {
        path: RolloutPath { components: Vec::new() },
        created_at: None,
        first_user_message: None,
        cwd: None,
    }
}

fn message(role: &str, text: &str, phase: Option<MessagePhase>) -> RolloutItem {
    RolloutItem::ResponseItem(ResponseItem::Message {
        role: role.to_string(),
        content: vec![ContentItem::OutputText { text: text.to_string() }],
        phase,
    })
}

fn tool(response: ResponseItem) -> RolloutItem {
    RolloutItem::ResponseItem(response)
}

fn event(event: EventMsg) -> RolloutItem {
    RolloutItem::EventMsg(event)
}

fn exec(script: &str, status: ExecCommandStatus, exit_code: i32) -> RolloutItem {
    event(EventMsg::ExecCommandEnd(ExecCommandEndEvent {
        command: vec!["bash".to_string(), "-lc".to_string(), script.to_string()],
        exit_code,
        status,
    }))
}

fn agent(text: &str, phase: Option<MessagePhase>) -> RolloutItem {
    event(EventMsg::AgentMessage { message: text.to_string(), phase })
}

fn user(text: &str) -> RolloutItem {
    event(EventMsg::UserMessage { message: text.to_string() })
}

#[test]
fn an_empty_recording_shows_what_the_listing_says() {
    let analysis = SessionAnalysis::from_rollout(thread(Some(" Fix\n the  bug ")), vec![]);
    assert_eq!(
        analysis.summary_line(),
        "- 2026-03-11T09:00:00Z | Fix the bug | users 0, assistant 0, commentary 0, tools 0, exec 0, failed exec 0, approvals 0, compactions 0 | cwd /work/project"
    );
    assert_eq!(analysis.friction_score(), 0);
}

#[test]
fn what_is_unknown_is_said_to_be_unknown() {
    let analysis = SessionAnalysis::from_rollout(bare(), vec![]);
    assert_eq!(
        analysis.summary_line(),
        "- unknown time | (no user preview recorded) | users 0, assistant 0, commentary 0, tools 0, exec 0, failed exec 0, approvals 0, compactions 0"
    );
    assert_eq!(analysis.friction_line(), "- score 0 | unknown time | (no user preview recorded) | ");
}

#[test]
fn a_long_preview_is_shortened() {
    let analysis = SessionAnalysis::from_rollout(thread(Some(&"x".repeat(200))), vec![]);
    assert_eq!(analysis.preview, format!("{}...", "x".repeat(110)));
}

#[test]
fn the_first_user_message_becomes_the_preview() {
    let analysis = SessionAnalysis::from_rollout(
        bare(),
        vec![
            message("user", "  \n ", None),
            message("user", "Find  the leak", None),
            message("user", "And the other one", None),
        ],
    );
    assert_eq!(analysis.preview, "Find the leak");
    assert_eq!(analysis.user_messages, 3);
}

#[test]
fn a_listed_preview_stays() {
    let analysis = SessionAnalysis::from_rollout(
        thread(Some("Listed")),
        vec![message("user", "Recorded", None), user("Announced")],
    );
    assert_eq!(analysis.preview, "Listed");
    assert_eq!(analysis.user_messages, 1);
}

#[test]
fn announced_messages_count_only_where_none_is_known() {
    let first = "I will look at the build scripts first.";
    let second = "I will look at the test results first.";
    let announced = SessionAnalysis::from_rollout(
        bare(),
        vec![
            user(""),
            user("Later"),
            agent(first, Some(MessagePhase::Commentary)),
            agent(second, None),
        ],
    );
    assert_eq!(announced.user_messages, 1);
    assert_eq!(announced.preview, "(no user preview recorded)");
    assert_eq!(announced.assistant_messages, 1);
    assert_eq!(announced.commentary_messages, 1);
    assert_eq!(announced.final_answers, 0);
    assert_eq!(announced.assistant_phrase_samples, vec![first.to_string()]);

    let recorded = SessionAnalysis::from_rollout(
        bare(),
        vec![
            message("assistant", first, Some(MessagePhase::FinalAnswer)),
            agent(first, Some(MessagePhase::FinalAnswer)),
            message("assistant", second, None),
            message("assistant", "ok", Some(MessagePhase::Commentary)),
            message("developer", second, None),
        ],
    );
    assert_eq!(recorded.assistant_messages, 3);
    assert_eq!(recorded.final_answers, 2);
    assert_eq!(recorded.commentary_messages, 1);
    assert_eq!(
        recorded.assistant_phrase_samples,
        vec![first.to_string(), second.to_string()]
    );
}

#[test]
fn an_announced_user_message_becomes_the_preview() {
    let analysis = SessionAnalysis::from_rollout(bare(), vec![user(" Ship  it ")]);
    assert_eq!(analysis.preview, "Ship it");
}

#[test]
fn tool_calls_are_counted_by_name() {
    let analysis = SessionAnalysis::from_rollout(
        bare(),
        vec![
            tool(ResponseItem::FunctionCall { name: "exec_command".to_string() }),
            tool(ResponseItem::FunctionCall { name: "exec_command".to_string() }),
            tool(ResponseItem::CustomToolCall { name: "apply_patch".to_string() }),
            tool(ResponseItem::ToolSearchCall),
            tool(ResponseItem::WebSearchCall),
            tool(ResponseItem::ImageGenerationCall),
            tool(ResponseItem::LocalShellCall),
            tool(ResponseItem::Reasoning),
            tool(ResponseItem::FunctionCallOutput),
            tool(ResponseItem::CustomToolCallOutput),
            tool(ResponseItem::ToolSearchOutput),
            tool(ResponseItem::GhostSnapshot),
            tool(ResponseItem::Compaction),
            tool(ResponseItem::Other),
            RolloutItem::SessionMeta,
            RolloutItem::TurnContext,
        ],
    );
    assert_eq!(analysis.tool_calls, 7);
    assert_eq!(analysis.tool_counts.len(), 6);
    assert_eq!(analysis.tool_counts.get("exec_command"), 2);
    assert_eq!(analysis.tool_counts.get("custom:apply_patch"), 1);
    assert_eq!(analysis.tool_counts.get("apply_patch"), 0);
    assert_eq!(analysis.tool_counts.get("tool_search"), 1);
    assert_eq!(analysis.tool_counts.get("web_search"), 1);
    assert_eq!(analysis.tool_counts.get("image_generation"), 1);
    assert_eq!(analysis.tool_counts.get("local_shell"), 1);
}

#[test]
fn commands_fail_by_status_or_exit_code() {
    let analysis = SessionAnalysis::from_rollout(
        bare(),
        vec![
            exec("cargo test", ExecCommandStatus::Completed, 0),
            exec("cargo test && ls", ExecCommandStatus::Completed, 1),
            exec("cargo test", ExecCommandStatus::Failed, 0),
            exec("rm -rf target", ExecCommandStatus::Declined, -1),
        ],
    );
    assert_eq!(analysis.exec_commands, 4);
    assert_eq!(analysis.failed_exec_commands, 3);
    assert_eq!(analysis.declined_exec_commands, 1);
    assert_eq!(analysis.command_counts.get("cargo test"), 3);
    assert_eq!(analysis.failed_command_counts.get("cargo test"), 2);
    assert_eq!(analysis.failed_command_counts.get("rm -rf target"), 1);
}

#[test]
fn compactions_are_counted_once() {
    let both = SessionAnalysis::from_rollout(
        bare(),
        vec![
            event(EventMsg::ContextCompacted),
            RolloutItem::Compacted,
            event(EventMsg::ContextCompacted),
        ],
    );
    assert_eq!(both.compactions, 1);
    let announced = SessionAnalysis::from_rollout(
        bare(),
        vec![event(EventMsg::ContextCompacted), event(EventMsg::ContextCompacted)],
    );
    assert_eq!(announced.compactions, 2);
}

#[test]
fn friction_is_a_weighted_sum() {
    let mut items = vec![
        event(EventMsg::StreamError),
        event(EventMsg::TurnAborted),
        event(EventMsg::ExecApprovalRequest),
        event(EventMsg::ApplyPatchApprovalRequest),
        event(EventMsg::RequestPermissions),
        event(EventMsg::Other),
        exec("make", ExecCommandStatus::Declined, 0),
        exec("make", ExecCommandStatus::Failed, 2),
    ];
    for _ in 0..8 {
        items.push(exec("ls -l", ExecCommandStatus::Completed, 0));
    }
    let analysis = SessionAnalysis::from_rollout(thread(Some("Build")), items);
    // Two failed (8), one stream error (4), one abort (3), one declined (2), three approvals (3),
    // and two commands over eight (2).
    assert_eq!(analysis.friction_score(), 22);
    assert_eq!(
        analysis.friction_line(),
        "- score 22 | 2026-03-11T09:00:00Z | Build | failed exec 2, stream errors 1, turn aborts 1, approvals 3 | failed commands: make x2"
    );
}

#[test]
fn many_commands_alone_are_friction() {
    let items: Vec<RolloutItem> =
        (0..10).map(|_| exec("ls", ExecCommandStatus::Completed, 0)).collect();
    let analysis = SessionAnalysis::from_rollout(bare(), items);
    assert_eq!(analysis.friction_score(), 2);
    assert_eq!(
        analysis.friction_line(),
        "- score 2 | unknown time | (no user preview recorded) | exec commands 10"
    );
    let calm: Vec<RolloutItem> =
        (0..8).map(|_| exec("ls", ExecCommandStatus::Completed, 0)).collect();
    assert_eq!(SessionAnalysis::from_rollout(bare(), calm).friction_score(), 0);
}

#[test]
fn a_friction_line_names_the_top_tools_and_failures() {
    let mut items = Vec::new();
    for name in ["d", "c", "b", "a", "b"] {
        items.push(tool(ResponseItem::FunctionCall { name: name.to_string() }));
    }
    for script in ["z", "y", "x"] {
        items.push(exec(script, ExecCommandStatus::Failed, 1));
    }
    let analysis = SessionAnalysis::from_rollout(thread(Some("Build")), items);
    assert_eq!(
        analysis.friction_line(),
        "- score 12 | 2026-03-11T09:00:00Z | Build | failed exec 3 | top tools: b x2, a x1, c x1 | failed commands: x x1, y x1"
    );
}

#[test]
fn entries_are_recorded_one_by_one() {
    let mut analysis = SessionAnalysis::from_rollout(bare(), vec![]);
    analysis.record_response_item(ResponseItem::WebSearchCall);
    analysis.record_event(EventMsg::TurnAborted);
    analysis.record_exec_event(ExecCommandEndEvent {
        command: vec!["make".to_string()],
        exit_code: 2,
        status: ExecCommandStatus::Completed,
    });
    let at_once = SessionAnalysis::from_rollout(
        bare(),
        vec![
            tool(ResponseItem::WebSearchCall),
            event(EventMsg::TurnAborted),
            event(EventMsg::ExecCommandEnd(ExecCommandEndEvent {
                command: vec!["make".to_string()],
                exit_code: 2,
                status: ExecCommandStatus::Completed,
            })),
        ],
    );
    assert_eq!(analysis.friction_line(), at_once.friction_line());
    assert_eq!(analysis.summary_line(), at_once.summary_line());
    assert_eq!(analysis.friction_score(), 7);
}

#[test]
fn counts_agree_with_each_other() {
    let analysis = SessionAnalysis::from_rollout(
        bare(),
        vec![
            message("assistant", "one", Some(MessagePhase::Commentary)),
            message("assistant", "two", None),
            exec("a", ExecCommandStatus::Declined, 0),
            exec("b", ExecCommandStatus::Completed, 0),
            tool(ResponseItem::LocalShellCall),
        ],
    );
    assert_eq!(
        analysis.assistant_messages,
        analysis.commentary_messages + analysis.final_answers
    );
    assert!(analysis.declined_exec_commands <= analysis.failed_exec_commands);
    assert!(analysis.failed_exec_commands <= analysis.exec_commands);
    assert!(analysis.friction_score() <= 7 * 5);
}

#[test]
fn the_text_of_a_message_is_that_of_its_pieces() {
    let content = vec![
        ContentItem::InputText { text: " Look\nat ".to_string() },
        ContentItem::InputImage,
        ContentItem::OutputText { text: "this\t".to_string() },
        ContentItem::InputText { text: "one".to_string() },
    ];
    assert_eq!(extract_message_text(&content), Some("Look at this one".to_string()));
    assert_eq!(extract_message_text(&[]), None);
    assert_eq!(extract_message_text(&[ContentItem::InputImage]), None);
    assert_eq!(extract_message_text(&[ContentItem::InputText { text: " \n".to_string() }]), None);
    let joined = vec![
        ContentItem::InputText { text: "com".to_string() },
        ContentItem::InputText { text: "mand".to_string() },
    ];
    assert_eq!(extract_message_text(&joined), Some("command".to_string()));
}

#[test]
fn numbers_are_appended_behind_their_labels() {
    let mut line = "a".to_string();
    append_number(&mut line, ", b ", 0);
    append_number(&mut line, ", c ", 120);
    assert_eq!(line, "a, b 0, c 120");
}
