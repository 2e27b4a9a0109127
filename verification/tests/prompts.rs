use improve_command::digest::ImproveDigest;
use improve_command::prompt::{build_improve_prompt, RecordedSession};
use improve_command::recent::{
    collect_recent_sessions, PathComponent, RolloutPath, ThreadItem, DEFAULT_IMPROVE_SESSION_LIMIT,
};
use improve_command::rollout::{
    ContentItem, EventMsg, ExecCommandEndEvent, ExecCommandStatus, MessagePhase, ResponseItem,
    RolloutItem,
};
use improve_command::session::SessionAnalysis;

const ROOT: &str = "/home/user/.codex";
const PHRASE: &str = "I will inspect the command plumbing first.";

fn path(text: &str) -> RolloutPath {
    let mut components = vec![PathComponent { rank: 6, name: Vec::new() }];
    for name in text.split('/').filter(|name| !name.is_empty()) {
        components.push(PathComponent { rank: 9, name: name.as_bytes().to_vec() });
    }
    RolloutPath { components }
}

struct RolloutFixture<'a> {
    path: &'a str,
    timestamp: &'a str,
    preview: &'a str,
    assistant_commentary: &'a str,
    exec_command: &'a [&'a str],
    exec_status: ExecCommandStatus,
    exit_code: i32,
}

fn thread(fixture: &RolloutFixture<'_>) -> ThreadItem {
    ThreadItem {
        path: path(fixture.path),
        created_at: Some(fixture.timestamp.to_string()),
        first_user_message: Some(fixture.preview.to_string()),
        cwd: Some(ROOT.as_bytes().to_vec()),
    }
}

fn items(fixture: &RolloutFixture<'_>) -> Vec<RolloutItem> {
    vec![
        RolloutItem::SessionMeta,
        RolloutItem::ResponseItem(ResponseItem::Message {
            role: "user".to_string(),
            content: vec![ContentItem::InputText { text: fixture.preview.to_string() }],
            phase: None,
        }),
        RolloutItem::EventMsg(EventMsg::UserMessage { message: fixture.preview.to_string() }),
        RolloutItem::ResponseItem(ResponseItem::Message {
            role: "assistant".to_string(),
            content: vec![ContentItem::OutputText {
                text: fixture.assistant_commentary.to_string(),
            }],
            phase: Some(MessagePhase::Commentary),
        }),
        RolloutItem::EventMsg(EventMsg::AgentMessage {
            message: fixture.assistant_commentary.to_string(),
            phase: Some(MessagePhase::Commentary),
        }),
        RolloutItem::ResponseItem(ResponseItem::FunctionCall { name: "exec_command".to_string() }),
        RolloutItem::EventMsg(EventMsg::ExecCommandEnd(ExecCommandEndEvent {
            command: fixture.exec_command.iter().map(|part| part.to_string()).collect(),
            exit_code: fixture.exit_code,
            status: fixture.exec_status,
        })),
    ]
}

fn current_fixture() -> RolloutFixture<'static> {
    RolloutFixture {
        path: "/home/user/.codex/sessions/2026/03/12/rollout-2026-03-12T12-00-00-c.jsonl",
        timestamp: "2026-03-12T12:00:00Z",
        preview: "Current session should be excluded",
        assistant_commentary: PHRASE,
        exec_command: &["bash", "-lc", "rg improve_command"],
        exec_status: ExecCommandStatus::Completed,
        exit_code: 0,
    }
}

fn archived_fixture() -> RolloutFixture<'static> {
    RolloutFixture {
        path: "/home/user/.codex/archived_sessions/rollout-2026-03-10T08-00-00-a.jsonl",
        timestamp: "2026-03-10T08:00:00Z",
        preview: "Investigate repeated CI flakes",
        assistant_commentary: PHRASE,
        exec_command: &["bash", "-lc", "cargo test -p codex-tui"],
        exec_status: ExecCommandStatus::Failed,
        exit_code: 101,
    }
}

fn recent_fixture() -> RolloutFixture<'static> {
    RolloutFixture {
        path: "/home/user/.codex/sessions/2026/03/11/rollout-2026-03-11T09-00-00-r.jsonl",
        timestamp: "2026-03-11T09:00:00Z",
        preview: "Implement a new slash command",
        assistant_commentary: PHRASE,
        exec_command: &["bash", "-lc", "cargo test -p codex-core"],
        exec_status: ExecCommandStatus::Failed,
        exit_code: 1,
    }
}

/// Lists the three sessions, chooses the recent ones and reads their recordings.
fn recorded_without_current() -> Vec<RecordedSession> {
    let fixtures = [current_fixture(), archived_fixture(), recent_fixture()];
    let current = path(fixtures[0].path);
    let chosen = collect_recent_sessions(
        vec![thread(&fixtures[0]), thread(&fixtures[2])],
        vec![thread(&fixtures[1])],
        Some(&current),
        DEFAULT_IMPROVE_SESSION_LIMIT,
    );
    let mut recorded = Vec::new();
    for item in chosen {
        let found = fixtures.iter().find(|fixture| path(fixture.path) == item.path);
        recorded.push(RecordedSession { thread: item, items: found.map(|fixture| items(fixture)) });
    }
    recorded
}

#[test]
fn build_improve_prompt_includes_archived_sessions_and_excludes_current_rollout() {
    let prompt = build_improve_prompt(recorded_without_current(), DEFAULT_IMPROVE_SESSION_LIMIT)
        .expect("prompt");

    assert!(prompt.contains("Investigate repeated CI flakes"));
    assert!(prompt.contains("Implement a new slash command"));
    assert!(!prompt.contains("Current session should be excluded"));
    assert!(prompt.contains("Repeated assistant phrases"));
    assert!(prompt.contains("I will inspect the command plumbing first."));
    assert!(prompt.contains("Most failed shell commands"));
    assert!(prompt.contains("cargo test -p codex-tui"));
    assert!(prompt.contains("Friction to address"));
    assert!(prompt.contains("Suggestions to try"));
    assert!(prompt.contains("Repetition to remove"));
    assert!(prompt.contains("Ship next"));
    assert!(prompt.contains("Make the suggestions succinct and actionable."));
    assert!(!prompt.contains("Project areas"));
    assert!(!prompt.contains("Interaction style"));
    assert!(!prompt.contains(archived_fixture().path));
}

#[test]
fn the_whole_prompt_reads_as_expected() {
    let prompt = build_improve_prompt(recorded_without_current(), DEFAULT_IMPROVE_SESSION_LIMIT)
        .expect("prompt");
    let expected = [
        "Analyze this digest of my last 2 interactive Codex sessions and tell me how Codex should improve.",
        "",
        "Focus on:",
        "- Concrete friction patterns and the smallest prompt or default-behavior change that would address each one.",
        "- Explicit suggestions to try next, including prompt wording, default behaviors, and automation when the evidence is strong. Make the suggestions succinct and actionable.",
        "- Repeated explanations or commentary that should be cut, shortened, or standardized.",
        "- Evidence-driven recommendations only. If support is weak, say so.",
        "- Only suggest a new skill, slash command, hook, or helper script when the same workflow or friction shows up in at least two sessions.",
        "- Keep the response concise: use at most 3 bullets per section.",
        "- In every section, make each bullet start with the change.",
        "- Do not restate the digest; cite only the minimum evidence needed to justify each recommendation.",
        "",
        "Respond with these sections:",
        "1. Friction to address",
        "2. Suggestions to try",
        "3. Repetition to remove",
        "4. Ship next",
        "",
        "## Aggregate stats",
        "- Sessions analyzed: 2",
        "- Messages: user 2, assistant 2, commentary 2, final answers 0",
        "- Workload: tool calls 2, exec commands 2, failed exec commands 2",
        "- Friction signals: stream errors 0, turn aborts 0, approvals 0, compactions 0",
        "- Sample size note: only 2 earlier sessions were available.",
        "",
        "## Most used tools",
        "- exec_command: 2",
        "",
        "## Most used shell commands",
        "- cargo test -p codex-core: 1",
        "- cargo test -p codex-tui: 1",
        "",
        "## Most failed shell commands",
        "- cargo test -p codex-core: 1",
        "- cargo test -p codex-tui: 1",
        "",
        "## Common working directories",
        "- /home/user/.codex: 2",
        "",
        "## Repeated assistant phrases",
        "- I will inspect the command plumbing first. (seen 2 times)",
        "",
        "## Highest-friction sessions",
        "- score 4 | 2026-03-10T08:00:00Z | Investigate repeated CI flakes | failed exec 1 | top tools: exec_command x1 | failed commands: cargo test -p codex-tui x1",
        "- score 4 | 2026-03-11T09:00:00Z | Implement a new slash command | failed exec 1 | top tools: exec_command x1 | failed commands: cargo test -p codex-core x1",
        "",
        "## Session summaries",
        "- 2026-03-11T09:00:00Z | Implement a new slash command | users 1, assistant 1, commentary 1, tools 1, exec 1, failed exec 1, approvals 0, compactions 0 | cwd /home/user/.codex",
        "- 2026-03-10T08:00:00Z | Investigate repeated CI flakes | users 1, assistant 1, commentary 1, tools 1, exec 1, failed exec 1, approvals 0, compactions 0 | cwd /home/user/.codex",
    ];
    assert_eq!(prompt, expected.join("\n"));
}

fn plain(created_at: &str) -> ThreadItem {
    ThreadItem {
        path: path(created_at),
        created_at: Some(created_at.to_string()),
        first_user_message: Some("Work".to_string()),
        cwd: None,
    }
}

fn assistant(text: &str) -> RolloutItem {
    RolloutItem::ResponseItem(ResponseItem::Message {
        role: "assistant".to_string(),
        content: vec![ContentItem::OutputText { text: text.to_string() }],
        phase: None,
    })
}

fn call(name: &str) -> RolloutItem {
    RolloutItem::ResponseItem(ResponseItem::FunctionCall { name: name.to_string() })
}

fn pairs(entries: &[(&str, usize)]) -> Vec<(String, usize)> {
    entries.iter().map(|(name, count)| (name.to_string(), *count)).collect()
}

#[test]
fn without_sessions_there_is_no_prompt() {
    assert_eq!(
        build_improve_prompt(vec![], 50),
        Err("No previous interactive sessions were found to analyze.".to_string())
    );
}

#[test]
fn without_a_readable_session_there_is_no_prompt() {
    let unreadable = vec![
        RecordedSession { thread: plain("1"), items: None },
        RecordedSession { thread: plain("2"), items: None },
    ];
    assert_eq!(
        build_improve_prompt(unreadable, 50),
        Err("Unable to read any previous interactive sessions.".to_string())
    );
}

#[test]
fn unreadable_sessions_are_left_out() {
    let recorded = vec![
        RecordedSession { thread: plain("1"), items: None },
        RecordedSession { thread: plain("2"), items: Some(vec![]) },
    ];
    let prompt = build_improve_prompt(recorded, 1).expect("prompt");
    assert!(prompt.contains("my last 1 interactive"));
    assert!(prompt.contains("\n- 2 | Work | users 0,"));
    assert!(!prompt.contains("\n- 1 | Work"));
    assert!(!prompt.contains("Sample size note"));
    let alone = vec![RecordedSession { thread: plain("2"), items: Some(vec![]) }];
    assert_eq!(build_improve_prompt(alone, 1).expect("prompt"), prompt);
}

#[test]
fn empty_sections_say_so() {
    let recorded = vec![RecordedSession { thread: plain("1"), items: Some(vec![]) }];
    let prompt = build_improve_prompt(recorded, 2).expect("prompt");
    let tail = [
        "- Friction signals: stream errors 0, turn aborts 0, approvals 0, compactions 0",
        "- Sample size note: only 1 earlier sessions were available.",
        "",
        "## Most used tools",
        "- None recorded in the sampled sessions.",
        "",
        "## Most used shell commands",
        "- None recorded in the sampled sessions.",
        "",
        "## Most failed shell commands",
        "- None recorded in the sampled sessions.",
        "",
        "## Common working directories",
        "- None recorded in the sampled sessions.",
        "",
        "## Repeated assistant phrases",
        "- No strongly repeated assistant phrasing was detected in the local digest.",
        "",
        "## Highest-friction sessions",
        "- No strong friction signal stood out in the sampled sessions.",
        "",
        "## Session summaries",
        "- 1 | Work | users 0, assistant 0, commentary 0, tools 0, exec 0, failed exec 0, approvals 0, compactions 0",
    ];
    assert!(prompt.ends_with(&tail.join("\n")));
}

#[test]
fn the_prompt_does_not_depend_on_where_sessions_are_recorded() {
    let mut recorded = recorded_without_current();
    let expected = build_improve_prompt(recorded_without_current(), 50);
    for session in recorded.iter_mut() {
        session.thread.path = path("/elsewhere");
    }
    assert_eq!(build_improve_prompt(recorded, 50), expected);
}

#[test]
fn phrases_are_counted_over_all_sessions() {
    let digest = ImproveDigest::from_sessions(vec![
        SessionAnalysis::from_rollout(
            plain("1"),
            vec![
                assistant("I will inspect the command plumbing first."),
                assistant("Now I am going to run the tests again"),
            ],
        ),
        SessionAnalysis::from_rollout(
            plain("2"),
            vec![
                assistant("I'll inspect the command plumbing first!"),
                assistant("Something else altogether happened here"),
                assistant("now I'm going to run the tests, again"),
                assistant("Now I'm going to run the tests again!"),
            ],
        ),
    ]);
    assert_eq!(
        digest.repeated_phrases,
        pairs(&[
            ("Now I am going to run the tests again", 3),
            ("I will inspect the command plumbing first.", 2),
        ])
    );
}

#[test]
fn at_most_eight_repeated_phrases_are_shown() {
    let mut items = Vec::new();
    for i in 0..10 {
        let text = format!("This is the repeated phrase number {}", 9 - i);
        items.push(assistant(&text));
        items.push(assistant(&text));
    }
    let digest =
        ImproveDigest::from_sessions(vec![SessionAnalysis::from_rollout(plain("1"), items)]);
    let expected: Vec<(String, usize)> =
        (0..8).map(|i| (format!("This is the repeated phrase number {}", i), 2)).collect();
    assert_eq!(digest.repeated_phrases, expected);
}

#[test]
fn totals_add_up_over_sessions() {
    let mut first = plain("1");
    first.cwd = Some(b"/a".to_vec());
    let mut second = plain("2");
    second.cwd = Some(b"/a".to_vec());
    let mut third = plain("3");
    third.cwd = Some(b"/b".to_vec());
    let digest = ImproveDigest::from_sessions(vec![
        SessionAnalysis::from_rollout(
            first,
            vec![
                call("x"),
                call("y"),
                RolloutItem::Compacted,
                RolloutItem::EventMsg(EventMsg::StreamError),
            ],
        ),
        SessionAnalysis::from_rollout(
            second,
            vec![
                call("y"),
                RolloutItem::EventMsg(EventMsg::TurnAborted),
                RolloutItem::EventMsg(EventMsg::ContextCompacted),
                RolloutItem::EventMsg(EventMsg::RequestPermissions),
            ],
        ),
        SessionAnalysis::from_rollout(third, vec![assistant("ok"), assistant("done")]),
    ]);
    assert_eq!(digest.sessions.len(), 3);
    assert_eq!(digest.total_tool_calls, 3);
    assert_eq!(digest.total_compactions, 2);
    assert_eq!(digest.total_stream_errors, 1);
    assert_eq!(digest.total_turn_aborts, 1);
    assert_eq!(digest.total_approvals, 1);
    assert_eq!(digest.total_assistant_messages, 2);
    assert_eq!(digest.total_final_answers, 2);
    assert_eq!(digest.total_commentary_messages, 0);
    assert_eq!(digest.total_user_messages, 0);
    assert_eq!(digest.total_exec_commands, 0);
    assert_eq!(digest.total_failed_exec_commands, 0);
    assert_eq!(digest.top_tools, pairs(&[("y", 2), ("x", 1)]));
    assert_eq!(digest.top_cwds, pairs(&[("/a", 2), ("/b", 1)]));
    assert_eq!(digest.top_commands, pairs(&[]));
    assert_eq!(digest.top_failed_commands, pairs(&[]));
    assert_eq!(digest.repeated_phrases, pairs(&[]));
}

#[test]
fn the_roughest_eight_sessions_are_listed() {
    let mut sessions = Vec::new();
    for i in 0..12usize {
        let mut items = Vec::new();
        for _ in 0..(i / 2) {
            items.push(RolloutItem::EventMsg(EventMsg::RequestPermissions));
        }
        sessions.push(SessionAnalysis::from_rollout(plain(&format!("t{:02}", 99 - i)), items));
    }
    let prompt = ImproveDigest::from_sessions(sessions).render_prompt(12);
    let listed: Vec<&str> = prompt.lines().filter(|line| line.starts_with("- score")).collect();
    assert_eq!(
        listed,
        vec![
            "- score 5 | t88 | Work | approvals 5",
            "- score 5 | t89 | Work | approvals 5",
            "- score 4 | t90 | Work | approvals 4",
            "- score 4 | t91 | Work | approvals 4",
            "- score 3 | t92 | Work | approvals 3",
            "- score 3 | t93 | Work | approvals 3",
            "- score 2 | t94 | Work | approvals 2",
            "- score 2 | t95 | Work | approvals 2",
        ]
    );
}

#[test]
fn equal_friction_goes_by_failed_commands() {
    let failed = || {
        RolloutItem::EventMsg(EventMsg::ExecCommandEnd(ExecCommandEndEvent {
            command: vec!["make".to_string()],
            exit_code: 1,
            status: ExecCommandStatus::Failed,
        }))
    };
    let error = || RolloutItem::EventMsg(EventMsg::StreamError);
    let digest = ImproveDigest::from_sessions(vec![
        SessionAnalysis::from_rollout(plain("1"), vec![error()]),
        SessionAnalysis::from_rollout(plain("2"), vec![failed()]),
        SessionAnalysis::from_rollout(plain("3"), vec![]),
    ]);
    let prompt = digest.render_prompt(3);
    let listed: Vec<&str> = prompt.lines().filter(|line| line.starts_with("- score")).collect();
    assert_eq!(
        listed,
        vec![
            "- score 4 | 2 | Work | failed exec 1 | failed commands: make x1",
            "- score 4 | 1 | Work | stream errors 1",
        ]
    );
}

#[test]
fn every_session_has_its_summary_in_order() {
    let sessions: Vec<SessionAnalysis> =
        ["3", "1", "2"].iter().map(|at| SessionAnalysis::from_rollout(plain(at), vec![])).collect();
    let expected: Vec<String> = sessions.iter().map(|session| session.summary_line()).collect();
    let prompt = ImproveDigest::from_sessions(sessions).render_prompt(3);
    let lines: Vec<&str> = prompt.lines().collect();
    let start = lines.iter().position(|line| *line == "## Session summaries").expect("section");
    assert_eq!(lines[start + 1..].to_vec(), expected);
}

#[test]
fn the_order_of_the_sessions_changes_no_sum() {
    let recordings = [
        (
            "1",
            vec![
                assistant("I will inspect the command plumbing first."),
                assistant("We are going to run the tests again"),
                call("x"),
                RolloutItem::EventMsg(EventMsg::StreamError),
            ],
        ),
        (
            "2",
            vec![
                assistant("I'll inspect the command plumbing first!"),
                call("y"),
                call("y"),
                RolloutItem::EventMsg(EventMsg::ContextCompacted),
            ],
        ),
        (
            "3",
            vec![
                assistant("we're going to run the tests, again"),
                assistant("We are going to run the tests again!"),
                call("x"),
                RolloutItem::EventMsg(EventMsg::RequestPermissions),
            ],
        ),
    ];
    let digest = |order: [usize; 3]| {
        let mut sessions = Vec::new();
        for i in order {
            let mut listed = plain(recordings[i].0);
            listed.cwd = Some(vec![b'/', b'a' + (i as u8) / 2]);
            sessions.push(SessionAnalysis::from_rollout(listed, recordings[i].1.clone()));
        }
        ImproveDigest::from_sessions(sessions)
    };
    let counts = |entries: &Vec<(String, usize)>| -> Vec<usize> {
        entries.iter().map(|(_, count)| *count).collect()
    };
    let first = digest([0, 1, 2]);
    assert_eq!(counts(&first.repeated_phrases), vec![3, 2]);
    for order in [[0, 2, 1], [1, 0, 2], [1, 2, 0], [2, 0, 1], [2, 1, 0]] {
        let other = digest(order);
        assert_eq!(other.total_assistant_messages, first.total_assistant_messages);
        assert_eq!(other.total_tool_calls, first.total_tool_calls);
        assert_eq!(other.total_stream_errors, first.total_stream_errors);
        assert_eq!(other.total_approvals, first.total_approvals);
        assert_eq!(other.total_compactions, first.total_compactions);
        assert_eq!(other.top_tools, first.top_tools);
        assert_eq!(other.top_commands, first.top_commands);
        assert_eq!(other.top_failed_commands, first.top_failed_commands);
        assert_eq!(other.top_cwds, first.top_cwds);
        assert_eq!(counts(&other.repeated_phrases), counts(&first.repeated_phrases));
    }
}

#[test]
fn the_number_of_lines_is_known() {
    for (sessions, rough) in [(1usize, 0usize), (3, 1), (12, 7), (12, 8), (12, 12)] {
        for limit in [sessions, sessions + 1] {
            let mut analyses = Vec::new();
            for i in 0..sessions {
                let mut items = vec![call("x"), call(&format!("tool{}", i))];
                if i < rough {
                    items.push(RolloutItem::EventMsg(EventMsg::TurnAborted));
                }
                analyses.push(SessionAnalysis::from_rollout(plain(&format!("t{:02}", i)), items));
            }
            let prompt = ImproveDigest::from_sessions(analyses).render_prompt(limit);
            // One line each for commands, failed commands, directories and phrases, of which there
            // are none.
            let lists = (sessions + 1).min(8) + 4 + rough.min(8).max(1);
            let note = limit - sessions;
            assert_eq!(prompt.split('\n').count(), 37 + note + lists + sessions);
        }
    }
}

#[test]
fn a_line_break_in_a_time_breaks_its_line() {
    let whole = SessionAnalysis::from_rollout(plain("1"), vec![]);
    let mut broken = plain("1");
    broken.created_at = Some("1\n2".to_string());
    let broken = SessionAnalysis::from_rollout(broken, vec![]);
    let lines = |analysis: SessionAnalysis| {
        ImproveDigest::from_sessions(vec![analysis]).render_prompt(1).split('\n').count()
    };
    assert_eq!(lines(broken), lines(whole) + 1);
}
