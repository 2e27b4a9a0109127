use improve_command::command::{
    first_shell_segment, summarize_exec_command, take_command_words, unwrap_shell_script,
};

fn command(parts: &[&str]) -> Vec<String> {
    parts.iter().map(|p| p.to_string()).collect()
}

#[test]
fn scripts_are_unwrapped_from_shells() {
    assert_eq!(unwrap_shell_script(&command(&["bash", "-lc", "ls"])), Some("ls"));
    assert_eq!(unwrap_shell_script(&command(&["sh", "-c", "ls -l", "x"])), Some("ls -l"));
    assert_eq!(unwrap_shell_script(&command(&["bash", "-l", "ls"])), None);
    assert_eq!(unwrap_shell_script(&command(&["bash", "-lc"])), None);
    assert_eq!(unwrap_shell_script(&[]), None);
}

#[test]
fn the_first_segment_ends_at_a_separator() {
    assert_eq!(first_shell_segment("cd x && make"), "cd x");
    assert_eq!(first_shell_segment(" a || b"), "a");
    assert_eq!(first_shell_segment("a ; b"), "a");
    assert_eq!(first_shell_segment("a | b && c"), "a");
    assert_eq!(first_shell_segment("a\nb"), "a");
    assert_eq!(first_shell_segment("a & b"), "a & b");
    assert_eq!(first_shell_segment("a &&& b"), "a");
    assert_eq!(first_shell_segment("  plain  "), "plain");
    assert_eq!(first_shell_segment("; x"), "");
    assert_eq!(first_shell_segment(""), "");
    assert_eq!(first_shell_segment("é ö|x"), "é ö");
    assert_eq!(first_shell_segment("a&"), "a&");
}

#[test]
fn a_first_segment_is_its_own_first_segment() {
    for script in ["cd x && make", "a & b ; c", "x\n\ny", "  plain  "] {
        let segment = first_shell_segment(script);
        assert_eq!(first_shell_segment(segment), segment);
    }
}

#[test]
fn leading_words_are_taken() {
    assert_eq!(take_command_words("  cargo   test -p core ", 3), "cargo test -p");
    assert_eq!(take_command_words("cargo test", 4), "cargo test");
    assert_eq!(take_command_words("cargo test", 0), "");
    assert_eq!(take_command_words(" \n ", 4), "");
}

#[test]
fn commands_are_summarized_by_four_words() {
    assert_eq!(
        summarize_exec_command(&command(&["bash", "-lc", "cargo test -p codex-tui --lib && ls"])),
        "cargo test -p codex-tui"
    );
    assert_eq!(
        summarize_exec_command(&command(&["git", "log", "--oneline", "-n", "5"])),
        "git log --oneline -n"
    );
    assert_eq!(summarize_exec_command(&command(&["git log", "a"])), "git log a");
}

#[test]
fn a_blank_script_falls_back_to_the_whole_command() {
    assert_eq!(summarize_exec_command(&command(&["bash", "-lc", " ; ls"])), "bash -lc ; ls");
    assert_eq!(summarize_exec_command(&command(&["bash", "-c", ""])), "bash -c");
}

#[test]
fn a_blank_command_is_unknown() {
    assert_eq!(summarize_exec_command(&[]), "unknown_command");
    assert_eq!(summarize_exec_command(&command(&["", "  "])), "unknown_command");
    assert_eq!(summarize_exec_command(&command(&["", "-c", ""])), "-c");
}
