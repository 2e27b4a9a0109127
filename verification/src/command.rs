//! Shell commands and the short names under which they are counted.
use crate::text::{
    char_list, join, join_first, join_texts, same_text, split_words, texts, trim_bounds, trimmed,
    words,
};
use vstd::prelude::*;

verus! {

/// The number of words by which a command is known.
pub const COMMAND_WORD_LIMIT: usize = 4;

// ---------------------------------------------------------------------------------------------
// Model
// ---------------------------------------------------------------------------------------------
/// The script of a command such as `bash -lc SCRIPT`.
pub open spec fn script_of(command: Seq<Seq<char>>) -> Option<Seq<char>> {
    if command.len() >= 3 && (command[1] == "-lc"@ || command[1] == "-c"@) {
        Some(command[2])
    } else {
        None
    }
}

/// Whether a separator of shell commands (`&&`, `||`, `;`, `|` or a line break) starts at `i`. Where
/// `||` starts, so does `|`.
pub open spec fn separator_at(s: Seq<char>, i: int) -> bool {
    &&& 0 <= i < s.len()
    &&& {
        ||| s[i] == ';'
        ||| s[i] == '|'
        ||| s[i] == '\n'
        ||| s[i] == '&' && i + 1 < s.len() && s[i + 1] == '&'
    }
}

/// Whether the first separator of `s` starts at `end`, or `end` is the length of `s` and there is
/// no separator.
pub open spec fn ends_first_segment(s: Seq<char>, end: int) -> bool {
    &&& 0 <= end <= s.len()
    &&& forall|i: int| 0 <= i < end ==> !#[trigger] separator_at(s, i)
    &&& end == s.len() || separator_at(s, end)
}

/// What stands before the first separator, trimmed.
pub open spec fn first_segment(s: Seq<char>) -> Seq<char> {
    trimmed(s.take(choose|end: int| ends_first_segment(s, end)))
}

/// The first `limit` words, with single spaces between them.
pub open spec fn leading_words(s: Seq<char>, limit: nat) -> Seq<char> {
    let ws = words(s);
    join(
        ws.take(
            if limit <= ws.len() {
                limit as int
            } else {
                ws.len() as int
            },
        ),
        " "@,
    )
}

/// The name under which a command is counted: the leading words of its script's first segment, or
/// else of the command itself.
pub open spec fn summary_of(command: Seq<Seq<char>>) -> Seq<char> {
    let whole = leading_words(join(command, " "@), COMMAND_WORD_LIMIT as nat);
    let fallback = if whole.len() == 0 {
        "unknown_command"@
    } else {
        whole
    };
    match script_of(command) {
        Some(script) => {
            let inner = leading_words(first_segment(script), COMMAND_WORD_LIMIT as nat);
            if inner.len() > 0 {
                inner
            } else {
                fallback
            }
        },
        None => fallback,
    }
}

/// Where the first segment ends is decided by the script.
pub proof fn lemma_first_segment_end(s: Seq<char>, end: int)
    requires
        ends_first_segment(s, end),
    ensures
        first_segment(s) == trimmed(s.take(end)),
{
    let other = choose|e: int| ends_first_segment(s, e);
    assert(ends_first_segment(s, other));
    if other < end {
        assert(!separator_at(s, other));
    } else if end < other {
        assert(!separator_at(s, end));
    }
}

// ---------------------------------------------------------------------------------------------
// Operations
// ---------------------------------------------------------------------------------------------
/// The script of a command such as `bash -lc SCRIPT`.
pub fn unwrap_shell_script(command: &[String]) -> (r: Option<&str>)
    ensures
        match r {
            Some(script) => script_of(texts(command@)) == Some(script@),
            None => script_of(texts(command@)) is None,
        },
{
    if command.len() >= 3 && (same_text(command[1].as_str(), "-lc") || same_text(
        command[1].as_str(),
        "-c",
    )) {
        return Some(command[2].as_str());
    }
    None
}

/// What stands before the first `&&`, `||`, `;`, `|` or line break of a script, trimmed.
pub fn first_shell_segment(script: &str) -> (r: &str)
    ensures
        r@ == first_segment(script@),
{
    let chars = char_list(script);
    let mut end: usize = 0;
    while end < chars.len() && !(chars[end] == ';' || chars[end] == '|' || chars[end] == '\n' || (
    chars[end] == '&' && chars.len() - end > 1 && chars[end + 1] == '&'))
        invariant
            end <= chars@.len(),
            chars@ == script@,
            forall|i: int| 0 <= i < end ==> !#[trigger] separator_at(script@, i),
        decreases chars@.len() - end,
    {
        end = end + 1;
    }
    let (a, b) = trim_bounds(&chars, 0, end);
    proof {
        assert(ends_first_segment(script@, end as int));
        lemma_first_segment_end(script@, end as int);
        assert(chars@.subrange(0, end as int) =~= script@.take(end as int));
    }
    script.substring_char(a, b)
}

/// The first `limit` words of a text, with single spaces between them.
pub fn take_command_words(text: &str, limit: usize) -> (r: String)
    ensures
        r@ == leading_words(text@, limit as nat),
{
    let found = split_words(text);
    assert(texts(found@).len() == found@.len());
    join_first(found.as_slice(), limit, " ")
}

/// The name under which a command is counted.
pub fn summarize_exec_command(command: &[String]) -> (r: String)
    ensures
        r@ == summary_of(texts(command@)),
{
    match unwrap_shell_script(command) {
        Some(shell_script) => {
            let segment = first_shell_segment(shell_script);
            let summary = take_command_words(segment, COMMAND_WORD_LIMIT);
            if !summary.as_str().is_empty() {
                return summary;
            }
        },
        None => {},
    }
    let summary = take_command_words(join_texts(command, " ").as_str(), COMMAND_WORD_LIMIT);
    if summary.as_str().is_empty() {
        "unknown_command".to_owned()
    } else {
        summary
    }
}

} // verus!
