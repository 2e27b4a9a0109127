//! What holds of the names under which commands are counted.
use crate::command::{
    ends_first_segment, first_segment, leading_words, lemma_first_segment_end, script_of,
    separator_at, summary_of, COMMAND_WORD_LIMIT,
};
use crate::laws::text::{
    law_collapsed_tidy, law_trimmed, law_words, law_words_of_join, lemma_runs_all,
};
use crate::text::{all_words, collapsed, is_word, join, trimmed, word_char, words};
use vstd::prelude::*;

verus! {

/// Every script has a first segment.
pub proof fn lemma_segment_end_exists(s: Seq<char>, from: int) -> (end: int)
    requires
        0 <= from <= s.len(),
        forall|i: int| 0 <= i < from ==> !#[trigger] separator_at(s, i),
    ensures
        ends_first_segment(s, end),
    decreases s.len() - from,
{
    if from == s.len() || separator_at(s, from) {
        from
    } else {
        lemma_segment_end_exists(s, from + 1)
    }
}

/// The first segment of a script holds no separator.
pub proof fn law_first_segment(s: Seq<char>)
    ensures
        forall|i: int| !#[trigger] separator_at(first_segment(s), i),
{
    let end = lemma_segment_end_exists(s, 0);
    lemma_first_segment_end(s, end);
    let head = s.take(end);
    let (a, b) = law_trimmed(head);
    let t = first_segment(s);
    assert(t == head.subrange(a, b));
    assert forall|i: int| !#[trigger] separator_at(t, i) by {
        if separator_at(t, i) {
            assert(t[i] == s[a + i]);
            if i + 1 < t.len() {
                assert(t[i + 1] == s[a + i + 1]);
            }
            assert(separator_at(s, a + i));
        }
    }
}

/// A text without separators is its own first segment, but for the whitespace at its ends.
pub proof fn law_whole_segment(s: Seq<char>)
    requires
        forall|i: int| !#[trigger] separator_at(s, i),
    ensures
        first_segment(s) == trimmed(s),
{
    assert(ends_first_segment(s, s.len() as int));
    lemma_first_segment_end(s, s.len() as int);
    assert(s.take(s.len() as int) =~= s);
}

proof fn lemma_leading_words(s: Seq<char>, limit: nat)
    ensures
        words(leading_words(s, limit)).len() <= limit,
        words(leading_words(s, limit)) == words(s).take(
            if limit <= words(s).len() {
                limit as int
            } else {
                words(s).len() as int
            },
        ),
        collapsed(leading_words(s, limit)) == leading_words(s, limit),
{
    let ws = words(s);
    let n = if limit <= ws.len() {
        limit as int
    } else {
        ws.len() as int
    };
    law_words(s);
    assert(all_words(ws.take(n))) by {
        assert forall|i: int| 0 <= i < n implies is_word(#[trigger] ws.take(n)[i]) by {
            assert(is_word(ws[i]));
        }
    }
    law_words_of_join(ws.take(n));
}

/// A command is known by at least one and at most four words, with single spaces between them.
pub proof fn law_summary(command: Seq<Seq<char>>)
    ensures
        summary_of(command).len() > 0,
        1 <= words(summary_of(command)).len() <= 4,
        collapsed(summary_of(command)) == summary_of(command),
{
    reveal_strlit("unknown_command");
    let limit = COMMAND_WORD_LIMIT as nat;
    lemma_leading_words(join(command, " "@), limit);
    if script_of(command) is Some {
        lemma_leading_words(first_segment(script_of(command)->0), limit);
    }
    let unknown = "unknown_command"@;
    assert forall|i: int| 0 <= i < unknown.len() implies word_char()(#[trigger] unknown[i]) by {}
    lemma_runs_all(unknown, word_char());
    assert(join(seq![unknown], " "@) == unknown);
    law_collapsed_tidy(summary_of(command));
}

/// The first word of a command line is the first word of its name.
pub proof fn law_summary_begins(command: Seq<Seq<char>>)
    requires
        script_of(command) is Some,
        words(first_segment(script_of(command)->0)).len() > 0,
    ensures
        words(summary_of(command))[0] == words(first_segment(script_of(command)->0))[0],
{
    let s = first_segment(script_of(command)->0);
    lemma_leading_words(s, COMMAND_WORD_LIMIT as nat);
    law_collapsed_tidy(leading_words(s, COMMAND_WORD_LIMIT as nat));
}

/// Whether a shell command ends at `i`, at the first character of `&&`, `||`, `;`, `|` or a line break.
pub open spec fn command_ends_at(s: Seq<char>, i: int) -> bool {
    s[i] == ';' || s[i] == '|' || s[i] == '\n' || (s[i] == '&' && i + 1 < s.len() && s[i + 1] == '&')
}

/// The first segment of a script is what stands before the first place at which a command ends, or all
/// of the script where there is none, without the whitespace at its ends.
pub proof fn law_segment_by_end(s: Seq<char>, end: int)
    requires
        0 <= end <= s.len(),
        forall|i: int| 0 <= i < end ==> !#[trigger] command_ends_at(s, i),
        end < s.len() ==> command_ends_at(s, end),
    ensures
        first_segment(s) == trimmed(s.take(end)),
{
    assert forall|i: int| 0 <= i < end implies !#[trigger] separator_at(s, i) by {
        assert(!command_ends_at(s, i));
    }
    lemma_first_segment_end(s, end);
}

/// The first few words: four, or all where there are fewer.
pub open spec fn first_four(ws: Seq<Seq<char>>) -> Seq<Seq<char>> {
    if ws.len() < 4 {
        ws
    } else {
        ws.take(4)
    }
}

/// Whatever the shell is, a command with the flag `-lc` or `-c` is known by the first four words of the
/// first segment of its script.
pub proof fn law_summary_of_script(command: Seq<Seq<char>>)
    requires
        command.len() >= 3,
        command[1] == "-lc"@ || command[1] == "-c"@,
        words(first_segment(command[2])).len() > 0,
    ensures
        words(summary_of(command)) == first_four(words(first_segment(command[2]))),
        summary_of(command) == join(first_four(words(first_segment(command[2]))), " "@),
{
    let ws = words(first_segment(command[2]));
    lemma_leading_words(first_segment(command[2]), 4);
    law_collapsed_tidy(leading_words(first_segment(command[2]), 4));
    if ws.len() < 4 {
        assert(ws.take(ws.len() as int) =~= ws);
    }
}

/// Every other command, and one whose script begins with no command, is known by its own first four
/// words; a blank one is unknown.
pub proof fn law_summary_of_words(command: Seq<Seq<char>>)
    requires
        command.len() < 3 || (command[1] != "-lc"@ && command[1] != "-c"@) || words(
            first_segment(command[2]),
        ).len() == 0,
    ensures
        ({
            let ws = words(join(command, " "@));
            &&& ws.len() > 0 ==> words(summary_of(command)) == first_four(ws)
            &&& ws.len() > 0 ==> summary_of(command) == join(first_four(ws), " "@)
            &&& ws.len() == 0 ==> summary_of(command) == "unknown_command"@
        }),
{
    let whole = join(command, " "@);
    let ws = words(whole);
    lemma_leading_words(whole, 4);
    law_collapsed_tidy(leading_words(whole, 4));
    if command.len() >= 3 {
        lemma_leading_words(first_segment(command[2]), 4);
        law_collapsed_tidy(leading_words(first_segment(command[2]), 4));
    }
    if ws.len() < 4 {
        assert(ws.take(ws.len() as int) =~= ws);
    }
}

/// The script of a command is its third part, where its second is `-lc` or `-c`; other commands have none.
pub proof fn law_script(command: Seq<Seq<char>>)
    ensures
        command.len() >= 3 && (command[1] == "-lc"@ || command[1] == "-c"@) ==> script_of(command)
            == Some(command[2]),
        command.len() < 3 || (command[1] != "-lc"@ && command[1] != "-c"@) ==> script_of(
            command,
        ) is None,
{
}

/// The leading words of a text are its first words, as many as asked for or all where there are fewer,
/// with single spaces between them.
pub proof fn law_leading_words(s: Seq<char>, limit: nat)
    ensures
        limit < words(s).len() ==> leading_words(s, limit) == join(
            words(s).take(limit as int),
            " "@,
        ),
        limit >= words(s).len() ==> leading_words(s, limit) == join(words(s), " "@),
{
    assert(words(s).take(words(s).len() as int) =~= words(s));
}

} // verus!
