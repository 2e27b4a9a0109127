//! How many lines the prompt has.
use crate::counts::{entries_text, entry_line, entry_text, section_lines, top, Counted, Counts};
use crate::digest::DigestModel;
use crate::laws::counts::law_top;
use crate::laws::prompt::law_roughest;
use crate::laws::text::law_decimal_digits;
use crate::order::{at_most, lemma_stable_sort, stable_sort};
use crate::prompt::{
    has_friction, instructions, lemma_rougher_compares, phrase_line, rougher, roughest, section,
};
use crate::session::SessionModel;
use crate::text::{decimal, join};
use vstd::prelude::*;

verus! {

// ---------------------------------------------------------------------------------------------
// Model
// ---------------------------------------------------------------------------------------------
/// A text without a line break.
pub open spec fn one_line(s: Seq<char>) -> bool {
    forall|i: int| 0 <= i < s.len() ==> #[trigger] s[i] != '\n'
}

pub open spec fn all_one_line(lines: Seq<Seq<char>>) -> bool {
    forall|i: int| 0 <= i < lines.len() ==> one_line(#[trigger] lines[i])
}

/// What stands before, between and after the line breaks of a text.
pub open spec fn split_lines(s: Seq<char>) -> Seq<Seq<char>>
    decreases s.len(),
{
    if s.len() == 0 {
        seq![Seq::empty()]
    } else {
        let before = split_lines(s.drop_last());
        if s.last() == '\n' {
            before.push(Seq::empty())
        } else {
            before.drop_last().push(before.last().push(s.last()))
        }
    }
}

/// Whether there are finitely many names, and none holds a line break.
pub open spec fn plain_names(m: Counts) -> bool {
    &&& m.dom().finite()
    &&& forall|name: Seq<char>| #[trigger] m.contains_key(name) ==> one_line(name)
}

pub open spec fn plain_entries(es: Seq<Counted>) -> bool {
    forall|i: int| 0 <= i < es.len() ==> one_line((#[trigger] es[i]).0)
}

/// Whether nothing that is shown of a session holds a line break.
pub open spec fn plain_session(m: SessionModel) -> bool {
    &&& one_line(m.created_at)
    &&& one_line(m.preview)
    &&& m.cwd is Some ==> one_line(m.cwd->0)
    &&& plain_names(m.tool_counts)
    &&& plain_names(m.failed_command_counts)
}

/// Whether nothing that is shown of a digest holds a line break.
pub open spec fn plain_digest(d: DigestModel) -> bool {
    &&& forall|i: int| 0 <= i < d.sessions.len() ==> plain_session(#[trigger] d.sessions[i])
    &&& plain_entries(d.top_tools)
    &&& plain_entries(d.top_commands)
    &&& plain_entries(d.top_failed_commands)
    &&& plain_entries(d.top_cwds)
    &&& plain_entries(d.repeated_phrases)
}

/// The number of lines of a section that has `n` entries: one line says that there are none.
pub open spec fn lines_of(n: nat) -> nat {
    if n == 0 {
        1
    } else {
        n
    }
}

/// The number of lines of a prompt: a fixed number, one for the note on the sample size where there is
/// one, at least one for each list, of which the one on friction shows at most eight sessions, and one
/// for each session.
pub open spec fn prompt_length(d: DigestModel, requested_limit: nat) -> nat {
    37 + (if d.sessions.len() < requested_limit {
        1nat
    } else {
        0
    }) + lines_of(d.top_tools.len()) + lines_of(d.top_commands.len()) + lines_of(
        d.top_failed_commands.len(),
    ) + lines_of(d.top_cwds.len()) + lines_of(d.repeated_phrases.len()) + lines_of(
        at_most(8, d.sessions.filter(has_friction()).len()) as nat,
    ) + d.sessions.len()
}

// ---------------------------------------------------------------------------------------------
// Splitting
// ---------------------------------------------------------------------------------------------
proof fn lemma_split_appended(s: Seq<char>, line: Seq<char>)
    requires
        one_line(line),
    ensures
        split_lines(s).len() > 0,
        split_lines(s + "\n"@ + line) == split_lines(s).push(line),
    decreases s.len(), line.len(),
{
    reveal_strlit("\n");
    let t = s + "\n"@ + line;
    lemma_split_not_empty(s);
    if line.len() == 0 {
        assert(t.drop_last() =~= s);
        assert(t.last() == '\n');
        assert(line =~= Seq::<char>::empty());
    } else {
        let head = line.drop_last();
        assert(one_line(head)) by {
            assert forall|i: int| 0 <= i < head.len() implies #[trigger] head[i] != '\n' by {
                assert(line[i] != '\n');
            }
        }
        lemma_split_appended(s, head);
        assert(t.drop_last() =~= s + "\n"@ + head);
        assert(t.last() == line[line.len() - 1]);
        assert(line =~= head.push(line.last()));
        assert(split_lines(t) =~= split_lines(s).push(line));
    }
}

proof fn lemma_split_not_empty(s: Seq<char>)
    ensures
        split_lines(s).len() > 0,
    decreases s.len(),
{
    if s.len() > 0 {
        lemma_split_not_empty(s.drop_last());
    }
}

proof fn lemma_split_one(line: Seq<char>)
    requires
        one_line(line),
    ensures
        split_lines(line) == seq![line],
    decreases line.len(),
{
    if line.len() == 0 {
        assert(line =~= Seq::<char>::empty());
    } else {
        let head = line.drop_last();
        assert(one_line(head)) by {
            assert forall|i: int| 0 <= i < head.len() implies #[trigger] head[i] != '\n' by {
                assert(line[i] != '\n');
            }
        }
        lemma_split_one(head);
        assert(line.last() == line[line.len() - 1]);
        assert(line =~= head.push(line.last()));
        assert(split_lines(line) =~= seq![line]);
    }
}

/// Lines without line breaks that are joined by line breaks are found again.
pub proof fn law_split_joined(lines: Seq<Seq<char>>)
    requires
        lines.len() > 0,
        all_one_line(lines),
    ensures
        split_lines(join(lines, "\n"@)) == lines,
    decreases lines.len(),
{
    assert(one_line(lines[lines.len() - 1]));
    if lines.len() == 1 {
        lemma_split_one(lines[0]);
        assert(lines =~= seq![lines[0]]);
    } else {
        let head = lines.drop_last();
        assert(all_one_line(head)) by {
            assert forall|i: int| 0 <= i < head.len() implies one_line(#[trigger] head[i]) by {
                assert(one_line(lines[i]));
            }
        }
        law_split_joined(head);
        lemma_split_appended(join(head, "\n"@), lines.last());
        assert(lines =~= head.push(lines.last()));
    }
}

// ---------------------------------------------------------------------------------------------
// Lines of the prompt
// ---------------------------------------------------------------------------------------------
broadcast proof fn lemma_concat(a: Seq<char>, b: Seq<char>)
    requires
        one_line(a),
        one_line(b),
    ensures
        #[trigger] one_line(a + b),
{
}

broadcast proof fn lemma_lines_concat(a: Seq<Seq<char>>, b: Seq<Seq<char>>)
    requires
        all_one_line(a),
        all_one_line(b),
    ensures
        #[trigger] all_one_line(a + b),
{
}

broadcast proof fn lemma_number(n: nat)
    ensures
        #[trigger] one_line(decimal(n)),
{
    law_decimal_digits(n);
}

proof fn lemma_joined(parts: Seq<Seq<char>>, sep: Seq<char>)
    requires
        all_one_line(parts),
        one_line(sep),
    ensures
        one_line(join(parts, sep)),
    decreases parts.len(),
{
    broadcast use lemma_concat;

    if parts.len() > 0 {
        assert(one_line(parts[parts.len() - 1]));
        if parts.len() > 1 {
            let head = parts.drop_last();
            assert(all_one_line(head)) by {
                assert forall|i: int| 0 <= i < head.len() implies one_line(#[trigger] head[i]) by {
                    assert(one_line(parts[i]));
                }
            }
            lemma_joined(head, sep);
        }
    }
}

proof fn lemma_instructions(n: nat)
    ensures
        all_one_line(instructions(n)),
{
    broadcast use {lemma_concat, lemma_number};

    let lines = instructions(n);
    assert(one_line("Analyze this digest of my last "@)) by {
        reveal_strlit("Analyze this digest of my last ");
    }
    assert(one_line(" interactive Codex sessions and tell me how Codex should improve."@)) by {
        reveal_strlit(" interactive Codex sessions and tell me how Codex should improve.");
    }
    assert(one_line("Focus on:"@)) by {
        reveal_strlit("Focus on:");
    }
    assert(one_line("- Concrete friction patterns and the smallest prompt or default-behavior change that would address each one."@)) by {
        reveal_strlit("- Concrete friction patterns and the smallest prompt or default-behavior change that would address each one.");
    }
    assert(one_line("- Explicit suggestions to try next, including prompt wording, default behaviors, and automation when the evidence is strong. Make the suggestions succinct and actionable."@)) by {
        reveal_strlit("- Explicit suggestions to try next, including prompt wording, default behaviors, and automation when the evidence is strong. Make the suggestions succinct and actionable.");
    }
    assert(one_line("- Repeated explanations or commentary that should be cut, shortened, or standardized."@)) by {
        reveal_strlit("- Repeated explanations or commentary that should be cut, shortened, or standardized.");
    }
    assert(one_line("- Evidence-driven recommendations only. If support is weak, say so."@)) by {
        reveal_strlit("- Evidence-driven recommendations only. If support is weak, say so.");
    }
    assert(one_line("- Only suggest a new skill, slash command, hook, or helper script when the same workflow or friction shows up in at least two sessions."@)) by {
        reveal_strlit("- Only suggest a new skill, slash command, hook, or helper script when the same workflow or friction shows up in at least two sessions.");
    }
    assert(one_line("- Keep the response concise: use at most 3 bullets per section."@)) by {
        reveal_strlit("- Keep the response concise: use at most 3 bullets per section.");
    }
    assert(one_line("- In every section, make each bullet start with the change."@)) by {
        reveal_strlit("- In every section, make each bullet start with the change.");
    }
    assert(one_line("- Do not restate the digest; cite only the minimum evidence needed to justify each recommendation."@)) by {
        reveal_strlit("- Do not restate the digest; cite only the minimum evidence needed to justify each recommendation.");
    }
    assert(one_line("Respond with these sections:"@)) by {
        reveal_strlit("Respond with these sections:");
    }
    assert(one_line("1. Friction to address"@)) by {
        reveal_strlit("1. Friction to address");
    }
    assert(one_line("2. Suggestions to try"@)) by {
        reveal_strlit("2. Suggestions to try");
    }
    assert(one_line("3. Repetition to remove"@)) by {
        reveal_strlit("3. Repetition to remove");
    }
    assert(one_line("4. Ship next"@)) by {
        reveal_strlit("4. Ship next");
    }
    assert(one_line(lines[0]));
    assert forall|i: int| 0 <= i < lines.len() implies one_line(#[trigger] lines[i]) by {}
}

proof fn lemma_titles()
    ensures
        one_line("## Aggregate stats"@),
        one_line("## Most used tools"@),
        one_line("## Most used shell commands"@),
        one_line("## Most failed shell commands"@),
        one_line("## Common working directories"@),
        one_line("## Repeated assistant phrases"@),
        one_line("## Highest-friction sessions"@),
        one_line("## Session summaries"@),
{
    assert(one_line("## Aggregate stats"@)) by {
        reveal_strlit("## Aggregate stats");
    }
    assert(one_line("## Most used tools"@)) by {
        reveal_strlit("## Most used tools");
    }
    assert(one_line("## Most used shell commands"@)) by {
        reveal_strlit("## Most used shell commands");
    }
    assert(one_line("## Most failed shell commands"@)) by {
        reveal_strlit("## Most failed shell commands");
    }
    assert(one_line("## Common working directories"@)) by {
        reveal_strlit("## Common working directories");
    }
    assert(one_line("## Repeated assistant phrases"@)) by {
        reveal_strlit("## Repeated assistant phrases");
    }
    assert(one_line("## Highest-friction sessions"@)) by {
        reveal_strlit("## Highest-friction sessions");
    }
    assert(one_line("## Session summaries"@)) by {
        reveal_strlit("## Session summaries");
    }
}

proof fn lemma_statistics(d: DigestModel, requested_limit: nat)
    ensures
        all_one_line(d.statistics(requested_limit)),
{
    broadcast use {lemma_concat, lemma_number};

    let lines = d.statistics(requested_limit);
    assert(one_line("- Sessions analyzed: "@)) by {
        reveal_strlit("- Sessions analyzed: ");
    }
    assert(one_line("- Messages: user "@)) by {
        reveal_strlit("- Messages: user ");
    }
    assert(one_line(", assistant "@)) by {
        reveal_strlit(", assistant ");
    }
    assert(one_line(", commentary "@)) by {
        reveal_strlit(", commentary ");
    }
    assert(one_line(", final answers "@)) by {
        reveal_strlit(", final answers ");
    }
    assert(one_line("- Workload: tool calls "@)) by {
        reveal_strlit("- Workload: tool calls ");
    }
    assert(one_line(", exec commands "@)) by {
        reveal_strlit(", exec commands ");
    }
    assert(one_line(", failed exec commands "@)) by {
        reveal_strlit(", failed exec commands ");
    }
    assert(one_line("- Friction signals: stream errors "@)) by {
        reveal_strlit("- Friction signals: stream errors ");
    }
    assert(one_line(", turn aborts "@)) by {
        reveal_strlit(", turn aborts ");
    }
    assert(one_line(", approvals "@)) by {
        reveal_strlit(", approvals ");
    }
    assert(one_line(", compactions "@)) by {
        reveal_strlit(", compactions ");
    }
    assert(one_line("- Sample size note: only "@)) by {
        reveal_strlit("- Sample size note: only ");
    }
    assert(one_line(" earlier sessions were available."@)) by {
        reveal_strlit(" earlier sessions were available.");
    }
    assert forall|i: int| 0 <= i < lines.len() implies one_line(#[trigger] lines[i]) by {
        assert(one_line(lines[0]));
        assert(one_line(lines[1]));
        assert(one_line(lines[2]));
        assert(one_line(lines[3]));
        if i == 4 {
            assert(one_line(lines[4]));
        }
    }
}

proof fn lemma_section_lines(es: Seq<Counted>)
    requires
        plain_entries(es),
    ensures
        all_one_line(section_lines(es)),
        section_lines(es).len() == lines_of(es.len()),
{
    broadcast use {lemma_concat, lemma_number};

    assert(one_line("- "@)) by {
        reveal_strlit("- ");
    }
    assert(one_line(": "@)) by {
        reveal_strlit(": ");
    }
    assert(one_line("- None recorded in the sampled sessions."@)) by {
        reveal_strlit("- None recorded in the sampled sessions.");
    }
    let lines = section_lines(es);
    assert forall|i: int| 0 <= i < lines.len() implies one_line(#[trigger] lines[i]) by {
        if es.len() > 0 {
            assert(one_line(es[i].0));
            assert(lines[i] == entry_line(es[i]));
        }
    }
}

proof fn lemma_phrase_lines(d: DigestModel)
    requires
        plain_entries(d.repeated_phrases),
    ensures
        all_one_line(d.phrase_lines()),
        d.phrase_lines().len() == lines_of(d.repeated_phrases.len()),
{
    broadcast use {lemma_concat, lemma_number};

    assert(one_line("- "@)) by {
        reveal_strlit("- ");
    }
    assert(one_line(" (seen "@)) by {
        reveal_strlit(" (seen ");
    }
    assert(one_line(" times)"@)) by {
        reveal_strlit(" times)");
    }
    assert(one_line("- No strongly repeated assistant phrasing was detected in the local digest."@)) by {
        reveal_strlit("- No strongly repeated assistant phrasing was detected in the local digest.");
    }
    let lines = d.phrase_lines();
    assert forall|i: int| 0 <= i < lines.len() implies one_line(#[trigger] lines[i]) by {
        if d.repeated_phrases.len() > 0 {
            assert(one_line(d.repeated_phrases[i].0));
            assert(lines[i] == phrase_line(d.repeated_phrases[i]));
        }
    }
}

proof fn lemma_summary_line(m: SessionModel)
    requires
        plain_session(m),
    ensures
        one_line(m.summary()),
{
    broadcast use {lemma_concat, lemma_number};

    assert(one_line("- "@)) by {
        reveal_strlit("- ");
    }
    assert(one_line(" | "@)) by {
        reveal_strlit(" | ");
    }
    assert(one_line(" | users "@)) by {
        reveal_strlit(" | users ");
    }
    assert(one_line(", assistant "@)) by {
        reveal_strlit(", assistant ");
    }
    assert(one_line(", commentary "@)) by {
        reveal_strlit(", commentary ");
    }
    assert(one_line(", tools "@)) by {
        reveal_strlit(", tools ");
    }
    assert(one_line(", exec "@)) by {
        reveal_strlit(", exec ");
    }
    assert(one_line(", failed exec "@)) by {
        reveal_strlit(", failed exec ");
    }
    assert(one_line(", approvals "@)) by {
        reveal_strlit(", approvals ");
    }
    assert(one_line(", compactions "@)) by {
        reveal_strlit(", compactions ");
    }
    assert(one_line(" | cwd "@)) by {
        reveal_strlit(" | cwd ");
    }
}

proof fn lemma_entries_text(m: Counts, limit: nat)
    requires
        plain_names(m),
    ensures
        one_line(entries_text(top(m, limit))),
{
    broadcast use {lemma_concat, lemma_number};

    assert(one_line(" x"@)) by {
        reveal_strlit(" x");
    }
    assert(one_line(", "@)) by {
        reveal_strlit(", ");
    }
    let es = top(m, limit);
    let parts = es.map_values(|e: Counted| entry_text(e));
    law_top(m, limit);
    assert(all_one_line(parts)) by {
        assert forall|i: int| 0 <= i < parts.len() implies one_line(#[trigger] parts[i]) by {
            assert(m.contains_key(es[i].0));
            assert(parts[i] == entry_text(es[i]));
        }
    }
    lemma_joined(parts, ", "@);
}

proof fn lemma_reasons(m: SessionModel)
    ensures
        all_one_line(m.reasons()),
{
    broadcast use {lemma_concat, lemma_lines_concat, lemma_number};

    assert(one_line("failed exec "@)) by {
        reveal_strlit("failed exec ");
    }
    assert(one_line("stream errors "@)) by {
        reveal_strlit("stream errors ");
    }
    assert(one_line("turn aborts "@)) by {
        reveal_strlit("turn aborts ");
    }
    assert(one_line("approvals "@)) by {
        reveal_strlit("approvals ");
    }
    assert(one_line("exec commands "@)) by {
        reveal_strlit("exec commands ");
    }
    let found = m.reasons();
    assert forall|i: int| 0 <= i < found.len() implies one_line(#[trigger] found[i]) by {}
}

proof fn lemma_friction_line(m: SessionModel)
    requires
        plain_session(m),
    ensures
        one_line(m.friction_text()),
{
    broadcast use {lemma_concat, lemma_number};

    assert(one_line("- score "@)) by {
        reveal_strlit("- score ");
    }
    assert(one_line(" | "@)) by {
        reveal_strlit(" | ");
    }
    assert(one_line(", "@)) by {
        reveal_strlit(", ");
    }
    assert(one_line(" | top tools: "@)) by {
        reveal_strlit(" | top tools: ");
    }
    assert(one_line(" | failed commands: "@)) by {
        reveal_strlit(" | failed commands: ");
    }
    lemma_reasons(m);
    lemma_joined(m.reasons(), ", "@);
    lemma_entries_text(m.tool_counts, 3);
    lemma_entries_text(m.failed_command_counts, 2);
}

/// The sessions that are listed for their friction are among the sessions.
proof fn lemma_roughest_listed(sessions: Seq<SessionModel>, i: int)
    requires
        0 <= i < roughest(sessions).len(),
    ensures
        sessions.contains(roughest(sessions)[i]),
{
    broadcast use vstd::seq_lib::group_to_multiset_ensures;

    let sorted = stable_sort(sessions, rougher());
    let m = roughest(sessions)[i];
    lemma_rougher_compares();
    lemma_stable_sort(sessions, rougher());
    assert(sorted.filter(has_friction())[i] == m);
    sorted.lemma_filter_contains_rev(has_friction(), m);
    assert(sorted.to_multiset().count(m) > 0);
}

proof fn lemma_friction_lines(d: DigestModel)
    requires
        plain_digest(d),
    ensures
        all_one_line(d.friction_lines()),
        d.friction_lines().len() == lines_of(roughest(d.sessions).len()),
{
    assert(one_line("- No strong friction signal stood out in the sampled sessions."@)) by {
        reveal_strlit("- No strong friction signal stood out in the sampled sessions.");
    }
    let rough = roughest(d.sessions);
    let lines = d.friction_lines();
    assert forall|i: int| 0 <= i < lines.len() implies one_line(#[trigger] lines[i]) by {
        if rough.len() > 0 {
            lemma_roughest_listed(d.sessions, i);
            let k = choose|k: int| 0 <= k < d.sessions.len() && d.sessions[k] == rough[i];
            assert(plain_session(d.sessions[k]));
            lemma_friction_line(rough[i]);
            assert(lines[i] == rough[i].friction_text());
        }
    }
}

proof fn lemma_summary_lines(d: DigestModel)
    requires
        plain_digest(d),
    ensures
        all_one_line(d.summary_lines()),
{
    let lines = d.summary_lines();
    assert forall|i: int| 0 <= i < lines.len() implies one_line(#[trigger] lines[i]) by {
        assert(plain_session(d.sessions[i]));
        lemma_summary_line(d.sessions[i]);
        assert(lines[i] == d.sessions[i].summary());
    }
}

proof fn lemma_section(title: Seq<char>, body: Seq<Seq<char>>)
    requires
        one_line(title),
        all_one_line(body),
    ensures
        all_one_line(section(title, body)),
        section(title, body).len() == 2 + body.len(),
{
    let lines = section(title, body);
    assert forall|i: int| 0 <= i < lines.len() implies one_line(#[trigger] lines[i]) by {
        if i >= 2 {
            assert(lines[i] == body[i - 2]);
        }
    }
}

/// The prompt has as many lines as `prompt_length` says.
pub proof fn law_prompt_length(d: DigestModel, requested_limit: nat)
    ensures
        d.prompt_lines(requested_limit).len() == prompt_length(d, requested_limit),
{
    law_roughest(d.sessions);
    assert(instructions(d.sessions.len()).len() == 17);
    assert(d.statistics(requested_limit).len() == if d.sessions.len() < requested_limit {
        5nat
    } else {
        4
    });
    assert(d.friction_lines().len() == lines_of(roughest(d.sessions).len()));
    assert(d.phrase_lines().len() == lines_of(d.repeated_phrases.len()));
}

/// Where nothing that the digest shows holds a line break, the prompt has exactly the lines of which it
/// is made: splitting it at its line breaks gives these lines, and none of them holds a line break.
pub proof fn law_prompt_splits(d: DigestModel, requested_limit: nat)
    requires
        plain_digest(d),
    ensures
        all_one_line(d.prompt_lines(requested_limit)),
        split_lines(d.prompt(requested_limit)) == d.prompt_lines(requested_limit),
        split_lines(d.prompt(requested_limit)).len() == prompt_length(d, requested_limit),
{
    broadcast use lemma_lines_concat;

    lemma_titles();
    lemma_instructions(d.sessions.len());
    lemma_statistics(d, requested_limit);
    lemma_section("## Aggregate stats"@, d.statistics(requested_limit));
    lemma_section_lines(d.top_tools);
    lemma_section("## Most used tools"@, section_lines(d.top_tools));
    lemma_section_lines(d.top_commands);
    lemma_section("## Most used shell commands"@, section_lines(d.top_commands));
    lemma_section_lines(d.top_failed_commands);
    lemma_section("## Most failed shell commands"@, section_lines(d.top_failed_commands));
    lemma_section_lines(d.top_cwds);
    lemma_section("## Common working directories"@, section_lines(d.top_cwds));
    lemma_phrase_lines(d);
    lemma_section("## Repeated assistant phrases"@, d.phrase_lines());
    lemma_friction_lines(d);
    lemma_section("## Highest-friction sessions"@, d.friction_lines());
    lemma_summary_lines(d);
    lemma_section("## Session summaries"@, d.summary_lines());
    law_prompt_length(d, requested_limit);
    law_split_joined(d.prompt_lines(requested_limit));
}

} // verus!
