//! The prompt that asks for improvements, made of the digest of the recorded sessions.
use crate::counts::{count_of, counted, render_count_section, section_lines, Counted};
use crate::digest::{digest_of, models, tally, DigestModel, ImproveDigest};
use crate::laws::session::law_bounds;
use crate::order::{
    compares_keys, first_of, lemma_stable_orders, lemma_stable_sort, position_order, positions,
    select_first, stable_before, stable_sort, Ranked,
};
use crate::recent::{ThreadItem, ThreadModel};
use crate::rollout::RolloutItem;
use crate::session::{analysis_of, append_number, SessionAnalysis, SessionModel};
use crate::text::{decimal, join, join_texts, lemma_text_lt_orders, text_before, text_lt, texts};
use vstd::prelude::*;

verus! {

/// How many sessions are listed for their friction.
pub const FRICTION_LIMIT: usize = 8;

// ---------------------------------------------------------------------------------------------
// Model
// ---------------------------------------------------------------------------------------------
/// The beginning of the prompt: what is asked for.
pub open spec fn instructions(sessions: nat) -> Seq<Seq<char>> {
    seq![
        "Analyze this digest of my last "@ + decimal(sessions)
            + " interactive Codex sessions and tell me how Codex should improve."@,
        Seq::empty(),
        "Focus on:"@,
        "- Concrete friction patterns and the smallest prompt or default-behavior change that would address each one."@,
        "- Explicit suggestions to try next, including prompt wording, default behaviors, and automation when the evidence is strong. Make the suggestions succinct and actionable."@,
        "- Repeated explanations or commentary that should be cut, shortened, or standardized."@,
        "- Evidence-driven recommendations only. If support is weak, say so."@,
        "- Only suggest a new skill, slash command, hook, or helper script when the same workflow or friction shows up in at least two sessions."@,
        "- Keep the response concise: use at most 3 bullets per section."@,
        "- In every section, make each bullet start with the change."@,
        "- Do not restate the digest; cite only the minimum evidence needed to justify each recommendation."@,
        Seq::empty(),
        "Respond with these sections:"@,
        "1. Friction to address"@,
        "2. Suggestions to try"@,
        "3. Repetition to remove"@,
        "4. Ship next"@,
    ]
}

/// A section of the prompt, set off by a blank line.
pub open spec fn section(title: Seq<char>, body: Seq<Seq<char>>) -> Seq<Seq<char>> {
    seq![Seq::empty(), title] + body
}

/// `- SAMPLE (seen COUNT times)`.
pub open spec fn phrase_line(e: Counted) -> Seq<char> {
    "- "@ + e.0 + " (seen "@ + decimal(e.1) + " times)"@
}

/// The sessions with the most friction come first; equal friction goes by failed commands, and then
/// the earlier session comes first.
pub open spec fn rougher() -> spec_fn(SessionModel, SessionModel) -> bool {
    |a: SessionModel, b: SessionModel|
        a.friction() > b.friction() || (a.friction() == b.friction() && (a.failed_exec_commands
            > b.failed_exec_commands || (a.failed_exec_commands == b.failed_exec_commands
            && text_lt(a.created_at, b.created_at))))
}

pub open spec fn has_friction() -> spec_fn(SessionModel) -> bool {
    |s: SessionModel| s.friction() > 0
}

/// The sessions with the most friction, of those that had any.
pub open spec fn roughest(sessions: Seq<SessionModel>) -> Seq<SessionModel> {
    first_of(stable_sort(sessions, rougher()).filter(has_friction()), FRICTION_LIMIT as nat)
}

impl DigestModel {
    pub open spec fn statistics(self, requested_limit: nat) -> Seq<Seq<char>> {
        let found = self.sessions.len();
        seq![
            "- Sessions analyzed: "@ + decimal(found),
            "- Messages: user "@ + decimal(self.total_user_messages) + ", assistant "@ + decimal(
                self.total_assistant_messages,
            ) + ", commentary "@ + decimal(self.total_commentary_messages) + ", final answers "@
                + decimal(self.total_final_answers),
            "- Workload: tool calls "@ + decimal(self.total_tool_calls) + ", exec commands "@
                + decimal(self.total_exec_commands) + ", failed exec commands "@ + decimal(
                self.total_failed_exec_commands,
            ),
            "- Friction signals: stream errors "@ + decimal(self.total_stream_errors)
                + ", turn aborts "@ + decimal(self.total_turn_aborts) + ", approvals "@ + decimal(
                self.total_approvals,
            ) + ", compactions "@ + decimal(self.total_compactions),
        ] + (if found < requested_limit {
            seq![
                "- Sample size note: only "@ + decimal(found)
                    + " earlier sessions were available."@,
            ]
        } else {
            Seq::empty()
        })
    }

    pub open spec fn phrase_lines(self) -> Seq<Seq<char>> {
        if self.repeated_phrases.len() == 0 {
            seq![
                "- No strongly repeated assistant phrasing was detected in the local digest."@,
            ]
        } else {
            self.repeated_phrases.map_values(|e: Counted| phrase_line(e))
        }
    }

    pub open spec fn friction_lines(self) -> Seq<Seq<char>> {
        let rough = roughest(self.sessions);
        if rough.len() == 0 {
            seq!["- No strong friction signal stood out in the sampled sessions."@]
        } else {
            rough.map_values(|s: SessionModel| s.friction_text())
        }
    }

    pub open spec fn summary_lines(self) -> Seq<Seq<char>> {
        self.sessions.map_values(|s: SessionModel| s.summary())
    }

    /// The lines of the prompt.
    pub open spec fn prompt_lines(self, requested_limit: nat) -> Seq<Seq<char>> {
        instructions(self.sessions.len())
            + section("## Aggregate stats"@, self.statistics(requested_limit))
            + section("## Most used tools"@, section_lines(self.top_tools))
            + section("## Most used shell commands"@, section_lines(self.top_commands))
            + section("## Most failed shell commands"@, section_lines(self.top_failed_commands))
            + section("## Common working directories"@, section_lines(self.top_cwds))
            + section("## Repeated assistant phrases"@, self.phrase_lines())
            + section("## Highest-friction sessions"@, self.friction_lines())
            + section("## Session summaries"@, self.summary_lines())
    }

    /// The prompt.
    pub open spec fn prompt(self, requested_limit: nat) -> Seq<char> {
        join(self.prompt_lines(requested_limit), "\n"@)
    }
}

// ---------------------------------------------------------------------------------------------
// Friction
// ---------------------------------------------------------------------------------------------
/// Friction, failed commands and time together decide which session is rougher.
pub proof fn lemma_rougher_compares()
    ensures
        compares_keys(rougher()),
{
    let text = |a: Seq<char>, b: Seq<char>| text_lt(a, b);
    let r = rougher();
    lemma_text_lt_orders();
    assert forall|a: SessionModel| !#[trigger] r(a, a) by {
        assert(!text(a.created_at, a.created_at));
    }
    assert forall|a: SessionModel, b: SessionModel, c: SessionModel| #[trigger] r(a, b)
        && #[trigger] r(b, c) implies r(a, c) by {
        if text(a.created_at, b.created_at) && text(b.created_at, c.created_at) {
            assert(text(a.created_at, c.created_at));
        }
    }
    assert forall|a: SessionModel, b: SessionModel, c: SessionModel| #[trigger] r(
        a,
        c,
    ) implies #[trigger] r(a, b) || r(b, c) by {
        assert(text(a.created_at, b.created_at) || a.created_at == b.created_at || text(
            b.created_at,
            a.created_at,
        ));
        if text(b.created_at, a.created_at) && text(a.created_at, c.created_at) {
            assert(text(b.created_at, c.created_at));
        }
    }
}

/// Where the elements that `keep` holds of stand first, filtering and taking the first few can be
/// exchanged.
proof fn lemma_filter_first<T>(s: Seq<T>, keep: spec_fn(T) -> bool, limit: nat)
    requires
        forall|i: int, j: int|
            0 <= i < j < s.len() && keep(#[trigger] s[j]) ==> keep(#[trigger] s[i]),
    ensures
        first_of(s.filter(keep), limit) == first_of(s, limit).filter(keep),
        s.filter(keep).len() <= s.len(),
        s.len() > 0 && keep(s.last()) ==> s.filter(keep) == s,
    decreases s.len(),
{
    reveal(Seq::filter);
    if s.len() == 0 {
        assert(first_of(s, limit) =~= s);
        assert(first_of(s.filter(keep), limit) =~= s);
    } else {
        let rest = s.drop_last();
        lemma_filter_first(rest, keep, limit);
        if keep(s.last()) {
            if rest.len() > 0 {
                assert(keep(s[rest.len() - 1]));
                assert(rest.last() == s[rest.len() - 1]);
            }
            assert(rest.filter(keep) =~= rest);
            assert(s.filter(keep) =~= s);
            let head = first_of(s, limit);
            if head.len() > 0 {
                if head.len() < s.len() {
                    assert(keep(s[head.len() - 1]));
                }
                assert forall|i: int, j: int|
                    0 <= i < j < head.len() && keep(#[trigger] head[j]) implies keep(
                    #[trigger] head[i],
                ) by {
                    assert(head[i] == s[i] && head[j] == s[j]);
                }
                if head.len() < s.len() {
                    lemma_filter_first(head, keep, limit);
                } else {
                    assert(head =~= s);
                }
                assert(head.filter(keep) == head);
            } else {
                assert(head.filter(keep) =~= head);
            }
        } else {
            assert(s.filter(keep) == rest.filter(keep));
            if limit < s.len() {
                assert(first_of(s, limit) =~= first_of(rest, limit));
            } else {
                assert(first_of(s, limit) =~= s);
                assert(first_of(rest, limit) =~= rest);
            }
        }
    }
}

struct FrictionRanking<'a> {
    sessions: &'a Vec<SessionAnalysis>,
    scores: Vec<usize>,
}

impl<'a> FrictionRanking<'a> {
    #[verifier::type_invariant]
    closed spec fn scored(self) -> bool {
        &&& self.scores@.len() == self.sessions@.len()
        &&& forall|i: int|
            0 <= i < self.scores@.len() ==> #[trigger] self.scores@[i]
                == self.sessions@[i]@.friction()
    }
}

impl<'a> Ranked for FrictionRanking<'a> {
    closed spec fn size(&self) -> nat {
        self.sessions@.len()
    }

    closed spec fn before(&self) -> spec_fn(int, int) -> bool {
        stable_before(models(self.sessions@), rougher())
    }

    proof fn ordered(&self) {
        lemma_rougher_compares();
        lemma_stable_orders(models(self.sessions@), rougher());
    }

    fn count(&self) -> usize {
        self.sessions.len()
    }

    fn precedes(&self, i: usize, j: usize) -> bool {
        proof {
            use_type_invariant(self);
        }
        let a = &self.sessions[i];
        let b = &self.sessions[j];
        if self.scores[i] != self.scores[j] {
            self.scores[i] > self.scores[j]
        } else if a.failed_exec_commands != b.failed_exec_commands {
            a.failed_exec_commands > b.failed_exec_commands
        } else if text_before(a.created_at.as_str(), b.created_at.as_str()) {
            true
        } else {
            i < j && !text_before(b.created_at.as_str(), a.created_at.as_str())
        }
    }
}

// ---------------------------------------------------------------------------------------------
// Rendering
// ---------------------------------------------------------------------------------------------
fn push_line(lines: &mut Vec<String>, line: String)
    ensures
        texts(final(lines)@) == texts(old(lines)@).push(line@),
{
    lines.push(line);
    assert(texts(lines@) =~= texts(old(lines)@).push(line@));
}

fn push_section(lines: &mut Vec<String>, title: &str, body: Vec<String>)
    ensures
        texts(final(lines)@) == texts(old(lines)@) + section(title@, texts(body@)),
{
    push_line(lines, String::new());
    push_line(lines, title.to_owned());
    let ghost head = lines@;
    let mut rest = body;
    lines.append(&mut rest);
    assert(texts(lines@) =~= texts(head) + texts(body@));
    assert(texts(lines@) =~= texts(old(lines)@) + section(title@, texts(body@)));
}

fn render_instructions(sessions: usize) -> (r: Vec<String>)
    ensures
        texts(r@) == instructions(sessions as nat),
{
    let mut lines: Vec<String> = Vec::new();
    let mut opening = String::new();
    append_number(&mut opening, "Analyze this digest of my last ", sessions);
    opening.append(" interactive Codex sessions and tell me how Codex should improve.");
    push_line(&mut lines, opening);
    push_line(&mut lines, String::new());
    push_line(&mut lines, "Focus on:".to_owned());
    push_line(&mut lines, "- Concrete friction patterns and the smallest prompt or default-behavior change that would address each one.".to_owned());
    push_line(&mut lines, "- Explicit suggestions to try next, including prompt wording, default behaviors, and automation when the evidence is strong. Make the suggestions succinct and actionable.".to_owned());
    push_line(&mut lines, "- Repeated explanations or commentary that should be cut, shortened, or standardized.".to_owned());
    push_line(&mut lines, "- Evidence-driven recommendations only. If support is weak, say so.".to_owned());
    push_line(&mut lines, "- Only suggest a new skill, slash command, hook, or helper script when the same workflow or friction shows up in at least two sessions.".to_owned());
    push_line(&mut lines, "- Keep the response concise: use at most 3 bullets per section.".to_owned());
    push_line(&mut lines, "- In every section, make each bullet start with the change.".to_owned());
    push_line(&mut lines, "- Do not restate the digest; cite only the minimum evidence needed to justify each recommendation.".to_owned());
    push_line(&mut lines, String::new());
    push_line(&mut lines, "Respond with these sections:".to_owned());
    push_line(&mut lines, "1. Friction to address".to_owned());
    push_line(&mut lines, "2. Suggestions to try".to_owned());
    push_line(&mut lines, "3. Repetition to remove".to_owned());
    push_line(&mut lines, "4. Ship next".to_owned());
    assert(opening@ =~= instructions(sessions as nat)[0]);
    assert(texts(lines@) =~= instructions(sessions as nat));
    lines
}

impl ImproveDigest {
    fn render_statistics(&self, requested_limit: usize) -> (r: Vec<String>)
        ensures
            texts(r@) == self@.statistics(requested_limit as nat),
    {
        let mut lines: Vec<String> = Vec::new();
        let mut analyzed = String::new();
        append_number(&mut analyzed, "- Sessions analyzed: ", self.sessions.len());
        let mut messages = String::new();
        append_number(&mut messages, "- Messages: user ", self.total_user_messages);
        append_number(&mut messages, ", assistant ", self.total_assistant_messages);
        append_number(&mut messages, ", commentary ", self.total_commentary_messages);
        append_number(&mut messages, ", final answers ", self.total_final_answers);
        let mut workload = String::new();
        append_number(&mut workload, "- Workload: tool calls ", self.total_tool_calls);
        append_number(&mut workload, ", exec commands ", self.total_exec_commands);
        append_number(&mut workload, ", failed exec commands ", self.total_failed_exec_commands);
        let mut friction = String::new();
        append_number(&mut friction, "- Friction signals: stream errors ", self.total_stream_errors);
        append_number(&mut friction, ", turn aborts ", self.total_turn_aborts);
        append_number(&mut friction, ", approvals ", self.total_approvals);
        append_number(&mut friction, ", compactions ", self.total_compactions);
        let ghost spec = self@.statistics(requested_limit as nat);
        assert(analyzed@ =~= spec[0]);
        assert(messages@ =~= spec[1]);
        assert(workload@ =~= spec[2]);
        assert(friction@ =~= spec[3]);
        push_line(&mut lines, analyzed);
        push_line(&mut lines, messages);
        push_line(&mut lines, workload);
        push_line(&mut lines, friction);
        if self.sessions.len() < requested_limit {
            let mut note = String::new();
            append_number(&mut note, "- Sample size note: only ", self.sessions.len());
            note.append(" earlier sessions were available.");
            assert(note@ =~= spec[4]);
            push_line(&mut lines, note);
        }
        assert(texts(lines@) =~= spec);
        lines
    }

    fn render_phrases(&self) -> (r: Vec<String>)
        ensures
            texts(r@) == self@.phrase_lines(),
    {
        let mut lines: Vec<String> = Vec::new();
        let entries = &self.repeated_phrases;
        if entries.len() == 0 {
            push_line(
                &mut lines,
                "- No strongly repeated assistant phrasing was detected in the local digest.".to_owned(),
            );
            assert(texts(lines@) =~= self@.phrase_lines());
            return lines;
        }
        let ghost spec = counted(entries@).map_values(|e: Counted| phrase_line(e));
        for i in 0..entries.len()
            invariant
                spec == counted(entries@).map_values(|e: Counted| phrase_line(e)),
                texts(lines@) == spec.take(i as int),
        {
            let mut line = "- ".to_owned();
            line.append(entries[i].0.as_str());
            append_number(&mut line, " (seen ", entries[i].1);
            line.append(" times)");
            assert(line@ == spec[i as int]);
            push_line(&mut lines, line);
            assert(spec.take(i + 1) =~= spec.take(i as int).push(line@));
        }
        assert(spec.take(entries@.len() as int) =~= spec);
        lines
    }

    fn render_friction(&self) -> (r: Vec<String>)
        requires
            forall|i: int|
                0 <= i < self.sessions@.len() ==> (#[trigger] self.sessions@[i])@.friction()
                    <= usize::MAX,
        ensures
            texts(r@) == self@.friction_lines(),
    {
        let sessions = &self.sessions;
        let mut scores: Vec<usize> = Vec::new();
        for i in 0..sessions.len()
            invariant
                sessions@ == self.sessions@,
                forall|i: int|
                    0 <= i < sessions@.len() ==> (#[trigger] sessions@[i])@.friction()
                        <= usize::MAX,
                scores@.len() == i,
                forall|j: int|
                    0 <= j < i ==> #[trigger] scores@[j] == sessions@[j]@.friction(),
        {
            scores.push(sessions[i].friction_score());
        }
        let ranked = FrictionRanking { sessions, scores };
        let chosen = select_first(&ranked, FRICTION_LIMIT);
        let ghost all = models(sessions@);
        let ghost order = position_order(all.len(), stable_before(all, rougher()));
        let ghost sorted = stable_sort(all, rougher());
        let ghost head = first_of(sorted, FRICTION_LIMIT as nat);
        let ghost keep = has_friction();
        proof {
            lemma_rougher_compares();
            lemma_stable_sort(all, rougher());
            assert forall|i: int, j: int|
                0 <= i < j < sorted.len() && keep(#[trigger] sorted[j]) implies keep(
                #[trigger] sorted[i],
            ) by {
                assert(!(rougher())(sorted[j], sorted[i]));
            }
            lemma_filter_first(sorted, keep, FRICTION_LIMIT as nat);
            assert(positions(chosen@).len() == chosen@.len());
            assert(head.take(0).filter(keep) =~= Seq::<SessionModel>::empty()) by {
                reveal(Seq::filter);
            }
        }
        let mut lines: Vec<String> = Vec::new();
        let ghost text_of = |s: SessionModel| s.friction_text();
        for i in 0..chosen.len()
            invariant
                sessions@ == self.sessions@,
                all == models(sessions@),
                forall|i: int|
                    0 <= i < sessions@.len() ==> (#[trigger] sessions@[i])@.friction()
                        <= usize::MAX,
                order.len() == all.len(),
                sorted == order.map_values(|i: int| all[i]),
                head == first_of(sorted, FRICTION_LIMIT as nat),
                keep == has_friction(),
                text_of == (|s: SessionModel| s.friction_text()),
                positions(chosen@) == first_of(order, FRICTION_LIMIT as nat),
                chosen@.len() == head.len(),
                forall|i: int| 0 <= i < chosen@.len() ==> #[trigger] chosen@[i] < sessions@.len(),
                texts(lines@) == head.take(i as int).filter(keep).map_values(text_of),
        {
            let k: usize = chosen[i];
            let session = &sessions[k];
            proof {
                reveal(Seq::filter);
                assert(positions(chosen@)[i as int] == order[i as int]);
                assert(head[i as int] == session@);
                assert(head.take(i + 1).drop_last() =~= head.take(i as int));
            }
            if session.friction_score() > 0 {
                push_line(&mut lines, session.friction_line());
                assert(texts(lines@) =~= head.take(i + 1).filter(keep).map_values(text_of));
            }
        }
        assert(head.take(chosen@.len() as int) =~= head);
        assert(texts(lines@).len() == lines@.len());
        if lines.len() == 0 {
            push_line(
                &mut lines,
                "- No strong friction signal stood out in the sampled sessions.".to_owned(),
            );
        }
        assert(texts(lines@) =~= self@.friction_lines());
        lines
    }

    fn render_summaries(&self) -> (r: Vec<String>)
        ensures
            texts(r@) == self@.summary_lines(),
    {
        let mut lines: Vec<String> = Vec::new();
        let ghost spec = self@.summary_lines();
        for i in 0..self.sessions.len()
            invariant
                spec == self@.summary_lines(),
                texts(lines@) == spec.take(i as int),
        {
            let line = self.sessions[i].summary_line();
            assert(line@ == spec[i as int]);
            push_line(&mut lines, line);
            assert(spec.take(i + 1) =~= spec.take(i as int).push(line@));
        }
        assert(spec.take(self.sessions@.len() as int) =~= spec);
        lines
    }

    /// The prompt, for `requested_limit` sessions asked for.
    pub fn render_prompt(&self, requested_limit: usize) -> (r: String)
        requires
            forall|i: int|
                0 <= i < self.sessions@.len() ==> (#[trigger] self.sessions@[i])@.friction()
                    <= usize::MAX,
        ensures
            r@ == self@.prompt(requested_limit as nat),
    {
        let mut lines = render_instructions(self.sessions.len());
        push_section(&mut lines, "## Aggregate stats", self.render_statistics(requested_limit));
        push_section(
            &mut lines,
            "## Most used tools",
            render_count_section(self.top_tools.as_slice()),
        );
        push_section(
            &mut lines,
            "## Most used shell commands",
            render_count_section(self.top_commands.as_slice()),
        );
        push_section(
            &mut lines,
            "## Most failed shell commands",
            render_count_section(self.top_failed_commands.as_slice()),
        );
        push_section(
            &mut lines,
            "## Common working directories",
            render_count_section(self.top_cwds.as_slice()),
        );
        push_section(&mut lines, "## Repeated assistant phrases", self.render_phrases());
        push_section(&mut lines, "## Highest-friction sessions", self.render_friction());
        push_section(&mut lines, "## Session summaries", self.render_summaries());
        assert(texts(lines@) == self@.prompt_lines(requested_limit as nat));
        join_texts(lines.as_slice(), "\n")
    }
}

// ---------------------------------------------------------------------------------------------
// From recordings to the prompt
// ---------------------------------------------------------------------------------------------
/// A session and its recording.
pub struct RecordedSession {
    pub thread: ThreadItem,
    /// The entries of the recording; none where it could not be read.
    pub items: Option<Vec<RolloutItem>>,
}

/// A session and its recording, if that could be read.
pub struct RecordedModel {
    pub thread: ThreadModel,
    pub items: Option<Seq<RolloutItem>>,
}

impl View for RecordedSession {
    type V = RecordedModel;

    open spec fn view(&self) -> RecordedModel {
        RecordedModel {
            thread: self.thread@,
            items: match self.items {
                Some(items) => Some(items@),
                None => None,
            },
        }
    }
}

pub open spec fn recordings(v: Seq<RecordedSession>) -> Seq<RecordedModel> {
    Seq::new(v.len(), |i: int| v[i]@)
}

/// The analyses of the sessions that could be read.
pub open spec fn analyses(recorded: Seq<RecordedModel>) -> Seq<SessionModel>
    decreases recorded.len(),
{
    if recorded.len() == 0 {
        Seq::empty()
    } else {
        let before = analyses(recorded.drop_last());
        match recorded.last().items {
            Some(items) => before.push(analysis_of(recorded.last().thread, items)),
            None => before,
        }
    }
}

/// The number of entries that could be read.
pub open spec fn entries_read(recorded: Seq<RecordedModel>) -> nat
    decreases recorded.len(),
{
    if recorded.len() == 0 {
        0
    } else {
        entries_read(recorded.drop_last()) + match recorded.last().items {
            Some(items) => items.len(),
            None => 0,
        }
    }
}

/// The prompt for the given sessions, or the reason why there is none.
pub open spec fn prompt_of(recorded: Seq<RecordedModel>, limit: nat) -> Result<Seq<char>, Seq<char>> {
    if recorded.len() == 0 {
        Err("No previous interactive sessions were found to analyze."@)
    } else if analyses(recorded).len() == 0 {
        Err("Unable to read any previous interactive sessions."@)
    } else {
        Ok(digest_of(analyses(recorded)).prompt(limit))
    }
}

/// The text of a result and of an error.
pub open spec fn outcome(r: Result<String, String>) -> Result<Seq<char>, Seq<char>> {
    match r {
        Ok(s) => Ok(s@),
        Err(e) => Err(e@),
    }
}

/// No sum over the analyzed sessions exceeds the number of entries read, and no friction exceeds
/// seven times that number.
pub proof fn law_sums_bounded(recorded: Seq<RecordedModel>)
    ensures
        ({
            let t = tally(analyses(recorded));
            let n = entries_read(recorded);
            &&& t.user_messages <= n
            &&& t.assistant_messages <= n
            &&& t.commentary_messages <= n
            &&& t.final_answers <= n
            &&& t.tool_calls <= n
            &&& t.exec_commands <= n
            &&& t.failed_exec_commands <= n
            &&& t.stream_errors <= n
            &&& t.turn_aborts <= n
            &&& t.approvals <= n
            &&& t.compactions <= n
            &&& t.samples <= n
            &&& forall|name: Seq<char>| #[trigger] count_of(t.tool_counts, name) <= n
            &&& forall|name: Seq<char>| #[trigger] count_of(t.command_counts, name) <= n
            &&& forall|name: Seq<char>| #[trigger] count_of(t.failed_command_counts, name) <= n
            &&& forall|i: int|
                0 <= i < analyses(recorded).len() ==> (#[trigger] analyses(recorded)[i]).friction()
                    <= 7 * n
        }),
    decreases recorded.len(),
{
    if recorded.len() > 0 {
        let part = recorded.drop_last();
        law_sums_bounded(part);
        let before = analyses(part);
        let after = analyses(recorded);
        let n = entries_read(recorded);
        match recorded.last().items {
            Some(items) => {
                let m = analysis_of(recorded.last().thread, items);
                law_bounds(recorded.last().thread, items);
                assert(after.drop_last() =~= before);
                assert(after.last() == m);
                let (s, t) = (tally(before), tally(after));
                assert forall|name: Seq<char>| #[trigger] count_of(t.tool_counts, name) <= n by {
                    assert(count_of(s.tool_counts, name) <= entries_read(part));
                    assert(count_of(m.tool_counts, name) <= items.len());
                }
                assert forall|name: Seq<char>| #[trigger] count_of(t.command_counts, name) <= n by {
                    assert(count_of(s.command_counts, name) <= entries_read(part));
                    assert(count_of(m.command_counts, name) <= items.len());
                }
                assert forall|name: Seq<char>| #[trigger]
                    count_of(t.failed_command_counts, name) <= n by {
                    assert(count_of(s.failed_command_counts, name) <= entries_read(part));
                    assert(count_of(m.failed_command_counts, name) <= items.len());
                }
                assert forall|i: int| 0 <= i < after.len() implies (
                #[trigger] after[i]).friction() <= 7 * n by {
                    if i < before.len() {
                        assert(after[i] == before[i]);
                    }
                }
            },
            None => {},
        }
    }
}

/// The prompt for the given sessions. Sessions whose recording could not be read are left out; where
/// there is no session, or none could be read, the error says so. An entry takes up more than seven
/// bytes, so that every friction fits into a machine word where the entries fit into memory.
pub fn build_improve_prompt(recorded: Vec<RecordedSession>, limit: usize) -> (r: Result<
    String,
    String,
>)
    requires
        7 * entries_read(recordings(recorded@)) <= usize::MAX,
    ensures
        outcome(r) == prompt_of(recordings(recorded@), limit as nat),
{
    let ghost all = recordings(recorded@);
    if recorded.len() == 0 {
        return Err("No previous interactive sessions were found to analyze.".to_owned());
    }
    let mut analyzed: Vec<SessionAnalysis> = Vec::new();
    for session in it: recorded
        invariant
            it.seq() == recorded@,
            all == recordings(recorded@),
            models(analyzed@) == analyses(all.take(it.index() as int)),
    {
        let ghost next = all.take(it.index() + 1);
        assert(next.drop_last() =~= all.take(it.index() as int));
        assert(next.last() == session@);
        let RecordedSession { thread, items } = session;
        match items {
            Some(items) => {
                let ghost before = models(analyzed@);
                let analysis = SessionAnalysis::from_rollout(thread, items);
                analyzed.push(analysis);
                assert(models(analyzed@) =~= before.push(analysis@));
            },
            None => {},
        }
    }
    assert(all.take(all.len() as int) =~= all);
    assert(models(analyzed@).len() == analyzed@.len());
    if analyzed.len() == 0 {
        return Err("Unable to read any previous interactive sessions.".to_owned());
    }
    proof {
        law_sums_bounded(all);
        assert forall|i: int| 0 <= i < analyzed@.len() implies (
        #[trigger] analyzed@[i])@.friction() <= usize::MAX by {
            assert(models(analyzed@)[i].friction() <= 7 * entries_read(all));
        }
        let t = tally(models(analyzed@));
        assert forall|name: Seq<char>| #[trigger]
            count_of(t.tool_counts, name) <= usize::MAX by {}
        assert(t.fits());
    }
    let ghost kept = models(analyzed@);
    let digest = ImproveDigest::from_sessions(analyzed);
    assert forall|i: int| 0 <= i < digest.sessions@.len() implies (
    #[trigger] digest.sessions@[i])@.friction() <= usize::MAX by {
        assert(digest@.sessions == kept);
        assert(models(digest.sessions@)[i] == kept[i]);
        assert(kept[i].friction() <= 7 * entries_read(all));
    }
    Ok(digest.render_prompt(limit))
}

} // verus!
