//! The totals and the lists of a digest, stated on the sessions themselves.
use crate::counts::{added, count_of, outranks, top, Counted, Counts};
use crate::digest::{digest_of, tally};
use crate::laws::counts::law_top_by_count;
use crate::laws::digest::{all_samples, first_use, law_repeated_phrases, uses};
use crate::phrase::key_of;
use crate::session::SessionModel;
use crate::text::text_lt;
use vstd::prelude::*;

verus! {

/// The sum of a number over the sessions.
pub open spec fn sum_of(sessions: Seq<SessionModel>, field: spec_fn(SessionModel) -> nat) -> nat
    decreases sessions.len(),
{
    if sessions.len() == 0 {
        0
    } else {
        sum_of(sessions.drop_last(), field) + field(sessions.last())
    }
}

/// Every total of a digest is the sum of the count of that name over its sessions.
pub proof fn law_totals(sessions: Seq<SessionModel>)
    ensures
        ({
            let d = digest_of(sessions);
            &&& d.sessions == sessions
            &&& d.total_user_messages == sum_of(sessions, |s: SessionModel| s.user_messages)
            &&& d.total_assistant_messages == sum_of(
                sessions,
                |s: SessionModel| s.assistant_messages,
            )
            &&& d.total_commentary_messages == sum_of(
                sessions,
                |s: SessionModel| s.commentary_messages,
            )
            &&& d.total_final_answers == sum_of(sessions, |s: SessionModel| s.final_answers)
            &&& d.total_tool_calls == sum_of(sessions, |s: SessionModel| s.tool_calls)
            &&& d.total_exec_commands == sum_of(sessions, |s: SessionModel| s.exec_commands)
            &&& d.total_failed_exec_commands == sum_of(
                sessions,
                |s: SessionModel| s.failed_exec_commands,
            )
            &&& d.total_stream_errors == sum_of(sessions, |s: SessionModel| s.stream_errors)
            &&& d.total_turn_aborts == sum_of(sessions, |s: SessionModel| s.turn_aborts)
            &&& d.total_approvals == sum_of(sessions, |s: SessionModel| s.approvals)
            &&& d.total_compactions == sum_of(sessions, |s: SessionModel| s.compactions)
        }),
    decreases sessions.len(),
{
    if sessions.len() > 0 {
        law_totals(sessions.drop_last());
    }
}

// ---------------------------------------------------------------------------------------------
// Names
// ---------------------------------------------------------------------------------------------
/// Whether `shown` lists names with their totals, the highest first and equal totals by name: every name
/// that is listed occurs, and one that occurs is left out only where `limit` names with higher totals, or
/// with the same total and an earlier name, are listed.
pub open spec fn shows_highest(
    shown: Seq<Counted>,
    limit: nat,
    occurs: spec_fn(Seq<char>) -> bool,
    total: spec_fn(Seq<char>) -> nat,
) -> bool {
    &&& shown.len() <= limit
    &&& forall|i: int|
        0 <= i < shown.len() ==> occurs((#[trigger] shown[i]).0) && shown[i].1 == total(shown[i].0)
    &&& forall|i: int, j: int|
        0 <= i < j < shown.len() ==> {
            ||| (#[trigger] shown[i]).1 > (#[trigger] shown[j]).1
            ||| shown[i].1 == shown[j].1 && text_lt(shown[i].0, shown[j].0)
        }
    &&& forall|name: Seq<char>| #[trigger]
        occurs(name) && (forall|l: int| 0 <= l < shown.len() ==> (#[trigger] shown[l]).0 != name)
            ==> {
            &&& shown.len() == limit
            &&& forall|i: int|
                0 <= i < shown.len() ==> {
                    ||| (#[trigger] shown[i]).1 > total(name)
                    ||| shown[i].1 == total(name) && text_lt(shown[i].0, name)
                }
        }
}

/// Whether a name occurs in the counts of one of the sessions.
pub open spec fn occurs_in(
    sessions: Seq<SessionModel>,
    counts: spec_fn(SessionModel) -> Counts,
    name: Seq<char>,
) -> bool {
    exists|i: int| 0 <= i < sessions.len() && counts(#[trigger] sessions[i]).contains_key(name)
}

/// Holds of the names that occur in the given counts of the sessions.
pub open spec fn occurring(
    sessions: Seq<SessionModel>,
    counts: spec_fn(SessionModel) -> Counts,
) -> spec_fn(Seq<char>) -> bool {
    |name: Seq<char>| occurs_in(sessions, counts, name)
}

/// How often a name occurs in the given counts of all the sessions together.
pub open spec fn summed(
    sessions: Seq<SessionModel>,
    counts: spec_fn(SessionModel) -> Counts,
) -> spec_fn(Seq<char>) -> nat {
    |name: Seq<char>| sum_of(sessions, |s: SessionModel| count_of(counts(s), name))
}

spec fn merged(sessions: Seq<SessionModel>, counts: spec_fn(SessionModel) -> Counts) -> Counts
    decreases sessions.len(),
{
    if sessions.len() == 0 {
        Map::empty()
    } else {
        added(merged(sessions.drop_last(), counts), counts(sessions.last()))
    }
}

proof fn lemma_merged(
    sessions: Seq<SessionModel>,
    counts: spec_fn(SessionModel) -> Counts,
    name: Seq<char>,
)
    ensures
        merged(sessions, counts).contains_key(name) <==> occurs_in(sessions, counts, name),
        count_of(merged(sessions, counts), name) == sum_of(
            sessions,
            |s: SessionModel| count_of(counts(s), name),
        ),
    decreases sessions.len(),
{
    if sessions.len() > 0 {
        let rest = sessions.drop_last();
        lemma_merged(rest, counts, name);
        if occurs_in(rest, counts, name) {
            let i = choose|i: int|
                0 <= i < rest.len() && counts(#[trigger] rest[i]).contains_key(name);
            assert(counts(sessions[i]).contains_key(name));
        }
        if occurs_in(sessions, counts, name) {
            let i = choose|i: int|
                0 <= i < sessions.len() && counts(#[trigger] sessions[i]).contains_key(name);
            if i < rest.len() {
                assert(counts(rest[i]).contains_key(name));
            }
        }
        if counts(sessions.last()).contains_key(name) {
            assert(counts(sessions[sessions.len() - 1]).contains_key(name));
        }
    }
}

proof fn lemma_merged_finite(
    sessions: Seq<SessionModel>,
    counts: spec_fn(SessionModel) -> Counts,
)
    requires
        forall|i: int| 0 <= i < sessions.len() ==> counts(#[trigger] sessions[i]).dom().finite(),
    ensures
        merged(sessions, counts).dom().finite(),
    decreases sessions.len(),
{
    if sessions.len() > 0 {
        let rest = sessions.drop_last();
        assert forall|i: int| 0 <= i < rest.len() implies counts(
            #[trigger] rest[i],
        ).dom().finite() by {
            assert(counts(sessions[i]).dom().finite());
        }
        lemma_merged_finite(rest, counts);
        assert(counts(sessions[sessions.len() - 1]).dom().finite());
        assert(merged(sessions, counts).dom() =~= merged(rest, counts).dom().union(
            counts(sessions.last()).dom(),
        ));
    }
}

proof fn lemma_tally_merged(sessions: Seq<SessionModel>)
    ensures
        tally(sessions).tool_counts == merged(sessions, |s: SessionModel| s.tool_counts),
        tally(sessions).command_counts == merged(sessions, |s: SessionModel| s.command_counts),
        tally(sessions).failed_command_counts == merged(
            sessions,
            |s: SessionModel| s.failed_command_counts,
        ),
    decreases sessions.len(),
{
    if sessions.len() > 0 {
        lemma_tally_merged(sessions.drop_last());
    }
}

/// The highest counts of a finite map are shown as they should be.
proof fn lemma_top_shows(
    m: Counts,
    limit: nat,
    occurs: spec_fn(Seq<char>) -> bool,
    total: spec_fn(Seq<char>) -> nat,
)
    requires
        m.dom().finite(),
        forall|name: Seq<char>| #[trigger] m.contains_key(name) <==> occurs(name),
        forall|name: Seq<char>| #[trigger] m.contains_key(name) ==> m[name] == total(name),
    ensures
        shows_highest(top(m, limit), limit, occurs, total),
{
    let t = top(m, limit);
    law_top_by_count(m, limit);
    assert forall|i: int| 0 <= i < t.len() implies occurs((#[trigger] t[i]).0) && t[i].1 == total(
        t[i].0,
    ) by {
        assert(m.contains_key(t[i].0));
    }
    assert forall|name: Seq<char>| #[trigger]
        occurs(name) && (forall|l: int| 0 <= l < t.len() ==> (#[trigger] t[l]).0 != name) implies {
        &&& t.len() == limit
        &&& forall|i: int|
            0 <= i < t.len() ==> {
                ||| (#[trigger] t[i]).1 > total(name)
                ||| t[i].1 == total(name) && text_lt(t[i].0, name)
            }
    } by {
        assert(m.contains_key(name));
        if t.len() < limit {
            lemma_all_names(m, t, name);
        }
    }
}

/// A list of different names that is as long as there are names holds every name.
proof fn lemma_all_names(m: Counts, t: Seq<Counted>, name: Seq<char>)
    requires
        m.dom().finite(),
        t.len() == m.dom().len(),
        forall|i: int| 0 <= i < t.len() ==> m.contains_key((#[trigger] t[i]).0),
        forall|i: int, j: int|
            0 <= i < j < t.len() ==> {
                ||| (#[trigger] t[i]).1 > (#[trigger] t[j]).1
                ||| t[i].1 == t[j].1 && text_lt(t[i].0, t[j].0)
            },
        forall|i: int| 0 <= i < t.len() ==> m[(#[trigger] t[i]).0] == t[i].1,
        m.contains_key(name),
    ensures
        exists|l: int| 0 <= l < t.len() && (#[trigger] t[l]).0 == name,
{
    let names = Seq::new(t.len(), |i: int| t[i].0);
    assert forall|i: int, j: int|
        0 <= i < names.len() && 0 <= j < names.len() && i != j implies names[i] != names[j] by {
        crate::text::lemma_text_lt_irreflexive(names[i]);
        if i < j {
            assert(t[i].1 > t[j].1 || t[i].1 == t[j].1 && text_lt(t[i].0, t[j].0));
        } else {
            assert(t[j].1 > t[i].1 || t[j].1 == t[i].1 && text_lt(t[j].0, t[i].0));
        }
    }
    names.unique_seq_to_set();
    assert(names.to_set().subset_of(m.dom())) by {
        assert forall|x: Seq<char>| names.to_set().contains(x) implies m.dom().contains(x) by {
            let i = choose|i: int| 0 <= i < names.len() && names[i] == x;
            assert(m.contains_key(t[i].0));
        }
    }
    vstd::set_lib::lemma_subset_equality(names.to_set(), m.dom());
    assert(names.to_set().contains(name));
    let i = choose|i: int| 0 <= i < names.len() && names[i] == name;
    assert(t[i].0 == name);
}

proof fn lemma_merged_shows(
    sessions: Seq<SessionModel>,
    counts: spec_fn(SessionModel) -> Counts,
    limit: nat,
)
    requires
        forall|i: int| 0 <= i < sessions.len() ==> counts(#[trigger] sessions[i]).dom().finite(),
    ensures
        shows_highest(
            top(merged(sessions, counts), limit),
            limit,
            occurring(sessions, counts),
            summed(sessions, counts),
        ),
{
    let m = merged(sessions, counts);
    let occurs = occurring(sessions, counts);
    let total = summed(sessions, counts);
    lemma_merged_finite(sessions, counts);
    assert forall|name: Seq<char>| #[trigger] m.contains_key(name) <==> occurs(name) by {
        lemma_merged(sessions, counts, name);
    }
    assert forall|name: Seq<char>| #[trigger] m.contains_key(name) implies m[name] == total(
        name,
    ) by {
        lemma_merged(sessions, counts, name);
    }
    lemma_top_shows(m, limit, occurs, total);
}

/// The tools of a digest are the eight that were called most often in all of its sessions together.
pub proof fn law_top_tools(sessions: Seq<SessionModel>)
    requires
        forall|i: int|
            0 <= i < sessions.len() ==> (#[trigger] sessions[i]).tool_counts.dom().finite(),
    ensures
        shows_highest(
            digest_of(sessions).top_tools,
            8,
            occurring(sessions, |s: SessionModel| s.tool_counts),
            summed(sessions, |s: SessionModel| s.tool_counts),
        ),
{
    lemma_tally_merged(sessions);
    lemma_merged_shows(sessions, |s: SessionModel| s.tool_counts, 8);
}

/// The commands of a digest are the eight that were executed most often in all of its sessions
/// together.
pub proof fn law_top_commands(sessions: Seq<SessionModel>)
    requires
        forall|i: int|
            0 <= i < sessions.len() ==> (#[trigger] sessions[i]).command_counts.dom().finite(),
    ensures
        shows_highest(
            digest_of(sessions).top_commands,
            8,
            occurring(sessions, |s: SessionModel| s.command_counts),
            summed(sessions, |s: SessionModel| s.command_counts),
        ),
{
    lemma_tally_merged(sessions);
    lemma_merged_shows(sessions, |s: SessionModel| s.command_counts, 8);
}

/// The failed commands of a digest are the eight that failed most often in all of its sessions
/// together.
pub proof fn law_top_failed_commands(sessions: Seq<SessionModel>)
    requires
        forall|i: int|
            0 <= i < sessions.len() ==> (#[trigger] sessions[i]).failed_command_counts.dom().finite(),
    ensures
        shows_highest(
            digest_of(sessions).top_failed_commands,
            8,
            occurring(sessions, |s: SessionModel| s.failed_command_counts),
            summed(sessions, |s: SessionModel| s.failed_command_counts),
        ),
{
    lemma_tally_merged(sessions);
    lemma_merged_shows(sessions, |s: SessionModel| s.failed_command_counts, 8);
}

/// Holds of the working directories of the sessions.
pub open spec fn worked_in(sessions: Seq<SessionModel>) -> spec_fn(Seq<char>) -> bool {
    |cwd: Seq<char>|
        exists|i: int| 0 <= i < sessions.len() && (#[trigger] sessions[i]).cwd == Some(cwd)
}

/// The number of sessions with a working directory.
pub open spec fn sessions_in(sessions: Seq<SessionModel>) -> spec_fn(Seq<char>) -> nat {
    |cwd: Seq<char>| sessions.filter(|s: SessionModel| s.cwd == Some(cwd)).len()
}

proof fn lemma_cwds(sessions: Seq<SessionModel>, cwd: Seq<char>)
    ensures
        tally(sessions).cwd_counts.dom().finite(),
        tally(sessions).cwd_counts.contains_key(cwd) <==> worked_in(sessions)(cwd),
        count_of(tally(sessions).cwd_counts, cwd) == sessions_in(sessions)(cwd),
    decreases sessions.len(),
{
    reveal(Seq::filter);
    if sessions.len() > 0 {
        let rest = sessions.drop_last();
        let n = sessions.len() - 1;
        lemma_cwds(rest, cwd);
        if worked_in(rest)(cwd) {
            let i = choose|i: int| 0 <= i < rest.len() && (#[trigger] rest[i]).cwd == Some(cwd);
            assert(sessions[i].cwd == Some(cwd));
        }
        if worked_in(sessions)(cwd) {
            let i = choose|i: int|
                0 <= i < sessions.len() && (#[trigger] sessions[i]).cwd == Some(cwd);
            if i < n {
                assert(rest[i].cwd == Some(cwd));
            }
        }
        if sessions[n].cwd == Some(cwd) {
            assert(worked_in(sessions)(cwd));
        }
    }
}

/// The working directories of a digest are the five in which the most of its sessions ran.
pub proof fn law_top_cwds(sessions: Seq<SessionModel>)
    ensures
        shows_highest(
            digest_of(sessions).top_cwds,
            5,
            worked_in(sessions),
            sessions_in(sessions),
        ),
{
    let m = tally(sessions).cwd_counts;
    lemma_cwds(sessions, Seq::empty());
    assert forall|cwd: Seq<char>| #[trigger] m.contains_key(cwd) <==> worked_in(sessions)(cwd) by {
        lemma_cwds(sessions, cwd);
    }
    assert forall|cwd: Seq<char>| #[trigger] m.contains_key(cwd) implies m[cwd] == sessions_in(
        sessions,
    )(cwd) by {
        lemma_cwds(sessions, cwd);
    }
    lemma_top_shows(m, 5, worked_in(sessions), sessions_in(sessions));
}

/// The phrases of a digest are the eight that were used most often, of those that were used at least
/// twice: in descending order of their uses, and by their first samples where these are equal.
pub proof fn law_phrases_by_use(sessions: Seq<SessionModel>)
    ensures
        ({
            let shown = digest_of(sessions).repeated_phrases;
            let samples = all_samples(sessions);
            &&& shown.len() <= 8
            &&& forall|i: int|
                0 <= i < shown.len() ==> {
                    &&& (#[trigger] shown[i]).1 >= 2
                    &&& key_of(shown[i].0) is Some
                    &&& shown[i].1 == uses(samples, key_of(shown[i].0)->0)
                    &&& first_use(samples, key_of(shown[i].0)->0, shown[i].0)
                }
            &&& forall|i: int, j: int|
                0 <= i < j < shown.len() ==> {
                    ||| (#[trigger] shown[i]).1 > (#[trigger] shown[j]).1
                    ||| shown[i].1 == shown[j].1 && text_lt(shown[i].0, shown[j].0)
                }
            &&& forall|key: Seq<char>, sample: Seq<char>, i: int|
                uses(samples, key) >= 2 && #[trigger] first_use(samples, key, sample) && 0 <= i
                    < shown.len() && !shown.contains((sample, uses(samples, key))) ==> {
                    ||| (#[trigger] shown[i]).1 > uses(samples, key)
                    ||| shown[i].1 == uses(samples, key) && text_lt(shown[i].0, sample)
                }
            &&& forall|key: Seq<char>| #[trigger]
                uses(samples, key) >= 2 && shown.len() < 8 ==> exists|i: int|
                    0 <= i < shown.len() && key_of((#[trigger] shown[i]).0) == Some(key)
        }),
{
    let shown = digest_of(sessions).repeated_phrases;
    let samples = all_samples(sessions);
    law_repeated_phrases(sessions);
    assert forall|i: int, j: int| 0 <= i < j < shown.len() implies {
        ||| (#[trigger] shown[i]).1 > (#[trigger] shown[j]).1
        ||| shown[i].1 == shown[j].1 && text_lt(shown[i].0, shown[j].0)
    } by {
        assert((outranks())(shown[i], shown[j]));
    }
    assert forall|key: Seq<char>, sample: Seq<char>, i: int|
        uses(samples, key) >= 2 && #[trigger] first_use(samples, key, sample) && 0 <= i
            < shown.len() && !shown.contains((sample, uses(samples, key))) implies {
        ||| (#[trigger] shown[i]).1 > uses(samples, key)
        ||| shown[i].1 == uses(samples, key) && text_lt(shown[i].0, sample)
    } by {
        assert((outranks())(shown[i], (sample, uses(samples, key))));
    }
}

} // verus!
