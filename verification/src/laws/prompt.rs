//! What holds of the prompt.
use crate::digest::DigestModel;
use crate::laws::session::{consistent, law_consistent};
use crate::order::{at_most, lemma_stable_sort, stable_sort};
use crate::prompt::{
    analyses, has_friction, lemma_rougher_compares, prompt_of, rougher, roughest, RecordedModel,
};
use crate::session::{analysis_of, opened, SessionModel};
use crate::text::join;
use vstd::prelude::*;

verus! {

/// Where a session is recorded makes no difference to the prompt.
pub proof fn law_prompt_ignores_paths(a: Seq<RecordedModel>, b: Seq<RecordedModel>, limit: nat)
    requires
        a.len() == b.len(),
        forall|i: int|
            0 <= i < a.len() ==> {
                &&& (#[trigger] a[i]).items == b[i].items
                &&& a[i].thread.created_at == b[i].thread.created_at
                &&& a[i].thread.first_user_message == b[i].thread.first_user_message
                &&& a[i].thread.cwd == b[i].thread.cwd
            },
    ensures
        prompt_of(a, limit) == prompt_of(b, limit),
{
    lemma_same_analyses(a, b);
}

proof fn lemma_same_analyses(a: Seq<RecordedModel>, b: Seq<RecordedModel>)
    requires
        a.len() == b.len(),
        forall|i: int|
            0 <= i < a.len() ==> {
                &&& (#[trigger] a[i]).items == b[i].items
                &&& a[i].thread.created_at == b[i].thread.created_at
                &&& a[i].thread.first_user_message == b[i].thread.first_user_message
                &&& a[i].thread.cwd == b[i].thread.cwd
            },
    ensures
        analyses(a) == analyses(b),
    decreases a.len(),
{
    if a.len() > 0 {
        let (a1, b1) = (a.drop_last(), b.drop_last());
        assert forall|i: int| 0 <= i < a1.len() implies {
            &&& (#[trigger] a1[i]).items == b1[i].items
            &&& a1[i].thread.created_at == b1[i].thread.created_at
            &&& a1[i].thread.first_user_message == b1[i].thread.first_user_message
            &&& a1[i].thread.cwd == b1[i].thread.cwd
        } by {
            assert(a[i].items == b[i].items);
        }
        lemma_same_analyses(a1, b1);
        let n = a.len() - 1;
        assert(a[n].items == b[n].items);
        assert(opened(a[n].thread) == opened(b[n].thread));
    }
}

/// Exactly the sessions that could be read are analyzed, in the order in which they were given.
pub proof fn law_analyses(recorded: Seq<RecordedModel>)
    ensures
        analyses(recorded) == recorded.filter(readable()).map_values(
            |r: RecordedModel| analysis_of(r.thread, r.items->0),
        ),
        forall|i: int|
            0 <= i < analyses(recorded).len() ==> consistent(#[trigger] analyses(recorded)[i]),
    decreases recorded.len(),
{
    reveal(Seq::filter);
    let analyze = |r: RecordedModel| analysis_of(r.thread, r.items->0);
    if recorded.len() == 0 {
        assert(analyses(recorded) =~= recorded.filter(readable()).map_values(analyze));
    } else {
        let rest = recorded.drop_last();
        let last = recorded.last();
        law_analyses(rest);
        if last.items is Some {
            law_consistent(last.thread, last.items->0);
            assert(analyses(recorded) == analyses(rest).push(analyze(last)));
        }
        assert(analyses(recorded) =~= recorded.filter(readable()).map_values(analyze));
    }
}

/// Holds of the sessions whose recording could be read.
pub open spec fn readable() -> spec_fn(RecordedModel) -> bool {
    |r: RecordedModel| r.items is Some
}

/// There is a prompt exactly where a recording could be read.
pub proof fn law_prompt_exists(recorded: Seq<RecordedModel>, limit: nat)
    ensures
        prompt_of(recorded, limit) is Ok <==> exists|i: int|
            0 <= i < recorded.len() && (#[trigger] recorded[i]).items is Some,
{
    let kept = recorded.filter(readable());
    law_analyses(recorded);
    if kept.len() > 0 {
        recorded.lemma_filter_pred(readable(), 0);
        recorded.lemma_filter_contains_rev(readable(), kept[0]);
        let i = choose|i: int| 0 <= i < recorded.len() && recorded[i] == kept[0];
        assert(recorded[i].items is Some);
    }
    if exists|i: int| 0 <= i < recorded.len() && (#[trigger] recorded[i]).items is Some {
        let i = choose|i: int| 0 <= i < recorded.len() && (#[trigger] recorded[i]).items is Some;
        recorded.lemma_filter_contains(readable(), i);
    }
}

/// Every analyzed session is summed up by a line of the prompt.
pub proof fn law_prompt_lists_sessions(d: DigestModel, requested_limit: nat, i: int)
    requires
        0 <= i < d.sessions.len(),
    ensures
        d.prompt_lines(requested_limit).contains(d.sessions[i].summary()),
{
    let lines = d.prompt_lines(requested_limit);
    let last = d.summary_lines();
    let at = lines.len() - last.len() + i;
    assert(last[i] == d.sessions[i].summary());
    assert(lines[at] == last[i]);
}

/// Whether `t` stands somewhere in `s`.
pub open spec fn holds_text(s: Seq<char>, t: Seq<char>) -> bool {
    exists|at: int| 0 <= at <= s.len() - t.len() && #[trigger] s.subrange(at, at + t.len()) == t
}

proof fn lemma_holds_between(a: Seq<char>, t: Seq<char>, b: Seq<char>)
    ensures
        holds_text(a + t + b, t),
{
    let at = a.len() as int;
    assert((a + t + b).subrange(at, at + t.len()) =~= t);
}

proof fn lemma_holds_more(s: Seq<char>, t: Seq<char>, more: Seq<char>)
    requires
        holds_text(s, t),
    ensures
        holds_text(s + more, t),
{
    let at = choose|at: int|
        0 <= at <= s.len() - t.len() && #[trigger] s.subrange(at, at + t.len()) == t;
    assert((s + more).subrange(at, at + t.len()) =~= s.subrange(at, at + t.len()));
}

proof fn lemma_holds_part(s: Seq<char>, t: Seq<char>, u: Seq<char>)
    requires
        holds_text(s, t),
        holds_text(t, u),
    ensures
        holds_text(s, u),
{
    let i = choose|i: int|
        0 <= i <= s.len() - t.len() && #[trigger] s.subrange(i, i + t.len()) == t;
    let j = choose|j: int|
        0 <= j <= t.len() - u.len() && #[trigger] t.subrange(j, j + u.len()) == u;
    assert(s.subrange(i + j, i + j + u.len()) =~= t.subrange(j, j + u.len()));
}

proof fn lemma_join_holds(parts: Seq<Seq<char>>, sep: Seq<char>, i: int)
    requires
        0 <= i < parts.len(),
    ensures
        holds_text(join(parts, sep), parts[i]),
    decreases parts.len(),
{
    let none = Seq::<char>::empty();
    if parts.len() == 1 {
        lemma_holds_between(none, parts[0], none);
        assert(none + parts[0] + none =~= parts[0]);
    } else {
        let head = join(parts.drop_last(), sep);
        if i == parts.len() - 1 {
            lemma_holds_between(head + sep, parts[i], none);
            assert(head + sep + parts[i] + none =~= join(parts, sep));
        } else {
            lemma_join_holds(parts.drop_last(), sep, i);
            lemma_holds_more(head, parts[i], sep + parts.last());
            assert(head + (sep + parts.last()) =~= join(parts, sep));
        }
    }
}

proof fn lemma_summary_holds(m: SessionModel)
    ensures
        holds_text(m.summary(), m.created_at),
        holds_text(m.summary(), m.preview),
        m.cwd is Some ==> holds_text(m.summary(), m.cwd->0),
{
    let line = m.summary();
    let a = "- "@;
    let b = " | "@;
    let counts = line.skip((a.len() + m.created_at.len() + b.len() + m.preview.len()) as int);
    assert(line =~= a + m.created_at + b + m.preview + counts);
    assert(line =~= a + m.created_at + (b + m.preview + counts));
    lemma_holds_between(a, m.created_at, b + m.preview + counts);
    lemma_holds_between(a + m.created_at + b, m.preview, counts);
    if let Some(cwd) = m.cwd {
        let none = Seq::<char>::empty();
        let head = line.take(line.len() - cwd.len());
        assert(line =~= head + cwd + none);
        lemma_holds_between(head, cwd, none);
    }
}

/// The prompt shows every analyzed session: it holds its time, its preview and its working directory.
pub proof fn law_prompt_shows_sessions(d: DigestModel, requested_limit: nat, i: int)
    requires
        0 <= i < d.sessions.len(),
    ensures
        holds_text(d.prompt(requested_limit), d.sessions[i].created_at),
        holds_text(d.prompt(requested_limit), d.sessions[i].preview),
        d.sessions[i].cwd is Some ==> holds_text(
            d.prompt(requested_limit),
            d.sessions[i].cwd->0,
        ),
{
    let lines = d.prompt_lines(requested_limit);
    let m = d.sessions[i];
    law_prompt_lists_sessions(d, requested_limit, i);
    let at = choose|at: int| 0 <= at < lines.len() && lines[at] == m.summary();
    lemma_join_holds(lines, "\n"@, at);
    lemma_summary_holds(m);
    lemma_holds_part(d.prompt(requested_limit), m.summary(), m.created_at);
    lemma_holds_part(d.prompt(requested_limit), m.summary(), m.preview);
    if let Some(cwd) = m.cwd {
        lemma_holds_part(d.prompt(requested_limit), m.summary(), cwd);
    }
}

proof fn lemma_filter_multiset<T>(s: Seq<T>, keep: spec_fn(T) -> bool)
    ensures
        s.filter(keep).to_multiset() == s.to_multiset().filter(keep),
    decreases s.len(),
{
    broadcast use vstd::seq_lib::group_to_multiset_ensures;
    broadcast use vstd::multiset::group_multiset_axioms;

    reveal(Seq::filter);
    if s.len() == 0 {
        assert(s.filter(keep) =~= s);
        assert(s.filter(keep).to_multiset() =~= s.to_multiset().filter(keep));
    } else {
        let rest = s.drop_last();
        lemma_filter_multiset(rest, keep);
        assert(s =~= rest.push(s.last()));
        assert(s.filter(keep).to_multiset() =~= s.to_multiset().filter(keep));
    }
}

/// The sessions that are listed for their friction are at most eight, each of them had some, and none
/// comes before a rougher one. None is left out while there is room, and one that is left out is not
/// rougher than any that is listed.
pub proof fn law_roughest(sessions: Seq<SessionModel>)
    ensures
        roughest(sessions).len() == at_most(8, sessions.filter(has_friction()).len()),
        forall|i: int| 0 <= i < roughest(sessions).len() ==> (#[trigger] roughest(sessions)[i]).friction() > 0,
        forall|i: int, j: int|
            0 <= i < j < roughest(sessions).len() ==> !(rougher())(
                #[trigger] roughest(sessions)[j],
                #[trigger] roughest(sessions)[i],
            ),
        roughest(sessions).to_multiset().subset_of(
            sessions.filter(has_friction()).to_multiset(),
        ),
        forall|k: int, i: int|
            0 <= k < sessions.len() && (#[trigger] sessions[k]).friction() > 0 && !roughest(
                sessions,
            ).contains(sessions[k]) && 0 <= i < roughest(sessions).len() ==> !(rougher())(
                sessions[k],
                #[trigger] roughest(sessions)[i],
            ),
{
    broadcast use vstd::seq_lib::group_to_multiset_ensures;
    broadcast use vstd::multiset::group_multiset_axioms;

    let keep = has_friction();
    let sorted = stable_sort(sessions, rougher());
    let found = sorted.filter(keep);
    let r = roughest(sessions);
    lemma_rougher_compares();
    lemma_stable_sort(sessions, rougher());
    lemma_filter_multiset(sessions, keep);
    lemma_filter_multiset(sorted, keep);
    assert(found.to_multiset() == sessions.filter(keep).to_multiset());
    assert(found.len() == found.to_multiset().len());
    assert(sessions.filter(keep).len() == sessions.filter(keep).to_multiset().len());
    assert forall|i: int| 0 <= i < r.len() implies (#[trigger] r[i]).friction() > 0 by {
        sorted.lemma_filter_pred(keep, i);
    }
    lemma_filter_sorted(sorted, keep);
    assert(found =~= r + found.skip(r.len() as int));
    vstd::seq_lib::lemma_multiset_commutative(r, found.skip(r.len() as int));
    assert forall|k: int, i: int|
        0 <= k < sessions.len() && (#[trigger] sessions[k]).friction() > 0 && !r.contains(
            sessions[k],
        ) && 0 <= i < r.len() implies !(rougher())(sessions[k], #[trigger] r[i]) by {
        let s = sessions[k];
        assert(sessions.contains(s));
        assert(sessions.to_multiset().count(s) > 0);
        assert(sorted.contains(s));
        sorted.lemma_filter_contains(keep, choose|at: int| 0 <= at < sorted.len() && sorted[at] == s);
        assert(found.contains(s));
        let l = choose|l: int| 0 <= l < found.len() && found[l] == s;
        if l < r.len() {
            assert(r[l] == s);
        }
        assert(r[i] == found[i]);
    }
}

/// Filtering keeps the order.
proof fn lemma_filter_sorted(s: Seq<SessionModel>, keep: spec_fn(SessionModel) -> bool)
    requires
        forall|i: int, j: int| 0 <= i < j < s.len() ==> !(rougher())(#[trigger] s[j], #[trigger] s[i]),
    ensures
        forall|i: int, j: int|
            0 <= i < j < s.filter(keep).len() ==> !(rougher())(
                #[trigger] s.filter(keep)[j],
                #[trigger] s.filter(keep)[i],
            ),
    decreases s.len(),
{
    reveal(Seq::filter);
    if s.len() > 0 {
        let rest = s.drop_last();
        assert forall|i: int, j: int| 0 <= i < j < rest.len() implies !(rougher())(
            #[trigger] rest[j],
            #[trigger] rest[i],
        ) by {
            assert(!(rougher())(s[j], s[i]));
        }
        lemma_filter_sorted(rest, keep);
        let before = rest.filter(keep);
        let after = s.filter(keep);
        if keep(s.last()) {
            assert(after =~= before.push(s.last()));
        } else {
            assert(after == before);
        }
        assert forall|i: int, j: int| 0 <= i < j < after.len() implies !(rougher())(
            #[trigger] after[j],
            #[trigger] after[i],
        ) by {
            if j < before.len() {
                assert(!(rougher())(before[j], before[i]));
            } else {
                rest.lemma_filter_contains_rev(keep, before[i]);
                let k = choose|k: int| 0 <= k < rest.len() && rest[k] == before[i];
                assert(!(rougher())(s[s.len() - 1], s[k]));
            }
        }
    }
}

} // verus!
