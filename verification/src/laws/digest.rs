//! What holds of the digest of many sessions.
use crate::counts::{count_of, outranks, ranking, Counted};
use crate::digest::{digest_of, repeated, tally, with_samples, Phrases, Tally};
use crate::laws::counts::law_ranking;
use crate::laws::session::consistent;
use crate::order::ascends;
use crate::phrase::key_of;
use crate::session::SessionModel;
use vstd::prelude::*;

verus! {

/// The phrase samples of the sessions, one session after the other.
pub open spec fn all_samples(sessions: Seq<SessionModel>) -> Seq<Seq<char>>
    decreases sessions.len(),
{
    if sessions.len() == 0 {
        Seq::empty()
    } else {
        all_samples(sessions.drop_last()) + sessions.last().assistant_phrase_samples
    }
}

/// How many of the samples have the given key.
pub open spec fn uses(samples: Seq<Seq<char>>, key: Seq<char>) -> nat
    decreases samples.len(),
{
    if samples.len() == 0 {
        0
    } else {
        uses(samples.drop_last(), key) + (if key_of(samples.last()) == Some(key) {
            1nat
        } else {
            0
        })
    }
}

/// Whether `sample` is the first of the samples with the given key.
pub open spec fn first_use(samples: Seq<Seq<char>>, key: Seq<char>, sample: Seq<char>) -> bool {
    exists|i: int|
        0 <= i < samples.len() && #[trigger] samples[i] == sample && key_of(sample) == Some(key)
            && forall|l: int| 0 <= l < i ==> key_of(#[trigger] samples[l]) != Some(key)
}

proof fn lemma_with_samples_concat(m: Phrases, a: Seq<Seq<char>>, b: Seq<Seq<char>>)
    ensures
        with_samples(m, a + b) == with_samples(with_samples(m, a), b),
    decreases b.len(),
{
    if b.len() == 0 {
        assert(a + b =~= a);
    } else {
        assert((a + b).drop_last() =~= a + b.drop_last());
        assert((a + b).last() == b.last());
        lemma_with_samples_concat(m, a, b.drop_last());
    }
}

/// The phrases of the sessions are those of all their samples, one session after the other.
pub proof fn law_phrases_of_sessions(sessions: Seq<SessionModel>)
    ensures
        tally(sessions).phrases == with_samples(Map::empty(), all_samples(sessions)),
        tally(sessions).samples == all_samples(sessions).len(),
    decreases sessions.len(),
{
    if sessions.len() > 0 {
        law_phrases_of_sessions(sessions.drop_last());
        lemma_with_samples_concat(
            Map::empty(),
            all_samples(sessions.drop_last()),
            sessions.last().assistant_phrase_samples,
        );
    }
}

/// A phrase is known by its key: it is counted once for every sample with that key, and shown by the
/// first of them.
pub proof fn law_phrases(samples: Seq<Seq<char>>, key: Seq<char>)
    ensures
        ({
            let m = with_samples(Map::empty(), samples);
            &&& m.contains_key(key) <==> uses(samples, key) > 0
            &&& m.contains_key(key) ==> m[key].1 == uses(samples, key)
            &&& m.contains_key(key) ==> first_use(samples, key, m[key].0)
        }),
    decreases samples.len(),
{
    if samples.len() > 0 {
        let rest = samples.drop_last();
        let last = samples.last();
        law_phrases(rest, key);
        let before = with_samples(Map::<Seq<char>, Counted>::empty(), rest);
        let after = with_samples(Map::<Seq<char>, Counted>::empty(), samples);
        if before.contains_key(key) {
            let sample = before[key].0;
            let i = choose|i: int|
                0 <= i < rest.len() && #[trigger] rest[i] == sample && key_of(sample) == Some(key)
                    && forall|l: int| 0 <= l < i ==> key_of(#[trigger] rest[l]) != Some(key);
            assert(samples[i] == sample);
            assert forall|l: int| 0 <= l < i implies key_of(#[trigger] samples[l]) != Some(key) by {
                assert(key_of(rest[l]) != Some(key));
            }
            assert(first_use(samples, key, sample));
        } else if key_of(last) == Some(key) {
            let n = samples.len() - 1;
            assert(samples[n] == last);
            assert forall|l: int| 0 <= l < n implies key_of(#[trigger] samples[l]) != Some(key) by {
                lemma_no_use(rest, key, l);
                assert(rest[l] == samples[l]);
            }
            assert(first_use(samples, key, last));
        }
    }
}

proof fn lemma_no_use(samples: Seq<Seq<char>>, key: Seq<char>, l: int)
    requires
        uses(samples, key) == 0,
        0 <= l < samples.len(),
    ensures
        key_of(samples[l]) != Some(key),
    decreases samples.len(),
{
    if l < samples.len() - 1 {
        lemma_no_use(samples.drop_last(), key, l);
    }
}

proof fn lemma_first_use_unique(
    samples: Seq<Seq<char>>,
    key: Seq<char>,
    a: Seq<char>,
    b: Seq<char>,
)
    requires
        first_use(samples, key, a),
        first_use(samples, key, b),
    ensures
        a == b,
{
    let i = choose|i: int|
        0 <= i < samples.len() && #[trigger] samples[i] == a && key_of(a) == Some(key) && forall|
            l: int,
        |
            0 <= l < i ==> key_of(#[trigger] samples[l]) != Some(key);
    let j = choose|j: int|
        0 <= j < samples.len() && #[trigger] samples[j] == b && key_of(b) == Some(key) && forall|
            l: int,
        |
            0 <= l < j ==> key_of(#[trigger] samples[l]) != Some(key);
    if i < j {
        assert(key_of(samples[i]) != Some(key));
    } else if j < i {
        assert(key_of(samples[j]) != Some(key));
    }
}

proof fn lemma_phrases_finite(samples: Seq<Seq<char>>)
    ensures
        with_samples(Map::empty(), samples).dom().finite(),
    decreases samples.len(),
{
    if samples.len() > 0 {
        lemma_phrases_finite(samples.drop_last());
    }
}

proof fn lemma_repeated_finite(samples: Seq<Seq<char>>)
    ensures
        repeated(with_samples(Map::empty(), samples)).finite(),
{
    let m = with_samples(Map::<Seq<char>, Counted>::empty(), samples);
    let set = repeated(m);
    let f = |key: Seq<char>| m[key];
    lemma_phrases_finite(samples);
    m.dom().lemma_map_finite(f);
    assert(set.subset_of(m.dom().map(f))) by {
        assert forall|p: Counted| set.contains(p) implies m.dom().map(f).contains(p) by {
            let key = choose|key: Seq<char>| #[trigger] m.contains_key(key) && m[key] == p;
            assert(m.dom().contains(key));
            assert(f(key) == p);
        }
    }
    vstd::set_lib::lemma_len_subset(set, m.dom().map(f));
}

/// The digest shows at most eight phrases. Each was used more than once, and is shown with the number
/// of its uses and by its first sample; the most used come first. A phrase that was used more than
/// once is left out only where eight others outrank it.
pub proof fn law_repeated_phrases(sessions: Seq<SessionModel>)
    ensures
        ({
            let shown = digest_of(sessions).repeated_phrases;
            let samples = all_samples(sessions);
            &&& shown.len() <= 8
            &&& ascends(shown, outranks())
            &&& forall|i: int|
                0 <= i < shown.len() ==> {
                    let p = #[trigger] shown[i];
                    &&& p.1 > 1
                    &&& key_of(p.0) is Some
                    &&& p.1 == uses(samples, key_of(p.0)->0)
                    &&& first_use(samples, key_of(p.0)->0, p.0)
                }
            &&& shown.len() < 8 ==> forall|key: Seq<char>| #[trigger]
                uses(samples, key) > 1 ==> exists|i: int|
                    0 <= i < shown.len() && key_of((#[trigger] shown[i]).0) == Some(key)
            &&& forall|key: Seq<char>, sample: Seq<char>, i: int|
                uses(samples, key) > 1 && #[trigger] first_use(samples, key, sample)
                    && !shown.contains((sample, uses(samples, key))) && 0 <= i < shown.len()
                    ==> (outranks())(#[trigger] shown[i], (sample, uses(samples, key)))
        }),
{
    let samples = all_samples(sessions);
    let m = with_samples(Map::<Seq<char>, Counted>::empty(), samples);
    let set = repeated(m);
    let all = ranking(set);
    let shown = digest_of(sessions).repeated_phrases;
    law_phrases_of_sessions(sessions);
    lemma_repeated_finite(samples);
    law_ranking(set);
    assert forall|i: int, j: int| 0 <= i < j < shown.len() implies (outranks())(
        #[trigger] shown[i],
        #[trigger] shown[j],
    ) by {
        assert((outranks())(all[i], all[j]));
    }
    assert forall|i: int| 0 <= i < shown.len() implies {
        let p = #[trigger] shown[i];
        &&& p.1 > 1
        &&& key_of(p.0) is Some
        &&& p.1 == uses(samples, key_of(p.0)->0)
        &&& first_use(samples, key_of(p.0)->0, p.0)
    } by {
        let p = shown[i];
        assert(all.to_set().contains(all[i]));
        let key = choose|key: Seq<char>| #[trigger] m.contains_key(key) && m[key] == p;
        law_phrases(samples, key);
    }
    assert forall|key: Seq<char>, sample: Seq<char>, i: int|
        uses(samples, key) > 1 && #[trigger] first_use(samples, key, sample) && !shown.contains(
            (sample, uses(samples, key)),
        ) && 0 <= i < shown.len() implies (outranks())(
        #[trigger] shown[i],
        (sample, uses(samples, key)),
    ) by {
        law_phrases(samples, key);
        lemma_first_use_unique(samples, key, sample, m[key].0);
        assert(set.contains(m[key]));
        assert(all.to_set().contains(m[key]));
        let k = choose|k: int| 0 <= k < all.len() && all[k] == m[key];
        if k < shown.len() {
            assert(shown[k] == m[key]);
        }
        assert((outranks())(all[i], all[k]));
    }
    if shown.len() < 8 {
        assert forall|key: Seq<char>| #[trigger] uses(samples, key) > 1 implies exists|i: int|
            0 <= i < shown.len() && key_of((#[trigger] shown[i]).0) == Some(key) by {
            law_phrases(samples, key);
            assert(set.contains(m[key]));
            assert(all.to_set().contains(m[key]));
            let i = choose|i: int| 0 <= i < all.len() && all[i] == m[key];
            assert(shown[i] == m[key]);
        }
    }
}

/// Each name is counted as often as in all the sessions together.
pub proof fn law_counts_add_up(sessions: Seq<SessionModel>, more: SessionModel, name: Seq<char>)
    ensures
        ({
            let (s, t) = (tally(sessions), tally(sessions.push(more)));
            &&& count_of(t.tool_counts, name) == count_of(s.tool_counts, name) + count_of(
                more.tool_counts,
                name,
            )
            &&& count_of(t.command_counts, name) == count_of(s.command_counts, name) + count_of(
                more.command_counts,
                name,
            )
            &&& count_of(t.failed_command_counts, name) == count_of(s.failed_command_counts, name)
                + count_of(more.failed_command_counts, name)
            &&& count_of(t.cwd_counts, name) == count_of(s.cwd_counts, name) + (if more.cwd == Some(
                name,
            ) {
                1nat
            } else {
                0
            })
        }),
{
    assert(sessions.push(more).drop_last() =~= sessions);
}

// ---------------------------------------------------------------------------------------------
// The order of the sessions
// ---------------------------------------------------------------------------------------------
/// Whether two tallies agree in everything but the phrases.
spec fn same_sums(s: Tally, t: Tally) -> bool {
    s == (Tally { phrases: s.phrases, ..t })
}

proof fn lemma_uses_concat(a: Seq<Seq<char>>, b: Seq<Seq<char>>, key: Seq<char>)
    ensures
        uses(a + b, key) == uses(a, key) + uses(b, key),
    decreases b.len(),
{
    if b.len() == 0 {
        assert(a + b =~= a);
    } else {
        assert((a + b).drop_last() =~= a + b.drop_last());
        assert((a + b).last() == b.last());
        lemma_uses_concat(a, b.drop_last(), key);
    }
}

/// Two sessions can be added in either order.
proof fn lemma_plus_commutes(t: Tally, x: SessionModel, y: SessionModel)
    ensures
        same_sums(t.plus(x).plus(y), t.plus(y).plus(x)),
{
    let (a, b) = (t.plus(x).plus(y), t.plus(y).plus(x));
    assert(a.tool_counts =~= b.tool_counts);
    assert(a.command_counts =~= b.command_counts);
    assert(a.failed_command_counts =~= b.failed_command_counts);
    assert(a.cwd_counts =~= b.cwd_counts);
}

/// Any of the sessions can be added last.
proof fn lemma_added_last(sessions: Seq<SessionModel>, k: int)
    requires
        0 <= k < sessions.len(),
    ensures
        same_sums(tally(sessions), tally(sessions.remove(k)).plus(sessions[k])),
    decreases sessions.len(),
{
    let rest = sessions.drop_last();
    if k == sessions.len() - 1 {
        assert(sessions.remove(k) =~= rest);
    } else {
        let part = sessions.remove(k);
        assert(part.drop_last() =~= rest.remove(k));
        assert(part.last() == sessions.last());
        lemma_added_last(rest, k);
        lemma_plus_commutes(tally(rest.remove(k)), sessions[k], sessions.last());
    }
}

/// Any of the sessions can have its samples counted last.
proof fn lemma_used_last(sessions: Seq<SessionModel>, k: int, key: Seq<char>)
    requires
        0 <= k < sessions.len(),
    ensures
        uses(all_samples(sessions), key) == uses(all_samples(sessions.remove(k)), key) + uses(
            sessions[k].assistant_phrase_samples,
            key,
        ),
    decreases sessions.len(),
{
    let rest = sessions.drop_last();
    let last = sessions.last().assistant_phrase_samples;
    lemma_uses_concat(all_samples(rest), last, key);
    if k == sessions.len() - 1 {
        assert(sessions.remove(k) =~= rest);
    } else {
        let part = sessions.remove(k);
        assert(part.drop_last() =~= rest.remove(k));
        assert(part.last() == sessions.last());
        lemma_used_last(rest, k, key);
        lemma_uses_concat(all_samples(rest.remove(k)), last, key);
    }
}

/// What the sessions add up to, and how often each phrase was used, does not depend on their order.
proof fn lemma_reordered(a: Seq<SessionModel>, b: Seq<SessionModel>)
    requires
        a.to_multiset() == b.to_multiset(),
    ensures
        same_sums(tally(a), tally(b)),
        forall|key: Seq<char>| #[trigger]
            uses(all_samples(a), key) == uses(all_samples(b), key),
    decreases a.len(),
{
    broadcast use vstd::seq_lib::group_to_multiset_ensures;

    assert(a.len() == a.to_multiset().len());
    assert(b.len() == b.to_multiset().len());
    if a.len() > 0 {
        let n = a.len() - 1;
        let x = a[n];
        assert(a.contains(x));
        assert(a.to_multiset().count(x) > 0);
        assert(b.contains(x));
        let k = choose|k: int| 0 <= k < b.len() && b[k] == x;
        assert(a.remove(n) =~= a.drop_last());
        lemma_reordered(a.remove(n), b.remove(k));
        lemma_added_last(a, n);
        lemma_added_last(b, k);
        let (s, t) = (tally(a.remove(n)), tally(b.remove(k)));
        assert(same_sums(s.plus(x), t.plus(x)));
        assert forall|key: Seq<char>| #[trigger]
            uses(all_samples(a), key) == uses(all_samples(b), key) by {
            lemma_used_last(a, n, key);
            lemma_used_last(b, k, key);
            assert(uses(all_samples(a.remove(n)), key) == uses(all_samples(b.remove(k)), key));
        }
    } else {
        assert(a =~= b);
    }
}

/// The repeated phrases that were used at least `n` times.
spec fn used_at_least(m: Phrases, n: nat) -> Set<Counted> {
    repeated(m).filter(|p: Counted| p.1 >= n)
}

/// A place of the ranking shows at least `n` uses exactly where there are more such phrases than come
/// before that place.
proof fn lemma_place_by_number(m: Phrases, n: nat, i: int)
    requires
        repeated(m).finite(),
        0 <= i < ranking(repeated(m)).len(),
    ensures
        ranking(repeated(m))[i].1 >= n <==> i < used_at_least(m, n).len(),
{
    let set = repeated(m);
    let all = ranking(set);
    let some = used_at_least(m, n);
    law_ranking(set);
    set.lemma_len_filter(|p: Counted| p.1 >= n);
    if all[i].1 >= n {
        let head = all.take(i + 1);
        assert(head.no_duplicates());
        assert forall|p: Counted| head.to_set().contains(p) implies some.contains(p) by {
            let k = choose|k: int| 0 <= k < head.len() && head[k] == p;
            assert(all[k] == p);
            assert(all.to_set().contains(p));
            if k < i {
                assert((outranks())(all[k], all[i]));
            }
        }
        head.unique_seq_to_set();
        vstd::set_lib::lemma_len_subset(head.to_set(), some);
    } else {
        let head = all.take(i);
        assert(head.no_duplicates());
        assert forall|p: Counted| some.contains(p) implies head.to_set().contains(p) by {
            assert(all.to_set().contains(p));
            let k = choose|k: int| 0 <= k < all.len() && all[k] == p;
            if i < k {
                assert((outranks())(all[i], all[k]));
            }
            assert(head[k] == p);
        }
        head.unique_seq_to_set();
        vstd::set_lib::lemma_len_subset(some, head.to_set());
    }
}

/// Samples in which every phrase is used equally often have equally many phrases with at least `n`
/// uses.
proof fn lemma_same_numbers(a: Seq<Seq<char>>, b: Seq<Seq<char>>, n: nat)
    requires
        forall|key: Seq<char>| #[trigger] uses(a, key) == uses(b, key),
    ensures
        ({
            let (s, t) = (with_samples(Map::empty(), a), with_samples(Map::empty(), b));
            &&& repeated(s).finite()
            &&& used_at_least(s, n).len() == used_at_least(t, n).len()
        }),
{
    let s = with_samples(Map::<Seq<char>, Counted>::empty(), a);
    let t = with_samples(Map::<Seq<char>, Counted>::empty(), b);
    let (x, y) = (used_at_least(s, n), used_at_least(t, n));
    let f = |p: Counted| t[key_of(p.0)->0];
    lemma_repeated_finite(a);
    repeated(s).lemma_len_filter(|p: Counted| p.1 >= n);
    assert forall|p: Counted| x.contains(p) implies y.contains(#[trigger] f(p)) && key_of(f(p).0)
        == key_of(p.0) && s.contains_key(key_of(p.0)->0) && s[key_of(p.0)->0] == p by {
        let key = choose|key: Seq<char>| #[trigger] s.contains_key(key) && s[key] == p;
        law_phrases(a, key);
        law_phrases(b, key);
        assert(uses(a, key) == uses(b, key));
        assert(t.contains_key(key) && t[key] == f(p));
    }
    assert(vstd::relations::injective_on(f, x)) by {
        assert forall|p: Counted, q: Counted|
            x.contains(p) && x.contains(q) && #[trigger] f(p) == #[trigger] f(q) implies p == q by {}
    }
    assert(x.map(f) =~= y) by {
        assert forall|q: Counted| y.contains(q) implies x.map(f).contains(q) by {
            let key = choose|key: Seq<char>| #[trigger] t.contains_key(key) && t[key] == q;
            law_phrases(a, key);
            law_phrases(b, key);
            assert(uses(a, key) == uses(b, key));
            assert(s.contains_key(key));
            assert(x.contains(s[key]));
            assert(f(s[key]) == q);
        }
    }
    vstd::set_lib::lemma_map_size(x, y, f);
}

/// The order of the sessions makes no difference to any total, nor to which tools, commands, failed
/// commands and working directories are shown, nor to how often the shown phrases were used.
pub proof fn law_session_order(a: Seq<SessionModel>, b: Seq<SessionModel>)
    requires
        a.to_multiset() == b.to_multiset(),
    ensures
        ({
            let (d, e) = (digest_of(a), digest_of(b));
            let count = |p: Counted| p.1;
            &&& d.sessions.len() == e.sessions.len()
            &&& d.total_user_messages == e.total_user_messages
            &&& d.total_assistant_messages == e.total_assistant_messages
            &&& d.total_commentary_messages == e.total_commentary_messages
            &&& d.total_final_answers == e.total_final_answers
            &&& d.total_tool_calls == e.total_tool_calls
            &&& d.total_exec_commands == e.total_exec_commands
            &&& d.total_failed_exec_commands == e.total_failed_exec_commands
            &&& d.total_stream_errors == e.total_stream_errors
            &&& d.total_turn_aborts == e.total_turn_aborts
            &&& d.total_approvals == e.total_approvals
            &&& d.total_compactions == e.total_compactions
            &&& d.top_tools == e.top_tools
            &&& d.top_commands == e.top_commands
            &&& d.top_failed_commands == e.top_failed_commands
            &&& d.top_cwds == e.top_cwds
            &&& d.repeated_phrases.map_values(count) == e.repeated_phrases.map_values(count)
        }),
{
    let (d, e) = (digest_of(a), digest_of(b));
    let count = |p: Counted| p.1;
    let (m, n) = (tally(a).phrases, tally(b).phrases);
    let (x, y) = (all_samples(a), all_samples(b));
    let (all, other) = (ranking(repeated(m)), ranking(repeated(n)));
    lemma_reordered(a, b);
    assert(a.len() == b.len()) by {
        broadcast use vstd::seq_lib::group_to_multiset_ensures;

        assert(a.len() == a.to_multiset().len());
        assert(b.len() == b.to_multiset().len());
    }
    law_phrases_of_sessions(a);
    law_phrases_of_sessions(b);
    lemma_same_numbers(x, y, 0);
    lemma_same_numbers(y, x, 0);
    assert(used_at_least(m, 0) =~= repeated(m));
    assert(used_at_least(n, 0) =~= repeated(n));
    law_ranking(repeated(m));
    law_ranking(repeated(n));
    assert forall|i: int| 0 <= i < all.len() implies (#[trigger] all[i]).1 == other[i].1 by {
        lemma_same_numbers(x, y, all[i].1);
        lemma_place_by_number(m, all[i].1, i);
        lemma_place_by_number(n, all[i].1, i);
        lemma_same_numbers(x, y, other[i].1);
        lemma_place_by_number(m, other[i].1, i);
        lemma_place_by_number(n, other[i].1, i);
    }
    assert(d.repeated_phrases.map_values(count) =~= e.repeated_phrases.map_values(count)) by {
        assert forall|i: int| 0 <= i < d.repeated_phrases.len() implies (
        #[trigger] d.repeated_phrases[i]).1 == e.repeated_phrases[i].1 by {
            assert(all[i].1 == other[i].1);
        }
    }
}

/// The sums of consistent sessions are consistent: every message of an assistant is commentary or an
/// answer, and no more commands failed than were executed.
pub proof fn law_totals_consistent(sessions: Seq<SessionModel>)
    requires
        forall|i: int| 0 <= i < sessions.len() ==> consistent(#[trigger] sessions[i]),
    ensures
        ({
            let d = digest_of(sessions);
            &&& d.total_assistant_messages == d.total_commentary_messages + d.total_final_answers
            &&& d.total_failed_exec_commands <= d.total_exec_commands
            &&& forall|name: Seq<char>| #[trigger]
                count_of(tally(sessions).failed_command_counts, name) <= count_of(
                    tally(sessions).command_counts,
                    name,
                )
        }),
    decreases sessions.len(),
{
    if sessions.len() > 0 {
        let rest = sessions.drop_last();
        assert forall|i: int| 0 <= i < rest.len() implies consistent(#[trigger] rest[i]) by {
            assert(consistent(sessions[i]));
        }
        law_totals_consistent(rest);
        let last = sessions[sessions.len() - 1];
        assert(consistent(last));
        let (s, t) = (tally(rest), tally(sessions));
        assert forall|name: Seq<char>| #[trigger]
            count_of(t.failed_command_counts, name) <= count_of(t.command_counts, name) by {
            assert(count_of(s.failed_command_counts, name) <= count_of(s.command_counts, name));
            assert(count_of(last.failed_command_counts, name) <= count_of(
                last.command_counts,
                name,
            ));
        }
    }
}

} // verus!
