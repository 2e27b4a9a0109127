//! The digest of many sessions.
use crate::counts::{
    added, count_of, counted, increment_count, merge_counts, raised, ranking, top, top_counts,
    top_entries, CountMap, Counted, Counts,
};
use crate::order::first_of;
use crate::phrase::{key_of, repetition_key};
use crate::session::{SessionAnalysis, SessionModel};
use crate::text::texts;
use vstd::hash_map::StringHashMap;
use vstd::prelude::*;

verus! {

/// How many names a list of the digest shows.
pub const AGGREGATE_LIMIT: usize = 8;

/// How many working directories the digest shows.
pub const CWD_LIMIT: usize = 5;

// ---------------------------------------------------------------------------------------------
// Model
// ---------------------------------------------------------------------------------------------
/// For each repetition key the first sample that has it, and how many samples have it.
pub type Phrases = Map<Seq<char>, Counted>;

/// The phrases after one more sample.
pub open spec fn with_sample(m: Phrases, sample: Seq<char>) -> Phrases {
    match key_of(sample) {
        Some(key) => m.insert(
            key,
            if m.contains_key(key) {
                (m[key].0, m[key].1 + 1)
            } else {
                (sample, 1)
            },
        ),
        None => m,
    }
}

pub open spec fn with_samples(m: Phrases, samples: Seq<Seq<char>>) -> Phrases
    decreases samples.len(),
{
    if samples.len() == 0 {
        m
    } else {
        with_sample(with_samples(m, samples.drop_last()), samples.last())
    }
}

/// The phrases that occur more than once.
pub open spec fn repeated(m: Phrases) -> Set<Counted> {
    Set::new(
        |p: Counted|
            p.1 > 1 && exists|key: Seq<char>| #[trigger] m.contains_key(key) && m[key] == p,
    )
}

/// What a number of sessions add up to.
pub struct Tally {
    pub user_messages: nat,
    pub assistant_messages: nat,
    pub commentary_messages: nat,
    pub final_answers: nat,
    pub tool_calls: nat,
    pub exec_commands: nat,
    pub failed_exec_commands: nat,
    pub stream_errors: nat,
    pub turn_aborts: nat,
    pub approvals: nat,
    pub compactions: nat,
    pub tool_counts: Counts,
    pub command_counts: Counts,
    pub failed_command_counts: Counts,
    pub cwd_counts: Counts,
    pub samples: nat,
    pub phrases: Phrases,
}

impl Tally {
    pub open spec fn zero() -> Tally {
        Tally {
            user_messages: 0,
            assistant_messages: 0,
            commentary_messages: 0,
            final_answers: 0,
            tool_calls: 0,
            exec_commands: 0,
            failed_exec_commands: 0,
            stream_errors: 0,
            turn_aborts: 0,
            approvals: 0,
            compactions: 0,
            tool_counts: Map::empty(),
            command_counts: Map::empty(),
            failed_command_counts: Map::empty(),
            cwd_counts: Map::empty(),
            samples: 0,
            phrases: Map::empty(),
        }
    }

    /// The sum with one more session.
    pub open spec fn plus(self, s: SessionModel) -> Tally {
        Tally {
            user_messages: self.user_messages + s.user_messages,
            assistant_messages: self.assistant_messages + s.assistant_messages,
            commentary_messages: self.commentary_messages + s.commentary_messages,
            final_answers: self.final_answers + s.final_answers,
            tool_calls: self.tool_calls + s.tool_calls,
            exec_commands: self.exec_commands + s.exec_commands,
            failed_exec_commands: self.failed_exec_commands + s.failed_exec_commands,
            stream_errors: self.stream_errors + s.stream_errors,
            turn_aborts: self.turn_aborts + s.turn_aborts,
            approvals: self.approvals + s.approvals,
            compactions: self.compactions + s.compactions,
            tool_counts: added(self.tool_counts, s.tool_counts),
            command_counts: added(self.command_counts, s.command_counts),
            failed_command_counts: added(self.failed_command_counts, s.failed_command_counts),
            cwd_counts: match s.cwd {
                Some(cwd) => raised(self.cwd_counts, cwd, 1),
                None => self.cwd_counts,
            },
            samples: self.samples + s.assistant_phrase_samples.len(),
            phrases: with_samples(self.phrases, s.assistant_phrase_samples),
        }
    }

    /// Whether every sum fits into a machine word.
    pub open spec fn fits(self) -> bool {
        &&& self.user_messages <= usize::MAX
        &&& self.assistant_messages <= usize::MAX
        &&& self.commentary_messages <= usize::MAX
        &&& self.final_answers <= usize::MAX
        &&& self.tool_calls <= usize::MAX
        &&& self.exec_commands <= usize::MAX
        &&& self.failed_exec_commands <= usize::MAX
        &&& self.stream_errors <= usize::MAX
        &&& self.turn_aborts <= usize::MAX
        &&& self.approvals <= usize::MAX
        &&& self.compactions <= usize::MAX
        &&& self.samples <= usize::MAX
        &&& forall|name: Seq<char>| #[trigger] count_of(self.tool_counts, name) <= usize::MAX
        &&& forall|name: Seq<char>| #[trigger] count_of(self.command_counts, name) <= usize::MAX
        &&& forall|name: Seq<char>| #[trigger]
            count_of(self.failed_command_counts, name) <= usize::MAX
    }
}

/// What the sessions add up to.
pub open spec fn tally(sessions: Seq<SessionModel>) -> Tally
    decreases sessions.len(),
{
    if sessions.len() == 0 {
        Tally::zero()
    } else {
        tally(sessions.drop_last()).plus(sessions.last())
    }
}

/// A digest: the sessions, their sums, and what occurred most.
pub struct DigestModel {
    pub sessions: Seq<SessionModel>,
    pub total_user_messages: nat,
    pub total_assistant_messages: nat,
    pub total_commentary_messages: nat,
    pub total_final_answers: nat,
    pub total_tool_calls: nat,
    pub total_exec_commands: nat,
    pub total_failed_exec_commands: nat,
    pub total_stream_errors: nat,
    pub total_turn_aborts: nat,
    pub total_approvals: nat,
    pub total_compactions: nat,
    pub top_tools: Seq<Counted>,
    pub top_commands: Seq<Counted>,
    pub top_failed_commands: Seq<Counted>,
    pub top_cwds: Seq<Counted>,
    pub repeated_phrases: Seq<Counted>,
}

/// The digest of the given sessions.
pub open spec fn digest_of(sessions: Seq<SessionModel>) -> DigestModel {
    let t = tally(sessions);
    DigestModel {
        sessions,
        total_user_messages: t.user_messages,
        total_assistant_messages: t.assistant_messages,
        total_commentary_messages: t.commentary_messages,
        total_final_answers: t.final_answers,
        total_tool_calls: t.tool_calls,
        total_exec_commands: t.exec_commands,
        total_failed_exec_commands: t.failed_exec_commands,
        total_stream_errors: t.stream_errors,
        total_turn_aborts: t.turn_aborts,
        total_approvals: t.approvals,
        total_compactions: t.compactions,
        top_tools: top(t.tool_counts, AGGREGATE_LIMIT as nat),
        top_commands: top(t.command_counts, AGGREGATE_LIMIT as nat),
        top_failed_commands: top(t.failed_command_counts, AGGREGATE_LIMIT as nat),
        top_cwds: top(t.cwd_counts, CWD_LIMIT as nat),
        repeated_phrases: first_of(ranking(repeated(t.phrases)), AGGREGATE_LIMIT as nat),
    }
}

/// What the analyses of a number of sessions say.
pub open spec fn models(v: Seq<SessionAnalysis>) -> Seq<SessionModel> {
    Seq::new(v.len(), |i: int| v[i]@)
}

// ---------------------------------------------------------------------------------------------
// Laws
// ---------------------------------------------------------------------------------------------
/// What fewer sessions add up to fits where the sum of all does.
proof fn lemma_part_fits(sessions: Seq<SessionModel>, n: int)
    requires
        tally(sessions).fits(),
        0 <= n <= sessions.len(),
    ensures
        tally(sessions.take(n)).fits(),
    decreases sessions.len(),
{
    if n == sessions.len() {
        assert(sessions.take(n) =~= sessions);
    } else {
        let part = sessions.drop_last();
        let (a, b) = (tally(part), tally(sessions));
        assert forall|name: Seq<char>| #[trigger] count_of(a.tool_counts, name) <= usize::MAX by {
            assert(count_of(b.tool_counts, name) <= usize::MAX);
        }
        assert forall|name: Seq<char>| #[trigger]
            count_of(a.command_counts, name) <= usize::MAX by {
            assert(count_of(b.command_counts, name) <= usize::MAX);
        }
        assert forall|name: Seq<char>| #[trigger]
            count_of(a.failed_command_counts, name) <= usize::MAX by {
            assert(count_of(b.failed_command_counts, name) <= usize::MAX);
        }
        lemma_part_fits(part, n);
        assert(part.take(n) =~= sessions.take(n));
    }
}

/// Whether no phrase is counted more than `n` times.
pub open spec fn phrases_within(m: Phrases, n: nat) -> bool {
    forall|key: Seq<char>| #[trigger] m.contains_key(key) ==> m[key].1 <= n
}

proof fn lemma_samples_within(m: Phrases, samples: Seq<Seq<char>>, n: nat)
    requires
        phrases_within(m, n),
    ensures
        phrases_within(with_samples(m, samples), n + samples.len()),
    decreases samples.len(),
{
    if samples.len() > 0 {
        lemma_samples_within(m, samples.drop_last(), n);
    }
}

// ---------------------------------------------------------------------------------------------
// Phrases
// ---------------------------------------------------------------------------------------------
/// The samples that stand for the phrases seen, and how often each phrase was seen.
struct PhraseTable {
    entries: Vec<(String, usize)>,
    /// Where in `entries` the phrase of each key stands.
    places: StringHashMap<usize>,
}

impl View for PhraseTable {
    type V = Phrases;

    closed spec fn view(&self) -> Phrases {
        Map::new(
            |key: Seq<char>| self.places@.contains_key(key),
            |key: Seq<char>| counted(self.entries@)[self.places@[key] as int],
        )
    }
}

impl PhraseTable {
    /// Every sample is found under its key, and nothing else is found.
    #[verifier::type_invariant]
    closed spec fn indexed(self) -> bool {
        &&& forall|i: int|
            0 <= i < self.entries@.len() ==> {
                &&& key_of(#[trigger] self.entries@[i].0@) is Some
                &&& self.places@.contains_key(key_of(self.entries@[i].0@)->0)
                &&& self.places@[key_of(self.entries@[i].0@)->0] == i
            }
        &&& forall|key: Seq<char>| #[trigger]
            self.places@.contains_key(key) ==> {
                &&& self.places@[key] < self.entries@.len()
                &&& key_of(self.entries@[self.places@[key] as int].0@) == Some(key)
            }
    }

    fn new() -> (r: PhraseTable)
        ensures
            r@ == Map::<Seq<char>, Counted>::empty(),
    {
        let r = PhraseTable { entries: Vec::new(), places: StringHashMap::new() };
        assert(r@ =~= Map::<Seq<char>, Counted>::empty());
        r
    }

    fn record(&mut self, sample: &String)
        requires
            phrases_within(old(self)@, (usize::MAX - 1) as nat),
        ensures
            final(self)@ == with_sample(old(self)@, sample@),
    {
        proof {
            use_type_invariant(&*self);
        }
        let key = match repetition_key(sample.as_str()) {
            Some(key) => key,
            None => {
                return ;
            },
        };
        let ghost before = *self;
        let mut taken = PhraseTable::new();
        std::mem::swap(self, &mut taken);
        assert(taken == before);
        let PhraseTable { mut entries, mut places } = taken;
        let place: usize = match places.get(key.as_str()) {
            Some(place) => *place,
            None => entries.len(),
        };
        if place < entries.len() {
            assert(before@.contains_key(key@));
            assert(before@[key@].1 == entries@[place as int].1);
            let total: usize = entries[place].1 + 1;
            let shown = entries[place].0.clone();
            entries.set(place, (shown, total));
            assert forall|i: int| 0 <= i < entries@.len() implies {
                &&& key_of(#[trigger] entries@[i].0@) is Some
                &&& places@.contains_key(key_of(entries@[i].0@)->0)
                &&& places@[key_of(entries@[i].0@)->0] == i
            } by {
                assert(before.entries@[i].0@ == entries@[i].0@);
            }
        } else {
            entries.push((sample.clone(), 1));
            places.insert(key, place);
            assert forall|i: int| 0 <= i < entries@.len() implies {
                &&& key_of(#[trigger] entries@[i].0@) is Some
                &&& places@.contains_key(key_of(entries@[i].0@)->0)
                &&& places@[key_of(entries@[i].0@)->0] == i
            } by {
                if i < before.entries@.len() {
                    assert(before.entries@[i] == entries@[i]);
                    assert(key_of(before.entries@[i].0@) is Some);
                }
            }
        }
        *self = PhraseTable { entries, places };
        assert(self@ =~= with_sample(before@, sample@));
    }

    fn record_all(&mut self, samples: &Vec<String>, Ghost(n): Ghost<nat>)
        requires
            phrases_within(old(self)@, n),
            n + samples@.len() <= usize::MAX,
        ensures
            final(self)@ == with_samples(old(self)@, texts(samples@)),
    {
        let ghost start = self@;
        let ghost all = texts(samples@);
        assert(all.take(0) =~= Seq::<Seq<char>>::empty());
        for i in 0..samples.len()
            invariant
                all == texts(samples@),
                phrases_within(start, n),
                n + samples@.len() <= usize::MAX,
                self@ == with_samples(start, all.take(i as int)),
        {
            proof {
                lemma_samples_within(start, all.take(i as int), n);
                assert(all.take(i + 1).drop_last() =~= all.take(i as int));
            }
            self.record(&samples[i]);
        }
        assert(all.take(samples@.len() as int) =~= all);
    }

    /// The phrases seen most, of those seen more than once.
    fn top_repeated(&self, limit: usize) -> (r: Vec<(String, usize)>)
        ensures
            counted(r@) == first_of(ranking(repeated(self@)), limit as nat),
    {
        proof {
            use_type_invariant(self);
        }
        let mut found: Vec<(String, usize)> = Vec::new();
        let ghost mut from: Seq<int> = Seq::empty();
        for i in 0..self.entries.len()
            invariant
                self.indexed(),
                from.len() == found@.len(),
                forall|j: int|
                    0 <= j < from.len() ==> {
                        &&& 0 <= #[trigger] from[j] < i
                        &&& counted(found@)[j] == counted(self.entries@)[from[j]]
                        &&& self.entries@[from[j]].1 > 1
                    },
                forall|j: int, k: int| 0 <= j < k < from.len() ==> from[j] < from[k],
                forall|l: int|
                    0 <= l < i && #[trigger] self.entries@[l].1 > 1 ==> from.contains(l),
        {
            if self.entries[i].1 > 1 {
                let ghost old_found = counted(found@);
                let ghost old_from = from;
                found.push((self.entries[i].0.clone(), self.entries[i].1));
                proof {
                    from = from.push(i as int);
                    assert(counted(found@) =~= old_found.push(counted(self.entries@)[i as int]));
                    assert forall|l: int|
                        0 <= l < i + 1 && #[trigger] self.entries@[l].1
                            > 1 implies from.contains(l) by {
                        if l == i {
                            assert(from[old_from.len() as int] == l);
                        } else {
                            let j = choose|j: int| 0 <= j < old_from.len() && old_from[j] == l;
                            assert(from[j] == l);
                        }
                    }
                }
            }
        }
        proof {
            let es = counted(found@);
            assert forall|j: int, k: int|
                0 <= j < es.len() && 0 <= k < es.len() && j != k implies es[j] != es[k] by {
                let (a, b) = (from[j], from[k]);
                assert(a != b);
                assert(key_of(self.entries@[a].0@) is Some);
                assert(self.places@[key_of(self.entries@[a].0@)->0] == a);
                assert(self.places@[key_of(self.entries@[b].0@)->0] == b);
            }
            assert(es.to_set() =~= repeated(self@)) by {
                assert forall|p: Counted| es.to_set().contains(p) <==> repeated(self@).contains(
                    p,
                ) by {
                    if es.to_set().contains(p) {
                        let j = choose|j: int| 0 <= j < es.len() && es[j] == p;
                        let key = key_of(self.entries@[from[j]].0@)->0;
                        assert(self@.contains_key(key) && self@[key] == p);
                    }
                    if repeated(self@).contains(p) {
                        let key = choose|key: Seq<char>| #[trigger]
                            self@.contains_key(key) && self@[key] == p;
                        let l = self.places@[key] as int;
                        assert(self.entries@[l].1 > 1);
                        assert(from.contains(l));
                        let j = choose|j: int| 0 <= j < from.len() && from[j] == l;
                        assert(es[j] == p);
                    }
                }
            }
        }
        top_entries(&found, limit)
    }
}

// ---------------------------------------------------------------------------------------------
// Digest
// ---------------------------------------------------------------------------------------------
/// The digest of a number of sessions.
pub struct ImproveDigest {
    pub sessions: Vec<SessionAnalysis>,
    pub total_user_messages: usize,
    pub total_assistant_messages: usize,
    pub total_commentary_messages: usize,
    pub total_final_answers: usize,
    pub total_tool_calls: usize,
    pub total_exec_commands: usize,
    pub total_failed_exec_commands: usize,
    pub total_stream_errors: usize,
    pub total_turn_aborts: usize,
    pub total_approvals: usize,
    pub total_compactions: usize,
    pub top_tools: Vec<(String, usize)>,
    pub top_commands: Vec<(String, usize)>,
    pub top_failed_commands: Vec<(String, usize)>,
    pub top_cwds: Vec<(String, usize)>,
    pub repeated_phrases: Vec<(String, usize)>,
}

impl View for ImproveDigest {
    type V = DigestModel;

    open spec fn view(&self) -> DigestModel {
        DigestModel {
            sessions: models(self.sessions@),
            total_user_messages: self.total_user_messages as nat,
            total_assistant_messages: self.total_assistant_messages as nat,
            total_commentary_messages: self.total_commentary_messages as nat,
            total_final_answers: self.total_final_answers as nat,
            total_tool_calls: self.total_tool_calls as nat,
            total_exec_commands: self.total_exec_commands as nat,
            total_failed_exec_commands: self.total_failed_exec_commands as nat,
            total_stream_errors: self.total_stream_errors as nat,
            total_turn_aborts: self.total_turn_aborts as nat,
            total_approvals: self.total_approvals as nat,
            total_compactions: self.total_compactions as nat,
            top_tools: counted(self.top_tools@),
            top_commands: counted(self.top_commands@),
            top_failed_commands: counted(self.top_failed_commands@),
            top_cwds: counted(self.top_cwds@),
            repeated_phrases: counted(self.repeated_phrases@),
        }
    }
}

/// The counts of one session are added without overflow where the sums of all fit.
proof fn lemma_room(sum: Counts, more: Counts)
    requires
        forall|name: Seq<char>| #[trigger] count_of(added(sum, more), name) <= usize::MAX,
    ensures
        forall|name: Seq<char>| #[trigger]
            more.contains_key(name) ==> count_of(sum, name) + more[name] <= usize::MAX,
{
    assert forall|name: Seq<char>| #[trigger] more.contains_key(name) implies count_of(sum, name)
        + more[name] <= usize::MAX by {
        assert(count_of(added(sum, more), name) <= usize::MAX);
    }
}

impl ImproveDigest {
    /// The digest of the given sessions.
    pub fn from_sessions(sessions: Vec<SessionAnalysis>) -> (r: ImproveDigest)
        requires
            tally(models(sessions@)).fits(),
        ensures
            r@ == digest_of(models(sessions@)),
    {
        let mut total_user_messages: usize = 0;
        let mut total_assistant_messages: usize = 0;
        let mut total_commentary_messages: usize = 0;
        let mut total_final_answers: usize = 0;
        let mut total_tool_calls: usize = 0;
        let mut total_exec_commands: usize = 0;
        let mut total_failed_exec_commands: usize = 0;
        let mut total_stream_errors: usize = 0;
        let mut total_turn_aborts: usize = 0;
        let mut total_approvals: usize = 0;
        let mut total_compactions: usize = 0;
        let mut tool_counts = CountMap::new();
        let mut command_counts = CountMap::new();
        let mut failed_command_counts = CountMap::new();
        let mut cwd_counts = CountMap::new();
        let mut phrases = PhraseTable::new();
        let ghost all = models(sessions@);
        for i in 0..sessions.len()
            invariant
                all == models(sessions@),
                tally(all).fits(),
                tally(all.take(i as int)) == (Tally {
                    user_messages: total_user_messages as nat,
                    assistant_messages: total_assistant_messages as nat,
                    commentary_messages: total_commentary_messages as nat,
                    final_answers: total_final_answers as nat,
                    tool_calls: total_tool_calls as nat,
                    exec_commands: total_exec_commands as nat,
                    failed_exec_commands: total_failed_exec_commands as nat,
                    stream_errors: total_stream_errors as nat,
                    turn_aborts: total_turn_aborts as nat,
                    approvals: total_approvals as nat,
                    compactions: total_compactions as nat,
                    tool_counts: tool_counts@,
                    command_counts: command_counts@,
                    failed_command_counts: failed_command_counts@,
                    cwd_counts: cwd_counts@,
                    samples: tally(all.take(i as int)).samples,
                    phrases: phrases@,
                }),
                phrases_within(phrases@, tally(all.take(i as int)).samples),
                forall|name: Seq<char>| #[trigger] count_of(cwd_counts@, name) <= i,
        {
            let session = &sessions[i];
            let ghost before = tally(all.take(i as int));
            let ghost next = all.take(i + 1);
            let ghost after = tally(next);
            proof {
                assert(next.drop_last() =~= all.take(i as int));
                assert(next.last() == session@);
                assert(after == before.plus(session@));
                lemma_part_fits(all, i + 1);
                assert(after.tool_counts == added(before.tool_counts, session@.tool_counts));
                assert(after.command_counts == added(
                    before.command_counts,
                    session@.command_counts,
                ));
                assert(after.failed_command_counts == added(
                    before.failed_command_counts,
                    session@.failed_command_counts,
                ));
                lemma_room(before.tool_counts, session@.tool_counts);
                lemma_room(before.command_counts, session@.command_counts);
                lemma_room(before.failed_command_counts, session@.failed_command_counts);
                lemma_samples_within(
                    before.phrases,
                    session@.assistant_phrase_samples,
                    before.samples,
                );
            }
            total_user_messages = total_user_messages + session.user_messages;
            total_assistant_messages = total_assistant_messages + session.assistant_messages;
            total_commentary_messages = total_commentary_messages + session.commentary_messages;
            total_final_answers = total_final_answers + session.final_answers;
            total_tool_calls = total_tool_calls + session.tool_calls;
            total_exec_commands = total_exec_commands + session.exec_commands;
            total_failed_exec_commands = total_failed_exec_commands + session.failed_exec_commands;
            total_stream_errors = total_stream_errors + session.stream_errors;
            total_turn_aborts = total_turn_aborts + session.turn_aborts;
            total_approvals = total_approvals + session.approvals;
            total_compactions = total_compactions + session.compactions;
            merge_counts(&mut tool_counts, &session.tool_counts);
            merge_counts(&mut command_counts, &session.command_counts);
            merge_counts(&mut failed_command_counts, &session.failed_command_counts);
            match &session.cwd {
                Some(cwd) => {
                    assert(count_of(cwd_counts@, cwd@) <= i);
                    let ghost old_counts = cwd_counts@;
                    increment_count(&mut cwd_counts, cwd.clone());
                    assert forall|name: Seq<char>| #[trigger]
                        count_of(cwd_counts@, name) <= i + 1 by {
                        assert(count_of(old_counts, name) <= i);
                    }
                },
                None => {},
            }
            phrases.record_all(&session.assistant_phrase_samples, Ghost(before.samples));
        }
        assert(all.take(sessions@.len() as int) =~= all);
        let top_tools = top_counts(&tool_counts, AGGREGATE_LIMIT);
        let top_commands = top_counts(&command_counts, AGGREGATE_LIMIT);
        let top_failed_commands = top_counts(&failed_command_counts, AGGREGATE_LIMIT);
        let top_cwds = top_counts(&cwd_counts, CWD_LIMIT);
        let repeated_phrases = phrases.top_repeated(AGGREGATE_LIMIT);
        ImproveDigest {
            sessions,
            total_user_messages,
            total_assistant_messages,
            total_commentary_messages,
            total_final_answers,
            total_tool_calls,
            total_exec_commands,
            total_failed_exec_commands,
            total_stream_errors,
            total_turn_aborts,
            total_approvals,
            total_compactions,
            top_tools,
            top_commands,
            top_failed_commands,
            top_cwds,
            repeated_phrases,
        }
    }
}

} // verus!
