//! Counting by name: how often each name occurred, and which names occurred most.
use crate::order::{
    arrangement, compares_keys, first_of, lemma_sorted_arranges, lemma_stable_orders,
    position_order, positions, select_first, stable_before, stable_sort, Ranked,
};
use crate::text::{
    decimal, decimal_text, join, join_texts, lemma_text_lt_irreflexive, lemma_text_lt_total,
    lemma_text_lt_transitive, text_before, text_lt, texts,
};
use vstd::hash_map::StringHashMap;
use vstd::prelude::*;

verus! {

// ---------------------------------------------------------------------------------------------
// Model
// ---------------------------------------------------------------------------------------------
/// How often each name occurred.
pub type Counts = Map<Seq<char>, nat>;

/// A name or sample with the number of its occurrences.
pub type Counted = (Seq<char>, nat);

pub open spec fn count_of(m: Counts, name: Seq<char>) -> nat {
    if m.contains_key(name) {
        m[name]
    } else {
        0
    }
}

/// The counts after `amount` more occurrences of `name`.
pub open spec fn raised(m: Counts, name: Seq<char>, amount: nat) -> Counts {
    m.insert(name, count_of(m, name) + amount)
}

/// The counts of two collections together.
pub open spec fn added(a: Counts, b: Counts) -> Counts {
    Map::new(
        |name: Seq<char>| a.contains_key(name) || b.contains_key(name),
        |name: Seq<char>| count_of(a, name) + count_of(b, name),
    )
}

/// The names with their counts.
pub open spec fn pairs(m: Counts) -> Set<Counted> {
    Set::new(|p: Counted| m.contains_key(p.0) && m[p.0] == p.1)
}

/// Higher counts come first, and equal counts by name.
pub open spec fn outranks() -> spec_fn(Counted, Counted) -> bool {
    |a: Counted, b: Counted| a.1 > b.1 || (a.1 == b.1 && text_lt(a.0, b.0))
}

/// The given counts, highest first, equal counts by name.
pub open spec fn ranking(items: Set<Counted>) -> Seq<Counted> {
    arrangement(items, outranks())
}

/// The `limit` highest counts.
pub open spec fn top(m: Counts, limit: nat) -> Seq<Counted> {
    first_of(ranking(pairs(m)), limit)
}

/// What a list of names and counts holds.
pub open spec fn counted(v: Seq<(String, usize)>) -> Seq<Counted> {
    Seq::new(v.len(), |i: int| (v[i].0@, v[i].1 as nat))
}

/// `NAME xCOUNT`.
pub open spec fn entry_text(e: Counted) -> Seq<char> {
    e.0 + " x"@ + decimal(e.1)
}

/// `- NAME: COUNT`.
pub open spec fn entry_line(e: Counted) -> Seq<char> {
    "- "@ + e.0 + ": "@ + decimal(e.1)
}

/// The entries on one line, separated by commas.
pub open spec fn entries_text(es: Seq<Counted>) -> Seq<char> {
    join(es.map_values(|e: Counted| entry_text(e)), ", "@)
}

/// The entries, one to a line.
pub open spec fn section_lines(es: Seq<Counted>) -> Seq<Seq<char>> {
    if es.len() == 0 {
        seq!["- None recorded in the sampled sessions."@]
    } else {
        es.map_values(|e: Counted| entry_line(e))
    }
}

// ---------------------------------------------------------------------------------------------
// Laws
// ---------------------------------------------------------------------------------------------
/// Counts and names together decide the rank.
pub proof fn lemma_outranks_compares()
    ensures
        compares_keys(outranks()),
        forall|a: Counted, b: Counted| #[trigger] (outranks())(a, b) || a == b || (outranks())(b, a),
{
    let before = outranks();
    assert forall|a: Counted| !#[trigger] before(a, a) by {
        lemma_text_lt_irreflexive(a.0);
    }
    assert forall|a: Counted, b: Counted| #[trigger] before(a, b) || a == b || before(b, a) by {
        lemma_text_lt_total(a.0, b.0);
    }
    assert forall|a: Counted, b: Counted, c: Counted| #[trigger]
        before(a, b) && #[trigger] before(b, c) implies before(a, c) by {
        if a.1 == b.1 && b.1 == c.1 {
            lemma_text_lt_transitive(a.0, b.0, c.0);
        }
    }
    assert forall|a: Counted, b: Counted, c: Counted| #[trigger] before(a, c) implies #[trigger] before(
        a,
        b,
    ) || before(b, c) by {
        if !before(a, b) && a != b {
            assert(before(b, a));
        }
    }
}

// ---------------------------------------------------------------------------------------------
// Counting
// ---------------------------------------------------------------------------------------------
/// How often each name occurred.
pub struct CountMap {
    /// The names in the order in which they were first seen, with their counts.
    entries: Vec<(String, usize)>,
    /// Where in `entries` each name stands.
    places: StringHashMap<usize>,
}

impl View for CountMap {
    type V = Counts;

    closed spec fn view(&self) -> Counts {
        self.part(self.entries@.len() as int)
    }
}

impl CountMap {
    /// The first `n` entries as a map.
    closed spec fn part(&self, n: int) -> Counts {
        Map::new(
            |name: Seq<char>| self.places@.contains_key(name) && self.places@[name] < n,
            |name: Seq<char>| self.entries@[self.places@[name] as int].1 as nat,
        )
    }

    /// Every entry is found under its name, and nothing else is found.
    #[verifier::type_invariant]
    closed spec fn indexed(self) -> bool {
        &&& forall|i: int|
            0 <= i < self.entries@.len() ==> {
                &&& self.places@.contains_key(#[trigger] self.entries@[i].0@)
                &&& self.places@[self.entries@[i].0@] == i
            }
        &&& forall|name: Seq<char>| #[trigger]
            self.places@.contains_key(name) ==> {
                &&& self.places@[name] < self.entries@.len()
                &&& self.entries@[self.places@[name] as int].0@ == name
            }
    }

    /// No name has occurred.
    pub fn new() -> (r: CountMap)
        ensures
            r@ == Map::<Seq<char>, nat>::empty(),
    {
        let r = CountMap { entries: Vec::new(), places: StringHashMap::new() };
        assert(r@ =~= Map::<Seq<char>, nat>::empty());
        r
    }

    /// How often a name occurred. No name occurred more often than a machine word can say.
    pub fn get(&self, name: &str) -> (r: usize)
        ensures
            r == count_of(self@, name@),
            forall|other: Seq<char>| #[trigger] count_of(self@, other) <= usize::MAX,
    {
        proof {
            use_type_invariant(self);
        }
        match self.places.get(name) {
            Some(place) => self.entries[*place].1,
            None => 0,
        }
    }

    /// The number of names, each of which has a count that fits into a machine word.
    pub fn len(&self) -> (r: usize)
        ensures
            self@.dom().finite(),
            r == self@.len(),
            forall|name: Seq<char>| #[trigger] count_of(self@, name) <= usize::MAX,
    {
        proof {
            use_type_invariant(self);
            let names = Seq::new(self.entries@.len(), |i: int| self.entries@[i].0@);
            assert forall|i: int, j: int|
                0 <= i < names.len() && 0 <= j < names.len() && i != j implies names[i]
                != names[j] by {
                assert(self.places@[self.entries@[i].0@] == i);
                assert(self.places@[self.entries@[j].0@] == j);
            }
            assert(names.to_set() =~= self@.dom()) by {
                assert forall|name: Seq<char>| self@.dom().contains(
                    name,
                ) implies names.to_set().contains(name) by {
                    assert(names[self.places@[name] as int] == name);
                }
                assert forall|name: Seq<char>| names.to_set().contains(
                    name,
                ) implies self@.dom().contains(name) by {
                    let i = choose|i: int| 0 <= i < names.len() && names[i] == name;
                    assert(self.places@.contains_key(self.entries@[i].0@));
                }
            }
            names.unique_seq_to_set();
        }
        self.entries.len()
    }

    fn raise(&mut self, name: String, amount: usize)
        requires
            count_of(old(self)@, name@) + amount <= usize::MAX,
        ensures
            final(self)@ == raised(old(self)@, name@, amount as nat),
    {
        proof {
            use_type_invariant(&*self);
        }
        let ghost before = *self;
        let mut taken = CountMap::new();
        std::mem::swap(self, &mut taken);
        assert(taken == before);
        let CountMap { mut entries, mut places } = taken;
        let place: usize = match places.get(name.as_str()) {
            Some(place) => *place,
            None => entries.len(),
        };
        if place < entries.len() {
            assert(count_of(before@, name@) == entries@[place as int].1);
            let total: usize = entries[place].1 + amount;
            entries.set(place, (name, total));
            proof {
                assert(entries@[place as int].0@ == name@);
                assert forall|i: int| 0 <= i < entries@.len() implies {
                    &&& places@.contains_key(#[trigger] entries@[i].0@)
                    &&& places@[entries@[i].0@] == i
                } by {
                    assert(before.entries@[i].0@ == entries@[i].0@);
                }
            }
        } else {
            assert(!places@.contains_key(name@));
            let copy = name.clone();
            entries.push((name, amount));
            places.insert(copy, place);
            proof {
                assert forall|i: int| 0 <= i < entries@.len() implies {
                    &&& places@.contains_key(#[trigger] entries@[i].0@)
                    &&& places@[entries@[i].0@] == i
                } by {
                    if i < before.entries@.len() {
                        assert(before.entries@[i] == entries@[i]);
                        assert(before.places@.contains_key(before.entries@[i].0@));
                    }
                }
            }
        }
        *self = CountMap { entries, places };
        assert(self@ =~= raised(before@, name@, amount as nat));
    }
}

/// Counts one more occurrence of `key`.
pub fn increment_count(map: &mut CountMap, key: String)
    requires
        count_of(old(map)@, key@) < usize::MAX,
    ensures
        final(map)@ == raised(old(map)@, key@, 1),
{
    map.raise(key, 1);
}

/// Adds all of `counts` to `target`.
pub fn merge_counts(target: &mut CountMap, counts: &CountMap)
    requires
        forall|name: Seq<char>| #[trigger]
            counts@.contains_key(name) ==> count_of(old(target)@, name) + counts@[name]
                <= usize::MAX,
    ensures
        final(target)@ == added(old(target)@, counts@),
{
    proof {
        use_type_invariant(counts);
        assert(target@ =~= added(target@, counts.part(0)));
    }
    let ghost start = target@;
    for i in 0..counts.entries.len()
        invariant
            counts.indexed(),
            target@ == added(start, counts.part(i as int)),
            forall|name: Seq<char>| #[trigger]
                counts@.contains_key(name) ==> count_of(start, name) + counts@[name] <= usize::MAX,
    {
        let name = counts.entries[i].0.clone();
        let amount: usize = counts.entries[i].1;
        proof {
            assert(counts.places@.contains_key(counts.entries@[i as int].0@));
            assert(counts@.contains_key(name@));
            assert(counts@[name@] == amount);
            assert(count_of(target@, name@) == count_of(start, name@));
        }
        target.raise(name, amount);
        assert(target@ =~= added(start, counts.part(i + 1)));
    }
}

// ---------------------------------------------------------------------------------------------
// Ranking
// ---------------------------------------------------------------------------------------------
struct CountRanking<'a> {
    entries: &'a Vec<(String, usize)>,
}

impl<'a> Ranked for CountRanking<'a> {
    closed spec fn size(&self) -> nat {
        self.entries@.len()
    }

    closed spec fn before(&self) -> spec_fn(int, int) -> bool {
        stable_before(counted(self.entries@), outranks())
    }

    proof fn ordered(&self) {
        lemma_outranks_compares();
        lemma_stable_orders(counted(self.entries@), outranks());
    }

    fn count(&self) -> usize {
        self.entries.len()
    }

    fn precedes(&self, i: usize, j: usize) -> bool {
        let a = &self.entries[i];
        let b = &self.entries[j];
        proof {
            lemma_text_lt_total(a.0@, b.0@);
            lemma_text_lt_irreflexive(a.0@);
            if text_lt(a.0@, b.0@) && text_lt(b.0@, a.0@) {
                lemma_text_lt_transitive(a.0@, b.0@, a.0@);
            }
        }
        a.1 > b.1 || (a.1 == b.1 && (text_before(a.0.as_str(), b.0.as_str()) || (i < j
            && !text_before(b.0.as_str(), a.0.as_str()))))
    }
}

/// The `limit` highest of the given counts, equal counts by name.
pub fn top_entries(entries: &Vec<(String, usize)>, limit: usize) -> (r: Vec<(String, usize)>)
    requires
        counted(entries@).no_duplicates(),
    ensures
        counted(r@) == first_of(ranking(counted(entries@).to_set()), limit as nat),
{
    let ranked = CountRanking { entries };
    let chosen = select_first(&ranked, limit);
    let ghost es = counted(entries@);
    let ghost order = position_order(es.len(), stable_before(es, outranks()));
    let mut out: Vec<(String, usize)> = Vec::new();
    for i in 0..chosen.len()
        invariant
            es == counted(entries@),
            positions(chosen@) == first_of(order, limit as nat),
            order.len() == es.len(),
            forall|i: int| 0 <= i < chosen@.len() ==> #[trigger] chosen@[i] < entries@.len(),
            out@.len() == i,
            forall|k: int| 0 <= k < i ==> #[trigger] counted(out@)[k] == es[order[k]],
    {
        let k: usize = chosen[i];
        assert(positions(chosen@).len() == chosen@.len());
        assert(positions(chosen@)[i as int] == order[i as int]);
        let ghost before = out@;
        out.push((entries[k].0.clone(), entries[k].1));
        assert forall|l: int| 0 <= l < i + 1 implies #[trigger] counted(out@)[l] == es[order[l]] by {
            if l < i {
                assert(out@[l] == before[l]);
                assert(counted(before)[l] == es[order[l]]);
            }
        }
    }
    proof {
        lemma_outranks_compares();
        lemma_sorted_arranges(es, outranks());
        assert(positions(chosen@).len() == chosen@.len());
        assert(counted(out@) =~= first_of(stable_sort(es, outranks()), limit as nat));
    }
    out
}

/// The `limit` names with the highest counts, equal counts by name.
pub fn top_counts(counts: &CountMap, limit: usize) -> (r: Vec<(String, usize)>)
    ensures
        counted(r@) == top(counts@, limit as nat),
{
    proof {
        use_type_invariant(counts);
        let es = counted(counts.entries@);
        assert forall|i: int, j: int|
            0 <= i < es.len() && 0 <= j < es.len() && i != j implies es[i] != es[j] by {
            assert(counts.places@[counts.entries@[i].0@] == i);
            assert(counts.places@[counts.entries@[j].0@] == j);
        }
        assert(es.to_set() =~= pairs(counts@)) by {
            assert forall|p: Counted| es.to_set().contains(p) <==> pairs(counts@).contains(p) by {
                if es.to_set().contains(p) {
                    let i = choose|i: int| 0 <= i < es.len() && es[i] == p;
                    assert(counts.places@.contains_key(counts.entries@[i].0@));
                }
                if pairs(counts@).contains(p) {
                    assert(es[counts.places@[p.0] as int] == p);
                }
            }
        }
    }
    top_entries(&counts.entries, limit)
}

// ---------------------------------------------------------------------------------------------
// Rendering
// ---------------------------------------------------------------------------------------------
/// The entries on one line, as `NAME xCOUNT`, separated by commas.
pub fn format_count_entries(entries: Vec<(String, usize)>) -> (r: String)
    ensures
        r@ == entries_text(counted(entries@)),
{
    let mut parts: Vec<String> = Vec::new();
    let ghost lines = counted(entries@).map_values(|e: Counted| entry_text(e));
    for i in 0..entries.len()
        invariant
            lines == counted(entries@).map_values(|e: Counted| entry_text(e)),
            texts(parts@) == lines.take(i as int),
    {
        let mut part = entries[i].0.clone();
        part.append(" x");
        part.append(decimal_text(entries[i].1).as_str());
        let ghost done = texts(parts@);
        assert(part@ == lines[i as int]);
        parts.push(part);
        assert(texts(parts@) =~= done.push(part@));
        assert(lines.take(i + 1) =~= done.push(part@));
    }
    assert(lines.take(entries@.len() as int) =~= lines);
    join_texts(parts.as_slice(), ", ")
}

/// The entries as lines of the form `- NAME: COUNT`, or one line that says that there are none.
pub fn render_count_section(entries: &[(String, usize)]) -> (r: Vec<String>)
    ensures
        texts(r@) == section_lines(counted(entries@)),
{
    let mut out: Vec<String> = Vec::new();
    if entries.len() == 0 {
        out.push("- None recorded in the sampled sessions.".to_owned());
        assert(texts(out@) =~= section_lines(counted(entries@)));
        return out;
    }
    let ghost lines = counted(entries@).map_values(|e: Counted| entry_line(e));
    for i in 0..entries.len()
        invariant
            lines == counted(entries@).map_values(|e: Counted| entry_line(e)),
            texts(out@) == lines.take(i as int),
    {
        let mut line = "- ".to_owned();
        line.append(entries[i].0.as_str());
        line.append(": ");
        line.append(decimal_text(entries[i].1).as_str());
        let ghost done = texts(out@);
        assert(line@ == lines[i as int]);
        out.push(line);
        assert(texts(out@) =~= done.push(line@));
        assert(lines.take(i + 1) =~= done.push(line@));
    }
    assert(lines.take(entries@.len() as int) =~= lines);
    out
}

} // verus!
