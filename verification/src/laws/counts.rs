//! What holds of counts by name and of the highest of them.
use crate::counts::{
    added, count_of, entries_text, entry_text, lemma_outranks_compares, outranks, pairs, raised,
    ranking, section_lines, top, Counted, Counts,
};
use crate::order::{
    arranges, ascends, at_most, lemma_arrangement_exists, lemma_arrangement_len, orders,
};
use crate::text::{decimal, join, text_lt};
use vstd::prelude::*;

verus! {

/// The counts of two collections together do not depend on which is added to which, and adding to
/// nothing changes nothing.
pub proof fn law_added(a: Counts, b: Counts, c: Counts)
    ensures
        added(a, b) == added(b, a),
        added(added(a, b), c) == added(a, added(b, c)),
        added(a, Map::empty()) == a,
        forall|name: Seq<char>| #[trigger]
            count_of(added(a, b), name) == count_of(a, name) + count_of(b, name),
{
    assert(added(a, b) =~= added(b, a));
    assert(added(added(a, b), c) =~= added(a, added(b, c)));
    assert(added(a, Map::empty()) =~= a);
}

/// Counting a name once more is adding a collection in which it occurs once; it changes no other
/// count.
pub proof fn law_raised(m: Counts, name: Seq<char>, amount: nat)
    ensures
        raised(m, name, amount) == added(m, map![name => amount]),
        count_of(raised(m, name, amount), name) == count_of(m, name) + amount,
        forall|other: Seq<char>|
            other != name ==> #[trigger] count_of(raised(m, name, amount), other) == count_of(
                m,
                other,
            ),
{
    assert(raised(m, name, amount) =~= added(m, map![name => amount]));
}

/// There are as many pairs of a name and its count as there are names.
pub proof fn lemma_pairs_len(m: Counts)
    requires
        m.dom().finite(),
    ensures
        pairs(m).finite(),
        pairs(m).len() == m.dom().len(),
{
    let f = |name: Seq<char>| (name, m[name]);
    assert(m.dom().map(f) =~= pairs(m)) by {
        assert forall|p: Counted| pairs(m).contains(p) implies m.dom().map(f).contains(p) by {
            assert(m.dom().contains(p.0));
            assert(f(p.0) == p);
        }
    }
    vstd::set_lib::lemma_map_size(m.dom(), pairs(m), f);
}

/// A set of counts can be ranked: the ranking lists each of them once, higher counts first, and equal
/// counts by name.
pub proof fn law_ranking(items: Set<Counted>)
    requires
        items.finite(),
    ensures
        arranges(ranking(items), items, outranks()),
        ranking(items).no_duplicates(),
        ranking(items).len() == items.len(),
{
    lemma_outranks_compares();
    assert(orders(outranks(), items)) by {
        assert forall|a: Counted, b: Counted| #[trigger]
            items.contains(a) && #[trigger] items.contains(b) && a != b implies (outranks())(a, b)
            || (outranks())(b, a) by {}
    }
    lemma_arrangement_exists(items, outranks());
    lemma_arrangement_len(ranking(items), items, outranks());
}

/// The highest counts: at most `limit`, each with a name of the collection and the count of that
/// name, higher counts first and equal counts by name. Each of them outranks every name that is left
/// out, and none is left out while there is room.
pub proof fn law_top(m: Counts, limit: nat)
    requires
        m.dom().finite(),
    ensures
        top(m, limit).len() == at_most(limit, m.dom().len()),
        forall|i: int|
            0 <= i < top(m, limit).len() ==> m.contains_key((#[trigger] top(m, limit)[i]).0) && m[top(
                m,
                limit,
            )[i].0] == top(m, limit)[i].1,
        ascends(top(m, limit), outranks()),
        forall|name: Seq<char>, i: int|
            m.contains_key(name) && !top(m, limit).contains((name, m[name])) && 0 <= i < top(
                m,
                limit,
            ).len() ==> #[trigger] (outranks())(top(m, limit)[i], (name, m[name])),
{
    let all = ranking(pairs(m));
    let t = top(m, limit);
    lemma_pairs_len(m);
    law_ranking(pairs(m));
    assert forall|i: int| 0 <= i < t.len() implies m.contains_key((#[trigger] t[i]).0) && m[t[i].0]
        == t[i].1 by {
        assert(all.to_set().contains(all[i]));
    }
    assert forall|i: int, j: int| 0 <= i < j < t.len() implies (outranks())(
        #[trigger] t[i],
        #[trigger] t[j],
    ) by {
        assert((outranks())(all[i], all[j]));
    }
    assert forall|name: Seq<char>, i: int|
        m.contains_key(name) && !t.contains((name, m[name])) && 0 <= i
            < t.len() implies #[trigger] (outranks())(t[i], (name, m[name])) by {
        let p = (name, m[name]);
        assert(pairs(m).contains(p));
        assert(all.to_set().contains(p));
        let k = choose|k: int| 0 <= k < all.len() && all[k] == p;
        if k < t.len() {
            assert(t[k] == p);
        }
        assert((outranks())(all[i], all[k]));
    }
}

/// A name that did not occur has the count zero, and another has its own.
pub proof fn law_count_of(m: Counts, name: Seq<char>)
    ensures
        !m.contains_key(name) ==> count_of(m, name) == 0,
        m.contains_key(name) ==> count_of(m, name) == m[name],
{
}

/// The highest counts are in descending order, and equal counts in the order of their names. They are as
/// many as asked for, or all where there are fewer. What is left out has a count that is no higher than
/// any shown, and where it is equal, a name that comes later.
pub proof fn law_top_by_count(m: Counts, limit: nat)
    requires
        m.dom().finite(),
    ensures
        ({
            let t = top(m, limit);
            &&& t.len() == if limit <= m.dom().len() {
                limit
            } else {
                m.dom().len()
            }
            &&& forall|i: int|
                0 <= i < t.len() ==> m.contains_key((#[trigger] t[i]).0) && t[i].1 == m[t[i].0]
            &&& forall|i: int, j: int|
                0 <= i < j < t.len() ==> {
                    ||| (#[trigger] t[i]).1 > (#[trigger] t[j]).1
                    ||| t[i].1 == t[j].1 && text_lt(t[i].0, t[j].0)
                }
            &&& forall|name: Seq<char>, i: int|
                #![trigger m.contains_key(name), t[i]]
                m.contains_key(name) && 0 <= i < t.len() && (forall|l: int|
                    0 <= l < t.len() ==> (#[trigger] t[l]).0 != name) ==> {
                    ||| t[i].1 > m[name]
                    ||| t[i].1 == m[name] && text_lt(t[i].0, name)
                }
        }),
{
    let t = top(m, limit);
    law_top(m, limit);
    assert forall|i: int, j: int| 0 <= i < j < t.len() implies {
        ||| (#[trigger] t[i]).1 > (#[trigger] t[j]).1
        ||| t[i].1 == t[j].1 && text_lt(t[i].0, t[j].0)
    } by {
        assert((outranks())(t[i], t[j]));
    }
    assert forall|name: Seq<char>, i: int|
        #![trigger m.contains_key(name), t[i]]
        m.contains_key(name) && 0 <= i < t.len() && (forall|l: int|
            0 <= l < t.len() ==> (#[trigger] t[l]).0 != name) implies {
        ||| t[i].1 > m[name]
        ||| t[i].1 == m[name] && text_lt(t[i].0, name)
    } by {
        assert(!t.contains((name, m[name])));
        assert((outranks())(t[i], (name, m[name])));
    }
}

/// A section has a line for each entry, in order, which gives its name and its count; where there is no
/// entry, one line says so.
pub proof fn law_section(es: Seq<Counted>)
    ensures
        es.len() == 0 ==> section_lines(es) == seq!["- None recorded in the sampled sessions."@],
        es.len() > 0 ==> section_lines(es).len() == es.len(),
        forall|i: int|
            0 <= i < es.len() ==> #[trigger] section_lines(es)[i] == "- "@ + es[i].0 + ": "@
                + decimal(es[i].1),
{
}

/// Entries on one line each give their name and their count, in order, with commas between them.
pub proof fn law_entries(es: Seq<Counted>, parts: Seq<Seq<char>>)
    requires
        parts.len() == es.len(),
        forall|i: int|
            0 <= i < es.len() ==> #[trigger] parts[i] == es[i].0 + " x"@ + decimal(es[i].1),
    ensures
        entries_text(es) == join(parts, ", "@),
{
    assert(es.map_values(|e: Counted| entry_text(e)) =~= parts);
}

/// A name occurs in two collections together exactly where it occurs in one of them, and counting a name
/// makes that name occur and no other.
pub proof fn law_names(a: Counts, b: Counts, name: Seq<char>, other: Seq<char>, amount: nat)
    ensures
        added(a, b).contains_key(name) <==> a.contains_key(name) || b.contains_key(name),
        raised(a, name, amount).contains_key(other) <==> other == name || a.contains_key(other),
{
}

} // verus!
