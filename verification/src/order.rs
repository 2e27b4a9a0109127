//! Putting things in order: what it means that a sequence arranges a set by a strict order, and the
//! selection of the first few positions of such an arrangement.
use vstd::prelude::*;
use vstd::set_lib::set_int_range;

verus! {

// ---------------------------------------------------------------------------------------------
// Model
// ---------------------------------------------------------------------------------------------
/// Whether `before` is a strict total order on `items`.
pub open spec fn orders<T>(before: spec_fn(T, T) -> bool, items: Set<T>) -> bool {
    &&& forall|a: T| #[trigger] items.contains(a) ==> !before(a, a)
    &&& forall|a: T, b: T, c: T|
        items.contains(a) && items.contains(b) && items.contains(c) && #[trigger] before(a, b)
            && #[trigger] before(b, c) ==> before(a, c)
    &&& forall|a: T, b: T| #[trigger]
        items.contains(a) && #[trigger] items.contains(b) && a != b ==> before(a, b) || before(b, a)
}

/// Whether each element of `s` comes before all that follow it.
pub open spec fn ascends<T>(s: Seq<T>, before: spec_fn(T, T) -> bool) -> bool {
    forall|i: int, j: int| 0 <= i < j < s.len() ==> before(#[trigger] s[i], #[trigger] s[j])
}

/// Whether `s` lists exactly the elements of `items`, each before all that follow it.
pub open spec fn arranges<T>(s: Seq<T>, items: Set<T>, before: spec_fn(T, T) -> bool) -> bool {
    &&& ascends(s, before)
    &&& s.to_set() == items
}

/// The elements of `items` in order.
pub open spec fn arrangement<T>(items: Set<T>, before: spec_fn(T, T) -> bool) -> Seq<T> {
    choose|s: Seq<T>| arranges(s, items, before)
}

/// The positions `0..n` in order.
pub open spec fn position_order(n: nat, before: spec_fn(int, int) -> bool) -> Seq<int> {
    arrangement(set_int_range(0, n as int), before)
}

pub open spec fn at_most(limit: nat, len: nat) -> int {
    if limit <= len {
        limit as int
    } else {
        len as int
    }
}

/// The first `limit` elements, or all where there are fewer.
pub open spec fn first_of<T>(s: Seq<T>, limit: nat) -> Seq<T> {
    s.take(at_most(limit, s.len()))
}

/// The elements of `s` by a key order, those with equal keys left as they stand in `s`.
pub open spec fn stable_before<T>(s: Seq<T>, key_before: spec_fn(T, T) -> bool) -> spec_fn(
    int,
    int,
) -> bool {
    |i: int, j: int| key_before(s[i], s[j]) || (!key_before(s[j], s[i]) && i < j)
}

/// The elements of `s` sorted by a key order, those with equal keys left as they stand in `s`.
pub open spec fn stable_sort<T>(s: Seq<T>, key_before: spec_fn(T, T) -> bool) -> Seq<T> {
    position_order(s.len(), stable_before(s, key_before)).map_values(|i: int| s[i])
}

/// Whether `key_before` compares keys: it is a strict order, and having equal keys is transitive.
pub open spec fn compares_keys<T>(key_before: spec_fn(T, T) -> bool) -> bool {
    &&& forall|a: T| !#[trigger] key_before(a, a)
    &&& forall|a: T, b: T, c: T| #[trigger]
        key_before(a, b) && #[trigger] key_before(b, c) ==> key_before(a, c)
    &&& forall|a: T, b: T, c: T| #[trigger]
        key_before(a, c) ==> #[trigger] key_before(a, b) || key_before(b, c)
}

/// Whether `lt` is a strict total order on all values of its type.
pub open spec fn orders_all<T>(lt: spec_fn(T, T) -> bool) -> bool {
    &&& forall|a: T| !#[trigger] lt(a, a)
    &&& forall|a: T, b: T, c: T| #[trigger] lt(a, b) && #[trigger] lt(b, c) ==> lt(a, c)
    &&& forall|a: T, b: T| #[trigger] lt(a, b) || a == b || lt(b, a)
}

/// Dictionary order: the first difference decides, and a beginning comes before the whole.
pub open spec fn lex_lt<T>(a: Seq<T>, b: Seq<T>, lt: spec_fn(T, T) -> bool) -> bool
    decreases a.len(),
{
    if b.len() == 0 {
        false
    } else if a.len() == 0 {
        true
    } else if a[0] != b[0] {
        lt(a[0], b[0])
    } else {
        lex_lt(a.drop_first(), b.drop_first(), lt)
    }
}

// ---------------------------------------------------------------------------------------------
// Laws
// ---------------------------------------------------------------------------------------------
proof fn lemma_lex_irreflexive<T>(a: Seq<T>, lt: spec_fn(T, T) -> bool)
    ensures
        !lex_lt(a, a, lt),
    decreases a.len(),
{
    if a.len() > 0 {
        lemma_lex_irreflexive(a.drop_first(), lt);
    }
}

proof fn lemma_lex_transitive<T>(a: Seq<T>, b: Seq<T>, c: Seq<T>, lt: spec_fn(T, T) -> bool)
    requires
        orders_all(lt),
        lex_lt(a, b, lt),
        lex_lt(b, c, lt),
    ensures
        lex_lt(a, c, lt),
    decreases a.len(),
{
    if a.len() > 0 {
        if a[0] == b[0] && b[0] == c[0] {
            lemma_lex_transitive(a.drop_first(), b.drop_first(), c.drop_first(), lt);
        } else if a[0] != b[0] && b[0] != c[0] {
            assert(lt(a[0], b[0]) && lt(b[0], c[0]));
            assert(lt(a[0], c[0]));
        }
    }
}

proof fn lemma_lex_total<T>(a: Seq<T>, b: Seq<T>, lt: spec_fn(T, T) -> bool)
    requires
        orders_all(lt),
    ensures
        lex_lt(a, b, lt) || a == b || lex_lt(b, a, lt),
    decreases a.len(),
{
    if a.len() == 0 || b.len() == 0 {
        assert(a.len() == 0 && b.len() == 0 ==> a =~= b);
    } else if a[0] == b[0] {
        lemma_lex_total(a.drop_first(), b.drop_first(), lt);
        assert(a =~= seq![a[0]] + a.drop_first());
        assert(b =~= seq![b[0]] + b.drop_first());
        assert(lex_lt(b, a, lt) == lex_lt(b.drop_first(), a.drop_first(), lt));
    } else {
        assert(lt(a[0], b[0]) || lt(b[0], a[0]));
    }
}

/// A strict total order of letters gives a strict total order of words.
pub proof fn lemma_lex_orders<T>(lt: spec_fn(T, T) -> bool)
    requires
        orders_all(lt),
    ensures
        orders_all(|a: Seq<T>, b: Seq<T>| lex_lt(a, b, lt)),
{
    let lex = |a: Seq<T>, b: Seq<T>| lex_lt(a, b, lt);
    assert forall|a: Seq<T>| !#[trigger] lex(a, a) by {
        lemma_lex_irreflexive(a, lt);
    }
    assert forall|a: Seq<T>, b: Seq<T>, c: Seq<T>| #[trigger] lex(a, b) && #[trigger] lex(
        b,
        c,
    ) implies lex(a, c) by {
        lemma_lex_transitive(a, b, c, lt);
    }
    assert forall|a: Seq<T>, b: Seq<T>| #[trigger] lex(a, b) || a == b || lex(b, a) by {
        lemma_lex_total(a, b, lt);
    }
}

/// A finite non-empty set that is strictly ordered has a first element.
proof fn lemma_first_exists<T>(items: Set<T>, before: spec_fn(T, T) -> bool) -> (m: T)
    requires
        items.finite(),
        items.len() > 0,
        orders(before, items),
    ensures
        items.contains(m),
        forall|x: T| #[trigger] items.contains(x) && x != m ==> before(m, x),
    decreases items.len(),
{
    let x = items.choose();
    let rest = items.remove(x);
    if rest.len() == 0 {
        assert forall|y: T| #[trigger] items.contains(y) && y != x implies before(x, y) by {
            assert(rest.contains(y));
        }
        x
    } else {
        assert(orders(before, rest));
        let m = lemma_first_exists(rest, before);
        assert(rest.contains(m));
        if before(x, m) {
            assert forall|y: T| #[trigger] items.contains(y) && y != x implies before(x, y) by {
                assert(rest.contains(y));
                if y != m {
                    assert(before(m, y));
                }
            }
            x
        } else {
            assert forall|y: T| #[trigger] items.contains(y) && y != m implies before(m, y) by {
                if y != x {
                    assert(rest.contains(y));
                }
            }
            m
        }
    }
}

/// Every finite set that is strictly ordered can be arranged.
pub proof fn lemma_arrangement_exists<T>(items: Set<T>, before: spec_fn(T, T) -> bool)
    requires
        items.finite(),
        orders(before, items),
    ensures
        arranges(arrangement(items, before), items, before),
    decreases items.len(),
{
    if items.len() == 0 {
        let s = Seq::<T>::empty();
        assert(s.to_set() =~= items);
        assert(arranges(s, items, before));
    } else {
        let m = lemma_first_exists(items, before);
        let rest = items.remove(m);
        assert(orders(before, rest));
        lemma_arrangement_exists(rest, before);
        let tail = arrangement(rest, before);
        let s = seq![m] + tail;
        assert forall|i: int, j: int| 0 <= i < j < s.len() implies before(
            #[trigger] s[i],
            #[trigger] s[j],
        ) by {
            assert(tail.to_set().contains(tail[j - 1]));
            if i > 0 {
                assert(before(tail[i - 1], tail[j - 1]));
            }
        }
        assert(s.to_set() =~= items) by {
            assert forall|x: T| s.to_set().contains(x) <==> items.contains(x) by {
                if items.contains(x) {
                    if x == m {
                        assert(s[0] == x);
                    } else {
                        assert(tail.to_set().contains(x));
                        let k = choose|k: int| 0 <= k < tail.len() && tail[k] == x;
                        assert(s[k + 1] == x);
                    }
                }
                if s.to_set().contains(x) {
                    let k = choose|k: int| 0 <= k < s.len() && s[k] == x;
                    if k > 0 {
                        assert(tail.to_set().contains(tail[k - 1]));
                    }
                }
            }
        }
        assert(arranges(s, items, before));
    }
}

/// A set is arranged in one way only.
pub proof fn lemma_arrangement_unique<T>(
    s: Seq<T>,
    t: Seq<T>,
    items: Set<T>,
    before: spec_fn(T, T) -> bool,
)
    requires
        orders(before, items),
        arranges(s, items, before),
        arranges(t, items, before),
    ensures
        s == t,
    decreases s.len(),
{
    if s.len() == 0 {
        if t.len() > 0 {
            assert(t.to_set().contains(t[0]));
            assert(s.to_set().contains(t[0]));
        }
        assert(s =~= t);
    } else {
        assert(s.to_set().contains(s[0]));
        assert(t.to_set().contains(s[0]));
        assert(t.to_set().contains(t[0]));
        assert(s.to_set().contains(t[0]));
        let k = choose|k: int| 0 <= k < t.len() && t[k] == s[0];
        let l = choose|l: int| 0 <= l < s.len() && s[l] == t[0];
        if s[0] != t[0] {
            assert(before(t[0], t[k]));
            assert(before(s[0], s[l]));
            assert(before(s[0], s[0]));
        }
        let rest = items.remove(s[0]);
        assert(orders(before, rest));
        lemma_tail_arranges(s, items, before);
        lemma_tail_arranges(t, items, before);
        lemma_arrangement_unique(s.drop_first(), t.drop_first(), rest, before);
        assert(s =~= seq![s[0]] + s.drop_first());
        assert(t =~= seq![t[0]] + t.drop_first());
    }
}

proof fn lemma_tail_arranges<T>(s: Seq<T>, items: Set<T>, before: spec_fn(T, T) -> bool)
    requires
        orders(before, items),
        arranges(s, items, before),
        s.len() > 0,
    ensures
        arranges(s.drop_first(), items.remove(s[0]), before),
{
    let tail = s.drop_first();
    assert forall|i: int, j: int| 0 <= i < j < tail.len() implies before(
        #[trigger] tail[i],
        #[trigger] tail[j],
    ) by {
        assert(before(s[i + 1], s[j + 1]));
    }
    assert(tail.to_set() =~= items.remove(s[0])) by {
        assert forall|x: T| tail.to_set().contains(x) <==> items.remove(s[0]).contains(x) by {
            if tail.to_set().contains(x) {
                let k = choose|k: int| 0 <= k < tail.len() && tail[k] == x;
                assert(s[k + 1] == x);
                assert(s.to_set().contains(x));
                assert(before(s[0], s[k + 1]));
            }
            if items.remove(s[0]).contains(x) {
                assert(s.to_set().contains(x));
                let k = choose|k: int| 0 <= k < s.len() && s[k] == x;
                assert(tail[k - 1] == x);
            }
        }
    }
}

/// An arrangement lists every element once.
pub proof fn lemma_arrangement_len<T>(s: Seq<T>, items: Set<T>, before: spec_fn(T, T) -> bool)
    requires
        orders(before, items),
        arranges(s, items, before),
    ensures
        s.no_duplicates(),
        items.finite(),
        s.len() == items.len(),
{
    assert forall|i: int, j: int| 0 <= i < s.len() && 0 <= j < s.len() && i != j implies s[i]
        != s[j] by {
        assert(s.to_set().contains(s[i]));
        if i < j {
            assert(before(s[i], s[j]));
        } else {
            assert(before(s[j], s[i]));
        }
    }
    s.unique_seq_to_set();
}

/// What ascends and comes before all else is the beginning of the arrangement.
pub proof fn lemma_beginning<T>(s: Seq<T>, items: Set<T>, before: spec_fn(T, T) -> bool)
    requires
        items.finite(),
        orders(before, items),
        ascends(s, before),
        s.to_set().subset_of(items),
        forall|i: int, y: T|
            0 <= i < s.len() && #[trigger] items.contains(y) && !s.contains(y) ==> before(
                #[trigger] s[i],
                y,
            ),
    ensures
        s.len() <= arrangement(items, before).len(),
        s == arrangement(items, before).take(s.len() as int),
        arrangement(items, before).len() == items.len(),
{
    let rest = items.difference(s.to_set());
    assert(orders(before, rest));
    lemma_arrangement_exists(rest, before);
    let tail = arrangement(rest, before);
    let full = s + tail;
    assert forall|i: int, j: int| 0 <= i < j < full.len() implies before(
        #[trigger] full[i],
        #[trigger] full[j],
    ) by {
        if j < s.len() {
            assert(before(s[i], s[j]));
        } else {
            let y = tail[j - s.len()];
            assert(tail.to_set().contains(y));
            assert(rest.contains(y));
            assert(!s.to_set().contains(y));
            assert(!s.contains(y));
            if i < s.len() {
                assert(before(s[i], y));
            } else {
                assert(before(tail[i - s.len()], tail[j - s.len()]));
            }
        }
    }
    assert(full.to_set() =~= items) by {
        assert forall|x: T| full.to_set().contains(x) <==> items.contains(x) by {
            if full.to_set().contains(x) {
                let k = choose|k: int| 0 <= k < full.len() && full[k] == x;
                if k < s.len() {
                    assert(s.to_set().contains(s[k]));
                } else {
                    assert(tail.to_set().contains(tail[k - s.len()]));
                }
            }
            if items.contains(x) {
                if s.to_set().contains(x) {
                    let k = choose|k: int| 0 <= k < s.len() && s[k] == x;
                    assert(full[k] == x);
                } else {
                    assert(tail.to_set().contains(x));
                    let k = choose|k: int| 0 <= k < tail.len() && tail[k] == x;
                    assert(full[k + s.len()] == x);
                }
            }
        }
    }
    lemma_arrangement_exists(items, before);
    lemma_arrangement_unique(full, arrangement(items, before), items, before);
    lemma_arrangement_len(full, items, before);
    assert(s =~= full.take(s.len() as int));
}

/// Positions that are compared by keys, and by place where their keys are equal, are strictly
/// ordered.
pub proof fn lemma_stable_orders<T>(s: Seq<T>, key_before: spec_fn(T, T) -> bool)
    requires
        compares_keys(key_before),
    ensures
        orders(stable_before(s, key_before), set_int_range(0, s.len() as int)),
{
    let before = stable_before(s, key_before);
    assert forall|a: int, b: int, c: int| #[trigger]
        before(a, b) && #[trigger] before(b, c) implies before(a, c) by {
        let (x, y, z) = (s[a], s[b], s[c]);
        if key_before(z, x) {
            assert(key_before(z, y) || key_before(y, x));
        }
        if key_before(x, y) {
            assert(key_before(x, z) || key_before(z, y));
        }
        if key_before(y, z) {
            assert(key_before(y, x) || key_before(x, z));
        }
    }
}

/// Sorting keeps every element, puts none before one with a smaller key, and leaves those with
/// equal keys as they stood.
pub proof fn lemma_stable_sort<T>(s: Seq<T>, key_before: spec_fn(T, T) -> bool)
    requires
        compares_keys(key_before),
    ensures
        stable_sort(s, key_before).len() == s.len(),
        stable_sort(s, key_before).to_multiset() == s.to_multiset(),
        forall|i: int, j: int|
            0 <= i < j < s.len() ==> !key_before(
                #[trigger] stable_sort(s, key_before)[j],
                #[trigger] stable_sort(s, key_before)[i],
            ),
        arranges(
            position_order(s.len(), stable_before(s, key_before)),
            set_int_range(0, s.len() as int),
            stable_before(s, key_before),
        ),
{
    let n = s.len() as int;
    let before = stable_before(s, key_before);
    lemma_stable_orders(s, key_before);
    vstd::set_lib::lemma_int_range(0, n);
    lemma_arrangement_exists(set_int_range(0, n), before);
    let order = position_order(s.len(), before);
    lemma_arrangement_len(order, set_int_range(0, n), before);
    let t = stable_sort(s, key_before);
    assert forall|i: int, j: int| 0 <= i < j < s.len() implies !key_before(
        #[trigger] t[j],
        #[trigger] t[i],
    ) by {
        assert(before(order[i], order[j]));
        if key_before(t[i], t[j]) && key_before(t[j], t[i]) {
            assert(key_before(t[i], t[i]));
        }
    }
    lemma_rearranged(s, order);
}

/// Where no two elements have equal keys, sorting arranges the elements.
pub proof fn lemma_sorted_arranges<T>(s: Seq<T>, key_before: spec_fn(T, T) -> bool)
    requires
        compares_keys(key_before),
        s.no_duplicates(),
        forall|i: int, j: int|
            0 <= i < s.len() && 0 <= j < s.len() && i != j ==> key_before(
                #[trigger] s[i],
                #[trigger] s[j],
            ) || key_before(s[j], s[i]),
    ensures
        orders(key_before, s.to_set()),
        stable_sort(s, key_before) == arrangement(s.to_set(), key_before),
        arranges(stable_sort(s, key_before), s.to_set(), key_before),
{
    let before = stable_before(s, key_before);
    let order = position_order(s.len(), before);
    let sorted = stable_sort(s, key_before);
    let all = set_int_range(0, s.len() as int);
    lemma_stable_sort(s, key_before);
    lemma_stable_orders(s, key_before);
    lemma_arrangement_len(order, all, before);
    assert(orders(key_before, s.to_set())) by {
        assert forall|a: T, b: T| #[trigger]
            s.to_set().contains(a) && #[trigger] s.to_set().contains(b) && a != b implies key_before(
            a,
            b,
        ) || key_before(b, a) by {
            let i = choose|i: int| 0 <= i < s.len() && s[i] == a;
            let j = choose|j: int| 0 <= j < s.len() && s[j] == b;
            assert(key_before(s[i], s[j]) || key_before(s[j], s[i]));
        }
    }
    assert forall|i: int, j: int| 0 <= i < j < sorted.len() implies key_before(
        #[trigger] sorted[i],
        #[trigger] sorted[j],
    ) by {
        assert(order.to_set().contains(order[i]));
        assert(order.to_set().contains(order[j]));
        assert(all.contains(order[i]) && all.contains(order[j]));
        assert(before(order[i], order[j]));
        assert(order[i] != order[j]);
        assert(key_before(s[order[i]], s[order[j]]) || key_before(s[order[j]], s[order[i]]));
    }
    assert(sorted.to_set() =~= s.to_set()) by {
        assert forall|x: T| sorted.to_set().contains(x) <==> s.to_set().contains(x) by {
            if sorted.to_set().contains(x) {
                let k = choose|k: int| 0 <= k < sorted.len() && sorted[k] == x;
                assert(order.to_set().contains(order[k]));
                assert(all.contains(order[k]));
                assert(s[order[k]] == x);
            }
            if s.to_set().contains(x) {
                let k = choose|k: int| 0 <= k < s.len() && s[k] == x;
                assert(all.contains(k));
                assert(order.to_set().contains(k));
                let l = choose|l: int| 0 <= l < order.len() && order[l] == k;
                assert(sorted[l] == x);
            }
        }
    }
    assert(arranges(sorted, s.to_set(), key_before));
    lemma_arrangement_unique(sorted, arrangement(s.to_set(), key_before), s.to_set(), key_before);
}

/// Listing the elements of `s` by all of its positions in some order keeps the elements.
proof fn lemma_rearranged<T>(s: Seq<T>, order: Seq<int>)
    requires
        order.no_duplicates(),
        order.len() == s.len(),
        order.to_set() == set_int_range(0, s.len() as int),
    ensures
        order.map_values(|i: int| s[i]).to_multiset() == s.to_multiset(),
    decreases s.len(),
{
    broadcast use vstd::seq_lib::group_to_multiset_ensures;

    let t = order.map_values(|i: int| s[i]);
    if s.len() == 0 {
        assert(t =~= s);
    } else {
        let last = s.len() - 1;
        assert(order.to_set().contains(last));
        let k = choose|k: int| 0 <= k < order.len() && order[k] == last;
        let rest = order.remove(k);
        let s1 = s.drop_last();
        assert(rest.no_duplicates());
        assert(rest.to_set() =~= set_int_range(0, last)) by {
            assert forall|x: int| rest.to_set().contains(x) <==> set_int_range(0, last).contains(
                x,
            ) by {
                if rest.to_set().contains(x) {
                    let m = choose|m: int| 0 <= m < rest.len() && rest[m] == x;
                    let m1 = if m < k {
                        m
                    } else {
                        m + 1
                    };
                    assert(order[m1] == x);
                    assert(order.to_set().contains(x));
                    assert(x != last);
                }
                if set_int_range(0, last).contains(x) {
                    assert(order.to_set().contains(x));
                    let m = choose|m: int| 0 <= m < order.len() && order[m] == x;
                    let m1 = if m < k {
                        m
                    } else {
                        m - 1
                    };
                    assert(rest[m1] == x);
                }
            }
        }
        lemma_rearranged(s1, rest);
        assert forall|i: int| 0 <= i < rest.len() implies s1[#[trigger] rest[i]] == s[rest[i]] by {
            assert(rest.to_set().contains(rest[i]));
        }
        assert(rest.map_values(|i: int| s1[i]) =~= t.remove(k));
        assert(t =~= t.remove(k).insert(k, s[last]));
        assert(s =~= s1.push(s[last]));
    }
}

// ---------------------------------------------------------------------------------------------
// Selection
// ---------------------------------------------------------------------------------------------
/// Things that are ranked by position.
pub trait Ranked {
    spec fn size(&self) -> nat;

    spec fn before(&self) -> spec_fn(int, int) -> bool;

    proof fn ordered(&self)
        ensures
            orders(self.before(), set_int_range(0, self.size() as int)),
    ;

    fn count(&self) -> (r: usize)
        ensures
            r == self.size(),
    ;

    fn precedes(&self, i: usize, j: usize) -> (r: bool)
        requires
            i < self.size(),
            j < self.size(),
        ensures
            r == (self.before())(i as int, j as int),
    ;
}

/// Positions as mathematical integers.
pub open spec fn positions(v: Seq<usize>) -> Seq<int> {
    Seq::new(v.len(), |i: int| v[i] as int)
}

/// Whether each of the positions `s` comes before all of `0..n` that are not in `s`.
pub open spec fn leads(s: Seq<int>, n: nat, before: spec_fn(int, int) -> bool) -> bool {
    forall|i: int, y: int|
        0 <= i < s.len() && 0 <= y < n && !s.contains(y) ==> #[trigger] before(s[i], y)
}

/// The first of the positions that come after all of `chosen`, if there is one.
fn next_position<R: Ranked>(ranked: &R, chosen: &Vec<usize>) -> (r: Option<usize>)
    requires
        ascends(positions(chosen@), ranked.before()),
        positions(chosen@).to_set().subset_of(set_int_range(0, ranked.size() as int)),
        leads(positions(chosen@), ranked.size(), ranked.before()),
    ensures
        match r {
            Some(m) => {
                &&& m < ranked.size()
                &&& !positions(chosen@).contains(m as int)
                &&& forall|y: int|
                    0 <= y < ranked.size() && y != m && !positions(chosen@).contains(y)
                        ==> #[trigger] (ranked.before())(m as int, y)
            },
            None => forall|y: int|
                0 <= y < ranked.size() ==> #[trigger] positions(chosen@).contains(y),
        },
{
    let n = ranked.count();
    let ghost all = set_int_range(0, ranked.size() as int);
    let ghost before = ranked.before();
    let ghost pos = positions(chosen@);
    let k = chosen.len();
    let mut best: Option<usize> = None;
    proof {
        ranked.ordered();
        if k > 0 {
            assert(pos.to_set().contains(pos[k - 1]));
            assert(all.contains(pos[k - 1]));
        }
    }
    for i in 0..n
        invariant
            n == ranked.size(),
            k == chosen@.len(),
            pos == positions(chosen@),
            before == ranked.before(),
            all == set_int_range(0, ranked.size() as int),
            orders(before, all),
            ascends(pos, before),
            k > 0 ==> 0 <= pos[k - 1] < ranked.size(),
            pos.to_set().subset_of(all),
            leads(pos, ranked.size(), before),
            match best {
                Some(m) => {
                    &&& m < i
                    &&& !pos.contains(m as int)
                    &&& forall|y: int|
                        0 <= y < i && y != m && !pos.contains(y) ==> #[trigger] before(m as int, y)
                },
                None => forall|y: int| 0 <= y < i ==> #[trigger] pos.contains(y),
            },
    {
        let free = k == 0 || ranked.precedes(chosen[k - 1], i);
        proof {
            assert(all.contains(i as int));
            if pos.contains(i as int) {
                let l = choose|l: int| 0 <= l < pos.len() && pos[l] == i as int;
                if l < k - 1 {
                    assert(before(pos[l], pos[k - 1]));
                    if before(pos[k - 1], pos[l]) {
                        assert(all.contains(pos[k - 1]));
                        assert(before(pos[l], pos[l]));
                    }
                }
            }
            assert(free == !pos.contains(i as int));
        }
        if free {
            match best {
                Some(m) => {
                    if ranked.precedes(i, m) {
                        proof {
                            assert(all.contains(m as int));
                            assert forall|y: int|
                                0 <= y < i + 1 && y != i && !pos.contains(
                                    y,
                                ) implies #[trigger] before(i as int, y) by {
                                assert(all.contains(y));
                                if y != m {
                                    assert(before(m as int, y));
                                }
                            }
                        }
                        best = Some(i);
                    } else {
                        assert(all.contains(m as int));
                    }
                },
                None => {
                    best = Some(i);
                },
            }
        }
    }
    best
}

/// The positions of the first `limit` things by rank.
pub fn select_first<R: Ranked>(ranked: &R, limit: usize) -> (r: Vec<usize>)
    ensures
        positions(r@) == first_of(position_order(ranked.size(), ranked.before()), limit as nat),
        position_order(ranked.size(), ranked.before()).len() == ranked.size(),
        forall|i: int| 0 <= i < r@.len() ==> #[trigger] r@[i] < ranked.size(),
{
    let mut out: Vec<usize> = Vec::new();
    let ghost all = set_int_range(0, ranked.size() as int);
    let ghost before = ranked.before();
    let ghost full = position_order(ranked.size(), before);
    proof {
        ranked.ordered();
        vstd::set_lib::lemma_int_range(0, ranked.size() as int);
        assert(positions(out@).to_set() =~= Set::<int>::empty());
        lemma_beginning(positions(out@), all, before);
    }
    while out.len() < limit
        invariant
            all == set_int_range(0, ranked.size() as int),
            all.finite(),
            all.len() == ranked.size(),
            before == ranked.before(),
            full == position_order(ranked.size(), before),
            full.len() == ranked.size(),
            orders(before, all),
            out@.len() <= limit,
            out@.len() <= ranked.size(),
            ascends(positions(out@), before),
            positions(out@).to_set().subset_of(all),
            positions(out@) == full.take(out@.len() as int),
            forall|i: int| 0 <= i < out@.len() ==> #[trigger] out@[i] < ranked.size(),
            leads(positions(out@), ranked.size(), before),
        ensures
            positions(out@) == first_of(full, limit as nat),
            forall|i: int| 0 <= i < out@.len() ==> #[trigger] out@[i] < ranked.size(),
        decreases limit - out@.len(),
    {
        let ghost pos = positions(out@);
        match next_position(ranked, &out) {
            Some(m) => {
                out.push(m);
                proof {
                    let next = positions(out@);
                    assert(next =~= pos.push(m as int));
                    assert forall|i: int, j: int| 0 <= i < j < next.len() implies before(
                        #[trigger] next[i],
                        #[trigger] next[j],
                    ) by {
                        if j < pos.len() {
                            assert(before(pos[i], pos[j]));
                        } else {
                            assert(before(pos[i], m as int));
                        }
                    }
                    assert forall|x: int| next.to_set().contains(x) implies all.contains(x) by {
                        let l = choose|l: int| 0 <= l < next.len() && next[l] == x;
                        if l < pos.len() {
                            assert(pos.to_set().contains(pos[l]));
                        }
                    }
                    assert forall|i: int, y: int|
                        0 <= i < next.len() && #[trigger] all.contains(y) && !next.contains(
                            y,
                        ) implies before(#[trigger] next[i], y) by {
                        if pos.contains(y) {
                            let l = choose|l: int| 0 <= l < pos.len() && pos[l] == y;
                            assert(next[l] == y);
                        }
                        assert(next[pos.len() as int] == m as int);
                        assert(y != m);
                        if i < pos.len() {
                            assert(before(pos[i], y));
                        }
                    }
                    assert forall|i: int, y: int|
                        0 <= i < next.len() && 0 <= y < ranked.size() && !next.contains(
                            y,
                        ) implies #[trigger] before(next[i], y) by {
                        assert(all.contains(y));
                    }
                    lemma_beginning(next, all, before);
                }
            },
            None => {
                proof {
                    assert(pos.to_set() =~= all) by {
                        assert forall|y: int| all.contains(y) implies pos.to_set().contains(y) by {
                            assert(pos.contains(y));
                        }
                    }
                    assert(arranges(pos, all, before));
                    lemma_arrangement_len(pos, all, before);
                }
                break;
            },
        }
    }
    out
}

} // verus!
