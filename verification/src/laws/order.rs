//! What it means that texts, paths and times are ordered, and what sorting and cutting leave.
use crate::order::{
    compares_keys, first_of, lemma_arrangement_len, lemma_stable_orders, lemma_stable_sort, lex_lt,
    position_order, stable_before, stable_sort,
};
use crate::recent::{bytes_lt, component_lt, path_lt, time_lt, ComponentModel};
use crate::text::text_lt;
use vstd::prelude::*;
use vstd::set_lib::set_int_range;

verus! {

/// Whether `a` and `b` begin with the same `k` elements, and then `a` ends or differs from `b`.
pub open spec fn parts_at<T>(a: Seq<T>, b: Seq<T>, k: int) -> bool {
    &&& 0 <= k <= a.len()
    &&& k < b.len()
    &&& forall|i: int| 0 <= i < k ==> #[trigger] a[i] == b[i]
    &&& k < a.len() ==> a[k] != b[k]
}

proof fn lemma_first_difference<T>(a: Seq<T>, b: Seq<T>, lt: spec_fn(T, T) -> bool) -> (k: int)
    requires
        lex_lt(a, b, lt),
    ensures
        parts_at(a, b, k),
        k < a.len() ==> lt(a[k], b[k]),
    decreases a.len(),
{
    if a.len() == 0 || a[0] != b[0] {
        0
    } else {
        let k = lemma_first_difference(a.drop_first(), b.drop_first(), lt);
        assert forall|i: int| 0 <= i < k + 1 implies #[trigger] a[i] == b[i] by {
            if i > 0 {
                assert(a.drop_first()[i - 1] == b.drop_first()[i - 1]);
            }
        }
        if k + 1 < a.len() {
            assert(a.drop_first()[k] == a[k + 1]);
            assert(b.drop_first()[k] == b[k + 1]);
        }
        k + 1
    }
}

proof fn lemma_difference_decides<T>(a: Seq<T>, b: Seq<T>, lt: spec_fn(T, T) -> bool, k: int)
    requires
        parts_at(a, b, k),
        k < a.len() ==> lt(a[k], b[k]),
    ensures
        lex_lt(a, b, lt),
    decreases a.len(),
{
    if a.len() > 0 && k > 0 {
        let (x, y) = (a.drop_first(), b.drop_first());
        assert(a[0] == b[0]);
        assert forall|i: int| 0 <= i < k - 1 implies #[trigger] x[i] == y[i] by {
            assert(a[i + 1] == b[i + 1]);
        }
        lemma_difference_decides(x, y, lt, k - 1);
    }
}

/// A text comes before another where, at the first place at which they part, it has ended or has the
/// smaller character. All of both texts counts.
pub proof fn law_text_order(a: Seq<char>, b: Seq<char>)
    ensures
        text_lt(a, b) <==> exists|k: int| #[trigger]
            parts_at(a, b, k) && (k < a.len() ==> a[k] < b[k]),
{
    let lt = |x: char, y: char| x < y;
    if text_lt(a, b) {
        let k = lemma_first_difference(a, b, lt);
        assert(parts_at(a, b, k));
    }
    if exists|k: int| #[trigger] parts_at(a, b, k) && (k < a.len() ==> a[k] < b[k]) {
        let k = choose|k: int| #[trigger] parts_at(a, b, k) && (k < a.len() ==> a[k] < b[k]);
        lemma_difference_decides(a, b, lt, k);
    }
}

/// Byte strings are ordered by the first byte at which they part.
pub proof fn law_byte_order(a: Seq<u8>, b: Seq<u8>)
    ensures
        bytes_lt(a, b) <==> exists|k: int| #[trigger]
            parts_at(a, b, k) && (k < a.len() ==> a[k] < b[k]),
{
    let lt = |x: u8, y: u8| x < y;
    if bytes_lt(a, b) {
        let k = lemma_first_difference(a, b, lt);
        assert(parts_at(a, b, k));
    }
    if exists|k: int| #[trigger] parts_at(a, b, k) && (k < a.len() ==> a[k] < b[k]) {
        let k = choose|k: int| #[trigger] parts_at(a, b, k) && (k < a.len() ==> a[k] < b[k]);
        lemma_difference_decides(a, b, lt, k);
    }
}

/// Paths are ordered by the first component at which they part: by its kind, and within a kind by its
/// name.
pub proof fn law_path_order(a: Seq<ComponentModel>, b: Seq<ComponentModel>)
    ensures
        path_lt(a, b) <==> exists|k: int| #[trigger]
            parts_at(a, b, k) && (k < a.len() ==> a[k].0 < b[k].0 || (a[k].0 == b[k].0 && bytes_lt(
                a[k].1,
                b[k].1,
            ))),
{
    let lt = |x: ComponentModel, y: ComponentModel| component_lt(x, y);
    if path_lt(a, b) {
        let k = lemma_first_difference(a, b, lt);
        assert(parts_at(a, b, k));
    }
    if exists|k: int| #[trigger]
        parts_at(a, b, k) && (k < a.len() ==> a[k].0 < b[k].0 || (a[k].0 == b[k].0 && bytes_lt(
            a[k].1,
            b[k].1,
        ))) {
        let k = choose|k: int| #[trigger]
            parts_at(a, b, k) && (k < a.len() ==> a[k].0 < b[k].0 || (a[k].0 == b[k].0 && bytes_lt(
                a[k].1,
                b[k].1,
            )));
        lemma_difference_decides(a, b, lt, k);
    }
}

/// Known times are ordered as texts, and an unknown time comes before every known one.
pub proof fn law_time_order(a: Seq<char>, b: Seq<char>)
    ensures
        time_lt(Some(a), Some(b)) == text_lt(a, b),
        time_lt(None, Some(b)),
        !time_lt(Some(a), None),
        !time_lt(None, None),
{
}

/// Of two different texts exactly one comes before the other, and what comes between two texts is
/// between them for good.
pub proof fn law_text_order_strict(a: Seq<char>, b: Seq<char>, c: Seq<char>)
    ensures
        !text_lt(a, a),
        a == b || text_lt(a, b) || text_lt(b, a),
        !(text_lt(a, b) && text_lt(b, a)),
        text_lt(a, b) && text_lt(b, c) ==> text_lt(a, c),
{
    let lt = |x: Seq<char>, y: Seq<char>| text_lt(x, y);
    crate::text::lemma_text_lt_orders();
    assert(!lt(a, a));
    assert(lt(a, b) || a == b || lt(b, a));
    if lt(a, b) && lt(b, a) {
        assert(lt(a, a));
    }
    if lt(a, b) && lt(b, c) {
        assert(lt(a, c));
    }
}

/// Cutting a list to a number keeps its beginning: all of it, or as many elements as asked for.
pub proof fn law_first_of<T>(s: Seq<T>, limit: nat)
    ensures
        limit < s.len() ==> first_of(s, limit) == s.take(limit as int),
        limit >= s.len() ==> first_of(s, limit) == s,
{
    if limit >= s.len() {
        assert(first_of(s, limit) =~= s);
    }
}

/// Whether `at` lists positions of `s`, none of them twice.
pub open spec fn picks<T>(s: Seq<T>, at: Seq<int>) -> bool {
    &&& forall|i: int| 0 <= i < at.len() ==> 0 <= #[trigger] at[i] < s.len()
    &&& forall|i: int, j: int| 0 <= i < j < at.len() ==> #[trigger] at[i] != #[trigger] at[j]
}

/// Sorting lists every element once, in an order in which none comes before one with a smaller key,
/// and leaves elements with equal keys in the order in which they stood. The positions at which the
/// sorted elements stood are returned.
pub proof fn law_stable_sort<T>(s: Seq<T>, key_before: spec_fn(T, T) -> bool) -> (at: Seq<int>)
    requires
        compares_keys(key_before),
    ensures
        at.len() == s.len(),
        picks(s, at),
        forall|k: int| 0 <= k < s.len() ==> #[trigger] at.contains(k),
        stable_sort(s, key_before).len() == s.len(),
        forall|i: int| 0 <= i < s.len() ==> #[trigger] stable_sort(s, key_before)[i] == s[at[i]],
        forall|i: int, j: int|
            0 <= i < j < s.len() ==> {
                ||| key_before(s[#[trigger] at[i]], s[#[trigger] at[j]])
                ||| !key_before(s[at[j]], s[at[i]]) && at[i] < at[j]
            },
{
    let before = stable_before(s, key_before);
    let all = set_int_range(0, s.len() as int);
    let order = position_order(s.len(), before);
    lemma_stable_sort(s, key_before);
    lemma_stable_orders(s, key_before);
    lemma_arrangement_len(order, all, before);
    vstd::set_lib::lemma_int_range(0, s.len() as int);
    assert forall|i: int| 0 <= i < order.len() implies 0 <= #[trigger] order[i] < s.len() by {
        assert(order.to_set().contains(order[i]));
    }
    assert forall|k: int| 0 <= k < s.len() implies #[trigger] order.contains(k) by {
        assert(all.contains(k));
        assert(order.to_set().contains(k));
    }
    assert forall|i: int, j: int| 0 <= i < j < s.len() implies {
        ||| key_before(s[#[trigger] order[i]], s[#[trigger] order[j]])
        ||| !key_before(s[order[j]], s[order[i]]) && order[i] < order[j]
    } by {
        assert(before(order[i], order[j]));
    }
    order
}

} // verus!
