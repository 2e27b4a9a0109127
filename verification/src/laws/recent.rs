//! What holds of the choice of sessions.
use crate::order::{
    arrangement, arranges, ascends, at_most, first_of, lemma_arrangement_len, lemma_beginning,
    lemma_sorted_arranges, lemma_stable_orders, lemma_stable_sort, orders, position_order,
    stable_before, stable_sort,
};
use crate::recent::{
    distinct, fetch_limit_of, lemma_newer_compares, lemma_time_lt_orders, listing_error_of,
    lists_path, newer, path_lt, recent_of, time_lt, ComponentModel, ThreadModel,
};
use vstd::prelude::*;
use vstd::set_lib::set_int_range;

verus! {

/// Of the listed sessions exactly those are kept that are not the current one, each path once, and
/// by the item that lists it first.
pub proof fn law_distinct(items: Seq<ThreadModel>, current: Option<Seq<ComponentModel>>)
    ensures
        forall|i: int|
            0 <= i < distinct(items, current).len() ==> current != Some(
                (#[trigger] distinct(items, current)[i]).path,
            ),
        forall|i: int, j: int|
            0 <= i < j < distinct(items, current).len() ==> (#[trigger] distinct(
                items,
                current,
            )[i]).path != (#[trigger] distinct(items, current)[j]).path,
        forall|i: int|
            0 <= i < distinct(items, current).len() ==> first_listed(
                items,
                #[trigger] distinct(items, current)[i],
            ),
        forall|j: int|
            0 <= j < items.len() && current != Some((#[trigger] items[j]).path) ==> lists_path(
                distinct(items, current),
                items[j].path,
            ),
    decreases items.len(),
{
    if items.len() > 0 {
        let rest = items.drop_last();
        law_distinct(rest, current);
        let before = distinct(rest, current);
        let after = distinct(items, current);
        let last = items.last();
        assert forall|i: int| 0 <= i < after.len() implies first_listed(
            items,
            #[trigger] after[i],
        ) by {
            if i < before.len() {
                assert(after[i] == before[i]);
                assert(first_listed(rest, before[i]));
                let j = choose|j: int|
                    0 <= j < rest.len() && #[trigger] rest[j] == before[i] && forall|l: int|
                        0 <= l < j ==> (#[trigger] rest[l]).path != before[i].path;
                assert(items[j] == after[i]);
                assert forall|l: int| 0 <= l < j implies (#[trigger] items[l]).path
                    != after[i].path by {
                    assert(rest[l].path != before[i].path);
                }
            } else {
                let n = items.len() - 1;
                assert(items[n] == after[i]);
                assert forall|l: int| 0 <= l < n implies (#[trigger] items[l]).path
                    != after[i].path by {
                    assert(rest[l] == items[l]);
                    if items[l].path == last.path {
                        assert(lists_path(before, rest[l].path));
                    }
                }
            }
        }
        assert forall|j: int|
            0 <= j < items.len() && current != Some((#[trigger] items[j]).path) implies lists_path(
            after,
            items[j].path,
        ) by {
            if j < rest.len() {
                assert(rest[j] == items[j]);
                assert(lists_path(before, rest[j].path));
                let k = choose|k: int|
                    0 <= k < before.len() && (#[trigger] before[k]).path == items[j].path;
                assert(after[k].path == items[j].path);
            } else if lists_path(before, last.path) {
                let k = choose|k: int|
                    0 <= k < before.len() && (#[trigger] before[k]).path == last.path;
                assert(after[k].path == last.path);
            } else {
                assert(after[before.len() as int].path == last.path);
            }
        }
    }
}

/// Whether `item` is listed, and is the first that is listed of its path.
pub open spec fn first_listed(items: Seq<ThreadModel>, item: ThreadModel) -> bool {
    exists|j: int|
        0 <= j < items.len() && #[trigger] items[j] == item && forall|l: int|
            0 <= l < j ==> (#[trigger] items[l]).path != item.path
}

/// The recent sessions are at most `limit` of the listed ones, newest first. The current session is
/// not among them, and no session occurs twice. One that is left out is the current session, or
/// `limit` newer sessions are chosen.
pub proof fn law_recent(
    items: Seq<ThreadModel>,
    current: Option<Seq<ComponentModel>>,
    limit: nat,
)
    ensures
        ({
            let r = recent_of(items, current, limit);
            &&& r.len() == at_most(limit, distinct(items, current).len())
            &&& forall|i: int| 0 <= i < r.len() ==> current != Some((#[trigger] r[i]).path)
            &&& forall|i: int| 0 <= i < r.len() ==> first_listed(items, #[trigger] r[i])
            &&& forall|i: int, j: int|
                0 <= i < j < r.len() ==> (#[trigger] r[i]).path != (#[trigger] r[j]).path
            &&& ascends(r, newer())
            &&& forall|j: int|
                0 <= j < items.len() && current != Some((#[trigger] items[j]).path) && !lists_path(
                    r,
                    items[j].path,
                ) ==> {
                    &&& r.len() == limit
                    &&& forall|i: int, k: int|
                        0 <= i < r.len() && 0 <= k < distinct(items, current).len() && distinct(
                            items,
                            current,
                        )[k].path == items[j].path ==> #[trigger] (newer())(
                            r[i],
                            distinct(items, current)[k],
                        )
                }
        }),
{
    let kept = distinct(items, current);
    let n = kept.len() as int;
    let before = stable_before(kept, newer());
    let order = position_order(kept.len(), before);
    let sorted = stable_sort(kept, newer());
    let r = recent_of(items, current, limit);
    law_distinct(items, current);
    lemma_newer_compares();
    lemma_stable_sort(kept, newer());
    lemma_stable_orders(kept, newer());
    lemma_arrangement_len(order, set_int_range(0, n), before);
    assert forall|i: int| 0 <= i < n implies 0 <= #[trigger] order[i] < n by {
        assert(order.to_set().contains(order[i]));
    }
    assert forall|i: int, j: int| 0 <= i < j < n implies (#[trigger] sorted[i]).path != (
    #[trigger] sorted[j]).path by {
        assert(order[i] != order[j]);
        if order[i] < order[j] {
            assert(kept[order[i]].path != kept[order[j]].path);
        } else {
            assert(kept[order[j]].path != kept[order[i]].path);
        }
    }
    assert forall|i: int, j: int| 0 <= i < j < n implies (newer())(
        #[trigger] sorted[i],
        #[trigger] sorted[j],
    ) by {
        assert(!(newer())(sorted[j], sorted[i]));
        assert((newer())(sorted[i], sorted[j]) || (newer())(sorted[j], sorted[i]));
    }
    assert forall|i: int| 0 <= i < r.len() implies current != Some((#[trigger] r[i]).path)
        && first_listed(items, r[i]) by {
        assert(r[i] == kept[order[i]]);
    }
    assert forall|i: int, j: int| 0 <= i < j < r.len() implies (newer())(
        #[trigger] r[i],
        #[trigger] r[j],
    ) && r[i].path != r[j].path by {
        assert(r[i] == sorted[i] && r[j] == sorted[j]);
    }
    assert forall|j: int|
        0 <= j < items.len() && current != Some((#[trigger] items[j]).path) && !lists_path(
            r,
            items[j].path,
        ) implies {
        &&& r.len() == limit
        &&& forall|i: int, k: int|
            0 <= i < r.len() && 0 <= k < kept.len() && kept[k].path == items[j].path
                ==> #[trigger] (newer())(r[i], kept[k])
    } by {
        assert(lists_path(kept, items[j].path));
        let k = choose|k: int| 0 <= k < kept.len() && (#[trigger] kept[k]).path == items[j].path;
        assert(set_int_range(0, n).contains(k));
        assert(order.to_set().contains(k));
        let l = choose|l: int| 0 <= l < order.len() && order[l] == k;
        if l < r.len() {
            assert(r[l].path == items[j].path);
        }
        assert forall|i: int, k2: int|
            0 <= i < r.len() && 0 <= k2 < kept.len() && kept[k2].path
                == items[j].path implies #[trigger] (newer())(r[i], kept[k2]) by {
            if k2 < k {
                assert(kept[k2].path != kept[k].path);
            } else if k < k2 {
                assert(kept[k].path != kept[k2].path);
            }
            assert(r[i] == sorted[i]);
            assert(sorted[l] == kept[k]);
        }
    }
}

/// What is listed of the current session makes no difference.
pub proof fn law_current_ignored(items: Seq<ThreadModel>, current: Seq<ComponentModel>, limit: nat)
    ensures
        recent_of(items, Some(current), limit) == recent_of(
            items.filter(|item: ThreadModel| item.path != current),
            Some(current),
            limit,
        ),
{
    lemma_current_ignored(items, current);
}

proof fn lemma_current_ignored(items: Seq<ThreadModel>, current: Seq<ComponentModel>)
    ensures
        distinct(items, Some(current)) == distinct(
            items.filter(|item: ThreadModel| item.path != current),
            Some(current),
        ),
    decreases items.len(),
{
    reveal(Seq::filter);
    let keep = |item: ThreadModel| item.path != current;
    if items.len() > 0 {
        let rest = items.drop_last();
        lemma_current_ignored(rest, current);
        if keep(items.last()) {
            let kept = rest.filter(keep).push(items.last());
            assert(items.filter(keep) == kept);
            assert(kept.drop_last() =~= rest.filter(keep));
        }
    }
}

// ---------------------------------------------------------------------------------------------
// Listings without repetition
// ---------------------------------------------------------------------------------------------
/// Whether no path is listed twice.
pub open spec fn paths_differ(items: Seq<ThreadModel>) -> bool {
    forall|i: int, j: int|
        0 <= i < j < items.len() ==> (#[trigger] items[i]).path != (#[trigger] items[j]).path
}

proof fn lemma_distinct_members(items: Seq<ThreadModel>, current: Option<Seq<ComponentModel>>)
    requires
        paths_differ(items),
    ensures
        forall|x: ThreadModel| #[trigger]
            distinct(items, current).to_set().contains(x) <==> items.to_set().contains(x) && current
                != Some(x.path),
{
    let kept = distinct(items, current);
    law_distinct(items, current);
    assert forall|x: ThreadModel| #[trigger] kept.to_set().contains(x) <==> items.to_set().contains(
        x,
    ) && current != Some(x.path) by {
        if kept.to_set().contains(x) {
            let k = choose|k: int| 0 <= k < kept.len() && kept[k] == x;
            assert(first_listed(items, kept[k]));
        }
        if items.to_set().contains(x) && current != Some(x.path) {
            let j = choose|j: int| 0 <= j < items.len() && items[j] == x;
            assert(lists_path(kept, items[j].path));
            let k = choose|k: int| 0 <= k < kept.len() && (#[trigger] kept[k]).path == x.path;
            assert(first_listed(items, kept[k]));
            let l = choose|l: int| 0 <= l < items.len() && #[trigger] items[l] == kept[k];
            assert(items[l].path == items[j].path);
            assert(l == j);
        }
    }
}

/// Which sessions are recent is decided by the set of the sessions that are kept.
proof fn lemma_recent_by_set(
    items: Seq<ThreadModel>,
    current: Option<Seq<ComponentModel>>,
    limit: nat,
)
    ensures
        ({
            let all = distinct(items, current).to_set();
            &&& orders(newer(), all)
            &&& all.finite()
            &&& all.len() == distinct(items, current).len()
            &&& arranges(arrangement(all, newer()), all, newer())
            &&& recent_of(items, current, limit) == first_of(arrangement(all, newer()), limit)
        }),
{
    let kept = distinct(items, current);
    law_distinct(items, current);
    lemma_newer_compares();
    assert forall|i: int, j: int| 0 <= i < kept.len() && 0 <= j < kept.len() && i != j implies kept[i]
        != kept[j] by {
        if i < j {
            assert(kept[i].path != kept[j].path);
        } else {
            assert(kept[j].path != kept[i].path);
        }
    }
    assert forall|i: int, j: int|
        0 <= i < kept.len() && 0 <= j < kept.len() && i != j implies (newer())(
        #[trigger] kept[i],
        #[trigger] kept[j],
    ) || (newer())(kept[j], kept[i]) by {
        if i < j {
            assert(kept[i].path != kept[j].path);
        } else {
            assert(kept[j].path != kept[i].path);
        }
    }
    lemma_sorted_arranges(kept, newer());
    kept.unique_seq_to_set();
}

/// Where no path is listed twice, it makes no difference which listing comes first, nor in what order
/// the sessions are listed.
pub proof fn law_listing_order(
    a: Seq<ThreadModel>,
    b: Seq<ThreadModel>,
    current: Option<Seq<ComponentModel>>,
    limit: nat,
)
    requires
        paths_differ(a),
        paths_differ(b),
        a.to_set() == b.to_set(),
    ensures
        recent_of(a, current, limit) == recent_of(b, current, limit),
{
    lemma_distinct_members(a, current);
    lemma_distinct_members(b, current);
    assert(distinct(a, current).to_set() =~= distinct(b, current).to_set());
    lemma_recent_by_set(a, current, limit);
    lemma_recent_by_set(b, current, limit);
}

/// Leaving out the one session with the current path leaves nearly all.
proof fn lemma_without_current(items: Seq<ThreadModel>, current: Option<Seq<ComponentModel>>)
    requires
        paths_differ(items),
    ensures
        distinct(items, current).len() + 1 >= items.len(),
    decreases items.len(),
{
    if items.len() > 0 {
        let rest = items.drop_last();
        let last = items.last();
        lemma_without_current(rest, current);
        law_distinct(rest, current);
        let before = distinct(rest, current);
        if lists_path(before, last.path) {
            let k = choose|k: int| 0 <= k < before.len() && (#[trigger] before[k]).path == last.path;
            assert(first_listed(rest, before[k]));
            let l = choose|l: int| 0 <= l < rest.len() && #[trigger] rest[l] == before[k];
            assert(items[l].path != items[items.len() - 1].path);
        }
        if current == Some(last.path) {
            lemma_all_kept(rest, current);
        }
    }
}

proof fn lemma_all_kept(items: Seq<ThreadModel>, current: Option<Seq<ComponentModel>>)
    requires
        paths_differ(items),
        forall|i: int| 0 <= i < items.len() ==> current != Some((#[trigger] items[i]).path),
    ensures
        distinct(items, current) == items,
    decreases items.len(),
{
    if items.len() == 0 {
        assert(distinct(items, current) =~= items);
    } else {
        let rest = items.drop_last();
        assert forall|i: int| 0 <= i < rest.len() implies current != Some((#[trigger] rest[i]).path) by {
            assert(current != Some(items[i].path));
        }
        lemma_all_kept(rest, current);
        assert(current != Some(items[items.len() - 1].path));
        if lists_path(rest, items.last().path) {
            let k = choose|k: int|
                0 <= k < rest.len() && (#[trigger] rest[k]).path == items.last().path;
            assert(items[k].path != items[items.len() - 1].path);
        }
        assert(distinct(items, current) =~= items);
    }
}

/// A session that comes after more than `limit` others of its listing is not among the recent ones.
proof fn lemma_late_left_out(
    items: Seq<ThreadModel>,
    page: Seq<ThreadModel>,
    current: Option<Seq<ComponentModel>>,
    limit: nat,
    at: int,
)
    requires
        paths_differ(items),
        paths_differ(page),
        page.to_set().subset_of(items.to_set()),
        ascends(page, newer()),
        limit < at < page.len(),
    ensures
        !recent_of(items, current, limit).contains(page[at]),
{
    let r = recent_of(items, current, limit);
    let x = page[at];
    if r.contains(x) {
        let all = distinct(items, current).to_set();
        let sorted = arrangement(all, newer());
        lemma_newer_compares();
        lemma_recent_by_set(items, current, limit);
        lemma_distinct_members(items, current);
        let l = choose|l: int| 0 <= l < r.len() && r[l] == x;
        let head = page.take(at);
        let earlier = distinct(head, current);
        assert(paths_differ(head)) by {
            assert forall|i: int, j: int| 0 <= i < j < head.len() implies (#[trigger] head[i]).path
                != (#[trigger] head[j]).path by {
                assert(page[i].path != page[j].path);
            }
        }
        lemma_without_current(head, current);
        lemma_distinct_members(head, current);
        lemma_recent_by_set(head, current, limit);
        let newest = sorted.take(l).to_set();
        assert(earlier.to_set().subset_of(newest)) by {
            assert forall|y: ThreadModel| earlier.to_set().contains(y) implies newest.contains(
                y,
            ) by {
                assert(head.to_set().contains(y));
                let k = choose|k: int| 0 <= k < head.len() && head[k] == y;
                assert(page[k] == y);
                assert((newer())(page[k], page[at]));
                assert(page.to_set().contains(y));
                assert(items.to_set().contains(y));
                assert(all.contains(y));
                assert(sorted.to_set().contains(y));
                let m = choose|m: int| 0 <= m < sorted.len() && sorted[m] == y;
                assert(sorted[l] == x);
                if m > l {
                    assert((newer())(sorted[l], sorted[m]));
                    assert((newer())(y, y));
                }
                assert(m < l);
                assert(sorted.take(l)[m] == y);
            }
        }
        vstd::set_lib::lemma_len_subset(earlier.to_set(), newest);
        sorted.take(l).lemma_cardinality_of_set();
    }
}

/// The recent sessions are among the first of their listings.
proof fn lemma_newest_suffice(
    a: Seq<ThreadModel>,
    b: Seq<ThreadModel>,
    current: Option<Seq<ComponentModel>>,
    limit: nat,
    f: nat,
)
    requires
        paths_differ(a + b),
        ascends(a, newer()),
        ascends(b, newer()),
        limit < f,
    ensures
        recent_of(first_of(a, f) + first_of(b, f), current, limit) == recent_of(
            a + b,
            current,
            limit,
        ),
{
    let (a1, b1) = (first_of(a, f), first_of(b, f));
    let (items, part) = (a + b, a1 + b1);
    assert(paths_differ(a)) by {
        assert forall|i: int, j: int| 0 <= i < j < a.len() implies (#[trigger] a[i]).path != (
        #[trigger] a[j]).path by {
            assert(items[i].path != items[j].path);
        }
    }
    assert(paths_differ(b)) by {
        assert forall|i: int, j: int| 0 <= i < j < b.len() implies (#[trigger] b[i]).path != (
        #[trigger] b[j]).path by {
            assert(items[a.len() + i].path != items[a.len() + j].path);
        }
    }
    let place = |i: int|
        if i < a1.len() {
            i
        } else {
            i - a1.len() + a.len()
        };
    assert forall|i: int| 0 <= i < part.len() implies #[trigger] part[i] == items[place(i)] && 0
        <= place(i) < items.len() by {}
    assert(paths_differ(part)) by {
        assert forall|i: int, j: int| 0 <= i < j < part.len() implies (#[trigger] part[i]).path != (
        #[trigger] part[j]).path by {
            assert(items[place(i)].path != items[place(j)].path);
        }
    }
    let r = recent_of(items, current, limit);
    let all = distinct(items, current).to_set();
    let few = distinct(part, current).to_set();
    lemma_recent_by_set(items, current, limit);
    lemma_recent_by_set(part, current, limit);
    lemma_distinct_members(items, current);
    lemma_distinct_members(part, current);
    assert(few.subset_of(all)) by {
        assert forall|x: ThreadModel| few.contains(x) implies all.contains(x) by {
            assert(part.to_set().contains(x));
            let i = choose|i: int| 0 <= i < part.len() && part[i] == x;
            assert(items[place(i)] == x);
            assert(items.to_set().contains(x));
        }
    }
    assert(a.to_set().subset_of(items.to_set())) by {
        assert forall|x: ThreadModel| a.to_set().contains(x) implies items.to_set().contains(x) by {
            let i = choose|i: int| 0 <= i < a.len() && a[i] == x;
            assert(items[i] == x);
        }
    }
    assert(b.to_set().subset_of(items.to_set())) by {
        assert forall|x: ThreadModel| b.to_set().contains(x) implies items.to_set().contains(x) by {
            let i = choose|i: int| 0 <= i < b.len() && b[i] == x;
            assert(items[a.len() + i] == x);
        }
    }
    let sorted = arrangement(all, newer());
    assert(r.to_set().subset_of(few)) by {
        assert forall|x: ThreadModel| r.to_set().contains(x) implies few.contains(x) by {
            let l = choose|l: int| 0 <= l < r.len() && r[l] == x;
            assert(sorted[l] == x);
            assert(sorted.to_set().contains(x));
            assert(all.contains(x));
            assert(items.to_set().contains(x));
            let i = choose|i: int| 0 <= i < items.len() && items[i] == x;
            if i < a.len() {
                assert(a[i] == x);
                if i >= f {
                    lemma_late_left_out(items, a, current, limit, i);
                }
                assert(part[i] == x);
            } else {
                let k = i - a.len();
                assert(b[k] == x);
                if k >= f {
                    lemma_late_left_out(items, b, current, limit, k);
                }
                assert(part[a1.len() + k] == x);
            }
            assert(part.to_set().contains(x));
        }
    }
    assert(ascends(r, newer())) by {
        assert forall|i: int, j: int| 0 <= i < j < r.len() implies (newer())(
            #[trigger] r[i],
            #[trigger] r[j],
        ) by {
            assert((newer())(sorted[i], sorted[j]));
        }
    }
    assert forall|i: int, y: ThreadModel|
        0 <= i < r.len() && #[trigger] few.contains(y) && !r.contains(y) implies (newer())(
        #[trigger] r[i],
        y,
    ) by {
        assert(sorted.to_set().contains(y));
        let m = choose|m: int| 0 <= m < sorted.len() && sorted[m] == y;
        if m < r.len() {
            assert(r[m] == y);
        }
        assert((newer())(sorted[i], sorted[m]));
    }
    lemma_beginning(r, few, newer());
    lemma_arrangement_len(sorted, all, newer());
    vstd::set_lib::lemma_len_subset(few, all);
    assert(recent_of(part, current, limit) =~= r);
}

/// Whether each listing shows all of its sessions, or only as many of the newest as are asked for,
/// makes no difference to which sessions are recent.
pub proof fn law_fetch_limit(
    a: Seq<ThreadModel>,
    b: Seq<ThreadModel>,
    current: Option<Seq<ComponentModel>>,
    limit: nat,
)
    requires
        paths_differ(a + b),
        ascends(a, newer()),
        ascends(b, newer()),
        a.len() <= usize::MAX,
        b.len() <= usize::MAX,
        limit <= usize::MAX,
    ensures
        recent_of(
            first_of(a, fetch_limit_of(limit)) + first_of(b, fetch_limit_of(limit)),
            current,
            limit,
        ) == recent_of(a + b, current, limit),
{
    let f = fetch_limit_of(limit);
    if a.len() <= f && b.len() <= f {
        assert(first_of(a, f) =~= a && first_of(b, f) =~= b);
    } else {
        lemma_newest_suffice(a, b, current, limit, f);
    }
}

// ---------------------------------------------------------------------------------------------
// By time and path
// ---------------------------------------------------------------------------------------------
/// The recent sessions are in descending order of their times, compared in full, with unknown times
/// last; sessions of one time are in descending order of their paths. There are at most as many as asked
/// for, none is the current session, no path occurs twice, and each is the first that is listed of its
/// path.
pub proof fn law_recent_by_time(
    items: Seq<ThreadModel>,
    current: Option<Seq<ComponentModel>>,
    limit: nat,
)
    ensures
        ({
            let r = recent_of(items, current, limit);
            &&& r.len() <= limit
            &&& forall|i: int, j: int|
                0 <= i < j < r.len() ==> {
                    &&& !time_lt((#[trigger] r[i]).created_at, (#[trigger] r[j]).created_at)
                    &&& r[i].created_at == r[j].created_at ==> path_lt(r[j].path, r[i].path)
                    &&& r[i].path != r[j].path
                }
            &&& forall|i: int| 0 <= i < r.len() ==> current != Some((#[trigger] r[i]).path)
            &&& forall|i: int|
                0 <= i < r.len() ==> exists|j: int|
                    0 <= j < items.len() && #[trigger] items[j] == (#[trigger] r[i]) && forall|l: int|
                        0 <= l < j ==> (#[trigger] items[l]).path != r[i].path
        }),
{
    let r = recent_of(items, current, limit);
    law_recent(items, current, limit);
    assert forall|i: int, j: int| 0 <= i < j < r.len() implies {
        &&& !time_lt((#[trigger] r[i]).created_at, (#[trigger] r[j]).created_at)
        &&& r[i].created_at == r[j].created_at ==> path_lt(r[j].path, r[i].path)
        &&& r[i].path != r[j].path
    } by {
        assert((newer())(r[i], r[j]));
        lemma_newer_by_time(r[i], r[j]);
    }
    assert forall|i: int| 0 <= i < r.len() implies exists|j: int|
        0 <= j < items.len() && #[trigger] items[j] == (#[trigger] r[i]) && forall|l: int|
            0 <= l < j ==> (#[trigger] items[l]).path != r[i].path by {
        assert(first_listed(items, r[i]));
    }
}

/// Where a session is left out that is listed first of its path and is not the current one, as many are
/// chosen as were asked for; none of them is older than it, and none is of the same time with a smaller
/// path.
pub proof fn law_left_out(
    items: Seq<ThreadModel>,
    current: Option<Seq<ComponentModel>>,
    limit: nat,
    at: int,
)
    requires
        0 <= at < items.len(),
        current != Some(items[at].path),
        forall|l: int| 0 <= l < at ==> (#[trigger] items[l]).path != items[at].path,
        forall|l: int|
            0 <= l < recent_of(items, current, limit).len() ==> (#[trigger] recent_of(
                items,
                current,
                limit,
            )[l]).path != items[at].path,
    ensures
        ({
            let r = recent_of(items, current, limit);
            &&& r.len() == limit
            &&& forall|i: int|
                0 <= i < r.len() ==> {
                    &&& !time_lt((#[trigger] r[i]).created_at, items[at].created_at)
                    &&& r[i].created_at == items[at].created_at ==> path_lt(
                        items[at].path,
                        r[i].path,
                    )
                }
        }),
{
    let r = recent_of(items, current, limit);
    let kept = distinct(items, current);
    law_recent(items, current, limit);
    law_distinct(items, current);
    assert(!lists_path(r, items[at].path));
    assert(lists_path(kept, items[at].path));
    let k = choose|k: int| 0 <= k < kept.len() && (#[trigger] kept[k]).path == items[at].path;
    lemma_first_is_kept(items, kept[k], at);
    assert forall|i: int| 0 <= i < r.len() implies {
        &&& !time_lt((#[trigger] r[i]).created_at, items[at].created_at)
        &&& r[i].created_at == items[at].created_at ==> path_lt(items[at].path, r[i].path)
    } by {
        assert((newer())(r[i], kept[k]));
        lemma_newer_by_time(r[i], items[at]);
    }
}

proof fn lemma_first_is_kept(items: Seq<ThreadModel>, item: ThreadModel, at: int)
    requires
        first_listed(items, item),
        0 <= at < items.len(),
        items[at].path == item.path,
        forall|l: int| 0 <= l < at ==> (#[trigger] items[l]).path != items[at].path,
    ensures
        items[at] == item,
{
    let m = choose|m: int|
        0 <= m < items.len() && #[trigger] items[m] == item && forall|l: int|
            0 <= l < m ==> (#[trigger] items[l]).path != item.path;
    if m < at {
        assert(items[m].path != items[at].path);
    } else if at < m {
        assert(items[at].path != item.path);
    }
}

proof fn lemma_newer_by_time(a: ThreadModel, b: ThreadModel)
    requires
        (newer())(a, b),
    ensures
        !time_lt(a.created_at, b.created_at),
        a.created_at == b.created_at ==> path_lt(b.path, a.path),
{
    let time = |x: Option<Seq<char>>, y: Option<Seq<char>>| time_lt(x, y);
    lemma_time_lt_orders();
    assert(!time(a.created_at, a.created_at));
    if time(a.created_at, b.created_at) && time(b.created_at, a.created_at) {
        assert(time(a.created_at, a.created_at));
    }
}

/// Each listing is asked for twice as many sessions as are wanted, but for at least one, and for no more
/// than a machine word can say.
pub proof fn law_fetched(limit: nat)
    requires
        limit <= usize::MAX,
    ensures
        limit == 0 ==> fetch_limit_of(limit) == 1,
        0 < limit && limit + limit <= usize::MAX ==> fetch_limit_of(limit) == limit + limit,
        limit + limit > usize::MAX ==> fetch_limit_of(limit) == usize::MAX,
{
}

/// The error of a failed listing says which listing failed, and ends with what went wrong.
pub proof fn law_listing_error(err: Seq<char>)
    ensures
        listing_error_of(false, err).skip("failed to list recent sessions: "@.len() as int) == err,
        listing_error_of(false, err).take("failed to list recent sessions: "@.len() as int)
            == "failed to list recent sessions: "@,
        listing_error_of(true, err).skip("failed to list archived sessions: "@.len() as int) == err,
        listing_error_of(true, err).take("failed to list archived sessions: "@.len() as int)
            == "failed to list archived sessions: "@,
{
    let (a, b) = ("failed to list recent sessions: "@, "failed to list archived sessions: "@);
    assert(listing_error_of(false, err).skip(a.len() as int) =~= err);
    assert(listing_error_of(false, err).take(a.len() as int) =~= a);
    assert(listing_error_of(true, err).skip(b.len() as int) =~= err);
    assert(listing_error_of(true, err).take(b.len() as int) =~= b);
}

} // verus!
