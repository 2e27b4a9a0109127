//! The choice of the sessions to analyze: the newest ones, without the session under way.
use crate::order::{
    compares_keys, first_of, lemma_arrangement_len, lemma_lex_orders, lemma_stable_orders,
    lemma_stable_sort, lex_lt, orders_all, position_order, positions, select_first, stable_before,
    stable_sort, Ranked,
};
use crate::text::{lemma_text_lt_orders, opt_text, text_before, text_lt};
use vstd::prelude::*;
use vstd::set_lib::set_int_range;

verus! {

/// How many sessions are analyzed unless a number is asked for.
pub const DEFAULT_IMPROVE_SESSION_LIMIT: usize = 50;

// ---------------------------------------------------------------------------------------------
// Sessions
// ---------------------------------------------------------------------------------------------
/// One component of a path: its kind, as a number by which kinds are ordered, and its name in the
/// platform's encoding.
#[derive(Clone, Debug, PartialEq, Eq)]
pub struct PathComponent {
    pub rank: u8,
    pub name: Vec<u8>,
}

/// A path as the list of its components, by which paths are compared.
#[derive(Clone, Debug, PartialEq, Eq)]
pub struct RolloutPath {
    pub components: Vec<PathComponent>,
}

/// What a listing says of a recorded session.
#[derive(Clone, Debug, PartialEq, Eq)]
pub struct ThreadItem {
    /// Where the session is recorded.
    pub path: RolloutPath,
    /// When the session was started.
    pub created_at: Option<String>,
    /// What the user asked for first.
    pub first_user_message: Option<String>,
    /// The bytes of the path of the directory in which the session ran.
    pub cwd: Option<Vec<u8>>,
}

// ---------------------------------------------------------------------------------------------
// Model
// ---------------------------------------------------------------------------------------------
/// A component of a path: its kind and its name.
pub type ComponentModel = (u8, Seq<u8>);

/// A session as listed.
pub struct ThreadModel {
    pub path: Seq<ComponentModel>,
    pub created_at: Option<Seq<char>>,
    pub first_user_message: Option<Seq<char>>,
    pub cwd: Option<Seq<u8>>,
}

impl View for PathComponent {
    type V = ComponentModel;

    open spec fn view(&self) -> ComponentModel {
        (self.rank, self.name@)
    }
}

impl View for RolloutPath {
    type V = Seq<ComponentModel>;

    open spec fn view(&self) -> Seq<ComponentModel> {
        Seq::new(self.components@.len(), |i: int| self.components@[i]@)
    }
}

impl View for ThreadItem {
    type V = ThreadModel;

    open spec fn view(&self) -> ThreadModel {
        ThreadModel {
            path: self.path@,
            created_at: opt_text(self.created_at),
            first_user_message: opt_text(self.first_user_message),
            cwd: match self.cwd {
                Some(cwd) => Some(cwd@),
                None => None,
            },
        }
    }
}

/// The sessions that a list of items describes.
pub open spec fn threads(v: Seq<ThreadItem>) -> Seq<ThreadModel> {
    Seq::new(v.len(), |i: int| v[i]@)
}

/// Byte strings in dictionary order.
pub open spec fn bytes_lt(a: Seq<u8>, b: Seq<u8>) -> bool {
    lex_lt(a, b, |x: u8, y: u8| x < y)
}

/// Components by kind, and by name within a kind.
pub open spec fn component_lt(a: ComponentModel, b: ComponentModel) -> bool {
    a.0 < b.0 || (a.0 == b.0 && bytes_lt(a.1, b.1))
}

/// Paths in dictionary order of their components.
pub open spec fn path_lt(a: Seq<ComponentModel>, b: Seq<ComponentModel>) -> bool {
    lex_lt(a, b, |x: ComponentModel, y: ComponentModel| component_lt(x, y))
}

/// Times as texts; an unknown time comes before all others.
pub open spec fn time_lt(a: Option<Seq<char>>, b: Option<Seq<char>>) -> bool {
    match (a, b) {
        (None, Some(_)) => true,
        (Some(x), Some(y)) => text_lt(x, y),
        _ => false,
    }
}

/// Later sessions come first; of sessions of the same time the one with the greater path.
pub open spec fn newer() -> spec_fn(ThreadModel, ThreadModel) -> bool {
    |a: ThreadModel, b: ThreadModel|
        time_lt(b.created_at, a.created_at) || (a.created_at == b.created_at && path_lt(
            b.path,
            a.path,
        ))
}

pub open spec fn lists_path(items: Seq<ThreadModel>, path: Seq<ComponentModel>) -> bool {
    exists|i: int| 0 <= i < items.len() && (#[trigger] items[i]).path == path
}

/// The first item of each path, without the path `current`.
pub open spec fn distinct(items: Seq<ThreadModel>, current: Option<Seq<ComponentModel>>) -> Seq<
    ThreadModel,
>
    decreases items.len(),
{
    if items.len() == 0 {
        Seq::empty()
    } else {
        let before = distinct(items.drop_last(), current);
        let item = items.last();
        if current == Some(item.path) || lists_path(before, item.path) {
            before
        } else {
            before.push(item)
        }
    }
}

/// The `limit` newest of the listed sessions, without the one recorded at `current`.
pub open spec fn recent_of(
    items: Seq<ThreadModel>,
    current: Option<Seq<ComponentModel>>,
    limit: nat,
) -> Seq<ThreadModel> {
    first_of(stable_sort(distinct(items, current), newer()), limit)
}

pub open spec fn capped(n: nat) -> nat {
    if n <= usize::MAX {
        n
    } else {
        usize::MAX as nat
    }
}

/// How many sessions of each listing to look at, so that `limit` are left without the current one.
pub open spec fn fetch_limit_of(limit: nat) -> nat {
    if capped(2 * limit) >= capped(limit + 1) {
        capped(2 * limit)
    } else {
        capped(limit + 1)
    }
}

/// The error that says that a listing failed.
pub open spec fn listing_error_of(archived: bool, err: Seq<char>) -> Seq<char> {
    if archived {
        "failed to list archived sessions: "@ + err
    } else {
        "failed to list recent sessions: "@ + err
    }
}

// ---------------------------------------------------------------------------------------------
// Laws
// ---------------------------------------------------------------------------------------------
/// Paths are strictly ordered.
pub proof fn lemma_path_lt_orders()
    ensures
        orders_all(|a: Seq<ComponentModel>, b: Seq<ComponentModel>| path_lt(a, b)),
{
    let byte = |x: u8, y: u8| x < y;
    lemma_lex_orders(byte);
    let bytes = |a: Seq<u8>, b: Seq<u8>| lex_lt(a, b, byte);
    let component = |x: ComponentModel, y: ComponentModel| component_lt(x, y);
    assert(orders_all(component)) by {
        assert forall|a: ComponentModel| !#[trigger] component(a, a) by {
            assert(!bytes(a.1, a.1));
        }
        assert forall|a: ComponentModel, b: ComponentModel, c: ComponentModel| #[trigger]
            component(a, b) && #[trigger] component(b, c) implies component(a, c) by {
            if a.0 == b.0 && b.0 == c.0 {
                assert(bytes(a.1, b.1) && bytes(b.1, c.1));
            }
        }
        assert forall|a: ComponentModel, b: ComponentModel| #[trigger] component(a, b) || a == b
            || component(b, a) by {
            assert(bytes(a.1, b.1) || a.1 == b.1 || bytes(b.1, a.1));
        }
    }
    lemma_lex_orders(component);
    let paths = |a: Seq<ComponentModel>, b: Seq<ComponentModel>| lex_lt(a, b, component);
    let lt = |a: Seq<ComponentModel>, b: Seq<ComponentModel>| path_lt(a, b);
    assert forall|a: Seq<ComponentModel>| !#[trigger] lt(a, a) by {
        assert(!paths(a, a));
    }
    assert forall|a: Seq<ComponentModel>, b: Seq<ComponentModel>, c: Seq<ComponentModel>| #[trigger]
        lt(a, b) && #[trigger] lt(b, c) implies lt(a, c) by {
        assert(paths(a, b) && paths(b, c));
    }
    assert forall|a: Seq<ComponentModel>, b: Seq<ComponentModel>| #[trigger] lt(a, b) || a == b
        || lt(b, a) by {
        assert(paths(a, b) || a == b || paths(b, a));
    }
}

/// Times are strictly ordered.
pub proof fn lemma_time_lt_orders()
    ensures
        orders_all(|a: Option<Seq<char>>, b: Option<Seq<char>>| time_lt(a, b)),
{
    let text = |a: Seq<char>, b: Seq<char>| text_lt(a, b);
    lemma_text_lt_orders();
    let lt = |a: Option<Seq<char>>, b: Option<Seq<char>>| time_lt(a, b);
    assert forall|a: Option<Seq<char>>| !#[trigger] lt(a, a) by {
        if a is Some {
            assert(!text(a->0, a->0));
        }
    }
    assert forall|a: Option<Seq<char>>, b: Option<Seq<char>>, c: Option<Seq<char>>| #[trigger]
        lt(a, b) && #[trigger] lt(b, c) implies lt(a, c) by {
        if a is Some {
            assert(text(a->0, b->0) && text(b->0, c->0));
        }
    }
    assert forall|a: Option<Seq<char>>, b: Option<Seq<char>>| #[trigger] lt(a, b) || a == b || lt(
        b,
        a,
    ) by {
        if a is Some && b is Some {
            assert(text(a->0, b->0) || a->0 == b->0 || text(b->0, a->0));
        }
    }
}

/// Times and paths together decide which session is newer.
pub proof fn lemma_newer_compares()
    ensures
        compares_keys(newer()),
        forall|a: ThreadModel, b: ThreadModel|
            a.path != b.path ==> #[trigger] (newer())(a, b) || (newer())(b, a),
{
    let path = |a: Seq<ComponentModel>, b: Seq<ComponentModel>| path_lt(a, b);
    let time = |a: Option<Seq<char>>, b: Option<Seq<char>>| time_lt(a, b);
    let n = newer();
    lemma_path_lt_orders();
    lemma_time_lt_orders();
    assert forall|a: ThreadModel| !#[trigger] n(a, a) by {
        assert(!path(a.path, a.path));
        assert(!time(a.created_at, a.created_at));
    }
    assert forall|a: ThreadModel, b: ThreadModel, c: ThreadModel| #[trigger] n(a, b) && #[trigger] n(
        b,
        c,
    ) implies n(a, c) by {
        if a.created_at == b.created_at && b.created_at == c.created_at {
            assert(!time(a.created_at, a.created_at));
            assert(path(c.path, b.path) && path(b.path, a.path));
        } else if a.created_at != b.created_at && b.created_at != c.created_at {
            assert(time(c.created_at, b.created_at) && time(b.created_at, a.created_at));
        }
    }
    assert forall|a: ThreadModel, b: ThreadModel, c: ThreadModel| #[trigger] n(
        a,
        c,
    ) implies #[trigger] n(a, b) || n(b, c) by {
        assert(time(a.created_at, b.created_at) || a.created_at == b.created_at || time(
            b.created_at,
            a.created_at,
        ));
        assert(path(a.path, b.path) || a.path == b.path || path(b.path, a.path));
        assert(!time(c.created_at, c.created_at));
        if time(c.created_at, a.created_at) && time(a.created_at, b.created_at) {
            assert(time(c.created_at, b.created_at));
        }
        if path(c.path, a.path) && path(a.path, b.path) {
            assert(path(c.path, b.path));
        }
    }
    assert forall|a: ThreadModel, b: ThreadModel| a.path != b.path implies #[trigger] n(a, b) || n(
        b,
        a,
    ) by {
        assert(time(a.created_at, b.created_at) || a.created_at == b.created_at || time(
            b.created_at,
            a.created_at,
        ));
        assert(path(a.path, b.path) || a.path == b.path || path(b.path, a.path));
    }
}

// ---------------------------------------------------------------------------------------------
// Comparison
// ---------------------------------------------------------------------------------------------
fn bytes_before(a: &Vec<u8>, b: &Vec<u8>) -> (r: bool)
    ensures
        r == bytes_lt(a@, b@),
{
    let mut i: usize = 0;
    assert(a@.skip(0) =~= a@);
    assert(b@.skip(0) =~= b@);
    while i < a.len() && i < b.len() && a[i] == b[i]
        invariant
            i <= a@.len(),
            i <= b@.len(),
            bytes_lt(a@, b@) == bytes_lt(a@.skip(i as int), b@.skip(i as int)),
        decreases a@.len() - i,
    {
        assert(a@.skip(i as int).drop_first() =~= a@.skip(i + 1));
        assert(b@.skip(i as int).drop_first() =~= b@.skip(i + 1));
        i = i + 1;
    }
    if i >= b.len() {
        false
    } else if i >= a.len() {
        true
    } else {
        a[i] < b[i]
    }
}

fn same_bytes(a: &Vec<u8>, b: &Vec<u8>) -> (r: bool)
    ensures
        r == (a@ == b@),
{
    if a.len() != b.len() {
        return false;
    }
    for i in 0..a.len()
        invariant
            a@.len() == b@.len(),
            forall|j: int| 0 <= j < i ==> a@[j] == b@[j],
    {
        if a[i] != b[i] {
            return false;
        }
    }
    assert(a@ =~= b@);
    true
}

fn same_component(a: &PathComponent, b: &PathComponent) -> (r: bool)
    ensures
        r == (a@ == b@),
{
    a.rank == b.rank && same_bytes(&a.name, &b.name)
}

impl RolloutPath {
    /// Whether two paths have the same components.
    pub fn same_as(&self, other: &RolloutPath) -> (r: bool)
        ensures
            r == (self@ == other@),
    {
        if self.components.len() != other.components.len() {
            assert(self@.len() != other@.len());
            return false;
        }
        for i in 0..self.components.len()
            invariant
                self.components@.len() == other.components@.len(),
                forall|j: int| 0 <= j < i ==> self@[j] == other@[j],
        {
            if !same_component(&self.components[i], &other.components[i]) {
                assert(self@[i as int] != other@[i as int]);
                return false;
            }
        }
        assert(self@ =~= other@);
        true
    }

    /// Whether a path comes before another in dictionary order of the components.
    pub fn precedes(&self, other: &RolloutPath) -> (r: bool)
        ensures
            r == path_lt(self@, other@),
    {
        let a = &self.components;
        let b = &other.components;
        let mut i: usize = 0;
        assert(self@.skip(0) =~= self@);
        assert(other@.skip(0) =~= other@);
        while i < a.len() && i < b.len() && same_component(&a[i], &b[i])
            invariant
                a@ == self.components@,
                b@ == other.components@,
                i <= a@.len(),
                i <= b@.len(),
                path_lt(self@, other@) == path_lt(self@.skip(i as int), other@.skip(i as int)),
            decreases a@.len() - i,
        {
            assert(self@.skip(i as int).drop_first() =~= self@.skip(i + 1));
            assert(other@.skip(i as int).drop_first() =~= other@.skip(i + 1));
            i = i + 1;
        }
        if i >= b.len() {
            false
        } else if i >= a.len() {
            true
        } else {
            assert(self@.skip(i as int)[0] == a@[i as int]@);
            assert(other@.skip(i as int)[0] == b@[i as int]@);
            a[i].rank < b[i].rank || (a[i].rank == b[i].rank && bytes_before(&a[i].name, &b[i].name))
        }
    }
}

impl ThreadItem {
    /// An item that stands where another was taken out: it has the empty path, and nothing else is
    /// known of it.
    fn vacant() -> (r: ThreadItem)
        ensures
            r@ == (ThreadModel {
                path: Seq::empty(),
                created_at: None,
                first_user_message: None,
                cwd: None,
            }),
    {
        let r = ThreadItem {
            path: RolloutPath { components: Vec::new() },
            created_at: None,
            first_user_message: None,
            cwd: None,
        };
        assert(r@.path =~= Seq::<ComponentModel>::empty());
        r
    }
}

fn time_before(a: &Option<String>, b: &Option<String>) -> (r: bool)
    ensures
        r == time_lt(opt_text(*a), opt_text(*b)),
{
    match (a, b) {
        (None, Some(_)) => true,
        (Some(x), Some(y)) => text_before(x.as_str(), y.as_str()),
        _ => false,
    }
}

struct RecencyRanking<'a> {
    items: &'a Vec<ThreadItem>,
}

impl<'a> Ranked for RecencyRanking<'a> {
    closed spec fn size(&self) -> nat {
        self.items@.len()
    }

    closed spec fn before(&self) -> spec_fn(int, int) -> bool {
        stable_before(threads(self.items@), newer())
    }

    proof fn ordered(&self) {
        lemma_newer_compares();
        lemma_stable_orders(threads(self.items@), newer());
    }

    fn count(&self) -> usize {
        self.items.len()
    }

    fn precedes(&self, i: usize, j: usize) -> bool {
        let a = &self.items[i];
        let b = &self.items[j];
        proof {
            let time = |a: Option<Seq<char>>, b: Option<Seq<char>>| time_lt(a, b);
            lemma_time_lt_orders();
            lemma_path_lt_orders();
            let (s, t) = (a@.created_at, b@.created_at);
            assert(!time(s, s));
            assert(time(s, t) || s == t || time(t, s));
            if time(s, t) && time(t, s) {
                assert(time(s, s));
            }
        }
        if time_before(&b.created_at, &a.created_at) {
            true
        } else if time_before(&a.created_at, &b.created_at) {
            false
        } else if b.path.precedes(&a.path) {
            true
        } else {
            i < j && !a.path.precedes(&b.path)
        }
    }
}

// ---------------------------------------------------------------------------------------------
// Selection
// ---------------------------------------------------------------------------------------------
/// How many sessions of each listing to look at, so that `limit` are left without the current one.
pub fn fetch_limit(limit: usize) -> (r: usize)
    ensures
        r == fetch_limit_of(limit as nat),
{
    let doubled: usize = limit.saturating_add(limit);
    let next: usize = limit.saturating_add(1);
    if doubled >= next {
        doubled
    } else {
        next
    }
}

/// The error that says that a listing failed.
pub fn listing_error(archived: bool, err: &str) -> (r: String)
    ensures
        r@ == listing_error_of(archived, err@),
{
    let mut out = if archived {
        "failed to list archived sessions: ".to_owned()
    } else {
        "failed to list recent sessions: ".to_owned()
    };
    out.append(err);
    out
}

fn has_path(items: &Vec<ThreadItem>, path: &RolloutPath) -> (r: bool)
    ensures
        r == lists_path(threads(items@), path@),
{
    for i in 0..items.len()
        invariant
            forall|j: int| 0 <= j < i ==> (#[trigger] threads(items@)[j]).path != path@,
    {
        if items[i].path.same_as(path) {
            assert(threads(items@)[i as int].path == path@);
            return true;
        }
    }
    false
}

/// Puts each of `page` after `kept` whose path is neither `current` nor in `kept` already.
fn keep_distinct(
    kept: &mut Vec<ThreadItem>,
    page: Vec<ThreadItem>,
    current: Option<&RolloutPath>,
    Ghost(seen): Ghost<Seq<ThreadModel>>,
)
    requires
        threads(old(kept)@) == distinct(seen, path_model(current)),
    ensures
        threads(final(kept)@) == distinct(seen + threads(page@), path_model(current)),
{
    let ghost all = threads(page@);
    assert(seen + all.take(0) =~= seen);
    for item in it: page
        invariant
            it.seq() == page@,
            all == threads(page@),
            threads(kept@) == distinct(seen + all.take(it.index() as int), path_model(current)),
    {
        let skipped = match current {
            Some(path) => path.same_as(&item.path),
            None => false,
        };
        let ghost n = it.index() as int;
        let ghost so_far = seen + all.take(n + 1);
        assert(so_far.drop_last() =~= seen + all.take(n));
        assert(so_far.last() == item@);
        if !skipped && !has_path(kept, &item.path) {
            let ghost before = threads(kept@);
            kept.push(item);
            assert(threads(kept@) =~= before.push(item@));
        }
    }
    assert(seen + all.take(all.len() as int) =~= seen + all);
}

pub open spec fn path_model(path: Option<&RolloutPath>) -> Option<Seq<ComponentModel>> {
    match path {
        Some(p) => Some(p@),
        None => None,
    }
}

/// The `limit` newest of the sessions in two listings, newest first, without the session recorded
/// at `current_rollout_path`. A session that is listed twice is kept once.
pub fn collect_recent_sessions(
    current_page: Vec<ThreadItem>,
    archived_page: Vec<ThreadItem>,
    current_rollout_path: Option<&RolloutPath>,
    limit: usize,
) -> (r: Vec<ThreadItem>)
    ensures
        threads(r@) == recent_of(
            threads(current_page@) + threads(archived_page@),
            path_model(current_rollout_path),
            limit as nat,
        ),
{
    let mut kept: Vec<ThreadItem> = Vec::new();
    let ghost seen = threads(current_page@);
    let ghost none = Seq::<ThreadModel>::empty();
    assert(threads(kept@) =~= distinct(none, path_model(current_rollout_path)));
    assert(none + seen =~= seen);
    keep_distinct(&mut kept, current_page, current_rollout_path, Ghost(none));
    keep_distinct(&mut kept, archived_page, current_rollout_path, Ghost(seen));
    let ranked = RecencyRanking { items: &kept };
    let chosen = select_first(&ranked, limit);
    let ghost found = threads(kept@);
    let ghost order = position_order(found.len(), stable_before(found, newer()));
    proof {
        lemma_newer_compares();
        lemma_stable_sort(found, newer());
        lemma_stable_orders(found, newer());
        lemma_arrangement_len(
            order,
            set_int_range(0, found.len() as int),
            stable_before(found, newer()),
        );
        assert forall|l: int| 0 <= l < order.len() implies 0 <= #[trigger] order[l]
            < found.len() by {
            assert(order.to_set().contains(order[l]));
        }
    }
    let mut out: Vec<ThreadItem> = Vec::new();
    for i in 0..chosen.len()
        invariant
            order.len() == found.len(),
            order.no_duplicates(),
            forall|l: int| 0 <= l < order.len() ==> 0 <= #[trigger] order[l] < found.len(),
            kept@.len() == found.len(),
            positions(chosen@) == first_of(order, limit as nat),
            forall|i: int| 0 <= i < chosen@.len() ==> #[trigger] chosen@[i] < kept@.len(),
            out@.len() == i,
            forall|l: int| 0 <= l < i ==> #[trigger] threads(out@)[l] == found[order[l]],
            forall|l: int| i <= l < order.len() ==> kept@[#[trigger] order[l]]@ == found[order[l]],
    {
        let k: usize = chosen[i];
        assert(positions(chosen@).len() == chosen@.len());
        assert(positions(chosen@)[i as int] == order[i as int]);
        let ghost before = out@;
        let mut item = ThreadItem::vacant();
        std::mem::swap(&mut item, &mut kept[k]);
        out.push(item);
        assert forall|l: int| i + 1 <= l < order.len() implies kept@[#[trigger] order[l]]@
            == found[order[l]] by {
            assert(order[l] != order[i as int]);
        }
        assert forall|l: int| 0 <= l < i + 1 implies #[trigger] threads(out@)[l]
            == found[order[l]] by {
            if l < i {
                assert(out@[l] == before[l]);
                assert(threads(before)[l] == found[order[l]]);
            }
        }
    }
    assert(positions(chosen@).len() == chosen@.len());
    assert(threads(out@) =~= first_of(stable_sort(found, newer()), limit as nat));
    out
}

} // verus!
