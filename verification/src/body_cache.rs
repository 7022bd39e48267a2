//! A bounded in-memory cache of rendered message bodies with
//! least-recently-used eviction.
//!
//! The bodies are held in a hash map by UID. Beside it the cache keeps the
//! UIDs in the order of their last access, oldest first: a UID's place in
//! that order stands for its access time, so the entry that eviction removes
//! is always the one of the first UID.

use std::collections::HashMap;
use vstd::prelude::*;

verus! {

broadcast use vstd::std_specs::hash::group_hash_axioms;

/// Largest number of bodies the cache holds.
pub const MAX_CACHE_SIZE: usize = 50;

/// The mathematical content of a cache: `(uid, html)` pairs, least recently
/// accessed first.
pub type CacheView = Seq<(u32, Seq<char>)>;

/// The bodies by UID, and the UIDs from the least to the most recently
/// accessed.
struct CacheState {
    bodies: HashMap<u32, String>,
    order: Vec<u32>,
}

/// Rendered bodies keyed by UID.
pub struct BodyCache {
    state: CacheState,
}

/// No UID occurs twice.
pub open spec fn distinct_uids(s: CacheView) -> bool {
    forall|i: int, j: int| 0 <= i < j < s.len() ==> s[i].0 != s[j].0
}

/// What holds of every cache between operations.
pub open spec fn cache_valid(s: CacheView) -> bool {
    s.len() <= MAX_CACHE_SIZE && distinct_uids(s)
}

/// Whether `uid` has an entry.
pub open spec fn has_uid(s: CacheView, uid: u32) -> bool {
    exists|i: int| 0 <= i < s.len() && #[trigger] s[i].0 == uid
}

/// The place of `uid`'s entry, where it has one.
pub open spec fn position_of(s: CacheView, uid: u32) -> int {
    choose|i: int| 0 <= i < s.len() && #[trigger] s[i].0 == uid
}

/// The cache after an access to `uid`: its entry, if any, becomes the most
/// recent one.
pub open spec fn touched(s: CacheView, uid: u32) -> CacheView {
    if has_uid(s, uid) {
        let i = position_of(s, uid);
        s.remove(i).push(s[i])
    } else {
        s
    }
}

/// The cache after `html` was stored for `uid`. A known UID has its body
/// replaced; a new one enters, at the cost of the least recently accessed
/// entry when and only when the cache is full.
pub open spec fn inserted(s: CacheView, uid: u32, html: Seq<char>) -> CacheView {
    if has_uid(s, uid) {
        s.remove(position_of(s, uid)).push((uid, html))
    } else if s.len() >= MAX_CACHE_SIZE {
        s.drop_first().push((uid, html))
    } else {
        s.push((uid, html))
    }
}

/// The cache after each pair of `items` was stored in turn.
pub open spec fn inserted_all(s: CacheView, items: CacheView) -> CacheView
    decreases items.len(),
{
    if items.len() == 0 {
        s
    } else {
        inserted(inserted_all(s, items.drop_last()), items.last().0, items.last().1)
    }
}

spec fn state_view(bodies: Map<u32, String>, order: Seq<u32>) -> CacheView {
    Seq::new(order.len(), |i: int| (order[i], bodies[order[i]]@))
}

spec fn order_distinct(order: Seq<u32>) -> bool {
    forall|i: int, j: int| 0 <= i < j < order.len() ==> order[i] != order[j]
}

spec fn state_valid(bodies: Map<u32, String>, order: Seq<u32>) -> bool {
    &&& order.len() <= MAX_CACHE_SIZE
    &&& order_distinct(order)
    &&& forall|k: u32| bodies.dom().contains(k) <==> order.contains(k)
}

impl View for BodyCache {
    type V = CacheView;

    closed spec fn view(&self) -> CacheView {
        state_view(self.state.bodies@, self.state.order@)
    }
}

proof fn lemma_push_contains(s: Seq<u32>, x: u32, k: u32)
    ensures
        s.push(x).contains(k) <==> (s.contains(k) || k == x),
{
    let t = s.push(x);
    if s.contains(k) {
        let w = choose|w: int| 0 <= w < s.len() && s[w] == k;
        assert(t[w] == k);
    }
    if k == x {
        assert(t[s.len() as int] == k);
    }
    if t.contains(k) {
        let w = choose|w: int| 0 <= w < t.len() && t[w] == k;
        if w < s.len() {
            assert(s[w] == k);
        }
    }
}

proof fn lemma_remove_contains(s: Seq<u32>, i: int, k: u32)
    requires
        order_distinct(s),
        0 <= i < s.len(),
    ensures
        s.remove(i).contains(k) <==> (s.contains(k) && k != s[i]),
        order_distinct(s.remove(i)),
{
    let t = s.remove(i);
    if s.contains(k) && k != s[i] {
        let w = choose|w: int| 0 <= w < s.len() && s[w] == k;
        let w1 = if w < i { w } else { w - 1 };
        assert(t[w1] == k);
    }
    if t.contains(k) {
        let w = choose|w: int| 0 <= w < t.len() && t[w] == k;
        let w0 = if w < i { w } else { w + 1 };
        assert(s[w0] == k);
        if w0 < i {
            assert(s[w0] != s[i]);
        } else {
            assert(s[i] != s[w0]);
        }
    }
    assert forall|a: int, b: int| 0 <= a < b < t.len() implies t[a] != t[b] by {
        let a0 = if a < i { a } else { a + 1 };
        let b0 = if b < i { b } else { b + 1 };
        assert(t[a] == s[a0] && t[b] == s[b0]);
    }
}

proof fn lemma_state_has(bodies: Map<u32, String>, order: Seq<u32>, uid: u32)
    ensures
        has_uid(state_view(bodies, order), uid) <==> order.contains(uid),
{
    let v = state_view(bodies, order);
    if has_uid(v, uid) {
        let w = choose|w: int| 0 <= w < v.len() && #[trigger] v[w].0 == uid;
        assert(order[w] == uid);
    }
    if order.contains(uid) {
        let w = choose|w: int| 0 <= w < order.len() && order[w] == uid;
        assert(v[w].0 == uid);
    }
}

proof fn lemma_state_cache_valid(bodies: Map<u32, String>, order: Seq<u32>)
    requires
        state_valid(bodies, order),
    ensures
        cache_valid(state_view(bodies, order)),
{
    let v = state_view(bodies, order);
    assert forall|i: int, j: int| 0 <= i < j < v.len() implies v[i].0 != v[j].0 by {
        assert(order[i] != order[j]);
    }
}

/// The state after the UID at place `i` was accessed.
proof fn lemma_state_touched(bodies: Map<u32, String>, order: Seq<u32>, i: int)
    requires
        state_valid(bodies, order),
        0 <= i < order.len(),
    ensures
        state_view(bodies, order.remove(i).push(order[i])) == touched(
            state_view(bodies, order),
            order[i],
        ),
        state_valid(bodies, order.remove(i).push(order[i])),
{
    let uid = order[i];
    let v = state_view(bodies, order);
    let moved = order.remove(i).push(uid);
    lemma_state_cache_valid(bodies, order);
    assert(v[i].0 == uid);
    lemma_position(v, uid, i);
    assert(state_view(bodies, moved) =~= v.remove(i).push(v[i]));
    lemma_remove_contains(order, i, uid);
    assert forall|k: u32| bodies.dom().contains(k) <==> moved.contains(k) by {
        lemma_remove_contains(order, i, k);
        lemma_push_contains(order.remove(i), uid, k);
        if k == uid {
            assert(order.contains(uid));
        }
    }
    assert forall|a: int, b: int| 0 <= a < b < moved.len() implies moved[a] != moved[b] by {
        if b == moved.len() - 1 {
            assert(order.remove(i).contains(moved[a]));
        }
    }
}

/// The state after the body of the UID at place `i` was replaced.
proof fn lemma_state_replaced(bodies: Map<u32, String>, order: Seq<u32>, i: int, html: String)
    requires
        state_valid(bodies, order),
        0 <= i < order.len(),
    ensures
        state_view(bodies.insert(order[i], html), order.remove(i).push(order[i])) == inserted(
            state_view(bodies, order),
            order[i],
            html@,
        ),
        state_valid(bodies.insert(order[i], html), order.remove(i).push(order[i])),
{
    let uid = order[i];
    let v = state_view(bodies, order);
    let moved = order.remove(i).push(uid);
    let changed = bodies.insert(uid, html);
    lemma_state_touched(bodies, order, i);
    lemma_state_cache_valid(bodies, order);
    assert(v[i].0 == uid);
    lemma_position(v, uid, i);
    assert forall|j: int| 0 <= j < moved.len() - 1 implies moved[j] != uid by {
        assert(moved[j] != moved[moved.len() - 1]);
    }
    assert(state_view(changed, moved) =~= v.remove(i).push((uid, html@)));
    assert forall|k: u32| changed.dom().contains(k) <==> moved.contains(k) by {
        if k == uid {
            assert(moved[moved.len() - 1] == uid);
        }
    }
}

/// The state after a body was stored for a UID that had none.
proof fn lemma_state_added(bodies: Map<u32, String>, order: Seq<u32>, uid: u32, html: String)
    requires
        state_valid(bodies, order),
        !order.contains(uid),
    ensures
        order.len() >= MAX_CACHE_SIZE ==> state_view(
            bodies.remove(order[0]).insert(uid, html),
            order.drop_first().push(uid),
        ) == inserted(state_view(bodies, order), uid, html@) && state_valid(
            bodies.remove(order[0]).insert(uid, html),
            order.drop_first().push(uid),
        ),
        order.len() < MAX_CACHE_SIZE ==> state_view(bodies.insert(uid, html), order.push(uid))
            == inserted(state_view(bodies, order), uid, html@) && state_valid(
            bodies.insert(uid, html),
            order.push(uid),
        ),
{
    let v = state_view(bodies, order);
    lemma_state_has(bodies, order, uid);
    if order.len() >= MAX_CACHE_SIZE {
        let lru = order[0];
        let rest = order.drop_first();
        let after = rest.push(uid);
        let changed = bodies.remove(lru).insert(uid, html);
        assert(rest =~= order.remove(0));
        lemma_remove_contains(order, 0, uid);
        assert forall|j: int| 0 <= j < after.len() - 1 implies after[j] != lru && after[j]
            != uid by {
            assert(after[j] == order[j + 1]);
            assert(order[0] != order[j + 1]);
            assert(order.contains(order[j + 1]));
        }
        assert(state_view(changed, after) =~= v.drop_first().push((uid, html@)));
        assert forall|k: u32| changed.dom().contains(k) <==> after.contains(k) by {
            lemma_remove_contains(order, 0, k);
            lemma_push_contains(rest, uid, k);
        }
        assert forall|a: int, b: int| 0 <= a < b < after.len() implies after[a] != after[b] by {
            if b < after.len() - 1 {
                assert(after[a] == rest[a] && after[b] == rest[b]);
            }
        }
    } else {
        let after = order.push(uid);
        let changed = bodies.insert(uid, html);
        assert forall|j: int| 0 <= j < order.len() implies order[j] != uid by {
            assert(order.contains(order[j]));
        }
        assert(state_view(changed, after) =~= v.push((uid, html@)));
        assert forall|k: u32| changed.dom().contains(k) <==> after.contains(k) by {
            lemma_push_contains(order, uid, k);
        }
        assert forall|a: int, b: int| 0 <= a < b < after.len() implies after[a] != after[b] by {
            if b < after.len() - 1 {
                assert(after[a] == order[a] && after[b] == order[b]);
            }
        }
    }
}

fn find_place(order: &Vec<u32>, uid: u32) -> (r: Option<usize>)
    ensures
        match r {
            Some(i) => i < order@.len() && order@[i as int] == uid,
            None => !order@.contains(uid),
        },
{
    let mut i: usize = 0;
    while i < order.len()
        invariant
            i <= order@.len(),
            forall|j: int| 0 <= j < i ==> order@[j] != uid,
        decreases order@.len() - i,
    {
        if order[i] == uid {
            return Some(i);
        }
        i += 1;
    }
    None
}

impl BodyCache {
    #[verifier::type_invariant]
    spec fn well_formed(self) -> bool {
        state_valid(self.state.bodies@, self.state.order@)
    }

    /// An empty cache.
    pub fn new() -> (cache: Self)
        ensures
            cache@ == Seq::<(u32, Seq<char>)>::empty(),
    {
        let cache = BodyCache { state: CacheState { bodies: HashMap::new(), order: Vec::new() } };
        assert(cache@ =~= Seq::<(u32, Seq<char>)>::empty());
        cache
    }

    /// The number of cached bodies.
    pub fn len(&self) -> (n: usize)
        ensures
            n == self@.len(),
            n <= MAX_CACHE_SIZE,
            cache_valid(self@),
    {
        proof {
            use_type_invariant(self);
            lemma_state_cache_valid(self.state.bodies@, self.state.order@);
        }
        self.state.order.len()
    }

    /// Whether a body is cached for `uid`; the access order is left as it is.
    pub fn contains(&self, uid: u32) -> (b: bool)
        ensures
            b == has_uid(self@, uid),
    {
        proof {
            use_type_invariant(self);
            lemma_state_has(self.state.bodies@, self.state.order@, uid);
        }
        self.state.bodies.contains_key(&uid)
    }
}

/// In a cache without repeated UIDs, an entry with the UID sought is the one
/// that `position_of` names.
proof fn lemma_position(s: CacheView, uid: u32, i: int)
    requires
        distinct_uids(s),
        0 <= i < s.len(),
        s[i].0 == uid,
    ensures
        has_uid(s, uid),
        position_of(s, uid) == i,
{
    let p = position_of(s, uid);
    assert(0 <= p < s.len() && s[p].0 == uid);
    if p < i {
        assert(s[p].0 != s[i].0);
    } else if i < p {
        assert(s[i].0 != s[p].0);
    }
}

/// The body cached for `uid`, if there is one. A hit makes the entry the most
/// recently accessed one.
pub fn get_cached_body(cache: &mut BodyCache, uid: u32) -> (r: Option<String>)
    ensures
        match r {
            Some(html) => has_uid(old(cache)@, uid) && html@ == old(cache)@[position_of(
                old(cache)@,
                uid,
            )].1,
            None => !has_uid(old(cache)@, uid),
        },
        final(cache)@ == touched(old(cache)@, uid),
        cache_valid(final(cache)@),
{
    proof {
        use_type_invariant(&*cache);
    }
    let ghost before = cache@;
    let mut state = CacheState { bodies: HashMap::new(), order: Vec::new() };
    std::mem::swap(&mut state, &mut cache.state);
    let ghost bodies = state.bodies@;
    let ghost order = state.order@;
    proof {
        lemma_state_has(bodies, order, uid);
        lemma_state_cache_valid(bodies, order);
    }
    let r = match find_place(&state.order, uid) {
        Some(i) => {
            proof {
                lemma_state_touched(bodies, order, i as int);
                assert(before[i as int].0 == uid);
                lemma_position(before, uid, i as int);
            }
            let _ = state.order.remove(i);
            state.order.push(uid);
            match state.bodies.get(&uid) {
                Some(html) => Some(html.clone()),
                None => None,
            }
        },
        None => None,
    };
    proof {
        lemma_state_cache_valid(state.bodies@, state.order@);
    }
    cache.state = state;
    r
}

/// Stores `html` as the body of `uid` and makes it the most recently accessed
/// entry. When the cache is full and `uid` is new, the least recently
/// accessed entry leaves first.
pub fn insert_cached_body(cache: &mut BodyCache, uid: u32, html: String)
    ensures
        final(cache)@ == inserted(old(cache)@, uid, html@),
        cache_valid(final(cache)@),
{
    proof {
        use_type_invariant(&*cache);
    }
    let mut state = CacheState { bodies: HashMap::new(), order: Vec::new() };
    std::mem::swap(&mut state, &mut cache.state);
    let ghost bodies = state.bodies@;
    let ghost order = state.order@;
    proof {
        lemma_state_has(bodies, order, uid);
    }
    match find_place(&state.order, uid) {
        Some(i) => {
            proof {
                lemma_state_replaced(bodies, order, i as int, html);
            }
            let _ = state.order.remove(i);
        },
        None => {
            proof {
                lemma_state_added(bodies, order, uid, html);
            }
            if state.order.len() >= MAX_CACHE_SIZE {
                let oldest = state.order.remove(0);
                let _ = state.bodies.remove(&oldest);
                assert(state.order@ =~= order.drop_first());
            }
        },
    }
    state.order.push(uid);
    let _ = state.bodies.insert(uid, html);
    proof {
        lemma_state_cache_valid(state.bodies@, state.order@);
    }
    cache.state = state;
}

/// An access keeps a cache valid.
pub proof fn lemma_touched_valid(s: CacheView, uid: u32)
    requires
        cache_valid(s),
    ensures
        cache_valid(touched(s, uid)),
        touched(s, uid).len() == s.len(),
{
    if has_uid(s, uid) {
        let i = position_of(s, uid);
        let t = touched(s, uid);
        assert forall|a: int, b: int| 0 <= a < b < t.len() implies t[a].0 != t[b].0 by {
            let a0 = if a < i { a } else { a + 1 };
            if b < t.len() - 1 {
                let b0 = if b < i { b } else { b + 1 };
                assert(t[a] == s[a0] && t[b] == s[b0]);
            } else {
                assert(t[a] == s[a0] && t[b] == s[i]);
            }
        }
    }
}

/// The cache never outgrows its bound: storing a body keeps a cache valid,
/// and the stored body is then the most recently accessed entry.
pub proof fn lemma_inserted_valid(s: CacheView, uid: u32, html: Seq<char>)
    requires
        cache_valid(s),
    ensures
        cache_valid(inserted(s, uid, html)),
        inserted(s, uid, html).last() == (uid, html),
        has_uid(inserted(s, uid, html), uid),
{
    let t = inserted(s, uid, html);
    assert(t[t.len() - 1].0 == uid);
    if has_uid(s, uid) {
        let i = position_of(s, uid);
        assert forall|a: int, b: int| 0 <= a < b < t.len() implies t[a].0 != t[b].0 by {
            let a0 = if a < i { a } else { a + 1 };
            assert(t[a] == s[a0]);
            if b < t.len() - 1 {
                let b0 = if b < i { b } else { b + 1 };
                assert(t[b] == s[b0]);
            } else {
                assert(s[a0].0 != s[i].0);
            }
        }
    } else {
        let off: int = if s.len() >= MAX_CACHE_SIZE { 1 } else { 0 };
        assert forall|a: int, b: int| 0 <= a < b < t.len() implies t[a].0 != t[b].0 by {
            assert(t[a] == s[a + off]);
            if b < t.len() - 1 {
                assert(t[b] == s[b + off]);
            }
        }
    }
}


/// The number of the latest insertions that a cache is sure to hold after
/// `n` insertions of distinct UIDs.
pub open spec fn kept_of(n: nat) -> nat {
    if n < MAX_CACHE_SIZE {
        n
    } else {
        MAX_CACHE_SIZE as nat
    }
}

/// After bodies were stored for distinct UIDs, the cache ends with the
/// latest of them, in the order in which they were stored: with all of them
/// where they are fewer than `MAX_CACHE_SIZE`, with the latest
/// `MAX_CACHE_SIZE` else.
pub proof fn lemma_latest_insertions_kept(s: CacheView, items: CacheView)
    requires
        cache_valid(s),
        distinct_uids(items),
    ensures
        cache_valid(inserted_all(s, items)),
        inserted_all(s, items).len() >= kept_of(items.len()),
        forall|j: int|
            0 <= j < kept_of(items.len()) ==> inserted_all(s, items)[inserted_all(s, items).len()
                - kept_of(items.len()) + j] == #[trigger] items[items.len() - kept_of(items.len())
                + j],
    decreases items.len(),
{
    if items.len() > 0 {
        let earlier = items.drop_last();
        let prev = inserted_all(s, earlier);
        let k = items.last().0;
        let h = items.last().1;
        let t = inserted(prev, k, h);
        let m0 = kept_of(earlier.len());
        let m = kept_of(items.len());
        lemma_latest_insertions_kept(s, earlier);
        lemma_inserted_valid(prev, k, h);
        assert forall|j: int| 0 <= j < m0 implies (#[trigger] prev[prev.len() - m0 + j]).0 != k by {
            assert(prev[prev.len() - m0 + j] == earlier[earlier.len() - m0 + j]);
            assert(earlier[earlier.len() - m0 + j] == items[earlier.len() - m0 + j]);
        }
        if has_uid(prev, k) {
            let i = position_of(prev, k);
            if i >= prev.len() - m0 {
                assert((prev[prev.len() - m0 + (i - (prev.len() - m0))]).0 != k);
            }
            assert(i < prev.len() - m0);
            assert(m0 < MAX_CACHE_SIZE);
            assert forall|j: int| 0 <= j < m implies t[t.len() - m + j] == #[trigger] items[items.len()
                - m + j] by {
                if j < m - 1 {
                    assert(t[t.len() - m + j] == prev[prev.len() - m0 + j]);
                    assert(earlier[earlier.len() - m0 + j] == items[items.len() - m + j]);
                }
            }
        } else if prev.len() >= MAX_CACHE_SIZE {
            assert forall|j: int| 0 <= j < m implies t[t.len() - m + j] == #[trigger] items[items.len()
                - m + j] by {
                if j < m - 1 {
                    if m0 == MAX_CACHE_SIZE {
                        assert(t[t.len() - m + j] == prev[prev.len() - m0 + (j + 1)]);
                        assert(earlier[earlier.len() - m0 + (j + 1)] == items[items.len() - m + j]);
                    } else {
                        assert(t[t.len() - m + j] == prev[prev.len() - m0 + j]);
                        assert(earlier[earlier.len() - m0 + j] == items[items.len() - m + j]);
                    }
                }
            }
        } else {
            assert forall|j: int| 0 <= j < m implies t[t.len() - m + j] == #[trigger] items[items.len()
                - m + j] by {
                if j < m - 1 {
                    assert(t[t.len() - m + j] == prev[prev.len() - m0 + j]);
                    assert(earlier[earlier.len() - m0 + j] == items[items.len() - m + j]);
                }
            }
        }
    }
}

/// After bodies were stored for `MAX_CACHE_SIZE` or more distinct UIDs, the
/// cache holds exactly the latest `MAX_CACHE_SIZE` of them, the most recent
/// last.
pub proof fn lemma_many_insertions_keep_latest(s: CacheView, items: CacheView)
    requires
        cache_valid(s),
        distinct_uids(items),
        items.len() >= MAX_CACHE_SIZE,
    ensures
        inserted_all(s, items) == items.subrange(
            items.len() - MAX_CACHE_SIZE,
            items.len() as int,
        ),
{
    lemma_latest_insertions_kept(s, items);
    let t = inserted_all(s, items);
    let want = items.subrange(items.len() - MAX_CACHE_SIZE, items.len() as int);
    assert(t.len() == MAX_CACHE_SIZE);
    assert forall|j: int| 0 <= j < t.len() implies t[j] == want[j] by {
        assert(t[t.len() - kept_of(items.len()) + j] == items[items.len() - kept_of(items.len())
            + j]);
    }
    assert(t =~= want);
}

} // verus!
