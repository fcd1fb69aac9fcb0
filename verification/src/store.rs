//! The in-memory document store the repositories run against: one
//! collection per entity kind and a counter that hands out fresh
//! identifiers.

use vstd::prelude::*;

use crate::event::{Event, EventV};
use crate::ids::ObjectId;
use crate::trip::{EventEntryV, Trip, TripV};
use crate::user::{User, UserV};

verus! {

/// Whether an optional identifier is a present, well-formed key below
/// the store's counter.
pub open spec fn key_ok(id: Option<ObjectId>, next: u64) -> bool {
    id matches Some(o) && o.wf() && o.value < next as u128
}

/// Every stored event carries a distinct key below the counter.
pub open spec fn events_keyed(s: Seq<EventV>, next: u64) -> bool {
    &&& forall|i: int| 0 <= i < s.len() ==> key_ok(#[trigger] s[i].id, next)
    &&& forall|i: int, j: int|
        0 <= i < j < s.len() ==> (#[trigger] s[i].id) != (#[trigger] s[j].id)
}

/// Every stored user carries a distinct key below the counter.
pub open spec fn users_keyed(s: Seq<UserV>, next: u64) -> bool {
    &&& forall|i: int| 0 <= i < s.len() ==> key_ok(#[trigger] s[i].id, next)
    &&& forall|i: int, j: int|
        0 <= i < j < s.len() ==> (#[trigger] s[i].id) != (#[trigger] s[j].id)
}

/// Whether an embedded entry's own identifier is well formed and below
/// the counter.
pub open spec fn entry_key_ok(e: EventEntryV, next: u64) -> bool {
    e.id.wf() && e.id.value < next as u128
}

/// Every stored trip carries a distinct key below the counter, and so
/// does every entry embedded in it (so freshly numbered entries are
/// distinct from every stored one).
pub open spec fn trips_keyed(s: Seq<TripV>, next: u64) -> bool {
    &&& forall|i: int|
        0 <= i < s.len() ==> (#[trigger] s[i].id).wf() && s[i].id.value < next as u128
    &&& forall|i: int, j: int|
        0 <= i < j < s.len() ==> (#[trigger] s[i].id) != (#[trigger] s[j].id)
    &&& forall|i: int, k: int|
        0 <= i < s.len() && 0 <= k < s[i].events.len() ==> entry_key_ok(
            #[trigger] s[i].events[k],
            next,
        )
}

/// The three logical collections plus the identifier counter.
///
/// `new` establishes `wf` and every operation preserves it; callers
/// that assemble a store by hand owe `wf` themselves.
#[derive(Debug)]
pub struct Store {
    pub users: Vec<User>,
    pub events: Vec<Event>,
    pub trips: Vec<Trip>,
    pub next_id: u64,
}

impl Store {
    /// Well-formedness: every stored record is keyed by a distinct,
    /// well-formed identifier that the counter has already passed.
    pub open spec fn wf(&self) -> bool {
        &&& users_keyed(self.users.deep_view(), self.next_id)
        &&& events_keyed(self.events.deep_view(), self.next_id)
        &&& trips_keyed(self.trips.deep_view(), self.next_id)
    }

    /// An empty store.
    pub fn new() -> (s: Store)
        ensures
            s.wf(),
            s.users.deep_view() == Seq::<UserV>::empty(),
            s.events.deep_view() == Seq::<EventV>::empty(),
            s.trips.deep_view() == Seq::<TripV>::empty(),
            s.next_id == 0,
    {
        let s = Store { users: Vec::new(), events: Vec::new(), trips: Vec::new(), next_id: 0 };
        proof {
            assert(s.users.deep_view() =~= Seq::<UserV>::empty());
            assert(s.events.deep_view() =~= Seq::<EventV>::empty());
            assert(s.trips.deep_view() =~= Seq::<TripV>::empty());
        }
        s
    }

    /// Hands out the next identifier, or reports exhaustion. Fresh
    /// identifiers are distinct from every key the store holds.
    pub(crate) fn fresh_id(&mut self) -> (r: Result<ObjectId, ()>)
        ensures
            old(self).next_id == u64::MAX ==> r is Err && *final(self) == *old(self),
            old(self).next_id < u64::MAX ==> {
                &&& r == Ok::<ObjectId, ()>(ObjectId::spec_from_value(old(self).next_id as u128))
                &&& final(self).next_id == old(self).next_id + 1
                &&& final(self).users == old(self).users
                &&& final(self).events == old(self).events
                &&& final(self).trips == old(self).trips
            },
            r matches Ok(o) ==> o.wf(),
    {
        if self.next_id == u64::MAX {
            return Err(());
        }
        let id = ObjectId::from_u64(self.next_id);
        self.next_id = self.next_id + 1;
        Ok(id)
    }
}

pub proof fn lemma_events_keyed_update(s: Seq<EventV>, next: u64, i: int, e: EventV)
    requires
        events_keyed(s, next),
        0 <= i < s.len(),
        e.id == s[i].id,
    ensures
        events_keyed(s.update(i, e), next),
{
    let t = s.update(i, e);
    assert forall|k: int| 0 <= k < t.len() implies key_ok(#[trigger] t[k].id, next) by {
        assert(t[k].id == s[k].id);
        assert(key_ok(s[k].id, next));
    }
    assert forall|a: int, b: int| 0 <= a < b < t.len() implies (#[trigger] t[a].id) != (
    #[trigger] t[b].id) by {
        assert(t[a].id == s[a].id);
        assert(t[b].id == s[b].id);
    }
}

pub proof fn lemma_events_keyed_push(s: Seq<EventV>, next: u64, next2: u64, e: EventV)
    requires
        events_keyed(s, next),
        next <= next2,
        e.id matches Some(o) && o.wf() && next as u128 <= o.value < next2 as u128,
    ensures
        events_keyed(s.push(e), next2),
{
    let t = s.push(e);
    assert forall|k: int| 0 <= k < t.len() implies key_ok(#[trigger] t[k].id, next2) by {
        if k < s.len() {
            assert(key_ok(s[k].id, next));
        }
    }
    assert forall|a: int, b: int| 0 <= a < b < t.len() implies (#[trigger] t[a].id) != (
    #[trigger] t[b].id) by {
        if b < s.len() {
        } else {
            assert(key_ok(s[a].id, next));
        }
    }
}

pub proof fn lemma_events_keyed_mono(s: Seq<EventV>, next: u64, next2: u64)
    requires
        events_keyed(s, next),
        next <= next2,
    ensures
        events_keyed(s, next2),
{
    assert forall|k: int| 0 <= k < s.len() implies key_ok(#[trigger] s[k].id, next2) by {
        assert(key_ok(s[k].id, next));
    }
}

pub proof fn lemma_users_keyed_update(s: Seq<UserV>, next: u64, i: int, u: UserV)
    requires
        users_keyed(s, next),
        0 <= i < s.len(),
        u.id == s[i].id,
    ensures
        users_keyed(s.update(i, u), next),
{
    let t = s.update(i, u);
    assert forall|k: int| 0 <= k < t.len() implies key_ok(#[trigger] t[k].id, next) by {
        assert(t[k].id == s[k].id);
        assert(key_ok(s[k].id, next));
    }
    assert forall|a: int, b: int| 0 <= a < b < t.len() implies (#[trigger] t[a].id) != (
    #[trigger] t[b].id) by {
        assert(t[a].id == s[a].id);
        assert(t[b].id == s[b].id);
    }
}

pub proof fn lemma_users_keyed_push(s: Seq<UserV>, next: u64, next2: u64, u: UserV)
    requires
        users_keyed(s, next),
        next <= next2,
        u.id matches Some(o) && o.wf() && next as u128 <= o.value < next2 as u128,
    ensures
        users_keyed(s.push(u), next2),
{
    let t = s.push(u);
    assert forall|k: int| 0 <= k < t.len() implies key_ok(#[trigger] t[k].id, next2) by {
        if k < s.len() {
            assert(key_ok(s[k].id, next));
        }
    }
    assert forall|a: int, b: int| 0 <= a < b < t.len() implies (#[trigger] t[a].id) != (
    #[trigger] t[b].id) by {
        if b < s.len() {
        } else {
            assert(key_ok(s[a].id, next));
        }
    }
}

pub proof fn lemma_users_keyed_mono(s: Seq<UserV>, next: u64, next2: u64)
    requires
        users_keyed(s, next),
        next <= next2,
    ensures
        users_keyed(s, next2),
{
    assert forall|k: int| 0 <= k < s.len() implies key_ok(#[trigger] s[k].id, next2) by {
        assert(key_ok(s[k].id, next));
    }
}

pub proof fn lemma_trips_keyed_update(s: Seq<TripV>, next: u64, i: int, t0: TripV)
    requires
        trips_keyed(s, next),
        0 <= i < s.len(),
        t0.id == s[i].id,
        forall|k: int| 0 <= k < t0.events.len() ==> entry_key_ok(#[trigger] t0.events[k], next),
    ensures
        trips_keyed(s.update(i, t0), next),
{
    let t = s.update(i, t0);
    assert forall|k: int| 0 <= k < t.len() implies (#[trigger] t[k].id).wf() && t[k].id.value
        < next as u128 by {
        assert(t[k].id == s[k].id);
        assert(s[k].id.wf() && s[k].id.value < next as u128);
    }
    assert forall|a: int, b: int| 0 <= a < b < t.len() implies (#[trigger] t[a].id) != (
    #[trigger] t[b].id) by {
        assert(t[a].id == s[a].id);
        assert(t[b].id == s[b].id);
    }
    assert forall|a: int, k: int|
        0 <= a < t.len() && 0 <= k < t[a].events.len() implies entry_key_ok(
        #[trigger] t[a].events[k],
        next,
    ) by {
        if a != i {
            assert(t[a] == s[a]);
            assert(entry_key_ok(s[a].events[k], next));
        }
    }
}

pub proof fn lemma_trips_keyed_push(s: Seq<TripV>, next: u64, next2: u64, t0: TripV)
    requires
        trips_keyed(s, next),
        next <= next2,
        t0.id.wf() && next as u128 <= t0.id.value < next2 as u128,
        forall|k: int| 0 <= k < t0.events.len() ==> entry_key_ok(#[trigger] t0.events[k], next2),
    ensures
        trips_keyed(s.push(t0), next2),
{
    let t = s.push(t0);
    assert forall|k: int| 0 <= k < t.len() implies (#[trigger] t[k].id).wf() && t[k].id.value
        < next as u128 || t[k] == t0 by {
        if k < s.len() {
            assert(s[k].id.wf() && s[k].id.value < next as u128);
        }
    }
    assert forall|k: int| 0 <= k < t.len() implies (#[trigger] t[k].id).wf() && t[k].id.value
        < next2 as u128 by {
        if k < s.len() {
            assert(s[k].id.wf() && s[k].id.value < next as u128);
        }
    }
    assert forall|a: int, b: int| 0 <= a < b < t.len() implies (#[trigger] t[a].id) != (
    #[trigger] t[b].id) by {
        if b < s.len() {
        } else {
            assert(s[a].id.wf() && s[a].id.value < next as u128);
        }
    }
    assert forall|a: int, k: int|
        0 <= a < t.len() && 0 <= k < t[a].events.len() implies entry_key_ok(
        #[trigger] t[a].events[k],
        next2,
    ) by {
        if a < s.len() {
            assert(t[a] == s[a]);
            assert(entry_key_ok(s[a].events[k], next));
        }
    }
}

pub proof fn lemma_trips_keyed_mono(s: Seq<TripV>, next: u64, next2: u64)
    requires
        trips_keyed(s, next),
        next <= next2,
    ensures
        trips_keyed(s, next2),
{
    assert forall|k: int| 0 <= k < s.len() implies (#[trigger] s[k].id).wf() && s[k].id.value
        < next2 as u128 by {
        assert(s[k].id.wf() && s[k].id.value < next as u128);
    }
    assert forall|a: int, k: int|
        0 <= a < s.len() && 0 <= k < s[a].events.len() implies entry_key_ok(
        #[trigger] s[a].events[k],
        next2,
    ) by {
        assert(entry_key_ok(s[a].events[k], next));
    }
}

pub proof fn lemma_trips_keyed_remove(s: Seq<TripV>, next: u64, i: int)
    requires
        trips_keyed(s, next),
        0 <= i < s.len(),
    ensures
        trips_keyed(s.remove(i), next),
{
    let t = s.remove(i);
    assert forall|k: int| 0 <= k < t.len() implies (#[trigger] t[k].id).wf() && t[k].id.value
        < next as u128 by {
        if k < i {
            assert(t[k] == s[k]);
        } else {
            assert(t[k] == s[k + 1]);
        }
    }
    assert forall|a: int, b: int| 0 <= a < b < t.len() implies (#[trigger] t[a].id) != (
    #[trigger] t[b].id) by {
        let a2: int = if a < i { a } else { a + 1 };
        let b2: int = if b < i { b } else { b + 1 };
        assert(t[a] == s[a2]);
        assert(t[b] == s[b2]);
    }
    assert forall|a: int, k: int|
        0 <= a < t.len() && 0 <= k < t[a].events.len() implies entry_key_ok(
        #[trigger] t[a].events[k],
        next,
    ) by {
        let a2: int = if a < i { a } else { a + 1 };
        assert(t[a] == s[a2]);
        assert(entry_key_ok(s[a2].events[k], next));
    }
}

/// The window pagination cuts from a listing: skip `off` records, keep
/// at most `lim`.
pub open spec fn page<T>(s: Seq<T>, off: int, lim: int) -> Seq<T> {
    let o = if off > s.len() {
        s.len() as int
    } else {
        off
    };
    let e = if o + lim > s.len() {
        s.len() as int
    } else {
        o + lim
    };
    s.subrange(o, e)
}

/// Addition clamped to the `i64` range: the whole-unit counterpart of
/// the store's saturating budget arithmetic.
pub open spec fn clamped_add(a: i64, b: i64) -> i64 {
    if a + b > i64::MAX as int {
        i64::MAX
    } else if a + b < i64::MIN as int {
        i64::MIN
    } else {
        (a + b) as i64
    }
}

/// Subtraction clamped to the `i64` range.
pub open spec fn clamped_sub(a: i64, b: i64) -> i64 {
    if a - b > i64::MAX as int {
        i64::MAX
    } else if a - b < i64::MIN as int {
        i64::MIN
    } else {
        (a - b) as i64
    }
}

/// Adds two amounts, clamping at the ends of the range.
pub fn add_clamped(a: i64, b: i64) -> (r: i64)
    ensures
        r == clamped_add(a, b),
{
    if b >= 0 {
        if a > i64::MAX - b {
            i64::MAX
        } else {
            a + b
        }
    } else {
        if a < i64::MIN - b {
            i64::MIN
        } else {
            a + b
        }
    }
}

/// Subtracts an amount, clamping at the ends of the range.
pub fn sub_clamped(a: i64, b: i64) -> (r: i64)
    ensures
        r == clamped_sub(a, b),
{
    if b >= 0 {
        if a < i64::MIN + b {
            i64::MIN
        } else {
            a - b
        }
    } else {
        if a > i64::MAX + b {
            i64::MAX
        } else {
            a - b
        }
    }
}

} // verus!
