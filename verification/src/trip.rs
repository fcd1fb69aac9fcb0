//! Trips: the entity with its embedded event entries, the filter, edit,
//! create and fork records, and the trip repository.

use vstd::prelude::*;

use crate::error::RepoError;
use crate::event::spec_owner_of;
use crate::ids::{
    hex_seq_val, lemma_oid_digits_val, lemma_oid_digits_valid, lemma_pow16_24, oid_digits,
    valid_oid_chars, ObjectId,
};
use crate::role::Role;
use crate::store::{
    add_clamped, clamped_add, clamped_sub, entry_key_ok, lemma_events_keyed_mono,
    lemma_trips_keyed_push, lemma_trips_keyed_remove, lemma_trips_keyed_update,
    lemma_users_keyed_mono, page, sub_clamped, trips_keyed, Store,
};
use crate::user::spec_check_role;

verus! {

/// One scheduled event inside a trip: its own identifier, the
/// referenced event, the schedule, and the budget this entry
/// contributes to the trip.
#[derive(Debug)]
pub struct EventEntry {
    pub id: ObjectId,
    pub event_id: ObjectId,
    pub start_date: String,
    pub start_hour: String,
    pub budget: i64,
    pub duration: i32,
}

/// Mathematical model of an event entry.
#[verifier::ext_equal]
pub struct EventEntryV {
    pub id: ObjectId,
    pub event_id: ObjectId,
    pub start_date: Seq<char>,
    pub start_hour: Seq<char>,
    pub budget: i64,
    pub duration: i32,
}

impl View for EventEntry {
    type V = EventEntryV;

    open spec fn view(&self) -> EventEntryV {
        EventEntryV {
            id: self.id,
            event_id: self.event_id,
            start_date: self.start_date@,
            start_hour: self.start_hour@,
            budget: self.budget,
            duration: self.duration,
        }
    }
}

impl DeepView for EventEntry {
    type V = EventEntryV;

    open spec fn deep_view(&self) -> EventEntryV {
        self.view()
    }
}

impl Clone for EventEntry {
    fn clone(&self) -> (r: Self)
        ensures
            r@ == self@,
    {
        EventEntry {
            id: self.id,
            event_id: self.event_id,
            start_date: self.start_date.clone(),
            start_hour: self.start_hour.clone(),
            budget: self.budget,
            duration: self.duration,
        }
    }
}

/// Copies a list of event entries, keeping every field.
pub(crate) fn clone_entries(v: &Vec<EventEntry>) -> (r: Vec<EventEntry>)
    ensures
        r.deep_view() == v.deep_view(),
{
    let mut out: Vec<EventEntry> = Vec::new();
    let mut i: usize = 0;
    while i < v.len()
        invariant
            0 <= i <= v.len(),
            out.len() == i,
            forall|j: int| 0 <= j < i ==> out@[j]@ == v@[j]@,
        decreases v.len() - i,
    {
        out.push(v[i].clone());
        i = i + 1;
    }
    proof {
        assert(out.deep_view() =~= v.deep_view());
    }
    out
}

/// A trip record: dates, destination, visibility, the owning user, an
/// aggregate budget, and the embedded list of event entries.
#[derive(Debug)]
pub struct Trip {
    pub id: ObjectId,
    pub name: String,
    pub start_date: String,
    pub end_date: String,
    pub budget: i64,
    pub destination: String,
    pub events: Vec<EventEntry>,
    pub private: bool,
    pub user_id: ObjectId,
}

/// Mathematical model of a trip record.
#[verifier::ext_equal]
pub struct TripV {
    pub id: ObjectId,
    pub name: Seq<char>,
    pub start_date: Seq<char>,
    pub end_date: Seq<char>,
    pub budget: i64,
    pub destination: Seq<char>,
    pub events: Seq<EventEntryV>,
    pub private: bool,
    pub user_id: ObjectId,
}

impl View for Trip {
    type V = TripV;

    open spec fn view(&self) -> TripV {
        TripV {
            id: self.id,
            name: self.name@,
            start_date: self.start_date@,
            end_date: self.end_date@,
            budget: self.budget,
            destination: self.destination@,
            events: self.events.deep_view(),
            private: self.private,
            user_id: self.user_id,
        }
    }
}

impl DeepView for Trip {
    type V = TripV;

    open spec fn deep_view(&self) -> TripV {
        self.view()
    }
}

impl Clone for Trip {
    fn clone(&self) -> (r: Self)
        ensures
            r@ == self@,
    {
        let r = Trip {
            id: self.id,
            name: self.name.clone(),
            start_date: self.start_date.clone(),
            end_date: self.end_date.clone(),
            budget: self.budget,
            destination: self.destination.clone(),
            events: clone_entries(&self.events),
            private: self.private,
            user_id: self.user_id,
        };
        proof {
            assert(r@ =~= self@);
        }
        r
    }
}

/// The record a new trip is created from; the entry list starts empty.
#[derive(Debug)]
pub struct TripCreate {
    pub name: String,
    pub start_date: String,
    pub end_date: String,
    pub budget: i64,
    pub destination: String,
    pub private: bool,
    pub user_id: ObjectId,
}

/// An edit record for a trip: the target identifier plus every mutable
/// field as optional; absence means "leave unchanged".
#[derive(Debug)]
pub struct TripEdit {
    pub id: ObjectId,
    pub name: Option<String>,
    pub start_date: Option<String>,
    pub end_date: Option<String>,
    pub budget: Option<i64>,
    pub private: Option<bool>,
    pub destination: Option<String>,
}

/// The trip an edit record turns a baseline trip into: exactly the
/// present fields are replaced; the identifier, owner and entry list
/// are never touched.
pub open spec fn apply_trip_edit(u: TripEdit, t: TripV) -> TripV {
    TripV {
        id: t.id,
        name: match u.name {
            Some(s) => s@,
            None => t.name,
        },
        start_date: match u.start_date {
            Some(s) => s@,
            None => t.start_date,
        },
        end_date: match u.end_date {
            Some(s) => s@,
            None => t.end_date,
        },
        budget: match u.budget {
            Some(v) => v,
            None => t.budget,
        },
        destination: match u.destination {
            Some(s) => s@,
            None => t.destination,
        },
        events: t.events,
        private: match u.private {
            Some(b) => b,
            None => t.private,
        },
        user_id: t.user_id,
    }
}

/// A fork request: the trip to fork and the new name and dates.
#[derive(Debug)]
pub struct TripFork {
    pub name: String,
    pub start_date: String,
    pub end_date: String,
    pub to_fork_trip_id: ObjectId,
}

/// A request-scoped trip listing filter: pagination, optional budget
/// bounds, and an optional owner.
#[derive(Debug)]
pub struct TripFilter {
    pub offset: usize,
    pub limit: usize,
    pub budget_gt: Option<i64>,
    pub budget_lt: Option<i64>,
    pub user_id: Option<String>,
}

/// The store predicate a trip filter builds. All fields are plain, so
/// the query is its own model.
#[derive(Clone, Copy, Debug, PartialEq, Eq, Structural)]
pub struct TripQuery {
    pub owner: Option<ObjectId>,
    pub require_public: bool,
    pub budget_gt: Option<i64>,
    pub budget_lt: Option<i64>,
}

/// The query a trip filter record builds: a valid owner restricts to
/// that owner; a missing or malformed one restricts to non-private
/// trips; the budget bounds are inclusive.
pub open spec fn spec_trip_query_of(f: TripFilter) -> TripQuery {
    TripQuery {
        owner: spec_owner_of(f.user_id),
        require_public: spec_owner_of(f.user_id) is None,
        budget_gt: f.budget_gt,
        budget_lt: f.budget_lt,
    }
}

/// Whether a trip satisfies a query: the conjunction of every present
/// predicate.
pub open spec fn trip_matches(q: TripQuery, t: TripV) -> bool {
    &&& (q.owner matches Some(o) ==> t.user_id == o)
    &&& (q.require_public ==> !t.private)
    &&& (q.budget_gt matches Some(v) ==> t.budget >= v)
    &&& (q.budget_lt matches Some(v) ==> t.budget <= v)
}

/// Builds the store query for a trip filter record (the filter
/// builder).
pub fn get_find_filter(trip_filter: &TripFilter) -> (q: TripQuery)
    ensures
        q == spec_trip_query_of(*trip_filter),
{
    let owner: Option<ObjectId> = match &trip_filter.user_id {
        Some(s) => match ObjectId::parse(s.as_str()) {
            Ok(o) => Some(o),
            Err(_) => None,
        },
        None => None,
    };
    let require_public = match owner {
        Some(_) => false,
        None => true,
    };
    TripQuery { owner, require_public, budget_gt: trip_filter.budget_gt, budget_lt: trip_filter.budget_lt }
}

/// Whether a trip satisfies a query.
pub fn matches_trip(q: &TripQuery, t: &Trip) -> (r: bool)
    ensures
        r == trip_matches(*q, t@),
{
    match &q.owner {
        Some(o) => {
            if !(t.user_id == *o) {
                return false;
            }
        },
        None => {},
    }
    if q.require_public && t.private {
        return false;
    }
    match q.budget_gt {
        Some(v) => {
            if !(t.budget >= v) {
                return false;
            }
        },
        None => {},
    }
    match q.budget_lt {
        Some(v) => {
            if !(t.budget <= v) {
                return false;
            }
        },
        None => {},
    }
    true
}

/// The position of the first trip stored under the identifier, or -1.
pub open spec fn trip_index(s: Seq<TripV>, oid: ObjectId) -> int
    decreases s.len(),
{
    if s.len() == 0 {
        -1
    } else if s[0].id == oid {
        0
    } else {
        let r = trip_index(s.drop_first(), oid);
        if r < 0 {
            -1
        } else {
            r + 1
        }
    }
}


pub proof fn lemma_trip_index_props(s: Seq<TripV>, oid: ObjectId)
    ensures
        trip_index(s, oid) < s.len(),
        trip_index(s, oid) >= 0 ==> s[trip_index(s, oid)].id == oid,
    decreases s.len(),
{
    if s.len() > 0 && s[0].id != oid {
        lemma_trip_index_props(s.drop_first(), oid);
    }
}

proof fn lemma_trip_index_first(s: Seq<TripV>, oid: ObjectId, i: int)
    requires
        0 <= i < s.len(),
        s[i].id == oid,
        forall|j: int| 0 <= j < i ==> s[j].id != oid,
    ensures
        trip_index(s, oid) == i,
    decreases s.len(),
{
    if i > 0 {
        let t = s.drop_first();
        assert(t[i - 1].id == oid);
        assert(forall|j: int| 0 <= j < i - 1 ==> t[j].id != oid);
        lemma_trip_index_first(t, oid, i - 1);
    }
}

proof fn lemma_trip_index_none(s: Seq<TripV>, oid: ObjectId)
    requires
        forall|j: int| 0 <= j < s.len() ==> s[j].id != oid,
    ensures
        trip_index(s, oid) < 0,
    decreases s.len(),
{
    if s.len() > 0 {
        lemma_trip_index_none(s.drop_first(), oid);
    }
}

/// Finds the first trip stored under the identifier.
fn find_trip_index(trips: &Vec<Trip>, oid: ObjectId) -> (r: Option<usize>)
    ensures
        ({
            let i = trip_index(trips.deep_view(), oid);
            &&& (r matches Some(k) ==> i == k && k < trips@.len())
            &&& (r is None ==> i < 0)
        }),
{
    let mut k: usize = 0;
    while k < trips.len()
        invariant
            0 <= k <= trips@.len(),
            forall|j: int| 0 <= j < k ==> (#[trigger] trips.deep_view()[j]).id != oid,
        decreases trips@.len() - k,
    {
        if trips[k].id == oid {
            proof {
                lemma_trip_index_first(trips.deep_view(), oid, k as int);
            }
            return Some(k);
        }
        k = k + 1;
    }
    proof {
        lemma_trip_index_none(trips.deep_view(), oid);
    }
    None
}

/// What a fetch by identifier string returns, as a function of the
/// collection and the string alone.
pub open spec fn spec_get_trip(trips: Seq<TripV>, id_chars: Seq<char>) -> Result<TripV, RepoError> {
    if !valid_oid_chars(id_chars) {
        Err(RepoError::InvalidIdentifier)
    } else {
        let i = trip_index(trips, ObjectId::spec_from_value(hex_seq_val(id_chars) as u128));
        if i < 0 {
            Err(RepoError::NotFound)
        } else {
            Ok(trips[i])
        }
    }
}

/// The records matching a query, in store order.
pub open spec fn spec_trip_matching(trips: Seq<TripV>, q: TripQuery) -> Seq<TripV> {
    trips.filter(|t: TripV| trip_matches(q, t))
}

proof fn lemma_trip_matching_push(trips: Seq<TripV>, q: TripQuery, t: TripV)
    ensures
        spec_trip_matching(trips.push(t), q) == if trip_matches(q, t) {
            spec_trip_matching(trips, q).push(t)
        } else {
            spec_trip_matching(trips, q)
        },
{
    reveal(Seq::filter);
    let s = trips.push(t);
    assert(s.drop_last() =~= trips);
    assert(s.last() == t);
}

/// Every listed record satisfies the query.
pub proof fn lemma_trip_matching_pred(trips: Seq<TripV>, q: TripQuery, i: int)
    requires
        0 <= i < spec_trip_matching(trips, q).len(),
    ensures
        trip_matches(q, spec_trip_matching(trips, q)[i]),
    decreases trips.len(),
{
    reveal(Seq::filter);
    if trips.len() > 0 {
        let d = trips.drop_last();
        if trip_matches(q, trips.last()) {
            if i < spec_trip_matching(d, q).len() {
                lemma_trip_matching_pred(d, q, i);
            }
        } else {
            lemma_trip_matching_pred(d, q, i);
        }
    }
}

/// The stored form of a create record: the fresh identifier, the given
/// fields, and an empty entry list.
pub open spec fn created_trip(c: TripCreate, id: ObjectId) -> TripV {
    TripV {
        id,
        name: c.name@,
        start_date: c.start_date@,
        end_date: c.end_date@,
        budget: c.budget,
        destination: c.destination@,
        events: Seq::<EventEntryV>::empty(),
        private: c.private,
        user_id: c.user_id,
    }
}

/// Whether a pull request removes a stored entry: it matches by the
/// embedded entry identifier or by the referenced event identifier.
pub open spec fn entry_matches_removal(e: EventEntryV, probe: EventEntryV) -> bool {
    e.id == probe.id || e.event_id == probe.event_id
}

/// The entries a pull request leaves in place.
pub open spec fn spec_kept_entries(es: Seq<EventEntryV>, probe: EventEntryV) -> Seq<EventEntryV> {
    es.filter(|e: EventEntryV| !entry_matches_removal(e, probe))
}

/// Keeping entries keeps their key bound: a pull never introduces an
/// entry identifier the counter has not passed.
proof fn lemma_kept_entries_keyed(es: Seq<EventEntryV>, probe: EventEntryV, next: u64)
    requires
        forall|k: int| 0 <= k < es.len() ==> entry_key_ok(#[trigger] es[k], next),
    ensures
        forall|k: int|
            0 <= k < spec_kept_entries(es, probe).len() ==> entry_key_ok(
                #[trigger] spec_kept_entries(es, probe)[k],
                next,
            ),
    decreases es.len(),
{
    reveal(Seq::filter);
    if es.len() > 0 {
        let d = es.drop_last();
        assert(forall|k: int| 0 <= k < d.len() ==> entry_key_ok(#[trigger] d[k], next));
        lemma_kept_entries_keyed(d, probe, next);
        assert(entry_key_ok(es[es.len() - 1], next));
        let kd = spec_kept_entries(d, probe);
        assert forall|k: int| 0 <= k < spec_kept_entries(es, probe).len() implies entry_key_ok(
            #[trigger] spec_kept_entries(es, probe)[k],
            next,
        ) by {
            if !entry_matches_removal(es.last(), probe) {
                assert(spec_kept_entries(es, probe) == kd.push(es.last()));
                if k < kd.len() {
                    assert(entry_key_ok(kd[k], next));
                }
            } else {
                assert(spec_kept_entries(es, probe) == kd);
                assert(entry_key_ok(kd[k], next));
            }
        }
    }
}

proof fn lemma_kept_entries_push(es: Seq<EventEntryV>, probe: EventEntryV, e: EventEntryV)
    ensures
        spec_kept_entries(es.push(e), probe) == if !entry_matches_removal(e, probe) {
            spec_kept_entries(es, probe).push(e)
        } else {
            spec_kept_entries(es, probe)
        },
{
    reveal(Seq::filter);
    let s = es.push(e);
    assert(s.drop_last() =~= es);
    assert(s.last() == e);
}

/// The trip a fork builds: the new name and dates from the request,
/// budget, destination and visibility copied from the source, the
/// requesting user as owner, and every source entry cloned under a
/// fresh identifier.
pub open spec fn spec_forked_trip(src: TripV, f: TripFork, owner: ObjectId, base: u64) -> TripV {
    TripV {
        id: ObjectId::spec_from_value(base as u128),
        name: f.name@,
        start_date: f.start_date@,
        end_date: f.end_date@,
        budget: src.budget,
        destination: src.destination,
        events: Seq::new(
            src.events.len(),
            |k: int|
                (EventEntryV {
                    id: ObjectId::spec_from_value((base + 1 + k) as u128),
                    ..src.events[k]
                }),
        ),
        private: src.private,
        user_id: owner,
    }
}

impl Trip {
    /// Fetch by identifier string: `InvalidIdentifier` on a malformed
    /// string, `NotFound` when no record matches, otherwise the stored
    /// record.
    pub fn get_trip(trip_id: &str, store: &Store) -> (r: Result<Trip, RepoError>)
        ensures
            r is Ok <==> spec_get_trip(store.trips.deep_view(), trip_id@) is Ok,
            r matches Ok(t) ==> t@ == spec_get_trip(store.trips.deep_view(), trip_id@)->Ok_0,
            r matches Err(er) ==> Err::<TripV, RepoError>(er) == spec_get_trip(
                store.trips.deep_view(),
                trip_id@,
            ),
    {
        let oid = match ObjectId::parse(trip_id) {
            Ok(o) => o,
            Err(e) => {
                return Err(e);
            },
        };
        match find_trip_index(&store.trips, oid) {
            Some(i) => Ok(store.trips[i].clone()),
            None => Err(RepoError::NotFound),
        }
    }

    /// Filtered listing: the matching records in store order, with
    /// pagination applied.
    pub fn get_filtered_trips(trip_filter: TripFilter, store: &Store) -> (r: Vec<Trip>)
        ensures
            r.deep_view() == page(
                spec_trip_matching(store.trips.deep_view(), spec_trip_query_of(trip_filter)),
                trip_filter.offset as int,
                trip_filter.limit as int,
            ),
    {
        let q = get_find_filter(&trip_filter);
        let mut matched: Vec<Trip> = Vec::new();
        let mut i: usize = 0;
        proof {
            assert(store.trips.deep_view().subrange(0, 0) =~= Seq::<TripV>::empty());
            reveal(Seq::filter);
            assert(matched.deep_view() =~= spec_trip_matching(
                store.trips.deep_view().subrange(0, 0),
                q,
            ));
        }
        while i < store.trips.len()
            invariant
                0 <= i <= store.trips@.len(),
                q == spec_trip_query_of(trip_filter),
                matched.deep_view() == spec_trip_matching(
                    store.trips.deep_view().subrange(0, i as int),
                    q,
                ),
            decreases store.trips@.len() - i,
        {
            let ghost trips = store.trips.deep_view();
            let ghost pre = trips.subrange(0, i as int);
            proof {
                assert(trips.subrange(0, i + 1) =~= pre.push(trips[i as int]));
                lemma_trip_matching_push(pre, q, trips[i as int]);
            }
            let t = &store.trips[i];
            if matches_trip(&q, t) {
                let ghost matched_pre = matched.deep_view();
                matched.push(t.clone());
                proof {
                    assert(matched.deep_view() =~= matched_pre.push(trips[i as int]));
                }
            }
            i = i + 1;
        }
        proof {
            assert(store.trips.deep_view().subrange(0, store.trips@.len() as int)
                =~= store.trips.deep_view());
        }
        let len = matched.len();
        let start = if trip_filter.offset > len {
            len
        } else {
            trip_filter.offset
        };
        let take = if trip_filter.limit > len - start {
            len - start
        } else {
            trip_filter.limit
        };
        let end = start + take;
        let mut out: Vec<Trip> = Vec::new();
        let mut j: usize = start;
        while j < end
            invariant
                start <= j <= end,
                end <= matched@.len(),
                out@.len() == j - start,
                forall|k: int| 0 <= k < out@.len() ==> out.deep_view()[k] == matched.deep_view()[
                    start + k],
            decreases end - j,
        {
            let ghost out_pre = out.deep_view();
            let ghost j0 = j as int;
            out.push(matched[j].clone());
            proof {
                assert(out.deep_view() =~= out_pre.push(matched.deep_view()[j0]));
            }
            j = j + 1;
        }
        proof {
            assert(out.deep_view() =~= page(
                spec_trip_matching(store.trips.deep_view(), spec_trip_query_of(trip_filter)),
                trip_filter.offset as int,
                trip_filter.limit as int,
            ));
        }
        out
    }

    /// Filtered count: how many records the same filtered, paginated
    /// listing would return. The in-memory store cannot fail a count.
    pub fn count_filtered_trips(trip_filter: TripFilter, store: &Store) -> (r: Result<
        u64,
        RepoError,
    >)
        ensures
            r matches Ok(n) ==> n as int == page(
                spec_trip_matching(store.trips.deep_view(), spec_trip_query_of(trip_filter)),
                trip_filter.offset as int,
                trip_filter.limit as int,
            ).len(),
            r is Ok,
    {
        let listed = Trip::get_filtered_trips(trip_filter, store);
        Ok(listed.len() as u64)
    }

    /// Persists a trip: assigns the fresh identifier and starts the
    /// entry list empty.
    pub fn create(trip: TripCreate, store: &mut Store) -> (r: Result<ObjectId, RepoError>)
        requires
            old(store).wf(),
        ensures
            final(store).wf(),
            final(store).users == old(store).users,
            final(store).events == old(store).events,
            old(store).next_id == u64::MAX ==> r == Err::<ObjectId, RepoError>(
                RepoError::PersistenceFailure,
            ) && *final(store) == *old(store),
            old(store).next_id < u64::MAX ==> ({
                let id = ObjectId::spec_from_value(old(store).next_id as u128);
                &&& r == Ok::<ObjectId, RepoError>(id)
                &&& final(store).trips.deep_view() == old(store).trips.deep_view().push(
                    created_trip(trip, id),
                )
                &&& final(store).next_id == old(store).next_id + 1
            }),
    {
        let id = match store.fresh_id() {
            Ok(i) => i,
            Err(_) => {
                return Err(RepoError::PersistenceFailure);
            },
        };
        let new_trip = Trip {
            id,
            name: trip.name,
            start_date: trip.start_date,
            end_date: trip.end_date,
            budget: trip.budget,
            destination: trip.destination,
            events: Vec::new(),
            private: trip.private,
            user_id: trip.user_id,
        };
        let ghost tv = new_trip@;
        let ghost trips_before = old(store).trips.deep_view();
        store.trips.push(new_trip);
        proof {
            assert(tv =~= created_trip(trip, id));
            assert(store.trips.deep_view() =~= trips_before.push(created_trip(trip, id)));
            lemma_trips_keyed_push(
                trips_before,
                old(store).next_id,
                store.next_id,
                store.trips.deep_view().last(),
            );
            lemma_users_keyed_mono(store.users.deep_view(), old(store).next_id, store.next_id);
            lemma_events_keyed_mono(store.events.deep_view(), old(store).next_id, store.next_id);
        }
        Ok(id)
    }

    /// Partial update: applies exactly the present fields to the
    /// stored record and returns the post-update record; `NotFound`
    /// when the identifier matches nothing.
    pub fn update(edit_info: TripEdit, store: &mut Store) -> (r: Result<Trip, RepoError>)
        requires
            old(store).wf(),
        ensures
            final(store).wf(),
            final(store).users == old(store).users,
            final(store).events == old(store).events,
            final(store).next_id == old(store).next_id,
            ({
                let ts = old(store).trips.deep_view();
                let i = trip_index(ts, edit_info.id);
                &&& (i < 0 ==> final(store).trips == old(store).trips && r == Err::<
                    Trip,
                    RepoError,
                >(RepoError::NotFound))
                &&& (i >= 0 ==> final(store).trips.deep_view() == ts.update(
                    i,
                    apply_trip_edit(edit_info, ts[i]),
                ) && (r matches Ok(out) && out@ == apply_trip_edit(edit_info, ts[i])))
            }),
    {
        let idx = match find_trip_index(&store.trips, edit_info.id) {
            Some(i) => i,
            None => {
                return Err(RepoError::NotFound);
            },
        };
        let ghost ts = store.trips.deep_view();
        let base = &store.trips[idx];
        let patched = Trip {
            id: base.id,
            name: match edit_info.name {
                Some(s) => s,
                None => base.name.clone(),
            },
            start_date: match edit_info.start_date {
                Some(s) => s,
                None => base.start_date.clone(),
            },
            end_date: match edit_info.end_date {
                Some(s) => s,
                None => base.end_date.clone(),
            },
            budget: match edit_info.budget {
                Some(v) => v,
                None => base.budget,
            },
            destination: match edit_info.destination {
                Some(s) => s,
                None => base.destination.clone(),
            },
            events: clone_entries(&base.events),
            private: match edit_info.private {
                Some(b) => b,
                None => base.private,
            },
            user_id: base.user_id,
        };
        proof {
            assert(patched@ =~= apply_trip_edit(edit_info, ts[idx as int]));
        }
        let out = patched.clone();
        store.trips[idx] = patched;
        proof {
            assert(store.trips.deep_view() =~= ts.update(
                idx as int,
                apply_trip_edit(edit_info, ts[idx as int]),
            ));
            let target = apply_trip_edit(edit_info, ts[idx as int]);
            assert forall|k: int| 0 <= k < target.events.len() implies entry_key_ok(
                #[trigger] target.events[k],
                store.next_id,
            ) by {
                assert(entry_key_ok(ts[idx as int].events[k], store.next_id));
            }
            lemma_trips_keyed_update(ts, store.next_id, idx as int, target);
        }
        Ok(out)
    }

    /// Appends an entry to the trip the entry addresses and raises the
    /// trip's budget by the entry's contribution; `NotFound` when no
    /// trip matches.
    pub fn push_event_entry(event_entry: EventEntry, store: &mut Store) -> (r: Result<
        (),
        RepoError,
    >)
        requires
            old(store).wf(),
        ensures
            final(store).wf(),
            final(store).users == old(store).users,
            final(store).events == old(store).events,
            final(store).next_id == old(store).next_id,
            ({
                let ts = old(store).trips.deep_view();
                let i = trip_index(ts, event_entry.id);
                &&& (i < 0 ==> final(store).trips == old(store).trips && r == Err::<(), RepoError>(
                    RepoError::NotFound,
                ))
                &&& (i >= 0 ==> final(store).trips.deep_view() == ts.update(
                    i,
                    TripV {
                        budget: clamped_add(ts[i].budget, event_entry.budget),
                        events: ts[i].events.push(event_entry@),
                        ..ts[i]
                    },
                ) && r == Ok::<(), RepoError>(()))
            }),
    {
        let idx = match find_trip_index(&store.trips, event_entry.id) {
            Some(i) => i,
            None => {
                return Err(RepoError::NotFound);
            },
        };
        let ghost ts = store.trips.deep_view();
        let ghost ev = event_entry@;
        let new_budget = add_clamped(store.trips[idx].budget, event_entry.budget);
        let base = &store.trips[idx];
        let mut patched = base.clone();
        patched.budget = new_budget;
        patched.events.push(event_entry);
        let ghost pv = patched@;
        store.trips[idx] = patched;
        proof {
            let target = TripV {
                budget: clamped_add(ts[idx as int].budget, ev.budget),
                events: ts[idx as int].events.push(ev),
                ..ts[idx as int]
            };
            assert(pv =~= target);
            assert(store.trips.deep_view() =~= ts.update(idx as int, target));
            lemma_trip_index_props(ts, ev.id);
            assert(ts[idx as int].id == ev.id);
            assert forall|k: int| 0 <= k < target.events.len() implies entry_key_ok(
                #[trigger] target.events[k],
                store.next_id,
            ) by {
                if k < ts[idx as int].events.len() {
                    assert(entry_key_ok(ts[idx as int].events[k], store.next_id));
                } else {
                    assert(ts[idx as int].id.wf() && ts[idx as int].id.value < store.next_id
                        as u128);
                }
            }
            lemma_trips_keyed_update(ts, store.next_id, idx as int, target);
        }
        Ok(())
    }

    /// Removes every entry the pull request matches from the trip the
    /// request addresses — by entry identifier or by referenced event —
    /// and lowers the trip's budget by the request's contribution;
    /// `NotFound` when no trip matches.
    pub fn pull_event_entry(event_entry: EventEntry, store: &mut Store) -> (r: Result<
        (),
        RepoError,
    >)
        requires
            old(store).wf(),
        ensures
            final(store).wf(),
            final(store).users == old(store).users,
            final(store).events == old(store).events,
            final(store).next_id == old(store).next_id,
            ({
                let ts = old(store).trips.deep_view();
                let i = trip_index(ts, event_entry.id);
                &&& (i < 0 ==> final(store).trips == old(store).trips && r == Err::<(), RepoError>(
                    RepoError::NotFound,
                ))
                &&& (i >= 0 ==> final(store).trips.deep_view() == ts.update(
                    i,
                    TripV {
                        budget: clamped_sub(ts[i].budget, event_entry.budget),
                        events: spec_kept_entries(ts[i].events, event_entry@),
                        ..ts[i]
                    },
                ) && r == Ok::<(), RepoError>(()))
            }),
    {
        let idx = match find_trip_index(&store.trips, event_entry.id) {
            Some(i) => i,
            None => {
                return Err(RepoError::NotFound);
            },
        };
        let ghost ts = store.trips.deep_view();
        let ghost ev = event_entry@;
        let new_budget = sub_clamped(store.trips[idx].budget, event_entry.budget);
        let base = &store.trips[idx];
        let mut kept: Vec<EventEntry> = Vec::new();
        let mut k: usize = 0;
        proof {
            assert(base@.events.subrange(0, 0) =~= Seq::<EventEntryV>::empty());
            reveal(Seq::filter);
            assert(kept.deep_view() =~= spec_kept_entries(base@.events.subrange(0, 0), ev));
        }
        while k < base.events.len()
            invariant
                0 <= k <= base.events@.len(),
                ev == event_entry@,
                kept.deep_view() == spec_kept_entries(base@.events.subrange(0, k as int), ev),
            decreases base.events@.len() - k,
        {
            let ghost es = base@.events;
            let ghost pre = es.subrange(0, k as int);
            proof {
                assert(es.subrange(0, k + 1) =~= pre.push(es[k as int]));
                lemma_kept_entries_push(pre, ev, es[k as int]);
            }
            let e = &base.events[k];
            let remove_it = e.id == event_entry.id || e.event_id == event_entry.event_id;
            if !remove_it {
                let ghost kept_pre = kept.deep_view();
                kept.push(e.clone());
                proof {
                    assert(kept.deep_view() =~= kept_pre.push(es[k as int]));
                }
            }
            k = k + 1;
        }
        proof {
            assert(base@.events.subrange(0, base.events@.len() as int) =~= base@.events);
        }
        let patched = Trip {
            id: base.id,
            name: base.name.clone(),
            start_date: base.start_date.clone(),
            end_date: base.end_date.clone(),
            budget: new_budget,
            destination: base.destination.clone(),
            events: kept,
            private: base.private,
            user_id: base.user_id,
        };
        let ghost pv = patched@;
        store.trips[idx] = patched;
        proof {
            let target = TripV {
                budget: clamped_sub(ts[idx as int].budget, ev.budget),
                events: spec_kept_entries(ts[idx as int].events, ev),
                ..ts[idx as int]
            };
            assert(pv =~= target);
            assert(store.trips.deep_view() =~= ts.update(idx as int, target));
            assert forall|k: int| 0 <= k < ts[idx as int].events.len() implies entry_key_ok(
                #[trigger] ts[idx as int].events[k],
                store.next_id,
            ) by {}
            lemma_kept_entries_keyed(ts[idx as int].events, ev, store.next_id);
            lemma_trips_keyed_update(ts, store.next_id, idx as int, target);
        }
        Ok(())
    }

    /// Deletes the trip the identifier addresses; the count of removed
    /// records is returned, so a missing target yields zero.
    pub fn delete_trip(trip_id: &str, store: &mut Store) -> (r: Result<u64, RepoError>)
        requires
            old(store).wf(),
        ensures
            final(store).wf(),
            final(store).users == old(store).users,
            final(store).events == old(store).events,
            final(store).next_id == old(store).next_id,
            ({
                let ts = old(store).trips.deep_view();
                if !valid_oid_chars(trip_id@) {
                    &&& r == Err::<u64, RepoError>(RepoError::InvalidIdentifier)
                    &&& final(store).trips == old(store).trips
                } else {
                    let i = trip_index(
                        ts,
                        ObjectId::spec_from_value(hex_seq_val(trip_id@) as u128),
                    );
                    &&& (i < 0 ==> final(store).trips == old(store).trips && r == Ok::<
                        u64,
                        RepoError,
                    >(0))
                    &&& (i >= 0 ==> final(store).trips.deep_view() == ts.remove(i) && r == Ok::<
                        u64,
                        RepoError,
                    >(1))
                }
            }),
    {
        let oid = match ObjectId::parse(trip_id) {
            Ok(o) => o,
            Err(e) => {
                return Err(e);
            },
        };
        let idx = match find_trip_index(&store.trips, oid) {
            Some(i) => i,
            None => {
                return Ok(0);
            },
        };
        let ghost ts = store.trips.deep_view();
        store.trips.remove(idx);
        proof {
            assert(store.trips.deep_view() =~= ts.remove(idx as int));
            lemma_trips_keyed_remove(ts, store.next_id, idx as int);
        }
        Ok(1)
    }

    /// Forks a trip: creates a new trip owned by the requesting user,
    /// carrying the fork request's name and dates, the source's
    /// budget, destination and visibility, and a copy of every source
    /// entry under a fresh identifier.
    pub fn fork(trip_fork: TripFork, user_id: &str, store: &mut Store) -> (r: Result<
        ObjectId,
        RepoError,
    >)
        requires
            old(store).wf(),
        ensures
            final(store).wf(),
            final(store).users == old(store).users,
            final(store).events == old(store).events,
            ({
                let ts = old(store).trips.deep_view();
                let i = trip_index(ts, trip_fork.to_fork_trip_id);
                if i < 0 {
                    &&& r == Err::<ObjectId, RepoError>(RepoError::NotFound)
                    &&& *final(store) == *old(store)
                } else if !valid_oid_chars(user_id@) {
                    &&& r == Err::<ObjectId, RepoError>(RepoError::InvalidIdentifier)
                    &&& *final(store) == *old(store)
                } else if old(store).next_id + 1 + ts[i].events.len() > u64::MAX {
                    &&& r == Err::<ObjectId, RepoError>(RepoError::PersistenceFailure)
                    &&& *final(store) == *old(store)
                } else {
                    let owner = ObjectId::spec_from_value(hex_seq_val(user_id@) as u128);
                    &&& r == Ok::<ObjectId, RepoError>(
                        ObjectId::spec_from_value(old(store).next_id as u128),
                    )
                    &&& final(store).trips.deep_view() == ts.push(
                        spec_forked_trip(ts[i], trip_fork, owner, old(store).next_id),
                    )
                    &&& final(store).next_id == old(store).next_id + 1 + ts[i].events.len()
                }
            }),
    {
        let idx = match find_trip_index(&store.trips, trip_fork.to_fork_trip_id) {
            Some(i) => i,
            None => {
                return Err(RepoError::NotFound);
            },
        };
        let owner = match ObjectId::parse(user_id) {
            Ok(o) => o,
            Err(e) => {
                return Err(e);
            },
        };
        let src_len = store.trips[idx].events.len();
        let room = u64::MAX - store.next_id;
        if !((src_len as u64) < room) {
            return Err(RepoError::PersistenceFailure);
        }
        let ghost base_ctr = store.next_id;
        let ghost ts = store.trips.deep_view();
        let new_trip_id = ObjectId::from_u64(store.next_id);
        store.next_id = store.next_id + 1;
        let copied = clone_entries(&store.trips[idx].events);
        proof {
            let src = store.trips.deep_view()[idx as int].events;
            assert(copied.deep_view() == src);
            assert(copied@.len() == copied.deep_view().len());
            assert(src.len() == store.trips@[idx as int].events@.len());
            assert((src_len as u64) < u64::MAX - base_ctr);
        }
        let mut new_events: Vec<EventEntry> = Vec::new();
        let mut k: usize = 0;
        while k < copied.len()
            invariant
                0 <= k <= copied@.len(),
                copied@.len() == src_len,
                copied.deep_view() == ts[idx as int].events,
                0 <= idx < ts.len(),
                store.next_id == base_ctr + 1 + k,
                base_ctr + 1 + copied@.len() <= u64::MAX,
                store.users == old(store).users,
                store.events == old(store).events,
                store.trips == old(store).trips,
                new_events@.len() == k,
                forall|m: int| 0 <= m < k ==> new_events.deep_view()[m] == (EventEntryV {
                    id: ObjectId::spec_from_value((base_ctr + 1 + m) as u128),
                    ..ts[idx as int].events[m]
                }),
            decreases copied@.len() - k,
        {
            let mut e = copied[k].clone();
            e.id = ObjectId::from_u64(store.next_id);
            store.next_id = store.next_id + 1;
            let ghost ne_pre = new_events.deep_view();
            let ghost evk = e@;
            new_events.push(e);
            proof {
                assert(new_events.deep_view() =~= ne_pre.push(evk));
                assert(evk =~= (EventEntryV {
                    id: ObjectId::spec_from_value((base_ctr + 1 + k) as u128),
                    ..ts[idx as int].events[k as int]
                }));
            }
            k = k + 1;
        }
        let base_trip = &store.trips[idx];
        let new_trip = Trip {
            id: new_trip_id,
            name: trip_fork.name,
            start_date: trip_fork.start_date,
            end_date: trip_fork.end_date,
            budget: base_trip.budget,
            destination: base_trip.destination.clone(),
            events: new_events,
            private: base_trip.private,
            user_id: owner,
        };
        let ghost tv = new_trip@;
        store.trips.push(new_trip);
        proof {
            let target = spec_forked_trip(ts[idx as int], trip_fork, owner, base_ctr);
            assert(tv.events =~= target.events);
            assert(tv =~= target);
            assert(store.trips.deep_view() =~= ts.push(target));
            assert forall|m: int| 0 <= m < target.events.len() implies entry_key_ok(
                #[trigger] target.events[m],
                store.next_id,
            ) by {
                assert(target.events[m].id == ObjectId::spec_from_value(
                    (base_ctr + 1 + m) as u128,
                ));
            }
            lemma_trips_keyed_push(ts, base_ctr, store.next_id, target);
            lemma_users_keyed_mono(store.users.deep_view(), base_ctr, store.next_id);
            lemma_events_keyed_mono(store.events.deep_view(), base_ctr, store.next_id);
        }
        Ok(new_trip_id)
    }

    /// Admin override: an actor with at least the admin role forces
    /// the trip private; a missing target changes nothing.
    pub fn force_private(trip_id: &str, admin_id: &str, store: &mut Store) -> (r: Result<
        (),
        RepoError,
    >)
        requires
            old(store).wf(),
        ensures
            final(store).wf(),
            final(store).users == old(store).users,
            final(store).events == old(store).events,
            final(store).next_id == old(store).next_id,
            ({
                let ts = old(store).trips.deep_view();
                let gate = spec_check_role(old(store).users.deep_view(), admin_id@, Role::Admin);
                if !valid_oid_chars(trip_id@) {
                    &&& r == Err::<(), RepoError>(RepoError::InvalidIdentifier)
                    &&& final(store).trips == old(store).trips
                } else if gate is Err {
                    &&& r == Err::<(), RepoError>(gate->Err_0)
                    &&& final(store).trips == old(store).trips
                } else {
                    let i = trip_index(
                        ts,
                        ObjectId::spec_from_value(hex_seq_val(trip_id@) as u128),
                    );
                    &&& r == Ok::<(), RepoError>(())
                    &&& (i < 0 ==> final(store).trips == old(store).trips)
                    &&& (i >= 0 ==> final(store).trips.deep_view() == ts.update(
                        i,
                        TripV { private: true, ..ts[i] },
                    ))
                }
            }),
    {
        let trip_oid = match ObjectId::parse(trip_id) {
            Ok(o) => o,
            Err(e) => {
                return Err(e);
            },
        };
        match crate::user::check_role(admin_id, Role::Admin, store) {
            Ok(_) => {},
            Err(e) => {
                return Err(e);
            },
        }
        let idx = match find_trip_index(&store.trips, trip_oid) {
            Some(i) => i,
            None => {
                return Ok(());
            },
        };
        let ghost ts = store.trips.deep_view();
        let base = &store.trips[idx];
        let mut patched = base.clone();
        patched.private = true;
        store.trips[idx] = patched;
        proof {
            assert(store.trips.deep_view() =~= ts.update(
                idx as int,
                TripV { private: true, ..ts[idx as int] },
            ));
            let target = TripV { private: true, ..ts[idx as int] };
            assert forall|k: int| 0 <= k < target.events.len() implies entry_key_ok(
                #[trigger] target.events[k],
                store.next_id,
            ) by {
                assert(entry_key_ok(ts[idx as int].events[k], store.next_id));
            }
            lemma_trips_keyed_update(ts, store.next_id, idx as int, target);
        }
        Ok(())
    }
}

/// Law: with `user_id` absent or malformed, a filtered trip listing
/// only ever returns non-private records, whatever else the filter
/// holds.
pub proof fn lemma_trips_private_excluded_without_owner(f: TripFilter, trips: Seq<TripV>, k: int)
    requires
        spec_owner_of(f.user_id) is None,
        0 <= k < page(
            spec_trip_matching(trips, spec_trip_query_of(f)),
            f.offset as int,
            f.limit as int,
        ).len(),
    ensures
        !page(
            spec_trip_matching(trips, spec_trip_query_of(f)),
            f.offset as int,
            f.limit as int,
        )[k].private,
{
    let q = spec_trip_query_of(f);
    let m = spec_trip_matching(trips, q);
    let p = page(m, f.offset as int, f.limit as int);
    let o: int = if f.offset as int > m.len() {
        m.len() as int
    } else {
        f.offset as int
    };
    assert(p[k] == m[o + k]);
    lemma_trip_matching_pred(trips, q, o + k);
}

/// Law: a partial update changes exactly the present fields of the
/// baseline trip; every absent field, the identifier, the owner and
/// the entry list keep the stored value.
pub proof fn lemma_trip_edit_exact(u: TripEdit, t: TripV)
    ensures
        ({
            let r = apply_trip_edit(u, t);
            &&& r.id == t.id
            &&& r.user_id == t.user_id
            &&& r.events == t.events
            &&& (u.name is None ==> r.name == t.name)
            &&& (u.name matches Some(s) ==> r.name == s@)
            &&& (u.start_date is None ==> r.start_date == t.start_date)
            &&& (u.start_date matches Some(s) ==> r.start_date == s@)
            &&& (u.end_date is None ==> r.end_date == t.end_date)
            &&& (u.end_date matches Some(s) ==> r.end_date == s@)
            &&& (u.budget is None ==> r.budget == t.budget)
            &&& (u.budget matches Some(v) ==> r.budget == v)
            &&& (u.destination is None ==> r.destination == t.destination)
            &&& (u.destination matches Some(s) ==> r.destination == s@)
            &&& (u.private is None ==> r.private == t.private)
            &&& (u.private matches Some(b) ==> r.private == b)
        }),
{
}

/// Law: creating a trip and fetching it back through the returned
/// identifier's canonical string yields exactly the stored record —
/// the create record's fields under the fresh identifier, with an
/// empty entry list.
pub proof fn lemma_create_then_get_trip(trips: Seq<TripV>, next: u64, c: TripCreate)
    requires
        trips_keyed(trips, next),
        next < u64::MAX,
    ensures
        ({
            let id = ObjectId::spec_from_value(next as u128);
            spec_get_trip(trips.push(created_trip(c, id)), oid_digits(next as u128)) == Ok::<
                TripV,
                RepoError,
            >(created_trip(c, id))
        }),
{
    let id = ObjectId::spec_from_value(next as u128);
    lemma_pow16_24();
    lemma_oid_digits_valid(next as u128);
    lemma_oid_digits_val(next as u128);
    let t = trips.push(created_trip(c, id));
    assert forall|j: int| 0 <= j < trips.len() implies (#[trigger] t[j]).id != id by {
        assert(trips[j].id.wf() && trips[j].id.value < next as u128);
    }
    assert(t[trips.len() as int].id == id);
    lemma_trip_index_first(t, id, trips.len() as int);
}

/// Law: a fork copies budget, destination and visibility from the
/// source, takes name and dates from the request, hands the trip to
/// the requesting user, and clones every entry in order — schedule,
/// budget, duration and referenced event kept — under a fresh
/// identifier, distinct from every source entry's and from the other
/// clones'. The one hypothesis beyond the store invariant is that the
/// identifier counter has room.
pub proof fn lemma_fork_entries_fresh(
    trips: Seq<TripV>,
    next: u64,
    i: int,
    f: TripFork,
    owner: ObjectId,
)
    requires
        trips_keyed(trips, next),
        0 <= i < trips.len(),
        next + 1 + trips[i].events.len() <= u64::MAX,
    ensures
        ({
            let src = trips[i];
            let forked = spec_forked_trip(src, f, owner, next);
            &&& forked.id != src.id
            &&& forked.name == f.name@
            &&& forked.start_date == f.start_date@
            &&& forked.end_date == f.end_date@
            &&& forked.budget == src.budget
            &&& forked.destination == src.destination
            &&& forked.private == src.private
            &&& forked.user_id == owner
            &&& forked.events.len() == src.events.len()
            &&& forall|k: int|
                0 <= k < forked.events.len() ==> {
                    let fe = #[trigger] forked.events[k];
                    &&& fe.event_id == src.events[k].event_id
                    &&& fe.start_date == src.events[k].start_date
                    &&& fe.start_hour == src.events[k].start_hour
                    &&& fe.budget == src.events[k].budget
                    &&& fe.duration == src.events[k].duration
                    &&& fe.id != src.events[k].id
                }
            &&& forall|k: int, m: int|
                0 <= k < m < forked.events.len() ==> (#[trigger] forked.events[k]).id != (
                #[trigger] forked.events[m]).id
        }),
{
    let src = trips[i];
    let forked = spec_forked_trip(src, f, owner, next);
    assert(src.id.value < next as u128);
    assert forall|k: int| 0 <= k < forked.events.len() implies (#[trigger] forked.events[k]).id
        != src.events[k].id by {
        assert(entry_key_ok(src.events[k], next));
        assert(forked.events[k].id.value == (next + 1 + k) as u128);
    }
    assert forall|k: int, m: int| 0 <= k < m < forked.events.len() implies (
    #[trigger] forked.events[k]).id != (#[trigger] forked.events[m]).id by {
        assert(forked.events[k].id.value == (next + 1 + k) as u128);
        assert(forked.events[m].id.value == (next + 1 + m) as u128);
    }
}

/// Law: fetching by identifier is idempotent — with no intervening
/// mutation, two fetches of the same identifier return equal results.
pub proof fn lemma_get_trip_idempotent(
    trips: Seq<TripV>,
    id_chars: Seq<char>,
    r1: Result<TripV, RepoError>,
    r2: Result<TripV, RepoError>,
)
    requires
        r1 == spec_get_trip(trips, id_chars),
        r2 == spec_get_trip(trips, id_chars),
    ensures
        r1 == r2,
{
}

} // verus!
