//! Events: the entity, its filter and edit records, the query the
//! filter builder produces, and the event repository.

use vstd::prelude::*;

use crate::error::RepoError;
use crate::ids::{
    hex_seq_val, lemma_oid_digits_val, lemma_oid_digits_valid, lemma_pow16_24, oid_digits,
    valid_oid_chars, ObjectId,
};
use crate::role::Role;
use crate::store::{
    events_keyed, key_ok, lemma_events_keyed_push, lemma_events_keyed_update,
    lemma_trips_keyed_mono, lemma_users_keyed_mono, page, Store,
};
use crate::text::{clone_i64_vec, clone_string_vec};
use crate::user::spec_check_role;

verus! {

/// An event record. The identifier is absent until the record is
/// persisted. Amounts are whole units; the rating defaults to 5 and the
/// location to `[0, 0]` when the record is persisted without them.
#[derive(Debug)]
pub struct Event {
    pub id: Option<ObjectId>,
    pub name: String,
    pub description: String,
    pub tags: Vec<String>,
    pub personal_type: String,
    pub rating: Option<i64>,
    pub country: String,
    pub city: String,
    pub price: i64,
    pub duration: String,
    pub location: Option<Vec<i64>>,
    pub image: String,
    pub private: bool,
    pub user_id: ObjectId,
}

/// Mathematical model of an event record.
#[verifier::ext_equal]
pub struct EventV {
    pub id: Option<ObjectId>,
    pub name: Seq<char>,
    pub description: Seq<char>,
    pub tags: Seq<Seq<char>>,
    pub personal_type: Seq<char>,
    pub rating: Option<i64>,
    pub country: Seq<char>,
    pub city: Seq<char>,
    pub price: i64,
    pub duration: Seq<char>,
    pub location: Option<Seq<i64>>,
    pub image: Seq<char>,
    pub private: bool,
    pub user_id: ObjectId,
}

impl View for Event {
    type V = EventV;

    open spec fn view(&self) -> EventV {
        EventV {
            id: self.id,
            name: self.name@,
            description: self.description@,
            tags: self.tags.deep_view(),
            personal_type: self.personal_type@,
            rating: self.rating,
            country: self.country@,
            city: self.city@,
            price: self.price,
            duration: self.duration@,
            location: self.location.deep_view(),
            image: self.image@,
            private: self.private,
            user_id: self.user_id,
        }
    }
}

impl DeepView for Event {
    type V = EventV;

    open spec fn deep_view(&self) -> EventV {
        self.view()
    }
}

impl Clone for Event {
    fn clone(&self) -> (r: Self)
        ensures
            r@ == self@,
    {
        let location = match &self.location {
            Some(v) => Some(clone_i64_vec(v)),
            None => None,
        };
        let r = Event {
            id: self.id,
            name: self.name.clone(),
            description: self.description.clone(),
            tags: clone_string_vec(&self.tags),
            personal_type: self.personal_type.clone(),
            rating: self.rating,
            country: self.country.clone(),
            city: self.city.clone(),
            price: self.price,
            duration: self.duration.clone(),
            location,
            image: self.image.clone(),
            private: self.private,
            user_id: self.user_id,
        };
        proof {
            assert(r@ =~= self@);
        }
        r
    }
}

/// An edit record: the target identifier plus every field as optional.
/// Absence means "leave unchanged"; the owner is never rewritten.
#[derive(Debug)]
pub struct EventUpdate {
    pub id: ObjectId,
    pub name: Option<String>,
    pub description: Option<String>,
    pub tags: Option<Vec<String>>,
    pub personal_type: Option<String>,
    pub rating: Option<i64>,
    pub country: Option<String>,
    pub city: Option<String>,
    pub price: Option<i64>,
    pub duration: Option<String>,
    pub location: Option<Vec<i64>>,
    pub image: Option<String>,
    pub private: Option<bool>,
    pub user_id: ObjectId,
}

/// The entity an edit record turns a baseline entity into: exactly the
/// present fields are replaced, every absent field keeps the stored
/// value, and the identifiers are never touched.
pub open spec fn apply_event_update(u: EventUpdate, e: EventV) -> EventV {
    EventV {
        id: e.id,
        name: match u.name {
            Some(s) => s@,
            None => e.name,
        },
        description: match u.description {
            Some(s) => s@,
            None => e.description,
        },
        tags: match u.tags {
            Some(v) => v.deep_view(),
            None => e.tags,
        },
        personal_type: match u.personal_type {
            Some(s) => s@,
            None => e.personal_type,
        },
        rating: match u.rating {
            Some(v) => Some(v),
            None => e.rating,
        },
        country: match u.country {
            Some(s) => s@,
            None => e.country,
        },
        city: match u.city {
            Some(s) => s@,
            None => e.city,
        },
        price: match u.price {
            Some(v) => v,
            None => e.price,
        },
        duration: match u.duration {
            Some(s) => s@,
            None => e.duration,
        },
        location: match u.location {
            Some(v) => Some(v@),
            None => e.location,
        },
        image: match u.image {
            Some(s) => s@,
            None => e.image,
        },
        private: match u.private {
            Some(b) => b,
            None => e.private,
        },
        user_id: e.user_id,
    }
}

/// A request-scoped listing filter: pagination plus optional predicates.
#[derive(Debug)]
pub struct EventFilter {
    pub offset: usize,
    pub limit: usize,
    pub tags: Option<String>,
    pub personal_type: Option<String>,
    pub rating: Option<i64>,
    pub country: Option<String>,
    pub city: Option<String>,
    pub user_id: Option<String>,
    pub include_private: Option<bool>,
}

/// The store predicate an event filter builds: the conjunction of the
/// present predicates, with the owner fallback rule resolved.
#[derive(Debug)]
pub struct EventQuery {
    pub owner: Option<ObjectId>,
    pub require_public: bool,
    pub tags_any: Option<Vec<String>>,
    pub personal_type: Option<String>,
    pub rating: Option<i64>,
    pub country: Option<String>,
    pub city: Option<String>,
}

/// Mathematical model of an event query.
#[verifier::ext_equal]
pub struct EventQueryV {
    pub owner: Option<ObjectId>,
    pub require_public: bool,
    pub tags_any: Option<Seq<Seq<char>>>,
    pub personal_type: Option<Seq<char>>,
    pub rating: Option<i64>,
    pub country: Option<Seq<char>>,
    pub city: Option<Seq<char>>,
}

impl View for EventQuery {
    type V = EventQueryV;

    open spec fn view(&self) -> EventQueryV {
        EventQueryV {
            owner: self.owner,
            require_public: self.require_public,
            tags_any: match self.tags_any {
                Some(v) => Some(v.deep_view()),
                None => None,
            },
            personal_type: self.personal_type.deep_view(),
            rating: self.rating,
            country: self.country.deep_view(),
            city: self.city.deep_view(),
        }
    }
}

/// The owner restriction a filter's `user_id` field resolves to: only a
/// well-formed identifier restricts to an owner.
pub open spec fn spec_owner_of(u: Option<String>) -> Option<ObjectId> {
    match u {
        Some(s) => if valid_oid_chars(s@) {
            Some(ObjectId::spec_from_value(hex_seq_val(s@) as u128))
        } else {
            None
        },
        None => None,
    }
}

/// When a filter restricts the listing to non-private entities: always
/// when no valid owner was supplied, and always when `include_private`
/// is explicitly `false`.
pub open spec fn spec_require_public(f: EventFilter) -> bool {
    spec_owner_of(f.user_id) is None || f.include_private == Some(false)
}

/// The query an event filter record builds.
pub open spec fn spec_event_query_of(f: EventFilter) -> EventQueryV {
    EventQueryV {
        owner: spec_owner_of(f.user_id),
        require_public: spec_require_public(f),
        tags_any: match f.tags {
            Some(t) => Some(crate::text::split_commas(t@)),
            None => None,
        },
        personal_type: f.personal_type.deep_view(),
        rating: f.rating,
        country: f.country.deep_view(),
        city: f.city.deep_view(),
    }
}

/// Whether an event satisfies a query: the conjunction of every present
/// predicate, tag matching being any-of.
pub open spec fn event_matches(q: EventQueryV, e: EventV) -> bool {
    &&& (q.owner matches Some(o) ==> e.user_id == o)
    &&& (q.require_public ==> !e.private)
    &&& (q.tags_any matches Some(ts) ==> exists|i: int, j: int|
        0 <= i < e.tags.len() && 0 <= j < ts.len() && e.tags[i] == ts[j])
    &&& (q.personal_type matches Some(s) ==> e.personal_type == s)
    &&& (q.rating matches Some(v) ==> e.rating == Some(v))
    &&& (q.country matches Some(s) ==> e.country == s)
    &&& (q.city matches Some(s) ==> e.city == s)
}

/// Builds the store query for a filter record (the filter builder).
pub fn get_find_filter(event_filter: &EventFilter) -> (q: EventQuery)
    ensures
        q@ == spec_event_query_of(*event_filter),
{
    let owner: Option<ObjectId> = match &event_filter.user_id {
        Some(s) => match ObjectId::parse(s.as_str()) {
            Ok(o) => Some(o),
            Err(_) => None,
        },
        None => None,
    };
    let exclude_private = match event_filter.include_private {
        Some(b) => !b,
        None => false,
    };
    let require_public = match owner {
        Some(_) => exclude_private,
        None => true,
    };
    let tags_any = match &event_filter.tags {
        Some(t) => Some(crate::text::split_tags(t.as_str())),
        None => None,
    };
    let q = EventQuery {
        owner,
        require_public,
        tags_any,
        personal_type: crate::text::clone_opt_string(&event_filter.personal_type),
        rating: event_filter.rating,
        country: crate::text::clone_opt_string(&event_filter.country),
        city: crate::text::clone_opt_string(&event_filter.city),
    };
    proof {
        assert(q@ =~= spec_event_query_of(*event_filter));
    }
    q
}

/// Whether the two tag lists share an element.
fn has_common_tag(tags: &Vec<String>, wanted: &Vec<String>) -> (r: bool)
    ensures
        r == exists|i: int, j: int|
            0 <= i < tags.deep_view().len() && 0 <= j < wanted.deep_view().len()
                && tags.deep_view()[i] == wanted.deep_view()[j],
{
    let mut i: usize = 0;
    while i < tags.len()
        invariant
            0 <= i <= tags@.len(),
            forall|a: int, b: int|
                0 <= a < i && 0 <= b < wanted.deep_view().len() ==> (
                #[trigger] tags.deep_view()[a]) != (#[trigger] wanted.deep_view()[b]),
        decreases tags@.len() - i,
    {
        let mut j: usize = 0;
        while j < wanted.len()
            invariant
                0 <= i < tags@.len(),
                0 <= j <= wanted@.len(),
                forall|b: int| 0 <= b < j ==> tags.deep_view()[i as int] != (
                #[trigger] wanted.deep_view()[b]),
            decreases wanted@.len() - j,
        {
            if tags[i] == wanted[j] {
                proof {
                    assert(tags.deep_view()[i as int] == wanted.deep_view()[j as int]);
                }
                return true;
            }
            j = j + 1;
        }
        i = i + 1;
    }
    false
}

/// Whether an event satisfies a query.
pub fn matches_event(q: &EventQuery, e: &Event) -> (r: bool)
    ensures
        r == event_matches(q@, e@),
{
    match &q.owner {
        Some(o) => {
            if !(e.user_id == *o) {
                return false;
            }
        },
        None => {},
    }
    if q.require_public && e.private {
        return false;
    }
    match &q.tags_any {
        Some(ts) => {
            if !has_common_tag(&e.tags, ts) {
                return false;
            }
        },
        None => {},
    }
    match &q.personal_type {
        Some(s) => {
            if !(e.personal_type == *s) {
                return false;
            }
        },
        None => {},
    }
    match q.rating {
        Some(v) => {
            let same = match e.rating {
                Some(w) => w == v,
                None => false,
            };
            if !same {
                return false;
            }
        },
        None => {},
    }
    match &q.country {
        Some(s) => {
            if !(e.country == *s) {
                return false;
            }
        },
        None => {},
    }
    match &q.city {
        Some(s) => {
            if !(e.city == *s) {
                return false;
            }
        },
        None => {},
    }
    true
}

/// The position of the first event stored under the identifier, or -1.
pub open spec fn event_index(s: Seq<EventV>, oid: ObjectId) -> int
    decreases s.len(),
{
    if s.len() == 0 {
        -1
    } else if s[0].id == Some(oid) {
        0
    } else {
        let r = event_index(s.drop_first(), oid);
        if r < 0 {
            -1
        } else {
            r + 1
        }
    }
}


proof fn lemma_event_index_first(s: Seq<EventV>, oid: ObjectId, i: int)
    requires
        0 <= i < s.len(),
        s[i].id == Some(oid),
        forall|j: int| 0 <= j < i ==> s[j].id != Some(oid),
    ensures
        event_index(s, oid) == i,
    decreases s.len(),
{
    if i > 0 {
        let t = s.drop_first();
        assert(t[i - 1].id == Some(oid));
        assert(forall|j: int| 0 <= j < i - 1 ==> t[j].id != Some(oid));
        lemma_event_index_first(t, oid, i - 1);
    }
}

proof fn lemma_event_index_none(s: Seq<EventV>, oid: ObjectId)
    requires
        forall|j: int| 0 <= j < s.len() ==> s[j].id != Some(oid),
    ensures
        event_index(s, oid) < 0,
    decreases s.len(),
{
    if s.len() > 0 {
        lemma_event_index_none(s.drop_first(), oid);
    }
}

/// Finds the first event stored under the identifier.
fn find_event_index(events: &Vec<Event>, oid: ObjectId) -> (r: Option<usize>)
    ensures
        ({
            let i = event_index(events.deep_view(), oid);
            &&& (r matches Some(k) ==> i == k && k < events@.len())
            &&& (r is None ==> i < 0)
        }),
{
    let mut k: usize = 0;
    while k < events.len()
        invariant
            0 <= k <= events@.len(),
            forall|j: int| 0 <= j < k ==> (#[trigger] events.deep_view()[j]).id != Some(oid),
        decreases events@.len() - k,
    {
        let matched = match &events[k].id {
            Some(o) => *o == oid,
            None => false,
        };
        if matched {
            proof {
                lemma_event_index_first(events.deep_view(), oid, k as int);
            }
            return Some(k);
        }
        k = k + 1;
    }
    proof {
        lemma_event_index_none(events.deep_view(), oid);
    }
    None
}

/// What a fetch by identifier string returns, as a function of the
/// collection and the string alone.
pub open spec fn spec_get_event(events: Seq<EventV>, id_chars: Seq<char>) -> Result<
    EventV,
    RepoError,
> {
    if !valid_oid_chars(id_chars) {
        Err(RepoError::InvalidIdentifier)
    } else {
        let i = event_index(events, ObjectId::spec_from_value(hex_seq_val(id_chars) as u128));
        if i < 0 {
            Err(RepoError::NotFound)
        } else {
            Ok(events[i])
        }
    }
}

/// The records matching a query, in store order.
pub open spec fn spec_event_matching(events: Seq<EventV>, q: EventQueryV) -> Seq<EventV> {
    events.filter(|e: EventV| event_matches(q, e))
}

proof fn lemma_event_matching_push(events: Seq<EventV>, q: EventQueryV, e: EventV)
    ensures
        spec_event_matching(events.push(e), q) == if event_matches(q, e) {
            spec_event_matching(events, q).push(e)
        } else {
            spec_event_matching(events, q)
        },
{
    reveal(Seq::filter);
    let t = events.push(e);
    assert(t.drop_last() =~= events);
    assert(t.last() == e);
}

/// Every listed record satisfies the query.
pub proof fn lemma_event_matching_pred(events: Seq<EventV>, q: EventQueryV, i: int)
    requires
        0 <= i < spec_event_matching(events, q).len(),
    ensures
        event_matches(q, spec_event_matching(events, q)[i]),
    decreases events.len(),
{
    reveal(Seq::filter);
    if events.len() > 0 {
        let d = events.drop_last();
        if event_matches(q, events.last()) {
            if i < spec_event_matching(d, q).len() {
                lemma_event_matching_pred(d, q, i);
            }
        } else {
            lemma_event_matching_pred(d, q, i);
        }
    }
}

/// The record actually persisted for `e` under the fresh identifier
/// `id`: write-time normalization fills the rating and location
/// defaults.
pub open spec fn created_event(e: EventV, id: ObjectId) -> EventV {
    EventV {
        id: Some(id),
        rating: match e.rating {
            Some(v) => Some(v),
            None => Some(5),
        },
        location: match e.location {
            Some(l) => Some(l),
            None => Some(seq![0i64, 0i64]),
        },
        ..e
    }
}

impl Event {
    /// Fetch by identifier string: `InvalidIdentifier` on a malformed
    /// string, `NotFound` when no record matches, otherwise the stored
    /// record.
    pub fn get_event(event_id: &str, store: &Store) -> (r: Result<Event, RepoError>)
        ensures
            r is Ok <==> spec_get_event(store.events.deep_view(), event_id@) is Ok,
            r matches Ok(e) ==> e@ == spec_get_event(store.events.deep_view(), event_id@)->Ok_0,
            r matches Err(er) ==> Err::<EventV, RepoError>(er) == spec_get_event(
                store.events.deep_view(),
                event_id@,
            ),
    {
        let oid = match ObjectId::parse(event_id) {
            Ok(o) => o,
            Err(e) => {
                return Err(e);
            },
        };
        match find_event_index(&store.events, oid) {
            Some(i) => Ok(store.events[i].clone()),
            None => Err(RepoError::NotFound),
        }
    }

    /// Filtered listing: the matching records in store order, with
    /// pagination applied.
    pub fn get_filtered_events(event_filter: EventFilter, store: &Store) -> (r: Vec<Event>)
        ensures
            r.deep_view() == page(
                spec_event_matching(store.events.deep_view(), spec_event_query_of(event_filter)),
                event_filter.offset as int,
                event_filter.limit as int,
            ),
    {
        let q = get_find_filter(&event_filter);
        let mut matched: Vec<Event> = Vec::new();
        let mut i: usize = 0;
        proof {
            assert(store.events.deep_view().subrange(0, 0) =~= Seq::<EventV>::empty());
            reveal(Seq::filter);
            assert(matched.deep_view() =~= spec_event_matching(
                store.events.deep_view().subrange(0, 0),
                q@,
            ));
        }
        while i < store.events.len()
            invariant
                0 <= i <= store.events@.len(),
                q@ == spec_event_query_of(event_filter),
                matched.deep_view() == spec_event_matching(
                    store.events.deep_view().subrange(0, i as int),
                    q@,
                ),
            decreases store.events@.len() - i,
        {
            let ghost events = store.events.deep_view();
            let ghost pre = events.subrange(0, i as int);
            proof {
                assert(events.subrange(0, i + 1) =~= pre.push(events[i as int]));
                lemma_event_matching_push(pre, q@, events[i as int]);
            }
            let e = &store.events[i];
            if matches_event(&q, e) {
                let ghost matched_pre = matched.deep_view();
                matched.push(e.clone());
                proof {
                    assert(matched.deep_view() =~= matched_pre.push(events[i as int]));
                }
            }
            i = i + 1;
        }
        proof {
            assert(store.events.deep_view().subrange(0, store.events@.len() as int)
                =~= store.events.deep_view());
        }
        let len = matched.len();
        let start = if event_filter.offset > len {
            len
        } else {
            event_filter.offset
        };
        let take = if event_filter.limit > len - start {
            len - start
        } else {
            event_filter.limit
        };
        let end = start + take;
        let mut out: Vec<Event> = Vec::new();
        let mut j: usize = start;
        while j < end
            invariant
                start <= j <= end,
                end <= matched@.len(),
                out@.len() == j - start,
                forall|k: int| 0 <= k < out@.len() ==> out.deep_view()[k] == matched.deep_view()[
                    start + k],
            decreases end - j,
        {
            let ghost out_pre = out.deep_view();
            let ghost j0 = j as int;
            out.push(matched[j].clone());
            proof {
                assert(out.deep_view() =~= out_pre.push(matched.deep_view()[j0]));
            }
            j = j + 1;
        }
        proof {
            assert(out.deep_view() =~= page(
                spec_event_matching(store.events.deep_view(), spec_event_query_of(event_filter)),
                event_filter.offset as int,
                event_filter.limit as int,
            ));
        }
        out
    }

    /// Filtered count: how many records the same filtered, paginated
    /// listing would return. The in-memory store cannot fail a count.
    pub fn count_filtered_events(event_filter: EventFilter, store: &Store) -> (r: Result<
        u64,
        RepoError,
    >)
        ensures
            r matches Ok(n) ==> n as int == page(
                spec_event_matching(store.events.deep_view(), spec_event_query_of(event_filter)),
                event_filter.offset as int,
                event_filter.limit as int,
            ).len(),
            r is Ok,
    {
        let listed = Event::get_filtered_events(event_filter, store);
        Ok(listed.len() as u64)
    }

    /// Persists an event: assigns the fresh identifier, defaults the
    /// rating to 5 and the location to `[0, 0]` when absent, and
    /// appends the record.
    pub fn create(event: Event, store: &mut Store) -> (r: Result<ObjectId, RepoError>)
        requires
            old(store).wf(),
        ensures
            final(store).wf(),
            final(store).users == old(store).users,
            final(store).trips == old(store).trips,
            old(store).next_id == u64::MAX ==> r == Err::<ObjectId, RepoError>(
                RepoError::PersistenceFailure,
            ) && *final(store) == *old(store),
            old(store).next_id < u64::MAX ==> ({
                let id = ObjectId::spec_from_value(old(store).next_id as u128);
                &&& r == Ok::<ObjectId, RepoError>(id)
                &&& final(store).events.deep_view() == old(store).events.deep_view().push(
                    created_event(event@, id),
                )
                &&& final(store).next_id == old(store).next_id + 1
            }),
    {
        let id = match store.fresh_id() {
            Ok(i) => i,
            Err(_) => {
                return Err(RepoError::PersistenceFailure);
            },
        };
        let mut event = event;
        let ghost e0 = event@;
        let has_location = match &event.location {
            Some(_) => true,
            None => false,
        };
        if !has_location {
            let mut l: Vec<i64> = Vec::new();
            l.push(0);
            l.push(0);
            proof {
                assert(l@ =~= seq![0i64, 0i64]);
            }
            event.location = Some(l);
        }
        let has_rating = match event.rating {
            Some(_) => true,
            None => false,
        };
        if !has_rating {
            event.rating = Some(5);
        }
        event.id = Some(id);
        let ghost ev = event@;
        let ghost events_before = old(store).events.deep_view();
        store.events.push(event);
        proof {
            assert(ev =~= created_event(e0, id));
            assert(store.events.deep_view() =~= events_before.push(created_event(e0, id)));
            lemma_events_keyed_push(
                events_before,
                old(store).next_id,
                store.next_id,
                store.events.deep_view().last(),
            );
            lemma_users_keyed_mono(store.users.deep_view(), old(store).next_id, store.next_id);
            lemma_trips_keyed_mono(store.trips.deep_view(), old(store).next_id, store.next_id);
        }
        Ok(id)
    }

    /// Admin override: an actor with at least the admin role forces
    /// the event private; a missing target changes nothing. The store
    /// change is visible in the contract.
    pub fn force_private(event_id: &str, admin_id: &str, store: &mut Store) -> (r: Result<
        (),
        RepoError,
    >)
        requires
            old(store).wf(),
        ensures
            final(store).wf(),
            final(store).users == old(store).users,
            final(store).trips == old(store).trips,
            final(store).next_id == old(store).next_id,
            ({
                let es = old(store).events.deep_view();
                let gate = spec_check_role(
                    old(store).users.deep_view(),
                    admin_id@,
                    Role::Admin,
                );
                if !valid_oid_chars(event_id@) {
                    &&& r == Err::<(), RepoError>(RepoError::InvalidIdentifier)
                    &&& final(store).events == old(store).events
                } else if gate is Err {
                    &&& r == Err::<(), RepoError>(gate->Err_0)
                    &&& final(store).events == old(store).events
                } else {
                    let i = event_index(
                        es,
                        ObjectId::spec_from_value(hex_seq_val(event_id@) as u128),
                    );
                    &&& r == Ok::<(), RepoError>(())
                    &&& (i < 0 ==> final(store).events == old(store).events)
                    &&& (i >= 0 ==> final(store).events.deep_view() == es.update(
                        i,
                        EventV { private: true, ..es[i] },
                    ))
                }
            }),
    {
        let event_oid = match ObjectId::parse(event_id) {
            Ok(o) => o,
            Err(e) => {
                return Err(e);
            },
        };
        match crate::user::check_role(admin_id, Role::Admin, store) {
            Ok(_) => {},
            Err(e) => {
                return Err(e);
            },
        }
        let idx = match find_event_index(&store.events, event_oid) {
            Some(i) => i,
            None => {
                return Ok(());
            },
        };
        let ghost es = store.events.deep_view();
        let base = &store.events[idx];
        let mut patched = base.clone();
        patched.private = true;
        store.events[idx] = patched;
        proof {
            assert(store.events.deep_view() =~= es.update(
                idx as int,
                EventV { private: true, ..es[idx as int] },
            ));
            lemma_events_keyed_update(
                es,
                store.next_id,
                idx as int,
                EventV { private: true, ..es[idx as int] },
            );
        }
        Ok(())
    }
}

impl EventUpdate {
    /// Partial update: applies exactly the present fields to the
    /// stored record and returns the post-update record; `NotFound`
    /// when the identifier matches nothing.
    pub fn update(event: EventUpdate, store: &mut Store) -> (r: Result<Event, RepoError>)
        requires
            old(store).wf(),
        ensures
            final(store).wf(),
            final(store).users == old(store).users,
            final(store).trips == old(store).trips,
            final(store).next_id == old(store).next_id,
            ({
                let es = old(store).events.deep_view();
                let i = event_index(es, event.id);
                &&& (i < 0 ==> final(store).events == old(store).events && r == Err::<
                    Event,
                    RepoError,
                >(RepoError::NotFound))
                &&& (i >= 0 ==> final(store).events.deep_view() == es.update(
                    i,
                    apply_event_update(event, es[i]),
                ) && (r matches Ok(out) && out@ == apply_event_update(event, es[i])))
            }),
    {
        let idx = match find_event_index(&store.events, event.id) {
            Some(i) => i,
            None => {
                return Err(RepoError::NotFound);
            },
        };
        let ghost es = store.events.deep_view();
        let base = &store.events[idx];
        let patched = Event {
            id: base.id,
            name: match event.name {
                Some(s) => s,
                None => base.name.clone(),
            },
            description: match event.description {
                Some(s) => s,
                None => base.description.clone(),
            },
            tags: match event.tags {
                Some(v) => v,
                None => clone_string_vec(&base.tags),
            },
            personal_type: match event.personal_type {
                Some(s) => s,
                None => base.personal_type.clone(),
            },
            rating: match event.rating {
                Some(v) => Some(v),
                None => base.rating,
            },
            country: match event.country {
                Some(s) => s,
                None => base.country.clone(),
            },
            city: match event.city {
                Some(s) => s,
                None => base.city.clone(),
            },
            price: match event.price {
                Some(v) => v,
                None => base.price,
            },
            duration: match event.duration {
                Some(s) => s,
                None => base.duration.clone(),
            },
            location: match event.location {
                Some(v) => Some(v),
                None => match &base.location {
                    Some(v) => Some(clone_i64_vec(v)),
                    None => None,
                },
            },
            image: match event.image {
                Some(s) => s,
                None => base.image.clone(),
            },
            private: match event.private {
                Some(b) => b,
                None => base.private,
            },
            user_id: base.user_id,
        };
        proof {
            assert(patched@ =~= apply_event_update(event, es[idx as int]));
        }
        let out = patched.clone();
        store.events[idx] = patched;
        proof {
            assert(store.events.deep_view() =~= es.update(
                idx as int,
                apply_event_update(event, es[idx as int]),
            ));
            lemma_events_keyed_update(
                es,
                store.next_id,
                idx as int,
                apply_event_update(event, es[idx as int]),
            );
        }
        Ok(out)
    }
}

/// Law: a partial update changes exactly the present fields of the
/// baseline record; every absent field, and both identifiers, keep the
/// stored value.
pub proof fn lemma_partial_update_exact(u: EventUpdate, e: EventV)
    ensures
        ({
            let r = apply_event_update(u, e);
            &&& r.id == e.id
            &&& r.user_id == e.user_id
            &&& (u.name is None ==> r.name == e.name)
            &&& (u.name matches Some(s) ==> r.name == s@)
            &&& (u.description is None ==> r.description == e.description)
            &&& (u.description matches Some(s) ==> r.description == s@)
            &&& (u.tags is None ==> r.tags == e.tags)
            &&& (u.tags matches Some(v) ==> r.tags == v.deep_view())
            &&& (u.personal_type is None ==> r.personal_type == e.personal_type)
            &&& (u.personal_type matches Some(s) ==> r.personal_type == s@)
            &&& (u.rating is None ==> r.rating == e.rating)
            &&& (u.rating matches Some(v) ==> r.rating == Some(v))
            &&& (u.country is None ==> r.country == e.country)
            &&& (u.country matches Some(s) ==> r.country == s@)
            &&& (u.city is None ==> r.city == e.city)
            &&& (u.city matches Some(s) ==> r.city == s@)
            &&& (u.price is None ==> r.price == e.price)
            &&& (u.price matches Some(v) ==> r.price == v)
            &&& (u.duration is None ==> r.duration == e.duration)
            &&& (u.duration matches Some(s) ==> r.duration == s@)
            &&& (u.location is None ==> r.location == e.location)
            &&& (u.location matches Some(v) ==> r.location == Some(v@))
            &&& (u.image is None ==> r.image == e.image)
            &&& (u.image matches Some(s) ==> r.image == s@)
            &&& (u.private is None ==> r.private == e.private)
            &&& (u.private matches Some(b) ==> r.private == b)
        }),
{
}

/// Law: with `user_id` absent or malformed, a filtered listing only
/// ever returns non-private records, whatever else the filter holds.
pub proof fn lemma_events_private_excluded_without_owner(
    f: EventFilter,
    events: Seq<EventV>,
    k: int,
)
    requires
        spec_owner_of(f.user_id) is None,
        0 <= k < page(
            spec_event_matching(events, spec_event_query_of(f)),
            f.offset as int,
            f.limit as int,
        ).len(),
    ensures
        !page(
            spec_event_matching(events, spec_event_query_of(f)),
            f.offset as int,
            f.limit as int,
        )[k].private,
{
    let q = spec_event_query_of(f);
    let m = spec_event_matching(events, q);
    let p = page(m, f.offset as int, f.limit as int);
    let o: int = if f.offset as int > m.len() {
        m.len() as int
    } else {
        f.offset as int
    };
    assert(p[k] == m[o + k]);
    lemma_event_matching_pred(events, q, o + k);
}

/// Law: with `include_private` explicitly `false`, a filtered listing
/// excludes private records even when a valid owner is supplied.
pub proof fn lemma_events_private_excluded_when_demanded(
    f: EventFilter,
    events: Seq<EventV>,
    k: int,
)
    requires
        f.include_private == Some(false),
        0 <= k < page(
            spec_event_matching(events, spec_event_query_of(f)),
            f.offset as int,
            f.limit as int,
        ).len(),
    ensures
        !page(
            spec_event_matching(events, spec_event_query_of(f)),
            f.offset as int,
            f.limit as int,
        )[k].private,
{
    let q = spec_event_query_of(f);
    let m = spec_event_matching(events, q);
    let p = page(m, f.offset as int, f.limit as int);
    let o: int = if f.offset as int > m.len() {
        m.len() as int
    } else {
        f.offset as int
    };
    assert(p[k] == m[o + k]);
    lemma_event_matching_pred(events, q, o + k);
}

/// Law: creating a record and fetching it back through the returned
/// identifier's canonical string yields exactly the stored record —
/// the input with the fresh identifier and the write-time defaults
/// (rating 5, location `[0, 0]`) applied, every other field unchanged.
pub proof fn lemma_create_then_get_event(events: Seq<EventV>, next: u64, e: EventV)
    requires
        events_keyed(events, next),
        next < u64::MAX,
    ensures
        ({
            let id = ObjectId::spec_from_value(next as u128);
            spec_get_event(events.push(created_event(e, id)), oid_digits(next as u128)) == Ok::<
                EventV,
                RepoError,
            >(created_event(e, id))
        }),
{
    let id = ObjectId::spec_from_value(next as u128);
    lemma_pow16_24();
    lemma_oid_digits_valid(next as u128);
    lemma_oid_digits_val(next as u128);
    let t = events.push(created_event(e, id));
    assert forall|j: int| 0 <= j < events.len() implies (#[trigger] t[j]).id != Some(id) by {
        assert(key_ok(events[j].id, next));
    }
    assert(t[events.len() as int].id == Some(id));
    lemma_event_index_first(t, id, events.len() as int);
}

/// Law: fetching by identifier is idempotent — with no intervening
/// mutation, two fetches of the same identifier return equal results.
pub proof fn lemma_get_event_idempotent(
    events: Seq<EventV>,
    id_chars: Seq<char>,
    r1: Result<EventV, RepoError>,
    r2: Result<EventV, RepoError>,
)
    requires
        r1 == spec_get_event(events, id_chars),
        r2 == spec_get_event(events, id_chars),
    ensures
        r1 == r2,
{
}

} // verus!
