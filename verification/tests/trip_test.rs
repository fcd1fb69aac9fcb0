use yeoheng::error::RepoError;
use yeoheng::ids::ObjectId;
use yeoheng::role::Role;
use yeoheng::store::Store;
use yeoheng::trip::{EventEntry, Trip, TripCreate, TripEdit, TripFilter, TripFork};
use yeoheng::user::User;

fn oid(s: &str) -> ObjectId {
    ObjectId::parse(s).expect("well-formed identifier")
}

fn sample_trip_create(user: &str) -> TripCreate {
    TripCreate {
        name: String::from("Test"),
        start_date: String::from("Start"),
        end_date: String::from("End"),
        budget: 150,
        destination: String::from("Destination"),
        private: false,
        user_id: oid(user),
    }
}

fn entry(trip_id: ObjectId, event_hex: &str, budget: i64) -> EventEntry {
    EventEntry {
        id: trip_id,
        event_id: oid(event_hex),
        start_date: String::from("2021-01-01"),
        start_hour: String::from("10:00"),
        budget,
        duration: 60,
    }
}

fn empty_filter() -> TripFilter {
    TripFilter { offset: 0, limit: 5, budget_gt: None, budget_lt: None, user_id: None }
}

#[test]
fn test_create_trip() {
    let mut store = Store::new();
    let response =
        Trip::create(sample_trip_create("5fb7437c00058e520064685f"), &mut store)
            .expect("create succeeds");
    assert_eq!(response.to_hex().len(), 24);
    assert_eq!(store.trips.len(), 1);
}

#[test]
fn test_get_trip() {
    let mut store = Store::new();
    Trip::create(sample_trip_create("5fb7437c00058e520064685f"), &mut store)
        .expect("create succeeds");

    let response = Trip::get_filtered_trips(empty_filter(), &store);

    assert_eq!("Test", response[0].name);
}

#[test]
fn test_count_trip() {
    let mut store = Store::new();
    Trip::create(sample_trip_create("5fb7437c00058e520064685f"), &mut store)
        .expect("create succeeds");

    let mut filter = empty_filter();
    filter.limit = 1;
    let response = Trip::count_filtered_trips(filter, &store).expect("Error counting document");

    assert_eq!(1, response);
}

#[test]
fn trip_create_starts_with_no_entries() {
    let mut store = Store::new();
    let id = Trip::create(sample_trip_create("5fb7437c00058e520064685f"), &mut store)
        .expect("create succeeds");
    let fetched = Trip::get_trip(&id.to_hex(), &store).expect("created trip is found");
    assert_eq!(fetched.events.len(), 0);
    assert_eq!(fetched.budget, 150);
    assert_eq!(fetched.destination, "Destination");
}

#[test]
fn trip_push_entry_raises_budget_and_grows_list() {
    let mut store = Store::new();
    let mut create = sample_trip_create("5fb7437c00058e520064685f");
    create.budget = 100;
    let trip_id = Trip::create(create, &mut store).expect("create succeeds");

    let before = Trip::get_trip(&trip_id.to_hex(), &store).expect("found");
    assert_eq!(before.budget, 100);
    let len_before = before.events.len();

    Trip::push_event_entry(entry(trip_id, "aaaaaaaaaaaaaaaaaaaaaaaa", 15), &mut store)
        .expect("trip exists");

    let after = Trip::get_trip(&trip_id.to_hex(), &store).expect("found");
    assert_eq!(after.budget, 115);
    assert_eq!(after.events.len(), len_before + 1);
}

#[test]
fn trip_push_entry_missing_trip_is_not_found() {
    let mut store = Store::new();
    let r = Trip::push_event_entry(
        entry(oid("5fb7437c00058e520064685f"), "aaaaaaaaaaaaaaaaaaaaaaaa", 15),
        &mut store,
    );
    assert_eq!(r.unwrap_err(), RepoError::NotFound);
}

#[test]
fn trip_pull_entry_removes_and_lowers_budget() {
    let mut store = Store::new();
    let mut create = sample_trip_create("5fb7437c00058e520064685f");
    create.budget = 100;
    let trip_id = Trip::create(create, &mut store).expect("create succeeds");
    Trip::push_event_entry(entry(trip_id, "aaaaaaaaaaaaaaaaaaaaaaaa", 15), &mut store)
        .expect("trip exists");

    Trip::pull_event_entry(entry(trip_id, "aaaaaaaaaaaaaaaaaaaaaaaa", 15), &mut store)
        .expect("trip exists");

    let after = Trip::get_trip(&trip_id.to_hex(), &store).expect("found");
    assert_eq!(after.budget, 100);
    assert_eq!(after.events.len(), 0);
}

#[test]
fn trip_fork_copies_and_renumbers_entries() {
    let mut store = Store::new();
    let mut create = sample_trip_create("5fb7437c00058e520064685f");
    create.budget = 50;
    let trip_id = Trip::create(create, &mut store).expect("create succeeds");
    Trip::push_event_entry(entry(trip_id, "aaaaaaaaaaaaaaaaaaaaaaaa", 20), &mut store)
        .expect("trip exists");
    Trip::push_event_entry(entry(trip_id, "bbbbbbbbbbbbbbbbbbbbbbbb", 30), &mut store)
        .expect("trip exists");

    let source = Trip::get_trip(&trip_id.to_hex(), &store).expect("found");
    assert_eq!(source.budget, 100);
    assert_eq!(source.events.len(), 2);

    let fork = TripFork {
        name: String::from("Forked"),
        start_date: String::from("NewStart"),
        end_date: String::from("NewEnd"),
        to_fork_trip_id: trip_id,
    };
    let new_id = Trip::fork(fork, "cccccccccccccccccccccccc", &mut store)
        .expect("source exists and user id is well-formed");

    let forked = Trip::get_trip(&new_id.to_hex(), &store).expect("forked trip is found");
    assert_eq!(forked.name, "Forked");
    assert_eq!(forked.start_date, "NewStart");
    assert_eq!(forked.end_date, "NewEnd");
    assert_eq!(forked.budget, 100);
    assert_eq!(forked.destination, source.destination);
    assert_eq!(forked.private, source.private);
    assert_eq!(forked.user_id, oid("cccccccccccccccccccccccc"));
    assert_eq!(forked.events.len(), 2);
    assert_eq!(forked.events[0].event_id, source.events[0].event_id);
    assert_eq!(forked.events[1].event_id, source.events[1].event_id);
    assert_ne!(forked.events[0].id, source.events[0].id);
    assert_ne!(forked.events[1].id, source.events[1].id);
    assert_ne!(forked.events[0].id, forked.events[1].id);
    assert_eq!(forked.events[0].budget, 20);
    assert_eq!(forked.events[1].budget, 30);
}

#[test]
fn trip_fork_missing_source_is_not_found() {
    let mut store = Store::new();
    let fork = TripFork {
        name: String::from("Forked"),
        start_date: String::from("NewStart"),
        end_date: String::from("NewEnd"),
        to_fork_trip_id: oid("5fb7437c00058e520064685f"),
    };
    let r = Trip::fork(fork, "cccccccccccccccccccccccc", &mut store);
    assert_eq!(r.unwrap_err(), RepoError::NotFound);
}

#[test]
fn trip_update_changes_exactly_present_fields() {
    let mut store = Store::new();
    let trip_id = Trip::create(sample_trip_create("5fb7437c00058e520064685f"), &mut store)
        .expect("create succeeds");

    let edit = TripEdit {
        id: trip_id,
        name: Some(String::from("Renamed")),
        start_date: None,
        end_date: None,
        budget: Some(999),
        private: None,
        destination: None,
    };
    let updated = Trip::update(edit, &mut store).expect("target exists");

    assert_eq!(updated.name, "Renamed");
    assert_eq!(updated.budget, 999);
    assert_eq!(updated.start_date, "Start");
    assert_eq!(updated.end_date, "End");
    assert_eq!(updated.destination, "Destination");
    assert_eq!(updated.private, false);
    assert_eq!(updated.id, trip_id);
}

#[test]
fn trip_delete_reports_removed_count() {
    let mut store = Store::new();
    let trip_id = Trip::create(sample_trip_create("5fb7437c00058e520064685f"), &mut store)
        .expect("create succeeds");

    assert_eq!(Trip::delete_trip(&trip_id.to_hex(), &mut store).unwrap(), 1);
    assert_eq!(
        Trip::get_trip(&trip_id.to_hex(), &store).unwrap_err(),
        RepoError::NotFound
    );
    assert_eq!(Trip::delete_trip(&trip_id.to_hex(), &mut store).unwrap(), 0);
    assert_eq!(
        Trip::delete_trip("garbage", &mut store).unwrap_err(),
        RepoError::InvalidIdentifier
    );
}

#[test]
fn trip_listing_applies_budget_bounds() {
    let mut store = Store::new();
    for (k, b) in [50, 150, 250].iter().enumerate() {
        let mut c = sample_trip_create("5fb7437c00058e520064685f");
        c.name = format!("Trip{}", k);
        c.budget = *b;
        Trip::create(c, &mut store).expect("create succeeds");
    }

    let mut bounded = empty_filter();
    bounded.budget_gt = Some(100);
    bounded.budget_lt = Some(200);
    let listed = Trip::get_filtered_trips(bounded, &store);
    assert_eq!(listed.len(), 1);
    assert_eq!(listed[0].name, "Trip1");
}

#[test]
fn trip_listing_hides_private_without_owner() {
    let mut store = Store::new();
    let mut private_trip = sample_trip_create("5fb7437c00058e520064685f");
    private_trip.private = true;
    private_trip.name = String::from("Hidden");
    Trip::create(private_trip, &mut store).expect("create succeeds");
    Trip::create(sample_trip_create("5fb7437c00058e520064685f"), &mut store)
        .expect("create succeeds");

    let listed = Trip::get_filtered_trips(empty_filter(), &store);
    assert_eq!(listed.len(), 1);
    assert_eq!(listed[0].name, "Test");

    let mut owner_filter = empty_filter();
    owner_filter.user_id = Some(String::from("5fb7437c00058e520064685f"));
    assert_eq!(Trip::get_filtered_trips(owner_filter, &store).len(), 2);
}

#[test]
fn trip_force_private_needs_admin() {
    let mut store = Store::new();
    store.users.push(User {
        id: Some(oid("000000000000000000000001")),
        name: String::from("Plain"),
        username: String::from("plain"),
        password: String::from("x"),
        role: Some(Role::User),
        email: String::from("plain@test.com"),
    });
    store.users.push(User {
        id: Some(oid("000000000000000000000002")),
        name: String::from("Boss"),
        username: String::from("boss"),
        password: String::from("x"),
        role: Some(Role::Admin),
        email: String::from("boss@test.com"),
    });
    store.next_id = 10;
    let trip_id = Trip::create(sample_trip_create("5fb7437c00058e520064685f"), &mut store)
        .expect("create succeeds");

    let denied = Trip::force_private(
        &trip_id.to_hex(),
        "000000000000000000000001",
        &mut store,
    );
    assert_eq!(denied.unwrap_err(), RepoError::AccessDenied);

    Trip::force_private(&trip_id.to_hex(), "000000000000000000000002", &mut store)
        .expect("admin may force private");
    let after = Trip::get_trip(&trip_id.to_hex(), &store).expect("found");
    assert!(after.private);
}
