use yeoheng::error::RepoError;
use yeoheng::event::{Event, EventFilter, EventUpdate};
use yeoheng::ids::ObjectId;
use yeoheng::store::Store;

fn oid(s: &str) -> ObjectId {
    ObjectId::parse(s).expect("well-formed identifier")
}

fn sample_event(user: &str) -> Event {
    Event {
        id: None,
        name: String::from("Test"),
        description: String::from("Description"),
        tags: vec![String::from("tag1"), String::from("tag2")],
        personal_type: String::from("Type"),
        rating: Some(5),
        country: String::from("Country"),
        city: String::from("City"),
        price: 100,
        duration: String::from("Duration"),
        location: Some(vec![0, 0]),
        image: String::from("Image"),
        private: false,
        user_id: oid(user),
    }
}

fn empty_filter() -> EventFilter {
    EventFilter {
        offset: 0,
        limit: 5,
        tags: None,
        personal_type: None,
        rating: None,
        country: None,
        city: None,
        user_id: None,
        include_private: None,
    }
}

#[test]
fn test_create_event() {
    let mut store = Store::new();
    let event = sample_event("5fb7437c00058e520064685f");
    let response = Event::create(event, &mut store).expect("create succeeds");
    assert_eq!(response.to_hex().len(), 24);
    assert_eq!(store.events.len(), 1);
}

#[test]
fn test_get_event() {
    let mut store = Store::new();
    Event::create(sample_event("5fb7437c00058e520064685f"), &mut store).expect("create succeeds");

    let response = Event::get_filtered_events(empty_filter(), &store);

    assert_eq!("Test", response[0].name);
}

#[test]
fn test_count_event() {
    let mut store = Store::new();
    Event::create(sample_event("5fb7437c00058e520064685f"), &mut store).expect("create succeeds");

    let mut filter = empty_filter();
    filter.limit = 1;
    filter.include_private = Some(false);
    let response = Event::count_filtered_events(filter, &store).expect("Error counting document");

    assert_eq!(1, response);
}

#[test]
fn event_create_applies_defaults() {
    let mut store = Store::new();
    let mut event = sample_event("5fb7437c00058e520064685f");
    event.rating = None;
    event.location = None;
    let id = Event::create(event, &mut store).expect("create succeeds");

    let fetched = Event::get_event(&id.to_hex(), &store).expect("created event is found");
    assert_eq!(fetched.rating, Some(5));
    assert_eq!(fetched.location, Some(vec![0, 0]));
    assert_eq!(fetched.id, Some(id));
    assert_eq!(fetched.name, "Test");
}

#[test]
fn event_get_round_trip_preserves_fields() {
    let mut store = Store::new();
    let id = Event::create(sample_event("5fb7437c00058e520064685f"), &mut store)
        .expect("create succeeds");

    let fetched = Event::get_event(&id.to_hex(), &store).expect("created event is found");
    let base = sample_event("5fb7437c00058e520064685f");
    assert_eq!(fetched.name, base.name);
    assert_eq!(fetched.description, base.description);
    assert_eq!(fetched.tags, base.tags);
    assert_eq!(fetched.personal_type, base.personal_type);
    assert_eq!(fetched.rating, base.rating);
    assert_eq!(fetched.country, base.country);
    assert_eq!(fetched.city, base.city);
    assert_eq!(fetched.price, base.price);
    assert_eq!(fetched.duration, base.duration);
    assert_eq!(fetched.location, base.location);
    assert_eq!(fetched.image, base.image);
    assert_eq!(fetched.private, base.private);
    assert_eq!(fetched.user_id, base.user_id);
}

#[test]
fn event_get_is_idempotent() {
    let mut store = Store::new();
    let id = Event::create(sample_event("5fb7437c00058e520064685f"), &mut store)
        .expect("create succeeds");

    let first = Event::get_event(&id.to_hex(), &store).expect("found");
    let second = Event::get_event(&id.to_hex(), &store).expect("found");
    assert_eq!(first.name, second.name);
    assert_eq!(first.id, second.id);
    assert_eq!(first.tags, second.tags);
    assert_eq!(first.price, second.price);
}

#[test]
fn event_get_rejects_malformed_identifier() {
    let store = Store::new();
    let r = Event::get_event("not-an-identifier", &store);
    assert_eq!(r.unwrap_err(), RepoError::InvalidIdentifier);
}

#[test]
fn event_get_missing_is_not_found() {
    let store = Store::new();
    let r = Event::get_event("5fb7437c00058e520064685f", &store);
    assert_eq!(r.unwrap_err(), RepoError::NotFound);
}

#[test]
fn event_update_changes_exactly_present_fields() {
    let mut store = Store::new();
    let id = Event::create(sample_event("5fb7437c00058e520064685f"), &mut store)
        .expect("create succeeds");

    let edit = EventUpdate {
        id,
        name: Some(String::from("Renamed")),
        description: None,
        tags: None,
        personal_type: None,
        rating: None,
        country: None,
        city: None,
        price: Some(250),
        duration: None,
        location: None,
        image: None,
        private: None,
        user_id: oid("5fb7437c00058e520064685f"),
    };
    let updated = EventUpdate::update(edit, &mut store).expect("target exists");

    let base = sample_event("5fb7437c00058e520064685f");
    assert_eq!(updated.name, "Renamed");
    assert_eq!(updated.price, 250);
    assert_eq!(updated.description, base.description);
    assert_eq!(updated.tags, base.tags);
    assert_eq!(updated.personal_type, base.personal_type);
    assert_eq!(updated.rating, base.rating);
    assert_eq!(updated.country, base.country);
    assert_eq!(updated.city, base.city);
    assert_eq!(updated.duration, base.duration);
    assert_eq!(updated.location, base.location);
    assert_eq!(updated.image, base.image);
    assert_eq!(updated.private, base.private);
    assert_eq!(updated.user_id, base.user_id);
    assert_eq!(updated.id, Some(id));

    let fetched = Event::get_event(&id.to_hex(), &store).expect("still there");
    assert_eq!(fetched.name, "Renamed");
    assert_eq!(fetched.price, 250);
}

#[test]
fn event_update_missing_is_not_found() {
    let mut store = Store::new();
    let edit = EventUpdate {
        id: oid("5fb7437c00058e520064685f"),
        name: Some(String::from("Renamed")),
        description: None,
        tags: None,
        personal_type: None,
        rating: None,
        country: None,
        city: None,
        price: None,
        duration: None,
        location: None,
        image: None,
        private: None,
        user_id: oid("5fb7437c00058e520064685f"),
    };
    let r = EventUpdate::update(edit, &mut store);
    assert_eq!(r.unwrap_err(), RepoError::NotFound);
}

#[test]
fn event_listing_hides_private_without_owner() {
    let mut store = Store::new();
    let mut private_event = sample_event("5fb7437c00058e520064685f");
    private_event.name = String::from("Hidden");
    private_event.private = true;
    Event::create(private_event, &mut store).expect("create succeeds");
    Event::create(sample_event("5fb7437c00058e520064685f"), &mut store).expect("create succeeds");

    let listed = Event::get_filtered_events(empty_filter(), &store);
    assert_eq!(listed.len(), 1);
    assert_eq!(listed[0].name, "Test");

    let mut malformed_owner = empty_filter();
    malformed_owner.user_id = Some(String::from("garbage"));
    let listed = Event::get_filtered_events(malformed_owner, &store);
    assert_eq!(listed.len(), 1);
    assert_eq!(listed[0].name, "Test");
}

#[test]
fn event_listing_hides_private_even_for_owner_when_demanded() {
    let mut store = Store::new();
    let mut private_event = sample_event("5fb7437c00058e520064685f");
    private_event.private = true;
    Event::create(private_event, &mut store).expect("create succeeds");

    let mut owner_filter = empty_filter();
    owner_filter.user_id = Some(String::from("5fb7437c00058e520064685f"));
    let listed = Event::get_filtered_events(owner_filter, &store);
    assert_eq!(listed.len(), 1);

    let mut strict = empty_filter();
    strict.user_id = Some(String::from("5fb7437c00058e520064685f"));
    strict.include_private = Some(false);
    let listed = Event::get_filtered_events(strict, &store);
    assert_eq!(listed.len(), 0);
}

#[test]
fn event_listing_filters_by_tags_any_of() {
    let mut store = Store::new();
    Event::create(sample_event("5fb7437c00058e520064685f"), &mut store).expect("create succeeds");

    let mut tagged = empty_filter();
    tagged.tags = Some(String::from("tag1,tag9"));
    assert_eq!(Event::get_filtered_events(tagged, &store).len(), 1);

    let mut unrelated = empty_filter();
    unrelated.tags = Some(String::from("tag9"));
    assert_eq!(Event::get_filtered_events(unrelated, &store).len(), 0);
}

#[test]
fn event_listing_applies_pagination() {
    let mut store = Store::new();
    for k in 0..4 {
        let mut e = sample_event("5fb7437c00058e520064685f");
        e.name = format!("Event{}", k);
        Event::create(e, &mut store).expect("create succeeds");
    }

    let mut window = empty_filter();
    window.offset = 1;
    window.limit = 2;
    let listed = Event::get_filtered_events(window, &store);
    assert_eq!(listed.len(), 2);
    assert_eq!(listed[0].name, "Event1");
    assert_eq!(listed[1].name, "Event2");

    let mut beyond = empty_filter();
    beyond.offset = 10;
    beyond.limit = 2;
    assert_eq!(Event::get_filtered_events(beyond, &store).len(), 0);
}

#[test]
fn event_create_fails_when_identifiers_run_out() {
    let mut store = Store::new();
    store.next_id = u64::MAX;
    let r = Event::create(sample_event("5fb7437c00058e520064685f"), &mut store);
    assert_eq!(r.unwrap_err(), RepoError::PersistenceFailure);
}
