use yeoheng::error::RepoError;
use yeoheng::ids::ObjectId;
use yeoheng::role::Role;
use yeoheng::store::Store;
use yeoheng::user::{User, UserLogin};

fn oid(s: &str) -> ObjectId {
    ObjectId::parse(s).expect("well-formed identifier")
}

fn sample_user(name: &str, username: &str, email: &str) -> User {
    User {
        id: None,
        name: String::from(name),
        username: String::from(username),
        password: String::from("test"),
        role: None,
        email: String::from(email),
    }
}

fn store_with_superadmin(hex: &str) -> Store {
    let mut store = Store::new();
    store.users.push(User {
        id: Some(oid(hex)),
        name: String::from("Root"),
        username: String::from("root"),
        password: String::from("x"),
        role: Some(Role::Superadmin),
        email: String::from("root@test.com"),
    });
    store
}

#[test]
fn test_insert_user() {
    let mut store = Store::new();
    let user = sample_user("Test", "test", "test@test.com");

    let response = User::insert(user, &mut store).expect("insert succeeds");

    assert_eq!(response.to_hex().len(), 24);
    assert_eq!(store.users.len(), 1);
    assert_eq!(store.users[0].role, Some(Role::User));
}

#[test]
fn test_get_all() {
    let mut store = store_with_superadmin("5fb7437c00058e520064685f");
    User::insert(sample_user("TestGet", "test", "test@test.com"), &mut store)
        .expect("insert succeeds");

    let response = User::get_all_like_user("te", "5fb7437c00058e520064685f", &store)
        .expect("Error: test get all usr");

    assert_eq!(true, response.iter().count() > 0);
}

#[test]
fn user_search_is_case_insensitive_and_projects() {
    let mut store = store_with_superadmin("000000000000000000000009");
    store.next_id = 100;
    let id = User::insert(sample_user("TestGet", "TeStUser", "test@test.com"), &mut store)
        .expect("insert succeeds");

    let found = User::get_all_like_user("TESTU", "000000000000000000000009", &store)
        .expect("superadmin may search");
    assert_eq!(found.len(), 1);
    assert_eq!(found[0].id, id);
    assert_eq!(found[0].username, "TeStUser");
    assert_eq!(found[0].role, Role::User);
    assert_eq!(found[0].email, "test@test.com");

    let none = User::get_all_like_user("nobody", "000000000000000000000009", &store)
        .expect("superadmin may search");
    assert_eq!(none.len(), 0);
}

#[test]
fn user_search_needs_superadmin() {
    let mut store = Store::new();
    let actor = User::insert(sample_user("Plain", "plain", "plain@test.com"), &mut store)
        .expect("insert succeeds");
    let r = User::get_all_like_user("te", &actor.to_hex(), &store);
    assert_eq!(r.unwrap_err(), RepoError::AccessDenied);

    let r = User::get_all_like_user("te", "5fb7437c00058e520064685f", &store);
    assert_eq!(r.unwrap_err(), RepoError::NotFound);

    let r = User::get_all_like_user("te", "garbage", &store);
    assert_eq!(r.unwrap_err(), RepoError::InvalidIdentifier);
}

#[test]
fn user_search_rejects_broken_pattern() {
    let store = store_with_superadmin("000000000000000000000009");
    let r = User::get_all_like_user("(", "000000000000000000000009", &store);
    assert_eq!(r.unwrap_err(), RepoError::PersistenceFailure);
}

#[test]
fn user_validate_rejects_malformed_email() {
    let store = Store::new();
    let r = User::validate(sample_user("Test", "test", "not-an-email"), &store);
    assert_eq!(r.unwrap_err(), RepoError::ValidationFailure);
}

#[test]
fn user_validate_accepts_fresh_well_formed_user() {
    let store = Store::new();
    let user = User::validate(sample_user("Test", "test", "test@test.com"), &store)
        .expect("well-formed and fresh");
    assert_eq!(user.username, "test");
}

#[test]
fn user_validate_rejects_duplicates() {
    let mut store = Store::new();
    User::insert(sample_user("Test", "test", "test@test.com"), &mut store)
        .expect("insert succeeds");

    let same_email = sample_user("Other", "other", "test@test.com");
    assert_eq!(
        User::validate(same_email, &store).unwrap_err(),
        RepoError::ValidationFailure
    );

    let same_username = sample_user("Other", "test", "other@test.com");
    assert_eq!(
        User::validate(same_username, &store).unwrap_err(),
        RepoError::ValidationFailure
    );

    let fresh = sample_user("Other", "other", "other@test.com");
    assert!(User::validate(fresh, &store).is_ok());
}

#[test]
fn user_find_checks_the_stored_hash() {
    let mut store = Store::new();
    let hash = argon2::hash_encoded(
        b"secret-password",
        b"somesaltsomesalt",
        &argon2::Config::default(),
    )
    .expect("hashing succeeds");
    let mut user = sample_user("Test", "test", "test@test.com");
    user.password = hash;
    User::insert(user, &mut store).expect("insert succeeds");

    let good = UserLogin {
        email: String::from("test@test.com"),
        password: String::from("secret-password"),
    };
    let found = User::find_user(good, &store).expect("right password logs in");
    assert_eq!(found.username, "test");

    let bad = UserLogin {
        email: String::from("test@test.com"),
        password: String::from("wrong-password"),
    };
    assert_eq!(
        User::find_user(bad, &store).unwrap_err(),
        RepoError::AccessDenied
    );

    let missing = UserLogin {
        email: String::from("nobody@test.com"),
        password: String::from("secret-password"),
    };
    assert_eq!(
        User::find_user(missing, &store).unwrap_err(),
        RepoError::NotFound
    );
}

#[test]
fn user_promotion_follows_the_role_order() {
    let mut store = store_with_superadmin("000000000000000000000009");
    store.next_id = 100;
    let target = User::insert(sample_user("U", "u", "u@test.com"), &mut store)
        .expect("insert succeeds");
    let admin = User::insert(sample_user("A", "a", "a@test.com"), &mut store)
        .expect("insert succeeds");
    let admin_pos = store.users.len() - 1;
    store.users[admin_pos].role = Some(Role::Admin);

    let denied = User::promote_user(&target.to_hex(), &admin.to_hex(), &mut store);
    assert_eq!(denied.unwrap_err(), RepoError::AccessDenied);

    User::promote_user(&target.to_hex(), "000000000000000000000009", &mut store)
        .expect("superadmin may promote");
    assert_eq!(store.users[1].role, Some(Role::Admin));
}

#[test]
fn user_demotion_reverses_promotion() {
    let mut store = store_with_superadmin("000000000000000000000009");
    store.next_id = 100;
    let target = User::insert(sample_user("U", "u", "u@test.com"), &mut store)
        .expect("insert succeeds");
    User::promote_user(&target.to_hex(), "000000000000000000000009", &mut store)
        .expect("superadmin may promote");
    assert_eq!(store.users[1].role, Some(Role::Admin));

    User::demote_user(&target.to_hex(), "000000000000000000000009", &mut store)
        .expect("superadmin may demote");
    assert_eq!(store.users[1].role, Some(Role::User));

    User::demote_user(&target.to_hex(), "000000000000000000000009", &mut store)
        .expect("a second demotion is a no-op");
    assert_eq!(store.users[1].role, Some(Role::User));
}

#[test]
fn user_promotion_skips_non_user_targets() {
    let mut store = store_with_superadmin("000000000000000000000009");
    store.next_id = 100;
    let target = User::insert(sample_user("U", "u", "u@test.com"), &mut store)
        .expect("insert succeeds");
    User::promote_user(&target.to_hex(), "000000000000000000000009", &mut store)
        .expect("superadmin may promote");
    User::promote_user(&target.to_hex(), "000000000000000000000009", &mut store)
        .expect("an already-admin target is left unchanged");
    assert_eq!(store.users[1].role, Some(Role::Admin));
}
