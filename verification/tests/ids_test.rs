use yeoheng::auth::{claims_for, TOKEN_LIFETIME_MS};
use yeoheng::error::RepoError;
use yeoheng::ids::ObjectId;
use yeoheng::role::Role;
use yeoheng::text::split_tags;
use yeoheng::upload::{assemble_public_url, make_file_key};

#[test]
fn identifier_round_trips_through_hex() {
    let id = ObjectId::parse("5fb7437c00058e520064685f").expect("well-formed");
    assert_eq!(id.to_hex(), "5fb7437c00058e520064685f");

    let upper = ObjectId::parse("5FB7437C00058E520064685F").expect("either case parses");
    assert_eq!(upper, id);
    assert_eq!(upper.to_hex(), "5fb7437c00058e520064685f");
}

#[test]
fn identifier_rejects_malformed_strings() {
    assert_eq!(
        ObjectId::parse("5fb7437c00058e520064685").unwrap_err(),
        RepoError::InvalidIdentifier
    );
    assert_eq!(
        ObjectId::parse("5fb7437c00058e520064685f0").unwrap_err(),
        RepoError::InvalidIdentifier
    );
    assert_eq!(
        ObjectId::parse("5fb7437c00058e520064685g").unwrap_err(),
        RepoError::InvalidIdentifier
    );
    assert_eq!(ObjectId::parse("").unwrap_err(), RepoError::InvalidIdentifier);
}

#[test]
fn identifier_value_matches_hex_digits() {
    let id = ObjectId::parse("000000000000000000000010").expect("well-formed");
    assert_eq!(id.value, 16);
    let id = ObjectId::parse("0000000000000000000000ff").expect("well-formed");
    assert_eq!(id.value, 255);
}

#[test]
fn role_order_and_names() {
    assert!(Role::Superadmin.allows(Role::Admin));
    assert!(Role::Admin.allows(Role::Admin));
    assert!(!Role::Admin.allows(Role::Superadmin));
    assert!(!Role::User.allows(Role::Admin));
    assert!(Role::User.allows(Role::User));
    assert_eq!(Role::User.as_str(), "user");
    assert_eq!(Role::Admin.as_str(), "admin");
    assert_eq!(Role::Superadmin.as_str(), "superadmin");
}

#[test]
fn tag_splitting_keeps_every_piece() {
    let pieces = split_tags("tag1,tag2");
    assert_eq!(pieces, vec![String::from("tag1"), String::from("tag2")]);

    let single = split_tags("solo");
    assert_eq!(single, vec![String::from("solo")]);

    let with_empty = split_tags("a,,b");
    assert_eq!(
        with_empty,
        vec![String::from("a"), String::from(""), String::from("b")]
    );

    let empty = split_tags("");
    assert_eq!(empty, vec![String::from("")]);
}

#[test]
fn claims_carry_subject_and_expiry() {
    let id = ObjectId::parse("5fb7437c00058e520064685f").expect("well-formed");
    let claims = claims_for(&id, 1_000_000);
    assert_eq!(claims.iss, "yeoheng-server.com");
    assert_eq!(claims.sub, "5fb7437c00058e520064685f");
    assert_eq!(claims.exp, 1_000_000 + TOKEN_LIFETIME_MS);
}

#[test]
fn upload_paths_are_assembled_exactly() {
    let key = make_file_key("alice", "events", "object-name", "png");
    assert_eq!(key, "alice/events/object-name.png");
    let url = assemble_public_url("https://cdn.test", &key);
    assert_eq!(url, "https://cdn.test/alice/events/object-name.png");
}
