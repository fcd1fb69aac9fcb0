//! Account records, their projections, and the user repository:
//! registration validation, login lookup, role changes, and the
//! superadmin user search.

use vstd::prelude::*;

use crate::error::RepoError;
use crate::ids::{hex_seq_val, valid_oid_chars, ObjectId};
use crate::role::Role;
use crate::store::{
    key_ok, lemma_events_keyed_mono, lemma_trips_keyed_mono, lemma_users_keyed_push,
    lemma_users_keyed_update, Store,
};
use crate::text::{re_compiles, re_match};

verus! {

/// An account record. The identifier is absent until the record is
/// persisted; the role is absent until one is assigned (an absent role
/// acts as an ordinary user).
#[derive(Debug)]
pub struct User {
    pub id: Option<ObjectId>,
    pub name: String,
    pub username: String,
    pub password: String,
    pub role: Option<Role>,
    pub email: String,
}

/// Mathematical model of a user record.
#[verifier::ext_equal]
pub struct UserV {
    pub id: Option<ObjectId>,
    pub name: Seq<char>,
    pub username: Seq<char>,
    pub password: Seq<char>,
    pub role: Option<Role>,
    pub email: Seq<char>,
}

impl View for User {
    type V = UserV;

    open spec fn view(&self) -> UserV {
        UserV {
            id: self.id,
            name: self.name@,
            username: self.username@,
            password: self.password@,
            role: self.role,
            email: self.email@,
        }
    }
}

impl DeepView for User {
    type V = UserV;

    open spec fn deep_view(&self) -> UserV {
        self.view()
    }
}

impl Clone for User {
    fn clone(&self) -> (r: Self)
        ensures
            r@ == self@,
    {
        User {
            id: self.id,
            name: self.name.clone(),
            username: self.username.clone(),
            password: self.password.clone(),
            role: self.role,
            email: self.email.clone(),
        }
    }
}

/// The public projection of a user record handed to administrators.
#[derive(Debug)]
pub struct UserProfile {
    pub id: ObjectId,
    pub name: String,
    pub username: String,
    pub role: Role,
    pub email: String,
}

/// Mathematical model of a user profile.
#[verifier::ext_equal]
pub struct UserProfileV {
    pub id: ObjectId,
    pub name: Seq<char>,
    pub username: Seq<char>,
    pub role: Role,
    pub email: Seq<char>,
}

impl View for UserProfile {
    type V = UserProfileV;

    open spec fn view(&self) -> UserProfileV {
        UserProfileV {
            id: self.id,
            name: self.name@,
            username: self.username@,
            role: self.role,
            email: self.email@,
        }
    }
}

impl DeepView for UserProfile {
    type V = UserProfileV;

    open spec fn deep_view(&self) -> UserProfileV {
        self.view()
    }
}

/// The credentials presented at login.
#[derive(Debug)]
pub struct UserLogin {
    pub email: String,
    pub password: String,
}

/// The profile a stored user projects to. Only well-formed stores are
/// projected, so the identifier is present.
pub open spec fn profile_of(u: UserV) -> UserProfileV
    recommends
        u.id is Some,
{
    UserProfileV {
        id: u.id->0,
        name: u.name,
        username: u.username,
        role: Role::spec_of_opt(u.role),
        email: u.email,
    }
}

/// Whether `argon2::verify_encoded` answers at all — that is, whether
/// the encoded hash decodes into valid parameters: a function of the
/// two strings alone.
pub uninterp spec fn argon_answers(hash: Seq<char>, password: Seq<char>) -> bool;

/// What `argon2::verify_encoded` decides for an encoded hash and a
/// password: a function of the two strings alone.
pub uninterp spec fn argon_verifies(hash: Seq<char>, password: Seq<char>) -> bool;

/// Relies on `argon2::verify_encoded` (crate `rust-argon2`): whether
/// the check answers (the encoded hash decodes into valid parameters),
/// and whether the password then matches it, are both functions of the
/// two arguments alone. The cost parameters the check runs with are
/// read from the encoded hash itself, so only hashes this system
/// issued should reach it.
#[verifier::external_body]
fn verify_password(hash: &str, password: &str) -> (r: Option<bool>)
    ensures
        r is Some <==> argon_answers(hash@, password@),
        r matches Some(b) ==> b == argon_verifies(hash@, password@),
{
    match argon2::verify_encoded(hash, password.as_bytes()) {
        Ok(b) => Some(b),
        Err(_) => None,
    }
}

/// The position of the first user stored under the identifier, or -1.
pub open spec fn user_index(s: Seq<UserV>, oid: ObjectId) -> int
    decreases s.len(),
{
    if s.len() == 0 {
        -1
    } else if s[0].id == Some(oid) {
        0
    } else {
        let r = user_index(s.drop_first(), oid);
        if r < 0 {
            -1
        } else {
            r + 1
        }
    }
}

pub proof fn lemma_user_index_props(s: Seq<UserV>, oid: ObjectId)
    ensures
        user_index(s, oid) < s.len(),
        user_index(s, oid) >= 0 ==> s[user_index(s, oid)].id == Some(oid),
    decreases s.len(),
{
    if s.len() > 0 && s[0].id != Some(oid) {
        lemma_user_index_props(s.drop_first(), oid);
    }
}

pub proof fn lemma_user_index_first(s: Seq<UserV>, oid: ObjectId, i: int)
    requires
        0 <= i < s.len(),
        s[i].id == Some(oid),
        forall|j: int| 0 <= j < i ==> s[j].id != Some(oid),
    ensures
        user_index(s, oid) == i,
    decreases s.len(),
{
    if i > 0 {
        let t = s.drop_first();
        assert(t[i - 1].id == Some(oid));
        assert(forall|j: int| 0 <= j < i - 1 ==> t[j].id != Some(oid));
        lemma_user_index_first(t, oid, i - 1);
    }
}

pub proof fn lemma_user_index_none(s: Seq<UserV>, oid: ObjectId)
    requires
        forall|j: int| 0 <= j < s.len() ==> s[j].id != Some(oid),
    ensures
        user_index(s, oid) < 0,
    decreases s.len(),
{
    if s.len() > 0 {
        lemma_user_index_none(s.drop_first(), oid);
    }
}

/// Finds the first user stored under the identifier.
fn find_user_index(users: &Vec<User>, oid: ObjectId) -> (r: Option<usize>)
    ensures
        ({
            let i = user_index(users.deep_view(), oid);
            &&& (r matches Some(k) ==> i == k && k < users@.len())
            &&& (r is None ==> i < 0)
        }),
{
    let mut k: usize = 0;
    while k < users.len()
        invariant
            0 <= k <= users@.len(),
            forall|j: int| 0 <= j < k ==> users.deep_view()[j].id != Some(oid),
        decreases users@.len() - k,
    {
        let matched = match &users[k].id {
            Some(o) => *o == oid,
            None => false,
        };
        if matched {
            proof {
                lemma_user_index_first(users.deep_view(), oid, k as int);
            }
            return Some(k);
        }
        k = k + 1;
    }
    proof {
        lemma_user_index_none(users.deep_view(), oid);
    }
    None
}

/// What the authorization gate decides for an acting user identifier
/// and a required role.
pub open spec fn spec_check_role(users: Seq<UserV>, actor_id: Seq<char>, required: Role) -> Result<
    (),
    RepoError,
> {
    if !valid_oid_chars(actor_id) {
        Err(RepoError::InvalidIdentifier)
    } else {
        let i = user_index(users, ObjectId::spec_from_value(hex_seq_val(actor_id) as u128));
        if i < 0 {
            Err(RepoError::NotFound)
        } else if !Role::spec_of_opt(users[i].role).spec_allows(required) {
            Err(RepoError::AccessDenied)
        } else {
            Ok(())
        }
    }
}

/// The authorization gate: resolves the acting user and compares the
/// effective role against the required one.
pub fn check_role(actor_id: &str, required: Role, store: &Store) -> (r: Result<(), RepoError>)
    ensures
        r == spec_check_role(store.users.deep_view(), actor_id@, required),
{
    let oid = match ObjectId::parse(actor_id) {
        Ok(o) => o,
        Err(e) => {
            return Err(e);
        },
    };
    let idx = match find_user_index(&store.users, oid) {
        Some(i) => i,
        None => {
            proof {
                lemma_user_index_props(store.users.deep_view(), oid);
            }
            return Err(RepoError::NotFound);
        },
    };
    let role = Role::of_opt(&store.users[idx].role);
    if role.allows(required) {
        Ok(())
    } else {
        Err(RepoError::AccessDenied)
    }
}

/// The position of the first user stored under the email, or -1.
pub open spec fn user_email_index(s: Seq<UserV>, email: Seq<char>) -> int
    decreases s.len(),
{
    if s.len() == 0 {
        -1
    } else if s[0].email == email {
        0
    } else {
        let r = user_email_index(s.drop_first(), email);
        if r < 0 {
            -1
        } else {
            r + 1
        }
    }
}


proof fn lemma_user_email_index_first(s: Seq<UserV>, email: Seq<char>, i: int)
    requires
        0 <= i < s.len(),
        s[i].email == email,
        forall|j: int| 0 <= j < i ==> s[j].email != email,
    ensures
        user_email_index(s, email) == i,
    decreases s.len(),
{
    if i > 0 {
        let t = s.drop_first();
        assert(t[i - 1].email == email);
        assert(forall|j: int| 0 <= j < i - 1 ==> t[j].email != email);
        lemma_user_email_index_first(t, email, i - 1);
    }
}

proof fn lemma_user_email_index_none(s: Seq<UserV>, email: Seq<char>)
    requires
        forall|j: int| 0 <= j < s.len() ==> s[j].email != email,
    ensures
        user_email_index(s, email) < 0,
    decreases s.len(),
{
    if s.len() > 0 {
        lemma_user_email_index_none(s.drop_first(), email);
    }
}

/// Finds the first user stored under the email.
fn find_user_email_index(users: &Vec<User>, email: &String) -> (r: Option<usize>)
    ensures
        ({
            let i = user_email_index(users.deep_view(), email@);
            &&& (r matches Some(k) ==> i == k && k < users@.len())
            &&& (r is None ==> i < 0)
        }),
{
    let mut k: usize = 0;
    while k < users.len()
        invariant
            0 <= k <= users@.len(),
            forall|j: int| 0 <= j < k ==> (#[trigger] users.deep_view()[j]).email != email@,
        decreases users@.len() - k,
    {
        if users[k].email == *email {
            proof {
                lemma_user_email_index_first(users.deep_view(), email@, k as int);
            }
            return Some(k);
        }
        k = k + 1;
    }
    proof {
        lemma_user_email_index_none(users.deep_view(), email@);
    }
    None
}

/// Whether some stored user already holds the email or the username.
pub open spec fn spec_user_taken(users: Seq<UserV>, email: Seq<char>, username: Seq<char>) -> bool {
    exists|i: int|
        0 <= i < users.len() && ((#[trigger] users[i]).email == email || users[i].username
            == username)
}

fn user_taken(users: &Vec<User>, email: &String, username: &String) -> (r: bool)
    ensures
        r == spec_user_taken(users.deep_view(), email@, username@),
{
    let mut k: usize = 0;
    while k < users.len()
        invariant
            0 <= k <= users@.len(),
            forall|j: int| 0 <= j < k ==> !((#[trigger] users.deep_view()[j]).email == email@
                || users.deep_view()[j].username == username@),
        decreases users@.len() - k,
    {
        if users[k].email == *email || users[k].username == *username {
            proof {
                let us = users.deep_view();
                assert(0 <= k < us.len() && (us[k as int].email == email@ || us[k as int].username
                    == username@));
            }
            return true;
        }
        k = k + 1;
    }
    false
}

/// The fixed registration email pattern.
pub open spec fn spec_email_pattern() -> Seq<char> {
    r".+@[a-zA-Z0-9]+\.([a-zA-Z]{2,3}|[0-9]{1,3})"@
}

/// A well-formed registration email: the fixed pattern accepts it.
pub open spec fn spec_email_ok(email: Seq<char>) -> bool {
    re_compiles(spec_email_pattern()) && re_match(spec_email_pattern(), email)
}

fn email_pattern() -> (r: &'static str)
    ensures
        r@ == spec_email_pattern(),
{
    r".+@[a-zA-Z0-9]+\.([a-zA-Z]{2,3}|[0-9]{1,3})"
}

/// The username search pattern: the search string applied
/// case-insensitively.
pub open spec fn spec_search_pattern(search: Seq<char>) -> Seq<char> {
    "(?i)"@ + search
}

/// The profiles of the users whose username matches the search.
pub open spec fn spec_user_search(users: Seq<UserV>, search: Seq<char>) -> Seq<UserProfileV> {
    users.filter(|u: UserV| re_match(spec_search_pattern(search), u.username)).map_values(
        |u: UserV| profile_of(u),
    )
}

/// The shared contract of the two role-change operations: a malformed
/// target is rejected, a failed gate is surfaced unchanged, and an
/// authorized change edits exactly the matching target.
pub open spec fn change_role_contract(
    users: Seq<UserV>,
    users2: Seq<UserV>,
    target: Seq<char>,
    actor: Seq<char>,
    from: Role,
    to: Role,
    r: Result<(), RepoError>,
) -> bool {
    if !valid_oid_chars(target) {
        r == Err::<(), RepoError>(RepoError::InvalidIdentifier) && users2 == users
    } else {
        let gate = spec_check_role(users, actor, Role::Superadmin);
        if gate is Err {
            r == Err::<(), RepoError>(gate->Err_0) && users2 == users
        } else {
            r == Ok::<(), RepoError>(()) && users2 == spec_change_role(users, target, from, to)
        }
    }
}

/// What an authorized role change does to the collection: a target
/// currently holding exactly `from` gets `to`; any other target, or a
/// missing one, leaves the collection untouched.
pub open spec fn spec_change_role(
    users: Seq<UserV>,
    target: Seq<char>,
    from: Role,
    to: Role,
) -> Seq<UserV>
    recommends
        valid_oid_chars(target),
{
    let i = user_index(users, ObjectId::spec_from_value(hex_seq_val(target) as u128));
    if i >= 0 && users[i].role == Some(from) {
        users.update(i, UserV { role: Some(to), ..users[i] })
    } else {
        users
    }
}

fn change_role(user_id: &str, admin_id: &str, store: &mut Store, from: Role, to: Role) -> (r:
    Result<(), RepoError>)
    requires
        old(store).wf(),
    ensures
        final(store).wf(),
        final(store).events == old(store).events,
        final(store).trips == old(store).trips,
        final(store).next_id == old(store).next_id,
        change_role_contract(
            old(store).users.deep_view(),
            final(store).users.deep_view(),
            user_id@,
            admin_id@,
            from,
            to,
            r,
        ),
{
    let user_oid = match ObjectId::parse(user_id) {
        Ok(o) => o,
        Err(e) => {
            return Err(e);
        },
    };
    match check_role(admin_id, Role::Superadmin, store) {
        Ok(_) => {},
        Err(e) => {
            return Err(e);
        },
    }
    let idx = match find_user_index(&store.users, user_oid) {
        Some(i) => i,
        None => {
            return Ok(());
        },
    };
    let is_from = match &store.users[idx].role {
        Some(x) => *x == from,
        None => false,
    };
    if is_from {
        let ghost users = store.users.deep_view();
        let base = &store.users[idx];
        let updated = User {
            id: base.id,
            name: base.name.clone(),
            username: base.username.clone(),
            password: base.password.clone(),
            role: Some(to),
            email: base.email.clone(),
        };
        store.users[idx] = updated;
        proof {
            assert(store.users.deep_view() =~= users.update(
                idx as int,
                UserV { role: Some(to), ..users[idx as int] },
            ));
            lemma_users_keyed_update(
                users,
                store.next_id,
                idx as int,
                UserV { role: Some(to), ..users[idx as int] },
            );
        }
    }
    Ok(())
}

proof fn lemma_user_search_push(users: Seq<UserV>, search: Seq<char>, u: UserV)
    ensures
        spec_user_search(users.push(u), search) == if re_match(
            spec_search_pattern(search),
            u.username,
        ) {
            spec_user_search(users, search).push(profile_of(u))
        } else {
            spec_user_search(users, search)
        },
{
    reveal(Seq::filter);
    let t = users.push(u);
    assert(t.drop_last() =~= users);
    assert(t.last() == u);
    if re_match(spec_search_pattern(search), u.username) {
        assert(spec_user_search(t, search) =~= spec_user_search(users, search).push(
            profile_of(u),
        ));
    } else {
        assert(spec_user_search(t, search) =~= spec_user_search(users, search));
    }
}

fn profile_of_exec(u: &User) -> (r: UserProfile)
    requires
        u.id is Some,
    ensures
        r@ == profile_of(u@),
{
    let id = match &u.id {
        Some(o) => *o,
        None => ObjectId::from_u64(0),
    };
    UserProfile {
        id,
        name: u.name.clone(),
        username: u.username.clone(),
        role: Role::of_opt(&u.role),
        email: u.email.clone(),
    }
}

impl User {
    /// Registration validation: accepts exactly the users whose email
    /// the fixed pattern accepts and whose email and username are still
    /// free; everything else is a `ValidationFailure`.
    pub fn validate(user_to_validate: User, store: &Store) -> (r: Result<User, RepoError>)
        ensures
            ({
                let users = store.users.deep_view();
                let ok = spec_email_ok(user_to_validate@.email) && !spec_user_taken(
                    users,
                    user_to_validate@.email,
                    user_to_validate@.username,
                );
                &&& r is Ok <==> ok
                &&& (r matches Ok(u) ==> u@ == user_to_validate@)
                &&& (r is Err ==> r == Err::<User, RepoError>(RepoError::ValidationFailure))
            }),
    {
        let valid = match crate::text::regex_match(
            email_pattern(),
            user_to_validate.email.as_str(),
        ) {
            Some(b) => b,
            None => false,
        };
        if !valid {
            return Err(RepoError::ValidationFailure);
        }
        if user_taken(&store.users, &user_to_validate.email, &user_to_validate.username) {
            return Err(RepoError::ValidationFailure);
        }
        Ok(user_to_validate)
    }

    /// Login lookup: finds the account by email, then asks the hash
    /// check to accept the presented password. Success is owed exactly
    /// when the account exists and its stored hash answers and accepts
    /// the password; a missing account is `NotFound` and a rejected
    /// password (or an undecodable hash) is `AccessDenied`.
    pub fn find_user(user_to_find: UserLogin, store: &Store) -> (r: Result<User, RepoError>)
        ensures
            ({
                let users = store.users.deep_view();
                let i = user_email_index(users, user_to_find.email@);
                &&& (i < 0 <==> r == Err::<User, RepoError>(RepoError::NotFound))
                &&& (r is Ok <==> i >= 0 && argon_answers(
                    users[i].password,
                    user_to_find.password@,
                ) && argon_verifies(users[i].password, user_to_find.password@))
                &&& (r matches Ok(u) ==> u@ == users[i])
                &&& (i >= 0 && !(argon_answers(users[i].password, user_to_find.password@)
                    && argon_verifies(users[i].password, user_to_find.password@)) ==> r == Err::<
                    User,
                    RepoError,
                >(RepoError::AccessDenied))
            }),
    {
        let idx = match find_user_email_index(&store.users, &user_to_find.email) {
            Some(i) => i,
            None => {
                return Err(RepoError::NotFound);
            },
        };
        let found = &store.users[idx];
        let accepted = match verify_password(found.password.as_str(), user_to_find.password.as_str()) {
            Some(b) => b,
            None => false,
        };
        if accepted {
            Ok(found.clone())
        } else {
            Err(RepoError::AccessDenied)
        }
    }

    /// Role promotion: only a superadmin actor may turn an ordinary
    /// user into an admin; any other target is left unchanged.
    pub fn promote_user(user_id: &str, admin_id: &str, store: &mut Store) -> (r: Result<
        (),
        RepoError,
    >)
        requires
            old(store).wf(),
        ensures
            final(store).wf(),
            final(store).events == old(store).events,
            final(store).trips == old(store).trips,
            final(store).next_id == old(store).next_id,
            change_role_contract(
                old(store).users.deep_view(),
                final(store).users.deep_view(),
                user_id@,
                admin_id@,
                Role::User,
                Role::Admin,
                r,
            ),
    {
        change_role(user_id, admin_id, store, Role::User, Role::Admin)
    }

    /// Role demotion: only a superadmin actor may turn an admin back
    /// into an ordinary user; any other target is left unchanged.
    pub fn demote_user(user_id: &str, admin_id: &str, store: &mut Store) -> (r: Result<
        (),
        RepoError,
    >)
        requires
            old(store).wf(),
        ensures
            final(store).wf(),
            final(store).events == old(store).events,
            final(store).trips == old(store).trips,
            final(store).next_id == old(store).next_id,
            change_role_contract(
                old(store).users.deep_view(),
                final(store).users.deep_view(),
                user_id@,
                admin_id@,
                Role::Admin,
                Role::User,
                r,
            ),
    {
        change_role(user_id, admin_id, store, Role::Admin, Role::User)
    }

    /// Superadmin user search: the profiles of the users whose
    /// username matches the search string, case-insensitively. A
    /// search string the regex engine refuses surfaces as a store
    /// failure, as a refused query does.
    pub fn get_all_like_user(search_str: &str, admin_id: &str, store: &Store) -> (r: Result<
        Vec<UserProfile>,
        RepoError,
    >)
        requires
            store.wf(),
        ensures
            ({
                let users = store.users.deep_view();
                let gate = spec_check_role(users, admin_id@, Role::Superadmin);
                &&& (gate matches Err(e) ==> r == Err::<Vec<UserProfile>, RepoError>(e))
                &&& (gate is Ok ==> {
                    if re_compiles(spec_search_pattern(search_str@)) {
                        r matches Ok(v) && v.deep_view() == spec_user_search(users, search_str@)
                    } else {
                        r == Err::<Vec<UserProfile>, RepoError>(RepoError::PersistenceFailure)
                    }
                })
            }),
    {
        match check_role(admin_id, Role::Superadmin, store) {
            Ok(_) => {},
            Err(e) => {
                return Err(e);
            },
        }
        let pattern = String::from_str("(?i)").concat(search_str);
        match crate::text::regex_match(pattern.as_str(), "") {
            Some(_) => {},
            None => {
                return Err(RepoError::PersistenceFailure);
            },
        }
        let mut out: Vec<UserProfile> = Vec::new();
        let mut i: usize = 0;
        proof {
            assert(store.users.deep_view().subrange(0, 0) =~= Seq::<UserV>::empty());
            reveal(Seq::filter);
            assert(out.deep_view() =~= spec_user_search(
                store.users.deep_view().subrange(0, 0),
                search_str@,
            ));
        }
        while i < store.users.len()
            invariant
                store.wf(),
                0 <= i <= store.users@.len(),
                pattern@ == spec_search_pattern(search_str@),
                re_compiles(spec_search_pattern(search_str@)),
                out.deep_view() == spec_user_search(
                    store.users.deep_view().subrange(0, i as int),
                    search_str@,
                ),
            decreases store.users@.len() - i,
        {
            let user = &store.users[i];
            let matched = match crate::text::regex_match(pattern.as_str(), user.username.as_str()) {
                Some(b) => b,
                None => {
                    proof {
                        assert(false);
                    }
                    false
                },
            };
            let ghost users = store.users.deep_view();
            let ghost pre = users.subrange(0, i as int);
            proof {
                assert(key_ok(users[i as int].id, store.next_id));
                assert(users.subrange(0, i + 1) =~= pre.push(users[i as int]));
                lemma_user_search_push(pre, search_str@, users[i as int]);
            }
            if matched {
                let p = profile_of_exec(user);
                let ghost out_pre = out.deep_view();
                out.push(p);
                proof {
                    assert(out.deep_view() =~= out_pre.push(p@));
                }
            }
            i = i + 1;
        }
        proof {
            assert(store.users.deep_view().subrange(0, store.users@.len() as int)
                =~= store.users.deep_view());
        }
        Ok(out)
    }

    /// Persists a new account; the stored record carries the fresh
    /// identifier and the ordinary-user role.
    pub fn insert(user: User, store: &mut Store) -> (r: Result<ObjectId, RepoError>)
        requires
            old(store).wf(),
        ensures
            final(store).wf(),
            final(store).events == old(store).events,
            final(store).trips == old(store).trips,
            old(store).next_id == u64::MAX ==> r == Err::<ObjectId, RepoError>(
                RepoError::PersistenceFailure,
            ) && *final(store) == *old(store),
            old(store).next_id < u64::MAX ==> ({
                let id = ObjectId::spec_from_value(old(store).next_id as u128);
                &&& r == Ok::<ObjectId, RepoError>(id)
                &&& final(store).users.deep_view() == old(store).users.deep_view().push(
                    UserV { id: Some(id), role: Some(Role::User), ..user@ },
                )
                &&& final(store).next_id == old(store).next_id + 1
            }),
    {
        let id = match store.fresh_id() {
            Ok(i) => i,
            Err(_) => {
                return Err(RepoError::PersistenceFailure);
            },
        };
        let mut user = user;
        let ghost u0 = user@;
        user.id = Some(id);
        user.role = Some(Role::User);
        let ghost users_before = old(store).users.deep_view();
        store.users.push(user);
        proof {
            assert(store.users.deep_view() =~= users_before.push(
                UserV { id: Some(id), role: Some(Role::User), ..u0 },
            ));
            lemma_users_keyed_push(
                users_before,
                old(store).next_id,
                store.next_id,
                store.users.deep_view().last(),
            );
            lemma_events_keyed_mono(
                store.events.deep_view(),
                old(store).next_id,
                store.next_id,
            );
            lemma_trips_keyed_mono(store.trips.deep_view(), old(store).next_id, store.next_id);
        }
        Ok(id)
    }
}

} // verus!
