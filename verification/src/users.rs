//! Accounts: registering users, changing passwords, API keys, and the scopes of users.

use crate::action::Action;
use crate::codes::Code;
use crate::database::{owned, DbConn, DbModel};
use crate::error::{MetadataFault, StorageError};
use crate::response::{error_reply, Body, BodyModel, Response, ResponseModel};
use crate::rows::{opt_text, ScopeModel, UserModel};
use crate::shared::{AuthClient, RegisterUserRequest, RepoScope, User, UserResponse};
use crate::text::{chars_of, str_eq, string_of};
use crate::uploads::{fresh_uuid, uuid_text};
use crate::util::{
    bcrypt_accepts, bcrypt_hash, now_millis, registration_valid, validate_registration,
};
use vstd::prelude::*;

verus! {

/// The time in milliseconds as a signed number, held at the largest when it does not fit.
pub fn stamp(now: u64) -> (out: i64)
    ensures
        out == (if now <= i64::MAX as u64 {
            now as i64
        } else {
            i64::MAX
        }),
{
    if now <= i64::MAX as u64 {
        now as i64
    } else {
        i64::MAX
    }
}

/// The answer to a registration and the store after it, once identifier and password hash
/// are at hand: 201 and a new user for a valid registration with an address that is free,
/// else 400 and no change.
pub open spec fn registered(db: DbModel, req: RegisterUserRequest, id: Seq<char>, hash: Seq<char>, created_at: i64) -> (
    ResponseModel,
    DbModel,
) {
    if !registration_valid(req.email@, req.password@, req.confirm_password@) {
        (
            ResponseModel {
                status: 400,
                headers: Seq::empty(),
                body: BodyModel::Text(crate::util::invalid_registration_text()),
            },
            db,
        )
    } else if db.user_by_email(req.email@).is_some() {
        (
            ResponseModel {
                status: 400,
                headers: Seq::empty(),
                body: BodyModel::Text("email already registered"@),
            },
            db,
        )
    } else {
        (
            ResponseModel { status: 201, headers: Seq::empty(), body: BodyModel::Empty },
            db.with_user(
                UserModel {
                    id,
                    email: req.email@,
                    password: hash,
                    is_admin: req.is_admin,
                    created_at,
                },
            ),
        )
    }
}

/// Registers a user with the identifier `id` and the password hash `hash`.
pub fn register_with(conn: &mut DbConn, req: &RegisterUserRequest, id: &str, hash: &str, created_at: i64) -> (out: Response)
    ensures
        (out@, final(conn)@) == registered(old(conn)@, *req, id@, hash@, created_at),
{
    match validate_registration(req.email.as_str(), req.password.as_str(), req.confirm_password.as_str()) {
        Ok(_) => {},
        Err(e) => {
            return Response::new(400, Body::Text(e));
        },
    }
    match conn.insert_user(id, req.email.as_str(), hash, req.is_admin, created_at) {
        Ok(_) => Response::new(201, Body::Empty),
        Err(_) => Response::text(400, "email already registered"),
    }
}

/// Registers a user: the password is hashed and the user gets a fresh identifier. Whatever
/// hash and identifier come out, the answer is 201 exactly for a valid registration with a
/// free address when the password could be hashed; then the store holds the new user with
/// a hash that accepts the password, so that the user can log in with it. Otherwise nothing
/// changes.
pub fn register_user(conn: &mut DbConn, req: &RegisterUserRequest) -> (out: Response)
    ensures
        out@.status == 201 ==> registration_valid(req.email@, req.password@, req.confirm_password@)
            && old(conn)@.user_by_email(req.email@).is_none() && exists|u: UserModel|
            #[trigger] old(conn)@.with_user(u) == final(conn)@ && u.email == req.email@ && u.is_admin
                == req.is_admin && bcrypt_accepts(req.password@, u.password),
        out@.status == 201 ==> crate::util::login_accepted(final(conn)@.users, req.email@, req.password@),
        out@.status != 201 ==> final(conn)@ == old(conn)@,
        out@.status == 201 || out@.status == 400 || out@.status == 500,
        out@.status == 400 <==> !(registration_valid(req.email@, req.password@, req.confirm_password@)
            && old(conn)@.user_by_email(req.email@).is_none()),
{
    let valid = validate_registration(req.email.as_str(), req.password.as_str(), req.confirm_password.as_str()).is_ok();
    if valid && conn.find_user(req.email.as_str()).is_none() {
        let hash = match bcrypt_hash(req.password.as_str()) {
            Some(h) => h,
            None => {
                return Response::text(500, "unable to hash password");
            },
        };
        let id = fresh_uuid();
        let created_at = stamp(now_millis());
        let ghost u = UserModel {
            id: id@,
            email: req.email@,
            password: hash@,
            is_admin: req.is_admin,
            created_at,
        };
        let response = register_with(conn, req, id.as_str(), hash.as_str(), created_at);
        assert(old(conn)@.with_user(u) == conn@);
        proof {
            crate::table::lemma_first_where(old(conn)@.users, crate::accounts::user_with_email(req.email@));
            crate::laws::lemma_first_where_push(
                old(conn)@.users,
                u,
                crate::accounts::user_with_email(req.email@),
            );
        }
        response
    } else {
        register_with(conn, req, "", "", 0)
    }
}

/// The answer to a change of password and the store after it, once the new hash is at
/// hand: 200 for a valid request for a known user, 400 for an invalid one, 404 for an
/// unknown user.
pub open spec fn password_changed(db: DbModel, req: RegisterUserRequest, hash: Seq<char>) -> (ResponseModel, DbModel) {
    if !registration_valid(req.email@, req.password@, req.confirm_password@) {
        (
            ResponseModel {
                status: 400,
                headers: Seq::empty(),
                body: BodyModel::Text(crate::util::invalid_registration_text()),
            },
            db,
        )
    } else if db.user_by_email(req.email@).is_none() {
        (ResponseModel { status: 404, headers: Seq::empty(), body: BodyModel::Text("user not found"@) }, db)
    } else {
        (
            ResponseModel { status: 200, headers: Seq::empty(), body: BodyModel::Text(Seq::empty()) },
            db.with_password(req.email@, hash),
        )
    }
}

/// Changes the password of a user to the hash `hash`.
pub fn change_password_with(conn: &mut DbConn, req: &RegisterUserRequest, hash: &str) -> (out: Response)
    ensures
        (out@, final(conn)@) == password_changed(old(conn)@, *req, hash@),
{
    match validate_registration(req.email.as_str(), req.password.as_str(), req.confirm_password.as_str()) {
        Ok(_) => {},
        Err(e) => {
            return Response::new(400, Body::Text(e));
        },
    }
    if conn.find_user(req.email.as_str()).is_none() {
        return Response::text(404, "user not found");
    }
    conn.set_password(req.email.as_str(), hash);
    proof {
        reveal_strlit("");
        assert(""@ =~= Seq::<char>::empty());
    }
    Response::text(200, "")
}

/// The answer when the password could not be hashed: 500.
pub open spec fn hash_failed_reply() -> ResponseModel {
    ResponseModel { status: 500, headers: Seq::empty(), body: BodyModel::Text("unable to hash password"@) }
}

/// Changes the password of a user. An invalid request is answered 400 and a request for an
/// unknown user 404, and nothing changes. For a valid request for a known user the password
/// is hashed: whatever hash comes out, the answer is 200 and the user has that hash, which
/// accepts the new password; where no hash could be made, the answer is 500 and nothing
/// changes.
pub fn change_password(conn: &mut DbConn, req: &RegisterUserRequest) -> (out: Response)
    ensures
        !(registration_valid(req.email@, req.password@, req.confirm_password@) && old(conn)@.user_by_email(
            req.email@,
        ).is_some()) ==> (out@, final(conn)@) == password_changed(old(conn)@, *req, Seq::empty()),
        registration_valid(req.email@, req.password@, req.confirm_password@) && old(conn)@.user_by_email(
            req.email@,
        ).is_some() ==> (out@ == hash_failed_reply() && final(conn)@ == old(conn)@) || (exists|h: Seq<char>|
            #[trigger] password_changed(old(conn)@, *req, h) == (out@, final(conn)@) && bcrypt_accepts(
                req.password@,
                h,
            )),
        out@.status == 200 ==> registration_valid(req.email@, req.password@, req.confirm_password@)
            && old(conn)@.user_by_email(req.email@).is_some() && exists|h: Seq<char>|
            #[trigger] old(conn)@.with_password(req.email@, h) == final(conn)@ && bcrypt_accepts(
                req.password@,
                h,
            ),
        out@.status != 200 ==> final(conn)@ == old(conn)@,
{
    let valid = validate_registration(req.email.as_str(), req.password.as_str(), req.confirm_password.as_str()).is_ok();
    if valid && conn.find_user(req.email.as_str()).is_some() {
        let hash = match bcrypt_hash(req.password.as_str()) {
            Some(h) => h,
            None => {
                return Response::text(500, "unable to hash password");
            },
        };
        let response = change_password_with(conn, req, hash.as_str());
        assert(old(conn)@.with_password(req.email@, hash@) == conn@);
        assert(password_changed(old(conn)@, *req, hash@) == (response@, conn@));
        response
    } else {
        proof {
            reveal_strlit("");
            assert(""@ =~= Seq::<char>::empty());
        }
        change_password_with(conn, req, "")
    }
}

/// Adds an API key with the secret `secret` for the user with the address `email`; the
/// client identifier is `client_id`. The secret is handed back. Without that user, or in a
/// store that has used up its identifiers, the key is refused and nothing changes.
pub fn add_secret(conn: &mut DbConn, client_id: &str, secret: &str, email: &str, created_at: i64) -> (out: Result<
    String,
    StorageError,
>)
    ensures
        match out {
            Ok(s) => old(conn)@.client_error(email@).is_none() && s@ == secret@ && final(conn)@ == old(
                conn,
            )@.with_client(client_id@, secret@, old(conn)@.user_by_email(email@).unwrap().id, created_at),
            Err(e) => old(conn)@.client_error(email@) == Some(e) && final(conn)@ == old(conn)@,
        },
{
    match conn.insert_client(client_id, secret, email, created_at) {
        Ok(_) => Ok(owned(secret)),
        Err(e) => Err(e),
    }
}

/// Whether `after` is `before` with one more API key of the user with the address `email`:
/// the key has the secret `secret`, which has the form of a UUID, and was made at a time
/// that is not negative.
pub open spec fn key_added(before: DbModel, email: Seq<char>, secret: Seq<char>, after: DbModel) -> bool {
    &&& before.client_error(email).is_none()
    &&& after.clients.len() > 0
    &&& after == before.with_client(
        after.clients.last().client_id,
        secret,
        before.user_by_email(email).unwrap().id,
        after.clients.last().created_at,
    )
    &&& uuid_text(secret)
    &&& after.clients.last().created_at >= 0
}

/// Makes a new API key for the user with the address `email` and returns its secret, a
/// fresh UUID; the client identifier is `client_id` or, without one, another fresh UUID.
/// The key is made exactly when `email` is the address of a user and the store has an
/// identifier left; else nothing changes.
pub fn generate_secret(conn: &mut DbConn, client_id: Option<String>, email: &str) -> (out: Result<
    String,
    StorageError,
>)
    ensures
        match out {
            Ok(s) => key_added(old(conn)@, email@, s@, final(conn)@) && (match client_id {
                Some(id) => final(conn)@.clients.last().client_id == id@,
                None => uuid_text(final(conn)@.clients.last().client_id),
            }),
            Err(e) => old(conn)@.client_error(email@) == Some(e) && final(conn)@ == old(conn)@,
        },
{
    let secret = fresh_uuid();
    let id = match client_id {
        Some(id) => id,
        None => fresh_uuid(),
    };
    add_secret(conn, id.as_str(), secret.as_str(), email, stamp(now_millis()))
}

/// The address of the first administrator: `email` or, without one, `floundr_admin`.
pub open spec fn seed_email(email: Option<String>) -> Seq<char> {
    match email {
        Some(e) => e@,
        None => "floundr_admin"@,
    }
}

/// The password of the first administrator: `psw` or, without one, `admin`.
pub open spec fn seed_password(psw: Option<String>) -> Seq<char> {
    match psw {
        Some(p) => p@,
        None => "admin"@,
    }
}

/// What adding an administrator comes to once identifier and password hash are at hand:
/// without a hash it is refused as `InvalidInput`, with an address that is taken as
/// `Duplicate`; else the store has the administrator.
pub open spec fn seeded_with(
    db: DbModel,
    email: Seq<char>,
    hash: Option<Seq<char>>,
    id: Seq<char>,
    created_at: i64,
) -> (Result<(), StorageError>, DbModel) {
    match hash {
        None => (Err(StorageError::InvalidInput), db),
        Some(h) => if db.user_by_email(email).is_some() {
            (Err(StorageError::MetadataError(MetadataFault::Duplicate)), db)
        } else {
            (Ok(()), db.with_user(UserModel { id, email, password: h, is_admin: true, created_at }))
        },
    }
}

/// Adds the administrator with the address `email`, the identifier `id` and the password
/// hash `hash`, if there is one.
pub fn seed_user_with(conn: &mut DbConn, email: &str, hash: Option<String>, id: &str, created_at: i64) -> (out: Result<
    (),
    StorageError,
>)
    ensures
        (out, final(conn)@) == seeded_with(old(conn)@, email@, opt_text(hash), id@, created_at),
{
    match hash {
        Some(h) => conn.insert_user(id, email, h.as_str(), true, created_at),
        None => Err(StorageError::InvalidInput),
    }
}

/// Whether `out` and `after` are what adding the first administrator to `before` can come
/// to. On success `after` is `before` with one more user: an administrator with the address
/// `email`, which was free, a hash that accepts `psw`, an identifier in the form of a UUID
/// and a time that is not negative. A failure changes nothing: it is `Duplicate` for an
/// address that is taken, or `InvalidInput` where no hash could be made.
pub open spec fn seeded(
    before: DbModel,
    email: Seq<char>,
    psw: Seq<char>,
    out: Result<(), StorageError>,
    after: DbModel,
) -> bool {
    match out {
        Ok(_) => {
            &&& before.user_by_email(email).is_none()
            &&& after.users.len() > 0
            &&& after == before.with_user(after.users.last())
            &&& after.users.last().email == email
            &&& after.users.last().is_admin
            &&& bcrypt_accepts(psw, after.users.last().password)
            &&& uuid_text(after.users.last().id)
            &&& after.users.last().created_at >= 0
        },
        Err(e) => {
            &&& after == before
            &&& e == StorageError::InvalidInput || (e == StorageError::MetadataError(MetadataFault::Duplicate)
                && before.user_by_email(email).is_some())
        },
    }
}

/// Adds the first administrator: `email`, by default `floundr_admin`, with the password
/// `psw`, by default `admin`, which is hashed. Whatever hash and identifier come out, the
/// outcome is one that `seeded` describes.
pub fn seed_default_user(conn: &mut DbConn, email: Option<String>, psw: Option<String>) -> (out: Result<
    (),
    StorageError,
>)
    ensures
        seeded(old(conn)@, seed_email(email), seed_password(psw), out, final(conn)@),
{
    let email = match email {
        Some(e) => e,
        None => string_of(chars_of("floundr_admin").as_slice()),
    };
    let psw = match psw {
        Some(p) => p,
        None => string_of(chars_of("admin").as_slice()),
    };
    let hash = bcrypt_hash(psw.as_str());
    let id = fresh_uuid();
    let created_at = stamp(now_millis());
    let out = seed_user_with(conn, email.as_str(), hash, id.as_str(), created_at);
    proof {
        if out.is_ok() {
            let u = UserModel { id: id@, email: email@, password: hash.unwrap()@, is_admin: true, created_at };
            assert(conn@ == old(conn)@.with_user(u));
            assert(conn@.users.last() == u);
        }
    }
    out
}

/// The address of the administrator whose key the terminal client uses.
pub open spec fn client_owner() -> Seq<char> {
    "floundr_admin"@
}

/// Adds the API key of the terminal client, `floundr_tui`, for the administrator
/// `floundr_admin`, with a fresh UUID as secret. The key is added exactly when there is
/// that user and the store has an identifier left; else nothing changes.
pub fn seed_default_client(conn: &mut DbConn) -> (out: Result<(), StorageError>)
    ensures
        match out {
            Ok(_) => key_added(old(conn)@, client_owner(), final(conn)@.clients.last().secret, final(conn)@)
                && final(conn)@.clients.last().client_id == "floundr_tui"@,
            Err(e) => old(conn)@.client_error(client_owner()) == Some(e) && final(conn)@ == old(conn)@,
        },
{
    let secret = fresh_uuid();
    match add_secret(conn, "floundr_tui", secret.as_str(), "floundr_admin", stamp(now_millis())) {
        Ok(_) => Ok(()),
        Err(e) => Err(e),
    }
}

impl DbConn {
    /// Removes every row of every table.
    pub fn clear(&mut self)
        ensures
            final(self)@ == (DbModel { next_id: old(self)@.next_id, ..DbModel::empty() }),
    {
        self.repositories = Vec::new();
        self.blobs = Vec::new();
        self.uploads = Vec::new();
        self.manifests = Vec::new();
        self.manifest_layers = Vec::new();
        self.tags = Vec::new();
        self.users = Vec::new();
        self.clients = Vec::new();
        self.repository_scopes = Vec::new();
        proof {
            assert(self@.repositories =~= Seq::empty());
            assert(self@.blobs =~= Seq::empty());
            assert(self@.uploads =~= Seq::empty());
            assert(self@.manifests =~= Seq::empty());
            assert(self@.manifest_layers =~= Seq::empty());
            assert(self@.tags =~= Seq::empty());
            assert(self@.users =~= Seq::empty());
            assert(self@.clients =~= Seq::empty());
            assert(self@.repository_scopes =~= Seq::empty());
        }
    }
}

/// Empties every table.
pub fn drop_tables(conn: &mut DbConn) -> (out: Result<(), StorageError>)
    ensures
        out.is_ok(),
        final(conn)@ == (DbModel { next_id: old(conn)@.next_id, ..DbModel::empty() }),
{
    conn.clear();
    Ok(())
}

/// Makes sure that the store has a user: a store with a user stays as it is, and a store
/// without one gets the first administrator, as `seed_default_user` adds it.
pub fn migrate(conn: &mut DbConn, email: Option<String>, psw: Option<String>) -> (out: Result<(), StorageError>)
    ensures
        old(conn)@.users.len() > 0 ==> out.is_ok() && final(conn)@ == old(conn)@,
        old(conn)@.users.len() == 0 ==> seeded(old(conn)@, seed_email(email), seed_password(psw), out, final(conn)@),
{
    if conn.users.len() == 0 {
        seed_default_user(conn, email, psw)
    } else {
        Ok(())
    }
}

impl DbModel {
    /// The store without its rows; the next identifier stays.
    pub open spec fn emptied(self) -> DbModel {
        DbModel { next_id: self.next_id, ..DbModel::empty() }
    }
}

/// Empties the store and gives it the first administrator. The store is emptied whatever
/// follows; the administrator is then its only user. It fails only where no hash could be
/// made of the password, and then the store is left empty.
pub fn migrate_fresh(conn: &mut DbConn, email: Option<String>, psw: Option<String>) -> (out: Result<
    (),
    StorageError,
>)
    ensures
        seeded(old(conn)@.emptied(), seed_email(email), seed_password(psw), out, final(conn)@),
        out matches Err(e) ==> e == StorageError::InvalidInput && final(conn)@ == old(conn)@.emptied(),
        out.is_ok() ==> final(conn)@.users.len() == 1 && final(conn)@.users[0].is_admin
            && final(conn)@.repositories.len() == 0 && final(conn)@.blobs.len() == 0,
{
    conn.clear();
    let out = migrate(conn, email, psw);
    proof {
        assert(old(conn)@.emptied().user_by_email(seed_email(email)).is_none());
        if out.is_ok() {
            assert(conn@.users =~= seq![conn@.users.last()]);
        }
    }
    out
}

/// The names of the actions that flags grant, in the order push, pull, delete.
pub open spec fn flag_names(push: bool, pull: bool, del: bool) -> Seq<Seq<char>> {
    (if push {
        seq![crate::action::push_word()]
    } else {
        Seq::empty()
    }) + (if pull {
        seq![crate::action::pull_word()]
    } else {
        Seq::empty()
    }) + (if del {
        seq![crate::action::delete_word()]
    } else {
        Seq::empty()
    })
}

/// The names of the actions that a user holds on a repository: all three for an
/// administrator, else those of the flags of the user's scope row, none without a row.
pub open spec fn held_actions(db: DbModel, user: UserModel, repo: u64) -> Seq<Seq<char>> {
    if user.is_admin {
        seq![crate::action::pull_word(), crate::action::push_word(), crate::action::delete_word()]
    } else {
        match db.scope_row(user.id, repo) {
            Some(s) => flag_names(s.push, s.pull, s.del),
            None => Seq::empty(),
        }
    }
}

fn actions_held(conn: &DbConn, user: &crate::rows::UserRow, repo: u64) -> (out: Vec<String>)
    ensures
        crate::text::string_views(out@) == held_actions(conn@, user@, repo),
{
    let mut out: Vec<String> = Vec::new();
    let flags = if user.is_admin {
        Some((true, true, true))
    } else {
        conn.scope_flags(user.id.as_str(), repo)
    };
    proof {
        assert(crate::text::string_views(out@) =~= Seq::<Seq<char>>::empty());
    }
    match flags {
        Some((push, pull, del)) => {
            if user.is_admin {
                out.push(Action::Pull.to_string());
                out.push(Action::Push.to_string());
                out.push(Action::Delete.to_string());
                assert(crate::text::string_views(out@) =~= held_actions(conn@, user@, repo));
            } else {
                if push {
                    out.push(Action::Push.to_string());
                }
                if pull {
                    out.push(Action::Pull.to_string());
                }
                if del {
                    out.push(Action::Delete.to_string());
                }
                assert(crate::text::string_views(out@) =~= flag_names(push, pull, del));
            }
        },
        None => {},
    }
    out
}

/// Lists the users with what each holds on every repository: 200 and one entry for each
/// user.
pub fn get_users(conn: &DbConn) -> (out: Response)
    ensures
        out@ == (ResponseModel {
            status: 200,
            headers: Seq::empty(),
            body: BodyModel::Users(conn@.users.len()),
        }),
        out.body matches Body::Users(list) && forall|i: int|
            0 <= i < list@.len() ==> (#[trigger] list@[i]).user.email@ == conn@.users[i].email
                && list@[i].user.id@ == conn@.users[i].id && list@[i].user.is_admin
                == conn@.users[i].is_admin && list@[i].scopes@.len() == conn@.repositories.len(),
{
    let mut list: Vec<UserResponse> = Vec::new();
    let mut i: usize = 0;
    while i < conn.users.len()
        invariant
            i <= conn.users.len(),
            list@.len() == i,
            forall|k: int|
                0 <= k < i ==> (#[trigger] list@[k]).user.email@ == conn@.users[k].email
                    && list@[k].user.id@ == conn@.users[k].id && list@[k].user.is_admin
                    == conn@.users[k].is_admin && list@[k].scopes@.len() == conn@.repositories.len(),
        decreases conn.users.len() - i,
    {
        let user = &conn.users[i];
        assert(conn@.users[i as int] == user@);
        let mut scopes: Vec<RepoScope> = Vec::new();
        let mut j: usize = 0;
        while j < conn.repositories.len()
            invariant
                j <= conn.repositories.len(),
                scopes@.len() == j,
            decreases conn.repositories.len() - j,
        {
            let repo = &conn.repositories[j];
            scopes.push(RepoScope { repo: repo.name.clone(), scope: actions_held(conn, user, repo.id) });
            j += 1;
        }
        list.push(
            UserResponse {
                user: User {
                    id: user.id.clone(),
                    is_admin: user.is_admin,
                    email: user.email.clone(),
                    password: String::new(),
                    created_at: user.created_at,
                },
                scopes,
            },
        );
        i += 1;
    }
    Response::new(200, Body::Users(list))
}

/// Deletes the users with the address `email`: 204.
pub fn delete_user(email: &str, conn: &mut DbConn) -> (out: Response)
    ensures
        out@ == (ResponseModel { status: 204, headers: Seq::empty(), body: BodyModel::Empty }),
        final(conn)@ == old(conn)@.without_user(email@),
{
    conn.remove_user(email);
    Response::new(204, Body::Empty)
}

/// What a scope row grants after `scope` was added to it: `pull` sets pull, `push` sets
/// push and pull, `delete` sets all three; any other word changes nothing.
pub open spec fn flags_with(row: ScopeModel, scope: Seq<char>) -> ScopeModel {
    if scope == crate::action::push_word() {
        ScopeModel { push: true, pull: true, ..row }
    } else if scope == crate::action::pull_word() {
        ScopeModel { pull: true, ..row }
    } else if scope == crate::action::delete_word() {
        ScopeModel { push: true, pull: true, del: true, ..row }
    } else {
        row
    }
}

/// The store after the action `scope` was granted to the user with the address `email` on
/// the repository named `repo`; as it was when user or repository is unknown.
pub open spec fn scope_added(db: DbModel, email: Seq<char>, repo: Seq<char>, scope: Seq<char>) -> DbModel {
    match (db.user_by_email(email), db.repo_id(repo)) {
        (Some(u), Some(r)) => {
            let row = match db.scope_row(u.id, r) {
                Some(row) => row,
                None => ScopeModel { user_id: u.id, repository_id: r, push: false, pull: false, del: false },
            };
            db.with_scope(flags_with(row, scope))
        },
        _ => db,
    }
}

/// Grants the action `scope` to the user with the address `email` on the repository named
/// `repo`: 204, or 404 when user or repository is unknown.
pub fn add_scope(email: &str, repo: &str, scope: &str, conn: &mut DbConn) -> (out: Response)
    ensures
        final(conn)@ == scope_added(old(conn)@, email@, repo@, scope@),
        out@ == (if old(conn)@.user_by_email(email@).is_some() && old(conn)@.repo_id(repo@).is_some() {
            ResponseModel { status: 204, headers: Seq::empty(), body: BodyModel::Empty }
        } else {
            error_reply(404, Code::NameUnknown, "unknown user or repository"@)
        }),
{
    let user = match conn.find_user(email) {
        Some(i) => conn.users[i].id.clone(),
        None => {
            return Response::error(404, Code::NameUnknown, "unknown user or repository");
        },
    };
    let repo_id = match conn.repo_lookup(repo) {
        Some(found) => found.0,
        None => {
            return Response::error(404, Code::NameUnknown, "unknown user or repository");
        },
    };
    let (mut push, mut pull, mut del) = match conn.scope_flags(user.as_str(), repo_id) {
        Some(flags) => flags,
        None => (false, false, false),
    };
    proof {
        reveal_strlit("push");
        reveal_strlit("pull");
        reveal_strlit("delete");
        assert("push"@ =~= crate::action::push_word());
        assert("pull"@ =~= crate::action::pull_word());
        assert("delete"@ =~= crate::action::delete_word());
        crate::table::lemma_first_where(
            conn@.repository_scopes,
            crate::accounts::scope_of(user@, repo_id),
        );
        assert(crate::action::push_word() != crate::action::pull_word()) by {
            assert(crate::action::push_word()[2] != crate::action::pull_word()[2]);
        }
        assert(crate::action::push_word().len() != crate::action::delete_word().len());
    }
    if str_eq(scope, "push") {
        push = true;
        pull = true;
    } else if str_eq(scope, "pull") {
        pull = true;
    } else if str_eq(scope, "delete") {
        del = true;
        push = true;
        pull = true;
    }
    conn.set_scope(user.as_str(), repo_id, push, pull, del);
    Response::new(204, Body::Empty)
}

/// Makes a new API key for the user with the address `email`: 200 with the secret, a
/// fresh UUID, as token. Without that user, or in a store that has used up its
/// identifiers, it is 404 `NameUnknown` and nothing changes.
pub fn generate_token(email: &str, conn: &mut DbConn) -> (out: Response)
    ensures
        out@.status == 200 <==> old(conn)@.client_error(email@).is_none(),
        match old(conn)@.client_error(email@) {
            None => {
                &&& key_added(old(conn)@, email@, final(conn)@.clients.last().secret, final(conn)@)
                &&& uuid_text(final(conn)@.clients.last().client_id)
                &&& out@ == (ResponseModel {
                    status: 200,
                    headers: Seq::empty(),
                    body: BodyModel::Token(final(conn)@.clients.last().secret),
                })
            },
            Some(_) => out@ == error_reply(404, Code::NameUnknown, "unable to create a key"@) && final(conn)@
                == old(conn)@,
        },
{
    match generate_secret(conn, None, email) {
        Ok(secret) => crate::credentials::token_response(secret.as_str()),
        Err(_) => Response::error(404, Code::NameUnknown, "unable to create a key"),
    }
}

/// Lists the API keys with the address of the user of each: 200.
pub fn get_auth_clients(conn: &DbConn) -> (out: Response)
    ensures
        out@ == (ResponseModel {
            status: 200,
            headers: Seq::empty(),
            body: BodyModel::Clients(conn@.clients.len()),
        }),
        out.body matches Body::Clients(list) && forall|i: int|
            0 <= i < list@.len() ==> (#[trigger] list@[i]).client_id@ == conn@.clients[i].client_id
                && list@[i].secret@ == conn@.clients[i].secret,
{
    let mut list: Vec<AuthClient> = Vec::new();
    let mut i: usize = 0;
    while i < conn.clients.len()
        invariant
            i <= conn.clients.len(),
            list@.len() == i,
            forall|k: int|
                0 <= k < i ==> (#[trigger] list@[k]).client_id@ == conn@.clients[k].client_id
                    && list@[k].secret@ == conn@.clients[k].secret,
        decreases conn.clients.len() - i,
    {
        let row = &conn.clients[i];
        assert(conn@.clients[i as int] == row@);
        let mut email = String::new();
        let mut j: usize = 0;
        while j < conn.users.len()
            invariant
                j <= conn.users.len(),
            decreases conn.users.len() - j,
        {
            if conn.users[j].id == row.user_id {
                email = conn.users[j].email.clone();
            }
            j += 1;
        }
        list.push(
            AuthClient {
                id: stamp(row.id),
                client_id: row.client_id.clone(),
                secret: row.secret.clone(),
                email,
                created_at: row.created_at,
            },
        );
        i += 1;
    }
    Response::new(200, Body::Clients(list))
}

} // verus!
