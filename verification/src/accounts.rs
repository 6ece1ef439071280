//! Users, API keys and the scopes that users hold on repositories.

use crate::action::Action;
use crate::database::{owned, repo_with_id, DbConn, DbModel, RepoWithId};
use crate::error::{MetadataFault, Missing, StorageError};
use crate::rows::{
    ClientModel, ClientRow, RepositoryModel, ScopeModel, ScopeRow, UserModel, UserRow,
};
use crate::scope::UserScope;
use crate::table::{first_where, lemma_views_push, position, retain, views_of, Probe};
use vstd::prelude::*;

verus! {

/// The user has the e-mail address `email`.
pub open spec fn user_with_email(email: Seq<char>) -> spec_fn(UserModel) -> bool {
    |u: UserModel| u.email == email
}

/// The user has another e-mail address than `email`.
pub open spec fn user_without_email(email: Seq<char>) -> spec_fn(UserModel) -> bool {
    |u: UserModel| u.email != email
}

/// The API key has the secret `secret`.
pub open spec fn client_with_secret(secret: Seq<char>) -> spec_fn(ClientModel) -> bool {
    |c: ClientModel| c.secret == secret
}

/// The scope row of user `user` on repository `repo`.
pub open spec fn scope_of(user: Seq<char>, repo: u64) -> spec_fn(ScopeModel) -> bool {
    |s: ScopeModel| s.user_id == user && s.repository_id == repo
}

/// The scope row belongs to another repository than `repo`.
pub open spec fn scope_outside(repo: u64) -> spec_fn(ScopeModel) -> bool {
    |s: ScopeModel| s.repository_id != repo
}

/// The scope row belongs to another user than `user`.
pub open spec fn scope_of_other(user: Seq<char>) -> spec_fn(ScopeModel) -> bool {
    |s: ScopeModel| s.user_id != user
}

/// The condition `user_with_email` as a test that compiled code can run.
pub struct UserWithEmail {
    pub email: String,
}

impl Probe<UserRow> for UserWithEmail {
    open spec fn cond(&self) -> spec_fn(UserModel) -> bool {
        user_with_email(self.email@)
    }

    fn test(&self, row: &UserRow) -> (b: bool) {
        row.email == self.email
    }
}

/// The condition `user_without_email` as a test that compiled code can run.
pub struct UserWithoutEmail {
    pub email: String,
}

impl Probe<UserRow> for UserWithoutEmail {
    open spec fn cond(&self) -> spec_fn(UserModel) -> bool {
        user_without_email(self.email@)
    }

    fn test(&self, row: &UserRow) -> (b: bool) {
        !(row.email == self.email)
    }
}

/// The condition `client_with_secret` as a test that compiled code can run.
pub struct ClientWithSecret {
    pub secret: String,
}

impl Probe<ClientRow> for ClientWithSecret {
    open spec fn cond(&self) -> spec_fn(ClientModel) -> bool {
        client_with_secret(self.secret@)
    }

    fn test(&self, row: &ClientRow) -> (b: bool) {
        row.secret == self.secret
    }
}

/// The condition `scope_of` as a test that compiled code can run.
pub struct ScopeOf {
    pub user: String,
    pub repo: u64,
}

impl Probe<ScopeRow> for ScopeOf {
    open spec fn cond(&self) -> spec_fn(ScopeModel) -> bool {
        scope_of(self.user@, self.repo)
    }

    fn test(&self, row: &ScopeRow) -> (b: bool) {
        row.user_id == self.user && row.repository_id == self.repo
    }
}

/// The condition `scope_outside` as a test that compiled code can run.
pub struct ScopeOutside {
    pub repo: u64,
}

impl Probe<ScopeRow> for ScopeOutside {
    open spec fn cond(&self) -> spec_fn(ScopeModel) -> bool {
        scope_outside(self.repo)
    }

    fn test(&self, row: &ScopeRow) -> (b: bool) {
        row.repository_id != self.repo
    }
}

/// The condition `scope_of_other` as a test that compiled code can run.
pub struct ScopeOfOther {
    pub user: String,
}

impl Probe<ScopeRow> for ScopeOfOther {
    open spec fn cond(&self) -> spec_fn(ScopeModel) -> bool {
        scope_of_other(self.user@)
    }

    fn test(&self, row: &ScopeRow) -> (b: bool) {
        !(row.user_id == self.user)
    }
}

/// The strongest action that a scope row grants, if it grants any.
pub open spec fn highest(s: ScopeModel) -> Option<Action> {
    if s.del {
        Some(Action::Delete)
    } else if s.push {
        Some(Action::Push)
    } else if s.pull {
        Some(Action::Pull)
    } else {
        None
    }
}

/// The grants that the scope rows `rows` give user `user`: for each row of the user that
/// grants something on a repository of `repos`, the strongest action it grants, under the
/// name of the repository. Of two rows for one repository the later counts.
pub open spec fn grants_for(repos: Seq<RepositoryModel>, user: Seq<char>, rows: Seq<ScopeModel>) -> Map<
    Seq<char>,
    Action,
>
    decreases rows.len(),
{
    if rows.len() == 0 {
        Map::empty()
    } else {
        let m = grants_for(repos, user, rows.drop_last());
        let r = rows.last();
        let at = first_where(repos, repo_with_id(r.repository_id));
        if r.user_id == user && at < repos.len() && highest(r).is_some() {
            m.insert(repos[at].name, highest(r).unwrap())
        } else {
            m
        }
    }
}

/// `action` granted on every repository of `repos`; with `pub_only`, on every public one.
pub open spec fn grants_on_all(repos: Seq<RepositoryModel>, pub_only: bool, action: Action) -> Map<
    Seq<char>,
    Action,
>
    decreases repos.len(),
{
    if repos.len() == 0 {
        Map::empty()
    } else {
        let m = grants_on_all(repos.drop_last(), pub_only, action);
        if !pub_only || repos.last().is_public {
            m.insert(repos.last().name, action)
        } else {
            m
        }
    }
}

impl DbModel {
    /// The user with the e-mail address `email`.
    pub open spec fn user_by_email(self, email: Seq<char>) -> Option<UserModel> {
        let i = first_where(self.users, user_with_email(email));
        if i < self.users.len() {
            Some(self.users[i])
        } else {
            None
        }
    }

    /// The store with one more user.
    pub open spec fn with_user(self, user: UserModel) -> DbModel {
        DbModel { users: self.users.push(user), ..self }
    }

    /// The store without the users with the e-mail address `email`.
    pub open spec fn without_user(self, email: Seq<char>) -> DbModel {
        DbModel { users: self.users.filter(user_without_email(email)), ..self }
    }

    /// The store with the password hash of the first user with the address `email`
    /// replaced.
    pub open spec fn with_password(self, email: Seq<char>, hash: Seq<char>) -> DbModel {
        let i = first_where(self.users, user_with_email(email));
        if i < self.users.len() {
            DbModel { users: self.users.update(i, UserModel { password: hash, ..self.users[i] }), ..self }
        } else {
            self
        }
    }

    /// The API key with the secret `secret`.
    pub open spec fn client_by_secret(self, secret: Seq<char>) -> Option<ClientModel> {
        let i = first_where(self.clients, client_with_secret(secret));
        if i < self.clients.len() {
            Some(self.clients[i])
        } else {
            None
        }
    }

    /// Why an API key for the user with the address `email` is refused, if it is: there is
    /// no such user, or the store has used up its identifiers.
    pub open spec fn client_error(self, email: Seq<char>) -> Option<StorageError> {
        if self.user_by_email(email).is_none() {
            Some(StorageError::NotFound(Missing::User))
        } else if self.next_id == u64::MAX {
            Some(StorageError::MetadataError(MetadataFault::OutOfRange))
        } else {
            None
        }
    }

    /// The store with one more API key, which gets the next identifier.
    pub open spec fn with_client(
        self,
        client_id: Seq<char>,
        secret: Seq<char>,
        user_id: Seq<char>,
        created_at: i64,
    ) -> DbModel {
        DbModel {
            clients: self.clients.push(
                ClientModel { id: self.next_id, client_id, secret, user_id, created_at },
            ),
            next_id: (self.next_id + 1) as u64,
            ..self
        }
    }

    /// What user `user` may do, by repository name.
    pub open spec fn user_scopes(self, user: Seq<char>) -> Map<Seq<char>, Action> {
        grants_for(self.repositories, user, self.repository_scopes)
    }

    /// The scope row of user `user` on repository `repo`.
    pub open spec fn scope_row(self, user: Seq<char>, repo: u64) -> Option<ScopeModel> {
        let i = first_where(self.repository_scopes, scope_of(user, repo));
        if i < self.repository_scopes.len() {
            Some(self.repository_scopes[i])
        } else {
            None
        }
    }

    /// The store with the scope row of `row`'s user and repository set to `row`: replaced
    /// if there is one, else added.
    pub open spec fn with_scope(self, row: ScopeModel) -> DbModel {
        let i = first_where(self.repository_scopes, scope_of(row.user_id, row.repository_id));
        if i < self.repository_scopes.len() {
            DbModel { repository_scopes: self.repository_scopes.update(i, row), ..self }
        } else {
            DbModel { repository_scopes: self.repository_scopes.push(row), ..self }
        }
    }
}

impl DbConn {
    /// Position of the user with the e-mail address `email`.
    pub fn find_user(&self, email: &str) -> (out: Option<usize>)
        ensures
            match out {
                Some(i) => i < self.users.len() && i == first_where(
                    self@.users,
                    user_with_email(email@),
                ) && self@.users[i as int] == self.users@[i as int]@,
                None => first_where(self@.users, user_with_email(email@)) == self.users.len(),
            },
    {
        position(&self.users, &UserWithEmail { email: owned(email) })
    }

    /// Adds a user. An e-mail address that is taken is refused as `Duplicate`.
    pub fn insert_user(
        &mut self,
        id: &str,
        email: &str,
        password_hash: &str,
        is_admin: bool,
        created_at: i64,
    ) -> (out: Result<(), StorageError>)
        ensures
            out == (if old(self)@.user_by_email(email@).is_some() {
                Err::<(), StorageError>(StorageError::MetadataError(MetadataFault::Duplicate))
            } else {
                Ok::<(), StorageError>(())
            }),
            final(self)@ == (if out.is_ok() {
                old(self)@.with_user(
                    UserModel { id: id@, email: email@, password: password_hash@, is_admin, created_at },
                )
            } else {
                old(self)@
            }),
    {
        if self.find_user(email).is_some() {
            return Err(StorageError::MetadataError(MetadataFault::Duplicate));
        }
        let row = UserRow {
            id: owned(id),
            email: owned(email),
            password: owned(password_hash),
            is_admin,
            created_at,
        };
        proof {
            lemma_views_push(self.users@, row);
        }
        self.users.push(row);
        Ok(())
    }

    /// Removes the users with the e-mail address `email`.
    pub fn remove_user(&mut self, email: &str)
        ensures
            final(self)@ == old(self)@.without_user(email@),
    {
        retain(&mut self.users, &UserWithoutEmail { email: owned(email) });
    }

    /// Replaces the password hash of the user with the address `email`; `false` and no
    /// change without such a user.
    pub fn set_password(&mut self, email: &str, password_hash: &str) -> (out: bool)
        ensures
            out == old(self)@.user_by_email(email@).is_some(),
            final(self)@ == old(self)@.with_password(email@, password_hash@),
    {
        match self.find_user(email) {
            Some(i) => {
                self.users[i].password = owned(password_hash);
                assert(self@.users =~= old(self)@.users.update(
                    i as int,
                    UserModel { password: password_hash@, ..old(self)@.users[i as int] },
                ));
                true
            },
            None => false,
        }
    }

    /// The client identifier of the API key with the secret `secret`.
    pub fn client_for_secret(&self, secret: &str) -> (out: Option<String>)
        ensures
            match out {
                Some(id) => self@.client_by_secret(secret@).is_some() && id@
                    == self@.client_by_secret(secret@).unwrap().client_id,
                None => self@.client_by_secret(secret@).is_none(),
            },
    {
        match position(&self.clients, &ClientWithSecret { secret: owned(secret) }) {
            Some(i) => Some(self.clients[i].client_id.clone()),
            None => None,
        }
    }

    /// Adds an API key for the user with the address `email`. Without that user it is
    /// `NotFound(User)`; a store that has used up its identifiers refuses with
    /// `OutOfRange`.
    pub fn insert_client(&mut self, client_id: &str, secret: &str, email: &str, created_at: i64) -> (out: Result<
        (),
        StorageError,
    >)
        ensures
            out == (match old(self)@.user_by_email(email@) {
                None => Err::<(), StorageError>(StorageError::NotFound(Missing::User)),
                Some(_) => if old(self)@.next_id == u64::MAX {
                    Err::<(), StorageError>(StorageError::MetadataError(MetadataFault::OutOfRange))
                } else {
                    Ok::<(), StorageError>(())
                },
            }),
            final(self)@ == (if out.is_ok() {
                old(self)@.with_client(
                    client_id@,
                    secret@,
                    old(self)@.user_by_email(email@).unwrap().id,
                    created_at,
                )
            } else {
                old(self)@
            }),
    {
        let user = match self.find_user(email) {
            Some(i) => self.users[i].id.clone(),
            None => {
                return Err(StorageError::NotFound(Missing::User));
            },
        };
        if self.next_id == u64::MAX {
            return Err(StorageError::MetadataError(MetadataFault::OutOfRange));
        }
        let id = self.next_id;
        let row = ClientRow {
            id,
            client_id: owned(client_id),
            secret: owned(secret),
            user_id: user,
            created_at,
        };
        proof {
            lemma_views_push(self.clients@, row);
        }
        self.clients.push(row);
        self.next_id = id + 1;
        Ok(())
    }

    /// Sets what user `user` may do on repository `repo`, in place of what was set.
    pub fn set_scope(&mut self, user: &str, repo: u64, push: bool, pull: bool, del: bool)
        ensures
            final(self)@ == old(self)@.with_scope(
                ScopeModel { user_id: user@, repository_id: repo, push, pull, del },
            ),
    {
        match position(&self.repository_scopes, &ScopeOf { user: owned(user), repo }) {
            Some(i) => {
                proof {
                    crate::table::lemma_first_where(self@.repository_scopes, scope_of(user@, repo));
                }
                self.repository_scopes[i].push = push;
                self.repository_scopes[i].pull = pull;
                self.repository_scopes[i].del = del;
                assert(self@.repository_scopes =~= old(self)@.repository_scopes.update(
                    i as int,
                    ScopeModel { user_id: user@, repository_id: repo, push, pull, del },
                ));
            },
            None => {
                let row = ScopeRow { user_id: owned(user), repository_id: repo, push, pull, del };
                proof {
                    lemma_views_push(self.repository_scopes@, row);
                }
                self.repository_scopes.push(row);
            },
        }
    }

    /// The flags of the scope row of user `user` on repository `repo`: push, pull, delete.
    pub fn scope_flags(&self, user: &str, repo: u64) -> (out: Option<(bool, bool, bool)>)
        ensures
            out == (match self@.scope_row(user@, repo) {
                Some(s) => Some((s.push, s.pull, s.del)),
                None => None,
            }),
    {
        match position(&self.repository_scopes, &ScopeOf { user: owned(user), repo }) {
            Some(i) => Some(
                (
                    self.repository_scopes[i].push,
                    self.repository_scopes[i].pull,
                    self.repository_scopes[i].del,
                ),
            ),
            None => None,
        }
    }
}

/// What the user `user_id` may do: for each repository on which a scope row of the user
/// grants something, the strongest action granted.
pub fn get_user_scopes(conn: &DbConn, user_id: &str) -> (out: UserScope)
    ensures
        out.wf(),
        out@ == conn@.user_scopes(user_id@),
{
    let user = owned(user_id);
    let ghost rows = conn@.repository_scopes;
    let ghost repos = conn@.repositories;
    let mut scopes = UserScope::new();
    let mut i: usize = 0;
    proof {
        assert(rows.take(0) =~= Seq::<ScopeModel>::empty());
    }
    while i < conn.repository_scopes.len()
        invariant
            i <= conn.repository_scopes.len(),
            rows == views_of(conn.repository_scopes@),
            repos == views_of(conn.repositories@),
            user@ == user_id@,
            scopes.wf(),
            scopes@ == grants_for(repos, user_id@, rows.take(i as int)),
        decreases conn.repository_scopes.len() - i,
    {
        proof {
            assert(rows.take(i + 1).drop_last() =~= rows.take(i as int));
            assert(rows.take(i + 1).last() == rows[i as int]);
            assert(rows[i as int] == conn.repository_scopes@[i as int]@);
        }
        let row = &conn.repository_scopes[i];
        if row.user_id == user {
            let best = if row.del {
                Some(Action::Delete)
            } else if row.push {
                Some(Action::Push)
            } else if row.pull {
                Some(Action::Pull)
            } else {
                None
            };
            match (best, position(&conn.repositories, &RepoWithId { id: row.repository_id })) {
                (Some(action), Some(at)) => {
                    assert(repos[at as int] == conn.repositories@[at as int]@);
                    scopes.insert(conn.repositories[at].name.clone(), action);
                },
                _ => {},
            }
        }
        i += 1;
    }
    proof {
        assert(rows.take(conn.repository_scopes.len() as int) =~= rows);
    }
    scopes
}

fn grant_on_all(conn: &DbConn, pub_only: bool, action: Action) -> (out: UserScope)
    ensures
        out.wf(),
        out@ == grants_on_all(conn@.repositories, pub_only, action),
{
    let ghost repos = conn@.repositories;
    let mut scopes = UserScope::new();
    let mut i: usize = 0;
    proof {
        assert(repos.take(0) =~= Seq::<RepositoryModel>::empty());
    }
    while i < conn.repositories.len()
        invariant
            i <= conn.repositories.len(),
            repos == views_of(conn.repositories@),
            scopes.wf(),
            scopes@ == grants_on_all(repos.take(i as int), pub_only, action),
        decreases conn.repositories.len() - i,
    {
        proof {
            assert(repos.take(i + 1).drop_last() =~= repos.take(i as int));
            assert(repos.take(i + 1).last() == repos[i as int]);
            assert(repos[i as int] == conn.repositories@[i as int]@);
        }
        if !pub_only || conn.repositories[i].is_public {
            scopes.insert(conn.repositories[i].name.clone(), action);
        }
        i += 1;
    }
    proof {
        assert(repos.take(conn.repositories.len() as int) =~= repos);
    }
    scopes
}

/// What an administrator may do: delete, and so everything, on every repository.
pub fn get_admin_scopes(conn: &DbConn) -> (out: UserScope)
    ensures
        out.wf(),
        out@ == grants_on_all(conn@.repositories, false, Action::Delete),
{
    grant_on_all(conn, false, Action::Delete)
}

/// What anyone may do without credentials: pull from every public repository.
pub fn default_public_scopes(conn: &DbConn) -> (out: UserScope)
    ensures
        out.wf(),
        out@ == grants_on_all(conn@.repositories, true, Action::Pull),
{
    grant_on_all(conn, true, Action::Pull)
}

} // verus!
