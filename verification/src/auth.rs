//! Credentials and what they allow: the claims of a token, the check of an
//! `Authorization` header, and the check of a request against the scopes of its claims.

use crate::action::Action;
use crate::database::owned;
use crate::scope::UserScope;
use crate::text::{chars_of, is_prefix, split, split_on, starts_with, str_eq, string_of, views};
use crate::util::{now_millis, LAST_MILLI};
use vstd::prelude::*;

verus! {

/// The milliseconds of one day.
pub const DAY_MILLIS: u64 = 86_400_000;

/// Who a credential stands for.
pub struct UserInfo {
    pub id: String,
    pub email: String,
    pub is_admin: bool,
}

/// The claims of a token: the subject, the time in milliseconds at which the token expires,
/// whether the subject is an administrator, and the scopes it holds.
pub struct Claims {
    pub sub: String,
    pub exp: u64,
    pub is_admin: bool,
    pub scopes: UserScope,
}

/// The view of `Claims`: the same value with every string as its characters.
pub struct ClaimsModel {
    pub sub: Seq<char>,
    pub exp: u64,
    pub is_admin: bool,
    pub scopes: Map<Seq<char>, Action>,
}

impl View for Claims {
    type V = ClaimsModel;

    open spec fn view(&self) -> ClaimsModel {
        ClaimsModel { sub: self.sub@, exp: self.exp, is_admin: self.is_admin, scopes: self.scopes@ }
    }
}

/// What a request carries after its credentials were checked.
pub struct Auth {
    pub claims: Option<Claims>,
}

/// The body of a token response.
pub struct TokenResponse {
    pub token: String,
}

/// E-mail address and password of a login.
pub struct LoginRequest {
    pub email: String,
    pub password: String,
}

/// The time at which a token issued at `now` expires: one day later, held at the largest
/// number when that does not fit.
pub open spec fn expiry(now: u64) -> u64 {
    if now + DAY_MILLIS <= u64::MAX {
        (now + DAY_MILLIS) as u64
    } else {
        u64::MAX
    }
}

impl TokenResponse {
    /// The body that carries `token`.
    pub fn new(token: &str) -> (out: Self)
        ensures
            out.token@ == token@,
    {
        TokenResponse { token: owned(token) }
    }
}

impl Claims {
    /// The scopes hold no repository twice.
    pub open spec fn wf(&self) -> bool {
        self.scopes.wf()
    }

    /// Claims for `user_id` that expire at `exp`: no administrator, no scopes.
    pub fn with_expiry(user_id: &str, exp: u64) -> (out: Self)
        ensures
            out.wf(),
            out@ == (ClaimsModel {
                sub: user_id@,
                exp,
                is_admin: false,
                scopes: Map::<Seq<char>, Action>::empty(),
            }),
    {
        Claims { sub: owned(user_id), exp, is_admin: false, scopes: UserScope::new() }
    }

    /// Claims for `user_id` issued at `now`: they expire one day later.
    pub fn issued_at(user_id: &str, now: u64) -> (out: Self)
        ensures
            out.wf(),
            out@ == (ClaimsModel {
                sub: user_id@,
                exp: expiry(now),
                is_admin: false,
                scopes: Map::<Seq<char>, Action>::empty(),
            }),
    {
        Claims::with_expiry(user_id, now.saturating_add(DAY_MILLIS))
    }

    /// Claims for `user_id` issued now. Whatever the clock shows, they are those of an
    /// ordinary user without scopes and do not expire within the first day of 1970.
    pub fn new(user_id: &str) -> (out: Self)
        ensures
            out.wf(),
            out@.sub == user_id@,
            !out@.is_admin,
            out@.scopes == Map::<Seq<char>, Action>::empty(),
            out@.exp >= DAY_MILLIS,
    {
        Claims::issued_at(user_id, now_millis())
    }

    /// Whether the claims have not expired at `now`: they expire later.
    pub open spec fn valid_at(&self, now: u64) -> bool {
        self.exp > now
    }

    /// Whether the claims have not expired at `now`.
    pub fn is_valid_at(&self, now: u64) -> (ok: bool)
        ensures
            ok == self.valid_at(now),
            ok == (self.exp > now),
    {
        self.exp > now
    }

    /// Whether the claims have not expired now: at some time that a clock can give. So
    /// claims that expire at 0 are never valid, and claims that expire after the last time
    /// of a clock always are.
    pub fn is_valid(&self) -> (ok: bool)
        ensures
            exists|now: u64| now <= LAST_MILLI && ok == #[trigger] self.valid_at(now),
            self.exp == 0 ==> !ok,
            self.exp > LAST_MILLI ==> ok,
    {
        let now = now_millis();
        let ok = self.is_valid_at(now);
        assert(ok == self.valid_at(now));
        ok
    }

    /// Makes the claims those of the user `info`: subject and administrator flag.
    pub fn set(&mut self, info: &UserInfo)
        ensures
            final(self)@ == (ClaimsModel { sub: info.id@, is_admin: info.is_admin, ..old(self)@ }),
            final(self).wf() == old(self).wf(),
    {
        self.sub = info.id.clone();
        self.is_admin = info.is_admin;
    }

    /// Sets the subject.
    pub fn set_sub(&mut self, sub: String)
        ensures
            final(self)@ == (ClaimsModel { sub: sub@, ..old(self)@ }),
            final(self).wf() == old(self).wf(),
    {
        self.sub = sub
    }

    /// Sets the scopes.
    pub fn set_scope(&mut self, scope: UserScope)
        ensures
            final(self)@ == (ClaimsModel { scopes: scope@, ..old(self)@ }),
            final(self).wf() == scope.wf(),
    {
        self.scopes = scope
    }

    /// Sets whether the subject is an administrator.
    pub fn set_admin(&mut self, is_admin: bool)
        ensures
            final(self)@ == (ClaimsModel { is_admin, ..old(self)@ }),
            final(self).wf() == old(self).wf(),
    {
        self.is_admin = is_admin
    }

    /// Whether the subject is an administrator.
    pub fn is_admin(&self) -> (out: bool)
        ensures
            out == self@.is_admin,
    {
        self.is_admin
    }

    /// The same claims issued anew at `now`: they expire one day later.
    pub fn renewed(&self, now: u64) -> (out: Claims)
        ensures
            out@ == (ClaimsModel { exp: expiry(now), ..self@ }),
            out.wf() == self.wf(),
    {
        Claims {
            sub: self.sub.clone(),
            exp: now.saturating_add(DAY_MILLIS),
            is_admin: self.is_admin,
            scopes: self.scopes.clone(),
        }
    }

    /// Who the claims stand for: the subject as identifier, no e-mail address.
    pub fn get_user_info(&self) -> (out: Option<UserInfo>)
        ensures
            out.is_some(),
            out.unwrap().id@ == self@.sub,
            out.unwrap().email@ == Seq::<char>::empty(),
            out.unwrap().is_admin == self@.is_admin,
    {
        Some(UserInfo { id: self.sub.clone(), email: String::new(), is_admin: self.is_admin })
    }
}

impl Default for Claims {
    /// Claims without subject, issued now.
    fn default() -> (out: Self)
        ensures
            out.wf(),
            out@.sub == Seq::<char>::empty(),
            !out@.is_admin,
            out@.scopes == Map::<Seq<char>, Action>::empty(),
            out@.exp >= DAY_MILLIS,
    {
        proof {
            reveal_strlit("");
        }
        Claims::issued_at("", now_millis())
    }
}

impl Default for Auth {
    /// No claims.
    fn default() -> (out: Self)
        ensures
            out.claims.is_none(),
    {
        Auth { claims: None }
    }
}

impl Auth {
    /// Whether there are claims that have not expired at `now`.
    pub open spec fn valid_at(&self, now: u64) -> bool {
        self.claims.is_some() && self.claims.unwrap().exp > now
    }

    /// Whether there are claims and they have not expired at `now`.
    pub fn is_valid_at(&self, now: u64) -> (ok: bool)
        ensures
            ok == self.valid_at(now),
            ok == (self.claims.is_some() && self.claims.unwrap().exp > now),
    {
        match &self.claims {
            Some(c) => c.is_valid_at(now),
            None => false,
        }
    }

    /// Whether there are claims and they have not expired now: at some time that a clock
    /// can give. Without claims, or with claims that expire at 0, the answer is no; with
    /// claims that expire after the last time of a clock it is yes.
    pub fn is_valid(&self) -> (ok: bool)
        ensures
            exists|now: u64| now <= LAST_MILLI && ok == #[trigger] self.valid_at(now),
            self.claims.is_none() ==> !ok,
            self.claims matches Some(c) ==> (c.exp == 0 ==> !ok) && (c.exp > LAST_MILLI ==> ok),
    {
        let now = now_millis();
        let ok = self.is_valid_at(now);
        assert(ok == self.valid_at(now));
        ok
    }

    /// Who the claims stand for, if there are claims.
    pub fn get_user_info(&self) -> (out: Option<UserInfo>)
        ensures
            out.is_some() == self.claims.is_some(),
            out.is_some() ==> out.unwrap().id@ == self.claims.unwrap()@.sub && out.unwrap().is_admin
                == self.claims.unwrap()@.is_admin,
    {
        match &self.claims {
            Some(c) => c.get_user_info(),
            None => None,
        }
    }
}

/// Whether anyone may call `path` without credentials: `/repositories`, `/v2/auth/token`
/// and `/v2/auth/login`.
pub open spec fn public_route(path: Seq<char>) -> bool {
    path == "/repositories"@ || path == "/v2/auth/token"@ || path == "/v2/auth/login"@
}

/// Whether anyone may call `path` without credentials.
pub fn is_public_route(path: &str) -> (out: bool)
    ensures
        out == public_route(path@),
{
    str_eq(path, "/repositories") || str_eq(path, "/v2/auth/token") || str_eq(path, "/v2/auth/login")
}

/// The text `/v2/`.
pub open spec fn v2_prefix() -> Seq<char> {
    seq!['/', 'v', '2', '/']
}

/// The action that a request needs: Push to put, post or patch, Delete to delete, Pull for
/// anything else below `/v2/`, and none otherwise.
pub open spec fn required_action(method: Seq<char>, path: Seq<char>) -> Option<Action> {
    if method == "PUT"@ || method == "POST"@ || method == "PATCH"@ {
        Some(Action::Push)
    } else if method == "DELETE"@ {
        Some(Action::Delete)
    } else if is_prefix(v2_prefix(), path) {
        Some(Action::Pull)
    } else {
        None
    }
}

/// The repository that a path names: the part between the second and third `/`, as in
/// `/v2/<name>/...`; empty when the path has no such part.
pub open spec fn repo_in_path(path: Seq<char>) -> Seq<char> {
    let parts = split_on(path, '/');
    if parts.len() > 2 {
        parts[2]
    } else {
        Seq::empty()
    }
}

/// Whether the claims allow the request: an administrator may do anything; anyone else
/// what needs no action and what the scope for the repository of the path grants.
pub open spec fn scope_allows(claims: ClaimsModel, method: Seq<char>, path: Seq<char>) -> bool {
    claims.is_admin || match required_action(method, path) {
        None => true,
        Some(action) => claims.scopes.contains_key(repo_in_path(path)) && claims.scopes[repo_in_path(
            path,
        )].permits(action),
    }
}

impl Action {
    /// The action that a request with `method` on `path` needs.
    pub fn from_request(method: &str, path: &str) -> (out: Option<Action>)
        ensures
            out == required_action(method@, path@),
    {
        if str_eq(method, "PUT") || str_eq(method, "POST") || str_eq(method, "PATCH") {
            Some(Action::Push)
        } else if str_eq(method, "DELETE") {
            Some(Action::Delete)
        } else {
            proof {
                reveal_strlit("/v2/");
                assert("/v2/"@ =~= v2_prefix());
            }
            let p = chars_of(path);
            let prefix = chars_of("/v2/");
            if starts_with(p.as_slice(), prefix.as_slice()) {
                Some(Action::Pull)
            } else {
                None
            }
        }
    }
}

/// The repository that a path names.
pub fn repository_of(path: &str) -> (out: String)
    ensures
        out@ == repo_in_path(path@),
{
    let p = chars_of(path);
    let parts = split(p.as_slice(), '/');
    if parts.len() > 2 {
        assert(views(parts@)[2] == parts@[2]@);
        string_of(parts[2].as_slice())
    } else {
        String::new()
    }
}

/// Whether the claims allow a request with `method` on `path`.
pub fn check_scope(claims: &Claims, method: &str, path: &str) -> (ok: bool)
    requires
        claims.wf(),
    ensures
        ok == scope_allows(claims@, method@, path@),
{
    if claims.is_admin() {
        return true;
    }
    match Action::from_request(method, path) {
        None => true,
        Some(action) => {
            let repo = repository_of(path);
            match claims.scopes.get(repo.as_str()) {
                Some(granted) => granted.check_permission(action),
                None => false,
            }
        },
    }
}

/// An administrator's claims allow every request.
pub proof fn law_admin_allows_all(claims: ClaimsModel, method: Seq<char>, path: Seq<char>)
    requires
        claims.is_admin,
    ensures
        scope_allows(claims, method, path),
{
}

/// Claims of an ordinary user whose only scope is Push on repository `x` allow to pull from
/// `x` and to push to it, not to delete from it, and nothing that needs an action on another
/// repository.
pub proof fn law_push_scope(claims: ClaimsModel, x: Seq<char>, method: Seq<char>, path: Seq<char>)
    requires
        !claims.is_admin,
        claims.scopes == Map::<Seq<char>, Action>::empty().insert(x, Action::Push),
        required_action(method, path).is_some(),
    ensures
        repo_in_path(path) == x && required_action(method, path) == Some(Action::Pull) ==> scope_allows(
            claims,
            method,
            path,
        ),
        repo_in_path(path) == x && required_action(method, path) == Some(Action::Push) ==> scope_allows(
            claims,
            method,
            path,
        ),
        repo_in_path(path) == x && required_action(method, path) == Some(Action::Delete)
            ==> !scope_allows(claims, method, path),
        repo_in_path(path) != x ==> !scope_allows(claims, method, path),
{
}

} // verus!
