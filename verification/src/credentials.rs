//! The check of credentials on every request: what an `Authorization` header carries,
//! whom it stands for, what is asked of a client that may not pass, and the issue of
//! tokens.

use crate::accounts::{default_public_scopes, get_admin_scopes, get_user_scopes, grants_on_all};
use crate::action::Action;
use crate::assoc::{lemma_map_of_at, lemma_map_of_dom};
use crate::auth::{
    check_scope, expiry, is_public_route, public_route, repo_in_path, repository_of,
    required_action, scope_allows, Auth, Claims, ClaimsModel, LoginRequest, UserInfo,
};
use crate::codes::Code;
use crate::content_discovery::DockerLogin;
use crate::database::{DbConn, DbModel};
use crate::response::{error_reply, Body, BodyModel, Response, ResponseModel};
use crate::scope::{allows, parse_scopes, scope_text, UserScope};
use crate::text::{
    chars_of, extend_chars, first_index_of, is_prefix, join_with, lower, slice_of, split, split_on,
    starts_with, string_of, to_lower, views,
};
use crate::util::{base64_decode, base64_text, login_accepted, verify_login};
use vstd::prelude::*;

verus! {

/// What an `Authorization` header carries.
pub enum Credential {
    /// There is no header.
    Missing,
    /// A bearer token: an API key or a signed token.
    Bearer(String),
    /// E-mail address and password in base64.
    Basic(String),
    /// The header names no known scheme or holds no token.
    Invalid,
}

/// The view of `Credential`: the same value with every string as its characters.
pub enum CredentialModel {
    Missing,
    Bearer(Seq<char>),
    Basic(Seq<char>),
    Invalid,
}

impl View for Credential {
    type V = CredentialModel;

    open spec fn view(&self) -> CredentialModel {
        match self {
            Credential::Missing => CredentialModel::Missing,
            Credential::Bearer(t) => CredentialModel::Bearer(t@),
            Credential::Basic(t) => CredentialModel::Basic(t@),
            Credential::Invalid => CredentialModel::Invalid,
        }
    }
}

/// Whether `c` is a space or a tab.
pub open spec fn is_blank(c: char) -> bool {
    c == ' ' || c == '\t'
}

/// `s` without the blanks at its start.
pub open spec fn skip_blanks(s: Seq<char>) -> Seq<char>
    decreases s.len(),
{
    if s.len() > 0 && is_blank(s[0]) {
        skip_blanks(s.skip(1))
    } else {
        s
    }
}

/// The characters of `s` up to its first blank.
pub open spec fn first_word(s: Seq<char>) -> Seq<char>
    decreases s.len(),
{
    if s.len() == 0 || is_blank(s[0]) {
        Seq::empty()
    } else {
        seq![s[0]] + first_word(s.skip(1))
    }
}

/// The token behind the scheme of a header: the first word after the first `skip`
/// characters.
pub open spec fn token_after(header: Seq<char>, skip: int) -> Seq<char> {
    first_word(skip_blanks(header.skip(skip)))
}

/// The text `bearer `.
pub open spec fn bearer_word() -> Seq<char> {
    seq!['b', 'e', 'a', 'r', 'e', 'r', ' ']
}

/// The text `basic `.
pub open spec fn basic_word() -> Seq<char> {
    seq!['b', 'a', 's', 'i', 'c', ' ']
}

/// What a header carries: after `Bearer ` or `Basic `, in any case of the letters, the
/// first word is the token.
pub open spec fn credential_of(header: Option<Seq<char>>) -> CredentialModel {
    match header {
        None => CredentialModel::Missing,
        Some(h) => if is_prefix(bearer_word(), lower(h)) {
            if token_after(h, 7).len() == 0 {
                CredentialModel::Invalid
            } else {
                CredentialModel::Bearer(token_after(h, 7))
            }
        } else if is_prefix(basic_word(), lower(h)) {
            if token_after(h, 6).len() == 0 {
                CredentialModel::Invalid
            } else {
                CredentialModel::Basic(token_after(h, 6))
            }
        } else {
            CredentialModel::Invalid
        },
    }
}

fn token_of(h: &[char], skip: usize) -> (out: Vec<char>)
    requires
        skip <= h.len(),
    ensures
        out@ == token_after(h@, skip as int),
{
    let mut i: usize = skip;
    while i < h.len() && (h[i] == ' ' || h[i] == '\t')
        invariant
            skip <= i <= h.len(),
            skip_blanks(h@.skip(skip as int)) == skip_blanks(h@.skip(i as int)),
        decreases h.len() - i,
    {
        proof {
            assert(h@.skip(i as int)[0] == h@[i as int]);
            assert(h@.skip(i as int).skip(1) =~= h@.skip(i + 1));
        }
        i += 1;
    }
    proof {
        if i < h.len() {
            assert(h@.skip(i as int)[0] == h@[i as int]);
        }
    }
    let start = i;
    let mut word: Vec<char> = Vec::new();
    proof {
        assert(word@ + first_word(h@.skip(i as int)) =~= first_word(h@.skip(start as int)));
    }
    while i < h.len() && !(h[i] == ' ' || h[i] == '\t')
        invariant
            start <= i <= h.len(),
            word@ + first_word(h@.skip(i as int)) == first_word(h@.skip(start as int)),
        decreases h.len() - i,
    {
        proof {
            assert(h@.skip(i as int)[0] == h@[i as int]);
            assert(h@.skip(i as int).skip(1) =~= h@.skip(i + 1));
            assert(word@.push(h@[i as int]) + first_word(h@.skip(i + 1)) =~= word@ + (seq![
                h@[i as int],
            ] + first_word(h@.skip(i + 1))));
        }
        word.push(h[i]);
        i += 1;
    }
    proof {
        if i < h.len() {
            assert(h@.skip(i as int)[0] == h@[i as int]);
        }
        assert(word@ + Seq::<char>::empty() =~= word@);
    }
    word
}

/// Reads an `Authorization` header.
pub fn parse_authorization(header: Option<&str>) -> (out: Credential)
    ensures
        out@ == credential_of(
            match header {
                Some(h) => Some(h@),
                None => None,
            },
        ),
{
    let h = match header {
        Some(h) => chars_of(h),
        None => {
            return Credential::Missing;
        },
    };
    proof {
        reveal_strlit("bearer ");
        reveal_strlit("basic ");
        assert("bearer "@ =~= bearer_word());
        assert("basic "@ =~= basic_word());
    }
    let folded = to_lower(h.as_slice());
    if starts_with(folded.as_slice(), chars_of("bearer ").as_slice()) {
        let token = token_of(h.as_slice(), 7);
        if token.len() == 0 {
            Credential::Invalid
        } else {
            Credential::Bearer(string_of(token.as_slice()))
        }
    } else if starts_with(folded.as_slice(), chars_of("basic ").as_slice()) {
        let token = token_of(h.as_slice(), 6);
        if token.len() == 0 {
            Credential::Invalid
        } else {
            Credential::Basic(string_of(token.as_slice()))
        }
    } else {
        Credential::Invalid
    }
}

/// The e-mail address in `email:password`: what stands before the first colon.
pub open spec fn basic_email(text: Seq<char>) -> Seq<char> {
    text.take(first_index_of(text, ':'))
}

/// The password in `email:password`: what stands behind the first colon.
pub open spec fn basic_password(text: Seq<char>) -> Seq<char> {
    if first_index_of(text, ':') < text.len() {
        text.skip(first_index_of(text, ':') + 1)
    } else {
        Seq::empty()
    }
}

/// Whether the store accepts the basic credentials `token`.
pub open spec fn basic_accepted(db: DbModel, token: Seq<char>) -> bool {
    match base64_text(token) {
        Some(text) => login_accepted(db.users, basic_email(text), basic_password(text)),
        None => false,
    }
}

/// The claims of the user with the address `email`, issued at `now`: an administrator
/// holds Delete on every repository, anyone else what the scope rows grant.
pub open spec fn claims_of_user(db: DbModel, email: Seq<char>, now: u64) -> ClaimsModel {
    let u = db.user_by_email(email).unwrap();
    ClaimsModel {
        sub: u.id,
        exp: expiry(now),
        is_admin: u.is_admin,
        scopes: if u.is_admin {
            grants_on_all(db.repositories, false, Action::Delete)
        } else {
            db.user_scopes(u.id)
        },
    }
}

/// The claims of an API key: those of an administrator, with the client identifier as
/// subject.
pub open spec fn claims_of_client(db: DbModel, client_id: Seq<char>, now: u64) -> ClaimsModel {
    ClaimsModel {
        sub: client_id,
        exp: expiry(now),
        is_admin: true,
        scopes: grants_on_all(db.repositories, false, Action::Delete),
    }
}

/// The claims of a request without credentials: no subject, and Pull on every public
/// repository.
pub open spec fn anonymous_claims(db: DbModel, now: u64) -> ClaimsModel {
    ClaimsModel {
        sub: Seq::empty(),
        exp: expiry(now),
        is_admin: false,
        scopes: grants_on_all(db.repositories, true, Action::Pull),
    }
}

/// The claims that the user `info` gets at `now`.
pub fn claims_for(conn: &DbConn, info: &UserInfo, now: u64) -> (out: Claims)
    ensures
        out.wf(),
        out@ == (ClaimsModel {
            sub: info.id@,
            exp: expiry(now),
            is_admin: info.is_admin,
            scopes: if info.is_admin {
                grants_on_all(conn@.repositories, false, Action::Delete)
            } else {
                conn@.user_scopes(info.id@)
            },
        }),
{
    let mut claims = Claims::issued_at(info.id.as_str(), now);
    claims.set(info);
    if info.is_admin {
        claims.set_scope(get_admin_scopes(conn));
    } else {
        claims.set_scope(get_user_scopes(conn, info.id.as_str()));
    }
    claims
}

/// Checks basic credentials: `token` is `email:password` in URL-safe base64. The result is
/// the claims of the user when the store accepts address and password.
pub fn validate_basic_auth(token: &str, conn: &DbConn, now: u64) -> (out: Result<Claims, String>)
    ensures
        match out {
            Ok(claims) => basic_accepted(conn@, token@) && claims.wf() && claims@ == claims_of_user(
                conn@,
                basic_email(base64_text(token@).unwrap()),
                now,
            ),
            Err(_) => !basic_accepted(conn@, token@),
        },
{
    let decoded = match base64_decode(token) {
        Ok(text) => text,
        Err(e) => {
            return Err(e);
        },
    };
    let text = chars_of(decoded.as_str());
    let mut i: usize = 0;
    while i < text.len() && text[i] != ':'
        invariant
            i <= text.len(),
            forall|k: int| 0 <= k < i ==> text@[k] != ':',
        decreases text.len() - i,
    {
        i += 1;
    }
    proof {
        crate::text::lemma_first_index_is(text@, ':', i as int);
    }
    let email = string_of(slice_of(text.as_slice(), 0, i).as_slice());
    let password = if i < text.len() {
        let rest = slice_of(text.as_slice(), i + 1, text.len());
        assert(rest@ =~= text@.skip(i + 1));
        string_of(rest.as_slice())
    } else {
        String::new()
    };
    assert(email@ =~= basic_email(text@));
    match verify_login(conn, email.as_str(), password.as_str()) {
        Ok(info) => Ok(claims_for(conn, &info, now)),
        Err(e) => Err(e),
    }
}

/// Whom a bearer token stands for at `now`: an administrator if it is the secret of an API
/// key; else the claims that the token was decoded to, `decoded`, if they have not expired.
pub open spec fn bearer_claims(db: DbModel, token: Seq<char>, decoded: Option<ClaimsModel>, now: u64) -> Option<
    ClaimsModel,
> {
    match db.client_by_secret(token) {
        Some(client) => Some(claims_of_client(db, client.client_id, now)),
        None => match decoded {
            Some(c) => if c.exp > now {
                Some(c)
            } else {
                None
            },
            None => None,
        },
    }
}

/// The views of optional claims.
pub open spec fn claims_view(claims: Option<Claims>) -> Option<ClaimsModel> {
    match claims {
        Some(c) => Some(c@),
        None => None,
    }
}

/// Checks a bearer token. `decoded` is what the token reads as when it is a signed token
/// whose signature holds, else `None`.
pub fn validate_bearer(token: &str, conn: &DbConn, decoded: Option<Claims>, now: u64) -> (out: Result<
    Auth,
    String,
>)
    requires
        decoded matches Some(c) ==> c.wf(),
    ensures
        match out {
            Ok(auth) => auth.claims.is_some() && auth.claims.unwrap().wf() && Some(
                auth.claims.unwrap()@,
            ) == bearer_claims(conn@, token@, claims_view(decoded), now),
            Err(_) => bearer_claims(conn@, token@, claims_view(decoded), now).is_none(),
        },
{
    match conn.client_for_secret(token) {
        Some(client_id) => {
            let mut claims = Claims::issued_at(client_id.as_str(), now);
            claims.set_admin(true);
            claims.set_scope(get_admin_scopes(conn));
            Ok(Auth { claims: Some(claims) })
        },
        None => match decoded {
            Some(c) => {
                if c.is_valid_at(now) {
                    Ok(Auth { claims: Some(c) })
                } else {
                    Err(string_of(chars_of("Token expired").as_slice()))
                }
            },
            None => Err(string_of(chars_of("invalid bearer token").as_slice())),
        },
    }
}

/// Whom the credentials of a request stand for, if they hold.
pub open spec fn header_claims(db: DbModel, header: Option<Seq<char>>, decoded: Option<ClaimsModel>, now: u64) -> Option<
    ClaimsModel,
> {
    match credential_of(header) {
        CredentialModel::Bearer(token) => bearer_claims(db, token, decoded, now),
        CredentialModel::Basic(token) => if basic_accepted(db, token) {
            Some(claims_of_user(db, basic_email(base64_text(token).unwrap()), now))
        } else {
            None
        },
        _ => None,
    }
}

/// Checks the `Authorization` header of a request. `decoded` is what a bearer token reads
/// as when it is a signed token whose signature holds.
pub fn check_headers(header: Option<&str>, conn: &DbConn, decoded: Option<Claims>, now: u64) -> (out: Result<
    Auth,
    String,
>)
    requires
        decoded matches Some(c) ==> c.wf(),
    ensures
        match out {
            Ok(auth) => auth.claims.is_some() && auth.claims.unwrap().wf() && Some(
                auth.claims.unwrap()@,
            ) == header_claims(
                conn@,
                match header {
                    Some(h) => Some(h@),
                    None => None,
                },
                claims_view(decoded),
                now,
            ),
            Err(_) => header_claims(
                conn@,
                match header {
                    Some(h) => Some(h@),
                    None => None,
                },
                claims_view(decoded),
                now,
            ).is_none(),
        },
{
    match parse_authorization(header) {
        Credential::Missing => Err(string_of(chars_of("Missing authorization header").as_slice())),
        Credential::Bearer(token) => validate_bearer(token.as_str(), conn, decoded, now),
        Credential::Basic(token) => match validate_basic_auth(token.as_str(), conn, now) {
            Ok(claims) => Ok(Auth { claims: Some(claims) }),
            Err(_) => Err(string_of(chars_of("invalid auth header").as_slice())),
        },
        Credential::Invalid => Err(string_of(chars_of("invalid auth header").as_slice())),
    }
}

/// Whether the path names a public repository.
pub open spec fn public_repo(db: DbModel, path: Seq<char>) -> bool {
    match db.repo_lookup(repo_in_path(path)) {
        Some(found) => found.1,
        None => false,
    }
}

/// Whether the path names a public repository.
pub fn is_pub_repo(path: &str, conn: &DbConn) -> (out: bool)
    ensures
        out == public_repo(conn@, path@),
{
    match conn.repo_lookup(repository_of(path).as_str()) {
        Some(found) => found.1,
        None => false,
    }
}

/// The text `repository:*:*`.
pub open spec fn any_scope() -> Seq<char> {
    seq!['r', 'e', 'p', 'o', 's', 'i', 't', 'o', 'r', 'y', ':', '*', ':', '*']
}

/// The text `scope=`.
pub open spec fn scope_key() -> Seq<char> {
    seq!['s', 'c', 'o', 'p', 'e', '=']
}

/// The text `repository:`.
pub open spec fn repository_colon() -> Seq<char> {
    seq!['r', 'e', 'p', 'o', 's', 'i', 't', 'o', 'r', 'y', ':']
}

/// One scope string `repository:<repo>:<action>` for each of `actions`.
pub open spec fn scopes_for(repo: Seq<char>, actions: Seq<Seq<char>>) -> Seq<Seq<char>> {
    actions.map_values(|a: Seq<char>| repository_colon() + repo + seq![':'] + a)
}

/// The scope strings that one parameter of a query asks for: for `scope=<type>:<repo>:<actions>`
/// one for each action of the comma-separated list; none for any other parameter.
pub open spec fn param_scopes(param: Seq<char>) -> Seq<Seq<char>> {
    if is_prefix(scope_key(), param) {
        let parts = split_on(param.skip(6), ':');
        if parts.len() < 3 {
            Seq::empty()
        } else {
            scopes_for(parts[1], split_on(parts[2], ','))
        }
    } else {
        Seq::empty()
    }
}

/// The scope strings that the parameters of a query ask for, in their order.
pub open spec fn query_scopes(params: Seq<Seq<char>>) -> Seq<Seq<char>>
    decreases params.len(),
{
    if params.len() == 0 {
        Seq::empty()
    } else {
        query_scopes(params.drop_last()) + param_scopes(params.last())
    }
}

/// The scope that a query asks for: its scope strings with a space between neighbours, or
/// `repository:*:*` when it asks for none.
pub open spec fn requested_scope(query: Seq<char>) -> Seq<char> {
    let list = query_scopes(split_on(query, '&'));
    if list.len() == 0 {
        any_scope()
    } else {
        join_with(list, ' ')
    }
}

/// Joining one more piece.
pub proof fn lemma_join_push(pieces: Seq<Seq<char>>, last: Seq<char>, sep: char)
    requires
        pieces.len() > 0,
    ensures
        join_with(pieces.push(last), sep) == join_with(pieces, sep) + seq![sep] + last,
    decreases pieces.len(),
{
    let all = pieces.push(last);
    if pieces.len() == 1 {
        assert(all.skip(1) =~= seq![last]);
        assert(join_with(all.skip(1), sep) == last);
    } else {
        assert(all.skip(1) =~= pieces.skip(1).push(last));
        lemma_join_push(pieces.skip(1), last, sep);
        assert(join_with(all, sep) =~= join_with(pieces, sep) + seq![sep] + last);
    }
}

fn scopes_of_param(param: &[char]) -> (out: Vec<Vec<char>>)
    ensures
        views(out@) == param_scopes(param@),
{
    proof {
        reveal_strlit("scope=");
        reveal_strlit("repository:");
        assert("scope="@ =~= scope_key());
        assert("repository:"@ =~= repository_colon());
    }
    let mut out: Vec<Vec<char>> = Vec::new();
    assert(views(out@) =~= Seq::<Seq<char>>::empty());
    if !starts_with(param, chars_of("scope=").as_slice()) {
        return out;
    }
    let value = slice_of(param, 6, param.len());
    assert(value@ =~= param@.skip(6));
    let parts = split(value.as_slice(), ':');
    if parts.len() < 3 {
        return out;
    }
    assert(views(parts@)[1] == parts@[1]@);
    assert(views(parts@)[2] == parts@[2]@);
    let actions = split(parts[2].as_slice(), ',');
    let ghost want = scopes_for(parts@[1]@, views(actions@));
    let mut i: usize = 0;
    while i < actions.len()
        invariant
            i <= actions.len(),
            want == scopes_for(parts@[1]@, views(actions@)),
            parts.len() >= 3,
            views(out@) == want.take(i as int),
        decreases actions.len() - i,
    {
        proof {
            reveal_strlit("repository:");
            assert("repository:"@ =~= repository_colon());
        }
        let mut text = chars_of("repository:");
        extend_chars(&mut text, parts[1].as_slice());
        text.push(':');
        extend_chars(&mut text, actions[i].as_slice());
        let ghost before = out@;
        proof {
            assert(views(actions@)[i as int] == actions@[i as int]@);
            assert(want[i as int] =~= text@);
        }
        out.push(text);
        proof {
            assert(views(out@) =~= views(before).push(want[i as int]));
            assert(views(out@) =~= want.take(i + 1));
        }
        i += 1;
    }
    proof {
        assert(want.take(actions.len() as int) =~= want);
    }
    out
}

/// The scope that the query of a request asks for: for each parameter
/// `scope=<type>:<repo>:<actions>` one `repository:<repo>:<action>` for each action, with
/// spaces between them; `repository:*:*` when the query asks for none.
pub fn get_requested_scope(query: &str) -> (out: String)
    ensures
        out@ == requested_scope(query@),
{
    let q = chars_of(query);
    let params = split(q.as_slice(), '&');
    let ghost all = views(params@);
    let mut text: Vec<char> = Vec::new();
    let mut any = false;
    let ghost mut list: Seq<Seq<char>> = Seq::empty();
    let mut i: usize = 0;
    proof {
        assert(all.take(0) =~= Seq::<Seq<char>>::empty());
    }
    while i < params.len()
        invariant
            i <= params.len(),
            all == views(params@),
            list == query_scopes(all.take(i as int)),
            any == (list.len() > 0),
            any ==> text@ == join_with(list, ' '),
        decreases params.len() - i,
    {
        proof {
            assert(all.take(i + 1).drop_last() =~= all.take(i as int));
            assert(all.take(i + 1).last() == params@[i as int]@);
        }
        let found = scopes_of_param(params[i].as_slice());
        let ghost base = list;
        let mut j: usize = 0;
        proof {
            assert(base + views(found@).take(0) =~= base);
        }
        while j < found.len()
            invariant
                j <= found.len(),
                list == base + views(found@).take(j as int),
                any == (list.len() > 0),
                any ==> text@ == join_with(list, ' '),
            decreases found.len() - j,
        {
            let ghost item = found@[j as int]@;
            proof {
                assert(views(found@)[j as int] == item);
                assert(views(found@).take(j + 1) =~= views(found@).take(j as int).push(item));
                assert(base + views(found@).take(j + 1) =~= list.push(item));
                if list.len() > 0 {
                    lemma_join_push(list, item, ' ');
                } else {
                    assert(list.push(item) =~= seq![item]);
                }
            }
            if any {
                text.push(' ');
                extend_chars(&mut text, found[j].as_slice());
            } else {
                text = slice_of(found[j].as_slice(), 0, found[j].len());
                assert(text@ =~= item);
            }
            any = true;
            proof {
                list = list.push(item);
            }
            j += 1;
        }
        proof {
            assert(views(found@).take(found.len() as int) =~= views(found@));
        }
        i += 1;
    }
    proof {
        assert(all.take(params.len() as int) =~= all);
        reveal_strlit("repository:*:*");
        assert("repository:*:*"@ =~= any_scope());
    }
    if !any {
        string_of(chars_of("repository:*:*").as_slice())
    } else {
        string_of(text.as_slice())
    }
}

/// The scope that a request is asked to come back with: what its query asks for or,
/// when the query asks for nothing, the action that the request needs on the repository of
/// its path; `repository:*:*` when it needs none.
pub open spec fn challenge_scope(method: Seq<char>, path: Seq<char>, query: Seq<char>) -> Seq<char> {
    if query_scopes(split_on(query, '&')).len() > 0 {
        requested_scope(query)
    } else {
        match required_action(method, path) {
            Some(action) => if repo_in_path(path).len() > 0 {
                scope_text(repo_in_path(path), action)
            } else {
                any_scope()
            },
            None => any_scope(),
        }
    }
}

/// The value of the `WWW-Authenticate` header: the realm at `app_url`, the service, and the
/// scope to come back with.
pub open spec fn challenge(app_url: Seq<char>, scope: Seq<char>) -> Seq<char> {
    "Bearer realm=\""@ + app_url + "/v2/auth/token\",service=\"floundr\",scope=\""@ + scope + "\""@
}

/// The answer to a request that may not pass: 401 with the challenge in
/// `WWW-Authenticate`, behind the warning if it fits.
pub open spec fn unauthorized_reply(app_url: Seq<char>, scope: Seq<char>, detail: Seq<char>) -> ResponseModel {
    let plain = error_reply(401, Code::Unauthorized, detail);
    ResponseModel { headers: plain.headers.push(("WWW-Authenticate"@, challenge(app_url, scope))), ..plain }
}

/// The scope that a request is asked to come back with.
pub fn scope_to_ask(method: &str, path: &str, query: &str) -> (out: String)
    ensures
        out@ == challenge_scope(method@, path@, query@),
{
    let asked = get_requested_scope(query);
    let has_scopes = query_has_scopes(query);
    if has_scopes {
        return asked;
    }
    proof {
        reveal_strlit("repository:*:*");
        assert("repository:*:*"@ =~= any_scope());
    }
    match Action::from_request(method, path) {
        Some(action) => {
            let repo = repository_of(path);
            let r = chars_of(repo.as_str());
            if r.len() > 0 {
                proof {
                    reveal_strlit("repository:");
                    assert("repository:"@ =~= crate::scope::repository_word() + seq![':']);
                }
                let mut text = chars_of("repository:");
                extend_chars(&mut text, r.as_slice());
                text.push(':');
                extend_chars(&mut text, chars_of(action.as_str()).as_slice());
                assert(text@ =~= scope_text(repo@, action));
                string_of(text.as_slice())
            } else {
                string_of(chars_of("repository:*:*").as_slice())
            }
        },
        None => string_of(chars_of("repository:*:*").as_slice()),
    }
}

fn query_has_scopes(query: &str) -> (out: bool)
    ensures
        out == (query_scopes(split_on(query@, '&')).len() > 0),
{
    let q = chars_of(query);
    let params = split(q.as_slice(), '&');
    let ghost all = views(params@);
    let mut i: usize = 0;
    proof {
        assert(all.take(0) =~= Seq::<Seq<char>>::empty());
    }
    while i < params.len()
        invariant
            i <= params.len(),
            all == views(params@),
            all == split_on(query@, '&'),
            query_scopes(all.take(i as int)).len() == 0,
        decreases params.len() - i,
    {
        proof {
            assert(all.take(i + 1).drop_last() =~= all.take(i as int));
            assert(all.take(i + 1).last() == params@[i as int]@);
        }
        let found = scopes_of_param(params[i].as_slice());
        if found.len() > 0 {
            proof {
                lemma_query_scopes_grow(all, i + 1);
            }
            return true;
        }
        i += 1;
    }
    proof {
        assert(all.take(params.len() as int) =~= all);
    }
    false
}

/// More parameters never ask for fewer scopes.
pub proof fn lemma_query_scopes_grow(params: Seq<Seq<char>>, j: int)
    requires
        0 <= j <= params.len(),
    ensures
        query_scopes(params.take(j)).len() <= query_scopes(params).len(),
    decreases params.len() - j,
{
    if j < params.len() {
        assert(params.take(j + 1).drop_last() =~= params.take(j));
        lemma_query_scopes_grow(params, j + 1);
    } else {
        assert(params.take(j) =~= params);
    }
}

/// The answer to a request that may not pass.
pub fn unauthorized(app_url: &str, scope: &str, detail: &str) -> (out: Response)
    ensures
        out@ == unauthorized_reply(app_url@, scope@, detail@),
{
    let mut value = chars_of("Bearer realm=\"");
    extend_chars(&mut value, chars_of(app_url).as_slice());
    extend_chars(&mut value, chars_of("/v2/auth/token\",service=\"floundr\",scope=\"").as_slice());
    extend_chars(&mut value, chars_of(scope).as_slice());
    extend_chars(&mut value, chars_of("\"").as_slice());
    let mut response = Response::error(401, Code::Unauthorized, detail);
    response.push_header("WWW-Authenticate", string_of(value.as_slice()).as_str());
    response
}

/// What the credentials of a request come to: the claims they stand for; without valid
/// credentials the claims of anyone, if the path is a public route or names a public
/// repository; else nothing.
pub open spec fn request_claims(
    db: DbModel,
    header: Option<Seq<char>>,
    decoded: Option<ClaimsModel>,
    path: Seq<char>,
    now: u64,
) -> Option<ClaimsModel> {
    match header_claims(db, header, decoded, now) {
        Some(c) => Some(c),
        None => if public_route(path) || public_repo(db, path) {
            Some(anonymous_claims(db, now))
        } else {
            None
        },
    }
}

/// Checks the credentials of a request. Valid credentials give their claims. Without them
/// a public route and a public repository are open to anyone, with the claims of anyone:
/// Pull on the public repositories. Any other request is answered with 401 and the
/// challenge.
pub fn auth_middleware(
    header: Option<&str>,
    method: &str,
    path: &str,
    query: &str,
    conn: &DbConn,
    decoded: Option<Claims>,
    now: u64,
    app_url: &str,
) -> (out: Result<Auth, Response>)
    requires
        decoded matches Some(c) ==> c.wf(),
    ensures
        match out {
            Ok(auth) => auth.claims.is_some() && auth.claims.unwrap().wf() && Some(
                auth.claims.unwrap()@,
            ) == request_claims(
                conn@,
                match header {
                    Some(h) => Some(h@),
                    None => None,
                },
                claims_view(decoded),
                path@,
                now,
            ),
            Err(response) => request_claims(
                conn@,
                match header {
                    Some(h) => Some(h@),
                    None => None,
                },
                claims_view(decoded),
                path@,
                now,
            ).is_none() && response@ == unauthorized_reply(
                app_url@,
                challenge_scope(method@, path@, query@),
                "authentication required"@,
            ),
        },
{
    match check_headers(header, conn, decoded, now) {
        Ok(auth) => Ok(auth),
        Err(_) => {
            if is_public_route(path) || is_pub_repo(path, conn) {
                proof {
                    reveal_strlit("");
                    assert(""@ =~= Seq::<char>::empty());
                }
                let mut claims = Claims::issued_at("", now);
                claims.set_scope(default_public_scopes(conn));
                Ok(Auth { claims: Some(claims) })
            } else {
                Err(unauthorized(app_url, scope_to_ask(method, path, query).as_str(), "authentication required"))
            }
        },
    }
}

/// Whether a request with the claims `claims` may pass: it needs claims, and either goes
/// to a public route or is allowed by the scopes.
pub open spec fn may_pass(claims: Option<ClaimsModel>, method: Seq<char>, path: Seq<char>) -> bool {
    match claims {
        Some(c) => public_route(path) || scope_allows(c, method, path),
        None => false,
    }
}

/// Checks a request against the scopes of its claims. A request that may not pass is
/// answered with 401 and the challenge for the scope that it needs.
pub fn check_scope_middleware(auth: Option<&Auth>, method: &str, path: &str, query: &str, app_url: &str) -> (out: Result<
    (),
    Response,
>)
    requires
        auth matches Some(a) ==> (a.claims matches Some(c) ==> c.wf()),
    ensures
        match out {
            Ok(_) => may_pass(
                match auth {
                    Some(a) => claims_view(a.claims),
                    None => None,
                },
                method@,
                path@,
            ),
            Err(response) => !may_pass(
                match auth {
                    Some(a) => claims_view(a.claims),
                    None => None,
                },
                method@,
                path@,
            ) && response@ == unauthorized_reply(
                app_url@,
                challenge_scope(method@, path@, query@),
                "requested unauthorized scope"@,
            ),
        },
{
    let allowed = match auth {
        Some(a) => match &a.claims {
            Some(c) => is_public_route(path) || check_scope(c, method, path),
            None => false,
        },
        None => false,
    };
    if allowed {
        Ok(())
    } else {
        Err(unauthorized(app_url, scope_to_ask(method, path, query).as_str(), "requested unauthorized scope"))
    }
}

/// Whether the claims cover every grant of `asked`.
pub open spec fn covers(claims: ClaimsModel, asked: Map<Seq<char>, Action>) -> bool {
    claims.is_admin || forall|r: Seq<char>| asked.contains_key(r) ==> allows(claims.scopes, r, #[trigger] asked[r])
}

/// Whether the claims may have a token for the scope `scope`: no scope or an empty one is
/// always granted; any other must be well-formed and covered by the claims.
pub open spec fn scope_granted(claims: ClaimsModel, scope: Option<Seq<char>>) -> bool {
    match scope {
        None => true,
        Some(s) => s.len() == 0 || match parse_scopes(s) {
            Some(asked) => covers(claims, asked),
            None => false,
        },
    }
}

/// Whether the claims may have a token for the scope `scope`.
pub fn scope_is_granted(claims: &Claims, scope: Option<&str>) -> (out: bool)
    requires
        claims.wf(),
    ensures
        out == scope_granted(
            claims@,
            match scope {
                Some(s) => Some(s@),
                None => None,
            },
        ),
{
    let s = match scope {
        Some(s) => s,
        None => {
            return true;
        },
    };
    if chars_of(s).len() == 0 {
        return true;
    }
    let asked = match UserScope::from_str(s) {
        Ok(asked) => asked,
        Err(_) => {
            return false;
        },
    };
    if claims.is_admin() {
        return true;
    }
    let mut i: usize = 0;
    while i < asked.len()
        invariant
            i <= asked.pairs().len(),
            claims.wf(),
            asked.wf(),
            !claims@.is_admin,
            scope == Some(s),
            s@.len() != 0,
            parse_scopes(s@) == Some(asked@),
            forall|k: int| 0 <= k < i ==> allows(claims@.scopes, (#[trigger] asked.pairs()[k]).0, asked.pairs()[k].1),
        decreases asked.pairs().len() - i,
    {
        let (repo, action) = asked.entry(i);
        if !claims.scopes.is_allowed(repo.as_str(), action) {
            proof {
                lemma_map_of_at(asked.pairs(), i as int);
                let r = asked.pairs()[i as int].0;
                assert(asked@.contains_key(r) && !allows(claims@.scopes, r, asked@[r]));
            }
            return false;
        }
        i += 1;
    }
    proof {
        assert forall|r: Seq<char>| asked@.contains_key(r) implies allows(claims@.scopes, r, #[trigger] asked@[r]) by {
            lemma_map_of_dom(asked.pairs());
            let k = choose|k: int| 0 <= k < asked.pairs().len() && asked.pairs()[k].0 == r;
            lemma_map_of_at(asked.pairs(), k);
            assert(allows(claims@.scopes, asked.pairs()[k].0, asked.pairs()[k].1));
        }
    }
    true
}

/// The claims of the token that a request for a token gets at `now`, if it gets one: the
/// request needs claims that have not expired and that may have the scope asked for; the
/// token carries the same claims, issued anew.
pub open spec fn token_claims(claims: Option<ClaimsModel>, scope: Option<Seq<char>>, now: u64) -> Option<
    ClaimsModel,
> {
    match claims {
        Some(c) => if c.exp > now && scope_granted(c, scope) {
            Some(ClaimsModel { exp: expiry(now), ..c })
        } else {
            None
        },
        None => None,
    }
}

/// Answers a request for a token: the claims to sign, issued at `now` for one day, or 401
/// `Unauthorized`.
pub fn auth_token_get(auth: Option<&Auth>, scope: Option<&str>, now: u64) -> (out: Result<Claims, Response>)
    requires
        auth matches Some(a) ==> (a.claims matches Some(c) ==> c.wf()),
    ensures
        match out {
            Ok(claims) => claims.wf() && Some(claims@) == token_claims(
                match auth {
                    Some(a) => claims_view(a.claims),
                    None => None,
                },
                match scope {
                    Some(s) => Some(s@),
                    None => None,
                },
                now,
            ),
            Err(response) => token_claims(
                match auth {
                    Some(a) => claims_view(a.claims),
                    None => None,
                },
                match scope {
                    Some(s) => Some(s@),
                    None => None,
                },
                now,
            ).is_none() && response@ == error_reply(401, Code::Unauthorized, "Unauthorized"@),
        },
{
    match auth {
        Some(a) => match &a.claims {
            Some(c) => {
                if c.is_valid_at(now) && scope_is_granted(c, scope) {
                    return Ok(c.renewed(now));
                }
            },
            None => {},
        },
        None => {},
    }
    Err(Response::error(401, Code::Unauthorized, "Unauthorized"))
}

/// The answer that carries a token.
pub fn token_response(token: &str) -> (out: Response)
    ensures
        out@ == (ResponseModel { status: 200, headers: Seq::empty(), body: BodyModel::Token(token@) }),
{
    Response::new(200, Body::Token(crate::auth::TokenResponse::new(token)))
}

/// E-mail address and password of a login: those of the body if there is one, else those
/// of the query.
pub open spec fn login_of(params: DockerLogin, req: Option<LoginRequest>) -> Option<(Seq<char>, Seq<char>)> {
    match req {
        Some(r) => Some((r.email@, r.password@)),
        None => match (params.account, params.password) {
            (Some(a), Some(p)) => Some((a@, p@)),
            _ => None,
        },
    }
}

/// Logs a user in at `now`: the claims to sign, those of an ordinary token for the user, or
/// 401 `Unauthorized` when address and password are missing or not accepted.
pub fn login_user(conn: &DbConn, params: &DockerLogin, req: &Option<LoginRequest>, now: u64) -> (out: Result<
    Claims,
    Response,
>)
    ensures
        match out {
            Ok(claims) => login_of(*params, *req).is_some() && login_accepted(
                conn@.users,
                login_of(*params, *req).unwrap().0,
                login_of(*params, *req).unwrap().1,
            ) && claims.wf() && ({
                let u = conn@.user_by_email(login_of(*params, *req).unwrap().0).unwrap();
                claims@ == (ClaimsModel {
                    sub: u.id,
                    exp: expiry(now),
                    is_admin: u.is_admin,
                    scopes: Map::<Seq<char>, Action>::empty(),
                })
            }),
            Err(response) => !(login_of(*params, *req).is_some() && login_accepted(
                conn@.users,
                login_of(*params, *req).unwrap().0,
                login_of(*params, *req).unwrap().1,
            )) && response@ == error_reply(401, Code::Unauthorized, "invalid login"@),
        },
{
    let (email, password) = match req {
        Some(r) => (r.email.as_str(), r.password.as_str()),
        None => match (&params.account, &params.password) {
            (Some(a), Some(p)) => (a.as_str(), p.as_str()),
            _ => {
                return Err(Response::error(401, Code::Unauthorized, "invalid login"));
            },
        },
    };
    match verify_login(conn, email, password) {
        Ok(info) => {
            let mut claims = Claims::issued_at(info.id.as_str(), now);
            claims.set(&info);
            Ok(claims)
        },
        Err(_) => Err(Response::error(401, Code::Unauthorized, "invalid login")),
    }
}

} // verus!
