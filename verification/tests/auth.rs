use base64::Engine;
use floundr::accounts::{default_public_scopes, get_admin_scopes, get_user_scopes};
use floundr::action::Action;
use floundr::auth::{
    check_scope, is_public_route, repository_of, Auth, Claims, DAY_MILLIS, LoginRequest,
    TokenResponse, UserInfo,
};
use floundr::codes::Code;
use floundr::content_discovery::{bad_request, get_v2, DockerLogin, TagsListResponse};
use floundr::credentials::{
    auth_middleware, auth_token_get, check_headers, check_scope_middleware, get_requested_scope,
    is_pub_repo, login_user, parse_authorization, scope_is_granted, scope_to_ask, token_response,
    validate_basic_auth, validate_bearer, Credential,
};
use floundr::database::{internal_error, not_found_error, DbConn};
use floundr::endpoints::{Endpoint, Ports};
use floundr::error::{MetadataFault, Missing, StorageError};
use floundr::response::{Body, Response};
use floundr::scope::UserScope;
use floundr::screens::{
    cursor_down, cursor_up, screen_left, screen_right, InputType, Mode, ScreenType,
};
use floundr::shared::{AuthClient, ImageManifest, MANIFEST_CONTENT_TYPE, RegisterUserRequest, User};
use floundr::users::{
    add_scope, change_password, delete_user, drop_tables, generate_secret, generate_token,
    add_secret, get_auth_clients, get_users, migrate, migrate_fresh, register_user, register_with,
    seed_default_client, seed_default_user, seed_user_with,
};
use floundr::util::{
    base64_decode, check_login, millis_of, now_millis, parse_content_length, parse_content_range,
    scopes_to_vec, validate_registration, vec_to_scopes, verify_login, LAST_MILLI,
};

const URL: &str = "https://registry.example";

fn encode(text: &str) -> String {
    base64::engine::GeneralPurpose::new(
        &base64::alphabet::URL_SAFE,
        base64::engine::GeneralPurposeConfig::default(),
    )
    .encode(text)
}

fn store_with_users() -> DbConn {
    let mut conn = DbConn::new();
    let user_hash = bcrypt::hash("user-password", 4).unwrap();
    let admin_hash = bcrypt::hash("admin-password", 4).unwrap();
    conn.insert_user("u-1", "u@example.com", &user_hash, false, 1).ok().unwrap();
    conn.insert_user("a-1", "root@example.com", &admin_hash, true, 2).ok().unwrap();
    conn.create_repository("alpha", false).ok().unwrap();
    conn.create_repository("beta", true).ok().unwrap();
    conn.set_scope("u-1", 1, false, true, false);
    conn
}

fn header(r: &Response, name: &str) -> Option<String> {
    r.header_value(name)
}

fn error_code(r: &Response) -> Option<Code> {
    match &r.body {
        Body::Error(e) => Some(e.code),
        _ => None,
    }
}

fn claims_with(scope: &str, admin: bool) -> Claims {
    let mut claims = Claims::with_expiry("someone", 1_000_000);
    claims.set_admin(admin);
    if !scope.is_empty() {
        claims.set_scope(UserScope::from_str(scope).ok().unwrap());
    }
    claims
}

#[test]
fn base64_is_decoded_to_text() {
    assert_eq!(base64_decode("dXNlcjpwYXNz"), Ok("user:pass".to_string()));
    assert_eq!(base64_decode(""), Ok(String::new()));
    assert_eq!(base64_decode(&encode("u@example.com:pw?>")), Ok("u@example.com:pw?>".to_string()));
    assert_eq!(base64_decode("Pz4_Pj8-"), Ok("?>?>?>".to_string()));
    assert_eq!(base64_decode("Pz4/Pj8+"), Err("Invalid base64".to_string()));
    assert_eq!(base64_decode("not base64!"), Err("Invalid base64".to_string()));
    assert_eq!(base64_decode("_-8="), Err("Invalid base64".to_string()));
}

#[test]
fn logins_are_checked_against_the_password_hash() {
    let conn = store_with_users();
    let info = verify_login(&conn, "u@example.com", "user-password").ok().unwrap();
    assert_eq!(info.id, "u-1");
    assert_eq!(info.email, "u@example.com");
    assert!(!info.is_admin);
    let admin = verify_login(&conn, "root@example.com", "admin-password").ok().unwrap();
    assert!(admin.is_admin);
    assert_eq!(verify_login(&conn, "u@example.com", "admin-password").err(), Some("Invalid login".to_string()));
    assert_eq!(verify_login(&conn, "u@example.com", "").err(), Some("Invalid login".to_string()));
    assert_eq!(verify_login(&conn, "nobody@example.com", "user-password").err(), Some("Invalid login".to_string()));
    assert_eq!(check_login(&conn, "u@example.com", "wrong").err(), Some(StorageError::InvalidLogin));
    assert_eq!(check_login(&conn, "u@example.com", "user-password").ok().map(|i| i.id), Some("u-1".to_string()));
}

#[test]
fn a_hash_that_cannot_be_read_accepts_nothing() {
    let mut conn = DbConn::new();
    conn.insert_user("x", "x@example.com", "plain", false, 0).ok().unwrap();
    assert!(verify_login(&conn, "x@example.com", "plain").is_err());
}

#[test]
fn authorization_headers_are_read() {
    assert!(matches!(parse_authorization(None), Credential::Missing));
    assert!(matches!(parse_authorization(Some("Bearer abc")), Credential::Bearer(t) if t == "abc"));
    assert!(matches!(parse_authorization(Some("bearer   abc def")), Credential::Bearer(t) if t == "abc"));
    assert!(matches!(parse_authorization(Some("BEARER \tabc")), Credential::Bearer(t) if t == "abc"));
    assert!(matches!(parse_authorization(Some("Basic dXNlcjpwYXNz")), Credential::Basic(t) if t == "dXNlcjpwYXNz"));
    assert!(matches!(parse_authorization(Some("Bearer ")), Credential::Invalid));
    assert!(matches!(parse_authorization(Some("Bearer")), Credential::Invalid));
    assert!(matches!(parse_authorization(Some("Digest abc")), Credential::Invalid));
    assert!(matches!(parse_authorization(Some("")), Credential::Invalid));
}

#[test]
fn basic_credentials_give_the_claims_of_the_user() {
    let conn = store_with_users();
    let claims = validate_basic_auth(&encode("u@example.com:user-password"), &conn, 1000).ok().unwrap();
    assert_eq!(claims.sub, "u-1");
    assert_eq!(claims.exp, 1000 + DAY_MILLIS);
    assert!(!claims.is_admin());
    assert_eq!(claims.scopes.len(), 1);
    assert_eq!(claims.scopes.get("alpha"), Some(Action::Pull));
    let admin = validate_basic_auth(&encode("root@example.com:admin-password"), &conn, 0).ok().unwrap();
    assert!(admin.is_admin());
    assert_eq!(admin.sub, "a-1");
    assert_eq!(admin.scopes.get("alpha"), Some(Action::Delete));
    assert_eq!(admin.scopes.get("beta"), Some(Action::Delete));
    assert!(validate_basic_auth(&encode("u@example.com:wrong"), &conn, 0).is_err());
    assert!(validate_basic_auth(&encode("u@example.com"), &conn, 0).is_err());
    assert!(validate_basic_auth("***", &conn, 0).is_err());
}

#[test]
fn a_password_may_hold_colons() {
    let mut conn = DbConn::new();
    let hash = bcrypt::hash("a:b:c", 4).unwrap();
    conn.insert_user("c", "c@example.com", &hash, false, 0).ok().unwrap();
    assert!(validate_basic_auth(&encode("c@example.com:a:b:c"), &conn, 0).is_ok());
    assert!(validate_basic_auth(&encode("c@example.com:a"), &conn, 0).is_err());
}

#[test]
fn an_api_key_gives_the_claims_of_an_administrator() {
    let mut conn = store_with_users();
    conn.insert_client("tui", "0b5c9a4e-7d11-4c52-9a3e-2f6f4f1f8a10", "root@example.com", 5).ok().unwrap();
    let auth = validate_bearer("0b5c9a4e-7d11-4c52-9a3e-2f6f4f1f8a10", &conn, None, 50).ok().unwrap();
    let claims = auth.claims.unwrap();
    assert_eq!(claims.sub, "tui");
    assert!(claims.is_admin());
    assert_eq!(claims.exp, 50 + DAY_MILLIS);
    assert_eq!(claims.scopes.get("alpha"), Some(Action::Delete));
    assert_eq!(claims.scopes.get("beta"), Some(Action::Delete));
    assert!(validate_bearer("unknown", &conn, None, 50).is_err());
    assert_eq!(
        conn.insert_client("x", "s", "nobody@example.com", 5).err(),
        Some(StorageError::NotFound(Missing::User))
    );
}

#[test]
fn a_token_counts_until_it_expires() {
    let conn = store_with_users();
    let token = claims_with("repository:alpha:push", false);
    let ok = validate_bearer("signed.token.value", &conn, Some(token), 999_999).ok().unwrap();
    assert_eq!(ok.claims.unwrap().scopes.get("alpha"), Some(Action::Push));
    let late = claims_with("repository:alpha:push", false);
    assert!(validate_bearer("signed.token.value", &conn, Some(late), 1_000_000).is_err());
    let ok2 = check_headers(Some("Bearer signed.token.value"), &conn, Some(claims_with("", false)), 5);
    assert!(ok2.is_ok());
    assert!(check_headers(Some("Bearer signed.token.value"), &conn, None, 5).is_err());
    assert!(check_headers(None, &conn, None, 5).is_err());
    assert!(check_headers(Some("Negotiate x"), &conn, None, 5).is_err());
    let basic = format!("Basic {}", encode("u@example.com:user-password"));
    assert!(check_headers(Some(&basic), &conn, None, 5).is_ok());
    let bad = format!("Basic {}", encode("u@example.com:nope"));
    assert!(check_headers(Some(&bad), &conn, None, 5).is_err());
}

#[test]
fn requests_without_credentials_pass_only_where_anyone_may() {
    let conn = store_with_users();
    let login = auth_middleware(None, "POST", "/v2/auth/login", "", &conn, None, 7, URL).ok().unwrap();
    let anyone = login.claims.unwrap();
    assert_eq!(anyone.sub, "");
    assert!(!anyone.is_admin());
    assert_eq!(anyone.scopes.get("beta"), Some(Action::Pull));
    assert_eq!(anyone.scopes.get("alpha"), None);
    assert_eq!(anyone.exp, 7 + DAY_MILLIS);
    assert!(auth_middleware(None, "GET", "/repositories", "", &conn, None, 7, URL).is_ok());
    assert!(auth_middleware(None, "GET", "/v2/beta/manifests/v1", "", &conn, None, 7, URL).is_ok());
    let denied = auth_middleware(None, "GET", "/v2/alpha/manifests/v1", "", &conn, None, 7, URL).err().unwrap();
    assert_eq!(denied.status, 401);
    assert_eq!(error_code(&denied), Some(Code::Unauthorized));
    assert_eq!(
        header(&denied, "WWW-Authenticate"),
        Some(
            "Bearer realm=\"https://registry.example/v2/auth/token\",service=\"floundr\",scope=\"repository:alpha:pull\""
                .to_string()
        )
    );
    assert_eq!(header(&denied, "Warning"), Some("299 - \"authentication required\"".to_string()));
    let probe = auth_middleware(None, "GET", "/v2/", "", &conn, None, 7, URL).err().unwrap();
    assert_eq!(
        header(&probe, "WWW-Authenticate"),
        Some(
            "Bearer realm=\"https://registry.example/v2/auth/token\",service=\"floundr\",scope=\"repository:*:*\""
                .to_string()
        )
    );
    assert!(is_pub_repo("/v2/beta/tags/list", &conn));
    assert!(!is_pub_repo("/v2/alpha/tags/list", &conn));
    assert!(!is_pub_repo("/v2/", &conn));
}

#[test]
fn scope_enforcement_for_a_user_who_may_pull() {
    let mut conn = store_with_users();
    let mut storage = floundr::storage::LocalStorageDriver::new("/srv/registry");
    let digest = storage
        .write_blob_without_session_id(&mut conn, "alpha", &floundr::digest::calculate_digest(b"layer"), b"layer".to_vec())
        .ok()
        .unwrap();
    let blob_path = format!("/v2/alpha/blobs/{}", digest);
    let basic = format!("Basic {}", encode("u@example.com:user-password"));
    let auth = auth_middleware(Some(&basic), "GET", &blob_path, "", &conn, None, 10, URL).ok().unwrap();
    assert!(check_scope_middleware(Some(&auth), "GET", &blob_path, "", URL).is_ok());
    let got = floundr::blobs::get_blob("alpha", &digest, &conn, &storage);
    assert_eq!(got.status, 200);
    assert!(matches!(&got.body, Body::Bytes(b) if b == b"layer"));
    let put = check_scope_middleware(Some(&auth), "PUT", "/v2/alpha/blobs/uploads/", "", URL).err().unwrap();
    assert_eq!(put.status, 401);
    assert_eq!(
        header(&put, "WWW-Authenticate"),
        Some(
            "Bearer realm=\"https://registry.example/v2/auth/token\",service=\"floundr\",scope=\"repository:alpha:push\""
                .to_string()
        )
    );
    let token = auth_token_get(Some(&auth), Some("repository:alpha:push"), 10).err().unwrap();
    assert_eq!(token.status, 401);
    assert_eq!(error_code(&token), Some(Code::Unauthorized));
    assert!(check_scope_middleware(Some(&auth), "PATCH", "/v2/alpha/blobs/uploads/some-session", "", URL).is_err());
    let granted = auth_token_get(Some(&auth), Some("repository:alpha:pull"), 10).ok().unwrap();
    assert_eq!(granted.sub, "u-1");
    assert_eq!(granted.exp, 10 + DAY_MILLIS);
    assert_eq!(granted.scopes.get("alpha"), Some(Action::Pull));
    assert_eq!(scopes_to_vec(&granted.scopes), vec!["repository:alpha:pull"]);
}

#[test]
fn administrators_pass_every_scope_check() {
    let admin = claims_with("", true);
    for method in ["GET", "HEAD", "PUT", "POST", "PATCH", "DELETE"] {
        for path in ["/v2/alpha/blobs/x", "/v2/beta/manifests/v1", "/v2/", "/users", "/v2/x/tags/list"] {
            assert!(check_scope(&admin, method, path));
        }
    }
}

#[test]
fn a_push_scope_allows_pull_and_push_on_its_repository_only() {
    let claims = claims_with("repository:alpha:push", false);
    assert!(check_scope(&claims, "GET", "/v2/alpha/blobs/x"));
    assert!(check_scope(&claims, "HEAD", "/v2/alpha/manifests/v1"));
    assert!(check_scope(&claims, "PUT", "/v2/alpha/manifests/v1"));
    assert!(check_scope(&claims, "POST", "/v2/alpha/blobs/uploads/"));
    assert!(check_scope(&claims, "PATCH", "/v2/alpha/blobs/uploads/u"));
    assert!(!check_scope(&claims, "DELETE", "/v2/alpha/manifests/v1"));
    for method in ["GET", "HEAD", "PUT", "POST", "PATCH", "DELETE"] {
        assert!(!check_scope(&claims, method, "/v2/beta/manifests/v1"));
    }
    assert!(check_scope(&claims, "GET", "/health"));
    assert!(!check_scope(&claims, "GET", "/v2/"));
    assert!(check_scope_middleware(None, "GET", "/repositories", "", URL).is_err());
    let no_claims = Auth::default();
    assert!(check_scope_middleware(Some(&no_claims), "GET", "/v2/alpha/x", "", URL).is_err());
    let anyone = Auth { claims: Some(claims_with("", false)) };
    assert!(check_scope_middleware(Some(&anyone), "POST", "/v2/auth/login", "", URL).is_ok());
    assert!(check_scope_middleware(Some(&anyone), "GET", "/v2/auth/token", "", URL).is_ok());
}

#[test]
fn the_action_a_request_needs() {
    assert_eq!(Action::from_request("PUT", "/v2/a/b"), Some(Action::Push));
    assert_eq!(Action::from_request("POST", "/anything"), Some(Action::Push));
    assert_eq!(Action::from_request("PATCH", "/v2/a/b"), Some(Action::Push));
    assert_eq!(Action::from_request("DELETE", "/users/x"), Some(Action::Delete));
    assert_eq!(Action::from_request("GET", "/v2/a/b"), Some(Action::Pull));
    assert_eq!(Action::from_request("HEAD", "/v2/"), Some(Action::Pull));
    assert_eq!(Action::from_request("GET", "/v2"), None);
    assert_eq!(Action::from_request("GET", "/repositories"), None);
    assert_eq!(Action::from_request("put", "/repositories"), None);
    assert_eq!(repository_of("/v2/alpha/blobs/x"), "alpha");
    assert_eq!(repository_of("/v2/"), "");
    assert_eq!(repository_of("/v2"), "");
    assert_eq!(repository_of(""), "");
}

#[test]
fn the_scope_a_query_asks_for() {
    assert_eq!(get_requested_scope(""), "repository:*:*");
    assert_eq!(get_requested_scope("service=floundr"), "repository:*:*");
    assert_eq!(get_requested_scope("scope=repository:alpha:pull"), "repository:alpha:pull");
    assert_eq!(
        get_requested_scope("service=x&scope=repository:alpha:pull,push&scope=registry:beta:*"),
        "repository:alpha:pull repository:alpha:push repository:beta:*"
    );
    assert_eq!(get_requested_scope("scope=alpha"), "repository:*:*");
    assert_eq!(get_requested_scope("scope=repository:alpha:"), "repository:alpha:");
    assert_eq!(scope_to_ask("GET", "/v2/alpha/x", "scope=repository:beta:push"), "repository:beta:push");
    assert_eq!(scope_to_ask("DELETE", "/v2/alpha/x", ""), "repository:alpha:delete");
    assert_eq!(scope_to_ask("GET", "/elsewhere", ""), "repository:*:*");
}

#[test]
fn tokens_are_granted_for_scopes_that_are_held() {
    let holder = claims_with("repository:alpha:push repository:beta:pull", false);
    assert!(scope_is_granted(&holder, None));
    assert!(scope_is_granted(&holder, Some("")));
    assert!(scope_is_granted(&holder, Some("repository:alpha:pull")));
    assert!(scope_is_granted(&holder, Some("repository:alpha:push repository:beta:pull")));
    assert!(!scope_is_granted(&holder, Some("repository:beta:push")));
    assert!(!scope_is_granted(&holder, Some("repository:gamma:pull")));
    assert!(!scope_is_granted(&holder, Some("repository:*:push")));
    assert!(scope_is_granted(&holder, Some("repository:*:pull")));
    assert!(!scope_is_granted(&holder, Some("nonsense")));
    let admin = claims_with("", true);
    assert!(scope_is_granted(&admin, Some("repository:gamma:delete")));
    assert!(!scope_is_granted(&admin, Some("nonsense")));
    let expired = Auth { claims: Some(claims_with("repository:alpha:push", false)) };
    assert!(auth_token_get(Some(&expired), None, 1_000_000).is_err());
    assert!(auth_token_get(Some(&expired), None, 999_999).is_ok());
    assert!(auth_token_get(None, None, 0).is_err());
    assert!(auth_token_get(Some(&Auth::default()), None, 0).is_err());
    let response = token_response("abc.def.ghi");
    assert_eq!(response.status, 200);
    assert!(matches!(&response.body, Body::Token(t) if t.token == "abc.def.ghi"));
    assert_eq!(TokenResponse::new("x").token, "x");
}

#[test]
fn users_log_in_with_body_or_query() {
    let conn = store_with_users();
    let empty = DockerLogin {
        service: None,
        client_id: None,
        scope: None,
        offline_token: None,
        account: None,
        password: None,
    };
    let body = Some(LoginRequest { email: "root@example.com".to_string(), password: "admin-password".to_string() });
    let claims = login_user(&conn, &empty, &body, 100).ok().unwrap();
    assert_eq!(claims.sub, "a-1");
    assert!(claims.is_admin());
    assert_eq!(claims.exp, 100 + DAY_MILLIS);
    assert_eq!(claims.scopes.len(), 0);
    let query = DockerLogin {
        service: None,
        client_id: None,
        scope: None,
        offline_token: None,
        account: Some("u@example.com".to_string()),
        password: Some("user-password".to_string()),
    };
    assert_eq!(login_user(&conn, &query, &None, 100).ok().unwrap().sub, "u-1");
    let denied = login_user(&conn, &empty, &None, 100).err().unwrap();
    assert_eq!(denied.status, 401);
    assert_eq!(error_code(&denied), Some(Code::Unauthorized));
    let wrong = Some(LoginRequest { email: "u@example.com".to_string(), password: "x".to_string() });
    assert_eq!(login_user(&conn, &query, &wrong, 100).err().unwrap().status, 401);
}

#[test]
fn a_registered_user_can_log_in() {
    let mut conn = DbConn::new();
    let req = RegisterUserRequest::new("new@example.com", "s3cret-pass", "s3cret-pass", false);
    assert_eq!(register_user(&mut conn, &req).status, 201);
    assert_eq!(conn.users.len(), 1);
    assert_eq!(conn.users[0].email, "new@example.com");
    assert_eq!(conn.users[0].id.len(), 36);
    assert_ne!(conn.users[0].password, "s3cret-pass");
    assert!(verify_login(&conn, "new@example.com", "s3cret-pass").is_ok());
    assert!(verify_login(&conn, "new@example.com", "other-pass").is_err());
    assert_eq!(register_user(&mut conn, &req).status, 400);
    let bad = RegisterUserRequest::new("new2@example.com", "s3cret-pass", "different", false);
    assert_eq!(register_user(&mut conn, &bad).status, 400);
    assert_eq!(conn.users.len(), 1);
    let change = RegisterUserRequest::new("new@example.com", "an0ther-pass", "an0ther-pass", false);
    assert_eq!(change_password(&mut conn, &change).status, 200);
    assert!(verify_login(&conn, "new@example.com", "an0ther-pass").is_ok());
    assert!(verify_login(&conn, "new@example.com", "s3cret-pass").is_err());
    let nobody = RegisterUserRequest::new("no@example.com", "an0ther-pass", "an0ther-pass", false);
    assert_eq!(change_password(&mut conn, &nobody).status, 404);
    let short = RegisterUserRequest::new("new@example.com", "short", "short", false);
    assert_eq!(change_password(&mut conn, &short).status, 400);
    let fixed = register_with(&mut conn, &nobody, "id-9", "hash-9", 9);
    assert_eq!(fixed.status, 201);
    assert_eq!(conn.users[1].id, "id-9");
    assert_eq!(conn.users[1].password, "hash-9");
    assert_eq!(conn.users[1].created_at, 9);
}

#[test]
fn registrations_are_checked() {
    assert_eq!(validate_registration("a@b.c", "12345678", "12345678"), Ok(()));
    assert_eq!(validate_registration("a@b.c", "1234567", "1234567"), Err("Invalid registration".to_string()));
    assert_eq!(validate_registration("a@b.c", "12345678", "12345679"), Err("Invalid registration".to_string()));
    assert_eq!(validate_registration("ab.c", "12345678", "12345678"), Err("Invalid registration".to_string()));
    assert_eq!(validate_registration("a@bc", "12345678", "12345678"), Err("Invalid registration".to_string()));
    assert_eq!(validate_registration("a@b.c", "ééééé", "ééééé"), Ok(()));
    let ok = RegisterUserRequest::new("a@b.c", "password1", "password1", true);
    assert!(ok.validate());
    assert!(ok.is_admin);
    assert!(!RegisterUserRequest::new("a@b.c", "password", "password", true).validate());
    assert!(!RegisterUserRequest::new("a@b.c", "passwor1", "passwor1", true).validate());
    assert!(!RegisterUserRequest::new("a@b.c", "password1", "password2", true).validate());
    assert!(!RegisterUserRequest::new("ä@b.c", "password1", "password1", true).validate());
    assert!(RegisterUserRequest::new("a@b.c", "pässwor1", "pässwor1", true).validate());
    assert!(!RegisterUserRequest::new("a@b.c", "passwor1", "passwor1", true).validate());
    assert!(RegisterUserRequest::new("a@b.c", "password٣", "password٣", true).validate());
    assert!(RegisterUserRequest::new("a@b.c", "password¾", "password¾", true).validate());
    assert!(!RegisterUserRequest::new("a@b.c", "password三", "password三", true).validate());
    assert!(User::with_identity("id", "a@b.c", "pässwor1", false, 3).validate());
    let read = RegisterUserRequest::from_input_buff(&["a@b.c", "password1", "password1", "y"]).ok().unwrap();
    assert!(read.is_admin);
    assert_eq!(read.email, "a@b.c");
    let plain = RegisterUserRequest::from_input_buff(&["a@b.c", "password1", "password1", "n"]).ok().unwrap();
    assert!(!plain.is_admin);
    assert_eq!(
        RegisterUserRequest::from_input_buff(&["a@b.c", "password1", "password1"]).err(),
        Some("Invalid input".to_string())
    );
    assert_eq!(
        RegisterUserRequest::from_input_buff(&["a@b.c", "password1", "password2", "y"]).err(),
        Some("Invalid input".to_string())
    );
    let user = User::with_identity("id", "a@b.c", "password1", false, 3);
    assert!(user.validate());
    assert_eq!(user.created_at, 3);
    assert!(!User::with_identity("id", "a@b.c", "password", false, 3).validate());
    let fresh = User::new("a@b.c", "password1", true);
    let other = User::new("a@b.c", "password1", true);
    assert_eq!(fresh.id.len(), 36);
    assert_ne!(fresh.id, other.id);
    assert!(fresh.is_admin && fresh.validate());
    assert!(fresh.created_at > 1_600_000_000_000);
    let client = AuthClient::created_at("cid", "sec", "a@b.c", 4);
    assert_eq!(client.id, 0);
    assert_eq!(client.secret, "sec");
    assert_eq!(client.created_at, 4);
    let now = AuthClient::new("cid", "sec", "a@b.c");
    assert_eq!(now.email, "a@b.c");
    assert!(now.created_at > 1_600_000_000_000);
    let blank = AuthClient::default();
    assert_eq!((blank.id, blank.client_id.as_str(), blank.secret.as_str()), (0, "", ""));
}

#[test]
fn claims_are_set_and_expire() {
    let mut claims = Claims::with_expiry("u", 100);
    assert!(claims.is_valid_at(99));
    assert!(!claims.is_valid_at(100));
    assert!(!claims.is_valid());
    claims.set(&UserInfo { id: "other".to_string(), email: "o@x.y".to_string(), is_admin: true });
    assert_eq!(claims.sub, "other");
    assert!(claims.is_admin());
    claims.set_sub("third".to_string());
    claims.set_admin(false);
    let mut scopes = UserScope::new();
    scopes.insert("alpha".to_string(), Action::Push);
    claims.set_scope(scopes);
    assert_eq!(claims.sub, "third");
    assert!(!claims.is_admin());
    assert_eq!(claims.scopes.get("alpha"), Some(Action::Push));
    let renewed = claims.renewed(500);
    assert_eq!(renewed.exp, 500 + DAY_MILLIS);
    assert_eq!(renewed.sub, "third");
    assert_eq!(renewed.scopes.get("alpha"), Some(Action::Push));
    assert_eq!(claims.renewed(u64::MAX).exp, u64::MAX);
    assert_eq!(Claims::issued_at("u", 5).exp, 5 + 86_400_000);
    let info = claims.get_user_info().unwrap();
    assert_eq!(info.id, "third");
    assert_eq!(info.email, "");
    let auth = Auth { claims: Some(claims) };
    assert!(auth.is_valid_at(99));
    assert!(!auth.is_valid_at(100));
    assert!(!auth.is_valid());
    assert_eq!(auth.get_user_info().map(|i| i.id), Some("third".to_string()));
    assert!(!Auth::default().is_valid());
    assert!(Auth::default().get_user_info().is_none());
}

#[test]
fn fresh_claims_are_valid_for_a_day() {
    let before = now_millis();
    assert!(before > 1_600_000_000_000);
    let claims = Claims::new("u-1");
    let after = now_millis();
    assert_eq!(claims.sub, "u-1");
    assert!(!claims.is_admin());
    assert_eq!(claims.scopes.len(), 0);
    assert!(claims.exp >= before + DAY_MILLIS && claims.exp <= after + DAY_MILLIS);
    assert!(claims.is_valid());
    let blank = Claims::default();
    assert_eq!(blank.sub, "");
    assert!(blank.is_valid());
    assert!(Auth { claims: Some(blank) }.is_valid());
}

#[test]
fn public_routes_are_three() {
    assert!(is_public_route("/repositories"));
    assert!(is_public_route("/v2/auth/token"));
    assert!(is_public_route("/v2/auth/login"));
    assert!(!is_public_route("/v2/auth/register"));
    assert!(!is_public_route("/repositories/"));
    assert!(!is_public_route("/v2/"));
}

#[test]
fn upload_headers_are_read() {
    assert_eq!(parse_content_length(Some("42")), 42);
    assert_eq!(parse_content_length(Some("-3")), -3);
    assert_eq!(parse_content_length(Some("x")), 0);
    assert_eq!(parse_content_length(Some("")), 0);
    assert_eq!(parse_content_length(None), 0);
    assert_eq!(parse_content_range(Some("0-4")), (0, 4));
    assert_eq!(parse_content_range(Some("5-9")), (5, 9));
    assert_eq!(parse_content_range(Some("5")), (5, 0));
    assert_eq!(parse_content_range(Some("a-9")), (0, 9));
    assert_eq!(parse_content_range(Some("5-b")), (5, 0));
    assert_eq!(parse_content_range(Some("")), (0, 0));
    assert_eq!(parse_content_range(None), (0, 0));
}

#[test]
fn scopes_come_from_the_rows_of_the_store() {
    let mut conn = store_with_users();
    conn.create_repository("gamma", false).ok().unwrap();
    conn.set_scope("u-1", 2, true, true, false);
    conn.set_scope("u-1", 3, false, false, false);
    conn.set_scope("u-2", 3, true, true, true);
    conn.set_scope("u-1", 99, true, true, true);
    let user = get_user_scopes(&conn, "u-1");
    assert_eq!(user.len(), 2);
    assert_eq!(user.get("alpha"), Some(Action::Pull));
    assert_eq!(user.get("beta"), Some(Action::Push));
    assert_eq!(user.get("gamma"), None);
    assert_eq!(get_user_scopes(&conn, "u-2").get("gamma"), Some(Action::Delete));
    assert_eq!(get_user_scopes(&conn, "nobody").len(), 0);
    let admin = get_admin_scopes(&conn);
    assert_eq!(admin.len(), 3);
    assert_eq!(admin.get("gamma"), Some(Action::Delete));
    let anyone = default_public_scopes(&conn);
    assert_eq!(anyone.len(), 1);
    assert_eq!(anyone.get("beta"), Some(Action::Pull));
    assert_eq!(conn.scope_flags("u-1", 2), Some((true, true, false)));
    assert_eq!(conn.scope_flags("u-1", 7), None);
    let list = vec!["repository:a:pull".to_string(), "repository:a:delete,pull".to_string()];
    assert_eq!(vec_to_scopes(&list).ok().unwrap().get("a"), Some(Action::Delete));
}

#[test]
fn scopes_are_added_to_users() {
    let mut conn = store_with_users();
    assert_eq!(add_scope("u@example.com", "beta", "push", &mut conn).status, 204);
    assert_eq!(conn.scope_flags("u-1", 2), Some((true, true, false)));
    assert_eq!(add_scope("u@example.com", "alpha", "delete", &mut conn).status, 204);
    assert_eq!(conn.scope_flags("u-1", 1), Some((true, true, true)));
    assert_eq!(add_scope("u@example.com", "beta", "fly", &mut conn).status, 204);
    assert_eq!(conn.scope_flags("u-1", 2), Some((true, true, false)));
    assert_eq!(add_scope("nobody@example.com", "beta", "push", &mut conn).status, 404);
    assert_eq!(add_scope("u@example.com", "nowhere", "push", &mut conn).status, 404);
    assert_eq!(conn.repository_scopes.len(), 2);
    let users = get_users(&conn);
    assert_eq!(users.status, 200);
    match &users.body {
        Body::Users(list) => {
            assert_eq!(list.len(), 2);
            assert_eq!(list[0].user.email, "u@example.com");
            assert_eq!(list[0].user.password, "");
            assert_eq!(list[0].scopes.len(), 2);
            assert_eq!(list[0].scopes[0].repo, "alpha");
            assert_eq!(list[0].scopes[0].scope, vec!["push", "pull", "delete"]);
            assert_eq!(list[0].scopes[1].scope, vec!["push", "pull"]);
            assert_eq!(list[1].scopes[0].scope, vec!["pull", "push", "delete"]);
        }
        _ => panic!("no users"),
    }
    assert_eq!(delete_user("u@example.com", &mut conn).status, 204);
    assert_eq!(conn.users.len(), 1);
    assert_eq!(delete_user("u@example.com", &mut conn).status, 204);
}

#[test]
fn api_keys_are_made_and_listed() {
    let mut conn = store_with_users();
    let secret = generate_secret(&mut conn, Some("cli".to_string()), "root@example.com").ok().unwrap();
    assert_eq!(secret.len(), 36);
    assert_eq!(conn.clients.len(), 1);
    assert_eq!(conn.clients[0].client_id, "cli");
    assert_eq!(conn.clients[0].secret, secret);
    assert_eq!(conn.clients[0].user_id, "a-1");
    assert_eq!(conn.client_for_secret(&secret), Some("cli".to_string()));
    assert_eq!(conn.client_for_secret("other"), None);
    let token = generate_token("u@example.com", &mut conn);
    assert_eq!(token.status, 200);
    let second = match &token.body {
        Body::Token(t) => t.token.clone(),
        _ => panic!("no token"),
    };
    assert_ne!(second, secret);
    assert_eq!(conn.clients[1].secret, second);
    let refused = generate_token("nobody@example.com", &mut conn);
    assert_eq!(refused.status, 404);
    assert_eq!(error_code(&refused), Some(Code::NameUnknown));
    assert_eq!(conn.clients.len(), 2);
    assert_eq!(second.len(), 36);
    assert_eq!(conn.clients[1].client_id.len(), 36);
    assert_eq!(conn.clients[1].user_id, "u-1");
    assert!(generate_secret(&mut conn, None, "nobody@example.com").is_err());
    let listing = get_auth_clients(&conn);
    match &listing.body {
        Body::Clients(list) => {
            assert_eq!(list.len(), 2);
            assert_eq!(list[0].client_id, "cli");
            assert_eq!(list[0].email, "root@example.com");
            assert_eq!(list[1].email, "u@example.com");
        }
        _ => panic!("no clients"),
    }
}

#[test]
fn a_fresh_store_gets_its_first_administrator() {
    let mut conn = DbConn::new();
    assert!(migrate(&mut conn, None, None).is_ok());
    assert_eq!(conn.users.len(), 1);
    assert_eq!(conn.users[0].email, "floundr_admin");
    assert!(conn.users[0].is_admin);
    assert!(verify_login(&conn, "floundr_admin", "admin").is_ok());
    assert!(migrate(&mut conn, Some("x@y.z".to_string()), None).is_ok());
    assert_eq!(conn.users.len(), 1);
    assert!(seed_default_client(&mut conn).is_ok());
    assert_eq!(conn.clients[0].client_id, "floundr_tui");
    conn.create_repository("alpha", false).ok().unwrap();
    assert!(migrate_fresh(&mut conn, Some("me@x.y".to_string()), Some("pass-word-1".to_string())).is_ok());
    assert_eq!(conn.users.len(), 1);
    assert_eq!(conn.users[0].email, "me@x.y");
    assert_eq!(conn.repositories.len(), 0);
    assert_eq!(conn.clients.len(), 0);
    assert!(verify_login(&conn, "me@x.y", "pass-word-1").is_ok());
    assert!(seed_default_user(&mut conn, Some("me@x.y".to_string()), None).is_err());
    assert!(seed_default_client(&mut conn).is_err());
    assert!(drop_tables(&mut conn).is_ok());
    assert_eq!(conn.users.len(), 0);
}

#[test]
fn a_key_needs_its_user() {
    let mut conn = store_with_users();
    assert_eq!(
        generate_secret(&mut conn, None, "nobody@example.com").err(),
        Some(StorageError::NotFound(Missing::User))
    );
    assert_eq!(
        add_secret(&mut conn, "c", "s", "nobody@example.com", 5).err(),
        Some(StorageError::NotFound(Missing::User))
    );
    assert_eq!(seed_default_client(&mut conn).err(), Some(StorageError::NotFound(Missing::User)));
    assert_eq!(conn.clients.len(), 0);
    assert_eq!(add_secret(&mut conn, "c", "s", "u@example.com", 5).ok(), Some("s".to_string()));
    assert_eq!(conn.clients[0].client_id, "c");
    assert_eq!(conn.clients[0].secret, "s");
    assert_eq!(conn.clients[0].user_id, "u-1");
    assert_eq!(conn.clients[0].created_at, 5);
    let secret = generate_secret(&mut conn, None, "u@example.com").ok().unwrap();
    assert_eq!(conn.clients.len(), 2);
    assert_eq!(conn.clients[1].secret, secret);
    assert_eq!(conn.clients[1].user_id, "u-1");
    assert_eq!(conn.clients[1].client_id.len(), 36);
    assert_ne!(conn.clients[1].client_id, secret);
    assert!(secret.chars().all(|c| c == '-' || c.is_ascii_digit() || ('a'..='f').contains(&c)));
    assert!(conn.clients[1].created_at >= 0);
    conn.next_id = u64::MAX;
    assert_eq!(
        generate_secret(&mut conn, None, "u@example.com").err(),
        Some(StorageError::MetadataError(MetadataFault::OutOfRange))
    );
    assert_eq!(conn.clients.len(), 2);
}

#[test]
fn an_administrator_is_added_with_a_hash() {
    let mut conn = DbConn::new();
    assert_eq!(seed_user_with(&mut conn, "root", None, "id-1", 7).err(), Some(StorageError::InvalidInput));
    assert_eq!(conn.users.len(), 0);
    assert!(seed_user_with(&mut conn, "root", Some("hash".to_string()), "id-1", 7).is_ok());
    assert_eq!(conn.users.len(), 1);
    assert_eq!(conn.users[0].id, "id-1");
    assert_eq!(conn.users[0].email, "root");
    assert_eq!(conn.users[0].password, "hash");
    assert_eq!(conn.users[0].created_at, 7);
    assert!(conn.users[0].is_admin);
    assert_eq!(
        seed_user_with(&mut conn, "root", Some("other".to_string()), "id-2", 8).err(),
        Some(StorageError::MetadataError(MetadataFault::Duplicate))
    );
    assert_eq!(
        seed_default_user(&mut conn, Some("root".to_string()), None).err(),
        Some(StorageError::MetadataError(MetadataFault::Duplicate))
    );
    assert_eq!(conn.users.len(), 1);
    assert!(seed_default_user(&mut conn, None, Some("secret-word".to_string())).is_ok());
    assert_eq!(conn.users.len(), 2);
    assert_eq!(conn.users[1].email, "floundr_admin");
    assert_eq!(conn.users[1].id.len(), 36);
    assert!(conn.users[1].created_at >= 0);
    assert!(bcrypt::verify("secret-word", &conn.users[1].password).unwrap());
    assert!(seed_default_client(&mut conn).is_ok());
    assert_eq!(conn.clients[0].user_id, conn.users[1].id);
    assert_eq!(conn.clients[0].secret.len(), 36);
}

#[test]
fn a_new_start_empties_the_store() {
    let mut conn = store_with_users();
    conn.create_repository("gamma", false).ok().unwrap();
    generate_secret(&mut conn, None, "u@example.com").ok().unwrap();
    let next = conn.next_id;
    assert!(migrate_fresh(&mut conn, None, None).is_ok());
    assert_eq!(conn.next_id, next);
    assert_eq!(conn.users.len(), 1);
    assert_eq!(conn.users[0].email, "floundr_admin");
    assert!(bcrypt::verify("admin", &conn.users[0].password).unwrap());
    assert_eq!(conn.repositories.len(), 0);
    assert_eq!(conn.clients.len(), 0);
    assert_eq!(conn.blobs.len(), 0);
}

#[test]
fn a_changed_password_is_hashed() {
    let mut conn = store_with_users();
    let change = RegisterUserRequest::new("u@example.com", "new-password-1", "new-password-1", false);
    let before = conn.users.iter().find(|u| u.email == "u@example.com").unwrap().password.clone();
    assert_eq!(change_password(&mut conn, &change).status, 200);
    let after = conn.users.iter().find(|u| u.email == "u@example.com").unwrap().password.clone();
    assert_ne!(before, after);
    assert!(bcrypt::verify("new-password-1", &after).unwrap());
    assert_eq!(conn.users.len(), 2);
    let nobody = RegisterUserRequest::new("nobody@example.com", "new-password-1", "new-password-1", false);
    let answer = change_password(&mut conn, &nobody);
    assert_eq!(answer.status, 404);
    match &answer.body {
        Body::Text(t) => assert_eq!(t, "user not found"),
        _ => panic!("no text"),
    }
    let unlike = RegisterUserRequest::new("u@example.com", "new-password-1", "new-password-2", false);
    assert_eq!(change_password(&mut conn, &unlike).status, 400);
    let kept = conn.users.iter().find(|u| u.email == "u@example.com").unwrap().password.clone();
    assert_eq!(kept, after);
}

#[test]
fn the_clock_gives_a_time_that_fits() {
    assert_eq!(millis_of(-5), 0);
    assert_eq!(millis_of(0), 0);
    assert_eq!(millis_of(1234), 1234);
    assert_eq!(millis_of(i64::MAX), LAST_MILLI);
    assert_eq!(LAST_MILLI, 9_223_372_036_854_775_807);
    let now = now_millis();
    assert!(now > 1_600_000_000_000 && now <= LAST_MILLI);
    let mut claims = Claims::default();
    claims.exp = u64::MAX;
    assert!(claims.is_valid());
    assert!(Auth { claims: Some(claims) }.is_valid());
    let mut old = Claims::default();
    old.exp = 0;
    assert!(!old.is_valid());
    assert!(!old.is_valid_at(0));
    assert!(!Auth { claims: Some(old) }.is_valid());
    assert!(!Auth { claims: None }.is_valid());
}

#[test]
fn small_answers() {
    assert_eq!(bad_request("no"), (400, "no".to_string()));
    assert_eq!(internal_error("broken"), (500, "broken".to_string()));
    assert_eq!(not_found_error("gone"), (404, "gone".to_string()));
    assert_eq!(get_v2(), 200);
    let tags = TagsListResponse::new("alpha", &["a".to_string(), "b".to_string()]);
    assert_eq!(tags.name, "alpha");
    assert_eq!(tags.tags, vec!["a", "b"]);
    let manifest = ImageManifest::default();
    assert_eq!(manifest.schema_version, 2);
    assert_eq!(manifest.media_type, Some(MANIFEST_CONTENT_TYPE.to_string()));
    assert_eq!(manifest.config_size(), 0);
    assert_eq!(manifest.layers.len(), 0);
    let ports = Ports(8080, 443);
    assert_eq!((ports.0, ports.1), (8080, 443));
    assert_eq!(Endpoint::PatchBlobsUploads.method(), "PATCH");
    assert_eq!(Endpoint::DeleteManifests.method(), "DELETE");
    assert_eq!(Endpoint::GetTagsList.method(), "GET");
    assert_eq!(Endpoint::HeadBlobs.method(), "HEAD");
    assert_eq!(Endpoint::PutManifests.method(), "PUT");
    assert_eq!(Endpoint::PostBlobsUploadsMount.method(), "POST");
}

#[test]
fn the_cursor_stays_on_the_screen() {
    assert_eq!(ScreenType::Home.get_cursor_len(5), 0);
    assert_eq!(ScreenType::Repos.get_cursor_len(5), 5);
    assert_eq!(ScreenType::Users.get_cursor_len(5), 3);
    assert_eq!(cursor_up(0), 0);
    assert_eq!(cursor_up(3), 2);
    assert_eq!(cursor_down(0, 0), 0);
    assert_eq!(cursor_down(0, 3), 1);
    assert_eq!(cursor_down(2, 3), 2);
    assert_eq!(cursor_down(7, 3), 2);
    assert_eq!(cursor_down(usize::MAX, 3), 2);
    assert_eq!(screen_left(0, 3), 0);
    assert_eq!(screen_left(2, 3), 1);
    assert_eq!(screen_left(9, 3), 0);
    assert_eq!(screen_right(0, 3), 1);
    assert_eq!(screen_right(2, 3), 2);
    assert_eq!(screen_right(usize::MAX, 3), 2);
    assert_ne!(Mode::Normal, Mode::Insert);
    assert_ne!(InputType::NewRepo, InputType::DeleteRepo);
}
