use floundr::action::Action;
use floundr::codes::{Code, ErrorResponse, MAX_BYTES};
use floundr::digest::{add_sha_header, calculate_digest, strip_sha_header, to_hex, validate_digest};
use floundr::error::StorageError;
use floundr::paths::{
    is_valid_namespace, is_valid_reference, join_path, name_is_valid, normal_path, path_is_plain,
    path_is_valid,
};
use floundr::scope::UserScope;
use floundr::text::{chars_of, format_i64, format_u64, parse_i64, split, string_of, to_lower};

const EMPTY_DIGEST: &str = "sha256:e3b0c44298fc1c149afbf4c8996fb92427ae41e4649b934ca495991b7852b855";

const HELLOWORLD_DIGEST: &str =
    "sha256:936a185caaa266bb9cbe981e9e05cb78cd732b0b3280eb944412bb6f8f8f07af";

fn text(v: &Vec<char>) -> String {
    v.iter().collect()
}

#[test]
fn digest_of_nothing_is_the_known_value() {
    assert_eq!(calculate_digest(b""), EMPTY_DIGEST);
}

#[test]
fn digest_of_helloworld_is_the_known_value() {
    assert_eq!(calculate_digest(b"helloworld"), HELLOWORLD_DIGEST);
}

#[test]
fn digest_differs_from_its_input() {
    let d = calculate_digest(b"abc");
    assert_eq!(d.len(), 71);
    assert_eq!(d, "sha256:ba7816bf8f01cfea414140de5dae2223b00361a396177a9cb410ff61f20015ad");
}

#[test]
fn hex_is_lower_case_and_high_half_first() {
    assert_eq!(text(&to_hex(&[0x00, 0x0f, 0xa5, 0xff])), "000fa5ff");
    assert_eq!(text(&to_hex(&[])), "");
}

#[test]
fn validate_digest_accepts_both_forms() {
    assert_eq!(validate_digest(b"", EMPTY_DIGEST), Ok(()));
    assert_eq!(validate_digest(b"", &EMPTY_DIGEST[7..]), Ok(()));
    assert_eq!(validate_digest(b"x", EMPTY_DIGEST), Err(StorageError::DigestError));
}

#[test]
fn sha_header_is_added_once_and_stripped() {
    assert_eq!(add_sha_header("abc"), "sha256:abc");
    assert_eq!(add_sha_header("sha256:abc"), "sha256:abc");
    assert_eq!(strip_sha_header("sha256:abc"), "abc");
    assert_eq!(strip_sha_header("abc"), "abc");
}

#[test]
fn split_keeps_empty_pieces() {
    let s = chars_of("a::b:");
    let parts = split(&s, ':');
    let got: Vec<String> = parts.iter().map(text).collect();
    assert_eq!(got, vec!["a", "", "b", ""]);
    let none = split(&chars_of(""), ':');
    assert_eq!(none.len(), 1);
    assert_eq!(none[0].len(), 0);
}

#[test]
fn numbers_are_read_with_sign_and_range() {
    assert_eq!(parse_i64(&chars_of("0")), Some(0));
    assert_eq!(parse_i64(&chars_of("42")), Some(42));
    assert_eq!(parse_i64(&chars_of("+42")), Some(42));
    assert_eq!(parse_i64(&chars_of("-42")), Some(-42));
    assert_eq!(parse_i64(&chars_of("007")), Some(7));
    assert_eq!(parse_i64(&chars_of("9223372036854775807")), Some(i64::MAX));
    assert_eq!(parse_i64(&chars_of("9223372036854775808")), None);
    assert_eq!(parse_i64(&chars_of("-9223372036854775808")), Some(i64::MIN));
    assert_eq!(parse_i64(&chars_of("-9223372036854775809")), None);
    assert_eq!(parse_i64(&chars_of("")), None);
    assert_eq!(parse_i64(&chars_of("-")), None);
    assert_eq!(parse_i64(&chars_of("1a")), None);
    assert_eq!(parse_i64(&chars_of(" 1")), None);
}

#[test]
fn numbers_are_written_in_decimal() {
    assert_eq!(text(&format_u64(0)), "0");
    assert_eq!(text(&format_u64(9)), "9");
    assert_eq!(text(&format_u64(10)), "10");
    assert_eq!(text(&format_u64(u64::MAX)), "18446744073709551615");
    assert_eq!(text(&format_i64(-5)), "-5");
    assert_eq!(text(&format_i64(i64::MIN)), "-9223372036854775808");
    assert_eq!(text(&format_i64(i64::MAX)), "9223372036854775807");
}

#[test]
fn numbers_written_are_read_back() {
    for n in [0i64, 1, 9, 10, 99, 100, 12345, -1, -10, i64::MAX, i64::MIN] {
        assert_eq!(parse_i64(&format_i64(n)), Some(n));
    }
}

#[test]
fn lower_folds_only_ascii_letters() {
    assert_eq!(text(&to_lower(&chars_of("AbC-1_Z"))), "abc-1_z");
    assert_eq!(string_of(&to_lower(&chars_of("É"))), "É");
}

#[test]
fn paths_must_be_made_of_plain_names() {
    assert!(path_is_valid("alpine"));
    assert!(path_is_valid("library/alpine/blobs"));
    assert!(!path_is_valid(""));
    assert!(!path_is_valid("/etc"));
    assert!(!path_is_valid("a/../b"));
    assert!(!path_is_valid(".."));
    assert!(!path_is_valid("./a"));
    assert!(!path_is_valid("."));
    assert!(!path_is_valid("a/.."));
    assert!(!path_is_valid("//a"));
    assert!(path_is_valid("a//b"));
    assert!(path_is_valid("a/"));
    assert!(path_is_valid("a/./b"));
    assert!(path_is_valid("a/."));
    assert!(path_is_valid("a/..b"));
    assert!(path_is_valid(".a/b"));
    assert!(path_is_valid("..a"));
    assert!(path_is_plain("alpine"));
    assert!(path_is_plain("library/alpine/blobs"));
    assert!(path_is_plain("a/..b"));
    assert!(!path_is_plain(""));
    assert!(!path_is_plain("/etc"));
    assert!(!path_is_plain("a//b"));
    assert!(!path_is_plain("a/"));
    assert!(!path_is_plain("a/./b"));
    assert!(!path_is_plain("./a"));
    assert!(!path_is_plain("a/../b"));
    assert_eq!(normal_path("a//b/"), "a/b");
    assert_eq!(normal_path("a/./b/."), "a/b");
    assert_eq!(normal_path("library/alpine/blobs"), "library/alpine/blobs");
    assert_eq!(normal_path("a"), "a");
    assert_eq!(normal_path("a/"), "a");
    assert_eq!(normal_path(""), "");
    assert_eq!(normal_path("a/..b/.c"), "a/..b/.c");
    assert!(name_is_valid("v1"));
    assert!(name_is_valid("sha256:abc"));
    assert!(!name_is_valid("a/b"));
    assert!(!name_is_valid("."));
    assert!(!name_is_valid(""));
    assert_eq!(join_path("/srv", "a/b"), "/srv/a/b");
}

#[test]
fn permissions_follow_the_order_of_the_actions() {
    let all = [Action::Pull, Action::Push, Action::Delete];
    for (i, held) in all.iter().enumerate() {
        for (j, asked) in all.iter().enumerate() {
            assert_eq!(held.check_permission(*asked), i >= j);
        }
    }
    assert!(Action::Pull < Action::Push);
    assert!(Action::Push < Action::Delete);
    assert!(Action::Delete > Action::Pull);
    assert_eq!(Action::Push.max_with(Action::Pull), Action::Push);
    assert_eq!(Action::Pull.max_with(Action::Delete), Action::Delete);
}

#[test]
fn to_vec_lists_the_permitted_actions_strongest_first() {
    assert_eq!(Action::Pull.to_vec(), vec![Action::Pull]);
    assert_eq!(Action::Push.to_vec(), vec![Action::Push, Action::Pull]);
    assert_eq!(Action::Delete.to_vec(), vec![Action::Delete, Action::Push, Action::Pull]);
}

#[test]
fn actions_are_read_from_lists_and_reduced_to_the_strongest() {
    assert_eq!(Action::from_str("pull"), Ok(Action::Pull));
    assert_eq!(Action::from_str("push"), Ok(Action::Push));
    assert_eq!(Action::from_str("delete"), Ok(Action::Delete));
    assert_eq!(Action::from_str("*"), Ok(Action::Delete));
    assert_eq!(Action::from_str("push,pull"), Ok(Action::Push));
    assert_eq!(Action::from_str("pull,push"), Ok(Action::Push));
    assert_eq!(Action::from_str("push,pull,delete"), Ok(Action::Delete));
    assert_eq!(Action::from_str("pull,*"), Ok(Action::Delete));
    assert_eq!(Action::from_str("fly"), Err("invalid action: fly".to_string()));
    assert_eq!(Action::from_str(""), Err("invalid action: ".to_string()));
    assert_eq!(Action::from_str("pull,"), Err("invalid action: pull,".to_string()));
    assert_eq!(Action::Pull.to_string(), "pull");
    assert_eq!(Action::Push.as_str(), "push");
    assert_eq!(Action::Delete.to_string(), "delete");
}

#[test]
fn scope_strings_are_read_and_merged() {
    let s = UserScope::from_str("repository:alpha:pull repository:beta:push,pull repository:alpha:delete")
        .ok()
        .unwrap();
    assert_eq!(s.len(), 2);
    assert_eq!(s.get("alpha"), Some(Action::Delete));
    assert_eq!(s.get("beta"), Some(Action::Push));
    assert_eq!(s.get("gamma"), None);
    let weaker = UserScope::from_str("repository:alpha:push repository:alpha:pull").ok().unwrap();
    assert_eq!(weaker.get("alpha"), Some(Action::Push));
}

#[test]
fn malformed_scope_strings_are_refused() {
    assert_eq!(UserScope::from_str("").err(), Some("invalid scope: ".to_string()));
    assert_eq!(UserScope::from_str("repository:alpha").err(), Some("invalid scope: repository:alpha".to_string()));
    assert_eq!(
        UserScope::from_str("repository:a:pull repository:b:c:pull").err(),
        Some("invalid scope: repository:b:c:pull".to_string())
    );
    assert_eq!(
        UserScope::from_str("repository:a:fly").err(),
        Some("invalid scope: repository:a:fly".to_string())
    );
    let list = vec!["repository:a:pull".to_string(), "nonsense".to_string()];
    assert_eq!(UserScope::from_scope_strings(&list).err(), Some("Invalid scope format".to_string()));
}

#[test]
fn scopes_written_are_read_back() {
    let mut scopes = UserScope::new();
    scopes.insert("alpha".to_string(), Action::Pull);
    scopes.insert("team/beta".to_string(), Action::Push);
    scopes.insert("*".to_string(), Action::Delete);
    let strings = scopes.to_scope_strings();
    assert_eq!(
        strings,
        vec!["repository:alpha:pull", "repository:team/beta:push", "repository:*:delete"]
    );
    let back = UserScope::from_scope_strings(&strings).ok().unwrap();
    assert_eq!(back.len(), 3);
    assert_eq!(back.get("alpha"), Some(Action::Pull));
    assert_eq!(back.get("team/beta"), Some(Action::Push));
    assert_eq!(back.get("*"), Some(Action::Delete));
    let joined = strings.join(" ");
    let again = UserScope::from_str(&joined).ok().unwrap();
    assert_eq!(again.get("team/beta"), Some(Action::Push));
}

#[test]
fn a_name_with_a_colon_is_not_read_back() {
    let mut scopes = UserScope::new();
    scopes.insert("a:b".to_string(), Action::Pull);
    let strings = scopes.to_scope_strings();
    assert!(UserScope::from_scope_strings(&strings).is_err());
}

#[test]
fn insert_replaces_and_grant_keeps_the_stronger() {
    let mut scopes = UserScope::new();
    scopes.insert("a".to_string(), Action::Delete);
    scopes.insert("a".to_string(), Action::Pull);
    assert_eq!(scopes.get("a"), Some(Action::Pull));
    scopes.grant("a".to_string(), Action::Push);
    assert_eq!(scopes.get("a"), Some(Action::Push));
    scopes.grant("a".to_string(), Action::Pull);
    assert_eq!(scopes.get("a"), Some(Action::Push));
    assert_eq!(scopes.len(), 1);
    let copy = scopes.clone();
    assert_eq!(copy.get("a"), Some(Action::Push));
}

#[test]
fn is_allowed_looks_up_the_repository_and_star_asks_all() {
    let mut scopes = UserScope::new();
    assert!(scopes.is_allowed("*", Action::Delete));
    assert!(!scopes.is_allowed("alpha", Action::Pull));
    scopes.insert("alpha".to_string(), Action::Push);
    scopes.insert("beta".to_string(), Action::Pull);
    assert!(scopes.is_allowed("alpha", Action::Pull));
    assert!(scopes.is_allowed("alpha", Action::Push));
    assert!(!scopes.is_allowed("alpha", Action::Delete));
    assert!(!scopes.is_allowed("gamma", Action::Pull));
    assert!(scopes.is_allowed("*", Action::Pull));
    assert!(!scopes.is_allowed("*", Action::Push));
}

#[test]
fn codes_have_identifiers_messages_and_statuses() {
    assert_eq!(Code::from_code_id("code-1"), Some(Code::BlobUnknown));
    assert_eq!(Code::from_code_id("code-4"), Some(Code::DigestInvalid));
    assert_eq!(Code::from_code_id("code-14"), Some(Code::TooManyRequests));
    assert_eq!(Code::from_code_id("code-15"), None);
    assert_eq!(Code::from_code_id("code-01"), None);
    assert_eq!(Code::from_code_id(""), None);
    assert_eq!(Code::DigestInvalid.description(), "provided digest did not match uploaded content");
    assert_eq!(Code::Unauthorized.description(), "authentication required");
    assert_eq!(Code::BlobUnknown.status_code(), 404);
    assert_eq!(Code::DigestInvalid.status_code(), 400);
    assert_eq!(Code::ManifestBlobUnknown.status_code(), 400);
    assert_eq!(Code::ManifestUnknown.status_code(), 404);
    assert_eq!(Code::Unauthorized.status_code(), 401);
    assert_eq!(Code::Denied.status_code(), 403);
    assert_eq!(Code::Unsupported.status_code(), 501);
    assert_eq!(Code::TooManyRequests.status_code(), 429);
    assert_eq!(Code::ManifestInvalid.symbol(), "ManifestInvalid");
    let e = ErrorResponse::from_code(&Code::NameUnknown, "no such name");
    assert_eq!(e.code, Code::NameUnknown);
    assert_eq!(e.message, "repository name not known to registry");
    assert_eq!(e.detail, "no such name");
}

#[test]
fn warning_header_has_the_code_and_the_quoted_message() {
    let mut headers: Vec<(String, String)> = Vec::new();
    Code::BlobUnknown.append_warning_header(&mut headers);
    assert_eq!(headers, vec![("Warning".to_string(), "299 - \"blob unknown to registry\"".to_string())]);
}

#[test]
fn warnings_beyond_the_budget_are_dropped() {
    let mut headers: Vec<(String, String)> = Vec::new();
    let one = Code::TooManyRequests.warning_value().len();
    let mut used = 0;
    while used + one <= MAX_BYTES {
        Code::TooManyRequests.append_warning_header(&mut headers);
        used += one;
    }
    let full = headers.len();
    assert_eq!(full, MAX_BYTES / one);
    Code::TooManyRequests.append_warning_header(&mut headers);
    assert_eq!(headers.len(), full);
    let total: usize = headers.iter().map(|h| h.1.len()).sum();
    assert!(total <= MAX_BYTES);
    headers.push(("Location".to_string(), "x".repeat(5000)));
    let mut other = vec![("warning".to_string(), "y".repeat(4090))];
    Code::TooManyRequests.append_warning_header(&mut other);
    assert_eq!(other.len(), 1);
    let mut multibyte = vec![("Warning".to_string(), "é".repeat(2040))];
    Code::TooManyRequests.append_warning_header(&mut multibyte);
    assert_eq!(multibyte.len(), 1);
}

#[test]
fn repository_names_follow_their_grammar() {
    for good in ["a", "alpine", "library/alpine", "a.b", "a_b", "a__b", "a-b", "a---b", "a1/b2/c3", "0", "a.b-c_d__e"] {
        assert!(is_valid_namespace(good), "{}", good);
    }
    for bad in [
        "", "/", "a/", "/a", "a//b", "A", "aB", "a.", ".a", "a..b", "a___b", "a_-b", "a-_b", "a.-b", "-a", "a-",
        "a_", "a b", "a:b", "..", "a/../b", "é",
    ] {
        assert!(!is_valid_namespace(bad), "{}", bad);
    }
}

#[test]
fn references_are_tags_or_content_addresses() {
    let longest = "a".repeat(128);
    let too_long = "a".repeat(129);
    for good in ["v1", "latest", "_", "1.0.0-rc.1", "A_b-c.d", longest.as_str()] {
        assert!(is_valid_reference(good), "{}", good);
    }
    for bad in ["", ".hidden", "-x", "a b", "a/b", "a:b", "sha256:abc", too_long.as_str(), "é"] {
        assert!(!is_valid_reference(bad), "{}", bad);
    }
    assert!(is_valid_reference(EMPTY_DIGEST));
    assert!(!is_valid_reference(&EMPTY_DIGEST.to_uppercase()));
    assert!(!is_valid_reference(&EMPTY_DIGEST[..70]));
    assert!(!is_valid_reference(&format!("{}0", EMPTY_DIGEST)));
    assert!(!is_valid_reference(&EMPTY_DIGEST.replace("sha256:", "sha512:")));
}
