//! Small helpers at the edge of the registry: decoding credentials, reading the length and
//! range headers of an upload, checking a login and a registration.

use crate::accounts::user_with_email;
use crate::database::DbConn;
use crate::rows::UserModel;
use crate::scope::{grants_of, scope_text, UserScope};
use crate::action::Action;
use crate::text::{
    chars_of, has_char, parse_i64, parse_i64_spec, split, split_on, str_eq, string_of, string_views,
    views,
};
use base64::Engine;
use vstd::prelude::*;

verus! {

/// What the URL-safe base64 text `text` decodes to, as the `base64` crate decodes it with
/// its default configuration; nothing if the text is not valid base64.
pub uninterp spec fn base64_url_decoded(text: Seq<char>) -> Option<Seq<u8>>;

/// Whether `bcrypt` accepts `password` for the hash `hash`: whether `bcrypt::verify`
/// returns `Ok(true)`.
pub uninterp spec fn bcrypt_accepts(password: Seq<char>, hash: Seq<char>) -> bool;

/// `Engine::decode` of the general-purpose engine with the URL-safe alphabet and the
/// default configuration decodes the whole input or fails; the result depends on the input
/// alone.
#[verifier::external_body]
fn base64_url_decode(data: &str) -> (out: Option<Vec<u8>>)
    ensures
        match out {
            Some(bytes) => base64_url_decoded(data@) == Some(bytes@),
            None => base64_url_decoded(data@).is_none(),
        },
{
    base64::engine::GeneralPurpose::new(
        &base64::alphabet::URL_SAFE,
        base64::engine::GeneralPurposeConfig::default(),
    ).decode(data).ok()
}

/// `String::from_utf8` gives the text that the bytes encode in UTF-8, and fails exactly
/// when the bytes are no valid UTF-8.
#[verifier::external_body]
fn utf8_text(bytes: Vec<u8>) -> (out: Option<String>)
    ensures
        match out {
            Some(s) => vstd::utf8::valid_utf8(bytes@) && s@ == vstd::utf8::decode_utf8(bytes@),
            None => !vstd::utf8::valid_utf8(bytes@),
        },
{
    String::from_utf8(bytes).ok()
}

/// `bcrypt::verify` checks a password against a hash; a hash that cannot be read counts as
/// a mismatch. The result depends on password and hash alone.
#[verifier::external_body]
fn bcrypt_verify(password: &str, hash: &str) -> (ok: bool)
    ensures
        ok == bcrypt_accepts(password@, hash@),
{
    bcrypt::verify(password, hash).unwrap_or(false)
}

/// `bcrypt::hash` hashes a password with a fresh random salt at the default cost. Which
/// hash comes out is not stated; whichever does, `bcrypt::verify` accepts the password for
/// it. `None` when no randomness could be had.
#[verifier::external_body]
pub(crate) fn bcrypt_hash(password: &str) -> (out: Option<String>)
    ensures
        out matches Some(h) ==> bcrypt_accepts(password@, h@),
{
    bcrypt::hash(password, bcrypt::DEFAULT_COST).ok()
}

/// `chrono::Utc::now` reads the clock; `timestamp_millis` gives the milliseconds since the
/// start of 1970. Nothing is stated of the value. On a machine whose clock stands before
/// 1970 `Utc::now` does not return: it panics.
#[verifier::external_body]
pub(crate) fn unix_millis() -> (out: i64) {
    chrono::Utc::now().timestamp_millis()
}

/// The largest time that a clock can give, in milliseconds since the start of 1970.
pub const LAST_MILLI: u64 = 0x7fff_ffff_ffff_ffff;

/// The time that the clock's reading `reading` stands for: the reading itself, and 0 for a
/// reading before the start of 1970.
pub open spec fn millis_at(reading: i64) -> u64 {
    if reading < 0 {
        0
    } else {
        reading as u64
    }
}

/// The time that the clock's reading `reading` stands for.
pub fn millis_of(reading: i64) -> (out: u64)
    ensures
        out == millis_at(reading),
        out <= LAST_MILLI,
{
    if reading < 0 {
        0
    } else {
        reading as u64
    }
}

/// The time in milliseconds since the start of 1970. Which time the clock gives is not
/// stated; whichever it is, it is the time of a reading, so it is at most `LAST_MILLI`.
pub fn now_millis() -> (out: u64)
    ensures
        exists|reading: i64| out == #[trigger] millis_at(reading),
        out <= LAST_MILLI,
{
    millis_of(unix_millis())
}

/// The text `Invalid base64`.
pub open spec fn invalid_base64_text() -> Seq<char> {
    seq!['I', 'n', 'v', 'a', 'l', 'i', 'd', ' ', 'b', 'a', 's', 'e', '6', '4']
}

/// The text that URL-safe base64 `text` carries: what it decodes to, read as UTF-8.
pub open spec fn base64_text(text: Seq<char>) -> Option<Seq<char>> {
    match base64_url_decoded(text) {
        Some(bytes) => if vstd::utf8::valid_utf8(bytes) {
            Some(vstd::utf8::decode_utf8(bytes))
        } else {
            None
        },
        None => None,
    }
}

/// The text that decoded bytes carry; `Invalid base64` without bytes or when the bytes are
/// no UTF-8.
pub fn text_of_decoded(decoded: Option<Vec<u8>>) -> (out: Result<String, String>)
    ensures
        match out {
            Ok(s) => decoded.is_some() && vstd::utf8::valid_utf8(decoded.unwrap()@) && s@
                == vstd::utf8::decode_utf8(decoded.unwrap()@),
            Err(msg) => msg@ == invalid_base64_text() && !(decoded.is_some()
                && vstd::utf8::valid_utf8(decoded.unwrap()@)),
        },
{
    proof {
        reveal_strlit("Invalid base64");
        assert("Invalid base64"@ =~= invalid_base64_text());
    }
    match decoded {
        Some(bytes) => match utf8_text(bytes) {
            Some(s) => Ok(s),
            None => Err(string_of(chars_of("Invalid base64").as_slice())),
        },
        None => Err(string_of(chars_of("Invalid base64").as_slice())),
    }
}

/// Decodes URL-safe base64 that carries UTF-8 text; anything else is refused with
/// `Invalid base64`.
pub fn base64_decode(data: &str) -> (out: Result<String, String>)
    ensures
        match out {
            Ok(s) => base64_text(data@) == Some(s@),
            Err(msg) => base64_text(data@).is_none() && msg@ == invalid_base64_text(),
        },
{
    text_of_decoded(base64_url_decode(data))
}

/// The number that a `Content-Length` header states; 0 without a header or when its value
/// is no number.
pub open spec fn content_length_of(value: Option<Seq<char>>) -> i64 {
    match value {
        Some(v) => match parse_i64_spec(v) {
            Some(n) => n,
            None => 0,
        },
        None => 0,
    }
}

/// Start and end that a `Content-Range` header `start-end` states; for each of the two, 0
/// when it is missing or no number, and `(0, 0)` without a header.
pub open spec fn content_range_of(value: Option<Seq<char>>) -> (i64, i64) {
    match value {
        Some(v) => {
            let parts = split_on(v, '-');
            let begin = match parse_i64_spec(parts[0]) {
                Some(n) => n,
                None => 0,
            };
            let end = if parts.len() > 1 {
                match parse_i64_spec(parts[1]) {
                    Some(n) => n,
                    None => 0,
                }
            } else {
                0
            };
            (begin, end)
        },
        None => (0, 0),
    }
}

/// The number that a `Content-Length` header states; 0 without a header or when its value
/// is no number.
pub fn parse_content_length(value: Option<&str>) -> (out: i64)
    ensures
        out == content_length_of(
            match value {
                Some(v) => Some(v@),
                None => None,
            },
        ),
{
    match value {
        Some(v) => match parse_i64(chars_of(v).as_slice()) {
            Some(n) => n,
            None => 0,
        },
        None => 0,
    }
}

/// Start and end that a `Content-Range` header `start-end` states.
pub fn parse_content_range(value: Option<&str>) -> (out: (i64, i64))
    ensures
        out == content_range_of(
            match value {
                Some(v) => Some(v@),
                None => None,
            },
        ),
{
    match value {
        Some(v) => {
            let c = chars_of(v);
            let parts = split(c.as_slice(), '-');
            assert(views(parts@)[0] == parts@[0]@);
            let begin = match parse_i64(parts[0].as_slice()) {
                Some(n) => n,
                None => 0,
            };
            let end = if parts.len() > 1 {
                assert(views(parts@)[1] == parts@[1]@);
                match parse_i64(parts[1].as_slice()) {
                    Some(n) => n,
                    None => 0,
                }
            } else {
                0
            };
            (begin, end)
        },
        None => (0, 0),
    }
}

/// The text `Invalid registration`.
pub open spec fn invalid_registration_text() -> Seq<char> {
    seq![
        'I',
        'n',
        'v',
        'a',
        'l',
        'i',
        'd',
        ' ',
        'r',
        'e',
        'g',
        'i',
        's',
        't',
        'r',
        'a',
        't',
        'i',
        'o',
        'n',
    ]
}

/// An acceptable registration: the password typed the same twice and at least eight bytes
/// long, and an e-mail address with an `@` and a dot.
pub open spec fn registration_valid(email: Seq<char>, psw: Seq<char>, confirm: Seq<char>) -> bool {
    psw == confirm && has_char(email, '@') && crate::codes::byte_len(psw) >= 8 && has_char(email, '.')
}

fn contains_char(s: &[char], c: char) -> (out: bool)
    ensures
        out == has_char(s@, c),
{
    let mut i: usize = 0;
    while i < s.len()
        invariant
            i <= s.len(),
            forall|k: int| 0 <= k < i ==> s@[k] != c,
        decreases s.len() - i,
    {
        if s[i] == c {
            return true;
        }
        i += 1;
    }
    false
}

/// Checks a registration; one that is not acceptable is refused with
/// `Invalid registration`.
pub fn validate_registration(email: &str, psw: &str, confirm: &str) -> (out: Result<(), String>)
    ensures
        match out {
            Ok(_) => registration_valid(email@, psw@, confirm@),
            Err(msg) => !registration_valid(email@, psw@, confirm@) && msg@
                == invalid_registration_text(),
        },
{
    let e = chars_of(email);
    let long_enough = match crate::codes::byte_size(psw, 7) {
        Some(_) => false,
        None => true,
    };
    if str_eq(psw, confirm) && contains_char(e.as_slice(), '@') && long_enough && contains_char(
        e.as_slice(),
        '.',
    ) {
        Ok(())
    } else {
        proof {
            reveal_strlit("Invalid registration");
            assert("Invalid registration"@ =~= invalid_registration_text());
        }
        Err(string_of(chars_of("Invalid registration").as_slice()))
    }
}

/// The scopes as the list of scope strings that a token carries.
pub fn scopes_to_vec(scopes: &UserScope) -> (out: Vec<String>)
    ensures
        string_views(out@) == scopes.pairs().map_values(|p: (Seq<char>, Action)| scope_text(p.0, p.1)),
{
    scopes.to_scope_strings()
}

/// The scopes that a list of scope strings carries; a malformed string is refused with
/// `Invalid scope format`.
pub fn vec_to_scopes(items: &Vec<String>) -> (out: Result<UserScope, String>)
    ensures
        match out {
            Ok(scopes) => scopes.wf() && grants_of(string_views(items@)) == Some(scopes@),
            Err(msg) => grants_of(string_views(items@)).is_none() && msg@ == "Invalid scope format"@,
        },
{
    UserScope::from_scope_strings(items)
}

/// What a login attempt comes to once the password was checked: the user's identity when
/// there is such a user and the password was accepted, else `Invalid login`.
pub fn login_result(email: &str, user: Option<&crate::rows::UserRow>, accepted: bool) -> (out: Result<
    crate::auth::UserInfo,
    String,
>)
    ensures
        match out {
            Ok(info) => user.is_some() && accepted && info.id@ == user.unwrap().id@ && info.email@
                == email@ && info.is_admin == user.unwrap().is_admin,
            Err(msg) => !(user.is_some() && accepted) && msg@ == "Invalid login"@,
        },
{
    match user {
        Some(u) => {
            if accepted {
                Ok(
                    crate::auth::UserInfo {
                        id: u.id.clone(),
                        email: string_of(chars_of(email).as_slice()),
                        is_admin: u.is_admin,
                    },
                )
            } else {
                Err(string_of(chars_of("Invalid login").as_slice()))
            }
        },
        None => Err(string_of(chars_of("Invalid login").as_slice())),
    }
}

/// Whether the store holds a user with the address `email` whose password hash accepts
/// `password`.
pub open spec fn login_accepted(users: Seq<UserModel>, email: Seq<char>, password: Seq<char>) -> bool {
    let i = crate::table::first_where(users, user_with_email(email));
    i < users.len() && bcrypt_accepts(password, users[i].password)
}

/// Checks e-mail address and password against the users of the store. The result is the
/// user's identity when the first user with that address has a password hash that accepts
/// the password; else it is `Invalid login`.
pub fn verify_login(pool: &DbConn, email: &str, password: &str) -> (out: Result<
    crate::auth::UserInfo,
    String,
>)
    ensures
        match out {
            Ok(info) => login_accepted(pool@.users, email@, password@) && info.email@ == email@ && ({
                let u = pool@.user_by_email(email@).unwrap();
                info.id@ == u.id && info.is_admin == u.is_admin
            }),
            Err(msg) => !login_accepted(pool@.users, email@, password@) && msg@ == "Invalid login"@,
        },
{
    match pool.find_user(email) {
        Some(i) => {
            let accepted = bcrypt_verify(password, pool.users[i].password.as_str());
            login_result(email, Some(&pool.users[i]), accepted)
        },
        None => login_result(email, None, false),
    }
}

/// Checks e-mail address and password against the users of the store, as `verify_login`
/// does; credentials that are not accepted are an `InvalidLogin`.
pub fn check_login(pool: &DbConn, email: &str, password: &str) -> (out: Result<
    crate::auth::UserInfo,
    crate::error::StorageError,
>)
    ensures
        match out {
            Ok(info) => login_accepted(pool@.users, email@, password@) && info.email@ == email@ && ({
                let u = pool@.user_by_email(email@).unwrap();
                info.id@ == u.id && info.is_admin == u.is_admin
            }),
            Err(e) => !login_accepted(pool@.users, email@, password@) && e
                == crate::error::StorageError::InvalidLogin,
        },
{
    match verify_login(pool, email, password) {
        Ok(info) => Ok(info),
        Err(_) => Err(crate::error::StorageError::InvalidLogin),
    }
}

} // verus!
