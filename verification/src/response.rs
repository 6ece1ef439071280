//! What a handler answers: a status, headers and a body, as plain values.

use crate::auth::TokenResponse;
use crate::codes::{byte_len, header_views, Code, ErrorModel, ErrorResponse, MAX_BYTES};
use crate::content_discovery::{RepoList, TagsListResponse};
use crate::shared::{AuthClient, UserResponse};
use crate::text::{chars_of, string_of, string_views};
use vstd::prelude::*;

verus! {

/// The body of a response.
pub enum Body {
    Empty,
    Text(String),
    Bytes(Vec<u8>),
    Error(ErrorResponse),
    Tags(TagsListResponse),
    Token(TokenResponse),
    Repositories(RepoList),
    Users(Vec<UserResponse>),
    Clients(Vec<AuthClient>),
}

/// The view of `Body`: the same value with every string as its characters. A list of
/// repositories, users or API keys is stood for by its length; what its entries hold is
/// stated by the function that makes the list.
pub enum BodyModel {
    Empty,
    Text(Seq<char>),
    Bytes(Seq<u8>),
    Error(ErrorModel),
    /// The name of a repository and its tags.
    Tags(Seq<char>, Seq<Seq<char>>),
    Token(Seq<char>),
    /// A list of as many repositories.
    Repositories(nat),
    /// A list of as many users.
    Users(nat),
    /// A list of as many API keys.
    Clients(nat),
}

impl View for Body {
    type V = BodyModel;

    open spec fn view(&self) -> BodyModel {
        match self {
            Body::Empty => BodyModel::Empty,
            Body::Text(t) => BodyModel::Text(t@),
            Body::Bytes(b) => BodyModel::Bytes(b@),
            Body::Error(e) => BodyModel::Error(e@),
            Body::Tags(t) => BodyModel::Tags(t.name@, string_views(t.tags@)),
            Body::Token(t) => BodyModel::Token(t.token@),
            Body::Repositories(r) => BodyModel::Repositories(r.repositories@.len()),
            Body::Users(u) => BodyModel::Users(u@.len()),
            Body::Clients(c) => BodyModel::Clients(c@.len()),
        }
    }
}

/// A response: status, headers in the order in which they were set, and body.
pub struct Response {
    pub status: u16,
    pub headers: Vec<(String, String)>,
    pub body: Body,
}

/// The view of `Response`: the same value with every string as its characters.
pub struct ResponseModel {
    pub status: u16,
    pub headers: Seq<(Seq<char>, Seq<char>)>,
    pub body: BodyModel,
}

impl View for Response {
    type V = ResponseModel;

    open spec fn view(&self) -> ResponseModel {
        ResponseModel { status: self.status, headers: header_views(self.headers@), body: self.body@ }
    }
}

/// The `Warning` header of an error response: the warning of the code, if it fits the
/// budget.
pub open spec fn warning_headers(code: Code) -> Seq<(Seq<char>, Seq<char>)> {
    if byte_len(code.warning()) <= MAX_BYTES {
        seq![("Warning"@, code.warning())]
    } else {
        Seq::empty()
    }
}

/// The response for an error: the status, the `Warning` header, and the error as body.
pub open spec fn error_reply(status: u16, code: Code, detail: Seq<char>) -> ResponseModel {
    ResponseModel {
        status,
        headers: warning_headers(code),
        body: BodyModel::Error(ErrorModel { code, message: code.message(), detail }),
    }
}

/// A header as a pair of owned strings.
pub fn header(name: &str, value: &str) -> (out: (String, String))
    ensures
        out.0@ == name@,
        out.1@ == value@,
{
    (string_of(chars_of(name).as_slice()), string_of(chars_of(value).as_slice()))
}

impl Response {
    /// A response without headers.
    pub fn new(status: u16, body: Body) -> (out: Response)
        ensures
            out@ == (ResponseModel { status, headers: Seq::empty(), body: body@ }),
            out.body == body,
    {
        let out = Response { status, headers: Vec::new(), body };
        assert(header_views(out.headers@) =~= Seq::<(Seq<char>, Seq<char>)>::empty());
        out
    }

    /// A response with the text `text` as body.
    pub fn text(status: u16, text: &str) -> (out: Response)
        ensures
            out@ == (ResponseModel { status, headers: Seq::empty(), body: BodyModel::Text(text@) }),
    {
        Response::new(status, Body::Text(string_of(chars_of(text).as_slice())))
    }

    /// Adds a header behind those that are set.
    pub fn push_header(&mut self, name: &str, value: &str)
        ensures
            final(self)@ == (ResponseModel {
                headers: old(self)@.headers.push((name@, value@)),
                ..old(self)@
            }),
    {
        let ghost before = header_views(self.headers@);
        let h = header(name, value);
        self.headers.push(h);
        assert(header_views(self.headers@) =~= before.push((name@, value@)));
    }

    /// The response for an error: the status, the `Warning` header of the code, and the
    /// error as body.
    pub fn error(status: u16, code: Code, detail: &str) -> (out: Response)
        ensures
            out@ == error_reply(status, code, detail@),
    {
        let mut headers: Vec<(String, String)> = Vec::new();
        assert(header_views(headers@) =~= Seq::<(Seq<char>, Seq<char>)>::empty());
        code.append_warning_header(&mut headers);
        let out = Response { status, headers, body: Body::Error(ErrorResponse::from_code(&code, detail)) };
        proof {
            assert(crate::codes::warning_bytes(Seq::<(Seq<char>, Seq<char>)>::empty()) == 0);
            assert(out@.headers =~= warning_headers(code));
        }
        out
    }

    /// The first value of the header `name`, whatever the case of its letters.
    pub fn header_value(&self, name: &str) -> (out: Option<String>)
        ensures
            match out {
                Some(v) => exists|i: int|
                    0 <= i < self@.headers.len() && crate::text::lower(self@.headers[i].0)
                        == crate::text::lower(name@) && v@ == self@.headers[i].1 && forall|k: int|
                        0 <= k < i ==> crate::text::lower(#[trigger] self@.headers[k].0)
                            != crate::text::lower(name@),
                None => forall|k: int|
                    0 <= k < self@.headers.len() ==> crate::text::lower(#[trigger] self@.headers[k].0)
                        != crate::text::lower(name@),
            },
    {
        let wanted = crate::text::to_lower(chars_of(name).as_slice());
        let mut i: usize = 0;
        while i < self.headers.len()
            invariant
                i <= self.headers.len(),
                wanted@ == crate::text::lower(name@),
                forall|k: int|
                    0 <= k < i ==> crate::text::lower(#[trigger] self@.headers[k].0)
                        != crate::text::lower(name@),
            decreases self.headers.len() - i,
        {
            assert(self@.headers[i as int] == (self.headers@[i as int].0@, self.headers@[i as int].1@));
            let have = crate::text::to_lower(chars_of(self.headers[i].0.as_str()).as_slice());
            if crate::text::chars_eq(have.as_slice(), wanted.as_slice()) {
                return Some(self.headers[i].1.clone());
            }
            i += 1;
        }
        None
    }
}

impl ErrorResponse {
    /// The response for the error, with the status that goes with its code.
    pub fn into_response(self) -> (out: Response)
        ensures
            out@.status == self@.code.status(),
            out@.headers == warning_headers(self@.code),
            out@.body == BodyModel::Error(self@),
    {
        let mut headers: Vec<(String, String)> = Vec::new();
        assert(header_views(headers@) =~= Seq::<(Seq<char>, Seq<char>)>::empty());
        self.code.append_warning_header(&mut headers);
        let status = self.code.status_code();
        let out = Response { status, headers, body: Body::Error(self) };
        proof {
            assert(crate::codes::warning_bytes(Seq::<(Seq<char>, Seq<char>)>::empty()) == 0);
            assert(out@.headers =~= warning_headers(self@.code));
        }
        out
    }
}

} // verus!
