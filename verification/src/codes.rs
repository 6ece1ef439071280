//! The error codes of the registry protocol, the body of an error response, and the
//! `Warning` header with its budget of 4096 bytes.

use crate::text::{chars_eq, chars_of, extend_chars, lower, str_eq, string_of, to_lower};
use vstd::prelude::*;

verus! {

/// The most bytes that the `Warning` headers of one response may hold together.
pub const MAX_BYTES: usize = 4096;

/// What a tag looks like.
pub const REFERENCE_REGEX: &'static str = "[a-zA-Z0-9_][a-zA-Z0-9._-]{0,127}";

/// What a repository name looks like.
pub const NAMESPACE_REGEX: &'static str =
    "[a-z0-9]+((\\.|_|__|-+)[a-z0-9]+)*(\\/[a-z0-9]+((\\.|_|__|-+)[a-z0-9]+)*)*";

/// The symbolic error codes.
#[derive(Clone, Copy, Debug, PartialEq, Eq, Structural)]
pub enum Code {
    BlobUnknown,
    BlobUploadInvalid,
    BlobUploadUnknown,
    DigestInvalid,
    ManifestBlobUnknown,
    ManifestInvalid,
    ManifestUnknown,
    NameInvalid,
    NameUnknown,
    SizeInvalid,
    Unauthorized,
    Denied,
    Unsupported,
    TooManyRequests,
}

/// The code that an identifier `code-1` to `code-14` names.
pub open spec fn code_of_id(id: Seq<char>) -> Option<Code> {
    if id == "code-1"@ {
        Some(Code::BlobUnknown)
    } else if id == "code-2"@ {
        Some(Code::BlobUploadInvalid)
    } else if id == "code-3"@ {
        Some(Code::BlobUploadUnknown)
    } else if id == "code-4"@ {
        Some(Code::DigestInvalid)
    } else if id == "code-5"@ {
        Some(Code::ManifestBlobUnknown)
    } else if id == "code-6"@ {
        Some(Code::ManifestInvalid)
    } else if id == "code-7"@ {
        Some(Code::ManifestUnknown)
    } else if id == "code-8"@ {
        Some(Code::NameInvalid)
    } else if id == "code-9"@ {
        Some(Code::NameUnknown)
    } else if id == "code-10"@ {
        Some(Code::SizeInvalid)
    } else if id == "code-11"@ {
        Some(Code::Unauthorized)
    } else if id == "code-12"@ {
        Some(Code::Denied)
    } else if id == "code-13"@ {
        Some(Code::Unsupported)
    } else if id == "code-14"@ {
        Some(Code::TooManyRequests)
    } else {
        None
    }
}

/// The number of bytes of one character in UTF-8.
pub open spec fn char_bytes(c: char) -> nat {
    if (c as u32) < 0x80 {
        1
    } else if (c as u32) < 0x800 {
        2
    } else if (c as u32) < 0x10000 {
        3
    } else {
        4
    }
}

/// The number of bytes of a text in UTF-8.
pub open spec fn byte_len(s: Seq<char>) -> nat
    decreases s.len(),
{
    if s.len() == 0 {
        0
    } else {
        byte_len(s.drop_last()) + char_bytes(s.last())
    }
}

/// A longer text never has fewer bytes.
pub proof fn lemma_byte_len_grows(s: Seq<char>, j: int)
    requires
        0 <= j <= s.len(),
    ensures
        byte_len(s.take(j)) <= byte_len(s),
    decreases s.len() - j,
{
    if j < s.len() {
        assert(s.take(j + 1).drop_last() =~= s.take(j));
        lemma_byte_len_grows(s, j + 1);
    } else {
        assert(s.take(j) =~= s);
    }
}

/// The number of bytes of `s` in UTF-8, if it is at most `cap`.
pub fn byte_size(s: &str, cap: usize) -> (out: Option<usize>)
    ensures
        out == (if byte_len(s@) <= cap {
            Some(byte_len(s@) as usize)
        } else {
            None
        }),
{
    let c = chars_of(s);
    let mut total: usize = 0;
    let mut i: usize = 0;
    proof {
        assert(c@.take(0) =~= Seq::<char>::empty());
    }
    while i < c.len()
        invariant
            i <= c.len(),
            c@ == s@,
            total == byte_len(c@.take(i as int)),
            total <= cap,
        decreases c.len() - i,
    {
        proof {
            assert(c@.take(i + 1).drop_last() =~= c@.take(i as int));
            assert(c@.take(i + 1).last() == c@[i as int]);
        }
        let code = c[i] as u32;
        let width: usize = if code < 0x80 {
            1
        } else if code < 0x800 {
            2
        } else if code < 0x10000 {
            3
        } else {
            4
        };
        if cap < width || total > cap - width {
            proof {
                lemma_byte_len_grows(c@, i + 1);
            }
            return None;
        }
        total = total + width;
        i += 1;
    }
    proof {
        assert(c@.take(c.len() as int) =~= c@);
    }
    Some(total)
}

/// The bytes that the `Warning` headers among `headers` hold together.
pub open spec fn warning_bytes(headers: Seq<(Seq<char>, Seq<char>)>) -> nat
    decreases headers.len(),
{
    if headers.len() == 0 {
        0
    } else {
        warning_bytes(headers.drop_last()) + if lower(headers.last().0) == "warning"@ {
            byte_len(headers.last().1)
        } else {
            0
        }
    }
}

/// The views of a list of headers.
pub open spec fn header_views(headers: Seq<(String, String)>) -> Seq<(Seq<char>, Seq<char>)> {
    headers.map_values(|h: (String, String)| (h.0@, h.1@))
}

/// The text `299 - "`.
pub open spec fn warning_prefix() -> Seq<char> {
    seq!['2', '9', '9', ' ', '-', ' ', '"']
}

impl Code {
    /// The static message of the code.
    pub open spec fn message(self) -> Seq<char> {
        match self {
            Code::BlobUnknown => "blob unknown to registry"@,
            Code::BlobUploadInvalid => "blob upload invalid"@,
            Code::BlobUploadUnknown => "blob upload unknown to registry"@,
            Code::DigestInvalid => "provided digest did not match uploaded content"@,
            Code::ManifestBlobUnknown => "manifest references a manifest or blob unknown to registry"@,
            Code::ManifestInvalid => "manifest invalid"@,
            Code::ManifestUnknown => "manifest unknown to registry"@,
            Code::NameInvalid => "invalid repository name"@,
            Code::NameUnknown => "repository name not known to registry"@,
            Code::SizeInvalid => "provided length did not match content length"@,
            Code::Unauthorized => "authentication required"@,
            Code::Denied => "requested access to the resource is denied"@,
            Code::Unsupported => "the operation is unsupported"@,
            Code::TooManyRequests => "too many requests"@,
        }
    }

    /// The HTTP status that goes with the code.
    pub open spec fn status(self) -> u16 {
        match self {
            Code::BlobUnknown => 404,
            Code::BlobUploadInvalid => 400,
            Code::BlobUploadUnknown => 404,
            Code::DigestInvalid => 400,
            Code::ManifestBlobUnknown => 400,
            Code::ManifestInvalid => 400,
            Code::ManifestUnknown => 404,
            Code::NameInvalid => 400,
            Code::NameUnknown => 404,
            Code::SizeInvalid => 400,
            Code::Unauthorized => 401,
            Code::Denied => 403,
            Code::Unsupported => 501,
            Code::TooManyRequests => 429,
        }
    }

    /// The value of the `Warning` header for the code: `299 - "<message>"`.
    pub open spec fn warning(self) -> Seq<char> {
        warning_prefix() + self.message() + seq!['"']
    }

    /// The code that an identifier `code-1` to `code-14` names.
    pub fn from_code_id(code_id: &str) -> (out: Option<Code>)
        ensures
            out == code_of_id(code_id@),
    {
        if str_eq(code_id, "code-1") {
            Some(Code::BlobUnknown)
        } else if str_eq(code_id, "code-2") {
            Some(Code::BlobUploadInvalid)
        } else if str_eq(code_id, "code-3") {
            Some(Code::BlobUploadUnknown)
        } else if str_eq(code_id, "code-4") {
            Some(Code::DigestInvalid)
        } else if str_eq(code_id, "code-5") {
            Some(Code::ManifestBlobUnknown)
        } else if str_eq(code_id, "code-6") {
            Some(Code::ManifestInvalid)
        } else if str_eq(code_id, "code-7") {
            Some(Code::ManifestUnknown)
        } else if str_eq(code_id, "code-8") {
            Some(Code::NameInvalid)
        } else if str_eq(code_id, "code-9") {
            Some(Code::NameUnknown)
        } else if str_eq(code_id, "code-10") {
            Some(Code::SizeInvalid)
        } else if str_eq(code_id, "code-11") {
            Some(Code::Unauthorized)
        } else if str_eq(code_id, "code-12") {
            Some(Code::Denied)
        } else if str_eq(code_id, "code-13") {
            Some(Code::Unsupported)
        } else if str_eq(code_id, "code-14") {
            Some(Code::TooManyRequests)
        } else {
            None
        }
    }

    /// The static message of the code.
    pub fn description(&self) -> (out: &'static str)
        ensures
            out@ == self.message(),
    {
        match self {
            Code::BlobUnknown => "blob unknown to registry",
            Code::BlobUploadInvalid => "blob upload invalid",
            Code::BlobUploadUnknown => "blob upload unknown to registry",
            Code::DigestInvalid => "provided digest did not match uploaded content",
            Code::ManifestBlobUnknown => "manifest references a manifest or blob unknown to registry",
            Code::ManifestInvalid => "manifest invalid",
            Code::ManifestUnknown => "manifest unknown to registry",
            Code::NameInvalid => "invalid repository name",
            Code::NameUnknown => "repository name not known to registry",
            Code::SizeInvalid => "provided length did not match content length",
            Code::Unauthorized => "authentication required",
            Code::Denied => "requested access to the resource is denied",
            Code::Unsupported => "the operation is unsupported",
            Code::TooManyRequests => "too many requests",
        }
    }

    /// The name of the code, as it stands in the body of an error response.
    pub fn symbol(&self) -> (out: &'static str)
        ensures
            out@ == match *self {
                Code::BlobUnknown => "BlobUnknown"@,
                Code::BlobUploadInvalid => "BlobUploadInvalid"@,
                Code::BlobUploadUnknown => "BlobUploadUnknown"@,
                Code::DigestInvalid => "DigestInvalid"@,
                Code::ManifestBlobUnknown => "ManifestBlobUnknown"@,
                Code::ManifestInvalid => "ManifestInvalid"@,
                Code::ManifestUnknown => "ManifestUnknown"@,
                Code::NameInvalid => "NameInvalid"@,
                Code::NameUnknown => "NameUnknown"@,
                Code::SizeInvalid => "SizeInvalid"@,
                Code::Unauthorized => "Unauthorized"@,
                Code::Denied => "Denied"@,
                Code::Unsupported => "Unsupported"@,
                Code::TooManyRequests => "TooManyRequests"@,
            },
    {
        match self {
            Code::BlobUnknown => "BlobUnknown",
            Code::BlobUploadInvalid => "BlobUploadInvalid",
            Code::BlobUploadUnknown => "BlobUploadUnknown",
            Code::DigestInvalid => "DigestInvalid",
            Code::ManifestBlobUnknown => "ManifestBlobUnknown",
            Code::ManifestInvalid => "ManifestInvalid",
            Code::ManifestUnknown => "ManifestUnknown",
            Code::NameInvalid => "NameInvalid",
            Code::NameUnknown => "NameUnknown",
            Code::SizeInvalid => "SizeInvalid",
            Code::Unauthorized => "Unauthorized",
            Code::Denied => "Denied",
            Code::Unsupported => "Unsupported",
            Code::TooManyRequests => "TooManyRequests",
        }
    }

    /// The HTTP status that goes with the code.
    pub fn status_code(&self) -> (out: u16)
        ensures
            out == self.status(),
    {
        match self {
            Code::BlobUnknown => 404,
            Code::BlobUploadInvalid => 400,
            Code::BlobUploadUnknown => 404,
            Code::DigestInvalid => 400,
            Code::ManifestBlobUnknown => 400,
            Code::ManifestInvalid => 400,
            Code::ManifestUnknown => 404,
            Code::NameInvalid => 400,
            Code::NameUnknown => 404,
            Code::SizeInvalid => 400,
            Code::Unauthorized => 401,
            Code::Denied => 403,
            Code::Unsupported => 501,
            Code::TooManyRequests => 429,
        }
    }

    /// The value of the `Warning` header for the code.
    pub fn warning_value(&self) -> (out: String)
        ensures
            out@ == self.warning(),
    {
        proof {
            reveal_strlit("299 - \"");
            assert("299 - \""@ =~= warning_prefix());
        }
        let mut text = chars_of("299 - \"");
        let message = chars_of(self.description());
        extend_chars(&mut text, message.as_slice());
        text.push('"');
        string_of(text.as_slice())
    }

    /// Adds the `Warning` header of the code to `map`, unless the `Warning` headers would
    /// then hold more than 4096 bytes together: in that case the warning is dropped and
    /// `map` stays as it is. A budget that is kept stays kept.
    pub fn append_warning_header(&self, map: &mut Vec<(String, String)>)
        ensures
            header_views(final(map)@) == (if warning_bytes(header_views(old(map)@)) + byte_len(
                self.warning(),
            ) <= MAX_BYTES {
                header_views(old(map)@).push(("Warning"@, self.warning()))
            } else {
                header_views(old(map)@)
            }),
            warning_bytes(header_views(old(map)@)) <= MAX_BYTES ==> warning_bytes(
                header_views(final(map)@),
            ) <= MAX_BYTES,
    {
        let used = warning_size(map);
        let value = self.warning_value();
        let fits = match (used, byte_size(value.as_str(), MAX_BYTES)) {
            (Some(u), Some(size)) => u <= MAX_BYTES - size,
            _ => false,
        };
        if fits {
            let ghost before = header_views(map@);
            let name = string_of(chars_of("Warning").as_slice());
            map.push((name, value));
            proof {
                assert(header_views(map@) =~= before.push(("Warning"@, self.warning())));
                assert(header_views(map@).drop_last() =~= before);
                lemma_warning_name();
            }
        }
    }
}

/// The name `Warning`, folded to lower case, is `warning`.
pub proof fn lemma_warning_name()
    ensures
        lower("Warning"@) == "warning"@,
{
    reveal_strlit("Warning");
    reveal_strlit("warning");
    assert(lower("Warning"@) =~= "warning"@);
}

/// The bytes that the `Warning` headers of `map` hold together, as long as they fit a
/// machine word.
fn warning_size(map: &Vec<(String, String)>) -> (out: Option<usize>)
    ensures
        match out {
            Some(n) => n == warning_bytes(header_views(map@)),
            None => warning_bytes(header_views(map@)) > MAX_BYTES,
        },
{
    let ghost all = header_views(map@);
    let key = chars_of("warning");
    let mut total: usize = 0;
    let mut i: usize = 0;
    proof {
        assert(all.take(0) =~= Seq::<(Seq<char>, Seq<char>)>::empty());
    }
    while i < map.len()
        invariant
            i <= map.len(),
            all == header_views(map@),
            key@ == "warning"@,
            total == warning_bytes(all.take(i as int)),
            total <= MAX_BYTES,
        decreases map.len() - i,
    {
        proof {
            assert(all.take(i + 1).drop_last() =~= all.take(i as int));
            assert(all.take(i + 1).last() == all[i as int]);
            assert(all[i as int] == (map@[i as int].0@, map@[i as int].1@));
        }
        let name = to_lower(chars_of(map[i].0.as_str()).as_slice());
        if chars_eq(name.as_slice(), key.as_slice()) {
            let size = match byte_size(map[i].1.as_str(), MAX_BYTES) {
                Some(size) => size,
                None => {
                    proof {
                        lemma_warning_bytes_grow(all, i + 1);
                    }
                    return None;
                },
            };
            if total > MAX_BYTES - size {
                proof {
                    lemma_warning_bytes_grow(all, i + 1);
                }
                return None;
            }
            total = total + size;
        }
        i += 1;
    }
    proof {
        assert(all.take(map.len() as int) =~= all);
    }
    Some(total)
}

/// More headers never hold fewer warning bytes.
pub proof fn lemma_warning_bytes_grow(headers: Seq<(Seq<char>, Seq<char>)>, j: int)
    requires
        0 <= j <= headers.len(),
    ensures
        warning_bytes(headers.take(j)) <= warning_bytes(headers),
    decreases headers.len() - j,
{
    if j < headers.len() {
        assert(headers.take(j + 1).drop_last() =~= headers.take(j));
        lemma_warning_bytes_grow(headers, j + 1);
    } else {
        assert(headers.take(j) =~= headers);
    }
}

/// The body of an error response: the code, its static message and a free detail.
#[derive(Debug)]
pub struct ErrorResponse {
    pub code: Code,
    pub message: String,
    pub detail: String,
}

/// The view of `Error`: the same value with every string as its characters.
pub struct ErrorModel {
    pub code: Code,
    pub message: Seq<char>,
    pub detail: Seq<char>,
}

impl View for ErrorResponse {
    type V = ErrorModel;

    open spec fn view(&self) -> ErrorModel {
        ErrorModel { code: self.code, message: self.message@, detail: self.detail@ }
    }
}

impl ErrorResponse {
    /// The error response for `code` with the detail `detail`.
    pub fn from_code(code: &Code, detail: &str) -> (out: Self)
        ensures
            out@ == (ErrorModel { code: *code, message: code.message(), detail: detail@ }),
    {
        ErrorResponse {
            code: *code,
            message: string_of(chars_of(code.description()).as_slice()),
            detail: string_of(chars_of(detail).as_slice()),
        }
    }
}

} // verus!
