//! Values that the registry and its clients exchange: image manifests and their parts,
//! repository summaries, users and registration requests.

use crate::rows::{clone_opt, opt_text};
use crate::text::{chars_of, string_of};
use vstd::prelude::*;

verus! {

/// The media type of an image index.
pub const OCI_CONTENT_HEADER: &'static str = "application/vnd.oci.image.index.v1+json";

/// The header that carries the digest of the content.
pub const DOCKER_DIGEST: &'static str = "Docker-Content-Digest";

/// The media type of a version 2 manifest.
pub const MANIFEST_CONTENT_TYPE: &'static str =
    "application/vnd.docker.distribution.manifest.v2+json";

/// What the registry reports of one repository.
pub struct Repo {
    pub name: String,
    pub is_public: bool,
    pub blob_count: i64,
    pub tag_count: i64,
    pub tags: Vec<String>,
    pub manifest_count: i64,
    pub file_path: String,
    pub disk_usage: usize,
    pub driver: String,
    pub num_layers: i64,
}

/// A reference to a blob from a manifest: media type, size and digest.
pub struct Descriptor {
    pub media_type: Option<String>,
    pub size: i32,
    pub digest: String,
}

/// The view of `Descriptor`: the same value with every string as its characters.
pub struct DescriptorModel {
    pub media_type: Option<Seq<char>>,
    pub size: i32,
    pub digest: Seq<char>,
}

impl View for Descriptor {
    type V = DescriptorModel;

    open spec fn view(&self) -> DescriptorModel {
        DescriptorModel { media_type: opt_text(self.media_type), size: self.size, digest: self.digest@ }
    }
}

impl Clone for Descriptor {
    fn clone(&self) -> (out: Self)
        ensures
            out@ == self@,
    {
        Descriptor {
            media_type: clone_opt(&self.media_type),
            size: self.size,
            digest: self.digest.clone(),
        }
    }
}

impl Default for Descriptor {
    fn default() -> (out: Self)
        ensures
            out@ == (DescriptorModel { media_type: None, size: 0, digest: Seq::<char>::empty() }),
    {
        Descriptor { media_type: None, size: 0, digest: String::new() }
    }
}

/// The views of a sequence of descriptors.
pub open spec fn descriptor_views(v: Seq<Descriptor>) -> Seq<DescriptorModel> {
    v.map_values(|d: Descriptor| d@)
}

/// An image manifest: the configuration blob and the layers of an image.
pub struct ImageManifest {
    pub schema_version: i32,
    pub media_type: Option<String>,
    pub config: Option<Descriptor>,
    pub layers: Vec<Descriptor>,
    pub annotations: Option<Vec<(String, String)>>,
}

/// The view of `ImageManifest`: the same value with every string as its characters.
pub struct ImageManifestModel {
    pub schema_version: i32,
    pub media_type: Option<Seq<char>>,
    pub config: Option<DescriptorModel>,
    pub layers: Seq<DescriptorModel>,
    pub annotations: Option<Seq<(Seq<char>, Seq<char>)>>,
}

/// The annotations as pairs of characters.
pub open spec fn annotation_views(pairs: Seq<(String, String)>) -> Seq<(Seq<char>, Seq<char>)> {
    pairs.map_values(|p: (String, String)| (p.0@, p.1@))
}

impl View for ImageManifest {
    type V = ImageManifestModel;

    open spec fn view(&self) -> ImageManifestModel {
        ImageManifestModel {
            schema_version: self.schema_version,
            media_type: opt_text(self.media_type),
            config: match self.config {
                Some(c) => Some(c@),
                None => None,
            },
            layers: descriptor_views(self.layers@),
            annotations: match self.annotations {
                Some(a) => Some(annotation_views(a@)),
                None => None,
            },
        }
    }
}

impl ImageManifestModel {
    /// The size that the manifest states for its configuration; 0 without one.
    pub open spec fn config_size(self) -> i64 {
        match self.config {
            Some(c) => c.size as i64,
            None => 0,
        }
    }
}

impl ImageManifest {
    /// The size that the manifest states for its configuration; 0 without one.
    pub fn config_size(&self) -> (out: i64)
        ensures
            out == self@.config_size(),
    {
        match &self.config {
            Some(c) => c.size as i64,
            None => 0,
        }
    }
}

impl Default for ImageManifest {
    /// A version 2 manifest with an empty configuration and no layers.
    fn default() -> (out: Self)
        ensures
            out@.schema_version == 2,
            out@.media_type == Some(MANIFEST_CONTENT_TYPE@),
            out@.config == Some(
                DescriptorModel {
                    media_type: Some("application/vnd.oci.image.config.v2+json"@),
                    size: 0,
                    digest: Seq::<char>::empty(),
                },
            ),
            out@.layers == Seq::<DescriptorModel>::empty(),
            out.annotations.is_none(),
    {
        let out = ImageManifest {
            schema_version: 2,
            media_type: Some(string_of(chars_of(MANIFEST_CONTENT_TYPE).as_slice())),
            config: Some(
                Descriptor {
                    media_type: Some(
                        string_of(chars_of("application/vnd.oci.image.config.v2+json").as_slice()),
                    ),
                    size: 0,
                    digest: String::new(),
                },
            ),
            layers: Vec::new(),
            annotations: None,
        };
        assert(out@.layers =~= Seq::<DescriptorModel>::empty());
        out
    }
}

/// The configuration of an image.
pub struct ImageConfig {
    pub architecture: String,
    pub os: String,
    pub created: Option<String>,
    pub author: Option<String>,
    pub config: Config,
    pub rootfs: RootFS,
    pub history: Vec<History>,
}

/// How a container of the image is started.
pub struct Config {
    pub env: Option<Vec<String>>,
    pub entrypoint: Option<Vec<String>>,
    pub cmd: Option<Vec<String>>,
    pub labels: Option<Vec<(String, String)>>,
}

/// The layers that make up the root file system.
pub struct RootFS {
    pub type_: String,
    pub diff_ids: Vec<String>,
}

/// One step in the history of an image.
pub struct History {
    pub created: Option<String>,
    pub created_by: Option<String>,
    pub author: Option<String>,
    pub comment: Option<String>,
}

/// The actions a user holds on one repository, by name.
pub struct RepoScope {
    pub repo: String,
    pub scope: Vec<String>,
}

/// A user account as the registry reports it.
pub struct User {
    pub id: String,
    pub is_admin: bool,
    pub email: String,
    pub password: String,
    pub created_at: i64,
}

/// A user with the scopes held on every repository.
pub struct UserResponse {
    pub user: User,
    pub scopes: Vec<RepoScope>,
}

/// An API key as the registry reports it.
pub struct AuthClient {
    pub id: i64,
    pub client_id: String,
    pub secret: String,
    pub email: String,
    pub created_at: i64,
}

/// Whether `c` is a numeric character, as `char::is_numeric` tells it: whether Unicode
/// gives it one of the general categories for numbers.
pub uninterp spec fn is_numeric(c: char) -> bool;

/// `char::is_numeric` says whether a character has one of Unicode's general categories
/// for numbers; the answer depends on the character alone.
#[verifier::external_body]
fn char_is_numeric(c: char) -> (out: bool)
    ensures
        out == is_numeric(c),
{
    c.is_numeric()
}

/// Whether some character of `s` is numeric.
pub open spec fn has_digit(s: Seq<char>) -> bool {
    exists|k: int| 0 <= k < s.len() && is_numeric(#[trigger] s[k])
}

/// Whether every character of `s` is ASCII.
pub open spec fn all_ascii(s: Seq<char>) -> bool {
    forall|k: int| 0 <= k < s.len() ==> '\0' <= #[trigger] s[k] <= '\u{7f}'
}

/// An acceptable account: an ASCII e-mail address and a password of more than eight bytes
/// in UTF-8 with at least one numeric character.
pub open spec fn account_valid(email: Seq<char>, password: Seq<char>) -> bool {
    all_ascii(email) && crate::codes::byte_len(password) > 8 && has_digit(password)
}

fn is_all_ascii(s: &[char]) -> (ok: bool)
    ensures
        ok == all_ascii(s@),
{
    let mut i: usize = 0;
    while i < s.len()
        invariant
            i <= s.len(),
            forall|k: int| 0 <= k < i ==> '\0' <= #[trigger] s@[k] <= '\u{7f}',
        decreases s.len() - i,
    {
        let c = s[i];
        if !('\0' <= c && c <= '\u{7f}') {
            return false;
        }
        i += 1;
    }
    true
}

fn contains_digit(s: &[char]) -> (ok: bool)
    ensures
        ok == has_digit(s@),
{
    let mut j: usize = 0;
    while j < s.len()
        invariant
            j <= s.len(),
            forall|k: int| 0 <= k < j ==> !is_numeric(#[trigger] s@[k]),
        decreases s.len() - j,
    {
        if char_is_numeric(s[j]) {
            assert(is_numeric(s@[j as int]));
            return true;
        }
        j += 1;
    }
    false
}

fn check_account(email: &str, password: &str) -> (ok: bool)
    ensures
        ok == account_valid(email@, password@),
{
    let e = chars_of(email);
    let p = chars_of(password);
    is_all_ascii(e.as_slice()) && crate::codes::byte_size(password, 8).is_none() && contains_digit(p.as_slice())
}

impl User {
    /// A user with the given identifier and creation time.
    pub fn with_identity(id: &str, email: &str, password: &str, admin: bool, created_at: i64) -> (out: Self)
        ensures
            out.id@ == id@,
            out.email@ == email@,
            out.password@ == password@,
            out.is_admin == admin,
            out.created_at == created_at,
    {
        User {
            id: string_of(chars_of(id).as_slice()),
            is_admin: admin,
            email: string_of(chars_of(email).as_slice()),
            password: string_of(chars_of(password).as_slice()),
            created_at,
        }
    }

    /// A new user, with a fresh random identifier, created now. Whatever identifier and
    /// time come out, e-mail address, password and administrator flag are those given, and
    /// the identifier is a UUID in its hyphenated form.
    pub fn new(email: &str, password: &str, admin: bool) -> (out: Self)
        ensures
            out.email@ == email@,
            out.password@ == password@,
            out.is_admin == admin,
            out.id@.len() == 36,
            out.created_at >= 0,
    {
        let id = crate::uploads::fresh_uuid();
        let now = crate::util::now_millis();
        let created_at = if now <= 0x7fff_ffff_ffff_ffff {
            now as i64
        } else {
            i64::MAX
        };
        User::with_identity(id.as_str(), email, password, admin, created_at)
    }

    /// Whether e-mail address and password are acceptable.
    pub fn validate(&self) -> (ok: bool)
        ensures
            ok == account_valid(self.email@, self.password@),
    {
        check_account(self.email.as_str(), self.password.as_str())
    }
}

impl AuthClient {
    /// An API key that is not stored yet, created at `created_at`: its row number is 0.
    pub fn created_at(client_id: &str, secret: &str, email: &str, created_at: i64) -> (out: Self)
        ensures
            out.id == 0,
            out.client_id@ == client_id@,
            out.secret@ == secret@,
            out.email@ == email@,
            out.created_at == created_at,
    {
        AuthClient {
            id: 0,
            client_id: string_of(chars_of(client_id).as_slice()),
            secret: string_of(chars_of(secret).as_slice()),
            email: string_of(chars_of(email).as_slice()),
            created_at,
        }
    }

    /// An API key that is not stored yet, created now: its row number is 0.
    pub fn new(client_id: &str, secret: &str, email: &str) -> (out: Self)
        ensures
            out.id == 0,
            out.client_id@ == client_id@,
            out.secret@ == secret@,
            out.email@ == email@,
            out.created_at >= 0,
    {
        let now = crate::util::now_millis();
        let created_at = if now <= 0x7fff_ffff_ffff_ffff {
            now as i64
        } else {
            i64::MAX
        };
        AuthClient::created_at(client_id, secret, email, created_at)
    }
}

impl Default for AuthClient {
    /// An API key without client, secret and user, created now.
    fn default() -> (out: Self)
        ensures
            out.id == 0,
            out.client_id@ == Seq::<char>::empty(),
            out.secret@ == Seq::<char>::empty(),
            out.email@ == Seq::<char>::empty(),
            out.created_at >= 0,
    {
        proof {
            reveal_strlit("");
            assert(""@ =~= Seq::<char>::empty());
        }
        AuthClient::new("", "", "")
    }
}

/// A request to create an account or to change its password.
pub struct RegisterUserRequest {
    pub email: String,
    pub password: String,
    pub confirm_password: String,
    pub is_admin: bool,
}

/// The text `Invalid input`.
pub open spec fn invalid_input_text() -> Seq<char> {
    seq!['I', 'n', 'v', 'a', 'l', 'i', 'd', ' ', 'i', 'n', 'p', 'u', 't']
}

impl RegisterUserRequest {
    /// Whether the account is acceptable and the password was typed the same twice.
    pub open spec fn valid(&self) -> bool {
        account_valid(self.email@, self.password@) && self.password@ == self.confirm_password@
    }

    /// A request with the given fields.
    pub fn new(email: &str, password: &str, confirm_password: &str, is_admin: bool) -> (out:
        Self)
        ensures
            out.email@ == email@,
            out.password@ == password@,
            out.confirm_password@ == confirm_password@,
            out.is_admin == is_admin,
    {
        RegisterUserRequest {
            email: string_of(chars_of(email).as_slice()),
            password: string_of(chars_of(password).as_slice()),
            confirm_password: string_of(chars_of(confirm_password).as_slice()),
            is_admin,
        }
    }

    /// Reads a request from four input fields: e-mail address, password, password again,
    /// and `y` for an administrator. Any other number of fields, or fields that do not make
    /// a valid request, are refused with `Invalid input`.
    pub fn from_input_buff(buff: &[&str]) -> (out: Result<Self, String>)
        ensures
            match out {
                Ok(req) => buff@.len() == 4 && req.email@ == buff@[0]@ && req.password@
                    == buff@[1]@ && req.confirm_password@ == buff@[2]@ && req.is_admin == (
                buff@[3]@ == seq!['y']) && req.valid(),
                Err(msg) => msg@ == invalid_input_text() && !(buff@.len() == 4 && account_valid(
                    buff@[0]@,
                    buff@[1]@,
                ) && buff@[1]@ == buff@[2]@),
            },
    {
        proof {
            reveal_strlit("Invalid input");
            assert("Invalid input"@ =~= invalid_input_text());
            reveal_strlit("y");
            assert("y"@ =~= seq!['y']);
        }
        if buff.len() != 4 {
            return Err(string_of(chars_of("Invalid input").as_slice()));
        }
        let admin = crate::text::str_eq(buff[3], "y");
        let req = Self::new(buff[0], buff[1], buff[2], admin);
        if req.validate() {
            Ok(req)
        } else {
            Err(string_of(chars_of("Invalid input").as_slice()))
        }
    }

    /// Whether the request is valid.
    pub fn validate(&self) -> (ok: bool)
        ensures
            ok == self.valid(),
    {
        check_account(self.email.as_str(), self.password.as_str()) && self.password
            == self.confirm_password
    }
}

} // verus!
