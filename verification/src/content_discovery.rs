//! Finding out what the registry holds: the tags of a repository, page by page, and the
//! repositories with what they hold.

use crate::auth::Auth;
use crate::codes::Code;
use crate::database::{owned, DbConn, DbModel};
use crate::order::{list_page, listed, next_last};
use crate::response::{error_reply, Body, BodyModel, Response, ResponseModel};
use crate::storage::LocalStorageDriver;
use crate::storage_driver::DriverType;
use crate::text::{chars_of, decimal, extend_chars, format_u64, string_of, string_views};
use vstd::prelude::*;

verus! {

/// The tags of a repository.
pub struct TagsListResponse {
    pub name: String,
    pub tags: Vec<String>,
}

/// What a client sends to log in or to ask for a token.
pub struct DockerLogin {
    pub service: Option<String>,
    pub client_id: Option<String>,
    pub scope: Option<String>,
    pub offline_token: Option<bool>,
    pub account: Option<String>,
    pub password: Option<String>,
}

/// How many tags to list, and after which.
pub struct TagsQueryParams {
    pub n: Option<usize>,
    pub last: Option<String>,
}

/// What the registry reports of one repository.
pub struct Repository {
    pub name: String,
    pub is_public: bool,
    pub blob_count: i64,
    pub tag_count: i64,
    pub tags: Vec<String>,
    pub manifest_count: i64,
    pub file_path: String,
    pub disk_usage: u64,
    pub driver: DriverType,
    pub num_layers: i64,
}

/// Whether a new repository is public.
pub struct NewRepoQuery {
    pub is_public: Option<String>,
}

/// The repositories of the registry.
pub struct RepoList {
    pub repositories: Vec<Repository>,
}

impl TagsListResponse {
    /// The tags `tags` of the repository named `name`.
    pub fn new(name: &str, tags: &[String]) -> (out: Self)
        ensures
            out.name@ == name@,
            string_views(out.tags@) == string_views(tags@),
    {
        let mut copy: Vec<String> = Vec::new();
        let mut i: usize = 0;
        while i < tags.len()
            invariant
                i <= tags.len(),
                string_views(copy@) == string_views(tags@).take(i as int),
            decreases tags.len() - i,
        {
            let ghost before = copy@;
            let t = tags[i].clone();
            copy.push(t);
            proof {
                assert(string_views(copy@) =~= string_views(before).push(t@));
                assert(string_views(copy@) =~= string_views(tags@).take(i + 1));
            }
            i += 1;
        }
        proof {
            assert(string_views(tags@).take(tags.len() as int) =~= string_views(tags@));
        }
        TagsListResponse { name: owned(name), tags: copy }
    }
}

/// The answer to a malformed request: status 400 and the message.
pub fn bad_request(msg: &str) -> (out: (u16, String))
    ensures
        out.0 == 400,
        out.1@ == msg@,
{
    (400, owned(msg))
}

/// The answer to the probe of `/v2/`: status 200.
pub fn get_v2() -> (out: u16)
    ensures
        out == 200,
{
    200
}

/// The `Link` header that leads to the page after one that ends with `last`:
/// `</v2/<name>/tags/list?n=<n>&last=<last>>; rel="next"`.
pub open spec fn next_link(name: Seq<char>, n: usize, last: Seq<char>) -> Seq<char> {
    "</v2/"@ + name + "/tags/list?n="@ + decimal(n as nat) + "&last="@ + last + ">; rel=\"next\""@
}

/// The headers of a tag listing: the `Link` to the next page, if the page is full.
pub open spec fn listing_headers(name: Seq<char>, page: Seq<Seq<char>>, n: Option<usize>) -> Seq<
    (Seq<char>, Seq<char>),
> {
    match next_last(page, n) {
        Some(last) => seq![("Link"@, next_link(name, n.unwrap(), last))],
        None => Seq::empty(),
    }
}

/// The answer to a tag listing.
pub open spec fn tags_reply(db: DbModel, name: Seq<char>, n: Option<usize>, last: Option<Seq<char>>) -> ResponseModel {
    match db.repo_id(name) {
        Some(repo) => {
            let page = listed(db.tags_of(repo), n, last);
            ResponseModel {
                status: 200,
                headers: listing_headers(name, page, n),
                body: BodyModel::Tags(name, page),
            }
        },
        None => error_reply(404, Code::NameUnknown, "namespace not found"@),
    }
}

/// Lists the tags of the repository named `name` in their order, letters compared without
/// regard to case: only those after `last` if it is given, no more than `n` if it is
/// given. A page that is as long as `n` comes with a `Link` header that names its last tag
/// for the next page. An unknown repository is answered with 404 `NameUnknown`.
pub fn get_tags_list(conn: &DbConn, name: &str, params: &TagsQueryParams) -> (out: Response)
    ensures
        out@ == tags_reply(
            conn@,
            name@,
            params.n,
            match params.last {
                Some(l) => Some(l@),
                None => None,
            },
        ),
{
    let repo = match conn.repo_lookup(name) {
        Some(found) => found.0,
        None => {
            return Response::error(404, Code::NameUnknown, "namespace not found");
        },
    };
    let tags = conn.tags_of(repo);
    let last = match &params.last {
        Some(l) => Some(l.as_str()),
        None => None,
    };
    let page = list_page(&tags, params.n, last);
    let link = match params.n {
        Some(limit) => {
            if page.len() == limit && limit > 0 {
                assert(string_views(page@).last() == page@[page.len() - 1]@);
                let mut text = chars_of("</v2/");
                extend_chars(&mut text, chars_of(name).as_slice());
                extend_chars(&mut text, chars_of("/tags/list?n=").as_slice());
                extend_chars(&mut text, format_u64(limit as u64).as_slice());
                extend_chars(&mut text, chars_of("&last=").as_slice());
                extend_chars(&mut text, chars_of(page[page.len() - 1].as_str()).as_slice());
                extend_chars(&mut text, chars_of(">; rel=\"next\"").as_slice());
                Some(string_of(text.as_slice()))
            } else {
                None
            }
        },
        None => None,
    };
    let mut response = Response::new(200, Body::Tags(TagsListResponse { name: owned(name), tags: page }));
    match link {
        Some(l) => {
            response.push_header("Link", l.as_str());
            assert(response@.headers =~= seq![("Link"@, l@)]);
        },
        None => {},
    }
    response
}

/// The blob row belongs to repository `repo`.
pub open spec fn blob_in(repo: u64) -> spec_fn(crate::rows::BlobModel) -> bool {
    |b: crate::rows::BlobModel| b.repository_id == repo
}

/// The layer row belongs to repository `repo`.
pub open spec fn layer_in(repo: u64) -> spec_fn(crate::rows::ManifestLayerModel) -> bool {
    |l: crate::rows::ManifestLayerModel| l.repository_id == repo
}

/// The condition `blob_in` as a test that compiled code can run.
pub struct BlobIn {
    pub repo: u64,
}

impl crate::table::Probe<crate::rows::BlobRow> for BlobIn {
    open spec fn cond(&self) -> spec_fn(crate::rows::BlobModel) -> bool {
        blob_in(self.repo)
    }

    fn test(&self, row: &crate::rows::BlobRow) -> (b: bool) {
        row.repository_id == self.repo
    }
}

/// The condition `tag_in` as a test that compiled code can run.
pub struct TagIn {
    pub repo: u64,
}

impl crate::table::Probe<crate::rows::TagRow> for TagIn {
    open spec fn cond(&self) -> spec_fn(crate::rows::TagModel) -> bool {
        crate::index::tag_in(self.repo)
    }

    fn test(&self, row: &crate::rows::TagRow) -> (b: bool) {
        row.repository_id == self.repo
    }
}

/// The condition `manifest_in` as a test that compiled code can run.
pub struct ManifestIn {
    pub repo: u64,
}

impl crate::table::Probe<crate::rows::ManifestRow> for ManifestIn {
    open spec fn cond(&self) -> spec_fn(crate::rows::ManifestModel) -> bool {
        crate::index::manifest_in(self.repo)
    }

    fn test(&self, row: &crate::rows::ManifestRow) -> (b: bool) {
        row.repository_id == self.repo
    }
}

/// The condition `layer_in` as a test that compiled code can run.
pub struct LayerIn {
    pub repo: u64,
}

impl crate::table::Probe<crate::rows::ManifestLayerRow> for LayerIn {
    open spec fn cond(&self) -> spec_fn(crate::rows::ManifestLayerModel) -> bool {
        layer_in(self.repo)
    }

    fn test(&self, row: &crate::rows::ManifestLayerRow) -> (b: bool) {
        row.repository_id == self.repo
    }
}

/// Whether the word says yes: `true`, in any case of the letters.
pub open spec fn says_true(word: Seq<char>) -> bool {
    crate::text::lower(word) == "true"@
}

/// Adds the repository named `name`, public if `public` is `true` in any case of the
/// letters: 201. A name that is no repository name is answered with 400 `NameInvalid`, a
/// name that is taken with 400; then nothing changes.
pub fn create_repository(conn: &mut DbConn, storage: &LocalStorageDriver, name: &str, public: &str) -> (out: Response)
    ensures
        ({
            let fine = crate::paths::valid_namespace(name@)
                && old(conn)@.repo_lookup(name@).is_none() && old(conn)@.next_id != u64::MAX;
            &&& out@ == (if fine {
                ResponseModel {
                    status: 201,
                    headers: Seq::empty(),
                    body: BodyModel::Text("repository created"@),
                }
            } else if !crate::paths::valid_namespace(name@) {
                error_reply(400, Code::NameInvalid, "invalid repository name"@)
            } else {
                ResponseModel { status: 400, headers: Seq::empty(), body: BodyModel::Text("invalid request"@) }
            })
            &&& final(conn)@ == (if fine {
                old(conn)@.with_repository(name@, says_true(public@))
            } else {
                old(conn)@
            })
        }),
        crate::storage::backed(old(conn)@, storage.files()) ==> crate::storage::backed(
            final(conn)@,
            storage.files(),
        ),        old(conn)@.wf() ==> final(conn)@.wf(),
{
    let word = crate::text::to_lower(chars_of(public).as_slice());
    let is_pub = crate::text::chars_eq(word.as_slice(), chars_of("true").as_slice());
    match storage.create_repository(conn, name, is_pub) {
        Ok(_) => Response::text(201, "repository created"),
        Err(crate::error::StorageError::InvalidInput) => Response::error(
            400,
            Code::NameInvalid,
            "invalid repository name",
        ),
        Err(_) => Response::text(400, "invalid request"),
    }
}

/// Deletes the repository named `name` with all that belongs to it: 200, whether or not
/// there was such a repository.
pub fn delete_repository(name: &str, conn: &mut DbConn, storage: &mut LocalStorageDriver) -> (out: Response)
    requires
        old(storage).wf(),
    ensures
        final(storage).wf(),
        final(storage).root() == old(storage).root(),
        out@ == (ResponseModel {
            status: 200,
            headers: Seq::empty(),
            body: BodyModel::Text("repository deleted"@),
        }),
        match old(conn)@.repo_id(name@) {
            Some(repo) => final(conn)@ == old(conn)@.without_repository(repo, name@)
                && final(storage).files() == crate::storage::swept(
                old(storage).files(),
                final(conn)@,
                old(conn)@.blob_paths() + old(conn)@.keep_manifests_of(repo).manifest_paths(),
            ),
            None => final(conn)@ == old(conn)@ && final(storage).files() == old(storage).files(),
        },
        crate::storage::backed(old(conn)@, old(storage).files()) ==> crate::storage::backed(
            final(conn)@,
            final(storage).files(),
        ),        old(conn)@.wf() ==> final(conn)@.wf(),
{
    let _ = storage.delete_repository(name, conn);
    Response::text(200, "repository deleted")
}

/// A number of rows as a signed number, held at the largest when it does not fit.
pub fn as_count(n: usize) -> (out: i64)
    ensures
        out == as_count_spec(n as nat),
{
    let m = n as u64;
    if m <= 0x7fff_ffff_ffff_ffff {
        m as i64
    } else {
        i64::MAX
    }
}

/// What the registry reports of the repository at position `at`.
pub fn describe(conn: &DbConn, storage: &LocalStorageDriver, at: usize) -> (out: Repository)
    requires
        at < conn.repositories.len(),
    ensures
        out.name@ == conn@.repositories[at as int].name,
        out.is_public == conn@.repositories[at as int].is_public,
        string_views(out.tags@) == conn@.tags_of(conn@.repositories[at as int].id),
        out.file_path@ == crate::paths::join(storage.root(), conn@.repositories[at as int].name),
        out.driver == DriverType::Local,
        out.blob_count == as_count_spec(conn@.blobs.filter(blob_in(conn@.repositories[at as int].id)).len()),
        out.tag_count == as_count_spec(
            conn@.tags.filter(crate::index::tag_in(conn@.repositories[at as int].id)).len(),
        ),
        out.manifest_count == as_count_spec(
            conn@.manifests.filter(crate::index::manifest_in(conn@.repositories[at as int].id)).len(),
        ),
        out.num_layers == as_count_spec(
            conn@.manifest_layers.filter(layer_in(conn@.repositories[at as int].id)).len(),
        ),
{
    let row = &conn.repositories[at];
    assert(conn@.repositories[at as int] == row@);
    let path = crate::paths::join_path(storage.base_path().as_str(), row.name.as_str());
    Repository {
        name: row.name.clone(),
        is_public: row.is_public,
        blob_count: as_count(crate::table::count_where(&conn.blobs, &BlobIn { repo: row.id })),
        tag_count: as_count(crate::table::count_where(&conn.tags, &TagIn { repo: row.id })),
        tags: conn.tags_of(row.id),
        manifest_count: as_count(crate::table::count_where(&conn.manifests, &ManifestIn { repo: row.id })),
        disk_usage: storage.get_dir_size(path.as_str()),
        file_path: path,
        driver: DriverType::Local,
        num_layers: as_count(crate::table::count_where(&conn.manifest_layers, &LayerIn { repo: row.id })),
    }
}

/// A number of rows as a signed number, held at the largest when it does not fit.
pub open spec fn as_count_spec(n: nat) -> i64 {
    if n <= i64::MAX {
        n as i64
    } else {
        i64::MAX
    }
}

/// Lists the repositories with what each holds: 200. With `pub_only` only the public ones
/// are listed.
pub fn list_repositories_of(conn: &DbConn, storage: &LocalStorageDriver, pub_only: bool) -> (out: Response)
    ensures
        out@ == (ResponseModel {
            status: 200,
            headers: Seq::empty(),
            body: BodyModel::Repositories(conn@.repository_names(pub_only).len()),
        }),
        out.body matches Body::Repositories(list) && forall|i: int|
            0 <= i < list.repositories@.len() ==> (#[trigger] list.repositories@[i]).name@
                == conn@.repository_names(pub_only)[i],
{
    let ghost keep = |r: crate::rows::RepositoryModel| !pub_only || r.is_public;
    let ghost rows = conn@.repositories;
    let ghost name_of = |r: crate::rows::RepositoryModel| r.name;
    let mut list: Vec<Repository> = Vec::new();
    let mut i: usize = 0;
    proof {
        assert(rows.take(0) =~= Seq::<crate::rows::RepositoryModel>::empty());
        assert(rows.take(0).filter(keep) =~= Seq::<crate::rows::RepositoryModel>::empty()) by {
            reveal(Seq::filter);
        }
    }
    while i < conn.repositories.len()
        invariant
            i <= conn.repositories.len(),
            rows == crate::table::views_of(conn.repositories@),
            keep == (|r: crate::rows::RepositoryModel| !pub_only || r.is_public),
            list@.len() == rows.take(i as int).filter(keep).len(),
            forall|k: int|
                0 <= k < list@.len() ==> (#[trigger] list@[k]).name@ == rows.take(i as int).filter(
                    keep,
                )[k].name,
        decreases conn.repositories.len() - i,
    {
        proof {
            assert(rows.take(i + 1) =~= rows.take(i as int).push(rows[i as int]));
            crate::table::lemma_filter_push(rows.take(i as int), rows[i as int], keep);
            assert(rows[i as int] == conn.repositories@[i as int]@);
        }
        if !pub_only || conn.repositories[i].is_public {
            list.push(describe(conn, storage, i));
        }
        i += 1;
    }
    proof {
        assert(rows.take(conn.repositories.len() as int) =~= rows);
    }
    Response::new(200, Body::Repositories(RepoList { repositories: list }))
}

/// Lists the repositories: all of them for a request without claims or with claims that
/// have not expired at `now`, only the public ones for a request whose claims have expired.
pub fn list_repositories(conn: &DbConn, storage: &LocalStorageDriver, auth: Option<&Auth>, now: u64) -> (out: Response)
    ensures
        ({
            let pub_only = auth.is_some() && !(auth.unwrap().claims.is_some()
                && auth.unwrap().claims.unwrap().exp > now);
            &&& out@ == (ResponseModel {
                status: 200,
                headers: Seq::empty(),
                body: BodyModel::Repositories(conn@.repository_names(pub_only).len()),
            })
            &&& out.body matches Body::Repositories(list) && forall|i: int|
                0 <= i < list.repositories@.len() ==> (#[trigger] list.repositories@[i]).name@
                    == conn@.repository_names(pub_only)[i]
        }),
{
    let pub_only = match auth {
        Some(a) => !a.is_valid_at(now),
        None => false,
    };
    list_repositories_of(conn, storage, pub_only)
}

} // verus!
