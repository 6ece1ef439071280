//! The endpoints of the registry protocol and the ports that the registry listens on.

use vstd::prelude::*;

verus! {

/// The port for plain HTTP and the port for HTTPS.
#[derive(Clone, Copy)]
pub struct Ports(pub u16, pub u16);

/// The endpoints of the registry protocol.
#[derive(Debug)]
pub enum Endpoint {
    GetV2,
    HeadBlobs,
    GetBlobs,
    HeadManifests,
    GetManifests,
    PostBlobsUploads,
    PostBlobsUploadsWithDigest,
    PatchBlobsUploads,
    PutBlobsUploadsWithDigest,
    PutBlobsNoSession,
    PutManifests,
    GetTagsList,
    GetTagsListWithParams,
    DeleteManifests,
    DeleteBlobs,
    PostBlobsUploadsMount,
    GetReferrers,
    GetReferrersWithArtifactType,
    GetBlobsUploads,
}

impl Endpoint {
    /// The HTTP method of the endpoint.
    pub open spec fn verb(self) -> Seq<char> {
        match self {
            Endpoint::GetV2 => "GET"@,
            Endpoint::HeadBlobs => "HEAD"@,
            Endpoint::GetBlobs => "GET"@,
            Endpoint::HeadManifests => "HEAD"@,
            Endpoint::GetManifests => "GET"@,
            Endpoint::PostBlobsUploads => "POST"@,
            Endpoint::PostBlobsUploadsWithDigest => "POST"@,
            Endpoint::PatchBlobsUploads => "PATCH"@,
            Endpoint::PutBlobsUploadsWithDigest => "PUT"@,
            Endpoint::PutBlobsNoSession => "PUT"@,
            Endpoint::PutManifests => "PUT"@,
            Endpoint::GetTagsList => "GET"@,
            Endpoint::GetTagsListWithParams => "GET"@,
            Endpoint::DeleteManifests => "DELETE"@,
            Endpoint::DeleteBlobs => "DELETE"@,
            Endpoint::PostBlobsUploadsMount => "POST"@,
            Endpoint::GetReferrers => "GET"@,
            Endpoint::GetReferrersWithArtifactType => "GET"@,
            Endpoint::GetBlobsUploads => "GET"@,
        }
    }

    /// The HTTP method of the endpoint.
    pub fn method(&self) -> (out: &'static str)
        ensures
            out@ == self.verb(),
    {
        match self {
            Endpoint::GetV2 => "GET",
            Endpoint::HeadBlobs => "HEAD",
            Endpoint::GetBlobs => "GET",
            Endpoint::HeadManifests => "HEAD",
            Endpoint::GetManifests => "GET",
            Endpoint::PostBlobsUploads => "POST",
            Endpoint::PostBlobsUploadsWithDigest => "POST",
            Endpoint::PatchBlobsUploads => "PATCH",
            Endpoint::PutBlobsUploadsWithDigest => "PUT",
            Endpoint::PutBlobsNoSession => "PUT",
            Endpoint::PutManifests => "PUT",
            Endpoint::GetTagsList => "GET",
            Endpoint::GetTagsListWithParams => "GET",
            Endpoint::DeleteManifests => "DELETE",
            Endpoint::DeleteBlobs => "DELETE",
            Endpoint::PostBlobsUploadsMount => "POST",
            Endpoint::GetReferrers => "GET",
            Endpoint::GetReferrersWithArtifactType => "GET",
            Endpoint::GetBlobsUploads => "GET",
        }
    }
}

} // verus!
