//! The upload boundary's computable part: the request and response
//! records and the storage-key and URL assembly around the external
//! signing collaborator.

use vstd::prelude::*;

verus! {

/// A request for a pre-signed upload slot.
#[derive(Debug)]
pub struct PresignedRequest {
    pub file_extension: String,
    pub username: String,
}

/// The pair handed back to the client: the signed upload URL and the
/// public URL the stored object will have.
#[derive(Debug)]
pub struct PresignedResponse {
    pub presigned_url: String,
    pub public_url: String,
}

/// The storage key of an upload: `username/folder/name.extension`.
pub open spec fn spec_file_key(
    username: Seq<char>,
    folder: Seq<char>,
    name: Seq<char>,
    ext: Seq<char>,
) -> Seq<char> {
    username + "/"@ + folder + "/"@ + name + "."@ + ext
}

/// Builds the storage key of an upload; the unique object name is
/// handed in by the caller, which draws it from the signing layer.
pub fn make_file_key(username: &str, folder: &str, name: &str, extension: &str) -> (r: String)
    ensures
        r@ == spec_file_key(username@, folder@, name@, extension@),
{
    let mut out = String::from_str(username);
    out.append("/");
    out.append(folder);
    out.append("/");
    out.append(name);
    out.append(".");
    out.append(extension);
    proof {
        assert(out@ =~= spec_file_key(username@, folder@, name@, extension@));
    }
    out
}

/// Joins the public base URL and a storage key with a slash.
pub fn assemble_public_url(base: &str, key: &str) -> (r: String)
    ensures
        r@ == base@ + "/"@ + key@,
{
    let mut out = String::from_str(base);
    out.append("/");
    out.append(key);
    proof {
        assert(out@ =~= base@ + "/"@ + key@);
    }
    out
}

} // verus!
