//! Identities: what stands for a content, in place of the content.

use crate::discovery::io_error;
use crate::error::Error;
use crate::error::Operation;
use crate::fs::Filesystem;
use crate::transport::ContentSha256;
use crate::transport::IdentityScheme;
use crate::transport::Sha256;
use vstd::prelude::*;

verus! {

/// The SHA-256 digest of a content, as `sha2::Sha256` computes it.
pub uninterp spec fn sha256(content: Seq<u8>) -> Seq<u8>;

/// Calls `sha2::Sha256::digest`, which hashes the bytes in one go.
#[verifier::external_body]
pub(crate) fn sha256_digest(content: &[u8]) -> (r: [u8; 32])
    ensures
        r@ == sha256(content@),
{
    <::sha2::Sha256 as ::sha2::Digest>::digest(content).into()
}

/// The identity of what the file at a path holds; none where it cannot be
/// read.
pub open spec fn identity_of<F: Filesystem>(fs: F, path: Seq<char>) -> Option<Seq<u8>> {
    match fs.content(path) {
        Ok(bytes) => Some(sha256(bytes)),
        Err(_) => None,
    }
}

impl ContentSha256 {
    /// The tag that is stored with the identities of this scheme.
    pub fn identity_scheme() -> (r: IdentityScheme)
        ensures
            r == IdentityScheme::ContentSha256,
    {
        IdentityScheme::ContentSha256
    }

    /// The identity of what the file at the path holds. A file that cannot
    /// be read is an error.
    pub fn identify_file<F: Filesystem>(fs: &F, path: &str) -> (r: Result<Sha256, Error>)
        ensures
            match r {
                Ok(identity) => fs.content(path@) is Ok && identity@ == sha256(
                    fs.content(path@)->Ok_0,
                ),
                Err(e) => fs.content(path@) is Err && e@ == io_error(
                    Operation::Read,
                    path@,
                    fs.content(path@)->Err_0,
                ),
            },
    {
        match fs.read_file(path) {
            Ok(bytes) => Ok(Sha256::new(sha256_digest(bytes.as_slice()))),
            Err(failure) => Err(
                Error::Io { operation: Operation::Read, path: path.to_owned(), failure },
            ),
        }
    }

    /// The identity of a content that belongs to the path. Neither the
    /// filesystem nor the path changes what it is.
    pub fn identify_file_content<F: Filesystem>(fs: &F, path: &str, content: &[u8]) -> (r: Result<
        Sha256,
        Error,
    >)
        ensures
            r matches Ok(identity) && identity@ == sha256(content@),
    {
        Ok(Sha256::new(sha256_digest(content)))
    }

    /// The identity of a content.
    pub fn identify_content(content: &[u8]) -> (r: Result<Sha256, Error>)
        ensures
            r matches Ok(identity) && identity@ == sha256(content@),
    {
        Ok(Sha256::new(sha256_digest(content)))
    }
}

/// The files of a manifest with the identity of what each holds; a file
/// that cannot be read has none.
pub fn identify_files<F: Filesystem>(
    filesystem: &F,
    files_manifest: &crate::canonical::FilesManifest,
) -> (r: Result<crate::canonical::FileIdentitiesManifest, Error>)
    ensures
        r matches Ok(manifest) && manifest@ == crate::canonical::identified(
            *filesystem,
            files_manifest@,
        ) && manifest.scheme() == IdentityScheme::ContentSha256,
{
    Ok(files_manifest.clone().into_identified(filesystem))
}

/// The same content has the same identity, wherever it is found.
pub proof fn lemma_identity_is_of_content<F: Filesystem>(fs: F, first: Seq<char>, second: Seq<char>)
    requires
        fs.content(first) is Ok,
        fs.content(first) == fs.content(second),
    ensures
        identity_of(fs, first) == identity_of(fs, second),
        identity_of(fs, first) == Some(sha256(fs.content(first)->Ok_0)),
{
}

} // verus!
