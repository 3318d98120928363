//! The hashes of a downloaded archive.
use vstd::prelude::*;

use crate::digest::{md5_digest, sha512_digest, Md5Stream, Sha512Stream};
use crate::hex::{encode, hex_lower, is_hex_lower};

verus! {

/// The MD5 and SHA-512 hashes of an archive, in lower-case hexadecimal.
pub struct DownloadHashes {
    pub md5: String,
    pub sha512: String,
}

/// Computes the MD5 and SHA-512 hashes of an archive that arrives in chunks.
pub struct ArchiveHasher {
    sha512: Sha512Stream,
    md5: Md5Stream,
}

impl ArchiveHasher {
    /// The bytes that the SHA-512 computation has absorbed.
    pub closed spec fn sha512_input(self) -> Seq<u8> {
        self.sha512.absorbed()
    }

    /// The bytes that the MD5 computation has absorbed.
    pub closed spec fn md5_input(self) -> Seq<u8> {
        self.md5.absorbed()
    }

    /// A hasher that has absorbed nothing.
    pub fn new() -> (res: Self)
        ensures
            res.sha512_input() == Seq::<u8>::empty(),
            res.md5_input() == Seq::<u8>::empty(),
    {
        ArchiveHasher { sha512: Sha512Stream::new(), md5: Md5Stream::new() }
    }

    /// Feeds the next chunk of the archive to both computations.
    pub fn update(&mut self, chunk: &[u8])
        ensures
            final(self).sha512_input() == old(self).sha512_input() + chunk@,
            final(self).md5_input() == old(self).md5_input() + chunk@,
    {
        self.sha512.update(chunk);
        self.md5.update(chunk);
    }

    /// The hexadecimal MD5 and SHA-512 digests of everything fed.
    pub fn finish(self) -> (res: DownloadHashes)
        ensures
            res.md5@ == hex_lower(md5_digest(self.md5_input())),
            res.sha512@ == hex_lower(sha512_digest(self.sha512_input())),
            res.md5@.len() == 32 && is_hex_lower(res.md5@),
            res.sha512@.len() == 128 && is_hex_lower(res.sha512@),
    {
        let md5 = self.md5.finalize();
        let sha512 = self.sha512.finalize();
        DownloadHashes { md5: encode(md5.as_slice()), sha512: encode(sha512.as_slice()) }
    }
}

} // verus!
