//! Streaming message digests: SHA-512 from the `sha2` crate and MD5 from the
//! `md-5` crate.
//!
//! `sha2::Sha512` and `md5::Md5` are aliases of deeply generic wrappers;
//! each hasher is held in a private field of an opaque struct. A stream
//! pairs that hasher with the bytes it has absorbed so far, as a ghost value. The fields are private to
//! this module and every change to a hasher goes through one of the trusted
//! functions below, each of which records the bytes it hands to the hasher.
use vstd::prelude::*;

use sha2::Digest;

verus! {

/// The SHA-512 digest of `data` (what `sha2::Sha512` computes).
pub uninterp spec fn sha512_digest(data: Seq<u8>) -> Seq<u8>;

/// The MD5 digest of `data` (what `md5::Md5` computes).
pub uninterp spec fn md5_digest(data: Seq<u8>) -> Seq<u8>;

/// A `sha2::Sha512` hasher, opaque to Verus.
#[verifier::external_body]
struct Sha512Hasher {
    inner: sha2::Sha512,
}

/// A `md5::Md5` hasher, opaque to Verus.
#[verifier::external_body]
struct Md5Hasher {
    inner: md5::Md5,
}

/// A SHA-512 computation over the bytes absorbed so far.
pub struct Sha512Stream {
    hasher: Sha512Hasher,
    absorbed: Ghost<Seq<u8>>,
}

/// An MD5 computation over the bytes absorbed so far.
pub struct Md5Stream {
    hasher: Md5Hasher,
    absorbed: Ghost<Seq<u8>>,
}

/// `Sha512::new()`: a hasher that has absorbed nothing.
#[verifier::external_body]
fn sha512_new() -> (res: Sha512Stream)
    ensures
        res.absorbed@ == Seq::<u8>::empty(),
{
    Sha512Stream { hasher: Sha512Hasher { inner: sha2::Sha512::new() }, absorbed: Ghost(Seq::empty()) }
}

/// `Digest::update` on a `Sha512`: the hasher absorbs `data` after what it
/// absorbed before.
#[verifier::external_body]
fn sha512_update(s: &mut Sha512Stream, data: &[u8])
    ensures
        final(s).absorbed@ == old(s).absorbed@ + data@,
{
    s.hasher.inner.update(data);
}

/// `Digest::finalize` on a `Sha512`: the 64-byte SHA-512 digest of all the
/// bytes the hasher absorbed.
#[verifier::external_body]
fn sha512_finalize(s: Sha512Stream) -> (res: Vec<u8>)
    ensures
        res@ == sha512_digest(s.absorbed@),
        res@.len() == 64,
{
    s.hasher.inner.finalize().to_vec()
}

/// `Md5::new()`: a hasher that has absorbed nothing.
#[verifier::external_body]
fn md5_new() -> (res: Md5Stream)
    ensures
        res.absorbed@ == Seq::<u8>::empty(),
{
    Md5Stream { hasher: Md5Hasher { inner: md5::Md5::new() }, absorbed: Ghost(Seq::empty()) }
}

/// `Digest::update` on an `Md5`: the hasher absorbs `data` after what it
/// absorbed before.
#[verifier::external_body]
fn md5_update(s: &mut Md5Stream, data: &[u8])
    ensures
        final(s).absorbed@ == old(s).absorbed@ + data@,
{
    s.hasher.inner.update(data);
}

/// `Digest::finalize` on an `Md5`: the 16-byte MD5 digest of all the bytes
/// the hasher absorbed.
#[verifier::external_body]
fn md5_finalize(s: Md5Stream) -> (res: Vec<u8>)
    ensures
        res@ == md5_digest(s.absorbed@),
        res@.len() == 16,
{
    s.hasher.inner.finalize().to_vec()
}

impl Sha512Stream {
    /// The bytes absorbed so far.
    pub closed spec fn absorbed(self) -> Seq<u8> {
        self.absorbed@
    }

    /// A computation that has absorbed nothing.
    pub fn new() -> (res: Self)
        ensures
            res.absorbed() == Seq::<u8>::empty(),
    {
        sha512_new()
    }

    /// Absorbs `data` after the bytes absorbed so far.
    pub fn update(&mut self, data: &[u8])
        ensures
            final(self).absorbed() == old(self).absorbed() + data@,
    {
        sha512_update(self, data)
    }

    /// The SHA-512 digest of all the absorbed bytes.
    pub fn finalize(self) -> (res: Vec<u8>)
        ensures
            res@ == sha512_digest(self.absorbed()),
            res@.len() == 64,
    {
        sha512_finalize(self)
    }
}

impl Md5Stream {
    /// The bytes absorbed so far.
    pub closed spec fn absorbed(self) -> Seq<u8> {
        self.absorbed@
    }

    /// A computation that has absorbed nothing.
    pub fn new() -> (res: Self)
        ensures
            res.absorbed() == Seq::<u8>::empty(),
    {
        md5_new()
    }

    /// Absorbs `data` after the bytes absorbed so far.
    pub fn update(&mut self, data: &[u8])
        ensures
            final(self).absorbed() == old(self).absorbed() + data@,
    {
        md5_update(self, data)
    }

    /// The MD5 digest of all the absorbed bytes.
    pub fn finalize(self) -> (res: Vec<u8>)
        ensures
            res@ == md5_digest(self.absorbed()),
            res@.len() == 16,
    {
        md5_finalize(self)
    }
}

} // verus!
