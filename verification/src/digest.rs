//! BLAKE3 checksums of artifacts.
//!
//! The hash itself is computed by the `blake3` crate. Its result is named
//! here and not defined: what this module proves is that data hashed in
//! pieces has the checksum of the whole, and what comparing checksums means.

use crate::text::str_eq;
use vstd::prelude::*;

verus! {

/// `blake3::Hasher`, the state of an incremental BLAKE3 computation. Nothing
/// inside it is visible here.
#[verifier::external_type_specification]
#[verifier::external_body]
pub struct ExHasher(blake3::Hasher);

/// The bytes that were fed to a `blake3::Hasher` so far, in order.
pub uninterp spec fn hasher_input(h: blake3::Hasher) -> Seq<u8>;

/// The BLAKE3 digest of `data` in hexadecimal, as
/// `blake3::Hash::to_hex` writes it.
pub uninterp spec fn blake3_hex(data: Seq<u8>) -> Seq<char>;

/// Whether `c` is one of `0123456789abcdef`.
pub open spec fn is_lower_hex(c: char) -> bool {
    ('0' <= c && c <= '9') || ('a' <= c && c <= 'f')
}

/// `blake3::Hasher::new`: a hasher that was fed nothing.
#[verifier::external_body]
fn hasher_new() -> (h: blake3::Hasher)
    ensures
        hasher_input(h) == Seq::<u8>::empty(),
{
    blake3::Hasher::new()
}

/// `blake3::Hasher::update`: feeds `chunk` to the hasher, after what it was
/// fed before.
#[verifier::external_body]
fn hasher_update(h: &mut blake3::Hasher, chunk: &[u8])
    ensures
        hasher_input(*final(h)) == hasher_input(*old(h)) + chunk@,
{
    h.update(chunk);
}

/// `blake3::Hasher::finalize` and `blake3::Hash::to_hex`: the digest of all
/// that the hasher was fed, as 64 lower-case hexadecimal digits.
#[verifier::external_body]
fn hasher_hex(h: &blake3::Hasher) -> (r: String)
    ensures
        r@ == blake3_hex(hasher_input(*h)),
        r@.len() == 64,
        forall|i: int| 0 <= i < r@.len() ==> is_lower_hex(#[trigger] r@[i]),
{
    h.finalize().to_hex().to_string()
}

/// The number of bytes that are hashed at a time.
pub const CHUNK_SIZE: usize = 8192;

/// A checksum computation that takes its data piece by piece.
pub struct Digest {
    hasher: blake3::Hasher,
}

impl View for Digest {
    type V = Seq<u8>;

    /// The bytes taken so far.
    closed spec fn view(&self) -> Seq<u8> {
        hasher_input(self.hasher)
    }
}

impl Digest {
    /// A computation that has taken no data.
    pub fn new() -> (r: Self)
        ensures
            r@ == Seq::<u8>::empty(),
    {
        Digest { hasher: hasher_new() }
    }

    /// Takes the next piece of the data.
    pub fn update(&mut self, chunk: &[u8])
        ensures
            final(self)@ == old(self)@ + chunk@,
    {
        hasher_update(&mut self.hasher, chunk);
    }

    /// The checksum of the data taken so far: 64 lower-case hexadecimal
    /// digits.
    pub fn finish(&self) -> (r: String)
        ensures
            r@ == blake3_hex(self@),
            r@.len() == 64,
            forall|i: int| 0 <= i < r@.len() ==> is_lower_hex(#[trigger] r@[i]),
    {
        hasher_hex(&self.hasher)
    }
}

/// The checksum of `data`, computed in pieces of [`CHUNK_SIZE`] bytes.
pub fn calculate_checksum(data: &[u8]) -> (r: String)
    ensures
        r@ == blake3_hex(data@),
        r@.len() == 64,
        forall|i: int| 0 <= i < r@.len() ==> is_lower_hex(#[trigger] r@[i]),
{
    let mut digest = Digest::new();
    let mut at: usize = 0;
    assert(data@.take(0) =~= Seq::<u8>::empty());
    while at < data.len()
        invariant
            at <= data.len(),
            digest@ == data@.take(at as int),
        decreases data.len() - at,
    {
        let end: usize = if data.len() - at > CHUNK_SIZE {
            at + CHUNK_SIZE
        } else {
            data.len()
        };
        digest.update(&data[at..end]);
        assert(data@.take(at as int) + data@.subrange(at as int, end as int) =~= data@.take(
            end as int,
        ));
        at = end;
    }
    assert(data@.take(data.len() as int) =~= data@);
    digest.finish()
}

/// Whether `data` has the checksum `checksum`.
pub fn validate_checksum(checksum: &str, data: &[u8]) -> (r: bool)
    ensures
        r == (blake3_hex(data@) == checksum@),
{
    let actual = calculate_checksum(data);
    str_eq(actual.as_str(), checksum)
}

/// What comparing a computed checksum with the one of the catalog gives.
#[derive(Debug, Clone, Copy, PartialEq, Eq, Structural)]
pub enum ChecksumVerdict {
    /// The catalog gives no checksum.
    Missing,
    /// The checksums are equal.
    Match,
    /// The checksums differ.
    Mismatch,
}

/// Compares the checksum `actual` with `bsum`, the checksum the catalog
/// states or the word `null`.
pub fn verify_checksum(bsum: &str, actual: &str) -> (r: ChecksumVerdict)
    ensures
        r == if bsum@ == "null"@ {
            ChecksumVerdict::Missing
        } else if bsum@ == actual@ {
            ChecksumVerdict::Match
        } else {
            ChecksumVerdict::Mismatch
        },
{
    if str_eq(bsum, "null") {
        ChecksumVerdict::Missing
    } else if str_eq(bsum, actual) {
        ChecksumVerdict::Match
    } else {
        ChecksumVerdict::Mismatch
    }
}

} // verus!
