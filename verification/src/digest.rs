//! Content digests and their text form.
use crate::outside::hex_digit;
use sha2::Digest;
use vstd::prelude::*;

verus! {

/// The streaming SHA-256 state of the `sha2` crate.
#[verifier::external_body]
pub struct Hasher {
    inner: sha2::Sha256,
}

/// The bytes that a hasher has taken in so far.
pub uninterp spec fn absorbed(hasher: Hasher) -> Seq<u8>;

/// The SHA-256 digest of some bytes.
pub uninterp spec fn sha256(bytes: Seq<u8>) -> Seq<u8>;

impl Hasher {
    /// Calls `sha2::Sha256::new`. A new hasher has taken in nothing.
    #[verifier::external_body]
    pub(crate) fn new() -> (hasher: Hasher)
        ensures
            absorbed(hasher) == Seq::<u8>::empty(),
    {
        Hasher { inner: sha2::Sha256::new() }
    }

    /// Calls `Digest::update` of the `sha2` hasher. The bytes come behind those
    /// that it has taken in already.
    #[verifier::external_body]
    pub(crate) fn update(&mut self, bytes: &[u8])
        ensures
            absorbed(*final(self)) == absorbed(*old(self)) + bytes@,
    {
        self.inner.update(bytes)
    }

    /// Calls `Digest::finalize` of the `sha2` hasher. The 32 bytes of the digest
    /// are a function of the bytes taken in, named `sha256`.
    #[verifier::external_body]
    pub(crate) fn finalize(self) -> (digest: Vec<u8>)
        ensures
            digest@ == sha256(absorbed(self)),
            digest@.len() == 32,
    {
        self.inner.finalize().to_vec()
    }
}

/// The digest of some bytes.
pub fn digest_of(bytes: &[u8]) -> (digest: Vec<u8>)
    ensures
        digest@ == sha256(bytes@),
        digest@.len() == 32,
{
    let mut hasher = Hasher::new();
    hasher.update(bytes);
    proof {
        assert(Seq::<u8>::empty() + bytes@ =~= bytes@);
    }
    hasher.finalize()
}

/// Two lower case digits for each byte, the high half first.
pub open spec fn hex_text(bytes: Seq<u8>) -> Seq<char> {
    Seq::new(
        2 * bytes.len(),
        |i: int|
            if i % 2 == 0 {
                hex_digit((bytes[i / 2] / 16) as u128)
            } else {
                hex_digit((bytes[i / 2] % 16) as u128)
            },
    )
}

/// Calls `hex::encode`, which writes two lower case digits for each byte.
#[verifier::external_body]
pub(crate) fn write_hex(bytes: &[u8]) -> (text: String)
    ensures
        text@ == hex_text(bytes@),
{
    hex::encode(bytes)
}

/// How many bytes are copied at a time when a snapshot is sealed.
pub const COPY_BUFFER: usize = 131_072;

/// The digest text of some bytes.
pub open spec fn digest_text(bytes: Seq<u8>) -> Seq<char> {
    hex_text(sha256(bytes))
}

/// The digest text of some bytes.
pub fn digest_name(bytes: &[u8]) -> (text: String)
    ensures
        text@ == digest_text(bytes@),
        text@.len() == 64,
{
    let digest = digest_of(bytes);
    write_hex(digest.as_slice())
}

} // verus!
