//! The BLAKE3 hash of bytes that come in pieces.

use vstd::prelude::*;

verus! {

/// `blake3::Hasher`: the state of a hash.
#[verifier::external_type_specification]
#[verifier::external_body]
pub struct ExHasher(blake3::Hasher);

/// The bytes that a hasher has taken in since `Hasher::new` made it; nothing of
/// a hasher that was made in another way.
pub uninterp spec fn bytes_taken(hasher: blake3::Hasher) -> Option<Seq<u8>>;

/// The BLAKE3 hash of bytes, in hexadecimal digits (`Hasher::finalize`).
pub uninterp spec fn blake3_hex(bytes: Seq<u8>) -> Seq<char>;

/// `blake3::Hasher::new`: a hasher that has taken in no bytes.
#[verifier::external_body]
fn make_hasher() -> (r: blake3::Hasher)
    ensures
        bytes_taken(r) == Some(Seq::<u8>::empty()),
{
    blake3::Hasher::new()
}

/// `blake3::Hasher::update`: the hasher takes the bytes in behind those that it
/// had.
#[verifier::external_body]
fn take_bytes(hasher: &mut blake3::Hasher, bytes: &[u8])
    requires
        bytes_taken(*old(hasher)) is Some,
    ensures
        bytes_taken(*final(hasher)) == Some(bytes_taken(*old(hasher))->0 + bytes@),
{
    hasher.update(bytes);
}

/// `blake3::Hasher::finalize` with `Hash::to_hex`: a function of the bytes taken
/// in alone, 64 digits long.
#[verifier::external_body]
fn show_hash(hasher: &blake3::Hasher) -> (r: String)
    requires
        bytes_taken(*hasher) is Some,
    ensures
        r@ == blake3_hex(bytes_taken(*hasher)->0),
        r@.len() == 64,
{
    hasher.finalize().to_hex().to_string()
}

/// The hash of what was taken in so far.
pub struct ContentHash {
    hasher: blake3::Hasher,
}

impl ContentHash {
    /// The bytes taken in.
    pub closed spec fn view(&self) -> Seq<u8> {
        bytes_taken(self.hasher)->0
    }

    pub closed spec fn wf(&self) -> bool {
        bytes_taken(self.hasher) is Some
    }

    pub fn new() -> (r: Self)
        ensures
            r.wf(),
            r@ == Seq::<u8>::empty(),
    {
        ContentHash { hasher: make_hasher() }
    }

    /// Takes bytes in.
    pub fn update(&mut self, bytes: &[u8])
        requires
            old(self).wf(),
        ensures
            final(self).wf(),
            final(self)@ == old(self)@ + bytes@,
    {
        take_bytes(&mut self.hasher, bytes);
    }

    /// The hash, in hexadecimal digits.
    pub fn finish(&self) -> (r: String)
        requires
            self.wf(),
        ensures
            r@ == blake3_hex(self@),
            r@.len() == 64,
    {
        show_hash(&self.hasher)
    }
}

} // verus!
