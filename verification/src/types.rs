use vstd::prelude::*;

verus! {

/// Identifier of a source chain registered with the runtime.
pub type ChainKey = u64;

/// Numeric identifier of a source chain (e.g. an EVM chain id).
pub type ChainId = u64;

/// Account identifier.
pub type AccountId = u64;

/// Balance of the bond currency.
pub type Balance = u128;

/// Index of a staking era.
pub type EraIndex = u32;

/// Keys of the ordered maps of this crate: equality is decided by `key_eq`.
pub trait KeyEq: Sized {
    fn key_eq(&self, other: &Self) -> (b: bool)
        ensures
            b == (*self == *other),
    ;
}

impl KeyEq for u64 {
    fn key_eq(&self, other: &Self) -> (b: bool) {
        *self == *other
    }
}

impl KeyEq for u8 {
    fn key_eq(&self, other: &Self) -> (b: bool) {
        *self == *other
    }
}

/// A 256-bit hash (attestation or block digest), as four 64-bit words, most
/// significant word first.
#[derive(Clone, Copy, Debug, PartialEq, Eq, Structural)]
pub struct Digest {
    pub w0: u64,
    pub w1: u64,
    pub w2: u64,
    pub w3: u64,
}

impl Digest {
    pub open spec fn spec_is_zero(self) -> bool {
        self.w0 == 0 && self.w1 == 0 && self.w2 == 0 && self.w3 == 0
    }

    /// The all-zero digest.
    pub fn zero() -> (d: Digest)
        ensures
            d.spec_is_zero(),
    {
        Digest { w0: 0, w1: 0, w2: 0, w3: 0 }
    }

    /// Whether every word of the digest is zero.
    pub fn is_zero(&self) -> (b: bool)
        ensures
            b == self.spec_is_zero(),
    {
        self.w0 == 0 && self.w1 == 0 && self.w2 == 0 && self.w3 == 0
    }
}

impl KeyEq for Digest {
    fn key_eq(&self, other: &Self) -> (b: bool) {
        *self == *other
    }
}

/// A compressed BLS12-381 G1 public key (48 bytes), as six 64-bit words,
/// most significant word first.
#[derive(Clone, Copy, Debug, PartialEq, Eq, Structural)]
pub struct BlsPublicKey {
    pub w0: u64,
    pub w1: u64,
    pub w2: u64,
    pub w3: u64,
    pub w4: u64,
    pub w5: u64,
}

impl KeyEq for BlsPublicKey {
    fn key_eq(&self, other: &Self) -> (b: bool) {
        *self == *other
    }
}

impl KeyEq for (u64, u64) {
    fn key_eq(&self, other: &Self) -> (b: bool) {
        self.0 == other.0 && self.1 == other.1
    }
}

impl KeyEq for (u64, u64, u64) {
    fn key_eq(&self, other: &Self) -> (b: bool) {
        self.0 == other.0 && self.1 == other.1 && self.2 == other.2
    }
}

impl KeyEq for (u64, Digest) {
    fn key_eq(&self, other: &Self) -> (b: bool) {
        self.0 == other.0 && self.1 == other.1
    }
}

impl KeyEq for (u64, BlsPublicKey) {
    fn key_eq(&self, other: &Self) -> (b: bool) {
        self.0 == other.0 && self.1 == other.1
    }
}

/// Keys that belong to one source chain.
pub trait ChainScoped {
    /// The chain the key belongs to.
    spec fn chain_of(&self) -> u64;

    fn chain(&self) -> (c: u64)
        ensures
            c == self.chain_of(),
    ;
}

impl ChainScoped for (u64, u64) {
    open spec fn chain_of(&self) -> u64 {
        self.0
    }

    fn chain(&self) -> (c: u64) {
        self.0
    }
}

impl ChainScoped for (u64, u64, u64) {
    open spec fn chain_of(&self) -> u64 {
        self.0
    }

    fn chain(&self) -> (c: u64) {
        self.0
    }
}

impl ChainScoped for (u64, Digest) {
    open spec fn chain_of(&self) -> u64 {
        self.0
    }

    fn chain(&self) -> (c: u64) {
        self.0
    }
}

impl ChainScoped for (u64, BlsPublicKey) {
    open spec fn chain_of(&self) -> u64 {
        self.0
    }

    fn chain(&self) -> (c: u64) {
        self.0
    }
}

/// The eight bytes of `w`, most significant first.
pub open spec fn word_be(w: u64) -> Seq<u8> {
    seq![
        ((w >> 56u64) & 0xffu64) as u8,
        ((w >> 48u64) & 0xffu64) as u8,
        ((w >> 40u64) & 0xffu64) as u8,
        ((w >> 32u64) & 0xffu64) as u8,
        ((w >> 24u64) & 0xffu64) as u8,
        ((w >> 16u64) & 0xffu64) as u8,
        ((w >> 8u64) & 0xffu64) as u8,
        (w & 0xffu64) as u8,
    ]
}

/// Appends the eight bytes of `w`, most significant first.
pub fn push_word_be(v: &mut Vec<u8>, w: u64)
    ensures
        final(v)@ == old(v)@ + word_be(w),
{
    v.push(((w >> 56u64) & 0xffu64) as u8);
    v.push(((w >> 48u64) & 0xffu64) as u8);
    v.push(((w >> 40u64) & 0xffu64) as u8);
    v.push(((w >> 32u64) & 0xffu64) as u8);
    v.push(((w >> 24u64) & 0xffu64) as u8);
    v.push(((w >> 16u64) & 0xffu64) as u8);
    v.push(((w >> 8u64) & 0xffu64) as u8);
    v.push((w & 0xffu64) as u8);
    assert(v@ =~= old(v)@ + word_be(w));
}

impl BlsPublicKey {
    /// The 48 bytes of the compressed key.
    pub open spec fn spec_bytes(self) -> Seq<u8> {
        word_be(self.w0) + word_be(self.w1) + word_be(self.w2) + word_be(self.w3) + word_be(self.w4)
            + word_be(self.w5)
    }

    /// The 48 bytes of the compressed key.
    pub fn to_bytes(&self) -> (r: Vec<u8>)
        ensures
            r@ == self.spec_bytes(),
    {
        let mut r: Vec<u8> = Vec::new();
        push_word_be(&mut r, self.w0);
        push_word_be(&mut r, self.w1);
        push_word_be(&mut r, self.w2);
        push_word_be(&mut r, self.w3);
        push_word_be(&mut r, self.w4);
        push_word_be(&mut r, self.w5);
        assert(r@ =~= self.spec_bytes());
        r
    }
}

impl Digest {
    /// The 32 bytes of the digest.
    pub open spec fn spec_bytes(self) -> Seq<u8> {
        word_be(self.w0) + word_be(self.w1) + word_be(self.w2) + word_be(self.w3)
    }

    /// The 32 bytes of the digest.
    pub fn to_bytes(&self) -> (r: Vec<u8>)
        ensures
            r@ == self.spec_bytes(),
    {
        let mut r: Vec<u8> = Vec::new();
        push_word_be(&mut r, self.w0);
        push_word_be(&mut r, self.w1);
        push_word_be(&mut r, self.w2);
        push_word_be(&mut r, self.w3);
        assert(r@ =~= self.spec_bytes());
        r
    }
}

} // verus!
