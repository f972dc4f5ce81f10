//! Fixed-size opaque byte identifiers of 20, 32 and 64 bytes, used for hash
//! and address values. They carry no arithmetic meaning: equality is
//! byte-wise and the only conversion is the one declared bridge between the
//! 20-byte and 32-byte widths, which zero-pads or drops the 12 high-order
//! (leading) bytes and never fails.
use vstd::prelude::*;

verus! {

/// Fixed-size uninterpreted hash type with 20 bytes (160 bits) size.
#[derive(Debug, Clone, Copy, PartialEq, Eq, Hash, PartialOrd, Ord)]
pub struct H160 {
    pub bytes: [u8; 20],
}

/// Fixed-size uninterpreted hash type with 32 bytes (256 bits) size.
#[derive(Debug, Clone, Copy, PartialEq, Eq, Hash, PartialOrd, Ord)]
pub struct H256 {
    pub bytes: [u8; 32],
}

/// Fixed-size uninterpreted hash type with 64 bytes (512 bits) size.
#[derive(Debug, Clone, Copy, PartialEq, Eq, Hash, PartialOrd, Ord)]
pub struct H512 {
    pub bytes: [u8; 64],
}

impl View for H160 {
    type V = Seq<u8>;

    open spec fn view(&self) -> Seq<u8> {
        self.bytes@
    }
}

impl View for H256 {
    type V = Seq<u8>;

    open spec fn view(&self) -> Seq<u8> {
        self.bytes@
    }
}

impl View for H512 {
    type V = Seq<u8>;

    open spec fn view(&self) -> Seq<u8> {
        self.bytes@
    }
}

/// Embedding a 20-byte identifier into 32 bytes: the 12 high-order (leading)
/// bytes are zero and the 20 bytes sit in the low-order (trailing) positions.
pub open spec fn embed_bytes(b: Seq<u8>) -> Seq<u8> {
    Seq::new(12, |i: int| 0u8) + b
}

/// Truncating a 32-byte identifier to 20 bytes: the 12 high-order (leading)
/// bytes are dropped and the low-order 20 are kept. There is no overflow
/// check: an identifier has no notion of overflow.
pub open spec fn truncate_bytes(b: Seq<u8>) -> Seq<u8> {
    b.skip(12)
}

impl H160 {
    /// Builds the identifier from its bytes.
    pub fn from_bytes(bytes: [u8; 20]) -> (r: H160)
        ensures
            r@ == bytes@,
    {
        H160 { bytes }
    }

    /// Truncates a 32-byte identifier: keeps its 20 low-order bytes.
    pub fn from_h256(h: &H256) -> (r: H160)
        ensures
            r@ == truncate_bytes(h@),
    {
        let mut bytes = [0u8; 20];
        let mut i: usize = 0;
        while i < 20
            invariant
                i <= 20,
                bytes@.len() == 20,
                forall|k: int| 0 <= k < i ==> bytes@[k] == h@[k + 12],
            decreases 20 - i,
        {
            bytes[i] = h.bytes[12 + i];
            i += 1;
        }
        let r = H160 { bytes };
        proof {
            assert(r@ =~= truncate_bytes(h@));
        }
        r
    }
}

impl H256 {
    /// Builds the identifier from its bytes.
    pub fn from_bytes(bytes: [u8; 32]) -> (r: H256)
        ensures
            r@ == bytes@,
    {
        H256 { bytes }
    }

    /// Embeds a 20-byte identifier: zero-pads the 12 high-order bytes.
    pub fn from_h160(h: &H160) -> (r: H256)
        ensures
            r@ == embed_bytes(h@),
    {
        let mut bytes = [0u8; 32];
        let mut i: usize = 0;
        while i < 20
            invariant
                i <= 20,
                bytes@.len() == 32,
                forall|k: int| 0 <= k < 12 ==> bytes@[k] == 0,
                forall|k: int| 12 <= k < 12 + i ==> bytes@[k] == h@[k - 12],
                forall|k: int| 12 + i <= k < 32 ==> bytes@[k] == 0,
            decreases 20 - i,
        {
            bytes[12 + i] = h.bytes[i];
            i += 1;
        }
        let r = H256 { bytes };
        proof {
            assert(r@ =~= embed_bytes(h@));
        }
        r
    }
}

impl H512 {
    /// Builds the identifier from its bytes.
    pub fn from_bytes(bytes: [u8; 64]) -> (r: H512)
        ensures
            r@ == bytes@,
    {
        H512 { bytes }
    }
}

/// Identifier bridge round-trip: embedding a 20-byte identifier into 32 bytes
/// and truncating back yields the original for every input.
pub proof fn lemma_embed_truncate_roundtrip(h: H160)
    ensures
        truncate_bytes(embed_bytes(h@)) == h@,
{
    assert(truncate_bytes(embed_bytes(h@)) =~= h@);
}

/// Truncation loses information: when any of the 12 high-order bytes is
/// nonzero, truncating and embedding back does not reproduce the original.
pub proof fn lemma_truncate_embed_loses(h: H256)
    requires
        exists|i: int| 0 <= i < 12 && h@[i] != 0,
    ensures
        embed_bytes(truncate_bytes(h@)) != h@,
{
    let i = choose|i: int| 0 <= i < 12 && h@[i] != 0;
    assert(embed_bytes(truncate_bytes(h@))[i] == 0);
}

/// Truncation keeps information exactly when the 12 high-order bytes are
/// zero: embedding the truncation back then reproduces the original.
pub proof fn lemma_truncate_embed_roundtrip(h: H256)
    requires
        forall|i: int| 0 <= i < 12 ==> h@[i] == 0,
    ensures
        embed_bytes(truncate_bytes(h@)) == h@,
{
    assert(embed_bytes(truncate_bytes(h@)) =~= h@);
}

} // verus!
