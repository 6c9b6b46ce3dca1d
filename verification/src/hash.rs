//! Fixed-width identifiers: 256-bit digests and 160-bit account identifiers.

use vstd::prelude::*;

verus! {

/// A 256-bit digest, held as four words, most significant first.
#[derive(Clone, Copy, Debug, PartialEq, Eq, PartialOrd, Ord, Hash, Structural)]
pub struct H256(pub u64, pub u64, pub u64, pub u64);

/// The identifier of a block or of its header.
pub type BlockHash = H256;

/// A 160-bit account identifier.
#[derive(Clone, Copy, Debug, PartialEq, Eq, Hash)]
pub struct H160(pub [u8; 20]);

/// The eight bytes of a word, most significant first.
pub open spec fn word_bytes(w: u64) -> Seq<u8> {
    seq![
        (w >> 56) as u8,
        (w >> 48) as u8,
        (w >> 40) as u8,
        (w >> 32) as u8,
        (w >> 24) as u8,
        (w >> 16) as u8,
        (w >> 8) as u8,
        w as u8,
    ]
}

/// Appends the eight bytes of `w`, most significant first.
pub fn push_word(out: &mut Vec<u8>, w: u64)
    ensures
        final(out)@ == old(out)@ + word_bytes(w),
{
    let ghost before = out@;
    out.push((w >> 56) as u8);
    out.push((w >> 48) as u8);
    out.push((w >> 40) as u8);
    out.push((w >> 32) as u8);
    out.push((w >> 24) as u8);
    out.push((w >> 16) as u8);
    out.push((w >> 8) as u8);
    out.push(w as u8);
    assert(out@ =~= before + word_bytes(w));
}

/// The eight bytes of `w`, most significant first.
pub fn word_to_bytes(w: u64) -> (out: Vec<u8>)
    ensures
        out@ == word_bytes(w),
{
    let mut out: Vec<u8> = Vec::new();
    push_word(&mut out, w);
    assert(out@ =~= word_bytes(w));
    out
}

impl H256 {
    /// The digest whose bits are all zero.
    pub fn zero() -> (h: H256)
        ensures
            h == H256(0, 0, 0, 0),
    {
        H256(0, 0, 0, 0)
    }

    /// The digest whose least significant word is `low` and whose other
    /// words are zero.
    pub fn from_low_u64(low: u64) -> (h: H256)
        ensures
            h == H256(0, 0, 0, low),
    {
        H256(0, 0, 0, low)
    }

    /// The 32 bytes of the digest, most significant first.
    pub open spec fn bytes(self) -> Seq<u8> {
        word_bytes(self.0) + word_bytes(self.1) + word_bytes(self.2) + word_bytes(self.3)
    }

    /// The 32 bytes of the digest, most significant first.
    pub fn to_bytes(&self) -> (out: Vec<u8>)
        ensures
            out@ == self.bytes(),
    {
        let mut out: Vec<u8> = Vec::new();
        push_word(&mut out, self.0);
        push_word(&mut out, self.1);
        push_word(&mut out, self.2);
        push_word(&mut out, self.3);
        assert(out@ =~= self.bytes());
        out
    }
}

impl H160 {
    /// The identifier whose bits are all zero.
    pub fn zero() -> (h: H160)
        ensures
            h.0@ == Seq::new(20, |i: int| 0u8),
    {
        let a: [u8; 20] = [0u8; 20];
        assert(a@ =~= Seq::new(20, |i: int| 0u8));
        H160(a)
    }
}

} // verus!
