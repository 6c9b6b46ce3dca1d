//! Headers, transactions and the block candidates that the queues deliver.

use vstd::prelude::*;
use crate::hash::{H160, H256, word_bytes, push_word};

verus! {

/// A block header.
///
/// `hash` is the digest of the header's canonical serialization, computed by
/// whoever built the header. The library never recomputes it: it is the
/// header's identity, and two headers with one hash are taken for the same
/// header.
#[derive(Clone, Copy, Debug, PartialEq, Eq)]
pub struct Header {
    pub hash: H256,
    pub parent_hash: H256,
    pub number: u64,
    pub timestamp: u64,
    pub author: H160,
    pub state_root: H256,
    pub transactions_root: H256,
    /// What this block adds to the score of its chain.
    pub score: u64,
    pub seal_fields: [u64; 4],
    pub extra: [u8; 32],
}

/// A transaction, as the executor hands it to the engine.
#[derive(Clone, Copy, Debug, PartialEq, Eq, Structural)]
pub struct Transaction {
    pub seq: u64,
    pub fee: u64,
    pub payload: H256,
}

/// The receipt of one executed transaction.
#[derive(Clone, Copy, Debug, PartialEq, Eq, Structural)]
pub enum Invoice {
    Success,
    Failure,
}

/// A block whose intrinsic checks have passed: its header, its decoded
/// transactions, and the serialized block.
#[derive(Debug)]
pub struct PreverifiedBlock {
    pub header: Header,
    pub transactions: Vec<Transaction>,
    pub bytes: Vec<u8>,
}

/// The hashes of a sequence of headers, in order.
pub open spec fn header_hashes(headers: Seq<Header>) -> Seq<H256> {
    Seq::new(headers.len(), |i: int| headers[i].hash)
}

/// The headers of a sequence of block candidates, in order.
pub open spec fn block_headers(blocks: Seq<PreverifiedBlock>) -> Seq<Header> {
    Seq::new(blocks.len(), |i: int| blocks[i].header)
}

impl Header {
    pub fn hash(&self) -> (h: H256)
        ensures
            h == self.hash,
    {
        self.hash
    }

    pub fn parent_hash(&self) -> (h: H256)
        ensures
            h == self.parent_hash,
    {
        self.parent_hash
    }

    pub fn number(&self) -> (n: u64)
        ensures
            n == self.number,
    {
        self.number
    }

    pub fn timestamp(&self) -> (t: u64)
        ensures
            t == self.timestamp,
    {
        self.timestamp
    }

    pub fn state_root(&self) -> (h: H256)
        ensures
            h == self.state_root,
    {
        self.state_root
    }

    pub fn score(&self) -> (s: u64)
        ensures
            s == self.score,
    {
        self.score
    }

    /// The fields of the header as byte strings, in the order in which they
    /// are serialized: parent hash, author, state root, transactions root,
    /// score, number, timestamp, extra data, and the four seal words. Numbers
    /// take eight bytes, most significant first.
    pub open spec fn fields(self) -> Seq<Seq<u8>> {
        seq![
            self.parent_hash.bytes(),
            self.author.0@,
            self.state_root.bytes(),
            self.transactions_root.bytes(),
            word_bytes(self.score),
            word_bytes(self.number),
            word_bytes(self.timestamp),
            self.extra@,
            word_bytes(self.seal_fields@[0]) + word_bytes(self.seal_fields@[1]) + word_bytes(
                self.seal_fields@[2],
            ) + word_bytes(self.seal_fields@[3]),
        ]
    }

    /// The fields of the header as byte strings, in serialization order.
    pub fn to_fields(&self) -> (out: Vec<Vec<u8>>)
        ensures
            out.deep_view() == self.fields(),
    {
        let mut out: Vec<Vec<u8>> = Vec::new();
        out.push(self.parent_hash.to_bytes());
        out.push(copy_bytes_20(&self.author.0));
        out.push(self.state_root.to_bytes());
        out.push(self.transactions_root.to_bytes());
        out.push(crate::hash::word_to_bytes(self.score));
        out.push(crate::hash::word_to_bytes(self.number));
        out.push(crate::hash::word_to_bytes(self.timestamp));
        out.push(copy_bytes_32(&self.extra));
        let mut seal: Vec<u8> = Vec::new();
        push_word(&mut seal, self.seal_fields[0]);
        push_word(&mut seal, self.seal_fields[1]);
        push_word(&mut seal, self.seal_fields[2]);
        push_word(&mut seal, self.seal_fields[3]);
        out.push(seal);
        proof {
            let d = out.deep_view();
            let f = self.fields();
            assert(d.len() == f.len());
            assert forall|i: int| 0 <= i < d.len() implies d[i] == f[i] by {
                assert(d[i] == out@[i]@);
                assert(out@[i]@ =~= f[i]);
            }
            assert(d =~= f);
        }
        out
    }
}

fn copy_bytes_20(a: &[u8; 20]) -> (out: Vec<u8>)
    ensures
        out@ == a@,
{
    let mut out: Vec<u8> = Vec::new();
    let mut i: usize = 0;
    while i < 20
        invariant
            i <= 20,
            out@ == a@.subrange(0, i as int),
        decreases 20 - i,
    {
        out.push(a[i]);
        assert(out@ =~= a@.subrange(0, i + 1));
        i = i + 1;
    }
    assert(a@.subrange(0, 20) =~= a@);
    out
}

fn copy_bytes_32(a: &[u8; 32]) -> (out: Vec<u8>)
    ensures
        out@ == a@,
{
    let mut out: Vec<u8> = Vec::new();
    let mut i: usize = 0;
    while i < 32
        invariant
            i <= 32,
            out@ == a@.subrange(0, i as int),
        decreases 32 - i,
    {
        out.push(a[i]);
        assert(out@ =~= a@.subrange(0, i + 1));
        i = i + 1;
    }
    assert(a@.subrange(0, 32) =~= a@);
    out
}

} // verus!
