//! The queues that hand verified candidates to the import pipelines and
//! learn back which of them were imported and which were bad.

use vstd::prelude::*;
use crate::hash::H256;
use crate::header::{block_headers, header_hashes, Header, PreverifiedBlock};

verus! {

/// Those of `hashes` that `remove` does not name, in order.
pub open spec fn without(hashes: Seq<H256>, remove: Seq<H256>) -> Seq<H256>
    decreases hashes.len(),
{
    if hashes.len() == 0 {
        Seq::empty()
    } else if remove.contains(hashes.last()) {
        without(hashes.drop_last(), remove)
    } else {
        without(hashes.drop_last(), remove).push(hashes.last())
    }
}

/// Removing nothing leaves all.
pub proof fn lemma_without_nothing(hashes: Seq<H256>)
    ensures
        without(hashes, Seq::empty()) == hashes,
    decreases hashes.len(),
{
    if hashes.len() > 0 {
        lemma_without_nothing(hashes.drop_last());
        assert(hashes.drop_last().push(hashes.last()) =~= hashes);
    }
}

/// Whether `hashes` names `hash`.
pub fn contains_hash(hashes: &Vec<H256>, hash: &H256) -> (found: bool)
    ensures
        found == hashes@.contains(*hash),
{
    let mut i: usize = 0;
    while i < hashes.len()
        invariant
            i <= hashes@.len(),
            forall|j: int| 0 <= j < i ==> hashes@[j] != *hash,
        decreases hashes@.len() - i,
    {
        if hashes[i] == *hash {
            return true;
        }
        i = i + 1;
    }
    false
}

fn remove_all(hashes: &Vec<H256>, remove: &Vec<H256>) -> (out: Vec<H256>)
    ensures
        out@ == without(hashes@, remove@),
{
    let mut out: Vec<H256> = Vec::new();
    let mut i: usize = 0;
    while i < hashes.len()
        invariant
            i <= hashes@.len(),
            out@ == without(hashes@.subrange(0, i as int), remove@),
        decreases hashes@.len() - i,
    {
        proof {
            assert(hashes@.subrange(0, i + 1).drop_last() =~= hashes@.subrange(0, i as int));
        }
        if !contains_hash(remove, &hashes[i]) {
            out.push(hashes[i]);
        }
        i = i + 1;
    }
    proof {
        assert(hashes@.subrange(0, hashes@.len() as int) =~= hashes@);
    }
    out
}

fn append_hashes(to: &mut Vec<H256>, from: &Vec<H256>)
    ensures
        final(to)@ == old(to)@ + from@,
{
    let mut i: usize = 0;
    proof {
        assert(to@ =~= old(to)@ + from@.subrange(0, 0));
    }
    while i < from.len()
        invariant
            i <= from@.len(),
            to@ == old(to)@ + from@.subrange(0, i as int),
        decreases from@.len() - i,
    {
        to.push(from[i]);
        proof {
            assert(to@ =~= old(to)@ + from@.subrange(0, i + 1));
        }
        i = i + 1;
    }
    proof {
        assert(from@.subrange(0, from@.len() as int) =~= from@);
    }
}

/// The number of candidates that a drain of at most `max` takes from a
/// queue of `len`.
pub open spec fn drained(len: nat, max: usize) -> int {
    if len <= max {
        len as int
    } else {
        max as int
    }
}

/// The queue of verified headers.
pub struct HeaderQueue {
    /// The headers that wait for import, oldest first.
    pub verified: Vec<Header>,
    /// The hashes that were drained and not yet marked good or bad.
    pub processing: Vec<H256>,
    /// The hashes that were marked bad.
    pub bad: Vec<H256>,
}

/// The queue of verified blocks.
pub struct BlockQueue {
    /// The blocks that wait for import, oldest first.
    pub verified: Vec<PreverifiedBlock>,
    /// The hashes that were drained and not yet marked good or bad.
    pub processing: Vec<H256>,
    /// The hashes that were marked bad.
    pub bad: Vec<H256>,
}

impl HeaderQueue {
    pub fn new() -> (queue: HeaderQueue)
        ensures
            queue.verified@.len() == 0,
            queue.processing@.len() == 0,
            queue.bad@.len() == 0,
    {
        HeaderQueue { verified: Vec::new(), processing: Vec::new(), bad: Vec::new() }
    }

    /// Takes a verified header into the queue.
    pub fn push(&mut self, header: Header)
        ensures
            final(self).verified@ == old(self).verified@.push(header),
            final(self).processing@ == old(self).processing@,
            final(self).bad@ == old(self).bad@,
    {
        self.verified.push(header);
    }

    /// Removes up to `max` headers from the front of the queue and returns
    /// them in order. Their hashes are in processing until they are marked.
    pub fn drain(&mut self, max: usize) -> (out: Vec<Header>)
        ensures
            out@ == old(self).verified@.subrange(0, drained(old(self).verified@.len(), max)),
            final(self).verified@ == old(self).verified@.subrange(
                drained(old(self).verified@.len(), max),
                old(self).verified@.len() as int,
            ),
            final(self).processing@ == old(self).processing@ + header_hashes(out@),
            final(self).bad@ == old(self).bad@,
    {
        let n = if self.verified.len() <= max {
            self.verified.len()
        } else {
            max
        };
        let mut rest = self.verified.split_off(n);
        std::mem::swap(&mut self.verified, &mut rest);
        let ghost kept = self.verified@;
        let mut i: usize = 0;
        proof {
            assert(self.processing@ =~= old(self).processing@ + header_hashes(
                rest@.subrange(0, 0),
            ));
        }
        while i < rest.len()
            invariant
                i <= rest@.len(),
                self.processing@ == old(self).processing@ + header_hashes(
                    rest@.subrange(0, i as int),
                ),
                self.verified@ == kept,
                self.bad@ == old(self).bad@,
            decreases rest@.len() - i,
        {
            self.processing.push(rest[i].hash);
            proof {
                assert(self.processing@ =~= old(self).processing@ + header_hashes(
                    rest@.subrange(0, i + 1),
                ));
            }
            i = i + 1;
        }
        proof {
            assert(rest@.subrange(0, rest@.len() as int) =~= rest@);
        }
        rest
    }

    /// Records hashes as bad. They are no longer in processing.
    pub fn mark_as_bad(&mut self, hashes: &Vec<H256>)
        ensures
            final(self).verified@ == old(self).verified@,
            final(self).processing@ == without(old(self).processing@, hashes@),
            final(self).bad@ == old(self).bad@ + hashes@,
    {
        self.processing = remove_all(&self.processing, hashes);
        append_hashes(&mut self.bad, hashes);
    }

    /// Records hashes as imported. They are no longer in processing.
    /// Returns whether the queue is now empty: nothing waits and nothing is
    /// in processing.
    pub fn mark_as_good(&mut self, hashes: &Vec<H256>) -> (empty: bool)
        ensures
            final(self).verified@ == old(self).verified@,
            final(self).processing@ == without(old(self).processing@, hashes@),
            final(self).bad@ == old(self).bad@,
            empty == (final(self).verified@.len() == 0 && final(self).processing@.len() == 0),
    {
        self.processing = remove_all(&self.processing, hashes);
        self.verified.len() == 0 && self.processing.len() == 0
    }
}

impl BlockQueue {
    pub fn new() -> (queue: BlockQueue)
        ensures
            queue.verified@.len() == 0,
            queue.processing@.len() == 0,
            queue.bad@.len() == 0,
    {
        BlockQueue { verified: Vec::new(), processing: Vec::new(), bad: Vec::new() }
    }

    /// Takes a verified block into the queue.
    pub fn push(&mut self, block: PreverifiedBlock)
        ensures
            final(self).verified@ == old(self).verified@.push(block),
            final(self).processing@ == old(self).processing@,
            final(self).bad@ == old(self).bad@,
    {
        self.verified.push(block);
    }

    /// Removes up to `max` blocks from the front of the queue and returns
    /// them in order. Their hashes are in processing until they are marked.
    pub fn drain(&mut self, max: usize) -> (out: Vec<PreverifiedBlock>)
        ensures
            out@ == old(self).verified@.subrange(0, drained(old(self).verified@.len(), max)),
            final(self).verified@ == old(self).verified@.subrange(
                drained(old(self).verified@.len(), max),
                old(self).verified@.len() as int,
            ),
            final(self).processing@ == old(self).processing@ + header_hashes(block_headers(out@)),
            final(self).bad@ == old(self).bad@,
    {
        let n = if self.verified.len() <= max {
            self.verified.len()
        } else {
            max
        };
        let mut rest = self.verified.split_off(n);
        std::mem::swap(&mut self.verified, &mut rest);
        let ghost kept = self.verified@;
        let mut i: usize = 0;
        proof {
            assert(self.processing@ =~= old(self).processing@ + header_hashes(
                block_headers(rest@.subrange(0, 0)),
            ));
        }
        while i < rest.len()
            invariant
                i <= rest@.len(),
                self.processing@ == old(self).processing@ + header_hashes(
                    block_headers(rest@.subrange(0, i as int)),
                ),
                self.verified@ == kept,
                self.bad@ == old(self).bad@,
            decreases rest@.len() - i,
        {
            self.processing.push(rest[i].header.hash);
            proof {
                assert(self.processing@ =~= old(self).processing@ + header_hashes(
                    block_headers(rest@.subrange(0, i + 1)),
                ));
            }
            i = i + 1;
        }
        proof {
            assert(rest@.subrange(0, rest@.len() as int) =~= rest@);
        }
        rest
    }

    /// Records hashes as bad. They are no longer in processing.
    pub fn mark_as_bad(&mut self, hashes: &Vec<H256>)
        ensures
            final(self).verified@ == old(self).verified@,
            final(self).processing@ == without(old(self).processing@, hashes@),
            final(self).bad@ == old(self).bad@ + hashes@,
    {
        self.processing = remove_all(&self.processing, hashes);
        append_hashes(&mut self.bad, hashes);
    }

    /// Records hashes as imported. They are no longer in processing.
    /// Returns whether the queue is now empty: nothing waits and nothing is
    /// in processing.
    pub fn mark_as_good(&mut self, hashes: &Vec<H256>) -> (empty: bool)
        ensures
            final(self).verified@ == old(self).verified@,
            final(self).processing@ == without(old(self).processing@, hashes@),
            final(self).bad@ == old(self).bad@,
            empty == (final(self).verified@.len() == 0 && final(self).processing@.len() == 0),
    {
        self.processing = remove_all(&self.processing, hashes);
        self.verified.len() == 0 && self.processing.len() == 0
    }
}

} // verus!
