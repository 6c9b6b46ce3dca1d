//! The verification stages that need chain context: the family rules, the
//! engine's external rules, and the final comparison with the executed
//! header.

use vstd::prelude::*;
use crate::engine::{CodeChainEngine, CommonParams};
use crate::header::{Header, Transaction};

verus! {

/// Why a header may not follow its parent.
#[derive(Clone, Copy, Debug, PartialEq, Eq, Structural)]
pub enum FamilyError {
    /// The number is not the parent's number plus one.
    InvalidNumber,
    /// The timestamp is not after the parent's.
    InvalidTimestamp,
    /// The serialized block is larger than the parameters allow.
    BodyTooLarge,
    /// The block carries more transactions than the parameters allow.
    TooManyTransactions,
    /// The engine's own family rule refuses the header.
    Engine,
}

/// Why an executed header does not confirm the candidate's header.
#[derive(Clone, Copy, Debug, PartialEq, Eq, Structural)]
pub enum FinalError {
    /// Execution led to another state root than the header declares.
    StateRootMismatch,
    /// The transactions roots differ.
    TransactionsRootMismatch,
    /// Another field that the committee observes differs.
    HeaderMismatch,
}

/// What the family check reads of a full block, besides its header.
pub struct FullFamilyParams<'a> {
    pub block_bytes: &'a Vec<u8>,
    pub transactions: &'a Vec<Transaction>,
}

/// The sizes of a full block: the length of its serialization and the
/// number of its transactions.
pub struct BlockSize {
    pub bytes: nat,
    pub transactions: nat,
}

/// The verdict of the family check. The rules are tried in this order:
/// number, timestamp, the two size limits (for a full block only), and the
/// engine's family rule.
pub open spec fn family_verdict<E: CodeChainEngine>(
    engine: E,
    header: Header,
    parent: Header,
    full: Option<BlockSize>,
    params: CommonParams,
) -> Result<(), FamilyError> {
    if header.number != parent.number + 1 {
        Err(FamilyError::InvalidNumber)
    } else if header.timestamp <= parent.timestamp {
        Err(FamilyError::InvalidTimestamp)
    } else if full is Some && full->Some_0.bytes > params.max_body_size {
        Err(FamilyError::BodyTooLarge)
    } else if full is Some && full->Some_0.transactions > params.max_transactions {
        Err(FamilyError::TooManyTransactions)
    } else if !engine.family_rule(header, parent) {
        Err(FamilyError::Engine)
    } else {
        Ok(())
    }
}

/// The sizes that the family check reads of a full block.
pub open spec fn block_size(full: Option<FullFamilyParams>) -> Option<BlockSize> {
    match full {
        Some(f) => Some(
            BlockSize { bytes: f.block_bytes@.len(), transactions: f.transactions@.len() },
        ),
        None => None,
    }
}

/// The verdict of the final check: the first field, in the order state
/// root, transactions root, any other observed field, in which the executed
/// header differs from the candidate's. The seal and the hash are not
/// compared.
pub open spec fn final_verdict(expected: Header, got: Header) -> Result<(), FinalError> {
    if expected.state_root != got.state_root {
        Err(FinalError::StateRootMismatch)
    } else if expected.transactions_root != got.transactions_root {
        Err(FinalError::TransactionsRootMismatch)
    } else if expected.parent_hash != got.parent_hash || expected.number != got.number
        || expected.timestamp != got.timestamp || expected.author.0@ != got.author.0@
        || expected.score != got.score || expected.extra@ != got.extra@ {
        Err(FinalError::HeaderMismatch)
    } else {
        Ok(())
    }
}

fn same_bytes_20(a: &[u8; 20], b: &[u8; 20]) -> (same: bool)
    ensures
        same == (a@ == b@),
{
    let mut i: usize = 0;
    while i < 20
        invariant
            i <= 20,
            forall|j: int| 0 <= j < i ==> a@[j] == b@[j],
        decreases 20 - i,
    {
        if a[i] != b[i] {
            return false;
        }
        i = i + 1;
    }
    assert(a@ =~= b@);
    true
}

fn same_bytes_32(a: &[u8; 32], b: &[u8; 32]) -> (same: bool)
    ensures
        same == (a@ == b@),
{
    let mut i: usize = 0;
    while i < 32
        invariant
            i <= 32,
            forall|j: int| 0 <= j < i ==> a@[j] == b@[j],
        decreases 32 - i,
    {
        if a[i] != b[i] {
            return false;
        }
        i = i + 1;
    }
    assert(a@ =~= b@);
    true
}

/// The stateless set of checks that need chain context.
#[derive(Clone, Copy, Debug)]
pub struct Verifier;

impl Verifier {
    pub fn new() -> Verifier {
        Verifier
    }

    /// Checks that `header` may follow `parent`: the family rules of every
    /// chain, the size limits where the full block is at hand, and the
    /// engine's family rule.
    pub fn verify_block_family<E: CodeChainEngine>(
        &self,
        header: &Header,
        parent: &Header,
        engine: &E,
        full: Option<FullFamilyParams>,
        params: &CommonParams,
    ) -> (out: Result<(), FamilyError>)
        ensures
            out == family_verdict(*engine, *header, *parent, block_size(full), *params),
    {
        if parent.number == u64::MAX || header.number != parent.number + 1 {
            return Err(FamilyError::InvalidNumber);
        }
        if header.timestamp <= parent.timestamp {
            return Err(FamilyError::InvalidTimestamp);
        }
        match full {
            Some(f) => {
                if f.block_bytes.len() > params.max_body_size {
                    return Err(FamilyError::BodyTooLarge);
                }
                if f.transactions.len() > params.max_transactions {
                    return Err(FamilyError::TooManyTransactions);
                }
            },
            None => {},
        }
        if !engine.verify_block_family(header, parent) {
            return Err(FamilyError::Engine);
        }
        Ok(())
    }

    /// Checks the engine's rules that need no parent.
    pub fn verify_block_external<E: CodeChainEngine>(&self, header: &Header, engine: &E) -> (ok:
        bool)
        ensures
            ok == engine.external_rule(*header),
    {
        engine.verify_block_external(header)
    }

    /// Checks that the executed header confirms the candidate's header in
    /// every field that the committee observes.
    pub fn verify_block_final(&self, expected: &Header, got: &Header) -> (out: Result<
        (),
        FinalError,
    >)
        ensures
            out == final_verdict(*expected, *got),
    {
        if expected.state_root != got.state_root {
            return Err(FinalError::StateRootMismatch);
        }
        if expected.transactions_root != got.transactions_root {
            return Err(FinalError::TransactionsRootMismatch);
        }
        if expected.parent_hash != got.parent_hash || expected.number != got.number
            || expected.timestamp != got.timestamp || !same_bytes_20(
            &expected.author.0,
            &got.author.0,
        ) || expected.score != got.score || !same_bytes_32(&expected.extra, &got.extra) {
            return Err(FinalError::HeaderMismatch);
        }
        Ok(())
    }
}

} // verus!
