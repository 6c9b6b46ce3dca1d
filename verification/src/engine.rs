//! The consensus engine as the import pipelines see it, and the parameters
//! that the verifier takes from the registry.

use vstd::prelude::*;
use crate::hash::H256;
use crate::header::{Header, Invoice, Transaction};

verus! {

/// The limits that hold for the children of a block.
#[derive(Clone, Copy, Debug, PartialEq, Eq, Structural)]
pub struct CommonParams {
    /// The most bytes that a serialized block may take.
    pub max_body_size: usize,
    /// The most transactions that a block may carry.
    pub max_transactions: usize,
}

/// Why a transaction cannot stand in a block.
#[derive(Clone, Copy, Debug, PartialEq, Eq, Structural)]
pub enum TransitionError {
    /// The transaction is not valid on the state it was applied to.
    Fault,
    /// The block has used up what the engine grants one block.
    LimitReached,
}

/// A consensus engine. Its opinions are functions of what it is shown: each
/// executable method returns what the rule of the same engine says.
pub trait CodeChainEngine {
    /// Whether `header` may follow `parent` under the engine's own rules.
    spec fn family_rule(&self, header: Header, parent: Header) -> bool;

    /// Whether `header` meets the engine's rules that need no parent.
    spec fn external_rule(&self, header: Header) -> bool;

    /// Whether the engine lets a block with this header become the best
    /// block.
    spec fn may_lead(&self, header: Header) -> bool;

    /// The state root and the invoice that a transaction gives on a state,
    /// or the reason why the transaction cannot stand in a block.
    spec fn transition(&self, state_root: H256, tx: Transaction) -> Result<
        (H256, Invoice),
        TransitionError,
    >;

    fn verify_block_family(&self, header: &Header, parent: &Header) -> (ok: bool)
        ensures
            ok == self.family_rule(*header, *parent),
    ;

    fn verify_block_external(&self, header: &Header) -> (ok: bool)
        ensures
            ok == self.external_rule(*header),
    ;

    fn can_change_canon_chain(&self, header: &Header) -> (ok: bool)
        ensures
            ok == self.may_lead(*header),
    ;

    fn execute(&self, state_root: &H256, tx: &Transaction) -> (out: Result<
        (H256, Invoice),
        TransitionError,
    >)
        ensures
            out == self.transition(*state_root, *tx),
    ;
}

} // verus!
