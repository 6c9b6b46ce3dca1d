//! Execution of a block candidate on the state of its parent.

use vstd::prelude::*;
use crate::engine::{CodeChainEngine, TransitionError};
use crate::hash::H256;
use crate::header::{Header, Invoice, Transaction};
use crate::state::{root_after, run, TopLevelState};

verus! {

/// What every executed block offers to the code that commits it.
pub trait IsBlock {
    spec fn header_spec(&self) -> Header;

    spec fn state_spec(&self) -> TopLevelState;

    spec fn invoices_spec(&self) -> Seq<Invoice>;

    /// The header of the block, with the state root that execution gave.
    fn header(&self) -> (header: &Header)
        ensures
            *header == self.header_spec(),
    ;

    /// The state after the block.
    fn state(&self) -> (state: &TopLevelState)
        ensures
            *state == self.state_spec(),
    ;

    /// One invoice for each transaction of the block.
    fn invoices(&self) -> (invoices: &Vec<Invoice>)
        ensures
            invoices@ == self.invoices_spec(),
    ;
}

/// A block whose transactions were executed: its state root is fixed, and
/// it waits to be committed.
#[derive(Debug)]
pub struct LockedBlock {
    pub header: Header,
    pub state: TopLevelState,
    pub invoices: Vec<Invoice>,
}

impl LockedBlock {
    /// The header carries the root of the state that the block holds.
    pub open spec fn wf(&self) -> bool {
        self.header.state_root == self.state.root_spec()
    }
}

impl IsBlock for LockedBlock {
    open spec fn header_spec(&self) -> Header {
        self.header
    }

    open spec fn state_spec(&self) -> TopLevelState {
        self.state
    }

    open spec fn invoices_spec(&self) -> Seq<Invoice> {
        self.invoices@
    }

    fn header(&self) -> (header: &Header) {
        &self.header
    }

    fn state(&self) -> (state: &TopLevelState) {
        &self.state
    }

    fn invoices(&self) -> (invoices: &Vec<Invoice>) {
        &self.invoices
    }
}

/// Why a block could not be executed.
#[derive(Clone, Copy, Debug, PartialEq, Eq, Structural)]
pub enum EnactError {
    /// The transaction at this position is not valid on the state before
    /// it.
    Execution { index: usize },
    /// The transaction at this position is past what the engine grants one
    /// block.
    ResourceLimit { index: usize },
}

/// The error of a run that stopped at `index` for the reason `why`.
pub open spec fn enact_error(index: int, why: TransitionError) -> EnactError {
    match why {
        TransitionError::Fault => EnactError::Execution { index: index as usize },
        TransitionError::LimitReached => EnactError::ResourceLimit { index: index as usize },
    }
}

/// The header that execution gives back: the candidate's header with the
/// state root that the transactions led to.
pub open spec fn executed_header(header: Header, root: H256) -> Header {
    Header { state_root: root, ..header }
}

/// A run that stopped on a beginning of the transactions stops there on all
/// of them.
pub proof fn lemma_run_stops<E: CodeChainEngine>(
    engine: E,
    root: H256,
    txs: Seq<Transaction>,
    n: int,
)
    requires
        0 <= n <= txs.len(),
        run(engine, root, txs.subrange(0, n)) is Err,
    ensures
        run(engine, root, txs) == run(engine, root, txs.subrange(0, n)),
    decreases txs.len() - n,
{
    if n < txs.len() {
        assert(txs.subrange(0, n + 1).drop_last() =~= txs.subrange(0, n));
        lemma_run_stops(engine, root, txs, n + 1);
    } else {
        assert(txs.subrange(0, n) =~= txs);
    }
}

/// Executes the transactions of a block candidate, in order, on `state`.
///
/// Returns the block with one invoice for each transaction and with the
/// header of the candidate under the state root that execution gave, or
/// the position and kind of the first transaction that cannot stand.
pub fn enact<E: CodeChainEngine>(
    header: &Header,
    transactions: &Vec<Transaction>,
    engine: &E,
    state: TopLevelState,
) -> (out: Result<LockedBlock, EnactError>)
    ensures
        match run(*engine, state.root_spec(), transactions@) {
            Ok((roots, invoices)) => {
                &&& out is Ok
                &&& out->Ok_0.wf()
                &&& out->Ok_0.state.base == state.base
                &&& out->Ok_0.state.changes@ == state.changes@ + roots
                &&& out->Ok_0.invoices@ == invoices
                &&& out->Ok_0.header == executed_header(
                    *header,
                    root_after(state.root_spec(), roots),
                )
            },
            Err((index, why)) => out == Err::<LockedBlock, EnactError>(enact_error(index, why)),
        },
{
    let ghost start = state.root_spec();
    let ghost before = state.changes@;
    let ghost base = state.base;
    let mut current = state;
    let mut invoices: Vec<Invoice> = Vec::new();
    let mut i: usize = 0;
    proof {
        assert(transactions@.subrange(0, 0) =~= Seq::<Transaction>::empty());
        assert(before + Seq::<H256>::empty() =~= before);
    }
    while i < transactions.len()
        invariant
            i <= transactions@.len(),
            current.base == base,
            start == state.root_spec(),
            before == state.changes@,
            start == root_after(current.base, before),
            run(*engine, start, transactions@.subrange(0, i as int)) is Ok,
            current.changes@ == before + run(
                *engine,
                start,
                transactions@.subrange(0, i as int),
            )->Ok_0.0,
            invoices@ == run(*engine, start, transactions@.subrange(0, i as int))->Ok_0.1,
        decreases transactions@.len() - i,
    {
        proof {
            assert(transactions@.subrange(0, i + 1).drop_last() =~= transactions@.subrange(
                0,
                i as int,
            ));
            let roots = run(*engine, start, transactions@.subrange(0, i as int))->Ok_0.0;
            if roots.len() > 0 {
                assert((before + roots).last() == roots.last());
            } else {
                assert(before + roots =~= before);
            }
            assert(current.root_spec() == root_after(start, roots));
        }
        match current.apply(engine, &transactions[i]) {
            Ok(invoice) => {
                invoices.push(invoice);
                proof {
                    assert(transactions@.subrange(0, i + 1).last() == transactions@[i as int]);
                    let roots = run(*engine, start, transactions@.subrange(0, i + 1))->Ok_0.0;
                    assert(current.changes@ =~= before + roots);
                }
            },
            Err(why) => {
                proof {
                    let upto = transactions@.subrange(0, i + 1);
                    assert(upto.last() == transactions@[i as int]);
                    assert(run(*engine, start, upto) == Err::<
                        (Seq<H256>, Seq<Invoice>),
                        (int, TransitionError),
                    >((i as int, why)));
                    lemma_run_stops(*engine, start, transactions@, i + 1);
                }
                return Err(
                    match why {
                        TransitionError::Fault => EnactError::Execution { index: i },
                        TransitionError::LimitReached => EnactError::ResourceLimit { index: i },
                    },
                );
            },
        }
        i = i + 1;
    }
    proof {
        assert(transactions@.subrange(0, transactions@.len() as int) =~= transactions@);
        let roots = run(*engine, start, transactions@)->Ok_0.0;
        if roots.len() > 0 {
            assert((before + roots).last() == roots.last());
        } else {
            assert(before + roots =~= before);
        }
    }
    let root = current.root();
    let mut executed = *header;
    executed.state_root = root;
    Ok(LockedBlock { header: executed, state: current, invoices })
}

} // verus!
