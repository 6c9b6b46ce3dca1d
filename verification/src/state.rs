//! The state that blocks are executed on, and the store of journaled
//! states.

use vstd::prelude::*;
use kvdb::DBTransaction;
use crate::batch::{batch_ops, batch_put, OP_INSERT};
use crate::engine::{CodeChainEngine, TransitionError};
use crate::hash::{H256, push_word, word_bytes};
use crate::header::{Invoice, Transaction};

verus! {

/// The column of journaled state changes.
pub const COL_STATE: u32 = 4;

/// A state under execution: the root it started from, and the roots that
/// the applied transactions produced, in order. It is a private copy: what
/// is applied to it touches no store until it is journaled.
#[derive(Debug)]
pub struct TopLevelState {
    pub base: H256,
    pub changes: Vec<H256>,
}

/// The root of a state that started at `base` and went through `changes`.
pub open spec fn root_after(base: H256, changes: Seq<H256>) -> H256 {
    if changes.len() == 0 {
        base
    } else {
        changes.last()
    }
}

/// The outcome of applying `txs` in order from the state with root `root`:
/// the roots after each transaction and the invoices, or the position and
/// the reason of the first transaction that cannot stand.
pub open spec fn run<E: CodeChainEngine>(engine: E, root: H256, txs: Seq<Transaction>) -> Result<
    (Seq<H256>, Seq<Invoice>),
    (int, TransitionError),
>
    decreases txs.len(),
{
    if txs.len() == 0 {
        Ok((Seq::empty(), Seq::empty()))
    } else {
        match run(engine, root, txs.drop_last()) {
            Err(e) => Err(e),
            Ok((roots, invoices)) => match engine.transition(
                root_after(root, roots),
                txs.last(),
            ) {
                Err(why) => Err((txs.len() - 1, why)),
                Ok((next, invoice)) => Ok((roots.push(next), invoices.push(invoice))),
            },
        }
    }
}

/// The rows that journaling a state under a block number adds to a batch:
/// one for each change, keyed by the number and the new root, holding the
/// root before the change.
pub open spec fn journal_rows(base: H256, changes: Seq<H256>, number: u64) -> Seq<
    (u8, u32, Seq<u8>, Seq<u8>),
> {
    Seq::new(
        changes.len(),
        |i: int|
            (
                OP_INSERT,
                COL_STATE,
                word_bytes(number) + changes[i].bytes(),
                root_after(base, changes.subrange(0, i)).bytes(),
            ),
    )
}

impl TopLevelState {
    /// The root of the state as it stands.
    pub open spec fn root_spec(&self) -> H256 {
        root_after(self.base, self.changes@)
    }

    /// The root of the state as it stands.
    pub fn root(&self) -> (root: H256)
        ensures
            root == self.root_spec(),
    {
        if self.changes.len() == 0 {
            self.base
        } else {
            self.changes[self.changes.len() - 1]
        }
    }

    /// Applies one transaction. A transaction that cannot stand leaves the
    /// state as it was.
    pub fn apply<E: CodeChainEngine>(&mut self, engine: &E, tx: &Transaction) -> (out: Result<
        Invoice,
        TransitionError,
    >)
        ensures
            final(self).base == old(self).base,
            match engine.transition(old(self).root_spec(), *tx) {
                Ok((next, invoice)) => {
                    &&& out == Ok::<Invoice, TransitionError>(invoice)
                    &&& final(self).changes@ == old(self).changes@.push(next)
                },
                Err(why) => {
                    &&& out == Err::<Invoice, TransitionError>(why)
                    &&& final(self).changes@ == old(self).changes@
                },
            },
    {
        let root = self.root();
        match engine.execute(&root, tx) {
            Ok((next, invoice)) => {
                self.changes.push(next);
                Ok(invoice)
            },
            Err(why) => Err(why),
        }
    }
}

/// The store of journaled states: the roots that can be executed on, and
/// the root of the state that is kept hot for the canonical tip.
pub struct StateDB {
    roots: Vec<H256>,
    hot: Option<H256>,
}

/// What a reader of the state store can see.
pub struct StateView {
    /// The roots of the journaled states, in the order of journaling.
    pub roots: Seq<H256>,
    /// The root of the hot state, if one was installed.
    pub hot: Option<H256>,
}

impl View for StateDB {
    type V = StateView;

    closed spec fn view(&self) -> StateView {
        StateView { roots: self.roots@, hot: self.hot }
    }
}

impl StateDB {
    /// A store that holds the genesis state alone.
    pub fn new(genesis_root: H256) -> (db: StateDB)
        ensures
            db@ == (StateView { roots: seq![genesis_root], hot: None }),
    {
        let mut roots: Vec<H256> = Vec::new();
        roots.push(genesis_root);
        proof {
            assert(roots@ =~= seq![genesis_root]);
        }
        StateDB { roots, hot: None }
    }

    /// Whether the state with this root was journaled.
    pub fn contains(&self, root: &H256) -> (known: bool)
        ensures
            known == self@.roots.contains(*root),
    {
        let mut i: usize = 0;
        while i < self.roots.len()
            invariant
                i <= self.roots@.len(),
                forall|j: int| 0 <= j < i ==> self.roots@[j] != *root,
            decreases self.roots@.len() - i,
        {
            if self.roots[i] == *root {
                return true;
            }
            i = i + 1;
        }
        false
    }

    /// A private copy of the state with this root, to execute on; `None`
    /// where no such state was journaled.
    pub fn clone_at(&self, root: &H256) -> (state: Option<TopLevelState>)
        ensures
            state is Some <==> self@.roots.contains(*root),
            state is Some ==> state->Some_0.base == *root && state->Some_0.changes@.len() == 0,
    {
        if self.contains(root) {
            Some(TopLevelState { base: *root, changes: Vec::new() })
        } else {
            None
        }
    }

    /// Journals a state under a block number: its changes go into the batch,
    /// and its root can be executed on from now.
    pub fn journal_under(&mut self, batch: &mut DBTransaction, state: &TopLevelState, number: u64)
        ensures
            final(self)@ == (StateView {
                roots: old(self)@.roots.push(state.root_spec()),
                hot: old(self)@.hot,
            }),
            batch_ops(*final(batch)) == batch_ops(*old(batch)) + journal_rows(
                state.base,
                state.changes@,
                number,
            ),
    {
        let ghost rows = journal_rows(state.base, state.changes@, number);
        let mut before: H256 = state.base;
        let mut i: usize = 0;
        proof {
            assert(batch_ops(*batch) + rows.subrange(0, 0) =~= batch_ops(*batch));
        }
        while i < state.changes.len()
            invariant
                i <= state.changes@.len(),
                rows == journal_rows(state.base, state.changes@, number),
                before == root_after(state.base, state.changes@.subrange(0, i as int)),
                batch_ops(*batch) == batch_ops(*old(batch)) + rows.subrange(0, i as int),
            decreases state.changes@.len() - i,
        {
            let after = state.changes[i];
            let mut key: Vec<u8> = Vec::new();
            push_word(&mut key, number);
            let mut tail = after.to_bytes();
            key.append(&mut tail);
            let value = before.to_bytes();
            batch_put(batch, COL_STATE, &key, &value);
            proof {
                assert(key@ =~= word_bytes(number) + after.bytes());
                assert(rows.subrange(0, i + 1) =~= rows.subrange(0, i as int).push(rows[i as int]));
                assert(batch_ops(*old(batch)) + rows.subrange(0, i as int).push(rows[i as int])
                    =~= (batch_ops(*old(batch)) + rows.subrange(0, i as int)).push(
                    rows[i as int],
                ));
                assert(state.changes@.subrange(0, i + 1).last() == after);
            }
            before = after;
            i = i + 1;
        }
        proof {
            assert(rows.subrange(0, rows.len() as int) =~= rows);
        }
        self.roots.push(state.root());
    }

    /// Installs a state as the hot state of the canonical tip.
    pub fn override_state(&mut self, state: &TopLevelState)
        ensures
            final(self)@ == (StateView { roots: old(self)@.roots, hot: Some(state.root_spec()) }),
    {
        self.hot = Some(state.root());
    }

    /// The root of the hot state, if one was installed.
    pub fn hot_root(&self) -> (root: Option<H256>)
        ensures
            root == self@.hot,
    {
        self.hot
    }
}

} // verus!
