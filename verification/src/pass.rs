//! What an import pass does, as a function from the state before it and the
//! candidates to the state after it.

use vstd::prelude::*;
use crate::block::{enact_error, executed_header, EnactError};
use crate::chain::{body_rows, header_rows};
use crate::chain_view::ChainView;
use crate::client::{NotificationView, NotifyKind};
use crate::engine::{CodeChainEngine, CommonParams};
use crate::hash::H256;
use crate::header::{Header, Invoice, PreverifiedBlock, Transaction};
use crate::route::{net_enacted, net_retracted, RouteView};
use crate::state::{journal_rows, root_after, run, StateView};
use crate::verification::{family_verdict, final_verdict, BlockSize, FamilyError, FinalError};

verus! {

/// Why an import pass was given up.
#[derive(Clone, Copy, Debug, PartialEq, Eq, Structural)]
pub enum ImportError {
    /// A header reached the header pipeline before its parent was known.
    MissingParent { header: H256, parent: H256 },
}

/// Why a block candidate was not imported.
#[derive(Clone, Copy, Debug, PartialEq, Eq, Structural)]
pub enum BlockError {
    /// The parent's header is not known.
    ParentMissing,
    /// The parent's header is known, its body is not.
    ParentBodyMissing,
    /// The family rules refuse the block.
    Family(FamilyError),
    /// The engine's external rules refuse the header.
    External,
    /// The state of the parent was not journaled.
    StateMissing,
    /// A transaction cannot stand.
    Execution(EnactError),
    /// The executed header does not confirm the candidate's.
    Final(FinalError),
}

/// The state of an import pass.
pub struct PassState {
    /// The chain as readers see it.
    pub chain: ChainView,
    /// The state store.
    pub state: StateView,
    /// Every operation that the key-value store has taken.
    pub ops: Seq<(u8, u32, Seq<u8>, Seq<u8>)>,
    /// The hashes found bad in this pass, each once, in the order in which
    /// they were found.
    pub bad: Seq<H256>,
    /// The hashes imported in this pass, in order.
    pub imported: Seq<H256>,
    /// The routes of the inserts of this pass, in order.
    pub routes: Seq<RouteView>,
    /// The header, and its parent, on which the pass was given up.
    pub failed: Option<(H256, H256)>,
}

/// The state at the start of a pass.
pub open spec fn start_of(
    chain: ChainView,
    state: StateView,
    ops: Seq<(u8, u32, Seq<u8>, Seq<u8>)>,
) -> PassState {
    PassState {
        chain,
        state,
        ops,
        bad: Seq::empty(),
        imported: Seq::empty(),
        routes: Seq::empty(),
        failed: None,
    }
}

/// `bad` with `hash` in it.
pub open spec fn note_bad(bad: Seq<H256>, hash: H256) -> Seq<H256> {
    if bad.contains(hash) {
        bad
    } else {
        bad.push(hash)
    }
}

/// What the header pipeline does with one header.
///
/// A header that is bad, or whose parent is, is bad. A known header is
/// passed over. A header whose parent is not known ends the pass. Any other
/// is inserted where the engine's family rule accepts it, and bad where it
/// does not.
pub open spec fn header_step<E: CodeChainEngine>(engine: E, s: PassState, h: Header) -> PassState {
    if s.failed is Some {
        s
    } else if s.bad.contains(h.hash) || s.bad.contains(h.parent_hash) {
        PassState { bad: note_bad(s.bad, h.hash), ..s }
    } else if s.chain.contains(h.hash) {
        s
    } else if !s.chain.contains(h.parent_hash) {
        PassState { failed: Some((h.hash, h.parent_hash)), ..s }
    } else if engine.family_rule(h, s.chain.header(h.parent_hash)) {
        PassState {
            chain: s.chain.with_header(h).0,
            ops: s.ops + header_rows(s.chain, h),
            imported: s.imported.push(h.hash),
            routes: s.routes.push(s.chain.with_header(h).1),
            ..s
        }
    } else {
        PassState { bad: note_bad(s.bad, h.hash), ..s }
    }
}

/// What the header pipeline does with a sequence of headers, in order.
pub open spec fn header_pass<E: CodeChainEngine>(
    engine: E,
    s: PassState,
    headers: Seq<Header>,
) -> PassState
    decreases headers.len(),
{
    if headers.len() == 0 {
        s
    } else {
        header_step(engine, header_pass(engine, s, headers.drop_last()), headers.last())
    }
}

/// What subscribers are told after a header pass that started on the chain
/// `before` and ended in `out`.
pub open spec fn headers_note(before: ChainView, out: PassState) -> NotificationView {
    NotificationView {
        kind: NotifyKind::NewHeaders,
        imported: out.imported,
        invalid: out.bad,
        enacted: net_enacted(out.routes),
        retracted: net_retracted(out.routes),
        sealed: Seq::empty(),
        best_proposal_header_changed: if out.chain.best_header != before.best_header {
            Some(out.chain.best_header)
        } else {
            None
        },
    }
}

/// The verdict on a block candidate, stage by stage: the parent's header
/// and body, the family rules, the engine's external rules, the state of
/// the parent, execution, and the final comparison. A block that passes
/// yields the state roots after each of its transactions and its invoices.
pub open spec fn block_verdict<E: CodeChainEngine>(
    engine: E,
    params: CommonParams,
    chain: ChainView,
    state: StateView,
    header: Header,
    transactions: Seq<Transaction>,
    bytes: Seq<u8>,
) -> Result<(Seq<H256>, Seq<Invoice>), BlockError> {
    if !chain.contains(header.parent_hash) {
        Err(BlockError::ParentMissing)
    } else if !chain.has_body(header.parent_hash) {
        Err(BlockError::ParentBodyMissing)
    } else {
        let parent = chain.header(header.parent_hash);
        let size = BlockSize { bytes: bytes.len(), transactions: transactions.len() };
        match family_verdict(engine, header, parent, Some(size), params) {
            Err(e) => Err(BlockError::Family(e)),
            Ok(_) => if !engine.external_rule(header) {
                Err(BlockError::External)
            } else if !state.roots.contains(parent.state_root) {
                Err(BlockError::StateMissing)
            } else {
                match run(engine, parent.state_root, transactions) {
                    Err((index, why)) => Err(BlockError::Execution(enact_error(index, why))),
                    Ok((roots, invoices)) => match final_verdict(
                        header,
                        executed_header(header, root_after(parent.state_root, roots)),
                    ) {
                        Err(e) => Err(BlockError::Final(e)),
                        Ok(_) => Ok((roots, invoices)),
                    },
                }
            },
        }
    }
}

/// The state of a pass after the commit of a block that passed every stage
/// with these state roots and invoices.
pub open spec fn committed<E: CodeChainEngine>(
    engine: E,
    s: PassState,
    header: Header,
    bytes: Seq<u8>,
    roots: Seq<H256>,
    invoices: Seq<Invoice>,
) -> PassState {
    let base = s.chain.header(header.parent_hash).state_root;
    let inserted = s.chain.with_block(header, bytes, invoices, engine.may_lead(header));
    PassState {
        chain: inserted.0,
        state: StateView {
            roots: s.state.roots.push(root_after(base, roots)),
            hot: if header.hash == inserted.0.best_block {
                Some(root_after(base, roots))
            } else {
                s.state.hot
            },
        },
        ops: s.ops + journal_rows(base, roots, header.number) + header_rows(s.chain, header)
            + body_rows(
            s.chain.with_header(header).0,
            header.hash,
            bytes,
            invoices,
            engine.may_lead(header),
        ),
        imported: s.imported.push(header.hash),
        routes: s.routes.push(inserted.1),
        ..s
    }
}

/// What the block pipeline does with one block.
///
/// A block whose parent is bad is bad. Any other is committed where it
/// passes every stage, and bad where it does not.
pub open spec fn block_step<E: CodeChainEngine>(
    engine: E,
    params: CommonParams,
    s: PassState,
    header: Header,
    transactions: Seq<Transaction>,
    bytes: Seq<u8>,
) -> PassState {
    if s.bad.contains(header.parent_hash) {
        PassState { bad: note_bad(s.bad, header.hash), ..s }
    } else {
        match block_verdict(engine, params, s.chain, s.state, header, transactions, bytes) {
            Ok((roots, invoices)) => committed(engine, s, header, bytes, roots, invoices),
            Err(_) => PassState { bad: note_bad(s.bad, header.hash), ..s },
        }
    }
}

/// What the block pipeline does with a sequence of blocks, in order.
pub open spec fn block_pass<E: CodeChainEngine>(
    engine: E,
    params: CommonParams,
    s: PassState,
    blocks: Seq<PreverifiedBlock>,
) -> PassState
    decreases blocks.len(),
{
    if blocks.len() == 0 {
        s
    } else {
        block_step(
            engine,
            params,
            block_pass(engine, params, s, blocks.drop_last()),
            blocks.last().header,
            blocks.last().transactions@,
            blocks.last().bytes@,
        )
    }
}

/// What a subscriber is told after a block pass that ended in `out`.
pub open spec fn blocks_note(kind: NotifyKind, out: PassState) -> NotificationView {
    NotificationView {
        kind,
        imported: out.imported,
        invalid: out.bad,
        enacted: net_enacted(out.routes),
        retracted: net_retracted(out.routes),
        sealed: Seq::empty(),
        best_proposal_header_changed: None,
    }
}

/// A header pass that was given up stays as it is, whatever follows.
pub proof fn lemma_header_pass_failed<E: CodeChainEngine>(
    engine: E,
    s: PassState,
    headers: Seq<Header>,
    n: int,
)
    requires
        0 <= n <= headers.len(),
        header_pass(engine, s, headers.subrange(0, n)).failed is Some,
    ensures
        header_pass(engine, s, headers) == header_pass(engine, s, headers.subrange(0, n)),
    decreases headers.len() - n,
{
    if n < headers.len() {
        assert(headers.subrange(0, n + 1).drop_last() =~= headers.subrange(0, n));
        lemma_header_pass_failed(engine, s, headers, n + 1);
    } else {
        assert(headers.subrange(0, n) =~= headers);
    }
}

} // verus!
