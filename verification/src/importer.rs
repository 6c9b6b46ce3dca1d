//! The importer: the import lock, the queues, the engine, and the two
//! pipelines that move verified candidates into the chain.

use vstd::prelude::*;
use crate::batch::{batch_ops, new_batch};
use crate::block::{enact, executed_header, IsBlock, LockedBlock};
use crate::chain::{body_rows, header_rows};
use crate::client::{Client, Notification, NotifyKind};
use crate::engine::CodeChainEngine;
use crate::hash::H256;
use crate::header::{block_headers, header_hashes, Header, Invoice, PreverifiedBlock};
use crate::pass::{
    block_pass, block_verdict, blocks_note, header_pass, headers_note, lemma_header_pass_failed,
    note_bad, start_of, BlockError, ImportError,
};
use crate::queue::{
    contains_hash, drained, lemma_without_nothing, without, BlockQueue, HeaderQueue,
};
use crate::route::{aggregate_routes, net_enacted, net_retracted, route_views, ImportRoute};
use crate::state::{journal_rows, root_after, StateView};
use crate::verification::{FullFamilyParams, Verifier};

verus! {

/// The most candidates that one pass takes from a queue.
pub const MAX_HEADERS_TO_IMPORT: usize = 1_000;

/// The most candidates that one pass takes from a queue.
pub const MAX_BLOCKS_TO_IMPORT: usize = 1_000;

/// The token that serializes import passes: at most one pass holds it.
pub struct ImportLock {
    held: bool,
}

/// The proof that the import lock is held. A pipeline that is handed one
/// runs under the holder's lock and takes none itself.
pub struct ImportGuard {
    _private: (),
}

impl ImportLock {
    pub closed spec fn is_held(&self) -> bool {
        self.held
    }

    /// A lock that nobody holds.
    pub fn new() -> (lock: ImportLock)
        ensures
            !lock.is_held(),
    {
        ImportLock { held: false }
    }

    /// Whether a pass holds the lock.
    pub fn held(&self) -> (held: bool)
        ensures
            held == self.is_held(),
    {
        self.held
    }

    /// Takes the lock. A holder that asked again would wait for itself, so
    /// the lock must be free.
    pub fn lock(&mut self) -> (guard: ImportGuard)
        requires
            !old(self).is_held(),
        ensures
            final(self).is_held(),
    {
        self.held = true;
        ImportGuard { _private: () }
    }

    /// Gives the lock back.
    pub fn unlock(&mut self, guard: ImportGuard)
        ensures
            !final(self).is_held(),
    {
        let _ = guard;
        self.held = false;
    }
}

fn copy_hashes(hashes: &Vec<H256>) -> (out: Vec<H256>)
    ensures
        out@ == hashes@,
{
    let mut out: Vec<H256> = Vec::new();
    let mut i: usize = 0;
    while i < hashes.len()
        invariant
            i <= hashes@.len(),
            out@ == hashes@.subrange(0, i as int),
        decreases hashes@.len() - i,
    {
        out.push(hashes[i]);
        proof {
            assert(out@ =~= hashes@.subrange(0, i + 1));
        }
        i = i + 1;
    }
    proof {
        assert(hashes@.subrange(0, hashes@.len() as int) =~= hashes@);
    }
    out
}

fn copy_invoices(invoices: &Vec<Invoice>) -> (out: Vec<Invoice>)
    ensures
        out@ == invoices@,
{
    let mut out: Vec<Invoice> = Vec::new();
    let mut i: usize = 0;
    while i < invoices.len()
        invariant
            i <= invoices@.len(),
            out@ == invoices@.subrange(0, i as int),
        decreases invoices@.len() - i,
    {
        out.push(invoices[i]);
        proof {
            assert(out@ =~= invoices@.subrange(0, i + 1));
        }
        i = i + 1;
    }
    proof {
        assert(invoices@.subrange(0, invoices@.len() as int) =~= invoices@);
    }
    out
}

fn mark_bad(bad: &mut Vec<H256>, hash: H256)
    ensures
        final(bad)@ == note_bad(old(bad)@, hash),
{
    if !contains_hash(bad, &hash) {
        bad.push(hash);
    }
}

fn headers_of_blocks(blocks: &Vec<PreverifiedBlock>) -> (out: Vec<Header>)
    ensures
        out@ == block_headers(blocks@),
{
    let mut out: Vec<Header> = Vec::new();
    let mut i: usize = 0;
    while i < blocks.len()
        invariant
            i <= blocks@.len(),
            out@ == block_headers(blocks@.subrange(0, i as int)),
        decreases blocks@.len() - i,
    {
        out.push(blocks[i].header);
        proof {
            assert(out@ =~= block_headers(blocks@.subrange(0, i + 1)));
        }
        i = i + 1;
    }
    proof {
        assert(blocks@.subrange(0, blocks@.len() as int) =~= blocks@);
    }
    out
}

/// The importer.
pub struct Importer<E: CodeChainEngine> {
    /// Held for the length of one import pass.
    pub import_lock: ImportLock,
    /// The checks that need chain context.
    pub verifier: Verifier,
    /// The blocks that wait for import.
    pub block_queue: BlockQueue,
    /// The headers that wait for import.
    pub header_queue: HeaderQueue,
    /// The engine whose rules the import follows.
    pub engine: E,
}

impl<E: CodeChainEngine> Importer<E> {
    /// An importer with empty queues and a free lock.
    pub fn try_new(engine: E) -> (out: Result<Importer<E>, ImportError>)
        ensures
            out is Ok,
            out->Ok_0.engine == engine,
            !out->Ok_0.import_lock.is_held(),
            out->Ok_0.block_queue.verified@.len() == 0,
            out->Ok_0.block_queue.processing@.len() == 0,
            out->Ok_0.block_queue.bad@.len() == 0,
            out->Ok_0.header_queue.verified@.len() == 0,
            out->Ok_0.header_queue.processing@.len() == 0,
            out->Ok_0.header_queue.bad@.len() == 0,
    {
        Ok(
            Importer {
                import_lock: ImportLock::new(),
                verifier: Verifier::new(),
                block_queue: BlockQueue::new(),
                header_queue: HeaderQueue::new(),
                engine,
            },
        )
    }

    /// The net movement of a batch of routes: see [`aggregate_routes`].
    pub fn calculate_enacted_retracted(&self, import_results: &[ImportRoute]) -> (out: (
        Vec<H256>,
        Vec<H256>,
    ))
        ensures
            out.0@ == net_enacted(route_views(import_results@)),
            out.1@ == net_retracted(route_views(import_results@)),
    {
        aggregate_routes(import_results)
    }

    /// Whether the engine's family rule lets `header` follow `parent`. The
    /// header pipeline asks the engine alone; the family rules of the
    /// verifier are applied to full blocks only.
    pub fn check_header(&self, header: &Header, parent: &Header) -> (ok: bool)
        ensures
            ok == self.engine.family_rule(*header, *parent),
    {
        self.engine.verify_block_family(header, parent)
    }

    /// Inserts a header and publishes it: a fresh batch takes the rows of
    /// the insert, the batch is written to the buffer of the key-value
    /// store, and the chain commits.
    pub fn commit_header(&self, header: &Header, client: &mut Client) -> (route: ImportRoute)
        requires
            old(client).wf(),
        ensures
            final(client).wf(),
            final(client).chain.published() == old(client).chain.published().with_header(
                *header,
            ).0,
            route@ == old(client).chain.published().with_header(*header).1,
            final(client).db.ops() == old(client).db.ops() + header_rows(
                old(client).chain.published(),
                *header,
            ),
            final(client).db.durable@ == old(client).db.durable@,
            final(client).state_db == old(client).state_db,
            final(client).params == old(client).params,
            final(client).notifications == old(client).notifications,
    {
        proof {
            client.chain.lemma_committed();
        }
        let mut batch = new_batch();
        let route = client.chain.insert_header(&mut batch, header);
        proof {
            assert(Seq::<(u8, u32, Seq<u8>, Seq<u8>)>::empty() + header_rows(
                old(client).chain.published(),
                *header,
            ) =~= header_rows(old(client).chain.published(), *header));
        }
        let written = client.db.write_buffered(batch);
        proof {
            let rows = header_rows(old(client).chain.published(), *header);
            assert(rows.subrange(0, rows.len() as int) =~= rows);
            assert(Seq::<(u8, u32, Seq<u8>, Seq<u8>)>::empty() + rows =~= rows);
        }
        client.chain.commit(written);
        route
    }

    /// Imports headers under a lock that the caller holds.
    ///
    /// The headers are taken in order, as [`header_pass`] says. A header
    /// whose parent is not known ends the pass at once with an error:
    /// what was committed before stays, and nobody is told. Otherwise the
    /// header queue learns the bad hashes, the subscribers are told what was
    /// imported, found bad, enacted and retracted and whether the best
    /// proposal header moved, the key-value store is flushed, and the number
    /// of imported headers is returned.
    pub fn import_verified_headers(
        &mut self,
        headers: &Vec<Header>,
        client: &mut Client,
        _importer_lock: &ImportGuard,
    ) -> (out: Result<usize, ImportError>)
        requires
            old(client).wf(),
        ensures
            final(client).wf(),
            final(self).engine == old(self).engine,
            final(self).import_lock == old(self).import_lock,
            final(self).block_queue == old(self).block_queue,
            final(client).state_db@ == old(client).state_db@,
            final(client).params == old(client).params,
            ({
                let end = header_pass(
                    old(self).engine,
                    start_of(
                        old(client).chain.published(),
                        old(client).state_db@,
                        old(client).db.ops(),
                    ),
                    headers@,
                );
                &&& final(client).chain.published() == end.chain
                &&& final(client).db.ops() == end.ops
                &&& match end.failed {
                    Some((header, parent)) => {
                        &&& out == Err::<usize, ImportError>(
                            ImportError::MissingParent { header, parent },
                        )
                        &&& final(client).notes() == old(client).notes()
                        &&& final(self).header_queue == old(self).header_queue
                    },
                    None => {
                        &&& out == Ok::<usize, ImportError>(end.imported.len() as usize)
                        &&& final(client).notes() == old(client).notes().push(
                            headers_note(old(client).chain.published(), end),
                        )
                        &&& final(self).header_queue.bad@ == old(self).header_queue.bad@ + end.bad
                        &&& final(self).header_queue.verified@ == old(self).header_queue.verified@
                        &&& final(self).header_queue.processing@ == without(
                            old(self).header_queue.processing@,
                            end.bad,
                        )
                        &&& final(client).db.buffered@.len() == 0
                    },
                }
            }),
    {
        let ghost start = start_of(
            client.chain.published(),
            client.state_db@,
            client.db.ops(),
        );
        let prev_best = client.chain.best_proposal_header().hash;
        let mut bad: Vec<H256> = Vec::new();
        let mut imported: Vec<H256> = Vec::new();
        let mut routes: Vec<ImportRoute> = Vec::new();
        let mut i: usize = 0;
        proof {
            assert(headers@.subrange(0, 0) =~= Seq::<Header>::empty());
            assert(route_views(routes@) =~= start.routes);
        }
        while i < headers.len()
            invariant
                i <= headers@.len(),
                client.wf(),
                self.engine == old(self).engine,
                self.import_lock == old(self).import_lock,
                self.block_queue == old(self).block_queue,
                self.header_queue == old(self).header_queue,
                client.state_db == old(client).state_db,
                client.params == old(client).params,
                client.notifications == old(client).notifications,
                start == start_of(
                    old(client).chain.published(),
                    old(client).state_db@,
                    old(client).db.ops(),
                ),
                prev_best == old(client).chain.published().best_header,
                header_pass(self.engine, start, headers@.subrange(0, i as int)).failed is None,
                client.chain.published() == header_pass(
                    self.engine,
                    start,
                    headers@.subrange(0, i as int),
                ).chain,
                client.db.ops() == header_pass(
                    self.engine,
                    start,
                    headers@.subrange(0, i as int),
                ).ops,
                bad@ == header_pass(self.engine, start, headers@.subrange(0, i as int)).bad,
                imported@ == header_pass(
                    self.engine,
                    start,
                    headers@.subrange(0, i as int),
                ).imported,
                route_views(routes@) == header_pass(
                    self.engine,
                    start,
                    headers@.subrange(0, i as int),
                ).routes,
            decreases headers@.len() - i,
        {
            let header = &headers[i];
            let hash = header.hash;
            let ghost before = header_pass(self.engine, start, headers@.subrange(0, i as int));
            proof {
                assert(headers@.subrange(0, i + 1).drop_last() =~= headers@.subrange(0, i as int));
                assert(headers@.subrange(0, i + 1).last() == *header);
            }
            if contains_hash(&bad, &hash) || contains_hash(&bad, &header.parent_hash) {
                mark_bad(&mut bad, hash);
            } else if client.chain.is_known_header(&hash) {
            } else {
                match client.block_header(&header.parent_hash) {
                    None => {
                        proof {
                            lemma_header_pass_failed(self.engine, start, headers@, i + 1);
                        }
                        return Err(
                            ImportError::MissingParent { header: hash, parent: header.parent_hash },
                        );
                    },
                    Some(parent) => {
                        if self.check_header(header, &parent) {
                            imported.push(hash);
                            let ghost routes_before = routes@;
                            let route = self.commit_header(header, client);
                            routes.push(route);
                            proof {
                                assert(route_views(routes@) =~= route_views(routes_before).push(
                                    route@,
                                ));
                            }
                        } else {
                            mark_bad(&mut bad, hash);
                        }
                    },
                }
            }
            i = i + 1;
        }
        proof {
            assert(headers@.subrange(0, headers@.len() as int) =~= headers@);
        }
        self.header_queue.mark_as_bad(&bad);
        let (enacted, retracted) = self.calculate_enacted_retracted(routes.as_slice());
        let new_best = client.chain.best_proposal_header().hash;
        let changed = if prev_best != new_best {
            Some(new_best)
        } else {
            None
        };
        let count = imported.len();
        client.notify(
            Notification {
                kind: NotifyKind::NewHeaders,
                imported,
                invalid: bad,
                enacted,
                retracted,
                sealed: Vec::new(),
                best_proposal_header_changed: changed,
            },
        );
        client.db.flush();
        Ok(count)
    }

    /// Runs a block candidate through the stages that need chain context
    /// and executes it: see [`block_verdict`]. Nothing is committed.
    pub fn check_and_close_block(&self, block: &PreverifiedBlock, client: &Client) -> (out: Result<
        LockedBlock,
        BlockError,
    >)
        requires
            client.wf(),
        ensures
            match block_verdict(
                self.engine,
                client.params,
                client.chain.published(),
                client.state_db@,
                block.header,
                block.transactions@,
                block.bytes@,
            ) {
                Ok((roots, invoices)) => {
                    let base = client.chain.published().header(
                        block.header.parent_hash,
                    ).state_root;
                    &&& out is Ok
                    &&& out->Ok_0.wf()
                    &&& out->Ok_0.state.base == base
                    &&& out->Ok_0.state.changes@ == roots
                    &&& out->Ok_0.invoices@ == invoices
                    &&& out->Ok_0.header == executed_header(block.header, root_after(base, roots))
                },
                Err(e) => out is Err && out->Err_0 == e,
            },
    {
        let header = &block.header;
        let parent = match client.chain.block_header(&header.parent_hash) {
            Some(parent) => parent,
            None => {
                return Err(BlockError::ParentMissing);
            },
        };
        if !client.chain.is_known_body(&header.parent_hash) {
            return Err(BlockError::ParentBodyMissing);
        }
        let common_params = match client.common_params(&header.parent_hash) {
            Some(params) => params,
            None => {
                return Err(BlockError::ParentMissing);
            },
        };
        let full = FullFamilyParams { block_bytes: &block.bytes, transactions: &block.transactions };
        match self.verifier.verify_block_family(
            header,
            &parent,
            &self.engine,
            Some(full),
            &common_params,
        ) {
            Err(e) => {
                return Err(BlockError::Family(e));
            },
            Ok(_) => {},
        }
        if !self.verifier.verify_block_external(header, &self.engine) {
            return Err(BlockError::External);
        }
        let state = match client.state_db.clone_at(&parent.state_root) {
            Some(state) => state,
            None => {
                return Err(BlockError::StateMissing);
            },
        };
        proof {
            assert(Seq::<H256>::empty() + state.changes@ =~= state.changes@);
        }
        let locked_block = match enact(header, &block.transactions, &self.engine, state) {
            Ok(locked) => locked,
            Err(e) => {
                return Err(BlockError::Execution(e));
            },
        };
        proof {
            assert(Seq::<H256>::empty() + locked_block.state.changes@
                =~= locked_block.state.changes@);
        }
        match self.verifier.verify_block_final(header, &locked_block.header) {
            Err(e) => {
                return Err(BlockError::Final(e));
            },
            Ok(_) => {},
        }
        Ok(locked_block)
    }

    /// Commits an executed block: a fresh batch takes the journal of the
    /// block's state and the rows of the insert, the batch is written to
    /// the buffer of the key-value store, and the chain commits. Where the
    /// block became the best block, its state is installed as the hot
    /// state.
    ///
    /// `header` is the header of the candidate as it came, with its seal;
    /// the header inside `block` serves execution and is not stored.
    pub fn commit_block<B: IsBlock>(
        &self,
        block: &B,
        header: &Header,
        block_data: &Vec<u8>,
        client: &mut Client,
    ) -> (route: ImportRoute)
        requires
            old(client).wf(),
        ensures
            final(client).wf(),
            final(client).params == old(client).params,
            final(client).notifications == old(client).notifications,
            final(client).db.durable@ == old(client).db.durable@,
            ({
                let chain = old(client).chain.published();
                let state = block.state_spec();
                let lead = self.engine.may_lead(*header);
                let inserted = chain.with_block(*header, block_data@, block.invoices_spec(), lead);
                &&& final(client).chain.published() == inserted.0
                &&& route@ == inserted.1
                &&& final(client).state_db@ == (StateView {
                    roots: old(client).state_db@.roots.push(state.root_spec()),
                    hot: if header.hash == inserted.0.best_block {
                        Some(state.root_spec())
                    } else {
                        old(client).state_db@.hot
                    },
                })
                &&& final(client).db.ops() == old(client).db.ops() + journal_rows(
                    state.base,
                    state.changes@,
                    header.number,
                ) + header_rows(chain, *header) + body_rows(
                    chain.with_header(*header).0,
                    header.hash,
                    block_data@,
                    block.invoices_spec(),
                    lead,
                )
            }),
    {
        proof {
            client.chain.lemma_committed();
        }
        let hash = header.hash;
        let number = header.number;
        let invoices = copy_invoices(block.invoices());
        let mut batch = new_batch();
        client.state_db.journal_under(&mut batch, block.state(), number);
        let route = client.chain.insert_block(&mut batch, header, block_data, invoices, &self.engine);
        proof {
            let chain = old(client).chain.published();
            let state = block.state_spec();
            let rows = journal_rows(state.base, state.changes@, header.number) + header_rows(
                chain,
                *header,
            ) + body_rows(
                chain.with_header(*header).0,
                header.hash,
                block_data@,
                block.invoices_spec(),
                self.engine.may_lead(*header),
            );
            assert(batch_ops(batch) =~= rows);
            assert(old(client).db.ops() + rows =~= old(client).db.ops() + journal_rows(
                state.base,
                state.changes@,
                header.number,
            ) + header_rows(chain, *header) + body_rows(
                chain.with_header(*header).0,
                header.hash,
                block_data@,
                block.invoices_spec(),
                self.engine.may_lead(*header),
            ));
        }
        let written = client.db.write_buffered(batch);
        proof {
            let chain = old(client).chain.published();
            let state = block.state_spec();
            let journal = journal_rows(state.base, state.changes@, header.number);
            let rows = header_rows(chain, *header) + body_rows(
                chain.with_header(*header).0,
                header.hash,
                block_data@,
                block.invoices_spec(),
                self.engine.may_lead(*header),
            );
            assert(written.ops() =~= journal + rows);
            assert((journal + rows).subrange(journal.len() as int, (journal + rows).len() as int)
                =~= rows);
            assert(client.chain.unwritten() =~= rows);
        }
        client.chain.commit(written);
        if hash == client.chain.best_block_hash() {
            client.state_db.override_state(block.state());
        }
        route
    }

    /// Takes blocks through the block pipeline, in order, and returns the
    /// imported hashes, the bad hashes and the routes of the pass.
    fn import_blocks(&self, blocks: &Vec<PreverifiedBlock>, client: &mut Client) -> (out: (
        Vec<H256>,
        Vec<H256>,
        Vec<ImportRoute>,
    ))
        requires
            old(client).wf(),
        ensures
            final(client).wf(),
            final(client).params == old(client).params,
            final(client).notifications == old(client).notifications,
            ({
                let end = block_pass(
                    self.engine,
                    old(client).params,
                    start_of(
                        old(client).chain.published(),
                        old(client).state_db@,
                        old(client).db.ops(),
                    ),
                    blocks@,
                );
                &&& final(client).chain.published() == end.chain
                &&& final(client).state_db@ == end.state
                &&& final(client).db.ops() == end.ops
                &&& out.0@ == end.imported
                &&& out.1@ == end.bad
                &&& route_views(out.2@) == end.routes
            }),
    {
        let ghost mid = start_of(
            client.chain.published(),
            client.state_db@,
            client.db.ops(),
        );
        let mut imported_blocks: Vec<H256> = Vec::new();
        let mut invalid_blocks: Vec<H256> = Vec::new();
        let mut import_results: Vec<ImportRoute> = Vec::new();
        let mut i: usize = 0;
        proof {
            assert(blocks@.subrange(0, 0) =~= Seq::<PreverifiedBlock>::empty());
            assert(route_views(import_results@) =~= mid.routes);
        }
        while i < blocks.len()
            invariant
                i <= blocks@.len(),
                client.wf(),
                client.params == old(client).params,
                client.notifications == old(client).notifications,
                mid == start_of(
                    old(client).chain.published(),
                    old(client).state_db@,
                    old(client).db.ops(),
                ),
                client.chain.published() == block_pass(
                    self.engine,
                    client.params,
                    mid,
                    blocks@.subrange(0, i as int),
                ).chain,
                client.state_db@ == block_pass(
                    self.engine,
                    client.params,
                    mid,
                    blocks@.subrange(0, i as int),
                ).state,
                client.db.ops() == block_pass(
                    self.engine,
                    client.params,
                    mid,
                    blocks@.subrange(0, i as int),
                ).ops,
                invalid_blocks@ == block_pass(
                    self.engine,
                    client.params,
                    mid,
                    blocks@.subrange(0, i as int),
                ).bad,
                imported_blocks@ == block_pass(
                    self.engine,
                    client.params,
                    mid,
                    blocks@.subrange(0, i as int),
                ).imported,
                route_views(import_results@) == block_pass(
                    self.engine,
                    client.params,
                    mid,
                    blocks@.subrange(0, i as int),
                ).routes,
            decreases blocks@.len() - i,
        {
            let block = &blocks[i];
            let header = &block.header;
            proof {
                assert(blocks@.subrange(0, i + 1).drop_last() =~= blocks@.subrange(0, i as int));
                assert(blocks@.subrange(0, i + 1).last() == blocks@[i as int]);
            }
            if contains_hash(&invalid_blocks, &header.parent_hash) {
                mark_bad(&mut invalid_blocks, header.hash);
            } else {
                match self.check_and_close_block(block, client) {
                    Ok(closed_block) => {
                        imported_blocks.push(header.hash);
                        let ghost routes_before = import_results@;
                        let route = self.commit_block(&closed_block, header, &block.bytes, client);
                        import_results.push(route);
                        proof {
                            assert(route_views(import_results@) =~= route_views(
                                routes_before,
                            ).push(route@));
                        }
                    },
                    Err(_) => {
                        mark_bad(&mut invalid_blocks, header.hash);
                    },
                }
            }
            i = i + 1;
        }
        proof {
            assert(blocks@.subrange(0, blocks@.len() as int) =~= blocks@);
        }
        (imported_blocks, invalid_blocks, import_results)
    }

    /// Takes up to 1000 blocks from the block queue and imports them under
    /// the import lock.
    ///
    /// With nothing to take, nothing happens. Otherwise the headers of the
    /// blocks go through the header pipeline first, under the same lock; a
    /// header whose parent is not known ends the pass with an error. The
    /// blocks are then taken in order, as [`block_pass`] says. The block
    /// queue learns the bad and the imported hashes; where a block was
    /// imported, the miner and then the subscribers are told what was
    /// imported, found bad, enacted and retracted; the key-value store is
    /// flushed, and the number of imported blocks is returned.
    pub fn import_verified_blocks(&mut self, client: &mut Client) -> (out: Result<
        usize,
        ImportError,
    >)
        requires
            old(client).wf(),
            !old(self).import_lock.is_held(),
        ensures
            final(client).wf(),
            !final(self).import_lock.is_held(),
            final(self).engine == old(self).engine,
            final(client).params == old(client).params,
            final(self).header_queue.verified@ == old(self).header_queue.verified@,
            ({
                let n = drained(old(self).block_queue.verified@.len(), MAX_BLOCKS_TO_IMPORT);
                let blocks = old(self).block_queue.verified@.subrange(0, n);
                let hp = header_pass(
                    old(self).engine,
                    start_of(
                        old(client).chain.published(),
                        old(client).state_db@,
                        old(client).db.ops(),
                    ),
                    block_headers(blocks),
                );
                let end = block_pass(
                    old(self).engine,
                    old(client).params,
                    start_of(hp.chain, old(client).state_db@, hp.ops),
                    blocks,
                );
                &&& final(self).block_queue.verified@ == old(self).block_queue.verified@.subrange(
                    n,
                    old(self).block_queue.verified@.len() as int,
                )
                &&& if n == 0 {
                    &&& out == Ok::<usize, ImportError>(0)
                    &&& final(client).chain.published() == old(client).chain.published()
                    &&& final(client).state_db@ == old(client).state_db@
                    &&& final(client).db == old(client).db
                    &&& final(client).notes() == old(client).notes()
                    &&& final(self).block_queue.bad@ == old(self).block_queue.bad@
                    &&& final(self).block_queue.processing@ == old(self).block_queue.processing@
                    &&& final(self).header_queue == old(self).header_queue
                } else {
                    match hp.failed {
                        Some((header, parent)) => {
                            &&& out == Err::<usize, ImportError>(
                                ImportError::MissingParent { header, parent },
                            )
                            &&& final(client).chain.published() == hp.chain
                            &&& final(client).state_db@ == old(client).state_db@
                            &&& final(client).db.ops() == hp.ops
                            &&& final(client).notes() == old(client).notes()
                            &&& final(self).block_queue.bad@ == old(self).block_queue.bad@
                            &&& final(self).block_queue.processing@ == old(self).block_queue.processing@ + header_hashes(block_headers(blocks))
                            &&& final(self).header_queue == old(self).header_queue
                        },
                        None => {
                            &&& out == Ok::<usize, ImportError>(end.imported.len() as usize)
                            &&& final(client).chain.published() == end.chain
                            &&& final(client).state_db@ == end.state
                            &&& final(client).db.ops() == end.ops
                            &&& final(client).db.buffered@.len() == 0
                            &&& final(client).notes() == old(client).notes().push(
                                headers_note(old(client).chain.published(), hp),
                            ) + (if end.imported.len() > 0 {
                                seq![
                                    blocks_note(NotifyKind::ChainNewBlocks, end),
                                    blocks_note(NotifyKind::NewBlocks, end),
                                ]
                            } else {
                                Seq::empty()
                            })
                            &&& final(self).block_queue.bad@ == old(self).block_queue.bad@ + end.bad
                            &&& final(self).block_queue.processing@ == without(
                                without(
                                    old(self).block_queue.processing@ + header_hashes(
                                        block_headers(blocks),
                                    ),
                                    end.bad,
                                ),
                                end.imported,
                            )
                            &&& final(self).header_queue.bad@ == old(self).header_queue.bad@
                                + hp.bad
                            &&& final(self).header_queue.processing@ == without(
                                old(self).header_queue.processing@,
                                hp.bad,
                            )
                        },
                    }
                }
            }),
    {
        let import_lock = self.import_lock.lock();
        let blocks = self.block_queue.drain(MAX_BLOCKS_TO_IMPORT);
        if blocks.len() == 0 {
            self.import_lock.unlock(import_lock);
            return Ok(0);
        }
        let headers = headers_of_blocks(&blocks);
        match self.import_verified_headers(&headers, client, &import_lock) {
            Err(e) => {
                self.import_lock.unlock(import_lock);
                return Err(e);
            },
            Ok(_) => {},
        }
        let ghost hp = header_pass(
            old(self).engine,
            start_of(old(client).chain.published(), old(client).state_db@, old(client).db.ops()),
            headers@,
        );
        let ghost mid = start_of(hp.chain, old(client).state_db@, hp.ops);
        let ghost notes_mid = client.notes();
        let ghost queue_bad = self.block_queue.bad@;
        let (imported_blocks, invalid_blocks, import_results) = self.import_blocks(&blocks, client);
        proof {
            assert(queue_bad + Seq::<H256>::empty() =~= queue_bad);
        }
        let imported = imported_blocks.len();
        if invalid_blocks.len() > 0 {
            self.block_queue.mark_as_bad(&invalid_blocks);
        } else {
            proof {
                assert(invalid_blocks@ =~= Seq::<H256>::empty());
                lemma_without_nothing(self.block_queue.processing@);
            }
        }
        let _ = self.block_queue.mark_as_good(&imported_blocks);
        self.import_lock.unlock(import_lock);
        if imported > 0 {
            let (enacted, retracted) = self.calculate_enacted_retracted(import_results.as_slice());
            client.notify(
                Notification {
                    kind: NotifyKind::ChainNewBlocks,
                    imported: copy_hashes(&imported_blocks),
                    invalid: copy_hashes(&invalid_blocks),
                    enacted: copy_hashes(&enacted),
                    retracted: copy_hashes(&retracted),
                    sealed: Vec::new(),
                    best_proposal_header_changed: None,
                },
            );
            client.notify(
                Notification {
                    kind: NotifyKind::NewBlocks,
                    imported: imported_blocks,
                    invalid: invalid_blocks,
                    enacted,
                    retracted,
                    sealed: Vec::new(),
                    best_proposal_header_changed: None,
                },
            );
            proof {
                let end = block_pass(self.engine, client.params, mid, blocks@);
                assert(client.notes() =~= notes_mid + seq![
                    blocks_note(NotifyKind::ChainNewBlocks, end),
                    blocks_note(NotifyKind::NewBlocks, end),
                ]);
            }
        } else {
            proof {
                assert(client.notes() =~= notes_mid + Seq::empty());
            }
        }
        client.db.flush();
        Ok(imported)
    }

    /// Takes up to 1000 headers from the header queue and imports them
    /// under the import lock, as [`Self::import_verified_headers`] does.
    pub fn import_verified_headers_from_queue(&mut self, client: &mut Client) -> (out: Result<
        usize,
        ImportError,
    >)
        requires
            old(client).wf(),
            !old(self).import_lock.is_held(),
        ensures
            final(client).wf(),
            !final(self).import_lock.is_held(),
            final(self).engine == old(self).engine,
            final(self).block_queue == old(self).block_queue,
            final(client).state_db@ == old(client).state_db@,
            final(client).params == old(client).params,
            ({
                let n = drained(old(self).header_queue.verified@.len(), MAX_HEADERS_TO_IMPORT);
                let headers = old(self).header_queue.verified@.subrange(0, n);
                let end = header_pass(
                    old(self).engine,
                    start_of(
                        old(client).chain.published(),
                        old(client).state_db@,
                        old(client).db.ops(),
                    ),
                    headers,
                );
                &&& final(self).header_queue.verified@ == old(self).header_queue.verified@.subrange(
                    n,
                    old(self).header_queue.verified@.len() as int,
                )
                &&& final(client).chain.published() == end.chain
                &&& final(client).db.ops() == end.ops
                &&& match end.failed {
                    Some((header, parent)) => {
                        &&& out == Err::<usize, ImportError>(
                            ImportError::MissingParent { header, parent },
                        )
                        &&& final(client).notes() == old(client).notes()
                        &&& final(self).header_queue.bad@ == old(self).header_queue.bad@
                        &&& final(self).header_queue.processing@ == old(self).header_queue.processing@ + header_hashes(headers)
                    },
                    None => {
                        &&& out == Ok::<usize, ImportError>(end.imported.len() as usize)
                        &&& final(client).notes() == old(client).notes().push(
                            headers_note(old(client).chain.published(), end),
                        )
                        &&& final(self).header_queue.bad@ == old(self).header_queue.bad@ + end.bad
                        &&& final(self).header_queue.processing@ == without(
                            old(self).header_queue.processing@ + header_hashes(headers),
                            end.bad,
                        )
                        &&& final(client).db.buffered@.len() == 0
                    },
                }
            }),
    {
        let lock = self.import_lock.lock();
        let headers = self.header_queue.drain(MAX_HEADERS_TO_IMPORT);
        let out = self.import_verified_headers(&headers, client, &lock);
        self.import_lock.unlock(lock);
        out
    }
}

} // verus!
