//! What holds of every import pass.

use vstd::prelude::*;
use crate::chain_laws::{
    extends, head_advanced, lemma_extends_trans, lemma_with_block, lemma_with_header,
    route_accounts,
};
use crate::chain_view::{lemma_index_of, ChainView};
use crate::engine::{CodeChainEngine, CommonParams};
use crate::hash::H256;
use crate::header::{block_headers, Header, PreverifiedBlock};
use crate::pass::{
    block_pass, block_step, block_verdict, header_pass, header_step, note_bad, start_of,
    PassState,
};
use crate::route::{
    lemma_net_disjoint, lemma_net_label_step, lemma_net_members, net_enacted, net_label,
    net_retracted, route_labels, RouteView,
};
use crate::state::StateView;

verus! {

/// Every hash whose last label is "enacted" is on the canonical chain, and
/// every hash whose last label is "retracted" is not.
pub open spec fn routes_agree(routes: Seq<RouteView>, canon: Seq<H256>) -> bool {
    forall|h: H256|
        (#[trigger] net_label(route_labels(routes), h) == Some(true) ==> canon.contains(h)) && (
        net_label(route_labels(routes), h) == Some(false) ==> !canon.contains(h))
}

/// The best block moved as a chain allows: not at all, or to a block whose
/// ancestry holds the old best block, or, on another branch, to a block
/// of strictly greater score; the last two never both.
pub open spec fn best_block_moved_well(before: ChainView, after: ChainView) -> bool {
    let old_best = before.best_block;
    let new_best = after.best_block;
    new_best == old_best || (after.is_ancestor(old_best, new_best) != (!after.is_ancestor(
        old_best,
        new_best,
    ) && after.total_score(new_best) > after.total_score(old_best)))
}

/// Routes that agree with a canonical chain agree with the next one, once
/// the route that accounts for the change has joined them.
pub proof fn lemma_agree_step(
    routes: Seq<RouteView>,
    route: RouteView,
    before: Seq<H256>,
    after: Seq<H256>,
)
    requires
        routes_agree(routes, before),
        route_accounts(route, before, after),
    ensures
        routes_agree(routes.push(route), after),
{
    assert forall|h: H256|
        (#[trigger] net_label(route_labels(routes.push(route)), h) == Some(true)
            ==> after.contains(h)) && (net_label(route_labels(routes.push(route)), h) == Some(false)
            ==> !after.contains(h)) by {
        lemma_net_label_step(routes, route, h);
    }
}

/// Two moves of a head, each to a chain of greater score or none, make one
/// such move.
pub proof fn lemma_head_trans(b: ChainView, c: ChainView, h0: H256, h1: H256, h2: H256)
    requires
        extends(b, c),
        b.contains(h0),
        b.contains(h1),
        head_advanced(b, h0, h1),
        head_advanced(c, h1, h2),
    ensures
        head_advanced(c, h0, h2),
{
}

/// No routes agree with every chain.
pub proof fn lemma_agree_start(canon: Seq<H256>)
    ensures
        routes_agree(Seq::<RouteView>::empty(), canon),
{
    assert(route_labels(Seq::<RouteView>::empty()) =~= Seq::<(H256, bool)>::empty());
}

/// What one step of the header pipeline keeps.
pub proof fn lemma_header_step<E: CodeChainEngine>(engine: E, s: PassState, h: Header)
    requires
        s.chain.wf(),
        routes_agree(s.routes, s.chain.canonical_headers()),
        forall|i: int| 0 <= i < s.imported.len() ==> s.chain.contains(#[trigger] s.imported[i]),
    ensures
        ({
            let t = header_step(engine, s, h);
            &&& t.chain.wf()
            &&& extends(s.chain, t.chain)
            &&& head_advanced(t.chain, s.chain.best_header, t.chain.best_header)
            &&& t.chain.best_block == s.chain.best_block
            &&& t.chain.bodies == s.chain.bodies
            &&& t.state == s.state
            &&& routes_agree(t.routes, t.chain.canonical_headers())
            &&& forall|i: int| 0 <= i < t.imported.len() ==> t.chain.contains(#[trigger] t.imported[i])
        }),
{
    let t = header_step(engine, s, h);
    lemma_with_header(s.chain, h);
    let commits = s.failed is None && !s.bad.contains(h.hash) && !s.bad.contains(h.parent_hash)
        && !s.chain.contains(h.hash) && s.chain.contains(h.parent_hash) && engine.family_rule(
        h,
        s.chain.header(h.parent_hash),
    );
    if commits {
        lemma_agree_step(
            s.routes,
            s.chain.with_header(h).1,
            s.chain.canonical_headers(),
            t.chain.canonical_headers(),
        );
        assert forall|i: int| 0 <= i < t.imported.len() implies t.chain.contains(
            #[trigger] t.imported[i],
        ) by {
            if i < s.imported.len() {
                assert(s.chain.contains(s.imported[i]));
            }
        }
    }
}

/// What a header pass keeps, from any state on.
pub proof fn lemma_header_pass<E: CodeChainEngine>(engine: E, s: PassState, headers: Seq<Header>)
    requires
        s.chain.wf(),
        routes_agree(s.routes, s.chain.canonical_headers()),
        forall|i: int| 0 <= i < s.imported.len() ==> s.chain.contains(#[trigger] s.imported[i]),
    ensures
        ({
            let t = header_pass(engine, s, headers);
            &&& t.chain.wf()
            &&& extends(s.chain, t.chain)
            &&& head_advanced(t.chain, s.chain.best_header, t.chain.best_header)
            &&& t.chain.best_block == s.chain.best_block
            &&& t.chain.bodies == s.chain.bodies
            &&& t.state == s.state
            &&& routes_agree(t.routes, t.chain.canonical_headers())
            &&& forall|i: int| 0 <= i < t.imported.len() ==> t.chain.contains(#[trigger] t.imported[i])
        }),
    decreases headers.len(),
{
    if headers.len() > 0 {
        lemma_header_pass(engine, s, headers.drop_last());
        let m = header_pass(engine, s, headers.drop_last());
        lemma_header_step(engine, m, headers.last());
        let t = header_step(engine, m, headers.last());
        lemma_extends_trans(s.chain, m.chain, t.chain);
        assert(s.chain.contains(s.chain.best_header));
        lemma_head_trans(
            m.chain,
            t.chain,
            s.chain.best_header,
            m.chain.best_header,
            t.chain.best_header,
        );
    }
}

/// What one step of the block pipeline keeps.
pub proof fn lemma_block_step<E: CodeChainEngine>(
    engine: E,
    params: CommonParams,
    s: PassState,
    block: PreverifiedBlock,
)
    requires
        s.chain.wf(),
        routes_agree(s.routes, s.chain.canonical_blocks()),
        forall|i: int| 0 <= i < s.imported.len() ==> s.chain.contains(#[trigger] s.imported[i]),
    ensures
        ({
            let t = block_step(engine, params, s, block.header, block.transactions@, block.bytes@);
            &&& t.chain.wf()
            &&& extends(s.chain, t.chain)
            &&& head_advanced(t.chain, s.chain.best_header, t.chain.best_header)
            &&& head_advanced(t.chain, s.chain.best_block, t.chain.best_block)
            &&& routes_agree(t.routes, t.chain.canonical_blocks())
            &&& forall|i: int| 0 <= i < t.imported.len() ==> t.chain.contains(#[trigger] t.imported[i])
        }),
{
    let h = block.header;
    let t = block_step(engine, params, s, h, block.transactions@, block.bytes@);
    let verdict = block_verdict(
        engine,
        params,
        s.chain,
        s.state,
        h,
        block.transactions@,
        block.bytes@,
    );
    if !s.bad.contains(h.parent_hash) && verdict is Ok {
        let invoices = verdict->Ok_0.1;
        lemma_with_block(s.chain, h, block.bytes@, invoices, engine.may_lead(h));
        lemma_with_header(s.chain, h);
        let inserted = s.chain.with_block(h, block.bytes@, invoices, engine.may_lead(h));
        lemma_agree_step(
            s.routes,
            inserted.1,
            s.chain.canonical_blocks(),
            t.chain.canonical_blocks(),
        );
        assert(s.chain.with_header(h).0.contains(h.hash));
        lemma_index_of(inserted.0.headers, h.hash);
        assert forall|i: int| 0 <= i < t.imported.len() implies t.chain.contains(
            #[trigger] t.imported[i],
        ) by {
            if i < s.imported.len() {
                assert(s.chain.contains(s.imported[i]));
            }
        }
    }
}

/// What a block pass keeps, from any state on.
pub proof fn lemma_block_pass<E: CodeChainEngine>(
    engine: E,
    params: CommonParams,
    s: PassState,
    blocks: Seq<PreverifiedBlock>,
)
    requires
        s.chain.wf(),
        routes_agree(s.routes, s.chain.canonical_blocks()),
        forall|i: int| 0 <= i < s.imported.len() ==> s.chain.contains(#[trigger] s.imported[i]),
    ensures
        ({
            let t = block_pass(engine, params, s, blocks);
            &&& t.chain.wf()
            &&& extends(s.chain, t.chain)
            &&& head_advanced(t.chain, s.chain.best_header, t.chain.best_header)
            &&& head_advanced(t.chain, s.chain.best_block, t.chain.best_block)
            &&& routes_agree(t.routes, t.chain.canonical_blocks())
            &&& forall|i: int| 0 <= i < t.imported.len() ==> t.chain.contains(#[trigger] t.imported[i])
        }),
    decreases blocks.len(),
{
    if blocks.len() > 0 {
        lemma_block_pass(engine, params, s, blocks.drop_last());
        let m = block_pass(engine, params, s, blocks.drop_last());
        lemma_block_step(engine, params, m, blocks.last());
        let t = block_step(
            engine,
            params,
            m,
            blocks.last().header,
            blocks.last().transactions@,
            blocks.last().bytes@,
        );
        lemma_extends_trans(s.chain, m.chain, t.chain);
        assert(s.chain.contains(s.chain.best_header));
        assert(s.chain.contains(s.chain.best_block));
        lemma_head_trans(
            m.chain,
            t.chain,
            s.chain.best_header,
            m.chain.best_header,
            t.chain.best_header,
        );
        lemma_head_trans(
            m.chain,
            t.chain,
            s.chain.best_block,
            m.chain.best_block,
            t.chain.best_block,
        );
    }
}

/// The state in which an import of blocks ends that found no header without
/// its parent: the header pass over the headers of the blocks, and the block
/// pass from where that ended.
pub open spec fn blocks_imported<E: CodeChainEngine>(
    engine: E,
    params: CommonParams,
    chain: ChainView,
    state: StateView,
    ops: Seq<(u8, u32, Seq<u8>, Seq<u8>)>,
    blocks: Seq<PreverifiedBlock>,
) -> PassState {
    let hp = header_pass(engine, start_of(chain, state, ops), block_headers(blocks));
    block_pass(engine, params, start_of(hp.chain, state, hp.ops), blocks)
}

/// Monotonic chain. After an import of blocks the best block is the one it
/// was, or one whose ancestry holds it, or one on another branch whose chain
/// has a strictly greater score. In every case a best block that moved
/// moved to a chain of strictly greater score, and all that the chain knew
/// it still knows.
pub proof fn lemma_best_block_monotonic<E: CodeChainEngine>(
    engine: E,
    params: CommonParams,
    chain: ChainView,
    state: StateView,
    ops: Seq<(u8, u32, Seq<u8>, Seq<u8>)>,
    blocks: Seq<PreverifiedBlock>,
)
    requires
        chain.wf(),
    ensures
        ({
            let end = blocks_imported(engine, params, chain, state, ops, blocks);
            &&& end.chain.wf()
            &&& extends(chain, end.chain)
            &&& head_advanced(end.chain, chain.best_block, end.chain.best_block)
            &&& head_advanced(end.chain, chain.best_header, end.chain.best_header)
            &&& best_block_moved_well(chain, end.chain)
        }),
{
    let first = start_of(chain, state, ops);
    lemma_agree_start(chain.canonical_headers());
    lemma_header_pass(engine, first, block_headers(blocks));
    let hp = header_pass(engine, first, block_headers(blocks));
    let mid = start_of(hp.chain, state, hp.ops);
    lemma_agree_start(hp.chain.canonical_blocks());
    lemma_block_pass(engine, params, mid, blocks);
    let end = block_pass(engine, params, mid, blocks);
    lemma_extends_trans(chain, hp.chain, end.chain);
    assert(chain.contains(chain.best_header));
    assert(chain.contains(chain.best_block));
    lemma_head_trans(
        hp.chain,
        end.chain,
        chain.best_header,
        hp.chain.best_header,
        end.chain.best_header,
    );
}

/// Route sanity of a block pass. Of the net movement that the subscribers
/// are told, no hash is both enacted and retracted, every enacted hash is on
/// the canonical chain of blocks at the end of the pass, and no retracted
/// hash is.
pub proof fn lemma_block_routes_sane<E: CodeChainEngine>(
    engine: E,
    params: CommonParams,
    chain: ChainView,
    state: StateView,
    ops: Seq<(u8, u32, Seq<u8>, Seq<u8>)>,
    blocks: Seq<PreverifiedBlock>,
)
    requires
        chain.wf(),
    ensures
        ({
            let end = block_pass(engine, params, start_of(chain, state, ops), blocks);
            &&& forall|h: H256|
                !(net_enacted(end.routes).contains(h) && net_retracted(end.routes).contains(h))
            &&& forall|h: H256| #[trigger]
                net_enacted(end.routes).contains(h) ==> end.chain.canonical_blocks().contains(h)
            &&& forall|h: H256| #[trigger]
                net_retracted(end.routes).contains(h) ==> !end.chain.canonical_blocks().contains(h)
        }),
{
    let first = start_of(chain, state, ops);
    lemma_agree_start(chain.canonical_blocks());
    lemma_block_pass(engine, params, first, blocks);
    let end = block_pass(engine, params, first, blocks);
    lemma_net_disjoint(end.routes);
    assert forall|h: H256| #[trigger]
        net_enacted(end.routes).contains(h) implies end.chain.canonical_blocks().contains(h) by {
        lemma_net_members(end.routes, h);
    }
    assert forall|h: H256| #[trigger]
        net_retracted(end.routes).contains(h) implies !end.chain.canonical_blocks().contains(
        h,
    ) by {
        lemma_net_members(end.routes, h);
    }
}

/// Route sanity of a header pass. Of the net movement that the subscribers
/// are told, no hash is both enacted and retracted, every enacted hash is on
/// the canonical chain of headers at the end of the pass, and no retracted
/// hash is.
pub proof fn lemma_header_routes_sane<E: CodeChainEngine>(
    engine: E,
    chain: ChainView,
    state: StateView,
    ops: Seq<(u8, u32, Seq<u8>, Seq<u8>)>,
    headers: Seq<Header>,
)
    requires
        chain.wf(),
    ensures
        ({
            let end = header_pass(engine, start_of(chain, state, ops), headers);
            &&& forall|h: H256|
                !(net_enacted(end.routes).contains(h) && net_retracted(end.routes).contains(h))
            &&& forall|h: H256| #[trigger]
                net_enacted(end.routes).contains(h) ==> end.chain.canonical_headers().contains(h)
            &&& forall|h: H256| #[trigger]
                net_retracted(end.routes).contains(h) ==> !end.chain.canonical_headers().contains(
                    h,
                )
        }),
{
    let first = start_of(chain, state, ops);
    lemma_agree_start(chain.canonical_headers());
    lemma_header_pass(engine, first, headers);
    let end = header_pass(engine, first, headers);
    lemma_net_disjoint(end.routes);
    assert forall|h: H256| #[trigger]
        net_enacted(end.routes).contains(h) implies end.chain.canonical_headers().contains(h) by {
        lemma_net_members(end.routes, h);
    }
    assert forall|h: H256| #[trigger]
        net_retracted(end.routes).contains(h) implies !end.chain.canonical_headers().contains(
        h,
    ) by {
        lemma_net_members(end.routes, h);
    }
}

/// Header first. In every well-formed chain a block that has its body has
/// its header; and every block that an import of blocks reports as imported
/// has its header in the chain at the end.
pub proof fn lemma_header_first<E: CodeChainEngine>(
    engine: E,
    params: CommonParams,
    chain: ChainView,
    state: StateView,
    ops: Seq<(u8, u32, Seq<u8>, Seq<u8>)>,
    blocks: Seq<PreverifiedBlock>,
)
    requires
        chain.wf(),
    ensures
        ({
            let end = blocks_imported(engine, params, chain, state, ops, blocks);
            &&& forall|i: int|
                0 <= i < end.imported.len() ==> end.chain.contains(#[trigger] end.imported[i])
            &&& forall|hash: H256| #[trigger] end.chain.has_body(hash) ==> end.chain.contains(hash)
        }),
{
    let first = start_of(chain, state, ops);
    lemma_agree_start(chain.canonical_headers());
    lemma_header_pass(engine, first, block_headers(blocks));
    let hp = header_pass(engine, first, block_headers(blocks));
    let mid = start_of(hp.chain, state, hp.ops);
    lemma_agree_start(hp.chain.canonical_blocks());
    lemma_block_pass(engine, params, mid, blocks);
    let end = block_pass(engine, params, mid, blocks);
    assert forall|hash: H256| #[trigger] end.chain.has_body(hash) implies end.chain.contains(
        hash,
    ) by {
        crate::chain_view::lemma_body_index(end.chain.bodies, hash);
        let k = crate::chain_view::body_index(end.chain.bodies, hash);
        assert(end.chain.contains(end.chain.bodies[k].hash));
    }
}

/// A header pass over two runs of headers is the pass over the second run
/// from where the pass over the first one ended.
pub proof fn lemma_header_pass_concat<E: CodeChainEngine>(
    engine: E,
    s: PassState,
    a: Seq<Header>,
    b: Seq<Header>,
)
    ensures
        header_pass(engine, s, a + b) == header_pass(engine, header_pass(engine, s, a), b),
    decreases b.len(),
{
    if b.len() == 0 {
        assert(a + b =~= a);
    } else {
        assert((a + b).drop_last() =~= a + b.drop_last());
        assert((a + b).last() == b.last());
        lemma_header_pass_concat(engine, s, a, b.drop_last());
    }
}

/// The pass was given up, or each of the headers is bad or known.
pub open spec fn settled(t: PassState, headers: Seq<Header>) -> bool {
    t.failed is Some || forall|j: int|
        0 <= j < headers.len() ==> t.bad.contains((#[trigger] headers[j]).hash) || t.chain.contains(
            headers[j].hash,
        )
}

/// A hash that was bad stays bad when another is noted.
pub proof fn lemma_note_bad_keeps(bad: Seq<H256>, hash: H256, x: H256)
    ensures
        bad.contains(x) ==> note_bad(bad, hash).contains(x),
        note_bad(bad, hash).contains(hash),
        note_bad(bad, hash).contains(x) ==> bad.contains(x) || x == hash,
{
    if !bad.contains(hash) {
        let now = bad.push(hash);
        assert(now[bad.len() as int] == hash);
        if bad.contains(x) {
            let i = choose|i: int| 0 <= i < bad.len() && bad[i] == x;
            assert(now[i] == x);
        }
        if now.contains(x) {
            let i = choose|i: int| 0 <= i < now.len() && now[i] == x;
            if i < bad.len() {
                assert(bad[i] == x);
            }
        }
    }
}

/// One step of the header pipeline loses no bad hash.
pub proof fn lemma_header_step_keeps_bad<E: CodeChainEngine>(
    engine: E,
    s: PassState,
    h: Header,
    x: H256,
)
    ensures
        s.bad.contains(x) ==> header_step(engine, s, h).bad.contains(x),
{
    lemma_note_bad_keeps(s.bad, h.hash, x);
}

/// After a header pass that was not given up, each header it took is bad or
/// known.
pub proof fn lemma_header_pass_settles<E: CodeChainEngine>(
    engine: E,
    s: PassState,
    headers: Seq<Header>,
)
    requires
        s.chain.wf(),
        routes_agree(s.routes, s.chain.canonical_headers()),
        forall|i: int| 0 <= i < s.imported.len() ==> s.chain.contains(#[trigger] s.imported[i]),
    ensures
        settled(header_pass(engine, s, headers), headers),
    decreases headers.len(),
{
    if headers.len() > 0 {
        let head = headers.drop_last();
        let h = headers.last();
        lemma_header_pass_settles(engine, s, head);
        lemma_header_pass(engine, s, head);
        let m = header_pass(engine, s, head);
        let t = header_step(engine, m, h);
        lemma_header_step(engine, m, h);
        lemma_with_header(m.chain, h);
        if t.failed is None {
            assert forall|j: int| 0 <= j < headers.len() implies t.bad.contains(
                (#[trigger] headers[j]).hash,
            ) || t.chain.contains(headers[j].hash) by {
                if j < head.len() {
                    assert(head[j] == headers[j]);
                    lemma_header_step_keeps_bad(engine, m, h, headers[j].hash);
                    if m.chain.contains(headers[j].hash) {
                        assert(t.chain.contains(headers[j].hash));
                    }
                } else {
                    lemma_note_bad_keeps(m.bad, h.hash, h.hash);
                }
            }
        }
    }
}

/// A header pass over headers that are all bad or known changes nothing but
/// the set of bad hashes, which can only grow.
pub proof fn lemma_header_pass_no_op<E: CodeChainEngine>(
    engine: E,
    t: PassState,
    headers: Seq<Header>,
)
    requires
        settled(t, headers),
    ensures
        ({
            let u = header_pass(engine, t, headers);
            &&& u.chain == t.chain
            &&& u.state == t.state
            &&& u.ops == t.ops
            &&& u.imported == t.imported
            &&& u.routes == t.routes
            &&& u.failed == t.failed
            &&& forall|x: H256| t.bad.contains(x) ==> #[trigger] u.bad.contains(x)
        }),
    decreases headers.len(),
{
    if headers.len() > 0 {
        let head = headers.drop_last();
        let h = headers.last();
        if t.failed is None {
            assert forall|j: int| 0 <= j < head.len() implies t.bad.contains(
                (#[trigger] head[j]).hash,
            ) || t.chain.contains(head[j].hash) by {
                assert(head[j] == headers[j]);
            }
        }
        lemma_header_pass_no_op(engine, t, head);
        let m = header_pass(engine, t, head);
        let u = header_step(engine, m, h);
        assert(h == headers[headers.len() - 1]);
        assert forall|x: H256| t.bad.contains(x) implies #[trigger] u.bad.contains(x) by {
            assert(m.bad.contains(x));
            lemma_header_step_keeps_bad(engine, m, h, x);
        }
    }
}

/// Idempotence of the header pipeline. Importing a run of headers twice in
/// a row leaves the chain, the state store and the key-value store as
/// importing it once does, imports the same headers, and returns the same
/// routes: a header that is already present is passed over.
pub proof fn lemma_headers_idempotent<E: CodeChainEngine>(
    engine: E,
    chain: ChainView,
    state: StateView,
    ops: Seq<(u8, u32, Seq<u8>, Seq<u8>)>,
    headers: Seq<Header>,
)
    requires
        chain.wf(),
    ensures
        ({
            let once = header_pass(engine, start_of(chain, state, ops), headers);
            let twice = header_pass(engine, start_of(chain, state, ops), headers + headers);
            &&& twice.chain == once.chain
            &&& twice.state == once.state
            &&& twice.ops == once.ops
            &&& twice.imported == once.imported
            &&& twice.routes == once.routes
            &&& twice.failed == once.failed
        }),
{
    let first = start_of(chain, state, ops);
    lemma_agree_start(chain.canonical_headers());
    lemma_header_pass_concat(engine, first, headers, headers);
    lemma_header_pass_settles(engine, first, headers);
    lemma_header_pass_no_op(engine, header_pass(engine, first, headers), headers);
}

/// The candidates are content-addressed, among themselves and against the
/// chain: two headers with one hash name one parent, and no candidate has
/// the hash that the genesis names as its parent.
pub open spec fn content_addressed(chain: ChainView, headers: Seq<Header>) -> bool {
    &&& forall|i: int, j: int|
        0 <= i < headers.len() && 0 <= j < headers.len() && (#[trigger] headers[i]).hash == (
        #[trigger] headers[j]).hash ==> headers[i].parent_hash == headers[j].parent_hash
    &&& forall|i: int|
        0 <= i < headers.len() && chain.contains((#[trigger] headers[i]).hash) ==> chain.header(
            headers[i].hash,
        ).parent_hash == headers[i].parent_hash
    &&& forall|i: int|
        0 <= i < headers.len() ==> (#[trigger] headers[i]).hash != chain.headers[0].parent_hash
}

/// What a header pass over content-addressed candidates keeps: no bad hash
/// is known, every bad hash is a candidate's, and the chain stays
/// content-addressed against the candidates.
pub open spec fn bad_apart(t: PassState, genesis: Header, all: Seq<Header>) -> bool {
    &&& t.chain.wf()
    &&& t.chain.headers[0] == genesis
    &&& forall|x: H256| #[trigger] t.bad.contains(x) ==> !t.chain.contains(x)
    &&& forall|x: H256| #[trigger]
        t.bad.contains(x) ==> exists|j: int| 0 <= j < all.len() && (#[trigger] all[j]).hash == x
    &&& forall|i: int|
        0 <= i < all.len() && t.chain.contains((#[trigger] all[i]).hash) ==> t.chain.header(
            all[i].hash,
        ).parent_hash == all[i].parent_hash
}

/// A known header whose parent is bad cannot be, where the bad are apart.
proof fn lemma_child_of_bad_unknown(
    t: PassState,
    genesis: Header,
    all: Seq<Header>,
    k: int,
    j: int,
)
    requires
        bad_apart(t, genesis, all),
        0 <= k < all.len(),
        0 <= j < all.len(),
        all[j].hash == all[k].parent_hash,
        forall|i: int| 0 <= i < all.len() ==> (#[trigger] all[i]).hash != genesis.parent_hash,
        !t.chain.contains(all[k].parent_hash),
    ensures
        !t.chain.contains(all[k].hash),
{
    if t.chain.contains(all[k].hash) {
        let m = crate::chain_view::index_of(t.chain.headers, all[k].hash);
        lemma_index_of(t.chain.headers, all[k].hash);
        let stored = t.chain.headers[m];
        assert(stored.parent_hash == all[k].parent_hash);
        if m >= 1 {
            assert(0 <= crate::chain_view::index_of(t.chain.headers, stored.parent_hash) < m);
        } else {
            // The genesis: its parent is no candidate's hash.
            assert(stored == genesis);
            assert(all[j].hash == genesis.parent_hash);
        }
    }
}

/// One step of the header pipeline keeps the bad apart.
proof fn lemma_header_step_apart<E: CodeChainEngine>(
    engine: E,
    t: PassState,
    genesis: Header,
    all: Seq<Header>,
    k: int,
)
    requires
        bad_apart(t, genesis, all),
        0 <= k < all.len(),
        forall|i: int, j: int|
            0 <= i < all.len() && 0 <= j < all.len() && (#[trigger] all[i]).hash == (
            #[trigger] all[j]).hash ==> all[i].parent_hash == all[j].parent_hash,
        forall|i: int| 0 <= i < all.len() ==> (#[trigger] all[i]).hash != genesis.parent_hash,
    ensures
        bad_apart(header_step(engine, t, all[k]), genesis, all),
{
    let h = all[k];
    let u = header_step(engine, t, h);
    lemma_with_header(t.chain, h);
    if u.bad != t.bad {
        assert(u.chain == t.chain);
        // The hash joined the bad ones: it is not known.
        if t.chain.contains(h.hash) {
            // It was not passed over, so its parent is bad, and so unknown.
            assert(t.bad.contains(h.parent_hash));
            let j = choose|j: int| 0 <= j < all.len() && (#[trigger] all[j]).hash == h.parent_hash;
            lemma_child_of_bad_unknown(t, genesis, all, k, j);
        }
        assert forall|x: H256| #[trigger] u.bad.contains(x) implies !u.chain.contains(x) && exists|
            j: int,
        |
            0 <= j < all.len() && (#[trigger] all[j]).hash == x by {
            lemma_note_bad_keeps(t.bad, h.hash, x);
            if x == h.hash {
                assert(all[k].hash == x);
            } else {
                assert(t.bad.contains(x));
            }
        }
    } else if u.chain != t.chain {
        assert(u.chain == t.chain.with_header(h).0);
        assert(!t.bad.contains(h.hash));
        crate::chain_laws::lemma_push_extends(t.chain, h);
        crate::chain_view::lemma_index_of_push(t.chain.headers, h, h.hash);
        assert(u.chain.headers =~= t.chain.headers.push(h));
        assert forall|x: H256| #[trigger] u.bad.contains(x) implies !u.chain.contains(x) by {
            crate::chain_view::lemma_index_of_push(t.chain.headers, h, x);
        }
        assert forall|i: int|
            0 <= i < all.len() && u.chain.contains((#[trigger] all[i]).hash) implies u.chain.header(
            all[i].hash,
        ).parent_hash == all[i].parent_hash by {
            crate::chain_view::lemma_index_of_push(t.chain.headers, h, all[i].hash);
            if t.chain.contains(all[i].hash) {
                assert(u.chain.header(all[i].hash) == t.chain.header(all[i].hash));
            } else {
                assert(all[i].hash == all[k].hash);
            }
        }
    }
}

/// A header pass over a beginning of the candidates keeps the bad apart.
proof fn lemma_header_pass_apart<E: CodeChainEngine>(
    engine: E,
    chain: ChainView,
    state: StateView,
    ops: Seq<(u8, u32, Seq<u8>, Seq<u8>)>,
    all: Seq<Header>,
    n: int,
)
    requires
        chain.wf(),
        content_addressed(chain, all),
        0 <= n <= all.len(),
    ensures
        bad_apart(
            header_pass(engine, start_of(chain, state, ops), all.subrange(0, n)),
            chain.headers[0],
            all,
        ),
    decreases n,
{
    let first = start_of(chain, state, ops);
    if n == 0 {
        assert(all.subrange(0, 0) =~= Seq::<Header>::empty());
    } else {
        lemma_header_pass_apart(engine, chain, state, ops, all, n - 1);
        assert(all.subrange(0, n).drop_last() =~= all.subrange(0, n - 1));
        assert(all.subrange(0, n).last() == all[n - 1]);
        lemma_header_step_apart(
            engine,
            header_pass(engine, first, all.subrange(0, n - 1)),
            chain.headers[0],
            all,
            n - 1,
        );
    }
}

/// Descendant of bad is bad. Take content-addressed candidates and a line
/// of descent among them: each candidate on the line names the one before
/// it as its parent. Where the header pass marks the first of the line bad,
/// it imports none of the line, and none of the line is known at the end.
/// No hash is both bad and imported.
pub proof fn lemma_descendant_of_bad<E: CodeChainEngine>(
    engine: E,
    chain: ChainView,
    state: StateView,
    ops: Seq<(u8, u32, Seq<u8>, Seq<u8>)>,
    headers: Seq<Header>,
    line: Seq<int>,
)
    requires
        chain.wf(),
        content_addressed(chain, headers),
        line.len() >= 1,
        forall|k: int| 0 <= k < line.len() ==> 0 <= #[trigger] line[k] < headers.len(),
        forall|k: int|
            1 <= k < line.len() ==> headers[#[trigger] line[k]].parent_hash == headers[line[k
                - 1]].hash,
        header_pass(engine, start_of(chain, state, ops), headers).bad.contains(
            headers[line[0]].hash,
        ),
    ensures
        ({
            let end = header_pass(engine, start_of(chain, state, ops), headers);
            &&& forall|k: int|
                0 <= k < line.len() ==> !end.imported.contains(headers[#[trigger] line[k]].hash)
                    && !end.chain.contains(headers[line[k]].hash)
            &&& forall|x: H256| !(end.bad.contains(x) && end.imported.contains(x))
        }),
{
    let first = start_of(chain, state, ops);
    let end = header_pass(engine, first, headers);
    lemma_header_pass_apart(engine, chain, state, ops, headers, headers.len() as int);
    assert(headers.subrange(0, headers.len() as int) =~= headers);
    lemma_agree_start(chain.canonical_headers());
    lemma_header_pass(engine, first, headers);
    assert forall|x: H256| end.imported.contains(x) implies end.chain.contains(x) by {
        let i = choose|i: int| 0 <= i < end.imported.len() && end.imported[i] == x;
        assert(end.chain.contains(end.imported[i]));
    }
    lemma_line_unknown(end, chain.headers[0], headers, line, line.len() - 1);
}

/// None of a line of descent from a bad candidate is known.
proof fn lemma_line_unknown(
    end: PassState,
    genesis: Header,
    headers: Seq<Header>,
    line: Seq<int>,
    upto: int,
)
    requires
        bad_apart(end, genesis, headers),
        forall|i: int| 0 <= i < headers.len() ==> (#[trigger] headers[i]).hash != genesis.parent_hash,
        0 <= upto < line.len(),
        forall|k: int| 0 <= k < line.len() ==> 0 <= #[trigger] line[k] < headers.len(),
        forall|k: int|
            1 <= k < line.len() ==> headers[#[trigger] line[k]].parent_hash == headers[line[k
                - 1]].hash,
        end.bad.contains(headers[line[0]].hash),
    ensures
        forall|k: int| 0 <= k <= upto ==> !end.chain.contains(headers[#[trigger] line[k]].hash),
    decreases upto,
{
    if upto > 0 {
        lemma_line_unknown(end, genesis, headers, line, upto - 1);
        assert(!end.chain.contains(headers[line[upto - 1]].hash));
        assert(headers[line[upto]].parent_hash == headers[line[upto - 1]].hash);
        lemma_child_of_bad_unknown(end, genesis, headers, line[upto], line[upto - 1]);
    }
}

/// The candidates are fresh: no two of them have one hash, and none of them
/// has its body in the chain.
pub open spec fn fresh_blocks(chain: ChainView, blocks: Seq<PreverifiedBlock>) -> bool {
    &&& forall|i: int, j: int|
        0 <= i < j < blocks.len() ==> (#[trigger] blocks[i]).header.hash != (
        #[trigger] blocks[j]).header.hash
    &&& forall|i: int| 0 <= i < blocks.len() ==> !chain.has_body((#[trigger] blocks[i]).header.hash)
}

/// What a block pass over the first `n` of fresh candidates keeps: only
/// candidates it has taken are bad or imported, none is both, a body is in
/// the chain only if it was there at the start or was imported, and the
/// parent of an imported candidate had its body at the start or was
/// imported.
pub open spec fn blocks_apart(
    t: PassState,
    start: ChainView,
    all: Seq<PreverifiedBlock>,
    n: int,
) -> bool {
    &&& forall|x: H256|
        (#[trigger] t.bad.contains(x) || #[trigger] t.imported.contains(x)) ==> exists|j: int|
            0 <= j < n && (#[trigger] all[j]).header.hash == x
    &&& forall|x: H256| #[trigger]
        t.chain.has_body(x) ==> start.has_body(x) || t.imported.contains(x)
    &&& forall|x: H256| !(#[trigger] t.bad.contains(x) && t.imported.contains(x))
    &&& forall|j: int|
        0 <= j < n && t.imported.contains((#[trigger] all[j]).header.hash) ==> start.has_body(
            all[j].header.parent_hash,
        ) || t.imported.contains(all[j].header.parent_hash)
}

/// What a sequence holds after a push.
pub proof fn lemma_push_contains(s: Seq<H256>, x: H256, y: H256)
    ensures
        s.push(x).contains(y) <==> s.contains(y) || y == x,
{
    let now = s.push(x);
    assert(now[s.len() as int] == x);
    if s.contains(y) {
        let i = choose|i: int| 0 <= i < s.len() && s[i] == y;
        assert(now[i] == y);
    }
    if now.contains(y) {
        let i = choose|i: int| 0 <= i < now.len() && now[i] == y;
        if i < s.len() {
            assert(s[i] == y);
        }
    }
}

/// The insert of a block gives a body to no other hash than its own.
pub proof fn lemma_with_block_bodies(
    c: ChainView,
    h: Header,
    bytes: Seq<u8>,
    invoices: Seq<crate::header::Invoice>,
    may_lead: bool,
    x: H256,
)
    ensures
        c.with_block(h, bytes, invoices, may_lead).0.has_body(x) ==> c.has_body(x) || x == h.hash,
{
    let m = c.with_header(h).0;
    assert(m.bodies == c.bodies);
    if m.ready_for_body(h.hash) {
        crate::chain_view::lemma_body_index_push(
            m.bodies,
            crate::chain_view::BodyView { hash: h.hash, bytes, invoices },
            x,
        );
    }
}

/// One step of the block pipeline on a fresh candidate keeps the bad and
/// the imported apart.
proof fn lemma_block_step_apart<E: CodeChainEngine>(
    engine: E,
    params: CommonParams,
    t: PassState,
    start: ChainView,
    all: Seq<PreverifiedBlock>,
    n: int,
)
    requires
        0 <= n < all.len(),
        fresh_blocks(start, all),
        blocks_apart(t, start, all, n),
    ensures
        blocks_apart(
            block_step(engine, params, t, all[n].header, all[n].transactions@, all[n].bytes@),
            start,
            all,
            n + 1,
        ),
{
    let c = all[n].header;
    let u = block_step(engine, params, t, c, all[n].transactions@, all[n].bytes@);
    // The candidate is new: it is neither bad nor imported yet.
    if t.bad.contains(c.hash) || t.imported.contains(c.hash) {
        let j = choose|j: int| 0 <= j < n && (#[trigger] all[j]).header.hash == c.hash;
        assert(all[j].header.hash != all[n].header.hash);
    }
    let commits = !t.bad.contains(c.parent_hash) && block_verdict(
        engine,
        params,
        t.chain,
        t.state,
        c,
        all[n].transactions@,
        all[n].bytes@,
    ) is Ok;
    if !commits {
        assert(u.chain == t.chain);
        assert(u.imported == t.imported);
        assert(u.bad == note_bad(t.bad, c.hash));
        assert forall|x: H256|
            (#[trigger] u.bad.contains(x) || #[trigger] u.imported.contains(x)) implies exists|
            j: int,
        |
            0 <= j < n + 1 && (#[trigger] all[j]).header.hash == x by {
            lemma_note_bad_keeps(t.bad, c.hash, x);
            if x == c.hash {
                assert(all[n].header.hash == x);
            } else {
                let j = choose|j: int| 0 <= j < n && (#[trigger] all[j]).header.hash == x;
                assert(all[j].header.hash == x);
            }
        }
        assert forall|x: H256| !(#[trigger] u.bad.contains(x) && u.imported.contains(x)) by {
            lemma_note_bad_keeps(t.bad, c.hash, x);
        }
    } else {
        let verdict = block_verdict(
            engine,
            params,
            t.chain,
            t.state,
            c,
            all[n].transactions@,
            all[n].bytes@,
        );
        let invoices = verdict->Ok_0.1;
        assert(u.imported == t.imported.push(c.hash));
        assert(u.bad == t.bad);
        assert(t.chain.has_body(c.parent_hash));
        assert forall|x: H256|
            (#[trigger] u.bad.contains(x) || #[trigger] u.imported.contains(x)) implies exists|
            j: int,
        |
            0 <= j < n + 1 && (#[trigger] all[j]).header.hash == x by {
            lemma_push_contains(t.imported, c.hash, x);
            if x == c.hash {
                assert(all[n].header.hash == x);
            } else {
                let j = choose|j: int| 0 <= j < n && (#[trigger] all[j]).header.hash == x;
                assert(all[j].header.hash == x);
            }
        }
        assert forall|x: H256| #[trigger] u.chain.has_body(x) implies start.has_body(x)
            || u.imported.contains(x) by {
            lemma_with_block_bodies(t.chain, c, all[n].bytes@, invoices, engine.may_lead(c), x);
            lemma_push_contains(t.imported, c.hash, x);
        }
        assert forall|x: H256| !(#[trigger] u.bad.contains(x) && u.imported.contains(x)) by {
            lemma_push_contains(t.imported, c.hash, x);
        }
        assert forall|j: int|
            0 <= j < n + 1 && u.imported.contains((#[trigger] all[j]).header.hash) implies start.has_body(
            all[j].header.parent_hash,
        ) || u.imported.contains(all[j].header.parent_hash) by {
            lemma_push_contains(t.imported, c.hash, all[j].header.hash);
            lemma_push_contains(t.imported, c.hash, all[j].header.parent_hash);
            if j < n {
                assert(all[j].header.hash != all[n].header.hash);
            }
        }
    }
}

/// A block pass over a beginning of fresh candidates keeps the bad and the
/// imported apart.
proof fn lemma_block_pass_apart<E: CodeChainEngine>(
    engine: E,
    params: CommonParams,
    chain: ChainView,
    state: StateView,
    ops: Seq<(u8, u32, Seq<u8>, Seq<u8>)>,
    all: Seq<PreverifiedBlock>,
    n: int,
)
    requires
        fresh_blocks(chain, all),
        0 <= n <= all.len(),
    ensures
        blocks_apart(
            block_pass(engine, params, start_of(chain, state, ops), all.subrange(0, n)),
            chain,
            all,
            n,
        ),
    decreases n,
{
    let first = start_of(chain, state, ops);
    if n == 0 {
        assert(all.subrange(0, 0) =~= Seq::<PreverifiedBlock>::empty());
    } else {
        lemma_block_pass_apart(engine, params, chain, state, ops, all, n - 1);
        assert(all.subrange(0, n).drop_last() =~= all.subrange(0, n - 1));
        assert(all.subrange(0, n).last() == all[n - 1]);
        lemma_block_step_apart(
            engine,
            params,
            block_pass(engine, params, first, all.subrange(0, n - 1)),
            chain,
            all,
            n - 1,
        );
    }
}

/// Descendant of bad is bad, for blocks. Take fresh candidates and a line
/// of descent among them: each candidate on the line names the one before
/// it as its parent. Where the block pass marks the first of the line bad,
/// it imports none of the line. No hash is both bad and imported.
pub proof fn lemma_descendant_of_bad_block<E: CodeChainEngine>(
    engine: E,
    params: CommonParams,
    chain: ChainView,
    state: StateView,
    ops: Seq<(u8, u32, Seq<u8>, Seq<u8>)>,
    blocks: Seq<PreverifiedBlock>,
    line: Seq<int>,
)
    requires
        fresh_blocks(chain, blocks),
        line.len() >= 1,
        forall|k: int| 0 <= k < line.len() ==> 0 <= #[trigger] line[k] < blocks.len(),
        forall|k: int|
            1 <= k < line.len() ==> blocks[#[trigger] line[k]].header.parent_hash == blocks[line[k
                - 1]].header.hash,
        block_pass(engine, params, start_of(chain, state, ops), blocks).bad.contains(
            blocks[line[0]].header.hash,
        ),
    ensures
        ({
            let end = block_pass(engine, params, start_of(chain, state, ops), blocks);
            &&& forall|k: int|
                0 <= k < line.len() ==> !end.imported.contains(
                    blocks[#[trigger] line[k]].header.hash,
                )
            &&& forall|x: H256| !(end.bad.contains(x) && end.imported.contains(x))
        }),
{
    let end = block_pass(engine, params, start_of(chain, state, ops), blocks);
    lemma_block_pass_apart(engine, params, chain, state, ops, blocks, blocks.len() as int);
    assert(blocks.subrange(0, blocks.len() as int) =~= blocks);
    lemma_line_not_imported(end, chain, blocks, line, line.len() - 1);
}

/// None of a line of descent from a bad candidate is imported.
proof fn lemma_line_not_imported(
    end: PassState,
    start: ChainView,
    blocks: Seq<PreverifiedBlock>,
    line: Seq<int>,
    upto: int,
)
    requires
        fresh_blocks(start, blocks),
        blocks_apart(end, start, blocks, blocks.len() as int),
        0 <= upto < line.len(),
        forall|k: int| 0 <= k < line.len() ==> 0 <= #[trigger] line[k] < blocks.len(),
        forall|k: int|
            1 <= k < line.len() ==> blocks[#[trigger] line[k]].header.parent_hash == blocks[line[k
                - 1]].header.hash,
        end.bad.contains(blocks[line[0]].header.hash),
    ensures
        forall|k: int|
            0 <= k <= upto ==> !end.imported.contains(blocks[#[trigger] line[k]].header.hash),
    decreases upto,
{
    if upto > 0 {
        lemma_line_not_imported(end, start, blocks, line, upto - 1);
        let y = blocks[line[upto]];
        let p = blocks[line[upto - 1]];
        assert(y.header.parent_hash == p.header.hash);
        assert(!end.imported.contains(p.header.hash));
        assert(!start.has_body(p.header.hash));
    }
}

} // verus!
