//! What holds of every insert into the chain: the tree stays a tree, what was
//! known stays as it was, the heads only move to a chain of greater score,
//! and the route says exactly which hashes joined and left the canonical
//! chain.

use vstd::prelude::*;
use crate::hash::H256;
use crate::header::{Header, Invoice};
use crate::route::RouteView;
use crate::chain_view::{
    body_index, index_of, is_tree, lemma_body_index, lemma_body_index_push, lemma_index_of,
    lemma_index_of_push, lemma_push_is_tree, lemma_push_keeps, lemma_route_between, BodyView,
    ChainView,
};

verus! {

/// `later` knows every header that `earlier` knows, with the same ancestry
/// and score, and every body that `earlier` knows.
pub open spec fn extends(earlier: ChainView, later: ChainView) -> bool {
    &&& forall|hash: H256| #[trigger]
        earlier.contains(hash) ==> later.contains(hash) && later.header(hash) == earlier.header(
            hash,
        ) && later.ancestry(hash) == earlier.ancestry(hash) && later.total_score(hash)
            == earlier.total_score(hash)
    &&& forall|hash: H256| #[trigger]
        earlier.has_body(hash) ==> later.has_body(hash) && later.body(hash) == earlier.body(hash)
}

/// A head moved from `old_head` to `new_head` in the way the chain allows:
/// not at all, or to a chain of strictly greater score. The new head then
/// either builds on the old one or stands on another branch, never both.
pub open spec fn head_advanced(later: ChainView, old_head: H256, new_head: H256) -> bool {
    new_head == old_head || later.total_score(new_head) > later.total_score(old_head)
}

/// The route accounts for the change of a canonical chain from `before` to
/// `after`: it names no hash twice, what it enacts is on `after` and was not
/// on `before`, what it retracts was on `before` and is not on `after`, and
/// every other hash is on both or on neither.
pub open spec fn route_accounts(route: RouteView, before: Seq<H256>, after: Seq<H256>) -> bool {
    &&& route.is_simple()
    &&& forall|h: H256| #[trigger] route.enacted.contains(h) ==> after.contains(h) && !before.contains(h)
    &&& forall|h: H256|
        #[trigger] route.retracted.contains(h) ==> before.contains(h) && !after.contains(h)
    &&& forall|h: H256|
        !route.enacted.contains(h) && !route.retracted.contains(h) ==> (#[trigger] before.contains(
            h,
        ) <==> after.contains(h))
}

/// A route that enacts and retracts nothing accounts for a chain that did
/// not change.
pub proof fn lemma_still_accounts(route: RouteView, chain: Seq<H256>)
    requires
        route.enacted.len() == 0,
        route.retracted.len() == 0,
    ensures
        route_accounts(route, chain, chain),
{
    assert((route.enacted + route.retracted) =~= Seq::<H256>::empty());
}

/// A chain that takes one more header keeps all it knew.
pub proof fn lemma_push_extends(c: ChainView, h: Header)
    requires
        c.wf(),
        !c.contains(h.hash),
        c.contains(h.parent_hash),
    ensures
        extends(c, ChainView { headers: c.headers.push(h), ..c }),
        is_tree(c.headers.push(h)),
        index_of(c.headers.push(h), h.hash) == c.headers.len(),
{
    let grown = ChainView { headers: c.headers.push(h), ..c };
    lemma_push_is_tree(c.headers, h);
    lemma_index_of_push(c.headers, h, h.hash);
    assert forall|hash: H256| #[trigger] c.contains(hash) implies grown.contains(hash)
        && grown.header(hash) == c.header(hash) && grown.ancestry(hash) == c.ancestry(hash)
        && grown.total_score(hash) == c.total_score(hash) by {
        lemma_index_of_push(c.headers, h, hash);
        lemma_index_of(c.headers, hash);
        lemma_push_keeps(c.headers, h, index_of(c.headers, hash));
    }
}

/// The insert of a header keeps the chain well formed and all that was
/// known, leaves bodies and the best block alone, moves the best proposal
/// header only to a chain of greater score, and returns a route that
/// accounts for the change of the canonical chain of headers.
pub proof fn lemma_with_header(c: ChainView, h: Header)
    requires
        c.wf(),
    ensures
        c.with_header(h).0.wf(),
        extends(c, c.with_header(h).0),
        c.with_header(h).0.bodies == c.bodies,
        c.with_header(h).0.best_block == c.best_block,
        head_advanced(c.with_header(h).0, c.best_header, c.with_header(h).0.best_header),
        route_accounts(
            c.with_header(h).1,
            c.canonical_headers(),
            c.with_header(h).0.canonical_headers(),
        ),
        c.contains(h.parent_hash) ==> c.with_header(h).0.contains(h.hash),
        c.with_header(h).0.contains(h.hash) <==> c.contains(h.hash) || c.contains(h.parent_hash),
{
    let (d, r) = c.with_header(h);
    if c.contains(h.hash) || !c.contains(h.parent_hash) {
        lemma_still_accounts(r, c.canonical_headers());
    } else {
        let grown = ChainView { headers: c.headers.push(h), ..c };
        lemma_push_extends(c, h);
        assert forall|k: int| 0 <= k < d.bodies.len() implies d.contains(
            (#[trigger] d.bodies[k]).hash,
        ) && body_index(d.bodies, d.bodies[k].hash) == k by {
            assert(c.contains(c.bodies[k].hash));
        }
        assert(c.contains(c.best_header));
        assert(c.contains(c.best_block));
        lemma_index_of(c.headers, c.best_header);
        if grown.total_score(h.hash) > grown.total_score(c.best_header) {
            lemma_route_between(
                grown.headers,
                index_of(grown.headers, c.best_header),
                index_of(grown.headers, h.hash),
            );
            assert(d.canonical_headers() == grown.ancestry(h.hash));
            assert(c.canonical_headers() == grown.ancestry(c.best_header));
        } else {
            lemma_still_accounts(r, c.canonical_headers());
        }
    }
}

/// `extends` carries over two steps.
pub proof fn lemma_extends_trans(a: ChainView, b: ChainView, c: ChainView)
    requires
        extends(a, b),
        extends(b, c),
    ensures
        extends(a, c),
{
    assert forall|hash: H256| #[trigger] a.contains(hash) implies c.contains(hash) && c.header(
        hash,
    ) == a.header(hash) && c.ancestry(hash) == a.ancestry(hash) && c.total_score(hash)
        == a.total_score(hash) by {
        assert(b.contains(hash));
    }
    assert forall|hash: H256| #[trigger] a.has_body(hash) implies c.has_body(hash) && c.body(hash)
        == a.body(hash) by {
        assert(b.has_body(hash));
    }
}

/// Taking a body keeps the chain well formed and all that was known, leaves
/// the headers and the best proposal header alone, moves the best block
/// only to a chain of greater score, and returns a route that accounts for
/// the change of the canonical chain of blocks.
pub proof fn lemma_with_body(
    m: ChainView,
    hash: H256,
    bytes: Seq<u8>,
    invoices: Seq<Invoice>,
    may_lead: bool,
)
    requires
        m.wf(),
    ensures
        m.with_body(hash, bytes, invoices, may_lead).0.wf(),
        extends(m, m.with_body(hash, bytes, invoices, may_lead).0),
        m.with_body(hash, bytes, invoices, may_lead).0.headers == m.headers,
        m.with_body(hash, bytes, invoices, may_lead).0.best_header == m.best_header,
        head_advanced(
            m.with_body(hash, bytes, invoices, may_lead).0,
            m.best_block,
            m.with_body(hash, bytes, invoices, may_lead).0.best_block,
        ),
        route_accounts(
            m.with_body(hash, bytes, invoices, may_lead).1,
            m.canonical_blocks(),
            m.with_body(hash, bytes, invoices, may_lead).0.canonical_blocks(),
        ),
        m.with_body(hash, bytes, invoices, may_lead).0.has_body(hash) <==> m.has_body(hash)
            || m.ready_for_body(hash),
{
    let (d, r) = m.with_body(hash, bytes, invoices, may_lead);
    if !m.ready_for_body(hash) {
        lemma_still_accounts(r, m.canonical_blocks());
    } else {
        let b = BodyView { hash, bytes, invoices };
        let grown = ChainView { bodies: m.bodies.push(b), ..m };
        assert forall|k: int| 0 <= k < grown.bodies.len() implies grown.contains(
            (#[trigger] grown.bodies[k]).hash,
        ) && body_index(grown.bodies, grown.bodies[k].hash) == k by {
            lemma_body_index_push(m.bodies, b, grown.bodies[k].hash);
            if k < m.bodies.len() {
                assert(grown.bodies[k] == m.bodies[k]);
                assert(m.contains(m.bodies[k].hash));
            }
        }
        assert forall|x: H256| #[trigger] m.has_body(x) implies grown.has_body(x) && grown.body(x)
            == m.body(x) by {
            lemma_body_index_push(m.bodies, b, x);
            lemma_body_index(m.bodies, x);
        }
        lemma_body_index_push(m.bodies, b, hash);
        lemma_body_index_push(m.bodies, b, m.best_block);
        lemma_index_of(m.headers, m.best_block);
        lemma_index_of(m.headers, hash);
        if may_lead && grown.total_score(hash) > grown.total_score(m.best_block) {
            lemma_route_between(
                m.headers,
                index_of(m.headers, m.best_block),
                index_of(m.headers, hash),
            );
        } else {
            lemma_still_accounts(r, m.canonical_blocks());
        }
    }
}

/// The insert of a block keeps the chain well formed and all that was
/// known, moves either head only to a chain of greater score, and returns a
/// route that accounts for the change of the canonical chain of blocks.
pub proof fn lemma_with_block(
    c: ChainView,
    h: Header,
    bytes: Seq<u8>,
    invoices: Seq<Invoice>,
    may_lead: bool,
)
    requires
        c.wf(),
    ensures
        c.with_block(h, bytes, invoices, may_lead).0.wf(),
        extends(c, c.with_block(h, bytes, invoices, may_lead).0),
        head_advanced(
            c.with_block(h, bytes, invoices, may_lead).0,
            c.best_header,
            c.with_block(h, bytes, invoices, may_lead).0.best_header,
        ),
        head_advanced(
            c.with_block(h, bytes, invoices, may_lead).0,
            c.best_block,
            c.with_block(h, bytes, invoices, may_lead).0.best_block,
        ),
        route_accounts(
            c.with_block(h, bytes, invoices, may_lead).1,
            c.canonical_blocks(),
            c.with_block(h, bytes, invoices, may_lead).0.canonical_blocks(),
        ),
        c.with_block(h, bytes, invoices, may_lead).0.headers == c.with_header(h).0.headers,
        c.with_block(h, bytes, invoices, may_lead).0.best_header == c.with_header(h).0.best_header,
{
    let m = c.with_header(h).0;
    lemma_with_header(c, h);
    lemma_with_body(m, h.hash, bytes, invoices, may_lead);
    let d = m.with_body(h.hash, bytes, invoices, may_lead).0;
    lemma_extends_trans(c, m, d);
    assert(m.canonical_blocks() == c.canonical_blocks()) by {
        assert(c.contains(c.best_block));
    }
    assert(c.contains(c.best_header));
    assert(c.contains(c.best_block));
    assert(m.contains(m.best_header));
    assert(m.contains(m.best_block));
}

/// Idempotence of the chain store. The insert of a header that is known
/// changes nothing and returns the route that moves nothing; so does the
/// insert of a block whose body is known.
pub proof fn lemma_known_is_passed_over(
    c: ChainView,
    h: Header,
    bytes: Seq<u8>,
    invoices: Seq<Invoice>,
    may_lead: bool,
)
    requires
        c.wf(),
    ensures
        c.contains(h.hash) ==> c.with_header(h) == (c, RouteView::none()),
        c.has_body(h.hash) ==> c.with_block(h, bytes, invoices, may_lead) == (c, RouteView::none()),
{
    if c.has_body(h.hash) {
        lemma_body_index(c.bodies, h.hash);
        let k = body_index(c.bodies, h.hash);
        assert(c.contains(c.bodies[k].hash));
    }
}

} // verus!
