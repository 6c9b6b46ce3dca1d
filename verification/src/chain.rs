//! The chain store: the tree of known headers, the bodies, and the two head
//! pointers, in a pending state that inserts change and a published state
//! that readers see.

use vstd::prelude::*;
use kvdb::DBTransaction;
use crate::batch::{
    batch_ops, batch_put, ends_with, rlp_encode_list, rlp_list, Written, OP_INSERT,
};
use crate::chain_laws::{lemma_push_extends, lemma_with_body, lemma_with_header};
use crate::chain_view::{
    ancestry_at, body_index, index_of, is_tree, lemma_ancestry_shape, lemma_body_index,
    lemma_common_prefix, lemma_index_of, lemma_index_of_push, lemma_prefix_keeps,
    lemma_push_keeps, route_aside, route_between, score_at, BodyView, ChainView,
};
use crate::engine::CodeChainEngine;
use crate::hash::H256;
use crate::header::{Header, Invoice};
use crate::route::ImportRoute;

verus! {

/// The column of headers by hash.
pub const COL_HEADERS: u32 = 0;

/// The column of serialized blocks by hash.
pub const COL_BODIES: u32 = 1;

/// The column of invoices by block hash.
pub const COL_INVOICES: u32 = 2;

/// The column of the head pointers.
pub const COL_EXTRA: u32 = 3;

/// The key of the best proposal header in [`COL_EXTRA`].
pub open spec fn best_header_key() -> Seq<u8> {
    seq![0x68u8]
}

/// The key of the best block in [`COL_EXTRA`].
pub open spec fn best_block_key() -> Seq<u8> {
    seq![0x62u8]
}

/// One byte for each invoice: 1 for a success, 0 for a failure.
pub open spec fn invoice_bytes(invoices: Seq<Invoice>) -> Seq<u8> {
    Seq::new(invoices.len(), |i: int| if invoices[i] == Invoice::Success { 1u8 } else { 0u8 })
}

/// The rows that the insert of a header adds to the batch: none where the
/// insert changes nothing; else the header under its hash and, where it
/// became the best proposal header, the pointer to it.
pub open spec fn header_rows(c: ChainView, h: Header) -> Seq<(u8, u32, Seq<u8>, Seq<u8>)> {
    if c.contains(h.hash) || !c.contains(h.parent_hash) {
        Seq::empty()
    } else if c.with_header(h).0.best_header != c.best_header {
        seq![
            (OP_INSERT, COL_HEADERS, h.hash.bytes(), rlp_list(h.fields())),
            (OP_INSERT, COL_EXTRA, best_header_key(), h.hash.bytes()),
        ]
    } else {
        seq![(OP_INSERT, COL_HEADERS, h.hash.bytes(), rlp_list(h.fields()))]
    }
}

/// The rows that taking a body adds to the batch: none where no body was
/// taken; else the serialized block and the invoices under the block's hash
/// and, where it became the best block, the pointer to it.
pub open spec fn body_rows(
    m: ChainView,
    hash: H256,
    bytes: Seq<u8>,
    invoices: Seq<Invoice>,
    may_lead: bool,
) -> Seq<(u8, u32, Seq<u8>, Seq<u8>)> {
    if !m.ready_for_body(hash) {
        Seq::empty()
    } else if m.with_body(hash, bytes, invoices, may_lead).0.best_block != m.best_block {
        seq![
            (OP_INSERT, COL_BODIES, hash.bytes(), bytes),
            (OP_INSERT, COL_INVOICES, hash.bytes(), invoice_bytes(invoices)),
            (OP_INSERT, COL_EXTRA, best_block_key(), hash.bytes()),
        ]
    } else {
        seq![
            (OP_INSERT, COL_BODIES, hash.bytes(), bytes),
            (OP_INSERT, COL_INVOICES, hash.bytes(), invoice_bytes(invoices)),
        ]
    }
}

struct Entry {
    header: Header,
    /// The position of the parent; 0 for the genesis.
    parent: usize,
    /// The number of ancestors.
    height: usize,
    /// The score of the chain that ends here.
    total_score: u128,
}

struct Body {
    hash: H256,
    bytes: Vec<u8>,
    invoices: Vec<Invoice>,
}

#[derive(Clone, Copy)]
struct Heads {
    headers: usize,
    bodies: usize,
    best_header: usize,
    best_block: usize,
}

/// The chain store.
pub struct BlockChain {
    entries: Vec<Entry>,
    bodies: Vec<Body>,
    published: Heads,
    pending: Heads,
    /// The rows that the inserts since the last commit added to batches.
    unwritten: Ghost<Seq<(u8, u32, Seq<u8>, Seq<u8>)>>,
}

spec fn headers_of(entries: Seq<Entry>) -> Seq<Header> {
    Seq::new(entries.len(), |i: int| entries[i].header)
}

spec fn bodies_of(bodies: Seq<Body>) -> Seq<BodyView> {
    Seq::new(
        bodies.len(),
        |i: int| BodyView { hash: bodies[i].hash, bytes: bodies[i].bytes@, invoices: bodies[i].invoices@ },
    )
}

spec fn view_at(entries: Seq<Entry>, bodies: Seq<Body>, heads: Heads) -> ChainView {
    ChainView {
        headers: headers_of(entries).subrange(0, heads.headers as int),
        bodies: bodies_of(bodies).subrange(0, heads.bodies as int),
        best_header: entries[heads.best_header as int].header.hash,
        best_block: entries[heads.best_block as int].header.hash,
    }
}

/// The cached fields of every entry agree with the tree.
spec fn cache_ok(entries: Seq<Entry>) -> bool {
    forall|i: int|
        0 <= i < entries.len() ==> {
            let e = #[trigger] entries[i];
            &&& e.height + 1 == ancestry_at(headers_of(entries), i).len()
            &&& e.total_score == score_at(headers_of(entries), i)
            &&& i >= 1 ==> e.parent == index_of(headers_of(entries), e.header.parent_hash)
        }
}

/// The score of a chain of `i + 1` headers is at most `i + 1` times the
/// greatest score of one header.
proof fn lemma_score_bound(headers: Seq<Header>, i: int)
    requires
        0 <= i < headers.len(),
    ensures
        0 <= score_at(headers, i) <= (i + 1) * 0xffff_ffff_ffff_ffff,
    decreases i,
{
    let p = index_of(headers, headers[i].parent_hash);
    if 0 <= p < i {
        lemma_score_bound(headers, p);
        assert((p + 1) * 0xffff_ffff_ffff_ffff + 0xffff_ffff_ffff_ffff <= (i + 1)
            * 0xffff_ffff_ffff_ffff) by (nonlinear_arith)
            requires
                0 <= p < i,
        ;
    } else {
        assert(0xffff_ffff_ffff_ffff <= (i + 1) * 0xffff_ffff_ffff_ffff) by (nonlinear_arith)
            requires
                0 <= i,
        ;
    }
}

/// The first position that holds a hash is the one that `index_of` finds.
proof fn lemma_first_is_index(headers: Seq<Header>, hash: H256, i: int)
    requires
        0 <= i < headers.len(),
        headers[i].hash == hash,
        forall|j: int| 0 <= j < i ==> (#[trigger] headers[j]).hash != hash,
    ensures
        index_of(headers, hash) == i,
    decreases headers.len(),
{
    if i < headers.len() - 1 {
        assert(headers.drop_last()[i] == headers[i]);
        assert forall|j: int| 0 <= j < i implies (#[trigger] headers.drop_last()[j]).hash
            != hash by {
            assert(headers.drop_last()[j] == headers[j]);
        }
        lemma_first_is_index(headers.drop_last(), hash, i);
    } else {
        lemma_index_of(headers.drop_last(), hash);
        if index_of(headers.drop_last(), hash) >= 0 {
            let r = index_of(headers.drop_last(), hash);
            assert(headers.drop_last()[r] == headers[r]);
        }
    }
}

/// The first position that holds a body's hash is the one that `body_index`
/// finds.
proof fn lemma_first_is_body_index(bodies: Seq<BodyView>, hash: H256, i: int)
    requires
        0 <= i < bodies.len(),
        bodies[i].hash == hash,
        forall|j: int| 0 <= j < i ==> (#[trigger] bodies[j]).hash != hash,
    ensures
        body_index(bodies, hash) == i,
    decreases bodies.len(),
{
    if i < bodies.len() - 1 {
        assert(bodies.drop_last()[i] == bodies[i]);
        assert forall|j: int| 0 <= j < i implies (#[trigger] bodies.drop_last()[j]).hash
            != hash by {
            assert(bodies.drop_last()[j] == bodies[j]);
        }
        lemma_first_is_body_index(bodies.drop_last(), hash, i);
    } else {
        lemma_body_index(bodies.drop_last(), hash);
        if body_index(bodies.drop_last(), hash) >= 0 {
            let r = body_index(bodies.drop_last(), hash);
            assert(bodies.drop_last()[r] == bodies[r]);
        }
    }
}

/// One step towards the genesis from an entry that has ancestors.
proof fn lemma_step_up(entries: Seq<Entry>, x: int)
    requires
        is_tree(headers_of(entries)),
        cache_ok(entries),
        0 <= x < entries.len(),
        entries[x].height > 0 || x > 0,
    ensures
        x >= 1,
        0 <= entries[x].parent < x,
        ancestry_at(headers_of(entries), x) == ancestry_at(
            headers_of(entries),
            entries[x].parent as int,
        ).push(entries[x].header.hash),
        entries[entries[x].parent as int].height + 1 == entries[x].height,
{
    let hs = headers_of(entries);
    assert(hs[x] == entries[x].header);
    if x == 0 {
        let p = index_of(hs, hs[0].parent_hash);
        assert(!(0 <= p < 0));
        assert(ancestry_at(hs, 0).len() == 1);
    } else {
        let p = index_of(hs, hs[x].parent_hash);
        assert(0 <= p < x);
        assert(entries[x].parent == p);
        let e = entries[p];
    }
}

/// One byte for each invoice: 1 for a success, 0 for a failure.
fn encode_invoices(invoices: &Vec<Invoice>) -> (out: Vec<u8>)
    ensures
        out@ == invoice_bytes(invoices@),
{
    let mut out: Vec<u8> = Vec::new();
    let mut i: usize = 0;
    while i < invoices.len()
        invariant
            i <= invoices@.len(),
            out@ == invoice_bytes(invoices@.subrange(0, i as int)),
        decreases invoices@.len() - i,
    {
        let byte: u8 = match invoices[i] {
            Invoice::Success => 1,
            Invoice::Failure => 0,
        };
        out.push(byte);
        proof {
            assert(out@ =~= invoice_bytes(invoices@.subrange(0, i + 1)));
        }
        i = i + 1;
    }
    proof {
        assert(invoices@.subrange(0, invoices@.len() as int) =~= invoices@);
        assert(invoice_bytes(Seq::<Invoice>::empty()) =~= Seq::<u8>::empty());
    }
    out
}

fn reversed(v: &Vec<H256>) -> (out: Vec<H256>)
    ensures
        out@ == v@.reverse(),
{
    let mut out: Vec<H256> = Vec::new();
    let mut i: usize = v.len();
    while i > 0
        invariant
            i <= v@.len(),
            out@.len() == v@.len() - i,
            forall|j: int| 0 <= j < out@.len() ==> out@[j] == v@[v@.len() - 1 - j],
        decreases i,
    {
        i = i - 1;
        out.push(v[i]);
    }
    assert(out@ =~= v@.reverse());
    out
}

impl BlockChain {
    /// What readers see: the state as of the last commit.
    pub closed spec fn published(&self) -> ChainView {
        view_at(self.entries@, self.bodies@, self.published)
    }

    /// What the next commit will publish.
    pub closed spec fn pending(&self) -> ChainView {
        view_at(self.entries@, self.bodies@, self.pending)
    }

    /// Both states are well formed, and the store's own bookkeeping agrees
    /// with them.
    pub closed spec fn wf(&self) -> bool {
        &&& self.pending.headers == self.entries@.len()
        &&& self.pending.bodies == self.bodies@.len()
        &&& self.pending.best_header < self.entries@.len()
        &&& self.pending.best_block < self.entries@.len()
        &&& 1 <= self.published.headers <= self.entries@.len()
        &&& self.published.bodies <= self.bodies@.len()
        &&& self.published.best_header < self.published.headers
        &&& self.published.best_block < self.published.headers
        &&& self.published().wf()
        &&& self.pending().wf()
        &&& cache_ok(self.entries@)
    }

    /// A well-formed store shows well-formed states.
    pub proof fn lemma_wf(&self)
        requires
            self.wf(),
        ensures
            self.published().wf(),
            self.pending().wf(),
    {
    }

    /// The rows that the inserts since the last commit added to batches. A
    /// commit asks for the receipt of a write that ends with them.
    pub closed spec fn unwritten(&self) -> Seq<(u8, u32, Seq<u8>, Seq<u8>)> {
        self.unwritten@
    }

    /// Nothing is waiting for a commit.
    pub closed spec fn is_committed(&self) -> bool {
        self.published == self.pending && self.unwritten@.len() == 0
    }

    /// Where nothing waits for a commit, readers see the pending state.
    pub proof fn lemma_committed(&self)
        requires
            self.is_committed(),
        ensures
            self.published() == self.pending(),
            self.unwritten() == Seq::<(u8, u32, Seq<u8>, Seq<u8>)>::empty(),
    {
        assert(self.unwritten@ =~= Seq::<(u8, u32, Seq<u8>, Seq<u8>)>::empty());
    }

    /// A chain that holds the genesis block alone.
    pub fn new(genesis: Header, genesis_bytes: Vec<u8>) -> (chain: BlockChain)
        ensures
            chain.wf(),
            chain.is_committed(),
            chain.published() == (ChainView {
                headers: seq![genesis],
                bodies: seq![
                    BodyView { hash: genesis.hash, bytes: genesis_bytes@, invoices: Seq::empty() },
                ],
                best_header: genesis.hash,
                best_block: genesis.hash,
            }),
    {
        let mut entries: Vec<Entry> = Vec::new();
        entries.push(
            Entry { header: genesis, parent: 0, height: 0, total_score: genesis.score as u128 },
        );
        let mut bodies: Vec<Body> = Vec::new();
        bodies.push(Body { hash: genesis.hash, bytes: genesis_bytes, invoices: Vec::new() });
        let heads = Heads { headers: 1, bodies: 1, best_header: 0, best_block: 0 };
        let chain = BlockChain {
            entries,
            bodies,
            published: heads,
            pending: heads,
            unwritten: Ghost(Seq::empty()),
        };
        proof {
            let hs = seq![genesis];
            let bs = seq![
                BodyView { hash: genesis.hash, bytes: genesis_bytes@, invoices: Seq::empty() },
            ];
            assert(headers_of(chain.entries@) =~= hs);
            assert(hs.subrange(0, 1) =~= hs);
            assert(chain.bodies@[0].invoices@ =~= Seq::<Invoice>::empty());
            assert(bodies_of(chain.bodies@) =~= bs);
            assert(bs.subrange(0, 1) =~= bs);
            assert(hs.drop_last() =~= Seq::<Header>::empty());
            assert(bs.drop_last() =~= Seq::<BodyView>::empty());
            lemma_first_is_index(hs, genesis.hash, 0);
            lemma_first_is_body_index(bs, genesis.hash, 0);
            lemma_index_of(hs, genesis.parent_hash);
            assert(ancestry_at(hs, 0).len() == 1);
        }
        chain
    }

    /// The position of `hash` among the first `limit` headers.
    fn find(&self, hash: H256, limit: usize) -> (at: Option<usize>)
        requires
            limit <= self.entries@.len(),
        ensures
            match at {
                Some(i) => i < limit && index_of(
                    headers_of(self.entries@).subrange(0, limit as int),
                    hash,
                ) == i,
                None => index_of(headers_of(self.entries@).subrange(0, limit as int), hash) < 0,
            },
    {
        let ghost hs = headers_of(self.entries@).subrange(0, limit as int);
        let mut i: usize = 0;
        while i < limit
            invariant
                i <= limit <= self.entries@.len(),
                hs == headers_of(self.entries@).subrange(0, limit as int),
                forall|j: int| 0 <= j < i ==> (#[trigger] hs[j]).hash != hash,
            decreases limit - i,
        {
            if self.entries[i].header.hash == hash {
                proof {
                    lemma_first_is_index(hs, hash, i as int);
                }
                return Some(i);
            }
            i = i + 1;
        }
        proof {
            lemma_index_of(hs, hash);
            if index_of(hs, hash) >= 0 {
                assert(hs[index_of(hs, hash)].hash == hash);
            }
        }
        None
    }

    /// The position of the body of `hash` among the first `limit` bodies.
    fn find_body(&self, hash: H256, limit: usize) -> (at: Option<usize>)
        requires
            limit <= self.bodies@.len(),
        ensures
            match at {
                Some(i) => i < limit && body_index(
                    bodies_of(self.bodies@).subrange(0, limit as int),
                    hash,
                ) == i,
                None => body_index(bodies_of(self.bodies@).subrange(0, limit as int), hash) < 0,
            },
    {
        let ghost bs = bodies_of(self.bodies@).subrange(0, limit as int);
        let mut i: usize = 0;
        while i < limit
            invariant
                i <= limit <= self.bodies@.len(),
                bs == bodies_of(self.bodies@).subrange(0, limit as int),
                forall|j: int| 0 <= j < i ==> (#[trigger] bs[j]).hash != hash,
            decreases limit - i,
        {
            if self.bodies[i].hash == hash {
                proof {
                    lemma_first_is_body_index(bs, hash, i as int);
                }
                return Some(i);
            }
            i = i + 1;
        }
        proof {
            lemma_body_index(bs, hash);
            if body_index(bs, hash) >= 0 {
                assert(bs[body_index(bs, hash)].hash == hash);
            }
        }
        None
    }

    /// The header with this hash, as readers see the chain.
    pub fn block_header(&self, hash: &H256) -> (found: Option<Header>)
        requires
            self.wf(),
        ensures
            found is Some <==> self.published().contains(*hash),
            found is Some ==> found->Some_0 == self.published().header(*hash),
    {
        match self.find(*hash, self.published.headers) {
            Some(i) => Some(self.entries[i].header),
            None => None,
        }
    }

    /// Whether the header with this hash is known, as readers see the chain.
    pub fn is_known_header(&self, hash: &H256) -> (known: bool)
        requires
            self.wf(),
        ensures
            known == self.published().contains(*hash),
    {
        self.find(*hash, self.published.headers).is_some()
    }

    /// The serialized block with this hash, as readers see the chain.
    pub fn block_body(&self, hash: &H256) -> (found: Option<Vec<u8>>)
        requires
            self.wf(),
        ensures
            found is Some <==> self.published().has_body(*hash),
            found is Some ==> found->Some_0@ == self.published().body(*hash).bytes,
    {
        match self.find_body(*hash, self.published.bodies) {
            Some(i) => Some(self.bodies[i].bytes.clone()),
            None => None,
        }
    }

    /// Whether the block with this hash has its body, as readers see the
    /// chain.
    pub fn is_known_body(&self, hash: &H256) -> (known: bool)
        requires
            self.wf(),
        ensures
            known == self.published().has_body(*hash),
    {
        self.find_body(*hash, self.published.bodies).is_some()
    }

    /// The hash of the best block, as readers see the chain.
    pub fn best_block_hash(&self) -> (hash: H256)
        requires
            self.wf(),
        ensures
            hash == self.published().best_block,
    {
        self.entries[self.published.best_block].header.hash
    }

    /// The best proposal header, as readers see the chain.
    pub fn best_proposal_header(&self) -> (header: Header)
        requires
            self.wf(),
        ensures
            header.hash == self.published().best_header,
            header == self.published().header(self.published().best_header),
    {
        proof {
            let hs = self.published().headers;
            assert(hs[self.published.best_header as int] == self.entries@[self.published.best_header as int].header);
        }
        self.entries[self.published.best_header].header
    }

    /// The route from the entry at `from` to the entry at `to`.
    fn route(&self, from: usize, to: usize) -> (route: ImportRoute)
        requires
            is_tree(headers_of(self.entries@)),
            cache_ok(self.entries@),
            from < self.entries@.len(),
            to < self.entries@.len(),
        ensures
            route@ == route_between(
                ancestry_at(headers_of(self.entries@), from as int),
                ancestry_at(headers_of(self.entries@), to as int),
            ),
    {
        let ghost hs = headers_of(self.entries@);
        let ghost a = ancestry_at(hs, from as int);
        let ghost b = ancestry_at(hs, to as int);
        let mut x: usize = from;
        let mut y: usize = to;
        let mut retracted: Vec<H256> = Vec::new();
        let mut enacted: Vec<H256> = Vec::new();
        proof {
            assert(a =~= ancestry_at(hs, x as int) + retracted@.reverse());
            assert(b =~= ancestry_at(hs, y as int) + enacted@.reverse());
        }
        if self.entries[x].height > self.entries[y].height {
            while self.entries[x].height > self.entries[y].height
                invariant
                    x < self.entries@.len(),
                    y < self.entries@.len(),
                    hs == headers_of(self.entries@),
                    is_tree(hs),
                    cache_ok(self.entries@),
                    a == ancestry_at(hs, x as int) + retracted@.reverse(),
                    b == ancestry_at(hs, y as int) + enacted@.reverse(),
                    enacted@.len() == 0,
                    self.entries@[x as int].height >= self.entries@[y as int].height,
                decreases self.entries@[x as int].height,
            {
                proof {
                    lemma_step_up(self.entries@, x as int);
                }
                let ghost before = retracted@;
                let hash = self.entries[x].header.hash;
                retracted.push(hash);
                proof {
                    assert(retracted@.reverse() =~= seq![hash] + before.reverse());
                    assert(ancestry_at(hs, self.entries@[x as int].parent as int).push(hash)
                        + before.reverse() =~= ancestry_at(
                        hs,
                        self.entries@[x as int].parent as int,
                    ) + retracted@.reverse());
                }
                x = self.entries[x].parent;
            }
        } else {
            while self.entries[y].height > self.entries[x].height
                invariant
                    x < self.entries@.len(),
                    y < self.entries@.len(),
                    hs == headers_of(self.entries@),
                    is_tree(hs),
                    cache_ok(self.entries@),
                    a == ancestry_at(hs, x as int) + retracted@.reverse(),
                    b == ancestry_at(hs, y as int) + enacted@.reverse(),
                    retracted@.len() == 0,
                    self.entries@[y as int].height >= self.entries@[x as int].height,
                decreases self.entries@[y as int].height,
            {
                proof {
                    lemma_step_up(self.entries@, y as int);
                }
                let ghost before = enacted@;
                let hash = self.entries[y].header.hash;
                enacted.push(hash);
                proof {
                    assert(enacted@.reverse() =~= seq![hash] + before.reverse());
                    assert(ancestry_at(hs, self.entries@[y as int].parent as int).push(hash)
                        + before.reverse() =~= ancestry_at(
                        hs,
                        self.entries@[y as int].parent as int,
                    ) + enacted@.reverse());
                }
                y = self.entries[y].parent;
            }
        }
        while x != y
            invariant
                x < self.entries@.len(),
                y < self.entries@.len(),
                hs == headers_of(self.entries@),
                is_tree(hs),
                cache_ok(self.entries@),
                a == ancestry_at(hs, x as int) + retracted@.reverse(),
                b == ancestry_at(hs, y as int) + enacted@.reverse(),
                self.entries@[y as int].height == self.entries@[x as int].height,
                retracted@.len() == 0 || enacted@.len() == 0 || retracted@.last() != enacted@.last(),
            decreases self.entries@[x as int].height,
        {
            proof {
                if x > 0 {
                    lemma_step_up(self.entries@, x as int);
                }
                if y > 0 {
                    lemma_step_up(self.entries@, y as int);
                }
                lemma_step_up(self.entries@, x as int);
                lemma_step_up(self.entries@, y as int);
                assert(hs[x as int] == self.entries@[x as int].header);
                assert(hs[y as int] == self.entries@[y as int].header);
            }
            let ghost r_before = retracted@;
            let ghost e_before = enacted@;
            let hx = self.entries[x].header.hash;
            let hy = self.entries[y].header.hash;
            retracted.push(hx);
            enacted.push(hy);
            proof {
                assert(retracted@.reverse() =~= seq![hx] + r_before.reverse());
                assert(enacted@.reverse() =~= seq![hy] + e_before.reverse());
                assert(ancestry_at(hs, self.entries@[x as int].parent as int).push(hx)
                    + r_before.reverse() =~= ancestry_at(hs, self.entries@[x as int].parent as int)
                    + retracted@.reverse());
                assert(ancestry_at(hs, self.entries@[y as int].parent as int).push(hy)
                    + e_before.reverse() =~= ancestry_at(hs, self.entries@[y as int].parent as int)
                    + enacted@.reverse());
            }
            x = self.entries[x].parent;
            y = self.entries[y].parent;
        }
        let up = reversed(&enacted);
        let down = reversed(&retracted);
        proof {
            let common = ancestry_at(hs, x as int);
            let n = common.len() as int;
            assert forall|j: int| 0 <= j < n implies a[j] == b[j] by {
                assert(a[j] == common[j]);
                assert(b[j] == common[j]);
            }
            if n < a.len() && n < b.len() {
                assert(a[n] == retracted@.reverse()[0]);
                assert(b[n] == enacted@.reverse()[0]);
            }
            lemma_common_prefix(a, b, n, 0);
            assert(a.subrange(n, a.len() as int) =~= down@);
            assert(b.subrange(n, b.len() as int) =~= up@);
        }
        ImportRoute { enacted: up, retracted: down, omitted: Vec::new() }
    }

    /// Inserts a header into the pending state and adds its rows to the
    /// batch. A header that is known, or whose parent is not, changes
    /// nothing.
    pub fn insert_header(&mut self, batch: &mut DBTransaction, header: &Header) -> (route:
        ImportRoute)
        requires
            old(self).wf(),
        ensures
            final(self).wf(),
            final(self).published() == old(self).published(),
            final(self).pending() == old(self).pending().with_header(*header).0,
            route@ == old(self).pending().with_header(*header).1,
            batch_ops(*final(batch)) == batch_ops(*old(batch)) + header_rows(
                old(self).pending(),
                *header,
            ),
            final(self).unwritten() == old(self).unwritten() + header_rows(
                old(self).pending(),
                *header,
            ),
    {
        let ghost c = self.pending();
        let ghost hs = headers_of(self.entries@);
        let ghost old_entries = self.entries@;
        let ghost old_published = self.published();
        proof {
            assert(self.unwritten@ + Seq::<(u8, u32, Seq<u8>, Seq<u8>)>::empty()
                =~= self.unwritten@);
            assert(c.headers =~= hs);
            assert(batch_ops(*batch) + Seq::<(u8, u32, Seq<u8>, Seq<u8>)>::empty() =~= batch_ops(
                *batch,
            ));
        }
        if self.find(header.hash, self.pending.headers).is_some() {
            return ImportRoute::none();
        }
        let p = match self.find(header.parent_hash, self.pending.headers) {
            Some(p) => p,
            None => {
                return ImportRoute::none();
            },
        };
        let best = self.pending.best_header;
        proof {
            lemma_score_bound(hs, p as int);
            lemma_ancestry_shape(hs, p as int);
            lemma_push_extends(c, *header);
            lemma_with_header(c, *header);
            assert(hs[best as int] == self.entries@[best as int].header);
            assert(hs[p as int] == self.entries@[p as int].header);
        }
        let height = self.entries[p].height + 1;
        let total = self.entries[p].total_score + header.score as u128;
        let best_total = self.entries[best].total_score;
        let at = self.entries.len();
        self.entries.push(Entry { header: *header, parent: p, height, total_score: total });
        self.pending.headers = self.entries.len();
        let ghost grown = headers_of(self.entries@);
        proof {
            assert(grown =~= hs.push(*header));
            assert(grown.subrange(0, at + 1) =~= grown);
            assert(headers_of(self.entries@).subrange(0, self.published.headers as int)
                =~= headers_of(old_entries).subrange(0, self.published.headers as int));
            assert(self.published() == old_published);
            lemma_index_of_push(hs, *header, header.parent_hash);
            lemma_index_of_push(hs, *header, header.hash);
            lemma_push_keeps(hs, *header, p as int);
            assert forall|i: int| 0 <= i < self.entries@.len() implies {
                let e = #[trigger] self.entries@[i];
                &&& e.height + 1 == ancestry_at(grown, i).len()
                &&& e.total_score == score_at(grown, i)
                &&& i >= 1 ==> e.parent == index_of(grown, e.header.parent_hash)
            } by {
                if i < at {
                    assert(self.entries@[i] == old_entries[i]);
                    lemma_push_keeps(hs, *header, i);
                    lemma_index_of_push(hs, *header, old_entries[i].header.parent_hash);
                    assert(hs[i] == old_entries[i].header);
                }
            }
            lemma_index_of_push(hs, *header, hs[best as int].hash);
            lemma_push_keeps(hs, *header, best as int);
        }
        let key = header.hash.to_bytes();
        let fields = header.to_fields();
        let value = rlp_encode_list(&fields);
        batch_put(batch, COL_HEADERS, &key, &value);
        self.unwritten = Ghost(self.unwritten@ + header_rows(c, *header));
        if total > best_total {
            let route = self.route(best, at);
            self.pending.best_header = at;
            let mut pointer: Vec<u8> = Vec::new();
            pointer.push(0x68u8);
            batch_put(batch, COL_EXTRA, &pointer, &key);
            proof {
                assert(pointer@ =~= best_header_key());
                assert(batch_ops(*batch) =~= batch_ops(*old(batch)) + header_rows(c, *header));
                assert(self.pending().headers =~= c.with_header(*header).0.headers);
                assert(self.pending().bodies =~= c.with_header(*header).0.bodies);
            }
            route
        } else {
            let mut omitted: Vec<H256> = Vec::new();
            omitted.push(header.hash);
            let route = ImportRoute { enacted: Vec::new(), retracted: Vec::new(), omitted };
            proof {
                assert(batch_ops(*batch) =~= batch_ops(*old(batch)) + header_rows(c, *header));
                assert(self.pending().headers =~= c.with_header(*header).0.headers);
                assert(self.pending().bodies =~= c.with_header(*header).0.bodies);
                assert(route@.omitted =~= route_aside(header.hash).omitted);
                assert(route@.enacted =~= route_aside(header.hash).enacted);
                assert(route@.retracted =~= route_aside(header.hash).retracted);
            }
            route
        }
    }

    /// Gives the header with this hash its body, in the pending state, and
    /// adds the rows to the batch.
    fn insert_body(
        &mut self,
        batch: &mut DBTransaction,
        hash: H256,
        bytes: &Vec<u8>,
        invoices: Vec<Invoice>,
        lead: bool,
    ) -> (route: ImportRoute)
        requires
            old(self).wf(),
        ensures
            final(self).wf(),
            final(self).published() == old(self).published(),
            final(self).pending() == old(self).pending().with_body(hash, bytes@, invoices@, lead).0,
            route@ == old(self).pending().with_body(hash, bytes@, invoices@, lead).1,
            batch_ops(*final(batch)) == batch_ops(*old(batch)) + body_rows(
                old(self).pending(),
                hash,
                bytes@,
                invoices@,
                lead,
            ),
            final(self).unwritten() == old(self).unwritten() + body_rows(
                old(self).pending(),
                hash,
                bytes@,
                invoices@,
                lead,
            ),
    {
        let ghost inv = invoices@;
        proof {
            assert(self.unwritten@ + Seq::<(u8, u32, Seq<u8>, Seq<u8>)>::empty()
                =~= self.unwritten@);
        }
        let ghost m = self.pending();
        let ghost hs = headers_of(self.entries@);
        let ghost old_bodies = self.bodies@;
        let ghost old_published = self.published();
        let ghost mid_ops = batch_ops(*batch);
        proof {
            lemma_with_body(m, hash, bytes@, inv, lead);
            assert(m.headers =~= hs);
            assert(m.bodies =~= bodies_of(self.bodies@));
            assert(mid_ops + Seq::<(u8, u32, Seq<u8>, Seq<u8>)>::empty() =~= mid_ops);
        }
        let at = match self.find(hash, self.pending.headers) {
            Some(i) => i,
            None => {
                return ImportRoute::none();
            },
        };
        proof {
            assert(hs[at as int] == self.entries@[at as int].header);
            lemma_index_of(hs, hash);
        }
        if self.find_body(hash, self.pending.bodies).is_some() {
            return ImportRoute::none();
        }
        let parent_hash = self.entries[at].header.parent_hash;
        if self.find_body(parent_hash, self.pending.bodies).is_none() {
            return ImportRoute::none();
        }
        let best = self.pending.best_block;
        let key = hash.to_bytes();
        let receipts = encode_invoices(&invoices);
        self.bodies.push(Body { hash, bytes: bytes.clone(), invoices });
        self.pending.bodies = self.bodies.len();
        batch_put(batch, COL_BODIES, &key, bytes);
        batch_put(batch, COL_INVOICES, &key, &receipts);
        self.unwritten = Ghost(self.unwritten@ + body_rows(m, hash, bytes@, inv, lead));
        let ghost body = BodyView { hash, bytes: bytes@, invoices: inv };
        proof {
            assert(bodies_of(self.bodies@) =~= m.bodies.push(body));
            assert(bodies_of(self.bodies@).subrange(0, self.bodies@.len() as int) =~= bodies_of(
                self.bodies@,
            ));
            assert(bodies_of(self.bodies@).subrange(0, self.published.bodies as int) =~= bodies_of(
                old_bodies,
            ).subrange(0, self.published.bodies as int));
            assert(self.published() == old_published);
            assert(hs[best as int] == self.entries@[best as int].header);
            assert(hs.subrange(0, hs.len() as int) =~= hs);
        }
        if lead && self.entries[at].total_score > self.entries[best].total_score {
            let route = self.route(best, at);
            self.pending.best_block = at;
            let mut pointer: Vec<u8> = Vec::new();
            pointer.push(0x62u8);
            batch_put(batch, COL_EXTRA, &pointer, &key);
            proof {
                assert(pointer@ =~= best_block_key());
                assert(batch_ops(*batch) =~= mid_ops + body_rows(m, hash, bytes@, inv, lead));
                assert(self.pending().headers =~= m.with_body(hash, bytes@, inv, lead).0.headers);
                assert(self.pending().bodies =~= m.with_body(hash, bytes@, inv, lead).0.bodies);
            }
            route
        } else {
            let mut omitted: Vec<H256> = Vec::new();
            omitted.push(hash);
            let route = ImportRoute { enacted: Vec::new(), retracted: Vec::new(), omitted };
            proof {
                assert(batch_ops(*batch) =~= mid_ops + body_rows(m, hash, bytes@, inv, lead));
                assert(self.pending().headers =~= m.with_body(hash, bytes@, inv, lead).0.headers);
                assert(self.pending().bodies =~= m.with_body(hash, bytes@, inv, lead).0.bodies);
                assert(route@.omitted =~= route_aside(hash).omitted);
                assert(route@.enacted =~= route_aside(hash).enacted);
                assert(route@.retracted =~= route_aside(hash).retracted);
            }
            route
        }
    }

    /// Inserts a block into the pending state and adds its rows to the
    /// batch. The header is inserted first, as by [`Self::insert_header`];
    /// the body is taken where the header is known, has no body yet, and
    /// its parent has one.
    pub fn insert_block<E: CodeChainEngine>(
        &mut self,
        batch: &mut DBTransaction,
        header: &Header,
        bytes: &Vec<u8>,
        invoices: Vec<Invoice>,
        engine: &E,
    ) -> (route: ImportRoute)
        requires
            old(self).wf(),
        ensures
            final(self).wf(),
            final(self).published() == old(self).published(),
            final(self).pending() == old(self).pending().with_block(
                *header,
                bytes@,
                invoices@,
                engine.may_lead(*header),
            ).0,
            route@ == old(self).pending().with_block(
                *header,
                bytes@,
                invoices@,
                engine.may_lead(*header),
            ).1,
            batch_ops(*final(batch)) == batch_ops(*old(batch)) + header_rows(
                old(self).pending(),
                *header,
            ) + body_rows(
                old(self).pending().with_header(*header).0,
                header.hash,
                bytes@,
                invoices@,
                engine.may_lead(*header),
            ),
            final(self).unwritten() == old(self).unwritten() + header_rows(
                old(self).pending(),
                *header,
            ) + body_rows(
                old(self).pending().with_header(*header).0,
                header.hash,
                bytes@,
                invoices@,
                engine.may_lead(*header),
            ),
    {
        let _ = self.insert_header(batch, header);
        let lead = engine.can_change_canon_chain(header);
        self.insert_body(batch, header.hash, bytes, invoices, lead)
    }

    /// The hash of the canonical header with this number of ancestors, as
    /// readers see the chain; `None` past the best proposal header.
    pub fn block_hash(&self, number: u64) -> (found: Option<H256>)
        requires
            self.wf(),
        ensures
            found == if number < self.published().canonical_headers().len() {
                Some(self.published().canonical_headers()[number as int])
            } else {
                None
            },
    {
        let ghost all = headers_of(self.entries@);
        let ghost view = self.published();
        let ghost canon = view.canonical_headers();
        let mut x: usize = self.published.best_header;
        proof {
            assert(all.subrange(0, all.len() as int) =~= all);
            assert(self.pending().headers =~= all);
            assert(view.headers[x as int] == self.entries@[x as int].header);
            lemma_prefix_keeps(all, self.published.headers as int, x as int);
            assert(canon == ancestry_at(all, x as int));
            assert(canon.subrange(0, canon.len() as int) =~= canon);
        }
        if number > self.entries[x].height as u64 {
            return None;
        }
        while self.entries[x].height as u64 > number
            invariant
                x < self.entries@.len(),
                all == headers_of(self.entries@),
                is_tree(all),
                cache_ok(self.entries@),
                number <= self.entries@[x as int].height,
                self.entries@[x as int].height + 1 <= canon.len(),
                ancestry_at(all, x as int) == canon.subrange(
                    0,
                    self.entries@[x as int].height + 1,
                ),
            decreases self.entries@[x as int].height,
        {
            proof {
                lemma_step_up(self.entries@, x as int);
                let p = self.entries@[x as int].parent as int;
                assert(ancestry_at(all, p) =~= ancestry_at(all, x as int).drop_last());
                assert(ancestry_at(all, p) =~= canon.subrange(0, self.entries@[p].height + 1));
            }
            x = self.entries[x].parent;
        }
        proof {
            lemma_ancestry_shape(all, x as int);
            assert(all[x as int] == self.entries@[x as int].header);
            assert(ancestry_at(all, x as int).last() == canon[number as int]);
        }
        Some(self.entries[x].header.hash)
    }

    /// Publishes the pending state. The rows of the inserts since the last
    /// commit must have been written: the receipt is that of a write that
    /// ends with them.
    pub fn commit(&mut self, written: Written)
        requires
            old(self).wf(),
            ends_with(written.ops(), old(self).unwritten()),
        ensures
            final(self).wf(),
            final(self).is_committed(),
            final(self).published() == old(self).pending(),
            final(self).pending() == old(self).pending(),
    {
        let _ = written;
        self.published = self.pending;
        self.unwritten = Ghost(Seq::empty());
    }
}

} // verus!
