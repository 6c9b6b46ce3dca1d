//! The chain as a mathematical value: the known headers in the order in
//! which they arrived, the known bodies, and the two head pointers; with the
//! functions that say what an insert does to it.

use vstd::prelude::*;
use crate::hash::H256;
use crate::header::{Header, Invoice};
use crate::route::RouteView;

verus! {

/// The body of a block as the chain keeps it.
pub struct BodyView {
    pub hash: H256,
    pub bytes: Seq<u8>,
    pub invoices: Seq<Invoice>,
}

/// What a reader of the chain can see.
pub struct ChainView {
    /// The known headers in the order of their arrival. The first is the
    /// genesis header.
    pub headers: Seq<Header>,
    /// The known bodies in the order of their arrival.
    pub bodies: Seq<BodyView>,
    /// The hash of the best proposal header: the tip of the best chain of
    /// headers.
    pub best_header: H256,
    /// The hash of the best block: the tip of the best chain of blocks with
    /// bodies.
    pub best_block: H256,
}

/// The position of the first header with this hash, or -1.
pub open spec fn index_of(headers: Seq<Header>, hash: H256) -> int
    decreases headers.len(),
{
    if headers.len() == 0 {
        -1
    } else {
        let r = index_of(headers.drop_last(), hash);
        if r >= 0 {
            r
        } else if headers.last().hash == hash {
            headers.len() - 1
        } else {
            -1
        }
    }
}

/// The position of the first body with this hash, or -1.
pub open spec fn body_index(bodies: Seq<BodyView>, hash: H256) -> int
    decreases bodies.len(),
{
    if bodies.len() == 0 {
        -1
    } else {
        let r = body_index(bodies.drop_last(), hash);
        if r >= 0 {
            r
        } else if bodies.last().hash == hash {
            bodies.len() - 1
        } else {
            -1
        }
    }
}

/// The hashes on the way from the root of its branch to the header at
/// position `i`, that header last.
pub open spec fn ancestry_at(headers: Seq<Header>, i: int) -> Seq<H256>
    decreases i,
{
    if i < 0 || i >= headers.len() {
        Seq::empty()
    } else {
        let p = index_of(headers, headers[i].parent_hash);
        if 0 <= p < i {
            ancestry_at(headers, p).push(headers[i].hash)
        } else {
            seq![headers[i].hash]
        }
    }
}

/// The sum of the scores on the way from the root of its branch to the
/// header at position `i`.
pub open spec fn score_at(headers: Seq<Header>, i: int) -> int
    decreases i,
{
    if i < 0 || i >= headers.len() {
        0
    } else {
        let p = index_of(headers, headers[i].parent_hash);
        if 0 <= p < i {
            score_at(headers, p) + headers[i].score
        } else {
            headers[i].score as int
        }
    }
}

/// Every hash occurs once, and every header but the first has its parent
/// before it.
pub open spec fn is_tree(headers: Seq<Header>) -> bool {
    &&& headers.len() >= 1
    &&& forall|i: int| 0 <= i < headers.len() ==> index_of(headers, (#[trigger] headers[i]).hash) == i
    &&& forall|i: int|
        1 <= i < headers.len() ==> 0 <= index_of(headers, (#[trigger] headers[i]).parent_hash) < i
}

/// The number of leading positions at which `a` and `b` agree, counted from
/// `k` on.
pub open spec fn common_prefix_from(a: Seq<H256>, b: Seq<H256>, k: int) -> int
    decreases a.len() - k,
{
    if 0 <= k < a.len() && k < b.len() && a[k] == b[k] {
        common_prefix_from(a, b, k + 1)
    } else {
        k
    }
}

/// The route from the tip of one branch to the tip of another: past their
/// common beginning, what is left of the first is retracted and what is left
/// of the second is enacted.
pub open spec fn route_between(a: Seq<H256>, b: Seq<H256>) -> RouteView {
    let k = common_prefix_from(a, b, 0);
    RouteView {
        enacted: b.subrange(k, b.len() as int),
        retracted: a.subrange(k, a.len() as int),
        omitted: Seq::empty(),
    }
}

/// The route of an insert that left the canonical chain as it was.
pub open spec fn route_aside(hash: H256) -> RouteView {
    RouteView { enacted: Seq::empty(), retracted: Seq::empty(), omitted: seq![hash] }
}

impl ChainView {
    pub open spec fn contains(self, hash: H256) -> bool {
        index_of(self.headers, hash) >= 0
    }

    /// The header with this hash. Meaningful where `contains(hash)`.
    pub open spec fn header(self, hash: H256) -> Header {
        self.headers[index_of(self.headers, hash)]
    }

    pub open spec fn has_body(self, hash: H256) -> bool {
        body_index(self.bodies, hash) >= 0
    }

    /// The body with this hash. Meaningful where `has_body(hash)`.
    pub open spec fn body(self, hash: H256) -> BodyView {
        self.bodies[body_index(self.bodies, hash)]
    }

    /// The hashes from the genesis to `hash`, both included.
    pub open spec fn ancestry(self, hash: H256) -> Seq<H256> {
        ancestry_at(self.headers, index_of(self.headers, hash))
    }

    /// `ancestor` is `hash` or lies on the way from the genesis to it.
    pub open spec fn is_ancestor(self, ancestor: H256, hash: H256) -> bool {
        self.ancestry(hash).contains(ancestor)
    }

    /// The score of the chain that ends in `hash`.
    pub open spec fn total_score(self, hash: H256) -> int {
        score_at(self.headers, index_of(self.headers, hash))
    }

    /// The canonical chain of headers, genesis first.
    pub open spec fn canonical_headers(self) -> Seq<H256> {
        self.ancestry(self.best_header)
    }

    /// The canonical chain of blocks, genesis first.
    pub open spec fn canonical_blocks(self) -> Seq<H256> {
        self.ancestry(self.best_block)
    }

    /// The headers form a tree under the genesis, both heads are known, and
    /// every body belongs to a known header and is kept once.
    pub open spec fn wf(self) -> bool {
        &&& is_tree(self.headers)
        &&& self.contains(self.best_header)
        &&& self.contains(self.best_block)
        &&& self.has_body(self.best_block)
        &&& forall|k: int|
            0 <= k < self.bodies.len() ==> self.contains((#[trigger] self.bodies[k]).hash)
                && body_index(self.bodies, self.bodies[k].hash) == k
    }

    /// The chain after the insert of a header, and the route of the insert.
    ///
    /// A header that is known, or whose parent is not, changes nothing. Any
    /// other joins the tree, and becomes the best proposal header exactly
    /// when the score of its chain is above that of the present one.
    pub open spec fn with_header(self, h: Header) -> (ChainView, RouteView) {
        if self.contains(h.hash) || !self.contains(h.parent_hash) {
            (self, RouteView::none())
        } else {
            let grown = ChainView { headers: self.headers.push(h), ..self };
            if grown.total_score(h.hash) > grown.total_score(self.best_header) {
                (
                    ChainView { best_header: h.hash, ..grown },
                    route_between(grown.ancestry(self.best_header), grown.ancestry(h.hash)),
                )
            } else {
                (grown, route_aside(h.hash))
            }
        }
    }

    /// The header can take its body: it is known, has none yet, and its
    /// parent has one.
    pub open spec fn ready_for_body(self, hash: H256) -> bool {
        &&& self.contains(hash)
        &&& !self.has_body(hash)
        &&& self.has_body(self.header(hash).parent_hash)
    }

    /// The chain after the header with this hash took its body, and the
    /// route of the insert.
    ///
    /// Where the header cannot take a body, nothing changes. A block that
    /// took its body becomes the best block exactly when the engine lets it
    /// lead and the score of its chain is above that of the present best
    /// block.
    pub open spec fn with_body(
        self,
        hash: H256,
        bytes: Seq<u8>,
        invoices: Seq<Invoice>,
        may_lead: bool,
    ) -> (ChainView, RouteView) {
        if !self.ready_for_body(hash) {
            (self, RouteView::none())
        } else {
            let grown = ChainView {
                bodies: self.bodies.push(BodyView { hash, bytes, invoices }),
                ..self
            };
            if may_lead && grown.total_score(hash) > grown.total_score(self.best_block) {
                (
                    ChainView { best_block: hash, ..grown },
                    route_between(grown.ancestry(self.best_block), grown.ancestry(hash)),
                )
            } else {
                (grown, route_aside(hash))
            }
        }
    }

    /// The chain after the insert of a block, and the route of the insert:
    /// the header is inserted first, as by [`Self::with_header`], and the
    /// body then, as by [`Self::with_body`].
    pub open spec fn with_block(
        self,
        h: Header,
        bytes: Seq<u8>,
        invoices: Seq<Invoice>,
        may_lead: bool,
    ) -> (ChainView, RouteView) {
        self.with_header(h).0.with_body(h.hash, bytes, invoices, may_lead)
    }
}

/// What `index_of` finds: a position of the hash where there is one, and -1
/// where there is none.
pub proof fn lemma_index_of(headers: Seq<Header>, hash: H256)
    ensures
        -1 <= index_of(headers, hash) < headers.len(),
        index_of(headers, hash) >= 0 ==> headers[index_of(headers, hash)].hash == hash,
        index_of(headers, hash) < 0 ==> forall|i: int|
            0 <= i < headers.len() ==> (#[trigger] headers[i]).hash != hash,
    decreases headers.len(),
{
    if headers.len() > 0 {
        lemma_index_of(headers.drop_last(), hash);
        let r = index_of(headers.drop_last(), hash);
        if r >= 0 {
            assert(headers.drop_last()[r] == headers[r]);
        } else {
            assert forall|i: int| 0 <= i < headers.len() - 1 implies (#[trigger] headers[i]).hash
                != hash by {
                assert(headers.drop_last()[i] == headers[i]);
            }
        }
    }
}

/// What `body_index` finds.
pub proof fn lemma_body_index(bodies: Seq<BodyView>, hash: H256)
    ensures
        -1 <= body_index(bodies, hash) < bodies.len(),
        body_index(bodies, hash) >= 0 ==> bodies[body_index(bodies, hash)].hash == hash,
        body_index(bodies, hash) < 0 ==> forall|i: int|
            0 <= i < bodies.len() ==> (#[trigger] bodies[i]).hash != hash,
    decreases bodies.len(),
{
    if bodies.len() > 0 {
        lemma_body_index(bodies.drop_last(), hash);
        let r = body_index(bodies.drop_last(), hash);
        if r >= 0 {
            assert(bodies.drop_last()[r] == bodies[r]);
        } else {
            assert forall|i: int| 0 <= i < bodies.len() - 1 implies (#[trigger] bodies[i]).hash
                != hash by {
                assert(bodies.drop_last()[i] == bodies[i]);
            }
        }
    }
}

/// A new header at the end moves no position that was found before.
pub proof fn lemma_index_of_push(headers: Seq<Header>, h: Header, hash: H256)
    ensures
        index_of(headers.push(h), hash) == if index_of(headers, hash) >= 0 {
            index_of(headers, hash)
        } else if h.hash == hash {
            headers.len() as int
        } else {
            -1
        },
{
    assert(headers.push(h).drop_last() =~= headers);
}

/// A new body at the end moves no position that was found before.
pub proof fn lemma_body_index_push(bodies: Seq<BodyView>, b: BodyView, hash: H256)
    ensures
        body_index(bodies.push(b), hash) == if body_index(bodies, hash) >= 0 {
            body_index(bodies, hash)
        } else if b.hash == hash {
            bodies.len() as int
        } else {
            -1
        },
{
    assert(bodies.push(b).drop_last() =~= bodies);
}

/// A new header at the end changes neither the ancestry nor the score of a
/// header that was there before.
pub proof fn lemma_push_keeps(headers: Seq<Header>, h: Header, i: int)
    requires
        is_tree(headers),
        0 <= i < headers.len(),
    ensures
        ancestry_at(headers.push(h), i) == ancestry_at(headers, i),
        score_at(headers.push(h), i) == score_at(headers, i),
    decreases i,
{
    let grown = headers.push(h);
    assert(grown[i] == headers[i]);
    lemma_index_of_push(headers, h, headers[i].parent_hash);
    let p = index_of(headers, headers[i].parent_hash);
    lemma_index_of(headers, headers[i].parent_hash);
    if 0 <= p < i {
        lemma_push_keeps(headers, h, p);
    } else if p < 0 {
        // The parent is unknown before the push, so `i` is the genesis; the
        // new header comes after it and cannot serve as its parent.
        assert(i == 0);
    }
}

/// A tree that takes a new header whose hash is new and whose parent is
/// known is a tree.
pub proof fn lemma_push_is_tree(headers: Seq<Header>, h: Header)
    requires
        is_tree(headers),
        index_of(headers, h.hash) < 0,
        index_of(headers, h.parent_hash) >= 0,
    ensures
        is_tree(headers.push(h)),
{
    let grown = headers.push(h);
    assert forall|i: int| 0 <= i < grown.len() implies index_of(grown, (#[trigger] grown[i]).hash)
        == i by {
        lemma_index_of_push(headers, h, grown[i].hash);
        if i < headers.len() {
            assert(grown[i] == headers[i]);
        }
    }
    assert forall|i: int| 1 <= i < grown.len() implies 0 <= index_of(
        grown,
        (#[trigger] grown[i]).parent_hash,
    ) < i by {
        lemma_index_of_push(headers, h, grown[i].parent_hash);
        lemma_index_of(headers, grown[i].parent_hash);
        if i < headers.len() {
            assert(grown[i] == headers[i]);
        }
    }
}

/// The shape of an ancestry in a tree: it ends in its header, names known
/// headers only, and each of its beginnings is the ancestry of the header
/// that the beginning ends in.
pub proof fn lemma_ancestry_shape(headers: Seq<Header>, i: int)
    requires
        is_tree(headers),
        0 <= i < headers.len(),
    ensures
        1 <= ancestry_at(headers, i).len() <= i + 1,
        ancestry_at(headers, i).last() == headers[i].hash,
        forall|j: int|
            0 <= j < ancestry_at(headers, i).len() ==> {
                let m = index_of(headers, #[trigger] ancestry_at(headers, i)[j]);
                &&& 0 <= m <= i
                &&& ancestry_at(headers, m) == ancestry_at(headers, i).subrange(0, j + 1)
            },
    decreases i,
{
    let a = ancestry_at(headers, i);
    let p = index_of(headers, headers[i].parent_hash);
    if 0 <= p < i {
        lemma_ancestry_shape(headers, p);
        let b = ancestry_at(headers, p);
        assert forall|j: int| 0 <= j < a.len() implies {
            let m = index_of(headers, #[trigger] a[j]);
            &&& 0 <= m <= i
            &&& ancestry_at(headers, m) == a.subrange(0, j + 1)
        } by {
            if j < b.len() {
                assert(a[j] == b[j]);
                assert(a.subrange(0, j + 1) =~= b.subrange(0, j + 1));
            } else {
                assert(a.subrange(0, j + 1) =~= a);
            }
        }
    } else {
        assert(a.subrange(0, 1) =~= a);
    }
}

/// A hash occurs once in an ancestry.
pub proof fn lemma_ancestry_no_duplicates(headers: Seq<Header>, i: int)
    requires
        is_tree(headers),
        0 <= i < headers.len(),
    ensures
        ancestry_at(headers, i).no_duplicates(),
{
    let a = ancestry_at(headers, i);
    lemma_ancestry_shape(headers, i);
    assert forall|x: int, y: int| 0 <= x < a.len() && 0 <= y < a.len() && x != y implies a[x]
        != a[y] by {
        if a[x] == a[y] {
            assert(a.subrange(0, x + 1).len() == x + 1);
            assert(a.subrange(0, y + 1).len() == y + 1);
        }
    }
}

/// Where two sequences agree on their first `n` places and part ways there,
/// `n` is the length of their common beginning.
pub proof fn lemma_common_prefix(a: Seq<H256>, b: Seq<H256>, n: int, k: int)
    requires
        0 <= k <= n <= a.len(),
        n <= b.len(),
        forall|j: int| 0 <= j < n ==> a[j] == b[j],
        n == a.len() || n == b.len() || a[n] != b[n],
    ensures
        common_prefix_from(a, b, k) == n,
    decreases n - k,
{
    if k < n {
        lemma_common_prefix(a, b, n, k + 1);
    }
}

/// The length of the common beginning is within both sequences, the
/// sequences agree before it, and they part ways at it.
pub proof fn lemma_common_prefix_is(a: Seq<H256>, b: Seq<H256>, k: int)
    requires
        0 <= k <= a.len(),
        k <= b.len(),
        forall|j: int| 0 <= j < k ==> a[j] == b[j],
    ensures
        k <= common_prefix_from(a, b, k) <= a.len(),
        common_prefix_from(a, b, k) <= b.len(),
        forall|j: int| 0 <= j < common_prefix_from(a, b, k) ==> a[j] == b[j],
        common_prefix_from(a, b, k) == a.len() || common_prefix_from(a, b, k) == b.len() || a[common_prefix_from(
            a,
            b,
            k,
        )] != b[common_prefix_from(a, b, k)],
    decreases a.len() - k,
{
    if k < a.len() && k < b.len() && a[k] == b[k] {
        lemma_common_prefix_is(a, b, k + 1);
    }
}

/// The route between two tips of a tree: what it enacts lies on the new
/// chain and not on the old one, what it retracts lies on the old chain and
/// not on the new one, every other hash stays where it was, and no hash is
/// named twice.
pub proof fn lemma_route_between(headers: Seq<Header>, from: int, to: int)
    requires
        is_tree(headers),
        0 <= from < headers.len(),
        0 <= to < headers.len(),
    ensures
        ({
            let a = ancestry_at(headers, from);
            let b = ancestry_at(headers, to);
            let r = route_between(a, b);
            &&& r.is_simple()
            &&& forall|h: H256| #[trigger] r.enacted.contains(h) ==> b.contains(h) && !a.contains(h)
            &&& forall|h: H256|
                #[trigger] r.retracted.contains(h) ==> a.contains(h) && !b.contains(h)
            &&& forall|h: H256|
                !r.enacted.contains(h) && !r.retracted.contains(h) ==> (#[trigger] a.contains(h)
                    <==> b.contains(h))
            &&& a == a.subrange(0, common_prefix_from(a, b, 0)) + r.retracted
            &&& b == a.subrange(0, common_prefix_from(a, b, 0)) + r.enacted
        }),
{
    let a = ancestry_at(headers, from);
    let b = ancestry_at(headers, to);
    let k = common_prefix_from(a, b, 0);
    let r = route_between(a, b);
    lemma_common_prefix_is(a, b, 0);
    lemma_ancestry_shape(headers, from);
    lemma_ancestry_shape(headers, to);
    lemma_ancestry_no_duplicates(headers, from);
    lemma_ancestry_no_duplicates(headers, to);
    assert(a =~= a.subrange(0, k) + r.retracted);
    assert(b =~= a.subrange(0, k) + r.enacted);
    // A hash that both chains hold sits at one place in both, before `k`.
    assert forall|x: int, y: int| 0 <= x < a.len() && 0 <= y < b.len() && a[x] == b[y] implies x
        == y && x < k by {
        assert(a.subrange(0, x + 1).len() == x + 1);
        assert(b.subrange(0, y + 1).len() == y + 1);
        assert(a.subrange(0, x + 1) == b.subrange(0, y + 1));
        if x >= k {
            assert(a.subrange(0, x + 1)[k] == b.subrange(0, y + 1)[k]);
        }
    }
    assert forall|h: H256| #[trigger] r.enacted.contains(h) implies b.contains(h) && !a.contains(
        h,
    ) by {
        let j = choose|j: int| 0 <= j < r.enacted.len() && r.enacted[j] == h;
        assert(b[k + j] == h);
        if a.contains(h) {
            let x = choose|x: int| 0 <= x < a.len() && a[x] == h;
            assert(a[x] == b[k + j]);
        }
    }
    assert forall|h: H256| #[trigger] r.retracted.contains(h) implies a.contains(h) && !b.contains(
        h,
    ) by {
        let j = choose|j: int| 0 <= j < r.retracted.len() && r.retracted[j] == h;
        assert(a[k + j] == h);
        if b.contains(h) {
            let y = choose|y: int| 0 <= y < b.len() && b[y] == h;
            assert(a[k + j] == b[y]);
        }
    }
    assert forall|h: H256| !r.enacted.contains(h) && !r.retracted.contains(h) implies (
    #[trigger] a.contains(h) <==> b.contains(h)) by {
        if a.contains(h) {
            let x = choose|x: int| 0 <= x < a.len() && a[x] == h;
            if x >= k {
                assert(r.retracted[x - k] == h);
            }
            assert(b[x] == h);
        }
        if b.contains(h) {
            let y = choose|y: int| 0 <= y < b.len() && b[y] == h;
            if y >= k {
                assert(r.enacted[y - k] == h);
            }
            assert(a[y] == h);
        }
    }
    let both = r.enacted + r.retracted;
    assert forall|x: int, y: int| 0 <= x < both.len() && 0 <= y < both.len() && x != y implies both[x]
        != both[y] by {
        let e = r.enacted.len();
        if x < e && y < e {
            assert(both[x] == b[k + x] && both[y] == b[k + y]);
        } else if x >= e && y >= e {
            assert(both[x] == a[k + x - e] && both[y] == a[k + y - e]);
        } else if x < e {
            assert(both[x] == b[k + x] && both[y] == a[k + y - e]);
        } else {
            assert(both[y] == b[k + y] && both[x] == a[k + x - e]);
        }
    }
}

/// A beginning of a sequence in which every hash occurs once finds a hash
/// where the whole sequence finds it, if that is within the beginning.
pub proof fn lemma_prefix_index(all: Seq<Header>, n: int, hash: H256)
    requires
        0 <= n <= all.len(),
        forall|i: int| 0 <= i < all.len() ==> index_of(all, (#[trigger] all[i]).hash) == i,
    ensures
        index_of(all.subrange(0, n), hash) == if 0 <= index_of(all, hash) < n {
            index_of(all, hash)
        } else {
            -1
        },
{
    let prefix = all.subrange(0, n);
    lemma_index_of(prefix, hash);
    lemma_index_of(all, hash);
    let r = index_of(prefix, hash);
    let q = index_of(all, hash);
    if r >= 0 {
        assert(prefix[r] == all[r]);
        assert(index_of(all, all[r].hash) == r);
    } else if q >= 0 {
        if q < n {
            assert(prefix[q] == all[q]);
        }
    }
}

/// A beginning of a tree gives each of its headers the ancestry and the
/// score that the whole tree gives it.
pub proof fn lemma_prefix_keeps(all: Seq<Header>, n: int, i: int)
    requires
        is_tree(all),
        0 <= i < n <= all.len(),
    ensures
        ancestry_at(all.subrange(0, n), i) == ancestry_at(all, i),
        score_at(all.subrange(0, n), i) == score_at(all, i),
    decreases i,
{
    let prefix = all.subrange(0, n);
    assert(prefix[i] == all[i]);
    lemma_prefix_index(all, n, all[i].parent_hash);
    let p = index_of(all, all[i].parent_hash);
    if i >= 1 {
        assert(0 <= p < i);
        lemma_prefix_keeps(all, n, p);
    } else {
        lemma_index_of(prefix, all[i].parent_hash);
    }
}

} // verus!
