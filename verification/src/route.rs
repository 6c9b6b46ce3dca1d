//! The change of the canonical chain that one insert causes, and the net
//! change over a batch of inserts.

use vstd::prelude::*;
use crate::hash::H256;

verus! {

/// What one insert did to the canonical chain.
///
/// `enacted` and `retracted` both run from the block next to the common
/// ancestor to the tip of their branch. `omitted` holds the inserted block
/// where it joined a branch that is not canonical.
#[derive(Debug, PartialEq, Eq)]
pub struct ImportRoute {
    pub enacted: Vec<H256>,
    pub retracted: Vec<H256>,
    pub omitted: Vec<H256>,
}

/// The mathematical content of an [`ImportRoute`].
pub struct RouteView {
    pub enacted: Seq<H256>,
    pub retracted: Seq<H256>,
    pub omitted: Seq<H256>,
}

impl View for ImportRoute {
    type V = RouteView;

    open spec fn view(&self) -> RouteView {
        RouteView { enacted: self.enacted@, retracted: self.retracted@, omitted: self.omitted@ }
    }
}

impl RouteView {
    /// The route that moves nothing.
    pub open spec fn none() -> RouteView {
        RouteView { enacted: Seq::empty(), retracted: Seq::empty(), omitted: Seq::empty() }
    }

    /// The route with enacted and retracted exchanged.
    pub open spec fn invert(self) -> RouteView {
        RouteView { enacted: self.retracted, retracted: self.enacted, omitted: self.omitted }
    }

    /// Nothing occurs twice among the enacted and retracted hashes.
    pub open spec fn is_simple(self) -> bool {
        (self.enacted + self.retracted).no_duplicates()
    }
}

impl ImportRoute {
    /// The route that moves nothing.
    pub fn none() -> (r: ImportRoute)
        ensures
            r@ == RouteView::none(),
    {
        ImportRoute { enacted: Vec::new(), retracted: Vec::new(), omitted: Vec::new() }
    }
}

/// The views of a sequence of routes.
pub open spec fn route_views(routes: Seq<ImportRoute>) -> Seq<RouteView> {
    Seq::new(routes.len(), |i: int| routes[i]@)
}

/// One label per hash that `hashes` names, in order.
pub open spec fn labelled(hashes: Seq<H256>, label: bool) -> Seq<(H256, bool)> {
    Seq::new(hashes.len(), |i: int| (hashes[i], label))
}

/// The labels that a sequence of routes assigns, in the order in which the
/// routes assign them: within a route the enacted hashes, labelled `true`,
/// come before the retracted ones, labelled `false`.
pub open spec fn route_labels(routes: Seq<RouteView>) -> Seq<(H256, bool)>
    decreases routes.len(),
{
    if routes.len() == 0 {
        Seq::empty()
    } else {
        route_labels(routes.drop_last()) + labelled(routes.last().enacted, true) + labelled(
            routes.last().retracted,
            false,
        )
    }
}

/// The label that `labels` assigns to `hash` last, if any.
pub open spec fn net_label(labels: Seq<(H256, bool)>, hash: H256) -> Option<bool>
    decreases labels.len(),
{
    if labels.len() == 0 {
        None
    } else if labels.last().0 == hash {
        Some(labels.last().1)
    } else {
        net_label(labels.drop_last(), hash)
    }
}

/// The hashes that `labels` names, each once, in the order of their first
/// occurrence.
pub open spec fn first_seen(labels: Seq<(H256, bool)>) -> Seq<H256>
    decreases labels.len(),
{
    if labels.len() == 0 {
        Seq::empty()
    } else {
        let before = first_seen(labels.drop_last());
        if before.contains(labels.last().0) {
            before
        } else {
            before.push(labels.last().0)
        }
    }
}

/// Those of `keys` whose last label is `want`, in the order of `keys`.
pub open spec fn with_label(keys: Seq<H256>, labels: Seq<(H256, bool)>, want: bool) -> Seq<H256>
    decreases keys.len(),
{
    if keys.len() == 0 {
        Seq::empty()
    } else {
        let before = with_label(keys.drop_last(), labels, want);
        if net_label(labels, keys.last()) == Some(want) {
            before.push(keys.last())
        } else {
            before
        }
    }
}

/// The hashes that a batch of routes leaves enacted: those whose last label
/// is `true`, in the order of their first mention.
pub open spec fn net_enacted(routes: Seq<RouteView>) -> Seq<H256> {
    with_label(first_seen(route_labels(routes)), route_labels(routes), true)
}

/// The hashes that a batch of routes leaves retracted: those whose last
/// label is `false`, in the order of their first mention.
pub open spec fn net_retracted(routes: Seq<RouteView>) -> Seq<H256> {
    with_label(first_seen(route_labels(routes)), route_labels(routes), false)
}

/// `keys` and `vals` hold, for the labels read so far, each hash once in the
/// order of its first mention, with its last label.
spec fn is_table(keys: Seq<H256>, vals: Seq<bool>, labels: Seq<(H256, bool)>) -> bool {
    &&& keys == first_seen(labels)
    &&& keys.no_duplicates()
    &&& vals.len() == keys.len()
    &&& forall|i: int| 0 <= i < keys.len() ==> net_label(labels, #[trigger] keys[i]) == Some(vals[i])
}

/// A hash has a last label exactly when it was seen.
pub proof fn lemma_net_label_seen(labels: Seq<(H256, bool)>, hash: H256)
    ensures
        net_label(labels, hash) is Some <==> first_seen(labels).contains(hash),
        first_seen(labels).no_duplicates(),
    decreases labels.len(),
{
    if labels.len() > 0 {
        lemma_net_label_seen(labels.drop_last(), hash);
        lemma_net_label_seen(labels.drop_last(), labels.last().0);
        let before = first_seen(labels.drop_last());
        if !before.contains(labels.last().0) {
            let now = before.push(labels.last().0);
            assert(now[now.len() - 1] == labels.last().0);
            assert forall|i: int| 0 <= i < before.len() implies now[i] == before[i] by {}
            if before.contains(hash) {
                let i = choose|i: int| 0 <= i < before.len() && before[i] == hash;
                assert(now[i] == hash);
            }
        }
    }
}

/// The index of `hash` in `keys`, if it is there.
fn position(keys: &Vec<H256>, hash: H256) -> (at: Option<usize>)
    ensures
        match at {
            Some(i) => i < keys@.len() && keys@[i as int] == hash,
            None => !keys@.contains(hash),
        },
{
    let mut i: usize = 0;
    while i < keys.len()
        invariant
            i <= keys@.len(),
            forall|j: int| 0 <= j < i ==> keys@[j] != hash,
        decreases keys@.len() - i,
    {
        if keys[i] == hash {
            return Some(i);
        }
        i = i + 1;
    }
    None
}

/// Records one more label in the table.
fn record(
    keys: &mut Vec<H256>,
    vals: &mut Vec<bool>,
    hash: H256,
    label: bool,
    Ghost(labels): Ghost<Seq<(H256, bool)>>,
)
    requires
        is_table(old(keys)@, old(vals)@, labels),
    ensures
        is_table(final(keys)@, final(vals)@, labels.push((hash, label))),
{
    let ghost next = labels.push((hash, label));
    proof {
        assert(next.drop_last() =~= labels);
    }
    match position(keys, hash) {
        Some(i) => {
            vals.set(i, label);
            proof {
                assert forall|j: int| 0 <= j < keys@.len() implies net_label(
                    next,
                    #[trigger] keys@[j],
                ) == Some(vals@[j]) by {
                    if j != i as int {
                        assert(keys@[j] != keys@[i as int]);
                    }
                }
            }
        },
        None => {
            let ghost before = keys@;
            keys.push(hash);
            vals.push(label);
            proof {
                assert forall|j: int| 0 <= j < keys@.len() implies net_label(
                    next,
                    #[trigger] keys@[j],
                ) == Some(vals@[j]) by {
                    if j < before.len() {
                        assert(keys@[j] == before[j]);
                        assert(before.contains(before[j]));
                    }
                }
                assert forall|a: int, b: int|
                    0 <= a < keys@.len() && 0 <= b < keys@.len() && a != b implies keys@[a]
                    != keys@[b] by {
                    if a < before.len() {
                        assert(before.contains(before[a]));
                    }
                    if b < before.len() {
                        assert(before.contains(before[b]));
                    }
                }
            }
        },
    }
}

/// Records one label for each of `hashes`, in order.
fn record_all(
    keys: &mut Vec<H256>,
    vals: &mut Vec<bool>,
    hashes: &Vec<H256>,
    label: bool,
    Ghost(labels): Ghost<Seq<(H256, bool)>>,
)
    requires
        is_table(old(keys)@, old(vals)@, labels),
    ensures
        is_table(final(keys)@, final(vals)@, labels + labelled(hashes@, label)),
{
    let mut i: usize = 0;
    proof {
        assert(labels + labelled(hashes@.subrange(0, 0), label) =~= labels);
    }
    while i < hashes.len()
        invariant
            i <= hashes@.len(),
            is_table(keys@, vals@, labels + labelled(hashes@.subrange(0, i as int), label)),
        decreases hashes@.len() - i,
    {
        let ghost so_far = labels + labelled(hashes@.subrange(0, i as int), label);
        record(keys, vals, hashes[i], label, Ghost(so_far));
        proof {
            assert(so_far.push((hashes@[i as int], label)) =~= labels + labelled(
                hashes@.subrange(0, i + 1),
                label,
            ));
        }
        i = i + 1;
    }
    proof {
        assert(hashes@.subrange(0, hashes@.len() as int) =~= hashes@);
    }
}

/// Those of `keys` whose label in `vals` is `want`, in order.
fn select(
    keys: &Vec<H256>,
    vals: &Vec<bool>,
    want: bool,
    Ghost(labels): Ghost<Seq<(H256, bool)>>,
) -> (out: Vec<H256>)
    requires
        is_table(keys@, vals@, labels),
    ensures
        out@ == with_label(keys@, labels, want),
{
    let mut out: Vec<H256> = Vec::new();
    let mut i: usize = 0;
    while i < keys.len()
        invariant
            i <= keys@.len(),
            is_table(keys@, vals@, labels),
            out@ == with_label(keys@.subrange(0, i as int), labels, want),
        decreases keys@.len() - i,
    {
        proof {
            assert(keys@.subrange(0, i + 1).drop_last() =~= keys@.subrange(0, i as int));
        }
        if vals[i] == want {
            out.push(keys[i]);
        }
        i = i + 1;
    }
    proof {
        assert(keys@.subrange(0, keys@.len() as int) =~= keys@);
    }
    out
}

/// The net movement of a batch of routes: the hashes that end up enacted and
/// those that end up retracted, where a later route's label for a hash
/// replaces an earlier one. Omitted hashes take no part.
pub fn aggregate_routes(routes: &[ImportRoute]) -> (out: (Vec<H256>, Vec<H256>))
    ensures
        out.0@ == net_enacted(route_views(routes@)),
        out.1@ == net_retracted(route_views(routes@)),
{
    let mut keys: Vec<H256> = Vec::new();
    let mut vals: Vec<bool> = Vec::new();
    let ghost views = route_views(routes@);
    let mut k: usize = 0;
    while k < routes.len()
        invariant
            k <= routes@.len(),
            views == route_views(routes@),
            is_table(keys@, vals@, route_labels(views.subrange(0, k as int))),
        decreases routes@.len() - k,
    {
        let ghost before = route_labels(views.subrange(0, k as int));
        proof {
            assert(views.subrange(0, k + 1).drop_last() =~= views.subrange(0, k as int));
            assert(views.subrange(0, k + 1).last() == routes@[k as int]@);
        }
        record_all(&mut keys, &mut vals, &routes[k].enacted, true, Ghost(before));
        record_all(
            &mut keys,
            &mut vals,
            &routes[k].retracted,
            false,
            Ghost(before + labelled(routes@[k as int]@.enacted, true)),
        );
        k = k + 1;
    }
    proof {
        assert(views.subrange(0, views.len() as int) =~= views);
    }
    let ghost labels = route_labels(views);
    let enacted = select(&keys, &vals, true, Ghost(labels));
    let retracted = select(&keys, &vals, false, Ghost(labels));
    (enacted, retracted)
}

/// The hashes of a sequence of labels, in order.
pub open spec fn label_hashes(labels: Seq<(H256, bool)>) -> Seq<H256> {
    Seq::new(labels.len(), |i: int| labels[i].0)
}

/// The last label over two runs of labels is the last label of the second
/// run where it has one, and that of the first run otherwise.
pub proof fn lemma_net_label_concat(a: Seq<(H256, bool)>, b: Seq<(H256, bool)>, hash: H256)
    ensures
        net_label(a + b, hash) == if net_label(b, hash) is Some {
            net_label(b, hash)
        } else {
            net_label(a, hash)
        },
    decreases b.len(),
{
    if b.len() == 0 {
        assert(a + b =~= a);
    } else {
        assert((a + b).drop_last() =~= a + b.drop_last());
        assert((a + b).last() == b.last());
        lemma_net_label_concat(a, b.drop_last(), hash);
    }
}

/// A run that labels every one of `hashes` alike gives that label to the
/// hashes it names and none to the others.
pub proof fn lemma_net_label_uniform(hashes: Seq<H256>, label: bool, hash: H256)
    ensures
        net_label(labelled(hashes, label), hash) == if hashes.contains(hash) {
            Some(label)
        } else {
            None
        },
    decreases hashes.len(),
{
    let labels = labelled(hashes, label);
    if hashes.len() > 0 {
        assert(labels.drop_last() =~= labelled(hashes.drop_last(), label));
        lemma_net_label_uniform(hashes.drop_last(), label, hash);
        if hashes.last() != hash {
            if hashes.contains(hash) {
                let i = choose|i: int| 0 <= i < hashes.len() && hashes[i] == hash;
                assert(hashes.drop_last()[i] == hash);
            }
            if hashes.drop_last().contains(hash) {
                let i = choose|i: int|
                    0 <= i < hashes.drop_last().len() && hashes.drop_last()[i] == hash;
                assert(hashes[i] == hash);
            }
        } else {
            assert(hashes[hashes.len() - 1] == hash);
        }
    }
}

/// What one more route does to the last label of a hash: retracted by the
/// route, else enacted by it, else as before.
pub proof fn lemma_net_label_step(routes: Seq<RouteView>, route: RouteView, hash: H256)
    ensures
        net_label(route_labels(routes.push(route)), hash) == if route.retracted.contains(hash) {
            Some(false)
        } else if route.enacted.contains(hash) {
            Some(true)
        } else {
            net_label(route_labels(routes), hash)
        },
{
    assert(routes.push(route).drop_last() =~= routes);
    let before = route_labels(routes);
    let e = labelled(route.enacted, true);
    let r = labelled(route.retracted, false);
    lemma_net_label_concat(before + e, r, hash);
    lemma_net_label_concat(before, e, hash);
    lemma_net_label_uniform(route.enacted, true, hash);
    lemma_net_label_uniform(route.retracted, false, hash);
}

/// `with_label` keeps exactly the keys whose last label is the wanted one,
/// and keeps them apart where the keys were apart.
pub proof fn lemma_with_label_members(
    keys: Seq<H256>,
    labels: Seq<(H256, bool)>,
    want: bool,
    hash: H256,
)
    ensures
        with_label(keys, labels, want).contains(hash) <==> keys.contains(hash) && net_label(
            labels,
            hash,
        ) == Some(want),
        keys.no_duplicates() ==> with_label(keys, labels, want).no_duplicates(),
    decreases keys.len(),
{
    if keys.len() > 0 {
        let head = keys.drop_last();
        let before = with_label(head, labels, want);
        lemma_with_label_members(head, labels, want, hash);
        lemma_with_label_members(head, labels, want, keys.last());
        assert(keys[keys.len() - 1] == keys.last());
        if keys.contains(hash) && keys.last() != hash {
            let i = choose|i: int| 0 <= i < keys.len() && keys[i] == hash;
            assert(head[i] == hash);
        }
        if head.contains(hash) {
            let i = choose|i: int| 0 <= i < head.len() && head[i] == hash;
            assert(keys[i] == hash);
        }
        if net_label(labels, keys.last()) == Some(want) {
            let now = before.push(keys.last());
            assert(now[now.len() - 1] == keys.last());
            if before.contains(hash) {
                let i = choose|i: int| 0 <= i < before.len() && before[i] == hash;
                assert(now[i] == hash);
            }
            if keys.no_duplicates() {
                assert(head.no_duplicates());
                if head.contains(keys.last()) {
                    let i = choose|i: int| 0 <= i < head.len() && head[i] == keys.last();
                    assert(keys[i] == keys[keys.len() - 1]);
                }
                assert(!before.contains(keys.last()));
            }
        } else if keys.no_duplicates() {
            assert(head.no_duplicates());
        }
    }
}

/// A hash is in the net enacted list exactly when its last label is `true`,
/// and in the net retracted list exactly when its last label is `false`.
pub proof fn lemma_net_members(routes: Seq<RouteView>, hash: H256)
    ensures
        net_enacted(routes).contains(hash) <==> net_label(route_labels(routes), hash) == Some(true),
        net_retracted(routes).contains(hash) <==> net_label(route_labels(routes), hash) == Some(
            false,
        ),
{
    let labels = route_labels(routes);
    lemma_net_label_seen(labels, hash);
    lemma_with_label_members(first_seen(labels), labels, true, hash);
    lemma_with_label_members(first_seen(labels), labels, false, hash);
}

/// No hash is both enacted and retracted in the net movement of a batch, and
/// neither list names a hash twice.
pub proof fn lemma_net_disjoint(routes: Seq<RouteView>)
    ensures
        forall|hash: H256|
            !(net_enacted(routes).contains(hash) && net_retracted(routes).contains(hash)),
        net_enacted(routes).no_duplicates(),
        net_retracted(routes).no_duplicates(),
{
    let labels = route_labels(routes);
    assert forall|hash: H256|
        !(net_enacted(routes).contains(hash) && net_retracted(routes).contains(hash)) by {
        lemma_net_members(routes, hash);
    }
    lemma_net_label_seen(labels, H256(0, 0, 0, 0));
    lemma_with_label_members(first_seen(labels), labels, true, H256(0, 0, 0, 0));
    lemma_with_label_members(first_seen(labels), labels, false, H256(0, 0, 0, 0));
}

/// Where no hash is labelled twice, every hash is seen in the order of the
/// labels and keeps its one label.
proof fn lemma_labels_without_repeats(labels: Seq<(H256, bool)>)
    requires
        label_hashes(labels).no_duplicates(),
    ensures
        first_seen(labels) == label_hashes(labels),
        forall|i: int| 0 <= i < labels.len() ==> net_label(labels, (#[trigger] labels[i]).0) == Some(
            labels[i].1,
        ),
    decreases labels.len(),
{
    if labels.len() > 0 {
        let head = labels.drop_last();
        assert(label_hashes(head) =~= label_hashes(labels).drop_last());
        lemma_labels_without_repeats(head);
        let hs = label_hashes(labels);
        if first_seen(head).contains(labels.last().0) {
            let i = choose|i: int| 0 <= i < head.len() && label_hashes(head)[i] == labels.last().0;
            assert(hs[i] == hs[labels.len() - 1]);
        }
        assert(first_seen(labels) =~= label_hashes(labels));
        assert forall|i: int| 0 <= i < labels.len() implies net_label(
            labels,
            (#[trigger] labels[i]).0,
        ) == Some(labels[i].1) by {
            if i < labels.len() - 1 {
                assert(hs[i] != hs[labels.len() - 1]);
                assert(head[i] == labels[i]);
            }
        }
    }
}

/// `with_label` over two runs of keys is the two results in a row.
proof fn lemma_with_label_concat(a: Seq<H256>, b: Seq<H256>, labels: Seq<(H256, bool)>, want: bool)
    ensures
        with_label(a + b, labels, want) == with_label(a, labels, want) + with_label(
            b,
            labels,
            want,
        ),
    decreases b.len(),
{
    if b.len() == 0 {
        assert(a + b =~= a);
        assert(with_label(a, labels, want) + with_label(b, labels, want) =~= with_label(
            a,
            labels,
            want,
        ));
    } else {
        assert((a + b).drop_last() =~= a + b.drop_last());
        assert((a + b).last() == b.last());
        lemma_with_label_concat(a, b.drop_last(), labels, want);
        assert(with_label(a + b, labels, want) =~= with_label(a, labels, want) + with_label(
            b,
            labels,
            want,
        ));
    }
}

/// Keys that all carry one last label are all kept, or all dropped.
proof fn lemma_with_label_uniform(
    keys: Seq<H256>,
    labels: Seq<(H256, bool)>,
    label: bool,
    want: bool,
)
    requires
        forall|i: int| 0 <= i < keys.len() ==> net_label(labels, #[trigger] keys[i]) == Some(label),
    ensures
        with_label(keys, labels, want) == if label == want {
            keys
        } else {
            Seq::empty()
        },
    decreases keys.len(),
{
    if keys.len() > 0 {
        assert forall|i: int| 0 <= i < keys.drop_last().len() implies net_label(
            labels,
            #[trigger] keys.drop_last()[i],
        ) == Some(label) by {
            assert(keys.drop_last()[i] == keys[i]);
        }
        lemma_with_label_uniform(keys.drop_last(), labels, label, want);
        assert(keys.last() == keys[keys.len() - 1]);
        if label == want {
            assert(keys.drop_last().push(keys.last()) =~= keys);
        }
    } else {
        assert(keys =~= Seq::empty());
    }
}

/// The net movement of a single route that names no hash twice is the route
/// itself: its enacted list and its retracted list, each in its own order.
pub proof fn lemma_aggregate_single(route: RouteView)
    requires
        route.is_simple(),
    ensures
        net_enacted(seq![route]) == route.enacted,
        net_retracted(seq![route]) == route.retracted,
{
    let routes = seq![route];
    assert(routes.drop_last() =~= Seq::<RouteView>::empty());
    assert(routes.last() == route);
    let e = labelled(route.enacted, true);
    let r = labelled(route.retracted, false);
    let labels = route_labels(routes);
    assert(route_labels(routes.drop_last()) =~= Seq::<(H256, bool)>::empty());
    assert(labels =~= e + r);
    assert(label_hashes(labels) =~= route.enacted + route.retracted);
    lemma_labels_without_repeats(labels);
    assert forall|i: int| 0 <= i < route.enacted.len() implies net_label(
        labels,
        #[trigger] route.enacted[i],
    ) == Some(true) by {
        assert(labels[i] == (route.enacted[i], true));
    }
    assert forall|i: int| 0 <= i < route.retracted.len() implies net_label(
        labels,
        #[trigger] route.retracted[i],
    ) == Some(false) by {
        assert(labels[route.enacted.len() + i] == (route.retracted[i], false));
    }
    lemma_with_label_concat(route.enacted, route.retracted, labels, true);
    lemma_with_label_concat(route.enacted, route.retracted, labels, false);
    lemma_with_label_uniform(route.enacted, labels, true, true);
    lemma_with_label_uniform(route.enacted, labels, true, false);
    lemma_with_label_uniform(route.retracted, labels, false, true);
    lemma_with_label_uniform(route.retracted, labels, false, false);
    assert(route.enacted + Seq::<H256>::empty() =~= route.enacted);
    assert(Seq::<H256>::empty() + route.retracted =~= route.retracted);
}

/// A route followed by its inverse: the later labels win, so what the route
/// enacted ends up retracted, and what it only retracted ends up enacted.
/// The net movement is empty exactly when the route moved nothing.
pub proof fn lemma_aggregate_inverse(route: RouteView)
    ensures
        forall|hash: H256|
            net_retracted(seq![route, route.invert()]).contains(hash) <==> route.enacted.contains(
                hash,
            ),
        forall|hash: H256|
            net_enacted(seq![route, route.invert()]).contains(hash) <==> (route.retracted.contains(
                hash,
            ) && !route.enacted.contains(hash)),
        (net_enacted(seq![route, route.invert()]).len() == 0 && net_retracted(
            seq![route, route.invert()],
        ).len() == 0) <==> (route.enacted.len() == 0 && route.retracted.len() == 0),
{
    let one = seq![route];
    let both = seq![route, route.invert()];
    assert(both =~= one.push(route.invert()));
    assert(one =~= Seq::<RouteView>::empty().push(route));
    assert(route_labels(Seq::<RouteView>::empty()) =~= Seq::<(H256, bool)>::empty());
    assert forall|hash: H256|
        (net_retracted(both).contains(hash) <==> route.enacted.contains(hash)) && (net_enacted(
            both,
        ).contains(hash) <==> (route.retracted.contains(hash) && !route.enacted.contains(
            hash,
        ))) by {
        lemma_net_members(both, hash);
        lemma_net_label_step(one, route.invert(), hash);
        lemma_net_label_step(Seq::<RouteView>::empty(), route, hash);
    }
    if route.enacted.len() > 0 {
        assert(route.enacted.contains(route.enacted[0]));
        assert(net_retracted(both).contains(route.enacted[0]));
    }
    if route.enacted.len() == 0 && route.retracted.len() > 0 {
        assert(route.retracted.contains(route.retracted[0]));
        assert(net_enacted(both).contains(route.retracted[0]));
    }
    if net_enacted(both).len() > 0 {
        assert(net_enacted(both).contains(net_enacted(both)[0]));
    }
    if net_retracted(both).len() > 0 {
        assert(net_retracted(both).contains(net_retracted(both)[0]));
    }
}

} // verus!
