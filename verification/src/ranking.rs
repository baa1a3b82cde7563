//! Orders in which scanned entries are ranked, the bounded running ranking of
//! the largest files seen during traversal, and the bounded selection of the
//! largest visible children of a folder.
use vstd::prelude::*;
use crate::arena::InternalNode;
use crate::text::{Order, bytes_order, byte_ints, int_order, compare_bytes, compare_u64};
use crate::types::{EntryKind, ScanItem, SizeMetric};

verus! {

broadcast use {vstd::seq_lib::to_multiset_insert, vstd::seq_lib::to_multiset_update, vstd::seq_lib::to_multiset_len};

/// The most files the running ranking keeps.
pub const MAX_PARTIAL_ITEMS: usize = 8;

impl SizeMetric {
    /// The byte count the metric ranks by.
    pub open spec fn spec_bytes(self, node: InternalNode) -> u64 {
        match self {
            SizeMetric::Allocated => node.allocated_bytes,
            SizeMetric::Logical => node.logical_bytes,
        }
    }

    /// The other byte count, which breaks ties.
    pub open spec fn spec_secondary_bytes(self, node: InternalNode) -> u64 {
        match self {
            SizeMetric::Allocated => node.logical_bytes,
            SizeMetric::Logical => node.allocated_bytes,
        }
    }

    /// Returns the byte count the metric ranks by.
    pub fn bytes(self, node: &InternalNode) -> (b: u64)
        ensures
            b == self.spec_bytes(*node),
    {
        match self {
            SizeMetric::Allocated => node.allocated_bytes,
            SizeMetric::Logical => node.logical_bytes,
        }
    }

    /// Returns the tie-breaking byte count.
    pub fn secondary_bytes(self, node: &InternalNode) -> (b: u64)
        ensures
            b == self.spec_secondary_bytes(*node),
    {
        match self {
            SizeMetric::Allocated => node.logical_bytes,
            SizeMetric::Logical => node.allocated_bytes,
        }
    }
}

/// The ranking order of two nodes: more bytes of the metric first, then more
/// bytes of the other measure, then name, then id.
pub open spec fn node_order(nodes: Seq<InternalNode>, metric: SizeMetric, a: int, b: int) -> Order {
    int_order(
        metric.spec_bytes(nodes[b]) as int,
        metric.spec_bytes(nodes[a]) as int,
    ).and_next(
        int_order(
            metric.spec_secondary_bytes(nodes[b]) as int,
            metric.spec_secondary_bytes(nodes[a]) as int,
        ),
    ).and_next(bytes_order(nodes[a].name@, nodes[b].name@)).and_next(int_order(a, b))
}

/// Compares two nodes in ranking order.
pub fn compare_node_ids_by_metric(
    nodes: &Vec<InternalNode>,
    left: usize,
    right: usize,
    metric: SizeMetric,
) -> (r: Order)
    requires
        left < nodes@.len(),
        right < nodes@.len(),
    ensures
        r == node_order(nodes@, metric, left as int, right as int),
{
    let left_node = &nodes[left];
    let right_node = &nodes[right];
    match compare_u64(metric.bytes(right_node), metric.bytes(left_node)) {
        Order::Equal => {},
        other => return other,
    }
    match compare_u64(metric.secondary_bytes(right_node), metric.secondary_bytes(left_node)) {
        Order::Equal => {},
        other => return other,
    }
    match compare_bytes(left_node.name.as_slice(), right_node.name.as_slice()) {
        Order::Equal => {},
        other => return other,
    }
    compare_u64(left as u64, right as u64)
}

/// Ranking order is a strict total order on distinct node ids.
pub proof fn lemma_node_order_total(nodes: Seq<InternalNode>, metric: SizeMetric, a: int, b: int)
    ensures
        node_order(nodes, metric, b, a) == node_order(nodes, metric, a, b).flip(),
        (node_order(nodes, metric, a, b) == Order::Equal) == (a == b),
{
    crate::text::lemma_lex_order_flip(byte_ints(nodes[a].name@), byte_ints(nodes[b].name@));
    crate::text::lemma_lex_order_equal(byte_ints(nodes[a].name@), byte_ints(nodes[b].name@));
}

/// Ranking order is transitive.
pub proof fn lemma_node_order_transitive(
    nodes: Seq<InternalNode>,
    metric: SizeMetric,
    a: int,
    b: int,
    c: int,
)
    requires
        node_order(nodes, metric, a, b) == Order::Less,
        node_order(nodes, metric, b, c) == Order::Less,
    ensures
        node_order(nodes, metric, a, c) == Order::Less,
{
    let na = byte_ints(nodes[a].name@);
    let nb = byte_ints(nodes[b].name@);
    let nc = byte_ints(nodes[c].name@);
    crate::text::lemma_lex_order_equal(na, nb);
    crate::text::lemma_lex_order_equal(nb, nc);
    crate::text::lemma_lex_order_equal(na, nc);
    if crate::text::lex_order(na, nb) == Order::Less && crate::text::lex_order(nb, nc)
        == Order::Less {
        crate::text::lemma_lex_order_transitive(na, nb, nc);
    }
}

/// One file of the running ranking of the largest files.
#[derive(Clone, Copy, Debug)]
pub struct PartialCandidate {
    pub node_id: usize,
    pub logical_bytes: u64,
    pub allocated_bytes: u64,
}

/// The running ranking order: more allocated bytes first, then more logical
/// bytes, then the lower node id.
pub open spec fn candidate_order(a: PartialCandidate, b: PartialCandidate) -> Order {
    int_order(b.allocated_bytes as int, a.allocated_bytes as int).and_next(
        int_order(b.logical_bytes as int, a.logical_bytes as int),
    ).and_next(int_order(a.node_id as int, b.node_id as int))
}

/// Compares two candidates in running ranking order.
pub fn compare_partial_candidates(left: &PartialCandidate, right: &PartialCandidate) -> (r: Order)
    ensures
        r == candidate_order(*left, *right),
{
    match compare_u64(right.allocated_bytes, left.allocated_bytes) {
        Order::Equal => {},
        other => return other,
    }
    match compare_u64(right.logical_bytes, left.logical_bytes) {
        Order::Equal => {},
        other => return other,
    }
    compare_u64(left.node_id as u64, right.node_id as u64)
}

/// The running ranking puts the files that occupy the most disk first: of
/// two candidates, the one with more allocated bytes ranks first whatever
/// their logical sizes; logical bytes decide only between equal
/// allocations, and the lower node id only between equal sizes.
pub proof fn lemma_candidate_order_by_allocation(a: PartialCandidate, b: PartialCandidate)
    ensures
        a.allocated_bytes > b.allocated_bytes ==> candidate_order(a, b) == Order::Less
            && candidate_order(b, a) == Order::Greater,
        a.allocated_bytes == b.allocated_bytes && a.logical_bytes > b.logical_bytes
            ==> candidate_order(a, b) == Order::Less && candidate_order(b, a) == Order::Greater,
        a.allocated_bytes == b.allocated_bytes && a.logical_bytes == b.logical_bytes
            && a.node_id < b.node_id ==> candidate_order(a, b) == Order::Less,
        candidate_order(a, b) == Order::Equal <==> a == b,
{
}

/// Folder views rank by the chosen metric first: with the allocated metric
/// the node with more allocated bytes ranks first whatever its logical
/// size, with the logical metric the node with more logical bytes does;
/// the other measure decides only between equal amounts of the metric.
pub proof fn lemma_node_order_by_metric(nodes: Seq<InternalNode>, metric: SizeMetric, a: int, b: int)
    ensures
        metric == SizeMetric::Allocated && nodes[a].allocated_bytes > nodes[b].allocated_bytes
            ==> node_order(nodes, metric, a, b) == Order::Less,
        metric == SizeMetric::Logical && nodes[a].logical_bytes > nodes[b].logical_bytes
            ==> node_order(nodes, metric, a, b) == Order::Less,
        metric == SizeMetric::Allocated && nodes[a].allocated_bytes == nodes[b].allocated_bytes
            && nodes[a].logical_bytes > nodes[b].logical_bytes ==> node_order(nodes, metric, a, b)
            == Order::Less,
        metric == SizeMetric::Logical && nodes[a].logical_bytes == nodes[b].logical_bytes
            && nodes[a].allocated_bytes > nodes[b].allocated_bytes ==> node_order(nodes, metric, a, b)
            == Order::Less,
{
}

/// The candidate order is reversed by exchanging operands, and it is transitive.
pub proof fn lemma_candidate_order_facts(a: PartialCandidate, b: PartialCandidate, c: PartialCandidate)
    ensures
        candidate_order(b, a) == candidate_order(a, b).flip(),
        candidate_order(a, b) != Order::Greater && candidate_order(b, c) != Order::Greater
            ==> candidate_order(a, c) != Order::Greater,
{
}

/// The largest files observed so far, at most eight, with the index of the
/// worst one once the ranking is full.
#[derive(Debug)]
pub struct PartialRanking {
    pub candidates: Vec<PartialCandidate>,
    pub worst_index: Option<usize>,
}

/// `w` is the last index holding a worst candidate.
pub open spec fn is_worst(candidates: Seq<PartialCandidate>, w: int) -> bool {
    &&& 0 <= w < candidates.len()
    &&& forall|k: int|
        0 <= k < candidates.len() ==> #[trigger] candidate_order(candidates[k], candidates[w])
            != Order::Greater
    &&& forall|k: int|
        w < k < candidates.len() ==> #[trigger] candidate_order(candidates[k], candidates[w])
            == Order::Less
}

impl PartialRanking {
    /// An empty ranking.
    pub fn new() -> (ranking: Self)
        ensures
            ranking.candidates@.len() == 0,
            ranking.worst_index is None,
            ranking.inv(),
            keeps_best(ranking.candidates@, Seq::empty()),
    {
        PartialRanking { candidates: Vec::new(), worst_index: None }
    }

    /// At most eight candidates, and a full ranking knows its worst one.
    pub open spec fn inv(self) -> bool {
        &&& self.candidates@.len() <= MAX_PARTIAL_ITEMS
        &&& self.candidates@.len() == MAX_PARTIAL_ITEMS ==> (self.worst_index matches Some(w)
            && is_worst(self.candidates@, w as int))
    }

    /// Adds a candidate while the ranking has room; once full, a candidate
    /// that ranks before the worst one takes its place.
    pub fn observe(&mut self, candidate: PartialCandidate)
        requires
            old(self).inv(),
        ensures
            final(self).inv(),
            final(self).candidates@ == (if old(self).candidates@.len() < MAX_PARTIAL_ITEMS {
                old(self).candidates@.push(candidate)
            } else {
                let w = old(self).worst_index.unwrap() as int;
                if candidate_order(candidate, old(self).candidates@[w]) == Order::Less {
                    old(self).candidates@.update(w, candidate)
                } else {
                    old(self).candidates@
                }
            }),
    {
        if self.candidates.len() < MAX_PARTIAL_ITEMS {
            self.candidates.push(candidate);
            if self.candidates.len() == MAX_PARTIAL_ITEMS {
                self.refresh_worst();
            }
            return;
        }
        let worst_index = match self.worst_index {
            Some(index) => index,
            None => return,
        };
        if compare_partial_candidates(&candidate, &self.candidates[worst_index]) == Order::Less {
            self.candidates.set(worst_index, candidate);
            self.refresh_worst();
        }
    }

    /// Recomputes the index of the worst candidate: the last one that no
    /// other candidate ranks after.
    pub fn refresh_worst(&mut self)
        ensures
            final(self).candidates@ == old(self).candidates@,
            match final(self).worst_index {
                Some(w) => is_worst(final(self).candidates@, w as int),
                None => final(self).candidates@.len() == 0,
            },
    {
        if self.candidates.len() == 0 {
            self.worst_index = None;
            return;
        }
        let mut worst: usize = 0;
        let mut index: usize = 1;
        while index < self.candidates.len()
            invariant
                1 <= index <= self.candidates@.len(),
                worst < index,
                forall|k: int|
                    0 <= k < index ==> #[trigger] candidate_order(
                        self.candidates@[k],
                        self.candidates@[worst as int],
                    ) != Order::Greater,
                forall|k: int|
                    worst < k < index ==> #[trigger] candidate_order(
                        self.candidates@[k],
                        self.candidates@[worst as int],
                    ) == Order::Less,
            decreases self.candidates@.len() - index,
        {
            let order = compare_partial_candidates(&self.candidates[index], &self.candidates[worst]);
            if order != Order::Less {
                proof {
                    assert forall|k: int| 0 <= k < index + 1 implies #[trigger] candidate_order(
                        self.candidates@[k],
                        self.candidates@[index as int],
                    ) != Order::Greater by {
                        lemma_candidate_order_facts(
                            self.candidates@[k],
                            self.candidates@[worst as int],
                            self.candidates@[index as int],
                        );
                        lemma_candidate_order_facts(
                            self.candidates@[worst as int],
                            self.candidates@[index as int],
                            self.candidates@[k],
                        );
                    }
                }
                worst = index;
            }
            index = index + 1;
        }
        self.worst_index = Some(worst);
    }

    /// Replaces the candidate for a node that lost its hard-link bytes to a
    /// newer link; reports whether such a candidate was present.
    pub fn replace(&mut self, previous_node_id: usize, candidate: PartialCandidate) -> (replaced:
        bool)
        requires
            old(self).inv(),
        ensures
            final(self).inv(),
            replaced == exists|k: int|
                0 <= k < old(self).candidates@.len() && #[trigger] old(
                    self,
                ).candidates@[k].node_id == previous_node_id,
            replaced ==> exists|k: int|
                0 <= k < old(self).candidates@.len() && old(self).candidates@[k].node_id
                    == previous_node_id && (forall|j: int|
                    0 <= j < k ==> #[trigger] old(self).candidates@[j].node_id
                        != previous_node_id) && final(self).candidates@ == old(
                    self,
                ).candidates@.update(k, candidate),
            !replaced ==> final(self).candidates@ == old(self).candidates@,
            !replaced ==> final(self).worst_index == old(self).worst_index,
    {
        let mut index: usize = 0;
        while index < self.candidates.len()
            invariant
                0 <= index <= self.candidates@.len(),
                self.candidates@ == old(self).candidates@,
                self.worst_index == old(self).worst_index,
                old(self).inv(),
                forall|j: int|
                    0 <= j < index ==> #[trigger] self.candidates@[j].node_id != previous_node_id,
            decreases self.candidates@.len() - index,
        {
            if self.candidates[index].node_id == previous_node_id {
                self.candidates.set(index, candidate);
                if self.candidates.len() == MAX_PARTIAL_ITEMS {
                    self.refresh_worst();
                } else {
                    proof {
                        assert(self.candidates@.len() < MAX_PARTIAL_ITEMS);
                    }
                }
                return true;
            }
            index = index + 1;
        }
        false
    }

    /// The candidates in ranking order, as items of the scan.
    pub fn items(&self, nodes: &Vec<InternalNode>) -> (items: Vec<ScanItem>)
        requires
            forall|k: int|
                0 <= k < self.candidates@.len() ==> #[trigger] self.candidates@[k].node_id
                    < nodes@.len(),
            nodes@.len() <= u64::MAX,
        ensures
            items@.len() == self.candidates@.len(),
            exists|ranked: Seq<PartialCandidate>| #[trigger]
                ranked_items(items@, nodes@, self.candidates@, ranked),
    {
        let ranked = sort_candidates(&self.candidates);
        let mut items: Vec<ScanItem> = Vec::new();
        let mut index: usize = 0;
        while index < ranked.len()
            invariant
                0 <= index <= ranked@.len(),
                ranked@.len() == self.candidates@.len(),
                ranked@.to_multiset() == self.candidates@.to_multiset(),
                forall|k: int|
                    0 <= k < self.candidates@.len() ==> #[trigger] self.candidates@[k].node_id
                        < nodes@.len(),
                nodes@.len() <= u64::MAX,
                items@.len() == index,
                forall|i: int|
                    0 <= i < index ==> #[trigger] item_matches(
                        items@[i],
                        nodes@,
                        ranked@[i].node_id as int,
                    ),
            decreases ranked@.len() - index,
        {
            proof {
                assert(ranked@.contains(ranked@[index as int]));
                vstd::seq_lib::to_multiset_contains(ranked@, ranked@[index as int]);
                assert(ranked@.to_multiset().count(ranked@[index as int]) > 0);
                assert(self.candidates@.to_multiset().count(ranked@[index as int]) > 0);
                vstd::seq_lib::to_multiset_contains(self.candidates@, ranked@[index as int]);
                let k = choose|k: int| 0 <= k < self.candidates@.len() && self.candidates@[k] == ranked@[index as int];
                assert(self.candidates@[k].node_id < nodes@.len());
            }
            items.push(scan_item(nodes, ranked[index].node_id));
            index = index + 1;
        }
        proof {
            assert(ranked_items(items@, nodes@, self.candidates@, ranked@));
        }
        items
    }
}

/// The items are the candidates, reordered as `ranked` into ranking order.
pub open spec fn ranked_items(
    items: Seq<ScanItem>,
    nodes: Seq<InternalNode>,
    candidates: Seq<PartialCandidate>,
    ranked: Seq<PartialCandidate>,
) -> bool {
    &&& ranked.to_multiset() == candidates.to_multiset()
    &&& ranked.len() == items.len()
    &&& forall|i: int, j: int|
        0 <= i < j < ranked.len() ==> candidate_order(ranked[i], ranked[j]) != Order::Greater
    &&& forall|i: int|
        0 <= i < ranked.len() ==> #[trigger] item_matches(items[i], nodes, ranked[i].node_id as int)
}

/// Sorts candidates into ranking order.
pub fn sort_candidates(candidates: &Vec<PartialCandidate>) -> (ranked: Vec<PartialCandidate>)
    ensures
        ranked@.to_multiset() == candidates@.to_multiset(),
        ranked@.len() == candidates@.len(),
        forall|i: int, j: int|
            0 <= i < j < ranked@.len() ==> candidate_order(ranked@[i], ranked@[j]) != Order::Greater,
{
    let mut ranked: Vec<PartialCandidate> = Vec::new();
    let mut index: usize = 0;
    assert(ranked@ =~= candidates@.take(0));
    while index < candidates.len()
        invariant
            0 <= index <= candidates@.len(),
            ranked@.to_multiset() == candidates@.take(index as int).to_multiset(),
            ranked@.len() == index,
            forall|i: int, j: int|
                0 <= i < j < ranked@.len() ==> candidate_order(ranked@[i], ranked@[j])
                    != Order::Greater,
        decreases candidates@.len() - index,
    {
        let candidate = candidates[index];
        let mut position: usize = 0;
        while position < ranked.len() && compare_partial_candidates(&ranked[position], &candidate)
            != Order::Greater
            invariant
                0 <= position <= ranked@.len(),
                forall|i: int|
                    0 <= i < position ==> candidate_order(ranked@[i], candidate) != Order::Greater,
            decreases ranked@.len() - position,
        {
            position = position + 1;
        }
        proof {
            assert forall|i: int| position <= i < ranked@.len() implies candidate_order(
                candidate,
                ranked@[i],
            ) != Order::Greater by {
                if position < ranked@.len() {
                    lemma_candidate_order_facts(ranked@[position as int], candidate, ranked@[i]);
                    lemma_candidate_order_facts(candidate, ranked@[position as int], ranked@[i]);
                }
            }
            assert(candidates@.take(index as int + 1) =~= candidates@.take(index as int).push(
                candidate,
            ));
            vstd::seq_lib::to_multiset_build(candidates@.take(index as int), candidate);
        }
        let ghost before = ranked@;
        ranked.insert(position, candidate);
        proof {
            assert forall|i: int, j: int|
                0 <= i < j < ranked@.len() implies candidate_order(ranked@[i], ranked@[j])
                != Order::Greater by {
                if j < position {
                    assert(ranked@[i] == before[i] && ranked@[j] == before[j]);
                } else if j == position {
                    assert(ranked@[i] == before[i]);
                } else if i < position {
                    assert(ranked@[i] == before[i] && ranked@[j] == before[j - 1]);
                    lemma_candidate_order_facts(before[i], candidate, before[j - 1]);
                } else if i == position {
                    assert(ranked@[j] == before[j - 1]);
                } else {
                    assert(ranked@[i] == before[i - 1] && ranked@[j] == before[j - 1]);
                }
            }
        }
        index = index + 1;
    }
    proof {
        assert(candidates@.take(index as int) =~= candidates@);
    }
    ranked
}

/// The identifier of a node on the wire.
pub fn wire_id(node_id: usize) -> (id: u64)
    requires
        node_id <= u64::MAX,
    ensures
        id == node_id,
{
    node_id as u64
}

/// An item describes node `id`: its id, its name decoded lossily, its kind
/// and its totals.
pub open spec fn item_matches(item: ScanItem, nodes: Seq<InternalNode>, id: int) -> bool {
    &&& item.id == id
    &&& item.name@ == crate::text::utf8_lossy(nodes[id].name@)
    &&& item.kind == nodes[id].kind
    &&& item.logical_bytes == nodes[id].logical_bytes
    &&& item.allocated_bytes == nodes[id].allocated_bytes
    &&& item.file_count == nodes[id].file_count
    &&& item.directory_count == nodes[id].directory_count
}

/// Describes one node as a listing item.
pub fn scan_item(nodes: &Vec<InternalNode>, node_id: usize) -> (item: ScanItem)
    requires
        node_id < nodes@.len(),
        nodes@.len() <= u64::MAX,
    ensures
        item_matches(item, nodes@, node_id as int),
{
    let node = &nodes[node_id];
    ScanItem {
        id: wire_id(node_id),
        name: crate::text::lossy_text(node.name.as_slice()),
        kind: node.kind,
        logical_bytes: node.logical_bytes,
        allocated_bytes: node.allocated_bytes,
        file_count: node.file_count,
        directory_count: node.directory_count,
    }
}

/// What observing the newest node does to the running ranking: a non-empty
/// file is ranked, or it was refused by a full ranking whose worst candidate
/// it does not beat; anything else leaves the ranking unchanged.
pub open spec fn partial_observed(
    before: PartialRanking,
    after: PartialRanking,
    nodes: Seq<InternalNode>,
    node_id: usize,
) -> bool {
    let node = nodes[node_id as int];
    let candidate = PartialCandidate {
        node_id,
        logical_bytes: node.logical_bytes,
        allocated_bytes: node.allocated_bytes,
    };
    if node.kind == EntryKind::File && (node.logical_bytes != 0 || node.allocated_bytes != 0) {
        after.candidates@.contains(candidate) || (before.candidates@.len() == MAX_PARTIAL_ITEMS
            && candidate_order(candidate, before.candidates@[before.worst_index.unwrap() as int])
            != Order::Less)
    } else {
        after.candidates@ == before.candidates@
    }
}

/// Offers the newest node to the running ranking when it is a non-empty
/// file; when it took hard-link bytes over from an earlier owner, it
/// replaces that owner's candidate if one is ranked.
pub fn observe_partial_file(
    partial_ranking: &mut PartialRanking,
    nodes: &Vec<InternalNode>,
    node_id: usize,
    replaced_owner: Option<usize>,
)
    requires
        old(partial_ranking).inv(),
        node_id < nodes@.len(),
        forall|k: int|
            0 <= k < old(partial_ranking).candidates@.len()
                ==> #[trigger] old(partial_ranking).candidates@[k].node_id < nodes@.len(),
    ensures
        final(partial_ranking).inv(),
        partial_observed(*old(partial_ranking), *final(partial_ranking), nodes@, node_id),
        forall|k: int|
            0 <= k < final(partial_ranking).candidates@.len()
                ==> #[trigger] final(partial_ranking).candidates@[k].node_id < nodes@.len(),
{
    let node = &nodes[node_id];
    if node.kind == EntryKind::File && (node.logical_bytes != 0 || node.allocated_bytes != 0) {
        let candidate = PartialCandidate {
            node_id,
            logical_bytes: node.logical_bytes,
            allocated_bytes: node.allocated_bytes,
        };
        if let Some(owner) = replaced_owner {
            if partial_ranking.replace(owner, candidate) {
                proof {
                    let k = choose|k: int|
                        0 <= k < old(partial_ranking).candidates@.len()
                            && old(partial_ranking).candidates@[k].node_id == owner && (forall|j: int|
                            0 <= j < k ==> #[trigger] old(partial_ranking).candidates@[j].node_id
                                != owner) && partial_ranking.candidates@ == old(
                            partial_ranking,
                        ).candidates@.update(k, candidate);
                    assert(partial_ranking.candidates@[k] == candidate);
                }
                return;
            }
        }
        partial_ranking.observe(candidate);
        proof {
            let old_c = old(partial_ranking).candidates@;
            if old_c.len() < MAX_PARTIAL_ITEMS {
                assert(partial_ranking.candidates@[old_c.len() as int] == candidate);
            } else {
                let w = old(partial_ranking).worst_index.unwrap() as int;
                if candidate_order(candidate, old_c[w]) == Order::Less {
                    assert(partial_ranking.candidates@[w] == candidate);
                }
            }
        }
    }
}

} // verus!

verus! {

/// The best `limit` node ids offered so far, in ranking order.
#[derive(Debug)]
pub struct TopNodes {
    pub ids: Vec<usize>,
}

/// The ranking invariant of a bounded selection over the ids offered so far:
/// the selection is strictly ordered, drawn from the offers, as long as the
/// limit allows, and every offer left out ranks after every selected id.
pub open spec fn top_nodes_inv(
    ids: Seq<usize>,
    seen: Seq<usize>,
    nodes: Seq<InternalNode>,
    metric: SizeMetric,
    limit: int,
) -> bool {
    &&& forall|i: int, j: int|
        0 <= i < j < ids.len() ==> node_order(nodes, metric, ids[i] as int, ids[j] as int)
            == Order::Less
    &&& forall|i: int| 0 <= i < ids.len() ==> #[trigger] seen.contains(ids[i])
    &&& ids.len() == (if seen.len() < limit {
        seen.len() as int
    } else {
        limit
    })
    &&& forall|k: int|
        0 <= k < seen.len() && !ids.contains(#[trigger] seen[k]) ==> forall|i: int|
            0 <= i < ids.len() ==> node_order(nodes, metric, ids[i] as int, seen[k] as int)
                == Order::Less
    &&& forall|k: int| 0 <= k < seen.len() ==> (#[trigger] seen[k] as int) < nodes.len()
    &&& forall|i: int| 0 <= i < ids.len() ==> (#[trigger] ids[i] as int) < nodes.len()
    &&& ids.len() < limit ==> forall|k: int| 0 <= k < seen.len() ==> ids.contains(#[trigger] seen[k])
}

impl TopNodes {
    /// An empty selection.
    pub fn new() -> (top: Self)
        ensures
            top.ids@.len() == 0,
    {
        TopNodes { ids: Vec::new() }
    }

    /// Offers a new id: it enters the selection when the selection has room
    /// or when it ranks before the last selected id, which then leaves.
    #[verifier::spinoff_prover]
    #[verifier::rlimit(60)]
    pub fn offer(
        &mut self,
        nodes: &Vec<InternalNode>,
        metric: SizeMetric,
        limit: usize,
        id: usize,
        Ghost(seen): Ghost<Seq<usize>>,
    )
        requires
            top_nodes_inv(old(self).ids@, seen, nodes@, metric, limit as int),
            !seen.contains(id),
            id < nodes@.len(),
            limit > 0,
        ensures
            top_nodes_inv(final(self).ids@, seen.push(id), nodes@, metric, limit as int),
    {
        let len = self.ids.len();
        if len == limit {
            let last = self.ids[len - 1];
            assert((self.ids@[len - 1] as int) < nodes@.len());
            if compare_node_ids_by_metric(nodes, id, last, metric) != Order::Less {
                proof {
                    let ids = self.ids@;
                    assert(seen.contains(last));
                    lemma_node_order_total(nodes@, metric, id as int, last as int);
                    let s2 = seen.push(id);
                    assert forall|i: int| 0 <= i < ids.len() implies #[trigger] s2.contains(
                        ids[i],
                    ) by {
                        assert(seen.contains(ids[i]));
                        let k = choose|k: int| 0 <= k < seen.len() && seen[k] == ids[i];
                        assert(s2[k] == ids[i]);
                    }
                    assert forall|k: int| 0 <= k < s2.len() implies (#[trigger] s2[k] as int) < nodes@.len() by {
                        if k < seen.len() {
                            assert(s2[k] == seen[k]);
                        }
                    }
                    assert forall|k: int|
                        0 <= k < s2.len() && !ids.contains(#[trigger] s2[k]) implies forall|i: int|
                        0 <= i < ids.len() ==> node_order(nodes@, metric, ids[i] as int, s2[k] as int)
                            == Order::Less by {
                        if k < seen.len() {
                            assert(s2[k] == seen[k]);
                        } else {
                            assert forall|i: int| 0 <= i < ids.len() implies node_order(
                                nodes@,
                                metric,
                                ids[i] as int,
                                s2[k] as int,
                            ) == Order::Less by {
                                if i < ids.len() - 1 {
                                    lemma_node_order_transitive(
                                        nodes@,
                                        metric,
                                        ids[i] as int,
                                        last as int,
                                        id as int,
                                    );
                                }
                            }
                        }
                    }
                }
                return;
            }
        }
        let mut position: usize = 0;
        while position < self.ids.len() && compare_node_ids_by_metric(
            nodes,
            self.ids[position],
            id,
            metric,
        ) == Order::Less
            invariant
                0 <= position <= self.ids@.len(),
                self.ids@ == old(self).ids@,
                top_nodes_inv(self.ids@, seen, nodes@, metric, limit as int),
                id < nodes@.len(),
                forall|i: int|
                    0 <= i < position ==> node_order(nodes@, metric, self.ids@[i] as int, id as int)
                        == Order::Less,
            decreases self.ids@.len() - position,
        {
            proof {
                assert(seen.contains(self.ids@[position as int]));
                let k = choose|k: int| 0 <= k < seen.len() && seen[k] == self.ids@[position as int];
                assert((seen[k] as int) < nodes@.len());
            }
            position = position + 1;
        }
        let ghost before = self.ids@;
        proof {
            assert forall|i: int| position <= i < before.len() implies node_order(
                nodes@,
                metric,
                id as int,
                before[i] as int,
            ) == Order::Less by {
                assert(seen.contains(before[i]));
                assert(before[i] != id);
                lemma_node_order_total(nodes@, metric, id as int, before[position as int] as int);
                lemma_node_order_total(nodes@, metric, before[position as int] as int, id as int);
                if i > position {
                    lemma_node_order_transitive(
                        nodes@,
                        metric,
                        id as int,
                        before[position as int] as int,
                        before[i] as int,
                    );
                }
            }
        }
        self.ids.insert(position, id);
        let ghost inserted = self.ids@;
        proof {
            assert forall|i: int, j: int|
                0 <= i < j < inserted.len() implies node_order(
                nodes@,
                metric,
                inserted[i] as int,
                inserted[j] as int,
            ) == Order::Less by {
                if j < position {
                    assert(inserted[i] == before[i] && inserted[j] == before[j]);
                } else if j == position {
                    assert(inserted[i] == before[i]);
                } else if i < position {
                    assert(inserted[i] == before[i] && inserted[j] == before[j - 1]);
                    lemma_node_order_transitive(
                        nodes@,
                        metric,
                        before[i] as int,
                        id as int,
                        before[j - 1] as int,
                    );
                } else if i == position {
                    assert(inserted[j] == before[j - 1]);
                } else {
                    assert(inserted[i] == before[i - 1] && inserted[j] == before[j - 1]);
                }
            }
        }
        if self.ids.len() > limit {
            let popped = self.ids.pop();
        }
        proof {
            let ids = self.ids@;
            let s2 = seen.push(id);
            assert forall|i: int| 0 <= i < ids.len() implies #[trigger] s2.contains(ids[i]) by {
                assert(ids[i] == inserted[i]);
                if i == position {
                    assert(s2[seen.len() as int] == id);
                } else {
                    let b = if i < position {
                        before[i]
                    } else {
                        before[i - 1]
                    };
                    assert(inserted[i] == b);
                    assert(seen.contains(b));
                    let k = choose|k: int| 0 <= k < seen.len() && seen[k] == b;
                    assert(s2[k] == b);
                }
            }
            assert forall|i: int, j: int|
                0 <= i < j < ids.len() implies node_order(
                nodes@,
                metric,
                ids[i] as int,
                ids[j] as int,
            ) == Order::Less by {
                assert(ids[i] == inserted[i] && ids[j] == inserted[j]);
            }
            assert forall|k: int|
                0 <= k < s2.len() && !ids.contains(#[trigger] s2[k]) implies forall|i: int|
                0 <= i < ids.len() ==> node_order(nodes@, metric, ids[i] as int, s2[k] as int)
                    == Order::Less by {
                let x = s2[k];
                if inserted.len() > ids.len() {
                    let e = inserted[inserted.len() - 1];
                    if x == e {
                        assert forall|i: int| 0 <= i < ids.len() implies node_order(
                            nodes@,
                            metric,
                            ids[i] as int,
                            x as int,
                        ) == Order::Less by {
                            assert(ids[i] == inserted[i]);
                        }
                    } else {
                        assert(k < seen.len());
                        assert(s2[k] == seen[k]);
                        if before.contains(x) {
                            let t = choose|t: int| 0 <= t < before.len() && before[t] == x;
                            if t < position {
                                assert(inserted[t] == x);
                                assert(ids[t] == x);
                            } else {
                                assert(inserted[t + 1] == x);
                                if t + 1 < ids.len() {
                                    assert(ids[t + 1] == x);
                                }
                            }
                        }
                        assert(!before.contains(x));
                        assert forall|i: int| 0 <= i < ids.len() implies node_order(
                            nodes@,
                            metric,
                            ids[i] as int,
                            x as int,
                        ) == Order::Less by {
                            assert(ids[i] == inserted[i]);
                            if i == position {
                                lemma_node_order_transitive(
                                    nodes@,
                                    metric,
                                    id as int,
                                    before[before.len() - 1] as int,
                                    x as int,
                                );
                            } else if i < position {
                                assert(inserted[i] == before[i]);
                            } else {
                                assert(inserted[i] == before[i - 1]);
                            }
                        }
                    }
                } else {
                    if k == seen.len() {
                        assert(ids[position as int] == id);
                        assert(ids.contains(x));
                    } else {
                        assert(s2[k] == seen[k]);
                        assert(before.contains(seen[k]));
                        let t = choose|t: int| 0 <= t < before.len() && before[t] == x;
                        if t < position {
                            assert(ids[t] == x);
                        } else {
                            assert(ids[t + 1] == x);
                        }
                        assert(false);
                    }
                }
            }
            assert forall|k: int| 0 <= k < s2.len() implies (#[trigger] s2[k] as int) < nodes@.len() by {
                if k < seen.len() {
                    assert(s2[k] == seen[k]);
                }
            }
            assert forall|i: int| 0 <= i < ids.len() implies (#[trigger] ids[i] as int) < nodes@.len() by {
                assert(s2.contains(ids[i]));
                let k = choose|k: int| 0 <= k < s2.len() && s2[k] == ids[i];
                assert((s2[k] as int) < nodes@.len());
            }
            if ids.len() < limit {
                assert forall|k: int| 0 <= k < s2.len() implies ids.contains(#[trigger] s2[k]) by {
                    if k == seen.len() {
                        assert(ids[position as int] == id);
                    } else {
                        assert(s2[k] == seen[k]);
                        assert(before.contains(seen[k]));
                        let t = choose|t: int| 0 <= t < before.len() && before[t] == seen[k];
                        if t < position {
                            assert(ids[t] == seen[k]);
                        } else {
                            assert(ids[t + 1] == seen[k]);
                        }
                    }
                }
            }
        }
    }
}

/// A selection in strict ranking order holds no id twice.
pub proof fn lemma_selection_distinct(ids: Seq<usize>, nodes: Seq<InternalNode>, metric: SizeMetric)
    requires
        forall|i: int, j: int|
            0 <= i < j < ids.len() ==> node_order(nodes, metric, ids[i] as int, ids[j] as int)
                == Order::Less,
    ensures
        ids.no_duplicates(),
{
    assert forall|i: int, j: int| 0 <= i < ids.len() && 0 <= j < ids.len() && i != j implies ids[i]
        != ids[j] by {
        if i < j {
            lemma_node_order_total(nodes, metric, ids[i] as int, ids[j] as int);
        } else {
            lemma_node_order_total(nodes, metric, ids[j] as int, ids[i] as int);
        }
    }
}

proof fn lemma_concat_contains(a: Seq<usize>, b: Seq<usize>, x: usize)
    ensures
        (a + b).contains(x) == (a.contains(x) || b.contains(x)),
{
    if (a + b).contains(x) {
        let k = choose|k: int| 0 <= k < (a + b).len() && (a + b)[k] == x;
        if k < a.len() {
            assert(a[k] == x);
        } else {
            assert(b[k - a.len()] == x);
        }
    }
    if a.contains(x) {
        let k = choose|k: int| 0 <= k < a.len() && a[k] == x;
        assert((a + b)[k] == x);
    }
    if b.contains(x) {
        let k = choose|k: int| 0 <= k < b.len() && b[k] == x;
        assert((a + b)[a.len() + k] == x);
    }
}

/// Cutting a stream of offers back to its best `limit` ids and ranking
/// what is kept together with the later offers selects exactly what ranking
/// all offers at once selects.
pub proof fn lemma_top_nodes_combine(
    kept: Seq<usize>,
    earlier: Seq<usize>,
    selected: Seq<usize>,
    later: Seq<usize>,
    nodes: Seq<InternalNode>,
    metric: SizeMetric,
    limit: int,
)
    requires
        limit > 0,
        top_nodes_inv(kept, earlier, nodes, metric, limit),
        top_nodes_inv(selected, kept + later, nodes, metric, limit),
        (earlier + later).no_duplicates(),
        forall|k: int| 0 <= k < later.len() ==> (#[trigger] later[k] as int) < nodes.len(),
    ensures
        top_nodes_inv(selected, earlier + later, nodes, metric, limit),
{
    let t = kept;
    let a = earlier;
    let r = selected;
    let b = later;
    let all = a + b;
    lemma_selection_distinct(t, nodes, metric);
    lemma_selection_distinct(r, nodes, metric);
    assert forall|i: int| 0 <= i < r.len() implies #[trigger] all.contains(r[i]) by {
        assert((t + b).contains(r[i]));
        lemma_concat_contains(t, b, r[i]);
        lemma_concat_contains(a, b, r[i]);
        if t.contains(r[i]) {
            let j = choose|j: int| 0 <= j < t.len() && t[j] == r[i];
            assert(a.contains(t[j]));
        }
    }
    assert forall|k: int| 0 <= k < all.len() implies (#[trigger] all[k] as int) < nodes.len() by {
        if k < a.len() {
            assert(all[k] == a[k]);
        } else {
            assert(all[k] == b[k - a.len()]);
        }
    }
    assert forall|k: int|
        0 <= k < all.len() && !r.contains(#[trigger] all[k]) implies forall|i: int|
        0 <= i < r.len() ==> node_order(nodes, metric, r[i] as int, all[k] as int) == Order::Less by {
        let x = all[k];
        if k >= a.len() {
            assert(x == b[k - a.len()]);
            assert((t + b)[t.len() + k - a.len()] == x);
        } else {
            assert(x == a[k]);
            if t.contains(x) {
                let j = choose|j: int| 0 <= j < t.len() && t[j] == x;
                assert((t + b)[j] == x);
            } else {
                assert(t.len() == limit);
                assert forall|i: int| 0 <= i < r.len() implies node_order(
                    nodes,
                    metric,
                    r[i] as int,
                    x as int,
                ) == Order::Less by {
                    let y = r[i];
                    assert((t + b).contains(y));
                    lemma_concat_contains(t, b, y);
                    if t.contains(y) {
                        let j = choose|j: int| 0 <= j < t.len() && t[j] == y;
                    } else {
                        let m = choose|m: int| 0 <= m < b.len() && b[m] == y;
                        assert(all[a.len() + m] == y);
                        assert(y != x);
                        lemma_node_order_total(nodes, metric, y as int, x as int);
                        if node_order(nodes, metric, y as int, x as int) != Order::Less {
                            assert(node_order(nodes, metric, x as int, y as int) == Order::Less);
                            assert forall|j: int| 0 <= j < t.len() implies r.contains(
                                #[trigger] t[j],
                            ) by {
                                lemma_node_order_transitive(
                                    nodes,
                                    metric,
                                    t[j] as int,
                                    x as int,
                                    y as int,
                                );
                                if !r.contains(t[j]) {
                                    assert((t + b)[j] == t[j]);
                                    lemma_node_order_total(nodes, metric, y as int, t[j] as int);
                                }
                            }
                            assert(t.to_set().subset_of(r.to_set().remove(y))) by {
                                assert forall|z: usize| #[trigger] t.to_set().contains(z) implies r.to_set().remove(
                                    y,
                                ).contains(z) by {
                                    assert(t.contains(z));
                                    let j = choose|j: int| 0 <= j < t.len() && t[j] == z;
                                    assert(r.contains(t[j]));
                                }
                            }
                            t.unique_seq_to_set();
                            r.unique_seq_to_set();
                            vstd::set_lib::lemma_len_subset(t.to_set(), r.to_set().remove(y));
                            assert(r.to_set().contains(y));
                            assert(false);
                        }
                    }
                }
            }
        }
    }
    if r.len() < limit {
        assert forall|k: int| 0 <= k < all.len() implies r.contains(#[trigger] all[k]) by {
            if k < a.len() {
                assert(all[k] == a[k]);
                assert(t.contains(a[k]));
                let j = choose|j: int| 0 <= j < t.len() && t[j] == a[k];
                assert((t + b)[j] == a[k]);
            } else {
                assert(all[k] == b[k - a.len()]);
                assert((t + b)[t.len() + k - a.len()] == b[k - a.len()]);
            }
        }
    }
}

proof fn lemma_strictly_ordered_same_ids(
    x: Seq<usize>,
    y: Seq<usize>,
    nodes: Seq<InternalNode>,
    metric: SizeMetric,
)
    requires
        x.len() == y.len(),
        forall|i: int, j: int|
            0 <= i < j < x.len() ==> node_order(nodes, metric, x[i] as int, x[j] as int)
                == Order::Less,
        forall|i: int, j: int|
            0 <= i < j < y.len() ==> node_order(nodes, metric, y[i] as int, y[j] as int)
                == Order::Less,
        forall|i: int| 0 <= i < x.len() ==> #[trigger] y.contains(x[i]),
        forall|j: int| 0 <= j < y.len() ==> #[trigger] x.contains(y[j]),
    ensures
        x == y,
    decreases x.len(),
{
    if x.len() > 0 {
        let n = x.len() - 1;
        let lx = x[n];
        let ly = y[n];
        assert(y.contains(lx));
        let j = choose|j: int| 0 <= j < y.len() && y[j] == lx;
        assert(x.contains(ly));
        let k = choose|k: int| 0 <= k < x.len() && x[k] == ly;
        if j < n {
            assert(node_order(nodes, metric, y[j] as int, ly as int) == Order::Less);
            if k < n {
                assert(node_order(nodes, metric, x[k] as int, lx as int) == Order::Less);
                lemma_node_order_total(nodes, metric, lx as int, ly as int);
            }
        }
        assert(j == n) by {
            if j < n {
                lemma_node_order_total(nodes, metric, lx as int, ly as int);
                if k == n {
                    lemma_node_order_total(nodes, metric, ly as int, ly as int);
                }
            }
        }
        let xs = x.drop_last();
        let ys = y.drop_last();
        assert forall|i: int| 0 <= i < xs.len() implies #[trigger] ys.contains(xs[i]) by {
            assert(y.contains(x[i]));
            let m = choose|m: int| 0 <= m < y.len() && y[m] == x[i];
            assert(node_order(nodes, metric, x[i] as int, lx as int) == Order::Less);
            if m == n {
                lemma_node_order_total(nodes, metric, lx as int, lx as int);
            }
            assert(ys[m] == xs[i]);
        }
        assert forall|i: int| 0 <= i < ys.len() implies #[trigger] xs.contains(ys[i]) by {
            assert(x.contains(y[i]));
            let m = choose|m: int| 0 <= m < x.len() && x[m] == y[i];
            assert(node_order(nodes, metric, y[i] as int, ly as int) == Order::Less);
            if m == n {
                lemma_node_order_total(nodes, metric, ly as int, ly as int);
            }
            assert(xs[m] == ys[i]);
        }
        lemma_strictly_ordered_same_ids(xs, ys, nodes, metric);
        assert(x =~= xs.push(lx));
        assert(y =~= ys.push(ly));
    }
}

/// A ranked selection is determined by what was offered: two selections of
/// the best `limit` ids among the same offers are the same sequence. So the
/// bounded, chunked ranking of a wide folder and the ranking of all its
/// shown children at once always agree.
pub proof fn lemma_top_nodes_unique(
    x: Seq<usize>,
    y: Seq<usize>,
    seen: Seq<usize>,
    nodes: Seq<InternalNode>,
    metric: SizeMetric,
    limit: int,
)
    requires
        top_nodes_inv(x, seen, nodes, metric, limit),
        top_nodes_inv(y, seen, nodes, metric, limit),
    ensures
        x == y,
{
    lemma_selection_distinct(x, nodes, metric);
    lemma_selection_distinct(y, nodes, metric);
    assert forall|i: int| 0 <= i < x.len() implies #[trigger] y.contains(x[i]) by {
        let e = x[i];
        if !y.contains(e) {
            assert(seen.contains(e));
            let k = choose|k: int| 0 <= k < seen.len() && seen[k] == e;
            assert forall|j: int| 0 <= j < y.len() implies x.contains(#[trigger] y[j]) by {
                assert(node_order(nodes, metric, y[j] as int, e as int) == Order::Less);
                if !x.contains(y[j]) {
                    assert(seen.contains(y[j]));
                    let m = choose|m: int| 0 <= m < seen.len() && seen[m] == y[j];
                    assert(node_order(nodes, metric, e as int, seen[m] as int) == Order::Less);
                    lemma_node_order_total(nodes, metric, e as int, y[j] as int);
                }
            }
            assert(y.to_set().subset_of(x.to_set().remove(e))) by {
                assert forall|z: usize| #[trigger] y.to_set().contains(z) implies x.to_set().remove(
                    e,
                ).contains(z) by {
                    let j = choose|j: int| 0 <= j < y.len() && y[j] == z;
                    assert(x.contains(y[j]));
                }
            }
            x.unique_seq_to_set();
            y.unique_seq_to_set();
            vstd::set_lib::lemma_len_subset(y.to_set(), x.to_set().remove(e));
            assert(x.to_set().contains(e));
            assert(false);
        }
    }
    assert forall|j: int| 0 <= j < y.len() implies #[trigger] x.contains(y[j]) by {
        let e = y[j];
        if !x.contains(e) {
            assert(seen.contains(e));
            assert forall|i: int| 0 <= i < x.len() implies y.contains(#[trigger] x[i]) by {
                assert(node_order(nodes, metric, x[i] as int, e as int) == Order::Less);
                if !y.contains(x[i]) {
                    assert(seen.contains(x[i]));
                    let m = choose|m: int| 0 <= m < seen.len() && seen[m] == x[i];
                    assert(node_order(nodes, metric, e as int, seen[m] as int) == Order::Less);
                    lemma_node_order_total(nodes, metric, e as int, x[i] as int);
                }
            }
            assert(x.to_set().subset_of(y.to_set().remove(e))) by {
                assert forall|z: usize| #[trigger] x.to_set().contains(z) implies y.to_set().remove(
                    e,
                ).contains(z) by {
                    let i = choose|i: int| 0 <= i < x.len() && x[i] == z;
                    assert(y.contains(x[i]));
                }
            }
            x.unique_seq_to_set();
            y.unique_seq_to_set();
            vstd::set_lib::lemma_len_subset(x.to_set(), y.to_set().remove(e));
            assert(y.to_set().contains(e));
            assert(false);
        }
    }
    lemma_strictly_ordered_same_ids(x, y, nodes, metric);
}

/// The running ranking holds the best of everything offered to it: distinct
/// candidates drawn from the offers, as many as the limit allows, and every
/// offer left out ranks after every kept candidate.
pub open spec fn keeps_best(kept: Seq<PartialCandidate>, offered: Seq<PartialCandidate>) -> bool {
    &&& kept.no_duplicates()
    &&& forall|i: int| 0 <= i < kept.len() ==> #[trigger] offered.contains(kept[i])
    &&& kept.len() == (if offered.len() < MAX_PARTIAL_ITEMS {
        offered.len() as int
    } else {
        MAX_PARTIAL_ITEMS as int
    })
    &&& kept.len() < MAX_PARTIAL_ITEMS ==> forall|k: int|
        0 <= k < offered.len() ==> kept.contains(#[trigger] offered[k])
    &&& forall|k: int|
        0 <= k < offered.len() && !kept.contains(#[trigger] offered[k]) ==> forall|i: int|
            0 <= i < kept.len() ==> candidate_order(kept[i], offered[k]) == Order::Less
}

proof fn lemma_candidate_order_strict(a: PartialCandidate, b: PartialCandidate, c: PartialCandidate)
    requires
        candidate_order(a, b) != Order::Greater,
        candidate_order(b, c) == Order::Less,
    ensures
        candidate_order(a, c) == Order::Less,
{
    lemma_candidate_order_facts(a, b, c);
}

/// Offering distinct candidates one by one to an empty running ranking
/// keeps the eight that rank first among all of them: each `observe` turns
/// the best of the earlier offers into the best of the earlier offers and
/// the new one.
pub proof fn lemma_observe_keeps_best(
    before: PartialRanking,
    after: PartialRanking,
    offered: Seq<PartialCandidate>,
    candidate: PartialCandidate,
)
    requires
        before.inv(),
        keeps_best(before.candidates@, offered),
        !offered.contains(candidate),
        after.candidates@ == (if before.candidates@.len() < MAX_PARTIAL_ITEMS {
            before.candidates@.push(candidate)
        } else {
            let w = before.worst_index.unwrap() as int;
            if candidate_order(candidate, before.candidates@[w]) == Order::Less {
                before.candidates@.update(w, candidate)
            } else {
                before.candidates@
            }
        }),
    ensures
        keeps_best(after.candidates@, offered.push(candidate)),
{
    let b = before.candidates@;
    let a = after.candidates@;
    let o2 = offered.push(candidate);
    assert(o2[offered.len() as int] == candidate);
    assert forall|k: int| 0 <= k < offered.len() implies o2[k] == offered[k] by {}
    if b.len() < MAX_PARTIAL_ITEMS {
        assert(a =~= b.push(candidate));
        assert(!b.contains(candidate)) by {
            if b.contains(candidate) {
                let i = choose|i: int| 0 <= i < b.len() && b[i] == candidate;
                assert(offered.contains(b[i]));
            }
        }
        assert(a.no_duplicates()) by {
            assert forall|i: int, j: int| 0 <= i < a.len() && 0 <= j < a.len() && i != j implies a[i]
                != a[j] by {
                if i < b.len() && j < b.len() {
                } else if i < b.len() {
                    assert(b.contains(b[i]));
                } else if j < b.len() {
                    assert(b.contains(b[j]));
                }
            }
        }
        assert forall|i: int| 0 <= i < a.len() implies #[trigger] o2.contains(a[i]) by {
            if i < b.len() {
                assert(offered.contains(b[i]));
                let k = choose|k: int| 0 <= k < offered.len() && offered[k] == b[i];
                assert(o2[k] == a[i]);
            } else {
                assert(o2[offered.len() as int] == a[i]);
            }
        }
        assert forall|k: int| 0 <= k < o2.len() implies a.contains(#[trigger] o2[k]) by {
            if k < offered.len() {
                assert(b.contains(offered[k]));
                let i = choose|i: int| 0 <= i < b.len() && b[i] == offered[k];
                assert(a[i] == o2[k]);
            } else {
                assert(a[b.len() as int] == o2[k]);
            }
        }
    } else {
        let w = before.worst_index.unwrap() as int;
        let worst = b[w];
        assert(is_worst(b, w));
        assert(offered.contains(worst));
        assert(worst != candidate);
        if candidate_order(candidate, worst) == Order::Less {
            assert(a =~= b.update(w, candidate));
            assert forall|i: int| 0 <= i < b.len() && i != w implies candidate_order(b[i], worst)
                == Order::Less by {
                assert(candidate_order(b[i], worst) != Order::Greater);
                lemma_candidate_order_facts(b[i], worst, worst);
                assert(b[i] != worst);
            }
            assert(!b.contains(candidate)) by {
                if b.contains(candidate) {
                    let i = choose|i: int| 0 <= i < b.len() && b[i] == candidate;
                    assert(offered.contains(b[i]));
                }
            }
            assert(a.no_duplicates()) by {
                assert forall|i: int, j: int| 0 <= i < a.len() && 0 <= j < a.len() && i != j implies a[i]
                    != a[j] by {
                    if i != w && j != w {
                    } else if i == w {
                        assert(b.contains(b[j]));
                    } else {
                        assert(b.contains(b[i]));
                    }
                }
            }
            assert forall|i: int| 0 <= i < a.len() implies #[trigger] o2.contains(a[i]) by {
                if i != w {
                    assert(offered.contains(b[i]));
                    let k = choose|k: int| 0 <= k < offered.len() && offered[k] == b[i];
                    assert(o2[k] == a[i]);
                } else {
                    assert(o2[offered.len() as int] == a[i]);
                }
            }
            assert forall|k: int| 0 <= k < o2.len() && !a.contains(#[trigger] o2[k]) implies forall|i: int|
                0 <= i < a.len() ==> candidate_order(a[i], o2[k]) == Order::Less by {
                let x = o2[k];
                assert(k < offered.len()) by {
                    if k == offered.len() {
                        assert(a[w] == x);
                    }
                }
                assert(x == offered[k]);
                if x == worst {
                    assert forall|i: int| 0 <= i < a.len() implies candidate_order(a[i], x)
                        == Order::Less by {
                        if i == w {
                        } else {
                        }
                    }
                } else {
                    assert(!b.contains(x)) by {
                        if b.contains(x) {
                            let i = choose|i: int| 0 <= i < b.len() && b[i] == x;
                            if i != w {
                                assert(a[i] == x);
                            }
                        }
                    }
                    assert(candidate_order(worst, x) == Order::Less);
                    assert forall|i: int| 0 <= i < a.len() implies candidate_order(a[i], x)
                        == Order::Less by {
                        if i == w {
                            lemma_candidate_order_strict(candidate, worst, x);
                        } else {
                            assert(a[i] == b[i]);
                        }
                    }
                }
            }
        } else {
            assert(a =~= b);
            lemma_candidate_order_facts(candidate, worst, worst);
            assert(candidate_order(worst, candidate) == Order::Less) by {
                lemma_candidate_order_facts(worst, candidate, candidate);
                if candidate_order(candidate, worst) == Order::Equal {
                    assert(candidate == worst);
                }
            }
            assert forall|i: int| 0 <= i < a.len() implies #[trigger] o2.contains(a[i]) by {
                assert(offered.contains(b[i]));
                let k = choose|k: int| 0 <= k < offered.len() && offered[k] == b[i];
                assert(o2[k] == a[i]);
            }
            assert forall|k: int| 0 <= k < o2.len() && !a.contains(#[trigger] o2[k]) implies forall|i: int|
                0 <= i < a.len() ==> candidate_order(a[i], o2[k]) == Order::Less by {
                if k == offered.len() {
                    assert forall|i: int| 0 <= i < a.len() implies candidate_order(a[i], o2[k])
                        == Order::Less by {
                        lemma_candidate_order_strict(b[i], worst, candidate);
                    }
                } else {
                    assert(o2[k] == offered[k]);
                }
            }
        }
    }
}

} // verus!
