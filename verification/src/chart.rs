//! The bounded storage chart: up to three folder levels of ranked segments
//! drawn from one global budget, with an aggregate segment standing for
//! what each level leaves out.
use vstd::prelude::*;
use crate::arena::{InternalNode, arena_wf, child_links, sat_add, sat_sub};
use crate::ranking::{node_order, top_nodes_inv, wire_id};
use crate::snapshot::{
    MAX_CHART_DEPTH, MAX_CHART_ITEMS_PER_DIRECTORY, ranked_node_ids, shown_children,
};
use crate::text::{Order, digit_char, digit_text, lossy_text, utf8_lossy};
use vstd::string::StringExecFns;
use crate::types::{ChartItem, EntryKind, SizeMetric, spec_chart_item_count, spec_chart_items_count};

verus! {

/// The children of `parent` that the chart may draw.
pub open spec fn chart_shown(
    nodes: Seq<InternalNode>,
    macos_root: bool,
    parent: int,
    metric: SizeMetric,
) -> Seq<usize> {
    shown_children(nodes, nodes[parent].children@, metric, macos_root && parent == 0)
}

/// The node ids of a run of node segments.
pub open spec fn chart_ids(items: Seq<ChartItem>) -> Seq<usize> {
    Seq::new(items.len(), |i: int| items[i].id.unwrap() as usize)
}

/// A segment draws node `id`.
pub open spec fn segment_describes(item: ChartItem, nodes: Seq<InternalNode>, id: int) -> bool {
    &&& 0 <= id < nodes.len()
    &&& item.id == Some(id as u64)
    &&& item.name@ == utf8_lossy(nodes[id].name@)
    &&& item.kind == nodes[id].kind
    &&& item.logical_bytes == nodes[id].logical_bytes
    &&& item.allocated_bytes == nodes[id].allocated_bytes
}

/// The logical bytes of some nodes, added with saturation.
pub open spec fn logical_total(nodes: Seq<InternalNode>, ids: Seq<usize>) -> u64
    decreases ids.len(),
{
    if ids.len() == 0 {
        0
    } else {
        sat_add(logical_total(nodes, ids.drop_last()) as int, nodes[ids.last() as int].logical_bytes as int)
    }
}

/// The allocated bytes of some nodes, added with saturation.
pub open spec fn allocated_total(nodes: Seq<InternalNode>, ids: Seq<usize>) -> u64
    decreases ids.len(),
{
    if ids.len() == 0 {
        0
    } else {
        sat_add(
            allocated_total(nodes, ids.drop_last()) as int,
            nodes[ids.last() as int].allocated_bytes as int,
        )
    }
}

/// The decimal digits of a number.
pub open spec fn decimal_digits(n: nat) -> Seq<char>
    decreases n,
{
    if n < 10 {
        seq![(48 + n) as char]
    } else {
        decimal_digits(n / 10).push((48 + n % 10) as char)
    }
}

/// The label of an aggregate segment standing for `count` items.
pub open spec fn more_items_label(count: nat) -> Seq<char> {
    decimal_digits(count) + " more items"@
}

/// Writes a number in decimal.
pub fn decimal_text(n: u64) -> (text: String)
    ensures
        text@ == decimal_digits(n as nat),
    decreases n,
{
    if n < 10 {
        String::from_str(digit_text(n))
    } else {
        let mut text = decimal_text(n / 10);
        text.append(digit_text(n % 10));
        proof {
            assert(digit_char((n % 10) as nat) == (48 + n % 10) as char);
        }
        text
    }
}

/// The label of an aggregate segment: the number of items it stands for in
/// decimal, then " more items".
fn format_more_items(count: usize) -> (label: String)
    ensures
        label@ == more_items_label(count as nat),
{
    let mut label = decimal_text(count as u64);
    label.append(" more items");
    label
}

/// The aggregate segment of a level: it stands for the children left out and
/// carries their bytes, the saturated total of all children less the
/// saturated total of the drawn ones.
pub open spec fn aggregate_describes(
    item: ChartItem,
    nodes: Seq<InternalNode>,
    parent: int,
    selected: Seq<usize>,
    left_out: nat,
) -> bool {
    let children = nodes[parent].children@;
    &&& item.id is None
    &&& item.name@ == more_items_label(left_out)
    &&& item.kind == EntryKind::Other
    &&& item.logical_bytes == sat_sub(
        logical_total(nodes, children) as int,
        logical_total(nodes, selected) as int,
    )
    &&& item.allocated_bytes == sat_sub(
        allocated_total(nodes, children) as int,
        allocated_total(nodes, selected) as int,
    )
    &&& item.children@.len() == 0
}

/// How many ranked children a level draws: as many as are ranked and the
/// budget allows, keeping one unit for the aggregate when children are left
/// out.
pub open spec fn chart_selection(ranked_len: int, total: int, budget: int) -> int {
    let first = if ranked_len < budget {
        ranked_len
    } else {
        budget
    };
    if total > first {
        if first < budget - 1 {
            first
        } else {
            budget - 1
        }
    } else {
        first
    }
}

/// What the chart of one level of `parent` at `depth` is, given the budget
/// before it: `Some` of the budget left after it when `items` is that chart,
/// `None` otherwise. A level with children draws the best-ranked shown
/// children (at most 16) that the budget allows, then an aggregate for the
/// rest; the level's own segments are paid first, then each drawn folder's
/// chart in order.
pub open spec fn chart_level(
    items: Seq<ChartItem>,
    nodes: Seq<InternalNode>,
    macos_root: bool,
    parent: int,
    depth: int,
    metric: SizeMetric,
    budget: int,
) -> Option<int>
    decreases MAX_CHART_DEPTH - depth, 2int, 0int,
{
    let total = nodes[parent].children@.len() as int;
    if budget <= 0 || total == 0 {
        if items.len() == 0 {
            Some(budget)
        } else {
            None
        }
    } else {
        let shown = chart_shown(nodes, macos_root, parent, metric);
        let ranked_len = if shown.len() < MAX_CHART_ITEMS_PER_DIRECTORY {
            shown.len() as int
        } else {
            MAX_CHART_ITEMS_PER_DIRECTORY as int
        };
        let selected_count = chart_selection(ranked_len, total, budget);
        let aggregate = total > selected_count;
        let level = selected_count + if aggregate {
            1int
        } else {
            0int
        };
        let selected = items.take(selected_count);
        if items.len() != level || !top_nodes_inv(
            chart_ids(selected),
            shown,
            nodes,
            metric,
            selected_count,
        ) {
            None
        } else {
            match chart_selected(selected, nodes, macos_root, depth, metric, budget - level) {
                Some(after) => if aggregate && !aggregate_describes(
                    items[selected_count],
                    nodes,
                    parent,
                    chart_ids(selected),
                    (total - selected_count) as nat,
                ) {
                    None
                } else {
                    Some(after)
                },
                None => None,
            }
        }
    }
}

/// The drawn segments of a level, each followed by its own chart in order.
pub open spec fn chart_selected(
    items: Seq<ChartItem>,
    nodes: Seq<InternalNode>,
    macos_root: bool,
    depth: int,
    metric: SizeMetric,
    budget: int,
) -> Option<int>
    decreases MAX_CHART_DEPTH - depth, 1int, items.len(),
{
    if items.len() == 0 {
        Some(budget)
    } else {
        match chart_selected(items.drop_last(), nodes, macos_root, depth, metric, budget) {
            Some(middle) => chart_segment(items.last(), nodes, macos_root, depth, metric, middle),
            None => None,
        }
    }
}

/// One drawn segment: it describes its node, and a folder below the depth
/// limit carries the chart of its own children while budget remains.
pub open spec fn chart_segment(
    item: ChartItem,
    nodes: Seq<InternalNode>,
    macos_root: bool,
    depth: int,
    metric: SizeMetric,
    budget: int,
) -> Option<int>
    decreases MAX_CHART_DEPTH - depth, 0int, 0int,
{
    let id = item.id.unwrap() as int;
    if !segment_describes(item, nodes, id) {
        None
    } else if nodes[id].kind == EntryKind::Directory && depth + 1 < MAX_CHART_DEPTH && budget > 0 {
        chart_level(item.children@, nodes, macos_root, id, depth + 1, metric, budget)
    } else if item.children@.len() == 0 {
        Some(budget)
    } else {
        None
    }
}

proof fn lemma_items_count_push(items: Seq<ChartItem>, item: ChartItem)
    ensures
        spec_chart_items_count(items.push(item)) == spec_chart_items_count(items)
            + spec_chart_item_count(item),
{
    assert(items.push(item).drop_last() =~= items);
}

/// Every chart segment is paid for: a level's segments, at every depth, number
/// exactly the budget it consumed, so a chart never draws more segments than
/// its budget.
pub proof fn lemma_chart_level_count(
    items: Seq<ChartItem>,
    nodes: Seq<InternalNode>,
    macos_root: bool,
    parent: int,
    depth: int,
    metric: SizeMetric,
    budget: int,
)
    requires
        budget >= 0,
        chart_level(items, nodes, macos_root, parent, depth, metric, budget) is Some,
    ensures
        ({
            let after = chart_level(items, nodes, macos_root, parent, depth, metric, budget).unwrap();
            &&& 0 <= after <= budget
            &&& spec_chart_items_count(items) == budget - after
        }),
    decreases MAX_CHART_DEPTH - depth, 2int, 0int,
{
    let total = nodes[parent].children@.len() as int;
    if budget <= 0 || total == 0 {
    } else {
        let shown = chart_shown(nodes, macos_root, parent, metric);
        let ranked_len = if shown.len() < MAX_CHART_ITEMS_PER_DIRECTORY {
            shown.len() as int
        } else {
            MAX_CHART_ITEMS_PER_DIRECTORY as int
        };
        let selected_count = chart_selection(ranked_len, total, budget);
        let aggregate = total > selected_count;
        let level = selected_count + if aggregate {
            1int
        } else {
            0int
        };
        let selected = items.take(selected_count);
        lemma_chart_selected_count(selected, nodes, macos_root, depth, metric, budget - level);
        if aggregate {
            assert(items =~= selected.push(items[selected_count]));
            lemma_items_count_push(selected, items[selected_count]);
            assert(spec_chart_items_count(items[selected_count].children@) == 0);
        } else {
            assert(items =~= selected);
        }
    }
}

/// The drawn segments of a level number their count plus the budget their
/// own charts consumed.
pub proof fn lemma_chart_selected_count(
    items: Seq<ChartItem>,
    nodes: Seq<InternalNode>,
    macos_root: bool,
    depth: int,
    metric: SizeMetric,
    budget: int,
)
    requires
        budget >= 0,
        chart_selected(items, nodes, macos_root, depth, metric, budget) is Some,
    ensures
        ({
            let after = chart_selected(items, nodes, macos_root, depth, metric, budget).unwrap();
            &&& 0 <= after <= budget
            &&& spec_chart_items_count(items) == items.len() + budget - after
        }),
    decreases MAX_CHART_DEPTH - depth, 1int, items.len(),
{
    if items.len() > 0 {
        lemma_chart_selected_count(items.drop_last(), nodes, macos_root, depth, metric, budget);
        let middle = chart_selected(items.drop_last(), nodes, macos_root, depth, metric, budget).unwrap();
        lemma_chart_segment_count(items.last(), nodes, macos_root, depth, metric, middle);
        assert(items =~= items.drop_last().push(items.last()));
        lemma_items_count_push(items.drop_last(), items.last());
    }
}

/// One drawn segment counts itself plus the budget its own chart consumed.
pub proof fn lemma_chart_segment_count(
    item: ChartItem,
    nodes: Seq<InternalNode>,
    macos_root: bool,
    depth: int,
    metric: SizeMetric,
    budget: int,
)
    requires
        budget >= 0,
        chart_segment(item, nodes, macos_root, depth, metric, budget) is Some,
    ensures
        ({
            let after = chart_segment(item, nodes, macos_root, depth, metric, budget).unwrap();
            &&& 0 <= after <= budget
            &&& spec_chart_item_count(item) == 1 + budget - after
        }),
    decreases MAX_CHART_DEPTH - depth, 0int, 0int,
{
    let id = item.id.unwrap() as int;
    if nodes[id].kind == EntryKind::Directory && depth + 1 < MAX_CHART_DEPTH && budget > 0 {
        lemma_chart_level_count(item.children@, nodes, macos_root, id, depth + 1, metric, budget);
    } else {
        assert(spec_chart_items_count(item.children@) == 0);
    }
}

/// A prefix of a bounded selection is the bounded selection of the prefix's
/// size.
pub proof fn lemma_top_prefix(
    ids: Seq<usize>,
    seen: Seq<usize>,
    nodes: Seq<InternalNode>,
    metric: SizeMetric,
    limit: int,
    count: int,
)
    requires
        top_nodes_inv(ids, seen, nodes, metric, limit),
        0 <= count <= limit,
        count <= ids.len(),
    ensures
        top_nodes_inv(ids.take(count), seen, nodes, metric, count),
{
    let prefix = ids.take(count);
    assert forall|i: int| 0 <= i < prefix.len() implies #[trigger] seen.contains(prefix[i]) by {
        assert(seen.contains(ids[i]));
    }
    assert forall|i: int| 0 <= i < prefix.len() implies (#[trigger] prefix[i] as int) < nodes.len() by {
        assert((ids[i] as int) < nodes.len());
    }
    assert forall|k: int|
        0 <= k < seen.len() && !prefix.contains(#[trigger] seen[k]) implies forall|i: int|
        0 <= i < prefix.len() ==> node_order(nodes, metric, prefix[i] as int, seen[k] as int)
            == Order::Less by {
        if ids.contains(seen[k]) {
            let j = choose|j: int| 0 <= j < ids.len() && ids[j] == seen[k];
            if j < count {
                assert(prefix[j] == seen[k]);
            }
            assert forall|i: int| 0 <= i < prefix.len() implies node_order(
                nodes,
                metric,
                prefix[i] as int,
                seen[k] as int,
            ) == Order::Less by {
                assert(prefix[i] == ids[i]);
            }
        } else {
            assert forall|i: int| 0 <= i < prefix.len() implies node_order(
                nodes,
                metric,
                prefix[i] as int,
                seen[k] as int,
            ) == Order::Less by {
                assert(prefix[i] == ids[i]);
            }
        }
    }
    if prefix.len() < count {
        assert(false);
    }
}

/// A node's logical or allocated bytes.
pub open spec fn node_bytes(node: InternalNode, logical: bool) -> int {
    if logical {
        node.logical_bytes as int
    } else {
        node.allocated_bytes as int
    }
}

/// A segment's logical or allocated bytes.
pub open spec fn item_bytes(item: ChartItem, logical: bool) -> int {
    if logical {
        item.logical_bytes as int
    } else {
        item.allocated_bytes as int
    }
}

/// The exact sum of some nodes' bytes.
pub open spec fn bytes_sum(nodes: Seq<InternalNode>, ids: Seq<usize>, logical: bool) -> int
    decreases ids.len(),
{
    if ids.len() == 0 {
        0
    } else {
        bytes_sum(nodes, ids.drop_last(), logical) + node_bytes(nodes[ids.last() as int], logical)
    }
}

/// The exact sum of some segments' bytes.
pub open spec fn items_bytes_sum(items: Seq<ChartItem>, logical: bool) -> int
    decreases items.len(),
{
    if items.len() == 0 {
        0
    } else {
        items_bytes_sum(items.drop_last(), logical) + item_bytes(items.last(), logical)
    }
}

/// The saturated total of some nodes' bytes.
pub open spec fn saturated_total(nodes: Seq<InternalNode>, ids: Seq<usize>, logical: bool) -> u64 {
    if logical {
        logical_total(nodes, ids)
    } else {
        allocated_total(nodes, ids)
    }
}

proof fn lemma_bytes_sum_nonnegative(nodes: Seq<InternalNode>, ids: Seq<usize>, logical: bool)
    ensures
        bytes_sum(nodes, ids, logical) >= 0,
    decreases ids.len(),
{
    if ids.len() > 0 {
        lemma_bytes_sum_nonnegative(nodes, ids.drop_last(), logical);
    }
}

proof fn lemma_bytes_sum_remove(nodes: Seq<InternalNode>, ids: Seq<usize>, i: int, logical: bool)
    requires
        0 <= i < ids.len(),
    ensures
        bytes_sum(nodes, ids, logical) == bytes_sum(nodes, ids.remove(i), logical) + node_bytes(
            nodes[ids[i] as int],
            logical,
        ),
    decreases ids.len(),
{
    if i < ids.len() - 1 {
        lemma_bytes_sum_remove(nodes, ids.drop_last(), i, logical);
        assert(ids.remove(i).drop_last() =~= ids.drop_last().remove(i));
        assert(ids.remove(i).last() == ids.last());
    } else {
        assert(ids.remove(i) =~= ids.drop_last());
    }
}

/// A selection of distinct ids drawn from distinct ids has at most their
/// sum, and exactly their sum when it draws them all.
proof fn lemma_bytes_sum_subset(
    nodes: Seq<InternalNode>,
    sub: Seq<usize>,
    sup: Seq<usize>,
    logical: bool,
)
    requires
        sub.no_duplicates(),
        sup.no_duplicates(),
        forall|i: int| 0 <= i < sub.len() ==> sup.contains(#[trigger] sub[i]),
    ensures
        sub.len() <= sup.len(),
        bytes_sum(nodes, sub, logical) <= bytes_sum(nodes, sup, logical),
        sub.len() == sup.len() ==> bytes_sum(nodes, sub, logical) == bytes_sum(nodes, sup, logical),
    decreases sup.len(),
{
    if sup.len() == 0 {
        if sub.len() > 0 {
            assert(sup.contains(sub[0]));
        }
    } else {
        let x = sup.last();
        let rest = sup.drop_last();
        assert(rest.no_duplicates());
        if sub.contains(x) {
            let i = choose|i: int| 0 <= i < sub.len() && sub[i] == x;
            let smaller = sub.remove(i);
            assert forall|j: int| 0 <= j < smaller.len() implies rest.contains(#[trigger] smaller[j]) by {
                let k = if j < i {
                    j
                } else {
                    j + 1
                };
                assert(smaller[j] == sub[k]);
                assert(sub[k] != x);
                let m = choose|m: int| 0 <= m < sup.len() && sup[m] == sub[k];
                assert(m != sup.len() - 1);
                assert(rest[m] == sub[k]);
            }
            assert(smaller.no_duplicates()) by {
                assert forall|a: int, b: int| 0 <= a < b < smaller.len() implies smaller[a] != smaller[b] by {
                    let ka = if a < i {
                        a
                    } else {
                        a + 1
                    };
                    let kb = if b < i {
                        b
                    } else {
                        b + 1
                    };
                    assert(smaller[a] == sub[ka]);
                    assert(smaller[b] == sub[kb]);
                }
            }
            lemma_bytes_sum_subset(nodes, smaller, rest, logical);
            lemma_bytes_sum_remove(nodes, sub, i, logical);
        } else {
            assert forall|j: int| 0 <= j < sub.len() implies rest.contains(#[trigger] sub[j]) by {
                let m = choose|m: int| 0 <= m < sup.len() && sup[m] == sub[j];
                assert(m != sup.len() - 1);
                assert(rest[m] == sub[j]);
            }
            lemma_bytes_sum_subset(nodes, sub, rest, logical);
        }
    }
}

proof fn lemma_saturated_total_exact(nodes: Seq<InternalNode>, ids: Seq<usize>, logical: bool)
    requires
        bytes_sum(nodes, ids, logical) <= u64::MAX,
    ensures
        saturated_total(nodes, ids, logical) == bytes_sum(nodes, ids, logical),
    decreases ids.len(),
{
    if ids.len() > 0 {
        lemma_bytes_sum_nonnegative(nodes, ids.drop_last(), logical);
        lemma_saturated_total_exact(nodes, ids.drop_last(), logical);
    }
}

proof fn lemma_selected_describe(
    items: Seq<ChartItem>,
    nodes: Seq<InternalNode>,
    macos_root: bool,
    depth: int,
    metric: SizeMetric,
    budget: int,
    logical: bool,
)
    requires
        nodes.len() <= usize::MAX,
        chart_selected(items, nodes, macos_root, depth, metric, budget) is Some,
    ensures
        items_bytes_sum(items, logical) == bytes_sum(nodes, chart_ids(items), logical),
    decreases items.len(),
{
    if items.len() > 0 {
        let middle = chart_selected(items.drop_last(), nodes, macos_root, depth, metric, budget);
        assert(middle is Some);
        lemma_selected_describe(items.drop_last(), nodes, macos_root, depth, metric, budget, logical);
        assert(chart_segment(items.last(), nodes, macos_root, depth, metric, middle.unwrap()) is Some);
        assert(segment_describes(items.last(), nodes, items.last().id.unwrap() as int));
        assert(chart_ids(items).drop_last() =~= chart_ids(items.drop_last()));
    }
}

/// No bytes are lost in the chart: when the bytes of a folder's children add
/// up without saturating, the segments of the folder's chart level (its
/// drawn children and the aggregate for the rest) add up to exactly that
/// total, in both logical and allocated bytes. The same holds of the chart
/// level below every drawn folder.
pub proof fn lemma_chart_level_keeps_bytes(
    items: Seq<ChartItem>,
    nodes: Seq<InternalNode>,
    macos_root: bool,
    parent: int,
    depth: int,
    metric: SizeMetric,
    budget: int,
    logical: bool,
)
    requires
        arena_wf(nodes),
        nodes.len() <= usize::MAX,
        0 <= parent < nodes.len(),
        budget > 0,
        nodes[parent].children@.len() > 0,
        chart_level(items, nodes, macos_root, parent, depth, metric, budget) is Some,
        bytes_sum(nodes, nodes[parent].children@, logical) <= u64::MAX,
    ensures
        items_bytes_sum(items, logical) == bytes_sum(nodes, nodes[parent].children@, logical),
{
    let children = nodes[parent].children@;
    let total = children.len() as int;
    let shown = chart_shown(nodes, macos_root, parent, metric);
    let ranked_len = if shown.len() < MAX_CHART_ITEMS_PER_DIRECTORY {
        shown.len() as int
    } else {
        MAX_CHART_ITEMS_PER_DIRECTORY as int
    };
    let selected_count = chart_selection(ranked_len, total, budget);
    let aggregate = total > selected_count;
    let level = selected_count + if aggregate {
        1int
    } else {
        0int
    };
    let selected = items.take(selected_count);
    let ids = chart_ids(selected);
    assert(top_nodes_inv(ids, shown, nodes, metric, selected_count));
    assert(children.no_duplicates()) by {
        assert forall|a: int, b: int| 0 <= a < b < children.len() implies children[a]
            != children[b] by {
            assert(nodes[parent].children@[a] != nodes[parent].children@[b]);
        }
    }
    assert(ids.no_duplicates()) by {
        assert forall|a: int, b: int| 0 <= a < b < ids.len() implies ids[a] != ids[b] by {
            crate::ranking::lemma_node_order_total(nodes, metric, ids[a] as int, ids[b] as int);
        }
    }
    assert forall|i: int| 0 <= i < ids.len() implies children.contains(#[trigger] ids[i]) by {
        assert(shown.contains(ids[i]));
        crate::snapshot::lemma_shown_children_subset(
            nodes,
            children,
            metric,
            macos_root && parent == 0,
            ids[i],
        );
    }
    lemma_bytes_sum_subset(nodes, ids, children, logical);
    let after = chart_selected(selected, nodes, macos_root, depth, metric, budget - level);
    lemma_selected_describe(selected, nodes, macos_root, depth, metric, budget - level, logical);
    if aggregate {
        assert(items.drop_last() =~= selected);
        lemma_bytes_sum_nonnegative(nodes, ids, logical);
        lemma_saturated_total_exact(nodes, children, logical);
        lemma_saturated_total_exact(nodes, ids, logical);
        assert(aggregate_describes(items[selected_count], nodes, parent, ids, (total - selected_count) as nat));
    } else {
        assert(items =~= selected);
    }
}

fn saturating_child_totals(nodes: &Vec<InternalNode>, ids: &Vec<usize>, count: usize) -> (totals: (
    u64,
    u64,
))
    requires
        count <= ids@.len(),
        forall|k: int| 0 <= k < ids@.len() ==> (#[trigger] ids@[k] as int) < nodes@.len(),
    ensures
        totals.0 == logical_total(nodes@, ids@.take(count as int)),
        totals.1 == allocated_total(nodes@, ids@.take(count as int)),
{
    let mut logical: u64 = 0;
    let mut allocated: u64 = 0;
    let mut index: usize = 0;
    proof {
        assert(ids@.take(0) =~= Seq::<usize>::empty());
    }
    while index < count
        invariant
            0 <= index <= count <= ids@.len(),
            forall|k: int| 0 <= k < ids@.len() ==> (#[trigger] ids@[k] as int) < nodes@.len(),
            logical == logical_total(nodes@, ids@.take(index as int)),
            allocated == allocated_total(nodes@, ids@.take(index as int)),
        decreases count - index,
    {
        let node = &nodes[ids[index]];
        proof {
            assert(ids@.take(index as int + 1).drop_last() =~= ids@.take(index as int));
            assert(ids@.take(index as int + 1).last() == ids@[index as int]);
        }
        logical = logical.saturating_add(node.logical_bytes);
        allocated = allocated.saturating_add(node.allocated_bytes);
        index = index + 1;
    }
    (logical, allocated)
}

/// The chart of the children of `parent` at `depth`: empty at the depth
/// limit or when the budget is spent, otherwise the level chart of its
/// best-ranked shown children.
pub fn chart_children(
    nodes: &Vec<InternalNode>,
    macos_root: bool,
    parent: usize,
    depth: usize,
    metric: SizeMetric,
    budget: &mut usize,
) -> (items: Vec<ChartItem>)
    requires
        arena_wf(nodes@),
        nodes@.len() <= u64::MAX,
        parent < nodes@.len(),
        depth <= MAX_CHART_DEPTH,
    ensures
        if depth >= MAX_CHART_DEPTH || *old(budget) == 0 {
            items@.len() == 0 && *final(budget) == *old(budget)
        } else {
            chart_level(items@, nodes@, macos_root, parent as int, depth as int, metric, *old(budget) as int)
                == Some(*final(budget) as int)
        },
    decreases MAX_CHART_DEPTH - depth, 1int,
{
    if depth >= MAX_CHART_DEPTH || *budget == 0 {
        return Vec::new();
    }
    let children = &nodes[parent].children;
    proof {
        assert forall|k: int| 0 <= k < children@.len() implies (#[trigger] children@[k] as int)
            < nodes@.len() by {
            assert(child_links(nodes@, parent as int, k));
        }
    }
    let ranked = ranked_node_ids(
        children,
        MAX_CHART_ITEMS_PER_DIRECTORY,
        nodes,
        metric,
        macos_root && parent == 0,
    );
    chart_items(nodes, macos_root, parent, depth, &ranked, children.len(), metric, budget)
}

/// The level chart of `parent` drawn from its ranked shown children: the
/// level's segments are paid from the budget first, then each drawn folder
/// descends with what remains.
pub fn chart_items(
    nodes: &Vec<InternalNode>,
    macos_root: bool,
    parent: usize,
    depth: usize,
    ranked: &Vec<usize>,
    total_items: usize,
    metric: SizeMetric,
    budget: &mut usize,
) -> (items: Vec<ChartItem>)
    requires
        arena_wf(nodes@),
        nodes@.len() <= u64::MAX,
        parent < nodes@.len(),
        depth < MAX_CHART_DEPTH,
        total_items == nodes@[parent as int].children@.len(),
        top_nodes_inv(
            ranked@,
            chart_shown(nodes@, macos_root, parent as int, metric),
            nodes@,
            metric,
            MAX_CHART_ITEMS_PER_DIRECTORY as int,
        ),
    ensures
        chart_level(items@, nodes@, macos_root, parent as int, depth as int, metric, *old(budget) as int)
            == Some(*final(budget) as int),
    decreases MAX_CHART_DEPTH - depth, 0int,
{
    if *budget == 0 || total_items == 0 {
        return Vec::new();
    }
    let ghost shown = chart_shown(nodes@, macos_root, parent as int, metric);
    let ghost start = *budget as int;
    let mut selected_count: usize = if ranked.len() < *budget {
        ranked.len()
    } else {
        *budget
    };
    if total_items > selected_count {
        let reserved = *budget - 1;
        if reserved < selected_count {
            selected_count = reserved;
        }
    }
    let include_aggregate = total_items > selected_count;
    let level: usize = if include_aggregate {
        selected_count + 1
    } else {
        selected_count
    };
    assert(selected_count == chart_selection(ranked@.len() as int, total_items as int, start));
    *budget = *budget - level;
    let mut items: Vec<ChartItem> = Vec::new();
    let mut index: usize = 0;
    while index < selected_count
        invariant
            arena_wf(nodes@),
            nodes@.len() <= u64::MAX,
            depth < MAX_CHART_DEPTH,
            0 <= index <= selected_count <= ranked@.len(),
            top_nodes_inv(ranked@, shown, nodes@, metric, MAX_CHART_ITEMS_PER_DIRECTORY as int),
            items@.len() == index,
            chart_ids(items@) == ranked@.take(index as int),
            chart_selected(items@, nodes@, macos_root, depth as int, metric, start - level)
                == Some(*budget as int),
        decreases selected_count - index,
    {
        let id = ranked[index];
        assert((ranked@[index as int] as int) < nodes@.len());
        let node = &nodes[id];
        let ghost middle = *budget as int;
        let children = if node.kind == EntryKind::Directory {
            chart_children(nodes, macos_root, id, depth + 1, metric, budget)
        } else {
            Vec::new()
        };
        let item = ChartItem {
            id: Some(wire_id(id)),
            name: lossy_text(node.name.as_slice()),
            kind: node.kind,
            logical_bytes: node.logical_bytes,
            allocated_bytes: node.allocated_bytes,
            children,
        };
        proof {
            assert(segment_describes(item, nodes@, id as int));
            assert(item.id.unwrap() as int == id as int);
            assert(chart_segment(item, nodes@, macos_root, depth as int, metric, middle) == Some(
                *budget as int,
            ));
        }
        let ghost before_push = items@;
        items.push(item);
        index = index + 1;
        proof {
            assert(items@.drop_last() =~= before_push);
            assert(items@.last() == item);
            assert(chart_ids(items@) =~= ranked@.take(index as int));
        }
    }
    let ghost selected = items@;
    proof {
        lemma_top_prefix(
            ranked@,
            shown,
            nodes@,
            metric,
            MAX_CHART_ITEMS_PER_DIRECTORY as int,
            selected_count as int,
        );
    }
    if include_aggregate {
        let children = &nodes[parent].children;
        proof {
            assert forall|k: int| 0 <= k < children@.len() implies (#[trigger] children@[k] as int)
                < nodes@.len() by {
                assert(child_links(nodes@, parent as int, k));
            }
            assert forall|k: int| 0 <= k < ranked@.len() implies (#[trigger] ranked@[k] as int)
                < nodes@.len() by {}
        }
        let all = saturating_child_totals(nodes, children, children.len());
        let drawn = saturating_child_totals(nodes, ranked, selected_count);
        proof {
            assert(children@.take(children@.len() as int) =~= children@);
        }
        let item = ChartItem {
            id: None,
            name: format_more_items(total_items - selected_count),
            kind: EntryKind::Other,
            logical_bytes: all.0.saturating_sub(drawn.0),
            allocated_bytes: all.1.saturating_sub(drawn.1),
            children: Vec::new(),
        };
        items.push(item);
        proof {
            assert(items@.take(selected_count as int) =~= selected);
            assert(items@[selected_count as int] == item);
        }
    } else {
        proof {
            assert(items@.take(selected_count as int) =~= selected);
        }
    }
    items
}

} // verus!
