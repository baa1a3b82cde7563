//! Bottom-up aggregation of the scan tree: every folder receives the totals
//! of everything below it.
use vstd::prelude::*;
use crate::arena::{InternalNode, arena_wf, parent_of, parent_links, same_node_shape, same_shape};
use crate::cancel::cancel_requested;
use std::sync::atomic::AtomicBool;

verus! {

/// How many nodes are aggregated between cancellation checkpoints.
pub const AGGREGATION_CANCELLATION_CHECK_INTERVAL_NODES: usize = 2048;

/// The value of one aggregated field of a node: 0 logical bytes,
/// 1 allocated bytes, 2 files, 3 directories.
pub open spec fn field(node: InternalNode, f: int) -> int {
    if f == 0 {
        node.logical_bytes as int
    } else if f == 1 {
        node.allocated_bytes as int
    } else if f == 2 {
        node.file_count as int
    } else {
        node.directory_count as int
    }
}

/// The total of a field over a node and everything below it.
pub open spec fn subtree_total(nodes: Seq<InternalNode>, i: int, f: int) -> int
    decreases nodes.len() - i, 1int, 0int,
{
    if 0 <= i < nodes.len() {
        field(nodes[i], f) + children_total(nodes, i, i, nodes.len() as int, f)
    } else {
        0
    }
}

/// The subtree totals of the children of `i` whose ids lie strictly between
/// `lo` and `hi`.
pub open spec fn children_total(nodes: Seq<InternalNode>, i: int, lo: int, hi: int, f: int) -> int
    decreases nodes.len() - lo, 0int, hi,
{
    if 0 <= lo && lo + 1 < hi && hi <= nodes.len() {
        children_total(nodes, i, lo, hi - 1, f) + (if parent_of(nodes[hi - 1]) == i {
            subtree_total(nodes, hi - 1, f)
        } else {
            0
        })
    } else {
        0
    }
}

/// The saturated aggregate that a node holds once aggregation completes.
pub open spec fn aggregated(nodes: Seq<InternalNode>, i: int, f: int) -> int {
    let t = subtree_total(nodes, i, f);
    if t > u64::MAX {
        u64::MAX as int
    } else {
        t
    }
}

proof fn lemma_totals_nonnegative(nodes: Seq<InternalNode>, i: int, lo: int, hi: int, f: int)
    ensures
        subtree_total(nodes, i, f) >= 0,
        children_total(nodes, i, lo, hi, f) >= 0,
    decreases nodes.len() - lo, hi,
{
    if 0 <= lo && lo + 1 < hi && hi <= nodes.len() {
        lemma_totals_nonnegative(nodes, i, lo, hi - 1, f);
        lemma_subtree_nonnegative(nodes, hi - 1, f);
    }
    lemma_subtree_nonnegative(nodes, i, f);
}

proof fn lemma_subtree_nonnegative(nodes: Seq<InternalNode>, i: int, f: int)
    ensures
        subtree_total(nodes, i, f) >= 0,
    decreases nodes.len() - i, 1int,
{
    if 0 <= i < nodes.len() {
        lemma_children_nonnegative(nodes, i, i, nodes.len() as int, f);
    }
}

proof fn lemma_children_nonnegative(nodes: Seq<InternalNode>, i: int, lo: int, hi: int, f: int)
    ensures
        children_total(nodes, i, lo, hi, f) >= 0,
    decreases nodes.len() - lo, 0int, hi,
{
    if 0 <= lo && lo + 1 < hi && hi <= nodes.len() {
        lemma_children_nonnegative(nodes, i, lo, hi - 1, f);
        lemma_subtree_nonnegative(nodes, hi - 1, f);
    }
}

/// Lowering the bound `lo` by one admits exactly the child `lo` itself.
proof fn lemma_children_extend(nodes: Seq<InternalNode>, i: int, lo: int, hi: int, f: int)
    requires
        1 <= lo,
        lo < hi <= nodes.len(),
    ensures
        children_total(nodes, i, lo - 1, hi, f) == children_total(nodes, i, lo, hi, f) + (if parent_of(
            nodes[lo],
        ) == i {
            subtree_total(nodes, lo, f)
        } else {
            0
        }),
    decreases hi,
{
    if hi > lo + 1 {
        lemma_children_extend(nodes, i, lo, hi - 1, f);
    } else {
        assert(children_total(nodes, i, lo - 1, lo, f) == 0);
        assert(children_total(nodes, i, lo, hi, f) == 0);
    }
}

/// Aggregation before node `j` is processed: node `i` holds its own value
/// plus the totals of its children with ids above `j`, saturated.
pub open spec fn partially_aggregated(
    old_nodes: Seq<InternalNode>,
    nodes: Seq<InternalNode>,
    j: int,
) -> bool {
    forall|i: int, f: int|
        0 <= i < nodes.len() && 0 <= f < 4 ==> #[trigger] field(nodes[i], f) == {
            let lo = if i > j {
                i
            } else {
                j
            };
            let t = field(old_nodes[i], f) + children_total(
                old_nodes,
                i,
                lo,
                old_nodes.len() as int,
                f,
            );
            if t > u64::MAX {
                u64::MAX as int
            } else {
                t
            }
        }
}

/// Every node holds its saturated subtree total.
pub open spec fn fully_aggregated(old_nodes: Seq<InternalNode>, nodes: Seq<InternalNode>) -> bool {
    forall|i: int, f: int|
        0 <= i < nodes.len() && 0 <= f < 4 ==> #[trigger] field(nodes[i], f) == aggregated(
            old_nodes,
            i,
            f,
        )
}

/// Aggregation stopped at a checkpoint: the nodes above some id `j` have been
/// added into their parents and nothing else has, where the number of nodes
/// processed, `len - 1 - j`, is a multiple of the checkpoint interval or all
/// of them. With none processed the totals are those the tree came with.
pub open spec fn stopped_at_checkpoint(old_nodes: Seq<InternalNode>, nodes: Seq<InternalNode>) -> bool {
    exists|j: int|
        0 <= j < old_nodes.len() && ((old_nodes.len() - 1 - j) % (
        AGGREGATION_CANCELLATION_CHECK_INTERVAL_NODES as int) == 0 || j == 0)
            && #[trigger] partially_aggregated(old_nodes, nodes, j)
}

/// Calls `Vec::shrink_to_fit`, which releases spare capacity and keeps the
/// contents.
#[verifier::external_body]
fn shrink_children(children: &mut Vec<usize>)
    ensures
        final(children)@ == old(children)@,
{
    children.shrink_to_fit();
}

/// Releases spare capacity in a node's child list.
pub fn compact_child_indexes(node: &mut InternalNode)
    ensures
        final(node).children@ == old(node).children@,
        final(node).name == old(node).name,
        final(node).parent == old(node).parent,
        final(node).kind == old(node).kind,
        final(node).logical_bytes == old(node).logical_bytes,
        final(node).allocated_bytes == old(node).allocated_bytes,
        final(node).file_count == old(node).file_count,
        final(node).directory_count == old(node).directory_count,
        final(node).scan_revision == old(node).scan_revision,
{
    shrink_children(&mut node.children);
}

proof fn lemma_min_sum(a: int, b: int, m: int)
    requires
        a >= 0,
        b >= 0,
        m >= 0,
    ensures
        ({
            let sa = if a > m {
                m
            } else {
                a
            };
            let sb = if b > m {
                m
            } else {
                b
            };
            let s = if sa + sb > m {
                m
            } else {
                sa + sb
            };
            s == (if a + b > m {
                m
            } else {
                a + b
            })
        }),
{
}

/// Adds every node's totals into its parent, from the last node down, so that
/// each node ends with the saturated totals of its whole subtree. Every
/// 2048 nodes `cancelled` is asked whether the work should stop and
/// `on_checkpoint` receives the number of nodes processed, which is always a
/// multiple of 2048 below the number of nodes to add; a stop ends the work
/// with "Scan cancelled." at that checkpoint and leaves the tree's shape
/// intact. When every answer is to stop, nothing is touched; when none is,
/// the aggregation completes.
pub fn aggregate_nodes_until<F: FnMut(usize), G: Fn() -> bool>(
    nodes: &mut Vec<InternalNode>,
    cancelled: &G,
    on_checkpoint: &mut F,
) -> (r: Result<(), String>)
    requires
        arena_wf(old(nodes)@),
        call_requires(*cancelled, ()),
        forall|processed: usize|
            processed % AGGREGATION_CANCELLATION_CHECK_INTERVAL_NODES == 0 && processed + 1
                < old(nodes)@.len() ==> call_requires(*old(on_checkpoint), (processed,)),
    ensures
        same_shape(old(nodes)@, final(nodes)@),
        arena_wf(final(nodes)@),
        r is Ok ==> fully_aggregated(old(nodes)@, final(nodes)@),
        r matches Err(message) ==> message@ == "Scan cancelled."@ && stopped_at_checkpoint(
            old(nodes)@,
            final(nodes)@,
        ),
        (forall|stop: bool| call_ensures(*cancelled, (), stop) ==> stop) ==> r is Err
            && final(nodes)@ == old(nodes)@,
        (forall|stop: bool| call_ensures(*cancelled, (), stop) ==> !stop) ==> r is Ok,
{
    let ghost original = nodes@;
    let len = nodes.len();
    let mut node_id = len;
    let mut processed: usize = 0;
    proof {
        assert forall|i: int, f: int|
            0 <= i < nodes@.len() && 0 <= f < 4 implies #[trigger] field(nodes@[i], f) == {
            let lo = if i > len - 1 {
                i
            } else {
                len - 1
            };
            let t = field(original[i], f) + children_total(
                original,
                i,
                lo,
                original.len() as int,
                f,
            );
            if t > u64::MAX {
                u64::MAX as int
            } else {
                t
            }
        } by {}
        assert forall|i: int| 0 <= i < nodes@.len() implies #[trigger] same_node_shape(
            original,
            nodes@,
            i,
        ) by {}
    }
    while node_id > 1
        invariant
            1 <= node_id <= len,
            len == nodes@.len(),
            len == original.len(),
            original == old(nodes)@,
            processed + node_id == len,
            arena_wf(original),
            same_shape(original, nodes@),
            arena_wf(nodes@),
            partially_aggregated(original, nodes@, node_id - 1),
            call_requires(*cancelled, ()),
            (forall|stop: bool| call_ensures(*cancelled, (), stop) ==> stop) ==> processed == 0
                && nodes@ == original,
            forall|p: usize|
                p % AGGREGATION_CANCELLATION_CHECK_INTERVAL_NODES == 0 && p + 1 < len
                    ==> call_requires(*on_checkpoint, (p,)),
        decreases node_id,
    {
        if processed % AGGREGATION_CANCELLATION_CHECK_INTERVAL_NODES == 0 {
            let stop = cancelled();
            on_checkpoint(processed);
            if stop {
                proof {
                    assert(partially_aggregated(original, nodes@, node_id - 1));
                }
                return Err("Scan cancelled.".to_string());
            }
        }
        let current = node_id - 1;
        let ghost before = nodes@;
        compact_child_indexes(&mut nodes[current]);
        proof {
            assert forall|i: int| 0 <= i < nodes@.len() implies #[trigger] same_node_shape(
                original,
                nodes@,
                i,
            ) by {
                assert(same_node_shape(original, before, i));
            }
            crate::arena::lemma_same_shape_wf(original, nodes@);
            assert(field(nodes@[current as int], 0) == field(before[current as int], 0));
            assert forall|i: int, f: int|
                0 <= i < nodes@.len() && 0 <= f < 4 implies #[trigger] field(nodes@[i], f)
                == field(before[i], f) by {}
        }
        let parent = match nodes[current].parent_id() {
            Some(parent) => parent,
            None => {
                proof {
                    assert(parent_links(nodes@, current as int));
                }
                return Err("Scan cancelled.".to_string());
            },
        };
        proof {
            assert(parent_links(nodes@, current as int));
            assert(same_node_shape(original, nodes@, current as int));
        }
        let logical = nodes[current].logical_bytes;
        let allocated = nodes[current].allocated_bytes;
        let files = nodes[current].file_count;
        let directories = nodes[current].directory_count;
        let ghost mid = nodes@;
        nodes[parent].logical_bytes = nodes[parent].logical_bytes.saturating_add(logical);
        nodes[parent].allocated_bytes = nodes[parent].allocated_bytes.saturating_add(allocated);
        nodes[parent].file_count = nodes[parent].file_count.saturating_add(files);
        nodes[parent].directory_count = nodes[parent].directory_count.saturating_add(
            directories,
        );
        proof {
            assert forall|i: int| 0 <= i < nodes@.len() implies #[trigger] same_node_shape(
                original,
                nodes@,
                i,
            ) by {
                assert(same_node_shape(original, mid, i));
            }
            crate::arena::lemma_same_shape_wf(original, nodes@);
            let j = current as int;
            let p = parent as int;
            assert(parent_of(original[j]) == p);
            assert forall|i: int, f: int|
                0 <= i < nodes@.len() && 0 <= f < 4 implies #[trigger] field(nodes@[i], f) == {
                let lo = if i > j - 1 {
                    i
                } else {
                    j - 1
                };
                let t = field(original[i], f) + children_total(
                    original,
                    i,
                    lo,
                    original.len() as int,
                    f,
                );
                if t > u64::MAX {
                    u64::MAX as int
                } else {
                    t
                }
            } by {
                assert(field(mid[i], f) == {
                    let lo = if i > j {
                        i
                    } else {
                        j
                    };
                    let t = field(original[i], f) + children_total(
                        original,
                        i,
                        lo,
                        original.len() as int,
                        f,
                    );
                    if t > u64::MAX {
                        u64::MAX as int
                    } else {
                        t
                    }
                });
                if i < j {
                    lemma_children_extend(original, i, j, original.len() as int, f);
                    if i == p {
                        assert(field(mid[j], f) == {
                            let t = field(original[j], f) + children_total(
                                original,
                                j,
                                j,
                                original.len() as int,
                                f,
                            );
                            if t > u64::MAX {
                                u64::MAX as int
                            } else {
                                t
                            }
                        });
                        lemma_totals_nonnegative(original, i, j, original.len() as int, f);
                        lemma_subtree_nonnegative(original, j, f);
                        lemma_min_sum(
                            field(original[i], f) + children_total(
                                original,
                                i,
                                j,
                                original.len() as int,
                                f,
                            ),
                            subtree_total(original, j, f),
                            u64::MAX as int,
                        );
                        lemma_children_nonnegative(original, i, j, original.len() as int, f);
                    }
                }
            }
        }
        processed = processed + 1;
        node_id = current;
    }
    if cancelled() {
        proof {
            assert(partially_aggregated(original, nodes@, 0));
        }
        return Err("Scan cancelled.".to_string());
    }
    let ghost before = nodes@;
    compact_child_indexes(&mut nodes[0]);
    proof {
        assert forall|i: int| 0 <= i < nodes@.len() implies #[trigger] same_node_shape(
            original,
            nodes@,
            i,
        ) by {
            assert(same_node_shape(original, before, i));
        }
        crate::arena::lemma_same_shape_wf(original, nodes@);
        assert forall|i: int, f: int|
            0 <= i < nodes@.len() && 0 <= f < 4 implies #[trigger] field(nodes@[i], f)
            == aggregated(original, i, f) by {
            assert(field(before[i], f) == field(nodes@[i], f));
        }
    }
    Ok(())
}

/// Adds every node's totals into its parent, reading the cancellation flag
/// every 2048 nodes; see `aggregate_nodes_until`. A raised flag stops the
/// work with "Scan cancelled." at a checkpoint.
pub fn aggregate_nodes<F: FnMut(usize)>(
    nodes: &mut Vec<InternalNode>,
    cancel: &AtomicBool,
    on_checkpoint: &mut F,
) -> (r: Result<(), String>)
    requires
        arena_wf(old(nodes)@),
        forall|processed: usize|
            processed % AGGREGATION_CANCELLATION_CHECK_INTERVAL_NODES == 0 && processed + 1
                < old(nodes)@.len() ==> call_requires(*old(on_checkpoint), (processed,)),
    ensures
        same_shape(old(nodes)@, final(nodes)@),
        arena_wf(final(nodes)@),
        r is Ok ==> fully_aggregated(old(nodes)@, final(nodes)@),
        r matches Err(message) ==> message@ == "Scan cancelled."@ && stopped_at_checkpoint(
            old(nodes)@,
            final(nodes)@,
        ),
{
    aggregate_nodes_until(nodes, &|| cancel_requested(cancel), on_checkpoint)
}

} // verus!
