//! The retained, aggregated scan and every read-only question the interface
//! asks of it: folder views, bounded charts, paths, breadcrumbs, name search
//! and compression targets.
use vstd::prelude::*;
use crate::arena::{
    InternalNode, arena_wf, ancestor_chain, chain_names, child_links, parent_links, parent_of,
    relative_path,
};
use crate::cancel::cancel_requested;
use crate::chart::{chart_items, chart_level};
use crate::query::{
    NameQuery, case_insensitive_literal_match, char_count, compile_name_query, escaped_literal_builds,
    name_query_matches,
    query_text, trim_text, trimmed,
};
use crate::ranking::{TopNodes, item_matches, node_order, scan_item, top_nodes_inv, wire_id};
use crate::revision::{CompactScannedFileRevision, ScannedFileRevision};
use crate::text::{Order, compare_bytes, lossy_text, utf8_lossy};
use crate::types::{
    Breadcrumb, ChartItem, DirectorySearchResult, DirectoryView, EntryKind, ScanItem, SizeMetric,
    spec_chart_item_count, spec_chart_items_count,
};
use std::sync::atomic::AtomicBool;

verus! {

/// The most items a folder listing or a search returns.
pub const MAX_LIST_ITEMS: usize = 500;
/// The most chart segments drawn for one folder.
pub const MAX_CHART_ITEMS_PER_DIRECTORY: usize = 16;
/// The most chart segments in one view, across all levels.
pub const MAX_CHART_ITEMS_TOTAL: usize = 512;
/// How many folder levels the chart descends.
pub const MAX_CHART_DEPTH: usize = 3;
/// The longest search query, in characters.
pub const MAX_SEARCH_QUERY_CHARS: usize = 128;
/// How many children are searched between cancellation checks.
pub const SEARCH_CANCELLATION_CHECK_INTERVAL: usize = 2048;

/// The bytes of the name ".DS_Store".
pub open spec fn ds_store_name() -> Seq<u8> {
    seq![46u8, 68u8, 83u8, 95u8, 83u8, 116u8, 111u8, 114u8, 101u8]
}

/// The bytes of the name ".fseventsd".
pub open spec fn fseventsd_name() -> Seq<u8> {
    seq![46u8, 102u8, 115u8, 101u8, 118u8, 101u8, 110u8, 116u8, 115u8, 100u8]
}

pub(crate) fn bytes_equal(a: &[u8], b: &[u8]) -> (equal: bool)
    ensures
        equal == (a@ == b@),
{
    let order = compare_bytes(a, b);
    proof {
        crate::text::lemma_lex_order_equal(crate::text::byte_ints(a@), crate::text::byte_ints(b@));
        if crate::text::byte_ints(a@) == crate::text::byte_ints(b@) {
            assert(a@ =~= b@) by {
                assert forall|i: int| 0 <= i < a@.len() implies a@[i] == b@[i] by {
                    assert(crate::text::byte_ints(a@)[i] == crate::text::byte_ints(b@)[i]);
                }
            }
        }
    }
    order == Order::Equal
}

/// Whether a node appears in a storage view: folders only when they account
/// for bytes of the metric (and never the volume event log at a macOS volume
/// root), files unless they are Finder metadata, everything else always.
pub open spec fn spec_show_in_storage_view(
    node: InternalNode,
    metric: SizeMetric,
    at_macos_volume_root: bool,
) -> bool {
    match node.kind {
        EntryKind::Directory => metric.spec_bytes(node) != 0 && !(at_macos_volume_root
            && node.name@ == fseventsd_name()),
        EntryKind::File => node.name@ != ds_store_name(),
        _ => true,
    }
}

/// Decides whether a node appears in a storage view. Hidden entries stay in
/// the accounting, in search and in operations.
pub fn show_in_storage_view(node: &InternalNode, metric: SizeMetric, at_macos_volume_root: bool) -> (shown:
    bool)
    ensures
        shown == spec_show_in_storage_view(*node, metric, at_macos_volume_root),
{
    match node.kind {
        EntryKind::Directory => {
            let fseventsd: [u8; 10] = [46, 102, 115, 101, 118, 101, 110, 116, 115, 100];
            assert(fseventsd@ =~= fseventsd_name());
            metric.bytes(node) != 0 && !(at_macos_volume_root && bytes_equal(
                node.name.as_slice(),
                fseventsd.as_slice(),
            ))
        },
        EntryKind::File => {
            let ds_store: [u8; 9] = [46, 68, 83, 95, 83, 116, 111, 114, 101];
            assert(ds_store@ =~= ds_store_name());
            !bytes_equal(node.name.as_slice(), ds_store.as_slice())
        },
        _ => true,
    }
}

/// The children that a storage view shows, in child order.
pub open spec fn shown_children(
    nodes: Seq<InternalNode>,
    children: Seq<usize>,
    metric: SizeMetric,
    at_macos_volume_root: bool,
) -> Seq<usize>
    decreases children.len(),
{
    if children.len() == 0 {
        Seq::empty()
    } else {
        let rest = shown_children(nodes, children.drop_last(), metric, at_macos_volume_root);
        if spec_show_in_storage_view(nodes[children.last() as int], metric, at_macos_volume_root) {
            rest.push(children.last())
        } else {
            rest
        }
    }
}

pub(crate) proof fn lemma_shown_children_subset(
    nodes: Seq<InternalNode>,
    children: Seq<usize>,
    metric: SizeMetric,
    at_root: bool,
    x: usize,
)
    ensures
        shown_children(nodes, children, metric, at_root).contains(x) ==> children.contains(x),
    decreases children.len(),
{
    if children.len() > 0 {
        lemma_shown_children_subset(nodes, children.drop_last(), metric, at_root, x);
        let rest = shown_children(nodes, children.drop_last(), metric, at_root);
        if shown_children(nodes, children, metric, at_root).contains(x) {
            if rest.contains(x) {
                let k = choose|k: int| 0 <= k < children.drop_last().len() && children.drop_last()[k] == x;
                assert(children[k] == x);
            } else {
                assert(children[children.len() - 1] == x);
            }
        }
    }
}

/// The most bytes of ids one ranking pass copies at once.
pub const MAX_RANKING_CLONE_BYTES: usize = 2097152;
/// How many ids, per selected id, a bounded ranking buffers before cutting
/// back to its best.
pub const RANKING_BUFFER_MULTIPLIER: usize = 16;

/// The most ids one ranking pass copies at once: 2 MiB of them.
pub fn max_ranking_clone_ids() -> (ids: usize)
    ensures
        ids as int == MAX_RANKING_CLONE_BYTES as int / (usize::BITS / 8) as int,
{
    MAX_RANKING_CLONE_BYTES / (usize::BITS / 8) as usize
}

proof fn lemma_shown_children_distinct(
    nodes: Seq<InternalNode>,
    children: Seq<usize>,
    metric: SizeMetric,
    at_root: bool,
)
    requires
        children.no_duplicates(),
    ensures
        shown_children(nodes, children, metric, at_root).no_duplicates(),
    decreases children.len(),
{
    if children.len() > 0 {
        let rest = children.drop_last();
        assert(rest.no_duplicates()) by {
            assert forall|i: int, j: int| 0 <= i < rest.len() && 0 <= j < rest.len() && i != j implies rest[i]
                != rest[j] by {
                assert(rest[i] == children[i] && rest[j] == children[j]);
            }
        }
        lemma_shown_children_distinct(nodes, rest, metric, at_root);
        let last = children.last();
        lemma_shown_children_subset(nodes, rest, metric, at_root, last);
        if rest.contains(last) {
            let k = choose|k: int| 0 <= k < rest.len() && rest[k] == last;
            assert(children[k] == children[children.len() - 1]);
        }
    }
}

/// The shown children, in child order.
fn shown_node_ids(
    children: &Vec<usize>,
    nodes: &Vec<InternalNode>,
    metric: SizeMetric,
    at_macos_volume_root: bool,
) -> (shown: Vec<usize>)
    requires
        forall|k: int| 0 <= k < children@.len() ==> (#[trigger] children@[k] as int) < nodes@.len(),
    ensures
        shown@ == shown_children(nodes@, children@, metric, at_macos_volume_root),
{
    let mut shown: Vec<usize> = Vec::new();
    let mut index: usize = 0;
    proof {
        assert(children@.take(0) =~= Seq::<usize>::empty());
    }
    while index < children.len()
        invariant
            0 <= index <= children@.len(),
            forall|k: int| 0 <= k < children@.len() ==> (#[trigger] children@[k] as int) < nodes@.len(),
            shown@ == shown_children(nodes@, children@.take(index as int), metric, at_macos_volume_root),
        decreases children@.len() - index,
    {
        proof {
            assert(children@.take(index as int + 1).drop_last() =~= children@.take(index as int));
        }
        let child = children[index];
        if show_in_storage_view(&nodes[child], metric, at_macos_volume_root) {
            shown.push(child);
        }
        index = index + 1;
    }
    proof {
        assert(children@.take(index as int) =~= children@);
    }
    shown
}

/// Cuts a list of distinct ids back to its best `limit`, in ranking order.
pub fn retain_best_node_ids(
    ids: &mut Vec<usize>,
    limit: usize,
    nodes: &Vec<InternalNode>,
    metric: SizeMetric,
)
    requires
        limit > 0,
        old(ids)@.no_duplicates(),
        forall|k: int| 0 <= k < old(ids)@.len() ==> (#[trigger] old(ids)@[k] as int) < nodes@.len(),
    ensures
        top_nodes_inv(final(ids)@, old(ids)@, nodes@, metric, limit as int),
{
    let mut top = TopNodes::new();
    let mut index: usize = 0;
    proof {
        assert(ids@.take(0) =~= Seq::<usize>::empty());
    }
    while index < ids.len()
        invariant
            0 <= index <= ids@.len(),
            limit > 0,
            ids@ == old(ids)@,
            ids@.no_duplicates(),
            forall|k: int| 0 <= k < ids@.len() ==> (#[trigger] ids@[k] as int) < nodes@.len(),
            top_nodes_inv(top.ids@, ids@.take(index as int), nodes@, metric, limit as int),
        decreases ids@.len() - index,
    {
        let id = ids[index];
        let ghost seen = ids@.take(index as int);
        proof {
            if seen.contains(id) {
                let k = choose|k: int| 0 <= k < seen.len() && seen[k] == id;
                assert(ids@[k] == ids@[index as int]);
            }
            assert(ids@.take(index as int + 1) =~= seen.push(id));
        }
        top.offer(nodes, metric, limit, id, Ghost(seen));
        index = index + 1;
    }
    proof {
        assert(ids@.take(index as int) =~= old(ids)@);
    }
    *ids = top.ids;
}

/// Ranks the shown children through a buffer of at most `limit` times
/// [`RANKING_BUFFER_MULTIPLIER`] ids, cut back to the best `limit` whenever
/// it fills, so that a very wide folder never has all its ids copied.
pub fn bounded_ranked_node_ids(
    children: &Vec<usize>,
    limit: usize,
    nodes: &Vec<InternalNode>,
    metric: SizeMetric,
    at_macos_volume_root: bool,
) -> (ranked: Vec<usize>)
    requires
        limit > 0,
        children@.no_duplicates(),
        forall|k: int| 0 <= k < children@.len() ==> (#[trigger] children@[k] as int) < nodes@.len(),
    ensures
        top_nodes_inv(
            ranked@,
            shown_children(nodes@, children@, metric, at_macos_volume_root),
            nodes@,
            metric,
            limit as int,
        ),
{
    let capacity = if limit > usize::MAX / RANKING_BUFFER_MULTIPLIER {
        usize::MAX
    } else {
        limit * RANKING_BUFFER_MULTIPLIER
    };
    let mut ranked: Vec<usize> = Vec::new();
    let ghost mut kept: Seq<usize> = Seq::empty();
    let ghost mut consumed: int = 0;
    let mut index: usize = 0;
    proof {
        assert(children@.take(0) =~= Seq::<usize>::empty());
        assert(ranked@ =~= kept + shown_children(nodes@, children@.take(0), metric, at_macos_volume_root).skip(0));
    }
    while index < children.len()
        invariant
            0 <= index <= children@.len(),
            limit > 0,
            capacity >= limit,
            children@.no_duplicates(),
            forall|k: int| 0 <= k < children@.len() ==> (#[trigger] children@[k] as int) < nodes@.len(),
            0 <= consumed <= shown_children(nodes@, children@.take(index as int), metric, at_macos_volume_root).len(),
            top_nodes_inv(
                kept,
                shown_children(nodes@, children@.take(index as int), metric, at_macos_volume_root).take(consumed),
                nodes@,
                metric,
                limit as int,
            ),
            ranked@ == kept + shown_children(nodes@, children@.take(index as int), metric, at_macos_volume_root).skip(
                consumed,
            ),
        decreases children@.len() - index,
    {
        let ghost before = shown_children(nodes@, children@.take(index as int), metric, at_macos_volume_root);
        proof {
            assert(children@.take(index as int + 1).drop_last() =~= children@.take(index as int));
        }
        let child = children[index];
        if show_in_storage_view(&nodes[child], metric, at_macos_volume_root) {
            ranked.push(child);
            proof {
                let after = before.push(child);
                assert(after.take(consumed) =~= before.take(consumed));
                assert(ranked@ =~= kept + after.skip(consumed));
            }
            if ranked.len() == capacity {
                let ghost shown = before.push(child);
                proof {
                    let prefix = children@.take(index as int + 1);
                    assert(prefix.no_duplicates()) by {
                        assert forall|i: int, j: int| 0 <= i < prefix.len() && 0 <= j < prefix.len() && i != j implies prefix[i]
                            != prefix[j] by {
                            assert(prefix[i] == children@[i] && prefix[j] == children@[j]);
                        }
                    }
                    lemma_shown_children_distinct(nodes@, prefix, metric, at_macos_volume_root);
                    assert(shown.take(consumed) + shown.skip(consumed) =~= shown);
                    crate::ranking::lemma_selection_distinct(kept, nodes@, metric);
                    assert(ranked@.no_duplicates()) by {
                        let r = ranked@;
                        assert forall|i: int, j: int| 0 <= i < r.len() && 0 <= j < r.len() && i != j implies r[i]
                            != r[j] by {
                            if i < kept.len() && j < kept.len() {
                            } else if i >= kept.len() && j >= kept.len() {
                                assert(r[i] == shown[consumed + i - kept.len()]);
                                assert(r[j] == shown[consumed + j - kept.len()]);
                            } else {
                                let (p, q) = if i < kept.len() { (i, j) } else { (j, i) };
                                assert(shown.take(consumed).contains(kept[p]));
                                let w = choose|w: int| 0 <= w < consumed && shown.take(consumed)[w] == kept[p];
                                assert(r[q] == shown[consumed + q - kept.len()]);
                                assert(shown[w] == kept[p]);
                            }
                        }
                    }
                    assert forall|k: int| 0 <= k < ranked@.len() implies (#[trigger] ranked@[k] as int) < nodes@.len() by {
                        if k >= kept.len() {
                            assert(ranked@[k] == shown[consumed + k - kept.len()]);
                            lemma_shown_children_subset(nodes@, prefix, metric, at_macos_volume_root, ranked@[k]);
                            assert(prefix.contains(ranked@[k]));
                        }
                    }
                }
                let ghost pending = ranked@;
                retain_best_node_ids(&mut ranked, limit, nodes, metric);
                proof {
                    assert forall|k: int| 0 <= k < shown.skip(consumed).len() implies (#[trigger] shown.skip(consumed)[k] as int)
                        < nodes@.len() by {
                        assert(pending[kept.len() + k] == shown.skip(consumed)[k]);
                    }
                    crate::ranking::lemma_top_nodes_combine(
                        kept,
                        shown.take(consumed),
                        ranked@,
                        shown.skip(consumed),
                        nodes@,
                        metric,
                        limit as int,
                    );
                    kept = ranked@;
                    consumed = shown.len() as int;
                    assert(shown.take(consumed) =~= shown);
                    assert(ranked@ =~= kept + shown.skip(consumed));
                }
            }
        }
        index = index + 1;
    }
    proof {
        assert(children@.take(index as int) =~= children@);
    }
    let ghost shown = shown_children(nodes@, children@, metric, at_macos_volume_root);
    proof {
        lemma_shown_children_distinct(nodes@, children@, metric, at_macos_volume_root);
        assert(shown.take(consumed) + shown.skip(consumed) =~= shown);
        crate::ranking::lemma_selection_distinct(kept, nodes@, metric);
        assert(ranked@.no_duplicates()) by {
            let r = ranked@;
            assert forall|i: int, j: int| 0 <= i < r.len() && 0 <= j < r.len() && i != j implies r[i]
                != r[j] by {
                if i < kept.len() && j < kept.len() {
                } else if i >= kept.len() && j >= kept.len() {
                    assert(r[i] == shown[consumed + i - kept.len()]);
                    assert(r[j] == shown[consumed + j - kept.len()]);
                } else {
                    let (p, q) = if i < kept.len() { (i, j) } else { (j, i) };
                    assert(shown.take(consumed).contains(kept[p]));
                    let w = choose|w: int| 0 <= w < consumed && shown.take(consumed)[w] == kept[p];
                    assert(r[q] == shown[consumed + q - kept.len()]);
                    assert(shown[w] == kept[p]);
                }
            }
        }
        assert forall|k: int| 0 <= k < ranked@.len() implies (#[trigger] ranked@[k] as int) < nodes@.len() by {
            if k >= kept.len() {
                assert(ranked@[k] == shown[consumed + k - kept.len()]);
                lemma_shown_children_subset(nodes@, children@, metric, at_macos_volume_root, ranked@[k]);
            }
        }
    }
    let ghost pending = ranked@;
    retain_best_node_ids(&mut ranked, limit, nodes, metric);
    proof {
        assert forall|k: int| 0 <= k < shown.skip(consumed).len() implies (#[trigger] shown.skip(consumed)[k] as int)
            < nodes@.len() by {
            assert(pending[kept.len() + k] == shown.skip(consumed)[k]);
        }
        crate::ranking::lemma_top_nodes_combine(
            kept,
            shown.take(consumed),
            ranked@,
            shown.skip(consumed),
            nodes@,
            metric,
            limit as int,
        );
    }
    ranked
}

/// Selects the best `limit` shown children in ranking order. A folder with
/// more children than `max_clone_ids` is ranked through the bounded buffer;
/// any other has its shown children copied and ranked at once. Both give the
/// same selection.
pub fn ranked_node_ids_with_clone_limit(
    children: &Vec<usize>,
    limit: usize,
    nodes: &Vec<InternalNode>,
    metric: SizeMetric,
    at_macos_volume_root: bool,
    max_clone_ids: usize,
) -> (ids: Vec<usize>)
    requires
        children@.no_duplicates(),
        forall|k: int| 0 <= k < children@.len() ==> (#[trigger] children@[k] as int) < nodes@.len(),
    ensures
        limit == 0 ==> ids@.len() == 0,
        limit > 0 ==> top_nodes_inv(
            ids@,
            shown_children(nodes@, children@, metric, at_macos_volume_root),
            nodes@,
            metric,
            limit as int,
        ),
{
    if limit == 0 {
        return Vec::new();
    }
    let ghost shown = shown_children(nodes@, children@, metric, at_macos_volume_root);
    proof {
        lemma_shown_children_distinct(nodes@, children@, metric, at_macos_volume_root);
        assert forall|k: int| 0 <= k < shown.len() implies (#[trigger] shown[k] as int) < nodes@.len() by {
            lemma_shown_children_subset(nodes@, children@, metric, at_macos_volume_root, shown[k]);
            assert(shown.contains(shown[k]));
        }
    }
    if children.len() > max_clone_ids {
        let mut ranked = bounded_ranked_node_ids(children, limit, nodes, metric, at_macos_volume_root);
        let ghost first = ranked@;
        proof {
            crate::ranking::lemma_selection_distinct(first, nodes@, metric);
        }
        retain_best_node_ids(&mut ranked, limit, nodes, metric);
        proof {
            assert(first + Seq::<usize>::empty() =~= first);
            assert(shown + Seq::<usize>::empty() =~= shown);
            crate::ranking::lemma_top_nodes_combine(
                first,
                shown,
                ranked@,
                Seq::empty(),
                nodes@,
                metric,
                limit as int,
            );
        }
        ranked
    } else {
        let mut ranked = shown_node_ids(children, nodes, metric, at_macos_volume_root);
        retain_best_node_ids(&mut ranked, limit, nodes, metric);
        ranked
    }
}

/// Selects the best `limit` shown children in ranking order, copying at most
/// 2 MiB of ids at once.
pub fn ranked_node_ids(
    children: &Vec<usize>,
    limit: usize,
    nodes: &Vec<InternalNode>,
    metric: SizeMetric,
    at_macos_volume_root: bool,
) -> (ids: Vec<usize>)
    requires
        forall|k: int| 0 <= k < children@.len() ==> (#[trigger] children@[k] as int) < nodes@.len(),
        forall|k1: int, k2: int|
            0 <= k1 < children@.len() && 0 <= k2 < children@.len() && k1 != k2
                ==> #[trigger] children@[k1] != #[trigger] children@[k2],
    ensures
        limit == 0 ==> ids@.len() == 0,
        limit > 0 ==> top_nodes_inv(
            ids@,
            shown_children(nodes@, children@, metric, at_macos_volume_root),
            nodes@,
            metric,
            limit as int,
        ),
{
    proof {
        assert(children@.no_duplicates());
    }
    ranked_node_ids_with_clone_limit(
        children,
        limit,
        nodes,
        metric,
        at_macos_volume_root,
        max_ranking_clone_ids(),
    )
}

/// The number of children a storage view hides.
pub open spec fn hidden_count(
    nodes: Seq<InternalNode>,
    children: Seq<usize>,
    metric: SizeMetric,
    at_macos_volume_root: bool,
) -> nat
    decreases children.len(),
{
    if children.len() == 0 {
        0
    } else {
        hidden_count(nodes, children.drop_last(), metric, at_macos_volume_root) + (if spec_show_in_storage_view(
            nodes[children.last() as int],
            metric,
            at_macos_volume_root,
        ) {
            0nat
        } else {
            1nat
        })
    }
}

proof fn lemma_hidden_shown_count(
    nodes: Seq<InternalNode>,
    children: Seq<usize>,
    metric: SizeMetric,
    at_root: bool,
)
    ensures
        hidden_count(nodes, children, metric, at_root) + shown_children(
            nodes,
            children,
            metric,
            at_root,
        ).len() == children.len(),
    decreases children.len(),
{
    if children.len() > 0 {
        lemma_hidden_shown_count(nodes, children.drop_last(), metric, at_root);
    }
}

/// Appends one name to a path as `PathBuf::push` does on Unix: an absolute
/// name replaces the path; otherwise a separator is added unless the path is
/// empty or already ends with one.
pub open spec fn push_component(base: Seq<u8>, name: Seq<u8>) -> Seq<u8> {
    if name.len() > 0 && name[0] == 47u8 {
        name
    } else if base.len() == 0 || base.last() == 47u8 {
        base + name
    } else {
        base.push(47u8) + name
    }
}

/// A base path with a sequence of names pushed onto it in order.
pub open spec fn push_components(base: Seq<u8>, names: Seq<Seq<u8>>) -> Seq<u8>
    decreases names.len(),
{
    if names.len() == 0 {
        base
    } else {
        push_component(push_components(base, names.drop_last()), names.last())
    }
}

fn push_name(path: &mut Vec<u8>, name: &Vec<u8>)
    ensures
        final(path)@ == push_component(old(path)@, name@),
{
    if name.len() > 0 && name[0] == 47u8 {
        path.clear();
    } else if path.len() > 0 && path[path.len() - 1] != 47u8 {
        path.push(47u8);
    }
    let mut index: usize = 0;
    let ghost start = path@;
    while index < name.len()
        invariant
            0 <= index <= name@.len(),
            path@ == start + name@.take(index as int),
        decreases name@.len() - index,
    {
        path.push(name[index]);
        index = index + 1;
        proof {
            assert(start + name@.take(index as int) =~= (start + name@.take(index as int - 1)).push(
                name@[index as int - 1],
            ));
        }
    }
    proof {
        assert(name@.take(name@.len() as int) =~= name@);
        if name@.len() > 0 && name@[0] == 47u8 {
            assert(start =~= Seq::<u8>::empty());
            assert(start + name@ =~= name@);
        } else if old(path)@.len() == 0 || old(path)@.last() == 47u8 {
        } else {
        }
    }
}

fn rename_root(nodes: &mut Vec<InternalNode>, name: Vec<u8>)
    requires
        arena_wf(old(nodes)@),
    ensures
        arena_wf(final(nodes)@),
        final(nodes)@ == old(nodes)@.update(0, InternalNode { name: name, ..old(nodes)@[0] }),
    no_unwind
{
    let ghost before = nodes@;
    nodes[0].name = name;
    proof {
        assert forall|i: int| 0 < i < nodes@.len() implies #[trigger] parent_links(nodes@, i) by {
            assert(parent_links(before, i));
        }
        assert forall|i: int, k: int|
            0 <= i < nodes@.len() && 0 <= k < nodes@[i].children@.len() implies #[trigger] child_links(
            nodes@,
            i,
            k,
        ) by {
            assert(child_links(before, i, k));
        }
    }
}

/// What a compression request needs to know of a scanned item.
#[derive(Clone, Debug)]
pub struct CompressionTarget {
    pub path: Vec<u8>,
    pub kind: EntryKind,
    pub logical_bytes: u64,
    pub allocated_bytes: u64,
    pub allocated_size_is_estimate: bool,
    pub scan_revision: Option<ScannedFileRevision>,
}

/// A completed, aggregated scan retained for interactive questions.
#[derive(Debug)]
pub struct ScanSnapshot {
    root_path: Vec<u8>,
    root_is_macos_volume: bool,
    nodes: Vec<InternalNode>,
    allocated_size_is_estimate: bool,
    revision_filesystem_id: Option<u64>,
}

/// The ids of the breadcrumbs of a node: the root, then each ancestor down
/// to the node.
pub open spec fn crumb_ids(nodes: Seq<InternalNode>, id: int) -> Seq<usize> {
    seq![0usize] + ancestor_chain(nodes, id).reverse()
}

/// A breadcrumb names node `id`.
pub open spec fn crumb_matches(crumb: Breadcrumb, nodes: Seq<InternalNode>, id: int) -> bool {
    &&& crumb.id == id
    &&& crumb.name@ == utf8_lossy(nodes[id].name@)
}

/// A listing of items describes the given node ids, in order.
pub open spec fn items_describe(items: Seq<ScanItem>, nodes: Seq<InternalNode>, ids: Seq<usize>) -> bool {
    &&& items.len() == ids.len()
    &&& forall|i: int| 0 <= i < ids.len() ==> #[trigger] item_matches(items[i], nodes, ids[i] as int)
}

/// The node ids that a listing names, in order.
pub open spec fn listed_ids(items: Seq<ScanItem>) -> Seq<usize> {
    Seq::new(items.len(), |i: int| items[i].id as usize)
}

/// The children whose lossily decoded name a case-insensitive literal query
/// finds, in child order.
pub open spec fn matching_children(nodes: Seq<InternalNode>, children: Seq<usize>, query: Seq<char>) -> Seq<
    usize,
>
    decreases children.len(),
{
    if children.len() == 0 {
        Seq::empty()
    } else {
        let rest = matching_children(nodes, children.drop_last(), query);
        if case_insensitive_literal_match(query, utf8_lossy(nodes[children.last() as int].name@)) {
            rest.push(children.last())
        } else {
            rest
        }
    }
}

proof fn lemma_matching_children_subset(
    nodes: Seq<InternalNode>,
    children: Seq<usize>,
    query: Seq<char>,
    x: usize,
)
    ensures
        matching_children(nodes, children, query).contains(x) ==> children.contains(x),
        matching_children(nodes, children, query).len() <= children.len(),
    decreases children.len(),
{
    if children.len() > 0 {
        lemma_matching_children_subset(nodes, children.drop_last(), query, x);
        let rest = matching_children(nodes, children.drop_last(), query);
        if matching_children(nodes, children, query).contains(x) {
            if rest.contains(x) {
                let k = choose|k: int| 0 <= k < children.drop_last().len() && children.drop_last()[k] == x;
                assert(children[k] == x);
            } else {
                assert(children[children.len() - 1] == x);
            }
        }
    }
}

/// Describes the listed nodes, in order.
fn describe_nodes(nodes: &Vec<InternalNode>, ids: &Vec<usize>) -> (items: Vec<ScanItem>)
    requires
        nodes@.len() <= u64::MAX,
        forall|i: int| 0 <= i < ids@.len() ==> (#[trigger] ids@[i] as int) < nodes@.len(),
    ensures
        items_describe(items@, nodes@, ids@),
        listed_ids(items@) == ids@,
{
    let mut items: Vec<ScanItem> = Vec::new();
    let mut index: usize = 0;
    while index < ids.len()
        invariant
            0 <= index <= ids@.len(),
            nodes@.len() <= u64::MAX,
            forall|i: int| 0 <= i < ids@.len() ==> (#[trigger] ids@[i] as int) < nodes@.len(),
            items@.len() == index,
            forall|i: int| 0 <= i < index ==> #[trigger] item_matches(items@[i], nodes@, ids@[i] as int),
        decreases ids@.len() - index,
    {
        items.push(scan_item(nodes, ids[index]));
        index = index + 1;
    }
    proof {
        assert forall|i: int| 0 <= i < ids@.len() implies #[trigger] listed_ids(items@)[i] == ids@[i] by {
            assert(item_matches(items@[i], nodes@, ids@[i] as int));
        }
        assert(listed_ids(items@) =~= ids@);
    }
    items
}

impl ScanSnapshot {
    #[verifier::type_invariant]
    spec fn inv(self) -> bool {
        &&& arena_wf(self.nodes@)
        &&& self.nodes@.len() <= u64::MAX
    }

    /// The retained nodes.
    pub closed spec fn spec_nodes(self) -> Seq<InternalNode> {
        self.nodes@
    }

    /// The canonical root path, as bytes.
    pub closed spec fn spec_root_path(self) -> Seq<u8> {
        self.root_path@
    }

    /// Whether the root is the mount point of a macOS volume.
    pub closed spec fn spec_root_is_macos_volume(self) -> bool {
        self.root_is_macos_volume
    }

    /// Whether allocated sizes were estimated rather than measured.
    pub closed spec fn spec_allocated_size_is_estimate(self) -> bool {
        self.allocated_size_is_estimate
    }

    /// The filesystem shared by every retained compact revision.
    pub closed spec fn spec_revision_filesystem_id(self) -> Option<u64> {
        self.revision_filesystem_id
    }

    /// Retains an aggregated arena.
    pub fn new(
        root_path: Vec<u8>,
        root_is_macos_volume: bool,
        nodes: Vec<InternalNode>,
        allocated_size_is_estimate: bool,
        revision_filesystem_id: Option<u64>,
    ) -> (snapshot: Self)
        requires
            arena_wf(nodes@),
            nodes@.len() <= u64::MAX,
        ensures
            snapshot.spec_nodes() == nodes@,
            snapshot.spec_root_path() == root_path@,
            snapshot.spec_root_is_macos_volume() == root_is_macos_volume,
            snapshot.spec_allocated_size_is_estimate() == allocated_size_is_estimate,
            snapshot.spec_revision_filesystem_id() == revision_filesystem_id,
    {
        ScanSnapshot {
            root_path,
            root_is_macos_volume,
            nodes,
            allocated_size_is_estimate,
            revision_filesystem_id,
        }
    }

    /// The retained nodes.
    pub fn nodes(&self) -> (nodes: &Vec<InternalNode>)
        ensures
            nodes@ == self.spec_nodes(),
            arena_wf(nodes@),
            nodes@.len() <= u64::MAX,
    {
        proof {
            use_type_invariant(self);
        }
        &self.nodes
    }

    /// The canonical root path.
    pub fn root_path(&self) -> (path: Vec<u8>)
        ensures
            path@ == self.spec_root_path(),
    {
        let mut path: Vec<u8> = Vec::new();
        let mut index: usize = 0;
        while index < self.root_path.len()
            invariant
                0 <= index <= self.root_path@.len(),
                path@ == self.root_path@.take(index as int),
            decreases self.root_path@.len() - index,
        {
            path.push(self.root_path[index]);
            index = index + 1;
            proof {
                assert(path@ =~= self.root_path@.take(index as int));
            }
        }
        proof {
            assert(self.root_path@.take(index as int) =~= self.root_path@);
        }
        path
    }

    /// Renames the root node for display; the root path is unchanged.
    pub fn set_root_display_name(&mut self, name: Vec<u8>)
        ensures
            final(self).spec_nodes() == old(self).spec_nodes().update(
                0,
                InternalNode { name: name, ..old(self).spec_nodes()[0] },
            ),
            final(self).spec_root_path() == old(self).spec_root_path(),
            final(self).spec_root_is_macos_volume() == old(self).spec_root_is_macos_volume(),
            final(self).spec_allocated_size_is_estimate() == old(
                self,
            ).spec_allocated_size_is_estimate(),
            final(self).spec_revision_filesystem_id() == old(self).spec_revision_filesystem_id(),
    {
        proof {
            use_type_invariant(&*self);
        }
        rename_root(&mut self.nodes, name);
    }

    /// Resolves a requested id to a node of this scan.
    pub fn valid_node_id(&self, requested: u64) -> (r: Result<usize, String>)
        ensures
            match r {
                Ok(id) => id == requested && (requested as int) < self.spec_nodes().len(),
                Err(message) => (requested as int) >= self.spec_nodes().len() && message@
                    == "That item is not part of this scan."@,
            },
    {
        if (requested as u128) < (self.nodes.len() as u128) {
            Ok(requested as usize)
        } else {
            Err("That item is not part of this scan.".to_string())
        }
    }

    /// Describes one node as a listing item.
    pub fn scan_item(&self, node_id: usize) -> (item: ScanItem)
        requires
            node_id < self.spec_nodes().len(),
        ensures
            item_matches(item, self.spec_nodes(), node_id as int),
    {
        proof {
            use_type_invariant(self);
        }
        scan_item(&self.nodes, node_id)
    }

    /// The path of a node: the root path with each name below the root pushed.
    pub open spec fn spec_node_path(self, id: int) -> Seq<u8> {
        push_components(self.spec_root_path(), relative_path(self.spec_nodes(), id))
    }

    /// Builds the path of a node from the retained names.
    pub fn node_path(&self, node_id: usize) -> (path: Vec<u8>)
        requires
            node_id < self.spec_nodes().len(),
        ensures
            path@ == self.spec_node_path(node_id as int),
    {
        proof {
            use_type_invariant(self);
        }
        let mut chain: Vec<usize> = Vec::new();
        crate::arena::relative_node_path(&self.nodes, node_id, &mut chain);
        let total = self.nodes.len();
        assert(self.nodes@.len() == total);
        let ghost names = relative_path(self.nodes@, node_id as int);
        proof {
            crate::arena::lemma_relative_path_chain(self.nodes@, node_id as int);
        }
        let mut path = self.root_path();
        let mut k: usize = chain.len();
        while k > 0
            invariant
                0 <= k <= chain@.len(),
                chain@ == ancestor_chain(self.nodes@, node_id as int),
                names == chain_names(self.nodes@, chain@),
                forall|j: int| 0 <= j < chain@.len() ==> 0 < #[trigger] chain@[j] < self.nodes@.len(),
                path@ == push_components(self.root_path@, names.take(chain@.len() - k)),
            decreases k,
        {
            let id = chain[k - 1];
            proof {
                let m = chain@.len() - k;
                assert(names[m] == self.nodes@[chain@[k - 1] as int].name@);
                assert(names.take(m + 1).drop_last() =~= names.take(m));
                assert(names.take(m + 1).last() == names[m]);
            }
            push_name(&mut path, &self.nodes[id].name);
            k = k - 1;
        }
        proof {
            assert(names.take(chain@.len() as int) =~= names);
        }
        path
    }

    /// The breadcrumbs from the root down to a node.
    pub fn breadcrumbs(&self, node_id: usize) -> (crumbs: Vec<Breadcrumb>)
        requires
            node_id < self.spec_nodes().len(),
        ensures
            crumbs@.len() == crumb_ids(self.spec_nodes(), node_id as int).len(),
            forall|i: int|
                0 <= i < crumbs@.len() ==> #[trigger] crumb_matches(
                    crumbs@[i],
                    self.spec_nodes(),
                    crumb_ids(self.spec_nodes(), node_id as int)[i] as int,
                ),
    {
        proof {
            use_type_invariant(self);
        }
        let mut chain: Vec<usize> = Vec::new();
        crate::arena::relative_node_path(&self.nodes, node_id, &mut chain);
        let total = self.nodes.len();
        assert(self.nodes@.len() == total);
        proof {
            crate::arena::lemma_relative_path_chain(self.nodes@, node_id as int);
        }
        let ghost ids = crumb_ids(self.nodes@, node_id as int);
        let mut crumbs: Vec<Breadcrumb> = Vec::new();
        crumbs.push(Breadcrumb { id: 0, name: crate::text::lossy_text(self.nodes[0].name.as_slice()) });
        let mut k: usize = chain.len();
        while k > 0
            invariant
                0 <= k <= chain@.len(),
                chain@ == ancestor_chain(self.nodes@, node_id as int),
                ids == crumb_ids(self.nodes@, node_id as int),
                forall|j: int| 0 <= j < chain@.len() ==> 0 < #[trigger] chain@[j] < self.nodes@.len(),
                self.nodes@.len() <= u64::MAX,
                crumbs@.len() == chain@.len() - k + 1,
                forall|i: int|
                    0 <= i < crumbs@.len() ==> #[trigger] crumb_matches(crumbs@[i], self.nodes@, ids[i] as int),
            decreases k,
        {
            let id = chain[k - 1];
            proof {
                assert(ids[crumbs@.len() as int] == chain@.reverse()[chain@.len() - k]);
            }
            crumbs.push(Breadcrumb { id: wire_id(id), name: crate::text::lossy_text(self.nodes[id].name.as_slice()) });
            k = k - 1;
        }
        crumbs
    }

    /// The revision of a node, with the scan's filesystem identity restored.
    pub open spec fn spec_scan_revision(self, node: InternalNode) -> Option<ScannedFileRevision> {
        match (node.scan_revision, self.spec_revision_filesystem_id()) {
            (Some(compact), Some(filesystem_id)) => Some(compact.expand_spec(filesystem_id)),
            _ => None,
        }
    }

    fn scan_revision(&self, node: &InternalNode) -> (revision: Option<ScannedFileRevision>)
        ensures
            revision == self.spec_scan_revision(*node),
    {
        match (node.scan_revision, self.revision_filesystem_id) {
            (Some(compact), Some(filesystem_id)) => Some(compact.expand(filesystem_id)),
            _ => None,
        }
    }

    /// What describing item `requested` for compression gives: the item's
    /// path, kind, sizes and retained revision, or a refusal of an id that is
    /// not part of the scan.
    pub open spec fn compression_target_result(
        self,
        requested: u64,
        r: Result<CompressionTarget, String>,
    ) -> bool {
        match r {
            Ok(target) => {
                let id = requested as int;
                let node = self.spec_nodes()[id];
                &&& id < self.spec_nodes().len()
                &&& target.path@ == self.spec_node_path(id)
                &&& target.kind == node.kind
                &&& target.logical_bytes == node.logical_bytes
                &&& target.allocated_bytes == node.allocated_bytes
                &&& target.allocated_size_is_estimate == self.spec_allocated_size_is_estimate()
                &&& target.scan_revision == self.spec_scan_revision(node)
            },
            Err(message) => (requested as int) >= self.spec_nodes().len() && message@
                == "That item is not part of this scan."@,
        }
    }

    /// Describes a scanned item for compression inspection and planning.
    pub fn compression_target(&self, requested: u64) -> (r: Result<CompressionTarget, String>)
        ensures
            self.compression_target_result(requested, r),
    {
        let node_id = self.valid_node_id(requested)?;
        let node = &self.nodes[node_id];
        Ok(
            CompressionTarget {
                path: self.node_path(node_id),
                kind: node.kind,
                logical_bytes: node.logical_bytes,
                allocated_bytes: node.allocated_bytes,
                allocated_size_is_estimate: self.allocated_size_is_estimate,
                scan_revision: self.scan_revision(node),
            },
        )
    }

    /// The children a view of node `id` shows.
    pub open spec fn spec_shown(self, id: int, metric: SizeMetric) -> Seq<usize> {
        shown_children(
            self.spec_nodes(),
            self.spec_nodes()[id].children@,
            metric,
            self.spec_root_is_macos_volume() && id == 0,
        )
    }

    fn suppressed_count(&self, node_id: usize, metric: SizeMetric) -> (count: usize)
        requires
            node_id < self.spec_nodes().len(),
        ensures
            count == hidden_count(
                self.spec_nodes(),
                self.spec_nodes()[node_id as int].children@,
                metric,
                self.spec_root_is_macos_volume() && node_id == 0,
            ),
    {
        proof {
            use_type_invariant(self);
        }
        let children = &self.nodes[node_id].children;
        let at_root = self.root_is_macos_volume && node_id == 0;
        let mut count: usize = 0;
        let mut index: usize = 0;
        proof {
            assert(children@.take(0) =~= Seq::<usize>::empty());
        }
        while index < children.len()
            invariant
                0 <= index <= children@.len(),
                children@ == self.nodes@[node_id as int].children@,
                arena_wf(self.nodes@),
                node_id < self.nodes@.len(),
                count == hidden_count(self.nodes@, children@.take(index as int), metric, at_root),
                count <= index,
            decreases children@.len() - index,
        {
            proof {
                assert(child_links(self.nodes@, node_id as int, index as int));
                assert(children@.take(index as int + 1).drop_last() =~= children@.take(index as int));
            }
            if !show_in_storage_view(&self.nodes[children[index]], metric, at_root) {
                count = count + 1;
            }
            index = index + 1;
        }
        proof {
            assert(children@.take(index as int) =~= children@);
        }
        count
    }

    fn ranked_child_ids(&self, parent: usize, limit: usize, metric: SizeMetric) -> (ids: Vec<usize>)
        requires
            parent < self.spec_nodes().len(),
            limit > 0,
        ensures
            top_nodes_inv(ids@, self.spec_shown(parent as int, metric), self.spec_nodes(), metric, limit as int),
    {
        proof {
            use_type_invariant(self);
        }
        let children = &self.nodes[parent].children;
        proof {
            assert forall|k: int| 0 <= k < children@.len() implies (#[trigger] children@[k] as int)
                < self.nodes@.len() by {
                assert(child_links(self.nodes@, parent as int, k));
            }
        }
        ranked_node_ids(children, limit, &self.nodes, metric, self.root_is_macos_volume && parent == 0)
    }

    /// The view of a folder ordered by allocated bytes.
    pub fn directory_view(&self, scan_id: u64, requested: u64) -> (r: Result<DirectoryView, String>)
        ensures
            self.directory_view_result(scan_id, requested, SizeMetric::Allocated, r),
    {
        self.directory_view_with_metric(scan_id, requested, SizeMetric::Allocated)
    }

    /// What a view request answers: a folder of this scan gets its bounded
    /// view; any other id is refused.
    pub open spec fn directory_view_result(
        self,
        scan_id: u64,
        requested: u64,
        metric: SizeMetric,
        r: Result<DirectoryView, String>,
    ) -> bool {
        let nodes = self.spec_nodes();
        let id = requested as int;
        match r {
            Ok(view) => {
                let node = nodes[id];
                let shown = self.spec_shown(id, metric);
                let at_root = self.spec_root_is_macos_volume() && id == 0;
                &&& id < nodes.len()
                &&& node.kind == EntryKind::Directory
                &&& view.scan_id == scan_id
                &&& view.node_id == requested
                &&& view.root@ == utf8_lossy(self.spec_root_path())
                &&& view.path@ == utf8_lossy(self.spec_node_path(id))
                &&& view.display_name@ == utf8_lossy(node.name@)
                &&& view.logical_bytes == node.logical_bytes
                &&& view.allocated_bytes == node.allocated_bytes
                &&& view.total_items == node.children@.len()
                &&& view.suppressed_items == hidden_count(nodes, node.children@, metric, at_root)
                &&& view.total_items - view.suppressed_items == shown.len()
                &&& view.items_truncated == (shown.len() > MAX_LIST_ITEMS)
                &&& view.breadcrumbs@.len() == crumb_ids(nodes, id).len()
                &&& forall|i: int|
                    0 <= i < view.breadcrumbs@.len() ==> #[trigger] crumb_matches(
                        view.breadcrumbs@[i],
                        nodes,
                        crumb_ids(nodes, id)[i] as int,
                    )
                &&& top_nodes_inv(listed_ids(view.items@), shown, nodes, metric, MAX_LIST_ITEMS as int)
                &&& items_describe(view.items@, nodes, listed_ids(view.items@))
                &&& chart_level(
                    view.chart_items@,
                    nodes,
                    self.spec_root_is_macos_volume(),
                    id,
                    0,
                    metric,
                    MAX_CHART_ITEMS_TOTAL as int,
                ) is Some
                &&& spec_chart_items_count(view.chart_items@) <= MAX_CHART_ITEMS_TOTAL
            },
            Err(message) => if id >= nodes.len() {
                message@ == "That item is not part of this scan."@
            } else {
                nodes[id].kind != EntryKind::Directory && message@
                    == "Only folders can be opened in the scan map."@
            },
        }
    }

    /// The bounded view of a folder: its totals, path and breadcrumbs, its
    /// best 500 shown children in ranking order, and its storage chart.
    pub fn directory_view_with_metric(&self, scan_id: u64, requested: u64, metric: SizeMetric) -> (r:
        Result<DirectoryView, String>)
        ensures
            self.directory_view_result(scan_id, requested, metric, r),
    {
        proof {
            use_type_invariant(self);
        }
        let node_id = self.valid_node_id(requested)?;
        let node = &self.nodes[node_id];
        if node.kind != EntryKind::Directory {
            return Err("Only folders can be opened in the scan map.".to_string());
        }
        let total_items = node.children.len();
        let suppressed_items = self.suppressed_count(node_id, metric);
        proof {
            lemma_hidden_shown_count(
                self.nodes@,
                node.children@,
                metric,
                self.root_is_macos_volume && node_id == 0,
            );
        }
        let ranked_ids = self.ranked_child_ids(node_id, MAX_LIST_ITEMS, metric);
        let ghost shown = self.spec_shown(node_id as int, metric);
        proof {
            assert forall|i: int| 0 <= i < ranked_ids@.len() implies (#[trigger] ranked_ids@[i] as int)
                < self.nodes@.len() by {}
        }
        let items = describe_nodes(&self.nodes, &ranked_ids);
        let chart_count: usize = if ranked_ids.len() < MAX_CHART_ITEMS_PER_DIRECTORY {
            ranked_ids.len()
        } else {
            MAX_CHART_ITEMS_PER_DIRECTORY
        };
        let mut chart_ranked: Vec<usize> = Vec::new();
        let mut index: usize = 0;
        while index < chart_count
            invariant
                0 <= index <= chart_count <= ranked_ids@.len(),
                chart_ranked@ == ranked_ids@.take(index as int),
            decreases chart_count - index,
        {
            chart_ranked.push(ranked_ids[index]);
            index = index + 1;
            proof {
                assert(chart_ranked@ =~= ranked_ids@.take(index as int));
            }
        }
        proof {
            crate::chart::lemma_top_prefix(
                ranked_ids@,
                shown,
                self.nodes@,
                metric,
                MAX_LIST_ITEMS as int,
                chart_count as int,
            );
            if chart_count < MAX_CHART_ITEMS_PER_DIRECTORY {
                assert(ranked_ids@.take(chart_count as int) =~= ranked_ids@);
            }
        }
        let mut chart_budget: usize = MAX_CHART_ITEMS_TOTAL;
        let chart_items = chart_items(
            &self.nodes,
            self.root_is_macos_volume,
            node_id,
            0,
            &chart_ranked,
            total_items,
            metric,
            &mut chart_budget,
        );
        proof {
            crate::chart::lemma_chart_level_count(
                chart_items@,
                self.nodes@,
                self.root_is_macos_volume,
                node_id as int,
                0,
                metric,
                MAX_CHART_ITEMS_TOTAL as int,
            );
        }
        let root = lossy_text(self.root_path.as_slice());
        let path = self.node_path(node_id);
        Ok(
            DirectoryView {
                scan_id,
                node_id: wire_id(node_id),
                root,
                path: lossy_text(path.as_slice()),
                display_name: lossy_text(node.name.as_slice()),
                logical_bytes: node.logical_bytes,
                allocated_bytes: node.allocated_bytes,
                total_items,
                suppressed_items,
                items_truncated: total_items - suppressed_items > MAX_LIST_ITEMS,
                breadcrumbs: self.breadcrumbs(node_id),
                items,
                chart_items,
            },
        )
    }

    /// What a search request answers. A folder of this scan with a usable
    /// query whose pattern builds is searched unless the search is cancelled;
    /// one whose pattern does not build is refused as unprepared; other requests are refused, the first failing check naming
    /// the reason.
    pub open spec fn search_result(
        self,
        scan_id: u64,
        requested: u64,
        metric: SizeMetric,
        query: Seq<char>,
        r: Result<DirectorySearchResult, String>,
    ) -> bool {
        let nodes = self.spec_nodes();
        let id = requested as int;
        let term = trimmed(query);
        let accepted = id < nodes.len() && nodes[id].kind == EntryKind::Directory && term.len() > 0
            && term.len() <= MAX_SEARCH_QUERY_CHARS;
        match r {
            Ok(result) => accepted && escaped_literal_builds(term) && self.search_describes(
                id,
                metric,
                term,
                result,
            ) && result.scan_id == scan_id,
            Err(message) => if id >= nodes.len() {
                message@ == "That item is not part of this scan."@
            } else if nodes[id].kind != EntryKind::Directory {
                message@ == "Only folders can be searched."@
            } else if term.len() == 0 {
                message@ == "Enter a file or folder name to search for."@
            } else if term.len() > MAX_SEARCH_QUERY_CHARS {
                message@ == "Search terms are limited to 128 characters."@
            } else if !escaped_literal_builds(term) {
                message@ == "That search term could not be prepared."@
            } else {
                message@ == "Folder search cancelled."@ && nodes[id].children@.len() > 0
            },
        }
    }

    /// A search result for folder `id` and a prepared term: every matching
    /// child is counted, and the best 500 of them are listed in ranking order.
    pub open spec fn search_describes(
        self,
        id: int,
        metric: SizeMetric,
        term: Seq<char>,
        result: DirectorySearchResult,
    ) -> bool {
        let nodes = self.spec_nodes();
        let matches = matching_children(nodes, nodes[id].children@, term);
        &&& result.node_id == id
        &&& result.query@ == term
        &&& result.metric == metric
        &&& result.total_matches == matches.len()
        &&& result.items_truncated == (matches.len() > MAX_LIST_ITEMS)
        &&& top_nodes_inv(listed_ids(result.items@), matches, nodes, metric, MAX_LIST_ITEMS as int)
        &&& items_describe(result.items@, nodes, listed_ids(result.items@))
    }

    /// Searches the direct children of a folder by name.
    pub fn search_directory(
        &self,
        scan_id: u64,
        requested: u64,
        metric: SizeMetric,
        query: &str,
        cancel: &AtomicBool,
    ) -> (r: Result<DirectorySearchResult, String>)
        ensures
            self.search_result(scan_id, requested, metric, query@, r),
    {
        let node_id = self.valid_node_id(requested)?;
        if self.nodes[node_id].kind != EntryKind::Directory {
            return Err("Only folders can be searched.".to_string());
        }
        let term = trim_text(query);
        let count = char_count(term);
        if count == 0 {
            return Err("Enter a file or folder name to search for.".to_string());
        }
        if count > MAX_SEARCH_QUERY_CHARS {
            return Err("Search terms are limited to 128 characters.".to_string());
        }
        let prepared = match compile_name_query(term) {
            Some(prepared) => prepared,
            None => {
                return Err("That search term could not be prepared.".to_string());
            },
        };
        self.search_prepared(scan_id, node_id, metric, &prepared, cancel)
    }

    /// Searches the direct children of a folder with a prepared query,
    /// reading the cancellation flag before every 2048 children.
    pub fn search_prepared(
        &self,
        scan_id: u64,
        node_id: usize,
        metric: SizeMetric,
        query: &NameQuery,
        cancel: &AtomicBool,
    ) -> (r: Result<DirectorySearchResult, String>)
        requires
            node_id < self.spec_nodes().len(),
        ensures
            match r {
                Ok(result) => result.scan_id == scan_id && self.search_describes(
                    node_id as int,
                    metric,
                    query@,
                    result,
                ),
                Err(message) => message@ == "Folder search cancelled."@
                    && self.spec_nodes()[node_id as int].children@.len() > 0,
            },
    {
        self.search_prepared_until(scan_id, node_id, metric, query, &|| cancel_requested(cancel))
    }

    /// Searches the direct children of a folder with a prepared query,
    /// asking `cancelled` before every 2048 children whether to stop. A stop
    /// ends the search with "Folder search cancelled."; a search that is
    /// never stopped lists its matches.
    pub fn search_prepared_until<G: Fn() -> bool>(
        &self,
        scan_id: u64,
        node_id: usize,
        metric: SizeMetric,
        query: &NameQuery,
        cancelled: &G,
    ) -> (r: Result<DirectorySearchResult, String>)
        requires
            node_id < self.spec_nodes().len(),
            call_requires(*cancelled, ()),
        ensures
            match r {
                Ok(result) => result.scan_id == scan_id && self.search_describes(
                    node_id as int,
                    metric,
                    query@,
                    result,
                ),
                Err(message) => message@ == "Folder search cancelled."@
                    && self.spec_nodes()[node_id as int].children@.len() > 0,
            },
            (forall|stop: bool| call_ensures(*cancelled, (), stop) ==> !stop) ==> r is Ok,
            (forall|stop: bool| call_ensures(*cancelled, (), stop) ==> stop)
                && self.spec_nodes()[node_id as int].children@.len() > 0 ==> r is Err,
    {
        proof {
            use_type_invariant(self);
        }
        let children = &self.nodes[node_id].children;
        let ghost all = matching_children(self.nodes@, children@, query@);
        let mut top = TopNodes::new();
        let mut total_matches: usize = 0;
        let mut index: usize = 0;
        proof {
            assert(children@.take(0) =~= Seq::<usize>::empty());
        }
        while index < children.len()
            invariant
                0 <= index <= children@.len(),
                children@ == self.nodes@[node_id as int].children@,
                arena_wf(self.nodes@),
                node_id < self.nodes@.len(),
                total_matches == matching_children(self.nodes@, children@.take(index as int), query@).len(),
                total_matches <= index,
                top_nodes_inv(
                    top.ids@,
                    matching_children(self.nodes@, children@.take(index as int), query@),
                    self.nodes@,
                    metric,
                    MAX_LIST_ITEMS as int,
                ),
                call_requires(*cancelled, ()),
                (forall|stop: bool| call_ensures(*cancelled, (), stop) ==> stop) ==> index == 0,
            decreases children@.len() - index,
        {
            if index % SEARCH_CANCELLATION_CHECK_INTERVAL == 0 && cancelled() {
                return Err("Folder search cancelled.".to_string());
            }
            let child = children[index];
            let ghost seen = matching_children(self.nodes@, children@.take(index as int), query@);
            proof {
                assert(child_links(self.nodes@, node_id as int, index as int));
                assert(children@.take(index as int + 1).drop_last() =~= children@.take(index as int));
                assert(children@.take(index as int + 1).last() == child);
            }
            let name = lossy_text(self.nodes[child].name.as_slice());
            if name_query_matches(query, name.as_str()) {
                proof {
                    lemma_matching_children_subset(self.nodes@, children@.take(index as int), query@, child);
                    if children@.take(index as int).contains(child) {
                        let k = choose|k: int| 0 <= k < index && children@.take(index as int)[k] == child;
                        assert(child_links(self.nodes@, node_id as int, k));
                        assert(children@[k] == children@[index as int]);
                    }
                }
                total_matches = total_matches + 1;
                top.offer(&self.nodes, metric, MAX_LIST_ITEMS, child, Ghost(seen));
            }
            index = index + 1;
        }
        proof {
            assert(children@.take(index as int) =~= children@);
            assert forall|i: int| 0 <= i < top.ids@.len() implies (#[trigger] top.ids@[i] as int)
                < self.nodes@.len() by {}
        }
        let items = describe_nodes(&self.nodes, &top.ids);
        Ok(
            DirectorySearchResult {
                scan_id,
                node_id: wire_id(node_id),
                query: query_text(query),
                metric,
                total_matches,
                items_truncated: total_matches > MAX_LIST_ITEMS,
                items,
            },
        )
    }

    /// What revealing item `requested` gives: its path, or a refusal of an id
    /// that is not part of the scan or of a link.
    pub open spec fn reveal_result(self, requested: u64, r: Result<Vec<u8>, String>) -> bool {
        match r {
            Ok(path) => (requested as int) < self.spec_nodes().len() && self.spec_nodes()[requested as int].kind
                != EntryKind::Symlink && path@ == self.spec_node_path(requested as int),
            Err(message) => if (requested as int) >= self.spec_nodes().len() {
                message@ == "That item is not part of this scan."@
            } else {
                self.spec_nodes()[requested as int].kind == EntryKind::Symlink && message@
                    == "Symbolic links cannot be revealed without following their target."@
            },
        }
    }

    /// The path of an item to reveal in the file manager; links are refused
    /// because revealing one would follow it.
    pub fn reveal_path(&self, requested: u64) -> (r: Result<Vec<u8>, String>)
        ensures
            self.reveal_result(requested, r),
    {
        let node_id = self.valid_node_id(requested)?;
        if self.nodes[node_id].kind == EntryKind::Symlink {
            return Err("Symbolic links cannot be revealed without following their target.".to_string());
        }
        Ok(self.node_path(node_id))
    }
}

} // verus!
