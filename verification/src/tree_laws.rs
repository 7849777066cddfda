//! What holds of every tree that the builder makes, and of its rows.

use crate::grouping::{distinct_paths, grouped, lemma_grouped, lemma_grouped_independent_of_order};
use crate::parser::FileDiffView;
use crate::paths::{
    is_prefix_of_parts, is_strict_prefix_of_parts, is_strictly_below, join_path, lemma_split_join,
    lemma_split_path_components, lemma_split_path_injective, lemma_split_path_nonempty, split_path,
};
use crate::text::{
    lemma_lex_less_asymmetric, lemma_lex_less_connected, lemma_lex_less_irreflexive,
    lemma_lex_less_transitive, lowercase_of,
};
use crate::tree::{
    aggregate, aggregate_each, directory_index, directory_node, file_node, file_totals,
    flatten_list, flatten_node, insert_all, insert_file, insert_sorted, is_aggregated,
    lemma_aggregate_is_aggregated, lemma_aggregate_keeps_totals, lemma_directory_index, list_totals,
    record_stats, row_of, sibling_before, sort_each, sort_siblings, sort_tree, spec_rows, spec_tree,
    stored_totals, FileTreeItemView, Totals, TreeNodeView,
};
use vstd::prelude::*;

verus! {

// ---------------------------------------------------------------------
// Well-formed trees
// ---------------------------------------------------------------------

/// No two directories among the nodes have the same name.
pub open spec fn distinct_directories(nodes: Seq<TreeNodeView>) -> bool {
    forall|i: int, j: int|
        0 <= i < nodes.len() && 0 <= j < nodes.len() && i != j && (#[trigger] nodes[i]).is_directory
            && (#[trigger] nodes[j]).is_directory ==> nodes[i].name != nodes[j].name
}

/// A node that stands at the given components: its path has these
/// components, a file has no children, no two directories among its
/// children share a name, and each child is well formed at the components
/// of the node followed by the child's name.
pub open spec fn well_formed(node: TreeNodeView, parts: Seq<Seq<char>>) -> bool
    decreases node,
{
    &&& split_path(node.full_path) == parts
    &&& !node.is_directory ==> node.children.len() == 0
    &&& well_formed_children(node.children, parts)
}

/// Children of a node at the given components, each well formed, no two
/// directories among them with the same name.
pub open spec fn well_formed_children(children: Seq<TreeNodeView>, parts: Seq<Seq<char>>) -> bool
    decreases children,
{
    &&& distinct_directories(children)
    &&& forall|i: int|
        0 <= i < children.len() ==> well_formed(
            #[trigger] children[i],
            parts.push(children[i].name),
        )
}

/// A well-formed tree: a directory without a path of its own whose
/// children are well formed.
pub open spec fn well_formed_root(root: TreeNodeView) -> bool {
    root.is_directory && well_formed_children(root.children, Seq::empty())
}

/// Adding a file keeps a directory well formed.
pub proof fn lemma_insert_file_well_formed(
    node: TreeNodeView,
    parts: Seq<Seq<char>>,
    at: int,
    path: Seq<char>,
    file: Option<FileDiffView>,
)
    requires
        parts == split_path(path),
        0 <= at < parts.len(),
        node.is_directory,
        well_formed_children(node.children, parts.take(at)),
    ensures
        well_formed_children(insert_file(node, parts, at, path, file).children, parts.take(at)),
        insert_file(node, parts, at, path, file).is_directory,
        insert_file(node, parts, at, path, file).name == node.name,
        insert_file(node, parts, at, path, file).full_path == node.full_path,
    decreases parts.len() - at,
{
    let here = parts.take(at);
    let below = parts.take(at + 1);
    assert(below =~= here.push(parts[at]));
    let result = insert_file(node, parts, at, path, file);
    if at == parts.len() - 1 {
        let leaf = file_node(parts[at], path, file);
        assert(below =~= parts);
        assert(well_formed(leaf, here.push(leaf.name)));
        assert forall|i: int| 0 <= i < result.children.len() implies well_formed(
            #[trigger] result.children[i],
            here.push(result.children[i].name),
        ) by {
            if i < node.children.len() {
                assert(result.children[i] == node.children[i]);
            }
        }
        assert(distinct_directories(result.children));
    } else {
        let at_child = directory_index(node.children, parts[at], 0);
        lemma_directory_index(node.children, parts[at], 0);
        if at_child < node.children.len() {
            let child = node.children[at_child];
            assert(well_formed(child, here.push(child.name)));
            lemma_insert_file_well_formed(child, parts, at + 1, path, file);
            let grown = insert_file(child, parts, at + 1, path, file);
            assert(well_formed(grown, below));
            assert forall|i: int| 0 <= i < result.children.len() implies well_formed(
                #[trigger] result.children[i],
                here.push(result.children[i].name),
            ) by {
                if i != at_child {
                    assert(result.children[i] == node.children[i]);
                }
            }
            assert forall|i: int, j: int|
                0 <= i < result.children.len() && 0 <= j < result.children.len() && i != j && (
                #[trigger] result.children[i]).is_directory && (
                #[trigger] result.children[j]).is_directory implies result.children[i].name
                != result.children[j].name by {
                assert(result.children[i].name == node.children[i].name);
                assert(result.children[j].name == node.children[j].name);
                assert(node.children[i].is_directory);
                assert(node.children[j].is_directory);
            }
        } else {
            let dir = directory_node(parts[at], join_path(below));
            lemma_split_path_components(path);
            assert forall|i: int| 0 <= i < below.len() implies crate::paths::is_component(
                #[trigger] below[i],
            ) by {
                assert(below[i] == parts[i]);
            }
            lemma_split_join(below);
            lemma_insert_file_well_formed(dir, parts, at + 1, path, file);
            let grown = insert_file(dir, parts, at + 1, path, file);
            assert(well_formed(grown, below));
            assert forall|i: int| 0 <= i < result.children.len() implies well_formed(
                #[trigger] result.children[i],
                here.push(result.children[i].name),
            ) by {
                if i < node.children.len() {
                    assert(result.children[i] == node.children[i]);
                }
            }
            assert forall|i: int, j: int|
                0 <= i < result.children.len() && 0 <= j < result.children.len() && i != j && (
                #[trigger] result.children[i]).is_directory && (
                #[trigger] result.children[j]).is_directory implies result.children[i].name
                != result.children[j].name by {
                if i < node.children.len() {
                    assert(result.children[i] == node.children[i]);
                }
                if j < node.children.len() {
                    assert(result.children[j] == node.children[j]);
                }
            }
        }
    }
}

/// The tree of the first records is well formed.
pub proof fn lemma_insert_all_well_formed(records: Seq<FileDiffView>, upto: int)
    requires
        0 <= upto <= records.len(),
    ensures
        well_formed_root(insert_all(records, upto)),
    decreases upto,
{
    if upto > 0 {
        lemma_insert_all_well_formed(records, upto - 1);
        let path = records[upto - 1].filename;
        lemma_split_path_nonempty(path);
        assert(split_path(path).take(0) =~= Seq::<Seq<char>>::empty());
        lemma_insert_file_well_formed(
            insert_all(records, upto - 1),
            split_path(path),
            0,
            path,
            Some(records[upto - 1]),
        );
    }
}


/// Where `x` goes into a sorted list.
pub open spec fn insert_position(sorted: Seq<TreeNodeView>, x: TreeNodeView) -> int
    decreases sorted.len(),
{
    if sorted.len() == 0 {
        0
    } else if sibling_before(x, sorted.last()) {
        insert_position(sorted.drop_last(), x)
    } else {
        sorted.len() as int
    }
}

/// Putting a node into a sorted list moves no other node.
pub proof fn lemma_insert_sorted_is_insert(sorted: Seq<TreeNodeView>, x: TreeNodeView)
    ensures
        0 <= insert_position(sorted, x) <= sorted.len(),
        insert_sorted(sorted, x) == sorted.insert(insert_position(sorted, x), x),
    decreases sorted.len(),
{
    if sorted.len() == 0 {
        assert(sorted.insert(0, x) =~= seq![x]);
    } else if sibling_before(x, sorted.last()) {
        let front = sorted.drop_last();
        lemma_insert_sorted_is_insert(front, x);
        let k = insert_position(front, x);
        assert(front.insert(k, x).push(sorted.last()) =~= sorted.insert(k, x));
    } else {
        assert(sorted.insert(sorted.len() as int, x) =~= sorted.push(x));
    }
}

/// Sorting keeps children well formed.
pub proof fn lemma_sort_siblings_well_formed(nodes: Seq<TreeNodeView>, parts: Seq<Seq<char>>)
    requires
        well_formed_children(nodes, parts),
    ensures
        well_formed_children(sort_siblings(nodes), parts),
        sort_siblings(nodes).len() == nodes.len(),
    decreases nodes.len(),
{
    if nodes.len() > 0 {
        let front = nodes.drop_last();
        let x = nodes.last();
        assert forall|i: int| 0 <= i < front.len() implies well_formed(
            #[trigger] front[i],
            parts.push(front[i].name),
        ) by {
            assert(front[i] == nodes[i]);
        }
        assert(distinct_directories(front)) by {
            assert forall|i: int, j: int|
                0 <= i < front.len() && 0 <= j < front.len() && i != j && (
                #[trigger] front[i]).is_directory && (
                #[trigger] front[j]).is_directory implies front[i].name != front[j].name by {
                assert(front[i] == nodes[i]);
                assert(front[j] == nodes[j]);
            }
        }
        lemma_sort_siblings_well_formed(front, parts);
        lemma_sort_siblings_members(front);
        lemma_sort_siblings_members(nodes);
        let prev = sort_siblings(front);
        lemma_insert_sorted_is_insert(prev, x);
        let k = insert_position(prev, x);
        let result = sort_siblings(nodes);
        assert(result == prev.insert(k, x));
        assert forall|i: int| 0 <= i < result.len() implies well_formed(
            #[trigger] result[i],
            parts.push(result[i].name),
        ) by {
            let j = choose|j: int| 0 <= j < nodes.len() && result[i] == nodes[j];
            assert(well_formed(nodes[j], parts.push(nodes[j].name)));
        }
        assert forall|a: int, b: int|
            0 <= a < result.len() && 0 <= b < result.len() && a != b && (
            #[trigger] result[a]).is_directory && (
            #[trigger] result[b]).is_directory implies result[a].name != result[b].name by {
            lemma_insert_pair(prev, front, nodes, k, x, a, b);
        }
    }
}

/// Two directories at different places of a sorted list that were made
/// from nodes with distinct directory names have different names.
proof fn lemma_insert_pair(
    prev: Seq<TreeNodeView>,
    front: Seq<TreeNodeView>,
    nodes: Seq<TreeNodeView>,
    k: int,
    x: TreeNodeView,
    a: int,
    b: int,
)
    requires
        nodes.len() > 0,
        front == nodes.drop_last(),
        x == nodes.last(),
        distinct_directories(nodes),
        distinct_directories(prev),
        prev.len() == front.len(),
        forall|i: int|
            0 <= i < front.len() ==> exists|j: int|
                0 <= j < front.len() && (#[trigger] prev[i]) == front[j],
        0 <= k <= prev.len(),
        0 <= a <= prev.len(),
        0 <= b <= prev.len(),
        a != b,
        prev.insert(k, x)[a].is_directory,
        prev.insert(k, x)[b].is_directory,
    ensures
        prev.insert(k, x)[a].name != prev.insert(k, x)[b].name,
{
    let result = prev.insert(k, x);
    let last = nodes.len() - 1;
    if a == k {
        let m = if b < k { b } else { b - 1 };
        assert(result[b] == prev[m]);
        let j = choose|j: int| 0 <= j < front.len() && prev[m] == front[j];
        assert(front[j] == nodes[j]);
        assert(nodes[j].is_directory && nodes[last].is_directory);
    } else if b == k {
        let m = if a < k { a } else { a - 1 };
        assert(result[a] == prev[m]);
        let j = choose|j: int| 0 <= j < front.len() && prev[m] == front[j];
        assert(front[j] == nodes[j]);
        assert(nodes[j].is_directory && nodes[last].is_directory);
    } else {
        let ma = if a < k { a } else { a - 1 };
        let mb = if b < k { b } else { b - 1 };
        assert(result[a] == prev[ma]);
        assert(result[b] == prev[mb]);
        assert(prev[ma].is_directory && prev[mb].is_directory);
    }
}

/// Sorting keeps a node well formed.
pub proof fn lemma_sort_tree_well_formed(node: TreeNodeView, parts: Seq<Seq<char>>)
    requires
        well_formed(node, parts),
    ensures
        well_formed(sort_tree(node), parts),
    decreases node, 1nat,
{
    lemma_sort_each_well_formed(node.children, parts);
    lemma_sort_siblings_well_formed(sort_each(node.children), parts);
}

/// Sorting each of the children keeps them well formed.
pub proof fn lemma_sort_each_well_formed(children: Seq<TreeNodeView>, parts: Seq<Seq<char>>)
    requires
        well_formed_children(children, parts),
    ensures
        well_formed_children(sort_each(children), parts),
    decreases children, 0nat,
{
    let sorted = sort_each(children);
    assert forall|i: int| 0 <= i < sorted.len() implies well_formed(
        #[trigger] sorted[i],
        parts.push(sorted[i].name),
    ) by {
        assert(well_formed(children[i], parts.push(children[i].name)));
        lemma_sort_tree_well_formed(children[i], parts.push(children[i].name));
    }
    assert forall|i: int, j: int|
        0 <= i < sorted.len() && 0 <= j < sorted.len() && i != j && (
        #[trigger] sorted[i]).is_directory && (
        #[trigger] sorted[j]).is_directory implies sorted[i].name != sorted[j].name by {
        assert(children[i].is_directory && children[j].is_directory);
    }
}

/// Storing the totals keeps a node well formed.
pub proof fn lemma_aggregate_well_formed(node: TreeNodeView, parts: Seq<Seq<char>>)
    requires
        well_formed(node, parts),
    ensures
        well_formed(aggregate(node), parts),
    decreases node, 1nat,
{
    if node.is_directory {
        lemma_aggregate_each_well_formed(node.children, parts);
    }
}

/// Storing the totals in each of the children keeps them well formed.
pub proof fn lemma_aggregate_each_well_formed(children: Seq<TreeNodeView>, parts: Seq<Seq<char>>)
    requires
        well_formed_children(children, parts),
    ensures
        well_formed_children(aggregate_each(children), parts),
    decreases children, 0nat,
{
    let summed = aggregate_each(children);
    assert forall|i: int| 0 <= i < summed.len() implies well_formed(
        #[trigger] summed[i],
        parts.push(summed[i].name),
    ) by {
        assert(well_formed(children[i], parts.push(children[i].name)));
        lemma_aggregate_keeps_totals(children[i]);
        lemma_aggregate_well_formed(children[i], parts.push(children[i].name));
    }
    assert forall|i: int, j: int|
        0 <= i < summed.len() && 0 <= j < summed.len() && i != j && (
        #[trigger] summed[i]).is_directory && (
        #[trigger] summed[j]).is_directory implies summed[i].name != summed[j].name by {
        lemma_aggregate_keeps_totals(children[i]);
        lemma_aggregate_keeps_totals(children[j]);
        assert(children[i].is_directory && children[j].is_directory);
    }
}

/// The tree of any records is well formed, and every directory in it
/// stores the totals over the files below it.
pub proof fn lemma_spec_tree_well_formed(records: Seq<FileDiffView>)
    ensures
        well_formed_root(spec_tree(records)),
        is_aggregated(spec_tree(records)),
{
    let ordered = grouped(records);
    lemma_grouped(records);
    let inserted = insert_all(ordered, ordered.len() as int);
    lemma_insert_all_well_formed(ordered, ordered.len() as int);
    lemma_sort_each_well_formed(inserted.children, Seq::empty());
    lemma_sort_siblings_well_formed(sort_each(inserted.children), Seq::empty());
    let sorted = sort_tree(inserted);
    lemma_aggregate_each_well_formed(sorted.children, Seq::empty());
    lemma_aggregate_is_aggregated(sorted);
}


// ---------------------------------------------------------------------
// Order of siblings
// ---------------------------------------------------------------------

/// Whether the nodes stand in order: none stands before a node that comes
/// earlier in the list.
pub open spec fn in_order(nodes: Seq<TreeNodeView>) -> bool {
    forall|i: int, j: int|
        0 <= i < j < nodes.len() ==> !sibling_before(#[trigger] nodes[j], #[trigger] nodes[i])
}

/// Whether the children of every node at or below the node stand in
/// order.
pub open spec fn tree_in_order(node: TreeNodeView) -> bool
    decreases node,
{
    &&& in_order(node.children)
    &&& forall|i: int| 0 <= i < node.children.len() ==> tree_in_order(#[trigger] node.children[i])
}

/// Of two nodes, one at most stands before the other.
pub proof fn lemma_sibling_before_asymmetric(a: TreeNodeView, b: TreeNodeView)
    requires
        sibling_before(a, b),
    ensures
        !sibling_before(b, a),
{
    if a.is_directory == b.is_directory {
        if lowercase_of(a.name) != lowercase_of(b.name) {
            lemma_lex_less_asymmetric(lowercase_of(a.name), lowercase_of(b.name));
        } else {
            lemma_lex_less_asymmetric(a.name, b.name);
        }
    }
}

/// A node that stands before a second, which stands before a third,
/// stands before the third.
pub proof fn lemma_sibling_before_transitive(a: TreeNodeView, b: TreeNodeView, c: TreeNodeView)
    requires
        sibling_before(a, b),
        sibling_before(b, c),
    ensures
        sibling_before(a, c),
{
    let (ka, kb, kc) = (lowercase_of(a.name), lowercase_of(b.name), lowercase_of(c.name));
    if a.is_directory == b.is_directory && b.is_directory == c.is_directory {
        if ka != kb && kb != kc {
            lemma_lex_less_transitive(ka, kb, kc);
            lemma_lex_less_irreflexive(ka);
        } else if ka == kb && kb == kc {
            lemma_lex_less_transitive(a.name, b.name, c.name);
        }
    }
}

/// Of two nodes of different kind or name, one stands before the other.
pub proof fn lemma_sibling_before_connected(a: TreeNodeView, b: TreeNodeView)
    ensures
        sibling_before(a, b) || sibling_before(b, a) || (a.is_directory == b.is_directory
            && a.name == b.name),
{
    if a.is_directory == b.is_directory {
        if lowercase_of(a.name) != lowercase_of(b.name) {
            lemma_lex_less_connected(lowercase_of(a.name), lowercase_of(b.name));
        } else {
            lemma_lex_less_connected(a.name, b.name);
        }
    }
}

/// A node that does not stand before a second, which does not stand
/// before a third, does not stand before the third.
pub proof fn lemma_sibling_not_before(x: TreeNodeView, b: TreeNodeView, a: TreeNodeView)
    requires
        !sibling_before(x, b),
        !sibling_before(b, a),
    ensures
        !sibling_before(x, a),
{
    if sibling_before(x, a) {
        lemma_sibling_before_connected(a, b);
        if sibling_before(a, b) {
            lemma_sibling_before_transitive(x, a, b);
        } else {
            assert(a.is_directory == b.is_directory && a.name == b.name);
            assert(sibling_before(x, b));
        }
    }
}

/// Putting a node into a list in order leaves the list in order.
pub proof fn lemma_insert_sorted_in_order(sorted: Seq<TreeNodeView>, x: TreeNodeView)
    requires
        in_order(sorted),
    ensures
        in_order(insert_sorted(sorted, x)),
    decreases sorted.len(),
{
    let result = insert_sorted(sorted, x);
    if sorted.len() == 0 {
    } else if sibling_before(x, sorted.last()) {
        let front = sorted.drop_last();
        let last = sorted.last();
        assert(in_order(front)) by {
            assert forall|i: int, j: int| 0 <= i < j < front.len() implies !sibling_before(
                #[trigger] front[j],
                #[trigger] front[i],
            ) by {
                assert(front[i] == sorted[i] && front[j] == sorted[j]);
            }
        }
        lemma_insert_sorted_in_order(front, x);
        lemma_insert_sorted_is_insert(front, x);
        let k = insert_position(front, x);
        let inner = insert_sorted(front, x);
        lemma_sibling_before_asymmetric(x, last);
        assert forall|i: int, j: int| 0 <= i < j < result.len() implies !sibling_before(
            #[trigger] result[j],
            #[trigger] result[i],
        ) by {
            if j < inner.len() {
                assert(result[i] == inner[i] && result[j] == inner[j]);
            } else {
                assert(result[j] == last);
                assert(result[i] == inner[i]);
                if i < k {
                    assert(inner[i] == sorted[i]);
                } else if i > k {
                    assert(inner[i] == sorted[i - 1]);
                }
            }
        }
    } else {
        let last = sorted.last();
        assert forall|i: int, j: int| 0 <= i < j < result.len() implies !sibling_before(
            #[trigger] result[j],
            #[trigger] result[i],
        ) by {
            if j < sorted.len() {
                assert(result[i] == sorted[i] && result[j] == sorted[j]);
            } else {
                assert(result[j] == x);
                assert(result[i] == sorted[i]);
                if i < sorted.len() - 1 {
                    assert(!sibling_before(sorted[sorted.len() - 1], sorted[i]));
                    lemma_sibling_not_before(x, last, sorted[i]);
                }
            }
        }
    }
}

/// Every node of a sorted list is one of the given nodes.
pub proof fn lemma_sort_siblings_members(nodes: Seq<TreeNodeView>)
    ensures
        sort_siblings(nodes).len() == nodes.len(),
        forall|i: int|
            0 <= i < nodes.len() ==> exists|j: int|
                0 <= j < nodes.len() && (#[trigger] sort_siblings(nodes)[i]) == nodes[j],
    decreases nodes.len(),
{
    if nodes.len() > 0 {
        let front = nodes.drop_last();
        let x = nodes.last();
        lemma_sort_siblings_members(front);
        let prev = sort_siblings(front);
        lemma_insert_sorted_is_insert(prev, x);
        let k = insert_position(prev, x);
        let result = sort_siblings(nodes);
        assert forall|i: int| 0 <= i < nodes.len() implies exists|j: int|
            0 <= j < nodes.len() && (#[trigger] result[i]) == nodes[j] by {
            if i < k {
                assert(result[i] == prev[i]);
                let j = choose|j: int| 0 <= j < front.len() && prev[i] == front[j];
                assert(result[i] == nodes[j]);
            } else if i == k {
                assert(result[i] == nodes[nodes.len() - 1]);
            } else {
                assert(result[i] == prev[i - 1]);
                let j = choose|j: int| 0 <= j < front.len() && prev[i - 1] == front[j];
                assert(result[i] == nodes[j]);
            }
        }
    }
}

/// Order of siblings: sorted nodes stand in order, directories before
/// files, then by lower-case name, then by name.
pub proof fn lemma_sort_siblings_in_order(nodes: Seq<TreeNodeView>)
    ensures
        in_order(sort_siblings(nodes)),
    decreases nodes.len(),
{
    if nodes.len() > 0 {
        lemma_sort_siblings_in_order(nodes.drop_last());
        lemma_insert_sorted_in_order(sort_siblings(nodes.drop_last()), nodes.last());
    }
}

/// After sorting, the children of every node stand in order.
pub proof fn lemma_sort_tree_in_order(node: TreeNodeView)
    ensures
        tree_in_order(sort_tree(node)),
    decreases node,
{
    let inner = sort_each(node.children);
    let sorted = sort_siblings(inner);
    lemma_sort_siblings_in_order(inner);
    lemma_sort_siblings_members(inner);
    assert forall|i: int| 0 <= i < sorted.len() implies tree_in_order(#[trigger] sorted[i]) by {
        let j = choose|j: int| 0 <= j < inner.len() && sorted[i] == inner[j];
        lemma_sort_tree_in_order(node.children[j]);
    }
}

/// Storing the totals leaves the children of every node in order.
pub proof fn lemma_aggregate_in_order(node: TreeNodeView)
    requires
        tree_in_order(node),
    ensures
        tree_in_order(aggregate(node)),
    decreases node,
{
    if node.is_directory {
        let summed = aggregate(node).children;
        assert forall|i: int| 0 <= i < summed.len() implies tree_in_order(#[trigger] summed[i]) by {
            lemma_aggregate_in_order(node.children[i]);
        }
        assert forall|i: int, j: int| 0 <= i < j < summed.len() implies !sibling_before(
            #[trigger] summed[j],
            #[trigger] summed[i],
        ) by {
            lemma_aggregate_keeps_totals(node.children[i]);
            lemma_aggregate_keeps_totals(node.children[j]);
            assert(!sibling_before(node.children[j], node.children[i]));
        }
    }
}

/// Order of the tree: in the tree of any records the children of every
/// directory stand in order, directories before files, then by lower-case
/// name, then by name.
pub proof fn lemma_spec_tree_in_order(records: Seq<FileDiffView>)
    ensures
        tree_in_order(spec_tree(records)),
{
    let inserted = insert_all(grouped(records), records.len() as int);
    lemma_sort_tree_in_order(inserted);
    lemma_aggregate_in_order(sort_tree(inserted));
}

/// Independence of order: the rows of records of which no two have the
/// same path are the same in whatever order the records come.
pub proof fn lemma_rows_independent_of_order(
    a: Seq<FileDiffView>,
    b: Seq<FileDiffView>,
    collapsed: Set<Seq<char>>,
)
    requires
        a.to_multiset() == b.to_multiset(),
        distinct_paths(a),
    ensures
        spec_rows(a, collapsed) == spec_rows(b, collapsed),
{
    lemma_grouped_independent_of_order(a, b);
    a.to_multiset_ensures();
    b.to_multiset_ensures();
}

// ---------------------------------------------------------------------
// Rows and records
// ---------------------------------------------------------------------

/// Whether what stands at a path is as the records have it: a directory
/// carries no record; a file carries one of the records, the one whose
/// path is its path, and counts as one file with the changed lines of
/// that record.
pub open spec fn carries(
    is_directory: bool,
    full_path: Seq<char>,
    file_diff: Option<FileDiffView>,
    counted: Totals,
    records: Seq<FileDiffView>,
) -> bool {
    if is_directory {
        file_diff is None
    } else {
        &&& file_diff matches Some(f)
        &&& f.filename == full_path
        &&& records.contains(f)
        &&& counted == record_stats(Some(f))
    }
}

/// Whether every node at or below the node is as the records have it.
pub open spec fn node_carries(node: TreeNodeView, records: Seq<FileDiffView>) -> bool
    decreases node,
{
    &&& carries(node.is_directory, node.full_path, node.file_diff, stored_totals(node), records)
    &&& forall|i: int|
        0 <= i < node.children.len() ==> node_carries(#[trigger] node.children[i], records)
}

/// Whether a row is as the records have it: a directory row carries no
/// record, a file row carries its own.
pub open spec fn row_carries(row: FileTreeItemView, records: Seq<FileDiffView>) -> bool {
    carries(row.is_directory, row.full_path, row.file_diff, row_stats(row), records)
}

/// Adding a record keeps a directory as the records have it.
pub proof fn lemma_insert_file_carries(
    node: TreeNodeView,
    parts: Seq<Seq<char>>,
    at: int,
    f: FileDiffView,
    records: Seq<FileDiffView>,
)
    requires
        node.is_directory,
        node_carries(node, records),
        records.contains(f),
        0 <= at < parts.len(),
    ensures
        node_carries(insert_file(node, parts, at, f.filename, Some(f)), records),
        insert_file(node, parts, at, f.filename, Some(f)).is_directory,
    decreases parts.len() - at,
{
    let result = insert_file(node, parts, at, f.filename, Some(f));
    if at == parts.len() - 1 {
        let leaf = file_node(parts[at], f.filename, Some(f));
        assert(node_carries(leaf, records));
        assert forall|i: int| 0 <= i < result.children.len() implies node_carries(
            #[trigger] result.children[i],
            records,
        ) by {
            if i < node.children.len() {
                assert(result.children[i] == node.children[i]);
            }
        }
    } else {
        let at_child = directory_index(node.children, parts[at], 0);
        lemma_directory_index(node.children, parts[at], 0);
        if at_child < node.children.len() {
            let child = node.children[at_child];
            assert(node_carries(child, records));
            lemma_insert_file_carries(child, parts, at + 1, f, records);
            assert forall|i: int| 0 <= i < result.children.len() implies node_carries(
                #[trigger] result.children[i],
                records,
            ) by {
                if i != at_child {
                    assert(result.children[i] == node.children[i]);
                }
            }
        } else {
            let dir = directory_node(parts[at], join_path(parts.take(at + 1)));
            assert(node_carries(dir, records));
            lemma_insert_file_carries(dir, parts, at + 1, f, records);
            assert forall|i: int| 0 <= i < result.children.len() implies node_carries(
                #[trigger] result.children[i],
                records,
            ) by {
                if i < node.children.len() {
                    assert(result.children[i] == node.children[i]);
                }
            }
        }
    }
}

/// The tree of the first records is as the records have it.
pub proof fn lemma_insert_all_carries(records: Seq<FileDiffView>, upto: int)
    requires
        0 <= upto <= records.len(),
    ensures
        node_carries(insert_all(records, upto), records),
        insert_all(records, upto).is_directory,
    decreases upto,
{
    if upto > 0 {
        lemma_insert_all_carries(records, upto - 1);
        let f = records[upto - 1];
        lemma_split_path_nonempty(f.filename);
        assert(records.contains(f));
        lemma_insert_file_carries(
            insert_all(records, upto - 1),
            split_path(f.filename),
            0,
            f,
            records,
        );
    }
}

/// A tree that is as some records have it is as all records have it that
/// hold these.
pub proof fn lemma_carries_more(
    node: TreeNodeView,
    fewer: Seq<FileDiffView>,
    more: Seq<FileDiffView>,
)
    requires
        node_carries(node, fewer),
        forall|f: FileDiffView| fewer.contains(f) ==> more.contains(f),
    ensures
        node_carries(node, more),
    decreases node,
{
    assert forall|i: int| 0 <= i < node.children.len() implies node_carries(
        #[trigger] node.children[i],
        more,
    ) by {
        lemma_carries_more(node.children[i], fewer, more);
    }
}

/// Sorting keeps a tree as the records have it.
pub proof fn lemma_sort_tree_carries(node: TreeNodeView, records: Seq<FileDiffView>)
    requires
        node_carries(node, records),
    ensures
        node_carries(sort_tree(node), records),
    decreases node,
{
    let inner = sort_each(node.children);
    let sorted = sort_siblings(inner);
    lemma_sort_siblings_members(inner);
    assert forall|i: int| 0 <= i < sorted.len() implies node_carries(
        #[trigger] sorted[i],
        records,
    ) by {
        let j = choose|j: int| 0 <= j < inner.len() && sorted[i] == inner[j];
        assert(node_carries(node.children[j], records));
        lemma_sort_tree_carries(node.children[j], records);
    }
}

/// Storing the totals keeps a tree as the records have it.
pub proof fn lemma_aggregate_carries(node: TreeNodeView, records: Seq<FileDiffView>)
    requires
        node_carries(node, records),
    ensures
        node_carries(aggregate(node), records),
    decreases node,
{
    if node.is_directory {
        let summed = aggregate(node).children;
        assert forall|i: int| 0 <= i < summed.len() implies node_carries(
            #[trigger] summed[i],
            records,
        ) by {
            assert(node_carries(node.children[i], records));
            lemma_aggregate_carries(node.children[i], records);
        }
    }
}

/// The tree of any records is as the records have it.
pub proof fn lemma_spec_tree_carries(records: Seq<FileDiffView>)
    ensures
        node_carries(spec_tree(records), records),
{
    let ordered = grouped(records);
    lemma_grouped(records);
    lemma_insert_all_carries(ordered, ordered.len() as int);
    ordered.to_multiset_ensures();
    records.to_multiset_ensures();
    assert forall|f: FileDiffView| ordered.contains(f) implies records.contains(f) by {
        assert(ordered.to_multiset().count(f) > 0);
        assert(records.to_multiset().count(f) > 0);
    }
    let inserted = insert_all(ordered, ordered.len() as int);
    lemma_carries_more(inserted, ordered, records);
    lemma_sort_tree_carries(inserted, records);
    lemma_aggregate_carries(sort_tree(inserted), records);
}

/// The rows of a node that is as the records have it are so too.
pub proof fn lemma_rows_carry_node(
    node: TreeNodeView,
    is_last: bool,
    flags: Seq<bool>,
    collapsed: Set<Seq<char>>,
    records: Seq<FileDiffView>,
)
    requires
        node_carries(node, records),
    ensures
        forall|i: int|
            0 <= i < flatten_node(node, is_last, flags, collapsed).len() ==> row_carries(
                #[trigger] flatten_node(node, is_last, flags, collapsed)[i],
                records,
            ),
    decreases node, 1nat,
{
    let rows = flatten_node(node, is_last, flags, collapsed);
    let own = row_of(node, is_last, flags, collapsed);
    assert(row_carries(own, records));
    if collapsed.contains(node.full_path) {
        assert(rows =~= seq![own]);
    } else {
        let below = flatten_list(
            node.children,
            node.children.len() as int,
            flags.push(is_last),
            collapsed,
        );
        lemma_rows_carry_list(
            node.children,
            node.children.len() as int,
            flags.push(is_last),
            collapsed,
            records,
        );
        assert forall|i: int| 0 <= i < rows.len() implies row_carries(
            #[trigger] rows[i],
            records,
        ) by {
            if i > 0 {
                assert(rows[i] == below[i - 1]);
            }
        }
    }
}

/// The rows of nodes that are as the records have it are so too.
pub proof fn lemma_rows_carry_list(
    children: Seq<TreeNodeView>,
    upto: int,
    flags: Seq<bool>,
    collapsed: Set<Seq<char>>,
    records: Seq<FileDiffView>,
)
    requires
        forall|i: int| 0 <= i < children.len() ==> node_carries(#[trigger] children[i], records),
        0 <= upto <= children.len(),
    ensures
        forall|i: int|
            0 <= i < flatten_list(children, upto, flags, collapsed).len() ==> row_carries(
                #[trigger] flatten_list(children, upto, flags, collapsed)[i],
                records,
            ),
    decreases children, 0nat, upto,
{
    if upto > 0 {
        let child = children[upto - 1];
        let front = flatten_list(children, upto - 1, flags, collapsed);
        let back = flatten_node(child, upto == children.len(), flags, collapsed);
        lemma_rows_carry_list(children, upto - 1, flags, collapsed, records);
        lemma_rows_carry_node(child, upto == children.len(), flags, collapsed, records);
        let rows = flatten_list(children, upto, flags, collapsed);
        assert forall|i: int| 0 <= i < rows.len() implies row_carries(
            #[trigger] rows[i],
            records,
        ) by {
            if i < front.len() {
                assert(rows[i] == front[i]);
            } else {
                assert(rows[i] == back[i - front.len()]);
            }
        }
    }
}

/// Rows and records: in the rows of any records, whatever is collapsed, a
/// directory row carries no record, and a file row carries its own: the
/// record, one of those given, whose path is the path of the row. The row
/// counts as one file with the changed lines of that record.
pub proof fn lemma_rows_carry_records(
    records: Seq<FileDiffView>,
    collapsed: Set<Seq<char>>,
    i: int,
)
    requires
        0 <= i < spec_rows(records, collapsed).len(),
    ensures
        row_carries(spec_rows(records, collapsed)[i], records),
        spec_rows(records, collapsed)[i].is_directory <==> spec_rows(
            records,
            collapsed,
        )[i].file_diff is None,
{
    let root = spec_tree(records);
    lemma_spec_tree_carries(records);
    lemma_rows_carry_list(
        root.children,
        root.children.len() as int,
        Seq::empty(),
        collapsed,
        records,
    );
}

// ---------------------------------------------------------------------
// Rows and paths
// ---------------------------------------------------------------------

/// Whether the path of every row has the given components and more.
pub open spec fn rows_extend(rows: Seq<FileTreeItemView>, parts: Seq<Seq<char>>) -> bool {
    forall|i: int|
        0 <= i < rows.len() ==> is_strict_prefix_of_parts(
            parts,
            split_path((#[trigger] rows[i]).full_path),
        )
}

/// Components that begin with `parts` and one more begin with `parts`.
pub proof fn lemma_prefix_of_longer(parts: Seq<Seq<char>>, name: Seq<char>, e: Seq<Seq<char>>)
    requires
        is_prefix_of_parts(parts.push(name), e),
    ensures
        is_strict_prefix_of_parts(parts, e),
        e[parts.len() as int] == name,
{
    let longer = parts.push(name);
    assert(e.take(parts.len() as int) =~= e.take(longer.len() as int).take(parts.len() as int));
    assert(longer.take(parts.len() as int) =~= parts);
    assert(e.take(longer.len() as int)[parts.len() as int] == longer[parts.len() as int]);
}

/// The rows of a well-formed node have paths at or below the node's.
pub proof fn lemma_rows_below_node(
    node: TreeNodeView,
    parts: Seq<Seq<char>>,
    is_last: bool,
    flags: Seq<bool>,
    collapsed: Set<Seq<char>>,
)
    requires
        well_formed(node, parts),
    ensures
        forall|i: int|
            0 <= i < flatten_node(node, is_last, flags, collapsed).len() ==> is_prefix_of_parts(
                parts,
                split_path((#[trigger] flatten_node(node, is_last, flags, collapsed)[i]).full_path),
            ),
    decreases node, 1nat,
{
    let rows = flatten_node(node, is_last, flags, collapsed);
    let own = row_of(node, is_last, flags, collapsed);
    assert(parts.take(parts.len() as int) =~= parts);
    if collapsed.contains(node.full_path) {
        assert(rows =~= seq![own]);
    } else {
        let below = flatten_list(
            node.children,
            node.children.len() as int,
            flags.push(is_last),
            collapsed,
        );
        lemma_rows_below_list(
            node.children,
            node.children.len() as int,
            parts,
            flags.push(is_last),
            collapsed,
        );
        assert forall|i: int| 0 <= i < rows.len() implies is_prefix_of_parts(
            parts,
            split_path((#[trigger] rows[i]).full_path),
        ) by {
            if i > 0 {
                assert(rows[i] == below[i - 1]);
            }
        }
    }
}

/// The rows of well-formed children have paths strictly below their
/// parent's.
pub proof fn lemma_rows_below_list(
    children: Seq<TreeNodeView>,
    upto: int,
    parts: Seq<Seq<char>>,
    flags: Seq<bool>,
    collapsed: Set<Seq<char>>,
)
    requires
        well_formed_children(children, parts),
        0 <= upto <= children.len(),
    ensures
        rows_extend(flatten_list(children, upto, flags, collapsed), parts),
    decreases children, 0nat, upto,
{
    if upto > 0 {
        let child = children[upto - 1];
        let front = flatten_list(children, upto - 1, flags, collapsed);
        let back = flatten_node(child, upto == children.len(), flags, collapsed);
        lemma_rows_below_list(children, upto - 1, parts, flags, collapsed);
        lemma_rows_below_node(
            child,
            parts.push(child.name),
            upto == children.len(),
            flags,
            collapsed,
        );
        let rows = flatten_list(children, upto, flags, collapsed);
        assert forall|i: int| 0 <= i < rows.len() implies is_strict_prefix_of_parts(
            parts,
            split_path((#[trigger] rows[i]).full_path),
        ) by {
            if i < front.len() {
                assert(rows[i] == front[i]);
            } else {
                assert(rows[i] == back[i - front.len()]);
                lemma_prefix_of_longer(parts, child.name, split_path(rows[i].full_path));
            }
        }
    }
}

// ---------------------------------------------------------------------
// Collapse visibility
// ---------------------------------------------------------------------

/// A row after the directory `dir` was collapsed: it is shown as not
/// expanded where `dir` is its path, and is otherwise the same.
pub open spec fn collapse_row(row: FileTreeItemView, dir: Seq<char>) -> FileTreeItemView {
    FileTreeItemView { is_expanded: row.is_expanded && row.full_path != dir, ..row }
}

/// The rows after the directory `dir` was collapsed: those whose path lies
/// strictly below `dir` are gone, the others stay in their order.
pub open spec fn collapse_rows(rows: Seq<FileTreeItemView>, dir: Seq<char>) -> Seq<
    FileTreeItemView,
>
    decreases rows.len(),
{
    if rows.len() == 0 {
        rows
    } else if is_strictly_below(rows.last().full_path, dir) {
        collapse_rows(rows.drop_last(), dir)
    } else {
        collapse_rows(rows.drop_last(), dir).push(collapse_row(rows.last(), dir))
    }
}

/// Collapsing the rows of two lists put together collapses each.
pub proof fn lemma_collapse_rows_concat(
    a: Seq<FileTreeItemView>,
    b: Seq<FileTreeItemView>,
    dir: Seq<char>,
)
    ensures
        collapse_rows(a + b, dir) == collapse_rows(a, dir) + collapse_rows(b, dir),
    decreases b.len(),
{
    if b.len() == 0 {
        assert(a + b =~= a);
        assert(collapse_rows(a, dir) + collapse_rows(b, dir) =~= collapse_rows(a, dir));
    } else {
        let all = a + b;
        assert(all.drop_last() =~= a + b.drop_last());
        assert(all.last() == b.last());
        lemma_collapse_rows_concat(a, b.drop_last(), dir);
        if is_strictly_below(b.last().full_path, dir) {
        } else {
            let row = collapse_row(b.last(), dir);
            assert((collapse_rows(a, dir) + collapse_rows(b.drop_last(), dir)).push(row)
                =~= collapse_rows(a, dir) + collapse_rows(b.drop_last(), dir).push(row));
        }
    }
}

/// Rows that all lie strictly below `dir` are all gone when it is
/// collapsed.
pub proof fn lemma_collapse_rows_below(rows: Seq<FileTreeItemView>, dir: Seq<char>)
    requires
        rows_extend(rows, split_path(dir)),
    ensures
        collapse_rows(rows, dir) == Seq::<FileTreeItemView>::empty(),
    decreases rows.len(),
{
    if rows.len() > 0 {
        let front = rows.drop_last();
        assert forall|i: int| 0 <= i < front.len() implies is_strict_prefix_of_parts(
            split_path(dir),
            split_path((#[trigger] front[i]).full_path),
        ) by {
            assert(front[i] == rows[i]);
        }
        lemma_collapse_rows_below(front, dir);
        assert(is_strictly_below(rows[rows.len() - 1].full_path, dir));
    }
}

/// Collapsing `dir` acts on the rows of a node that does not lie strictly
/// below it as `collapse_rows` says.
pub proof fn lemma_collapse_node(
    node: TreeNodeView,
    parts: Seq<Seq<char>>,
    is_last: bool,
    flags: Seq<bool>,
    collapsed: Set<Seq<char>>,
    dir: Seq<char>,
)
    requires
        well_formed(node, parts),
        !is_strict_prefix_of_parts(split_path(dir), parts),
    ensures
        flatten_node(node, is_last, flags, collapsed.insert(dir)) == collapse_rows(
            flatten_node(node, is_last, flags, collapsed),
            dir,
        ),
    decreases node, 1nat,
{
    let more = collapsed.insert(dir);
    let own = row_of(node, is_last, flags, collapsed);
    let below = if collapsed.contains(node.full_path) {
        Seq::<FileTreeItemView>::empty()
    } else {
        flatten_list(node.children, node.children.len() as int, flags.push(is_last), collapsed)
    };
    assert(flatten_node(node, is_last, flags, collapsed) == seq![own] + below);
    lemma_collapse_rows_concat(seq![own], below, dir);
    assert(collapse_rows(seq![own], dir) =~= seq![collapse_row(own, dir)]) by {
        assert(seq![own].drop_last() =~= Seq::<FileTreeItemView>::empty());
        assert(collapse_rows(seq![own].drop_last(), dir) =~= Seq::<FileTreeItemView>::empty());
        assert(seq![own].last() == own);
        assert(!is_strictly_below(own.full_path, dir));
    }
    assert(collapse_row(own, dir) == row_of(node, is_last, flags, more));
    if node.full_path == dir {
        if !collapsed.contains(node.full_path) {
            lemma_rows_below_list(
                node.children,
                node.children.len() as int,
                parts,
                flags.push(is_last),
                collapsed,
            );
        }
        lemma_collapse_rows_below(below, dir);
        assert(seq![row_of(node, is_last, flags, more)] + Seq::<FileTreeItemView>::empty()
            =~= seq![collapse_row(own, dir)] + collapse_rows(below, dir));
    } else if collapsed.contains(node.full_path) {
        assert(collapse_rows(below, dir) =~= below);
    } else {
        if split_path(dir) == parts {
            lemma_split_path_injective(dir, node.full_path);
        }
        assert(!is_prefix_of_parts(split_path(dir), parts)) by {
            if is_prefix_of_parts(split_path(dir), parts) {
                if split_path(dir).len() == parts.len() {
                    assert(parts.take(parts.len() as int) =~= parts);
                }
            }
        }
        lemma_collapse_list(
            node.children,
            node.children.len() as int,
            parts,
            flags.push(is_last),
            collapsed,
            dir,
        );
    }
}

/// Collapsing `dir` acts on the rows of children whose parent lies
/// neither at nor below it as `collapse_rows` says.
pub proof fn lemma_collapse_list(
    children: Seq<TreeNodeView>,
    upto: int,
    parts: Seq<Seq<char>>,
    flags: Seq<bool>,
    collapsed: Set<Seq<char>>,
    dir: Seq<char>,
)
    requires
        well_formed_children(children, parts),
        0 <= upto <= children.len(),
        !is_prefix_of_parts(split_path(dir), parts),
    ensures
        flatten_list(children, upto, flags, collapsed.insert(dir)) == collapse_rows(
            flatten_list(children, upto, flags, collapsed),
            dir,
        ),
    decreases children, 0nat, upto,
{
    if upto > 0 {
        let child = children[upto - 1];
        let here = parts.push(child.name);
        let d = split_path(dir);
        lemma_collapse_list(children, upto - 1, parts, flags, collapsed, dir);
        assert(!is_strict_prefix_of_parts(d, here)) by {
            if is_strict_prefix_of_parts(d, here) {
                assert(here.take(d.len() as int) =~= parts.take(d.len() as int));
            }
        }
        lemma_collapse_node(child, here, upto == children.len(), flags, collapsed, dir);
        lemma_collapse_rows_concat(
            flatten_list(children, upto - 1, flags, collapsed),
            flatten_node(child, upto == children.len(), flags, collapsed),
            dir,
        );
    }
}

/// Collapse visibility: collapsing the directory `dir` takes from the rows
/// exactly those whose path lies strictly below `dir`. The rows that stay
/// keep their order and all they hold, the totals of `dir` among it; only
/// the row of `dir` itself is now shown as not expanded.
pub proof fn lemma_collapse_visibility(
    records: Seq<FileDiffView>,
    collapsed: Set<Seq<char>>,
    dir: Seq<char>,
)
    ensures
        spec_rows(records, collapsed.insert(dir)) == collapse_rows(
            spec_rows(records, collapsed),
            dir,
        ),
{
    let root = spec_tree(records);
    lemma_spec_tree_well_formed(records);
    lemma_split_path_nonempty(dir);
    lemma_collapse_list(
        root.children,
        root.children.len() as int,
        Seq::empty(),
        Seq::empty(),
        collapsed,
        dir,
    );
}


// ---------------------------------------------------------------------
// The place of a collapsed directory
// ---------------------------------------------------------------------

/// Whether every row comes from one of the first `upto` children: its
/// path has the components of that child, and is the path of the child
/// where the child is a file.
pub open spec fn rows_from_children(
    rows: Seq<FileTreeItemView>,
    children: Seq<TreeNodeView>,
    upto: int,
    parts: Seq<Seq<char>>,
) -> bool {
    forall|i: int|
        0 <= i < rows.len() ==> exists|m: int|
            0 <= m < upto && row_from_child(#[trigger] rows[i], children[m], parts)
}

/// Whether a row comes from a child of the node at `parts`.
pub open spec fn row_from_child(
    row: FileTreeItemView,
    child: TreeNodeView,
    parts: Seq<Seq<char>>,
) -> bool {
    &&& is_prefix_of_parts(parts.push(child.name), split_path(row.full_path))
    &&& !child.is_directory ==> split_path(row.full_path) == parts.push(child.name)
}

/// The rows of a file are its own row alone.
pub proof fn lemma_rows_of_file(
    node: TreeNodeView,
    parts: Seq<Seq<char>>,
    is_last: bool,
    flags: Seq<bool>,
    collapsed: Set<Seq<char>>,
)
    requires
        well_formed(node, parts),
        !node.is_directory,
    ensures
        flatten_node(node, is_last, flags, collapsed) == seq![
            row_of(node, is_last, flags, collapsed),
        ],
{
    assert(node.children =~= Seq::<TreeNodeView>::empty());
    assert(flatten_node(node, is_last, flags, collapsed) =~= seq![
        row_of(node, is_last, flags, collapsed),
    ]);
}

/// Every row of the first children of a node comes from one of them.
pub proof fn lemma_rows_from_children(
    children: Seq<TreeNodeView>,
    upto: int,
    parts: Seq<Seq<char>>,
    flags: Seq<bool>,
    collapsed: Set<Seq<char>>,
)
    requires
        well_formed_children(children, parts),
        0 <= upto <= children.len(),
    ensures
        rows_from_children(flatten_list(children, upto, flags, collapsed), children, upto, parts),
    decreases upto,
{
    if upto > 0 {
        let child = children[upto - 1];
        let here = parts.push(child.name);
        let is_last = upto == children.len();
        let front = flatten_list(children, upto - 1, flags, collapsed);
        let back = flatten_node(child, is_last, flags, collapsed);
        let rows = flatten_list(children, upto, flags, collapsed);
        lemma_rows_from_children(children, upto - 1, parts, flags, collapsed);
        lemma_rows_below_node(child, here, is_last, flags, collapsed);
        if !child.is_directory {
            lemma_rows_of_file(child, here, is_last, flags, collapsed);
        }
        assert forall|i: int| 0 <= i < rows.len() implies exists|m: int|
            0 <= m < upto && row_from_child(#[trigger] rows[i], children[m], parts) by {
            if i < front.len() {
                assert(rows[i] == front[i]);
                let m = choose|m: int|
                    0 <= m < upto - 1 && row_from_child(front[i], children[m], parts);
                assert(row_from_child(rows[i], children[m], parts));
            } else {
                assert(rows[i] == back[i - front.len()]);
                assert(row_from_child(rows[i], children[upto - 1], parts));
            }
        }
    }
}

/// No row that stands before a directory row lies strictly below it.
pub open spec fn nothing_earlier_below(rows: Seq<FileTreeItemView>) -> bool {
    forall|j: int, i: int|
        0 <= j < i < rows.len() && (#[trigger] rows[i]).is_directory ==> !is_strictly_below(
            (#[trigger] rows[j]).full_path,
            rows[i].full_path,
        )
}

/// Among the rows of the children of one node, none that stands before a
/// directory row lies strictly below it.
pub proof fn lemma_list_nothing_earlier_below(
    children: Seq<TreeNodeView>,
    upto: int,
    parts: Seq<Seq<char>>,
    flags: Seq<bool>,
    collapsed: Set<Seq<char>>,
)
    requires
        well_formed_children(children, parts),
        0 <= upto <= children.len(),
    ensures
        nothing_earlier_below(flatten_list(children, upto, flags, collapsed)),
    decreases children, upto,
{
    if upto > 0 {
        let at = upto - 1;
        let child = children[at];
        let here = parts.push(child.name);
        let is_last = upto == children.len();
        let front = flatten_list(children, upto - 1, flags, collapsed);
        let back = flatten_node(child, is_last, flags, collapsed);
        let rows = flatten_list(children, upto, flags, collapsed);
        let inner_flags = flags.push(is_last);
        let inner = flatten_list(
            child.children,
            child.children.len() as int,
            inner_flags,
            collapsed,
        );
        assert(well_formed(child, here));
        lemma_list_nothing_earlier_below(children, upto - 1, parts, flags, collapsed);
        lemma_rows_from_children(children, upto - 1, parts, flags, collapsed);
        lemma_rows_below_node(child, here, is_last, flags, collapsed);
        if child.is_directory {
            lemma_list_nothing_earlier_below(
                child.children,
                child.children.len() as int,
                here,
                inner_flags,
                collapsed,
            );
        } else {
            lemma_rows_of_file(child, here, is_last, flags, collapsed);
        }
        assert forall|j: int, i: int|
            0 <= j < i < rows.len() && (#[trigger] rows[i]).is_directory implies !is_strictly_below(
            (#[trigger] rows[j]).full_path,
            rows[i].full_path,
        ) by {
            if i < front.len() {
                assert(rows[i] == front[i]);
                assert(rows[j] == front[j]);
            } else {
                let k = i - front.len();
                assert(rows[i] == back[k]);
                let d = split_path(rows[i].full_path);
                let e = split_path(rows[j].full_path);
                assert(is_prefix_of_parts(here, d));
                assert(child.is_directory);
                if j < front.len() {
                    assert(rows[j] == front[j]);
                    let m = choose|m: int|
                        0 <= m < upto - 1 && row_from_child(front[j], children[m], parts);
                    let there = parts.push(children[m].name);
                    if is_strict_prefix_of_parts(d, e) {
                        let n = parts.len() as int;
                        assert(e.take(there.len() as int)[n] == there[n]);
                        assert(d.take(here.len() as int)[n] == here[n]);
                        assert(e.take(d.len() as int)[n] == d[n]);
                        assert(children[m].name == child.name);
                        assert(!children[m].is_directory);
                        assert(e == there);
                    }
                } else {
                    let kj = j - front.len();
                    assert(rows[j] == back[kj]);
                    if kj == 0 {
                        assert(back[0] == row_of(child, is_last, flags, collapsed));
                        assert(e == here);
                    } else {
                        assert(!collapsed.contains(child.full_path));
                        assert(back[k] == inner[k - 1]);
                        assert(back[kj] == inner[kj - 1]);
                    }
                }
            }
        }
    }
}

/// Collapsing leaves the first `n` rows in their places where none of them
/// lies strictly below the directory.
pub proof fn lemma_collapse_rows_front(rows: Seq<FileTreeItemView>, dir: Seq<char>, n: int)
    requires
        0 <= n <= rows.len(),
        forall|j: int| 0 <= j < n ==> !is_strictly_below((#[trigger] rows[j]).full_path, dir),
    ensures
        n <= collapse_rows(rows, dir).len() <= rows.len(),
        n == rows.len() ==> collapse_rows(rows, dir).len() == n,
        forall|j: int|
            0 <= j < n ==> collapse_rows(rows, dir)[j] == collapse_row(#[trigger] rows[j], dir),
    decreases rows.len(),
{
    if rows.len() > 0 {
        let front = rows.drop_last();
        let m = if n == rows.len() {
            n - 1
        } else {
            n
        };
        assert forall|j: int| 0 <= j < m implies !is_strictly_below(
            (#[trigger] front[j]).full_path,
            dir,
        ) by {
            assert(front[j] == rows[j]);
        }
        lemma_collapse_rows_front(front, dir, m);
        assert forall|j: int| 0 <= j < n implies collapse_rows(rows, dir)[j] == collapse_row(
            #[trigger] rows[j],
            dir,
        ) by {
            if j < m {
                assert(front[j] == rows[j]);
            } else {
                assert(!is_strictly_below(rows[rows.len() - 1].full_path, dir));
            }
        }
    }
}

/// The place of a collapsed directory: when a directory that has a row is
/// collapsed, its row stays at its index and keeps all it holds, its
/// totals among it, but that it is shown as not expanded. The rows before
/// it stay as they are.
pub proof fn lemma_collapsed_row_stays(
    records: Seq<FileDiffView>,
    collapsed: Set<Seq<char>>,
    i: int,
)
    requires
        0 <= i < spec_rows(records, collapsed).len(),
        spec_rows(records, collapsed)[i].is_directory,
    ensures
        ({
            let all = spec_rows(records, collapsed);
            let dir = all[i].full_path;
            let rows = spec_rows(records, collapsed.insert(dir));
            &&& i < rows.len()
            &&& rows[i] == FileTreeItemView { is_expanded: false, ..all[i] }
            &&& forall|j: int| 0 <= j < i ==> rows[j] == collapse_row(#[trigger] all[j], dir)
        }),
{
    let root = spec_tree(records);
    let all = spec_rows(records, collapsed);
    let dir = all[i].full_path;
    lemma_spec_tree_well_formed(records);
    lemma_collapse_visibility(records, collapsed, dir);
    lemma_list_nothing_earlier_below(
        root.children,
        root.children.len() as int,
        Seq::empty(),
        Seq::empty(),
        collapsed,
    );
    assert forall|j: int| 0 <= j < i + 1 implies !is_strictly_below(
        (#[trigger] all[j]).full_path,
        dir,
    ) by {
        if j < i {
            assert(all[i].is_directory);
        }
    }
    lemma_collapse_rows_front(all, dir, i + 1);
}

// ---------------------------------------------------------------------
// Aggregation
// ---------------------------------------------------------------------

/// The numbers that a row shows.
pub open spec fn row_stats(row: FileTreeItemView) -> Totals {
    Totals { files: row.dir_file_count, added: row.dir_added_lines, removed: row.dir_removed_lines }
}

/// The sum of the numbers of the file rows whose path lies strictly below
/// `dir`.
pub open spec fn totals_below(rows: Seq<FileTreeItemView>, dir: Seq<char>) -> Totals
    decreases rows.len(),
{
    if rows.len() == 0 {
        Totals::zero()
    } else if !rows.last().is_directory && is_strictly_below(rows.last().full_path, dir) {
        totals_below(rows.drop_last(), dir).plus(row_stats(rows.last()))
    } else {
        totals_below(rows.drop_last(), dir)
    }
}

/// The totals below `dir` over two lists put together are the sum of the
/// totals over each.
pub proof fn lemma_totals_below_concat(
    a: Seq<FileTreeItemView>,
    b: Seq<FileTreeItemView>,
    dir: Seq<char>,
)
    ensures
        totals_below(a + b, dir) == totals_below(a, dir).plus(totals_below(b, dir)),
    decreases b.len(),
{
    if b.len() == 0 {
        assert(a + b =~= a);
    } else {
        let all = a + b;
        assert(all.drop_last() =~= a + b.drop_last());
        assert(all.last() == b.last());
        lemma_totals_below_concat(a, b.drop_last(), dir);
    }
}

/// Rows none of which lies strictly below `dir` add nothing to the totals
/// below it.
pub proof fn lemma_totals_below_none(rows: Seq<FileTreeItemView>, dir: Seq<char>)
    requires
        forall|i: int|
            0 <= i < rows.len() ==> !is_strictly_below((#[trigger] rows[i]).full_path, dir),
    ensures
        totals_below(rows, dir) == Totals::zero(),
    decreases rows.len(),
{
    if rows.len() > 0 {
        let front = rows.drop_last();
        assert forall|i: int| 0 <= i < front.len() implies !is_strictly_below(
            (#[trigger] front[i]).full_path,
            dir,
        ) by {
            assert(front[i] == rows[i]);
        }
        lemma_totals_below_none(front, dir);
        assert(!is_strictly_below(rows[rows.len() - 1].full_path, dir));
    }
}

/// The rows of the whole subtree of a node that lies strictly below `dir`
/// add the totals of the node to the totals below `dir`.
pub proof fn lemma_totals_of_node_below(
    node: TreeNodeView,
    parts: Seq<Seq<char>>,
    is_last: bool,
    flags: Seq<bool>,
    dir: Seq<char>,
)
    requires
        well_formed(node, parts),
        is_strict_prefix_of_parts(split_path(dir), parts),
    ensures
        totals_below(flatten_node(node, is_last, flags, Set::empty()), dir) == file_totals(node),
    decreases node, 1nat,
{
    let own = row_of(node, is_last, flags, Set::empty());
    let below = flatten_list(
        node.children,
        node.children.len() as int,
        flags.push(is_last),
        Set::empty(),
    );
    lemma_totals_below_concat(seq![own], below, dir);
    assert(seq![own].drop_last() =~= Seq::<FileTreeItemView>::empty());
    assert(totals_below(seq![own].drop_last(), dir) == Totals::zero());
    assert(seq![own].last() == own);
    assert(is_strictly_below(own.full_path, dir));
    lemma_totals_of_list_below(
        node.children,
        node.children.len() as int,
        parts,
        flags.push(is_last),
        dir,
    );
    assert(node.children.take(node.children.len() as int) =~= node.children);
    if !node.is_directory {
        assert(node.children =~= Seq::<TreeNodeView>::empty());
    }
}

/// The rows of the whole subtrees of the first children of a node that
/// lies at or below `dir` add the totals of these children to the totals
/// below `dir`.
pub proof fn lemma_totals_of_list_below(
    children: Seq<TreeNodeView>,
    upto: int,
    parts: Seq<Seq<char>>,
    flags: Seq<bool>,
    dir: Seq<char>,
)
    requires
        well_formed_children(children, parts),
        0 <= upto <= children.len(),
        is_prefix_of_parts(split_path(dir), parts),
    ensures
        totals_below(flatten_list(children, upto, flags, Set::empty()), dir) == list_totals(
            children.take(upto),
        ),
    decreases children, 0nat, upto,
{
    if upto > 0 {
        let child = children[upto - 1];
        let here = parts.push(child.name);
        let d = split_path(dir);
        lemma_totals_of_list_below(children, upto - 1, parts, flags, dir);
        assert(here.take(d.len() as int) =~= parts.take(d.len() as int));
        lemma_totals_of_node_below(child, here, upto == children.len(), flags, dir);
        lemma_totals_below_concat(
            flatten_list(children, upto - 1, flags, Set::empty()),
            flatten_node(child, upto == children.len(), flags, Set::empty()),
            dir,
        );
        assert(children.take(upto).drop_last() =~= children.take(upto - 1));
        assert(children.take(upto).last() == child);
    } else {
        assert(children.take(0) =~= Seq::<TreeNodeView>::empty());
    }
}

/// The rows of a node add nothing to the totals below `dir` where `dir`
/// lies neither above the node nor at or below it, and where the node is a
/// file at `dir`.
pub proof fn lemma_totals_of_node_apart(
    node: TreeNodeView,
    parts: Seq<Seq<char>>,
    is_last: bool,
    flags: Seq<bool>,
    dir: Seq<char>,
)
    requires
        well_formed(node, parts),
        !is_strict_prefix_of_parts(split_path(dir), parts),
        !is_prefix_of_parts(parts, split_path(dir)) || (!node.is_directory && parts.len()
            <= split_path(dir).len()),
    ensures
        totals_below(flatten_node(node, is_last, flags, Set::empty()), dir) == Totals::zero(),
{
    let rows = flatten_node(node, is_last, flags, Set::empty());
    let d = split_path(dir);
    lemma_rows_below_node(node, parts, is_last, flags, Set::empty());
    assert forall|i: int| 0 <= i < rows.len() implies !is_strictly_below(
        (#[trigger] rows[i]).full_path,
        dir,
    ) by {
        let e = split_path(rows[i].full_path);
        if is_strict_prefix_of_parts(d, e) {
            if !node.is_directory {
                assert(node.children =~= Seq::<TreeNodeView>::empty());
                assert(rows =~= seq![row_of(node, is_last, flags, Set::empty())]);
                assert(e == parts);
            } else if d.len() < parts.len() {
                assert(parts.take(d.len() as int) =~= e.take(parts.len() as int).take(
                    d.len() as int,
                ));
                assert(e.take(d.len() as int) =~= e.take(parts.len() as int).take(
                    d.len() as int,
                ));
            } else {
                assert(d.take(parts.len() as int) =~= e.take(d.len() as int).take(
                    parts.len() as int,
                ));
                assert(e.take(parts.len() as int) =~= e.take(d.len() as int).take(
                    parts.len() as int,
                ));
            }
        }
    }
    lemma_totals_below_none(rows, dir);
}

/// Of the rows of the children of one node, only those of the directory
/// through which `dir` is reached add to the totals below `dir`.
pub proof fn lemma_totals_through_child(
    children: Seq<TreeNodeView>,
    upto: int,
    parts: Seq<Seq<char>>,
    flags: Seq<bool>,
    dir: Seq<char>,
    through: int,
)
    requires
        well_formed_children(children, parts),
        0 <= upto <= children.len(),
        0 <= through < children.len(),
        children[through].is_directory,
        is_prefix_of_parts(parts.push(children[through].name), split_path(dir)),
    ensures
        totals_below(flatten_list(children, upto, flags, Set::empty()), dir) == if through < upto {
            totals_below(
                flatten_node(
                    children[through],
                    through + 1 == children.len(),
                    flags,
                    Set::empty(),
                ),
                dir,
            )
        } else {
            Totals::zero()
        },
    decreases upto,
{
    if upto > 0 {
        let at = upto - 1;
        let child = children[at];
        let here = parts.push(child.name);
        let way = parts.push(children[through].name);
        let d = split_path(dir);
        lemma_totals_through_child(children, upto - 1, parts, flags, dir, through);
        lemma_totals_below_concat(
            flatten_list(children, upto - 1, flags, Set::empty()),
            flatten_node(child, upto == children.len(), flags, Set::empty()),
            dir,
        );
        if at != through {
            assert(well_formed(child, here));
            assert(d.take(way.len() as int)[parts.len() as int] == way[parts.len() as int]);
            assert(d[parts.len() as int] == children[through].name);
            assert(!is_strict_prefix_of_parts(d, here));
            if child.name != children[through].name {
                if is_prefix_of_parts(here, d) {
                    assert(d.take(here.len() as int)[parts.len() as int]
                        == here[parts.len() as int]);
                }
                assert(!is_prefix_of_parts(here, d));
            } else {
                assert(!child.is_directory);
            }
            lemma_totals_of_node_apart(child, here, upto == children.len(), flags, dir);
        }
    }
}

/// Whether every directory row among the rows shows the totals over the
/// file rows of `all` that lie strictly below it.
pub open spec fn rows_show_totals(rows: Seq<FileTreeItemView>, all: Seq<FileTreeItemView>) -> bool {
    forall|i: int|
        0 <= i < rows.len() && (#[trigger] rows[i]).is_directory ==> row_stats(rows[i])
            == totals_below(all, rows[i].full_path)
}

/// Every directory row of the children of one node, whatever is
/// collapsed, shows the totals over the file rows that lie strictly below
/// it when nothing is collapsed.
pub proof fn lemma_list_shows_totals(
    children: Seq<TreeNodeView>,
    upto: int,
    parts: Seq<Seq<char>>,
    flags: Seq<bool>,
    collapsed: Set<Seq<char>>,
)
    requires
        well_formed_children(children, parts),
        forall|i: int| 0 <= i < children.len() ==> is_aggregated(#[trigger] children[i]),
        0 <= upto <= children.len(),
    ensures
        rows_show_totals(
            flatten_list(children, upto, flags, collapsed),
            flatten_list(children, children.len() as int, flags, Set::empty()),
        ),
    decreases children, upto,
{
    if upto > 0 {
        let at = upto - 1;
        let child = children[at];
        let here = parts.push(child.name);
        let is_last = upto == children.len();
        let all = flatten_list(children, children.len() as int, flags, Set::empty());
        let front = flatten_list(children, upto - 1, flags, collapsed);
        let back = flatten_node(child, is_last, flags, collapsed);
        let rows = flatten_list(children, upto, flags, collapsed);
        let inner_flags = flags.push(is_last);
        let inner_all = flatten_list(
            child.children,
            child.children.len() as int,
            inner_flags,
            Set::empty(),
        );
        let whole = flatten_node(child, is_last, flags, Set::empty());
        let own_all = row_of(child, is_last, flags, Set::empty());
        assert(whole == seq![own_all] + inner_all);
        assert(well_formed(child, here));
        lemma_list_shows_totals(children, upto - 1, parts, flags, collapsed);
        if child.is_directory {
            assert(is_aggregated(child));
            assert forall|i: int|
                0 <= i < child.children.len() implies is_aggregated(
                #[trigger] child.children[i],
            ) by {}
            lemma_list_shows_totals(
                child.children,
                child.children.len() as int,
                here,
                inner_flags,
                collapsed,
            );
            lemma_rows_below_list(
                child.children,
                child.children.len() as int,
                here,
                inner_flags,
                collapsed,
            );
        }
        assert forall|i: int|
            0 <= i < rows.len() && (#[trigger] rows[i]).is_directory implies row_stats(rows[i])
            == totals_below(all, rows[i].full_path) by {
            if i < front.len() {
                assert(rows[i] == front[i]);
            } else {
                let k = i - front.len();
                assert(rows[i] == back[k]);
                let dir = rows[i].full_path;
                let d = split_path(dir);
                // The row stands at or below the child, which is then a directory.
                if k == 0 {
                    assert(child.is_directory);
                    assert(d == here);
                    assert(here.take(here.len() as int) =~= here);
                    lemma_totals_of_list_below(
                        child.children,
                        child.children.len() as int,
                        here,
                        inner_flags,
                        dir,
                    );
                    assert(child.children.take(child.children.len() as int) =~= child.children);
                    assert(row_stats(rows[i]) == totals_below(inner_all, dir));
                } else {
                    let inner = flatten_list(
                        child.children,
                        child.children.len() as int,
                        inner_flags,
                        collapsed,
                    );
                    assert(!collapsed.contains(child.full_path));
                    assert(back[k] == inner[k - 1]);
                    if !child.is_directory {
                        assert(child.children =~= Seq::<TreeNodeView>::empty());
                    }
                    assert(row_stats(rows[i]) == totals_below(inner_all, dir));
                    assert(is_strict_prefix_of_parts(here, d));
                }
                assert(is_prefix_of_parts(here, d));
                // Its own row is not below the row; the rows of its siblings are not either.
                lemma_totals_below_concat(seq![own_all], inner_all, dir);
                assert(totals_below(seq![own_all], dir) == Totals::zero()) by {
                    assert(seq![own_all].drop_last() =~= Seq::<FileTreeItemView>::empty());
                    assert(totals_below(seq![own_all].drop_last(), dir) == Totals::zero());
                    assert(seq![own_all].last() == own_all);
                }
                lemma_totals_through_child(
                    children,
                    children.len() as int,
                    parts,
                    flags,
                    dir,
                    at,
                );
            }
        }
    }
}

/// Aggregation invariant: every directory row, whatever is collapsed,
/// shows as its numbers of files, of added lines and of removed lines the
/// sums of these numbers over the file rows that lie strictly below it in
/// the list where nothing is collapsed.
pub proof fn lemma_aggregation_invariant(
    records: Seq<FileDiffView>,
    collapsed: Set<Seq<char>>,
    i: int,
)
    requires
        0 <= i < spec_rows(records, collapsed).len(),
        spec_rows(records, collapsed)[i].is_directory,
    ensures
        row_stats(spec_rows(records, collapsed)[i]) == totals_below(
            spec_rows(records, Set::empty()),
            spec_rows(records, collapsed)[i].full_path,
        ),
{
    let root = spec_tree(records);
    lemma_spec_tree_well_formed(records);
    assert forall|j: int| 0 <= j < root.children.len() implies is_aggregated(
        #[trigger] root.children[j],
    ) by {}
    lemma_list_shows_totals(
        root.children,
        root.children.len() as int,
        Seq::empty(),
        Seq::empty(),
        collapsed,
    );
}

} // verus!
