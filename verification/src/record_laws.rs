//! What the totals of the rows say of the records.

use crate::grouping::{grouped, lemma_grouped, lemma_insert_record_is_insert, record_position};
use crate::parser::FileDiffView;
use crate::paths::{
    is_strictly_below, join_path, lemma_split_path_nonempty, lemma_strictly_below_is_prefix,
    split_path,
};
use crate::tree::{
    aggregate, aggregate_each, directory_index, directory_node, file_node, flatten_list,
    flatten_node, insert_all, insert_file, lemma_aggregate_keeps_totals, lemma_directory_index,
    lemma_sort_tree_totals, record_stats, row_of, sort_each, sort_siblings, sort_tree, spec_rows,
    spec_tree, stored_totals, FileTreeItemView, Totals, TreeNodeView,
};
use crate::tree_laws::{
    insert_position, lemma_aggregation_invariant, lemma_insert_sorted_is_insert,
    lemma_totals_below_concat, row_stats, totals_below,
};
use vstd::prelude::*;

verus! {

/// What a record counts for a directory: what it counts at all where its
/// path lies strictly below the directory, else nothing.
pub open spec fn counted_below(f: FileDiffView, dir: Seq<char>) -> Totals {
    if is_strictly_below(f.filename, dir) {
        record_stats(Some(f))
    } else {
        Totals::zero()
    }
}

/// The totals over the records whose path lies strictly below the
/// directory: their number, their added and their removed lines.
pub open spec fn records_below(records: Seq<FileDiffView>, dir: Seq<char>) -> Totals
    decreases records.len(),
{
    if records.len() == 0 {
        Totals::zero()
    } else {
        records_below(records.drop_last(), dir).plus(counted_below(records.last(), dir))
    }
}

/// What a node itself counts for a directory: what it stores where it is a
/// file whose path lies strictly below the directory.
pub open spec fn own_below(node: TreeNodeView, dir: Seq<char>) -> Totals {
    if !node.is_directory && is_strictly_below(node.full_path, dir) {
        stored_totals(node)
    } else {
        Totals::zero()
    }
}

/// The totals over the files at or below the node whose path lies strictly
/// below the directory.
pub open spec fn node_below(node: TreeNodeView, dir: Seq<char>) -> Totals
    decreases node,
{
    own_below(node, dir).plus(list_below(node.children, dir))
}

/// The sum of these totals over the nodes.
pub open spec fn list_below(nodes: Seq<TreeNodeView>, dir: Seq<char>) -> Totals
    decreases nodes,
{
    if nodes.len() == 0 {
        Totals::zero()
    } else {
        list_below(nodes.drop_last(), dir).plus(node_below(nodes.last(), dir))
    }
}

/// The totals of a list with one node more.
pub proof fn lemma_list_below_push(nodes: Seq<TreeNodeView>, x: TreeNodeView, dir: Seq<char>)
    ensures
        list_below(nodes.push(x), dir) == list_below(nodes, dir).plus(node_below(x, dir)),
{
    assert(nodes.push(x).drop_last() =~= nodes);
}

/// The totals of a list with one node replaced.
pub proof fn lemma_list_below_update(
    nodes: Seq<TreeNodeView>,
    at: int,
    x: TreeNodeView,
    dir: Seq<char>,
)
    requires
        0 <= at < nodes.len(),
    ensures
        list_below(nodes.update(at, x), dir).plus(node_below(nodes[at], dir)) == list_below(
            nodes,
            dir,
        ).plus(node_below(x, dir)),
    decreases nodes.len(),
{
    let changed = nodes.update(at, x);
    if at == nodes.len() - 1 {
        assert(changed.drop_last() =~= nodes.drop_last());
    } else {
        lemma_list_below_update(nodes.drop_last(), at, x, dir);
        assert(changed.drop_last() =~= nodes.drop_last().update(at, x));
        assert(nodes.drop_last()[at] == nodes[at]);
    }
}

/// The totals of a list with one node put in.
pub proof fn lemma_list_below_insert(
    nodes: Seq<TreeNodeView>,
    at: int,
    x: TreeNodeView,
    dir: Seq<char>,
)
    requires
        0 <= at <= nodes.len(),
    ensures
        list_below(nodes.insert(at, x), dir) == list_below(nodes, dir).plus(node_below(x, dir)),
    decreases nodes.len() - at,
{
    if at == nodes.len() {
        assert(nodes.insert(at, x) =~= nodes.push(x));
        lemma_list_below_push(nodes, x, dir);
    } else {
        let front = nodes.drop_last();
        lemma_list_below_insert(front, at, x, dir);
        assert(nodes.insert(at, x) =~= front.insert(at, x).push(nodes.last()));
        lemma_list_below_push(front.insert(at, x), nodes.last(), dir);
    }
}

/// Adding a record to a directory adds what the record counts for `dir`.
pub proof fn lemma_insert_file_below(
    node: TreeNodeView,
    parts: Seq<Seq<char>>,
    at: int,
    f: FileDiffView,
    dir: Seq<char>,
)
    requires
        node.is_directory,
        0 <= at < parts.len(),
    ensures
        insert_file(node, parts, at, f.filename, Some(f)).is_directory,
        node_below(insert_file(node, parts, at, f.filename, Some(f)), dir) == node_below(
            node,
            dir,
        ).plus(counted_below(f, dir)),
    decreases parts.len() - at,
{
    if at == parts.len() - 1 {
        let leaf = file_node(parts[at], f.filename, Some(f));
        assert(list_below(leaf.children, dir) == Totals::zero());
        assert(node_below(leaf, dir) == counted_below(f, dir));
        lemma_list_below_push(node.children, leaf, dir);
    } else {
        let at_child = directory_index(node.children, parts[at], 0);
        lemma_directory_index(node.children, parts[at], 0);
        if at_child < node.children.len() {
            let child = node.children[at_child];
            lemma_insert_file_below(child, parts, at + 1, f, dir);
            lemma_list_below_update(
                node.children,
                at_child,
                insert_file(child, parts, at + 1, f.filename, Some(f)),
                dir,
            );
        } else {
            let made = directory_node(parts[at], join_path(parts.take(at + 1)));
            assert(list_below(made.children, dir) == Totals::zero());
            lemma_insert_file_below(made, parts, at + 1, f, dir);
            lemma_list_below_push(
                node.children,
                insert_file(made, parts, at + 1, f.filename, Some(f)),
                dir,
            );
        }
    }
}

/// The tree of the first records counts for `dir` what these records do.
pub proof fn lemma_insert_all_below(records: Seq<FileDiffView>, upto: int, dir: Seq<char>)
    requires
        0 <= upto <= records.len(),
    ensures
        insert_all(records, upto).is_directory,
        node_below(insert_all(records, upto), dir) == records_below(records.take(upto), dir),
    decreases upto,
{
    if upto > 0 {
        lemma_insert_all_below(records, upto - 1, dir);
        let f = records[upto - 1];
        lemma_split_path_nonempty(f.filename);
        lemma_insert_file_below(insert_all(records, upto - 1), split_path(f.filename), 0, f, dir);
        assert(records.take(upto).drop_last() =~= records.take(upto - 1));
        assert(records.take(upto).last() == f);
    } else {
        assert(records.take(0) =~= Seq::<FileDiffView>::empty());
        assert(list_below(insert_all(records, 0).children, dir) == Totals::zero());
    }
}

/// Sorting a list changes nothing of what it counts for `dir`.
pub proof fn lemma_sort_siblings_below(nodes: Seq<TreeNodeView>, dir: Seq<char>)
    ensures
        list_below(sort_siblings(nodes), dir) == list_below(nodes, dir),
    decreases nodes.len(),
{
    if nodes.len() > 0 {
        let prev = sort_siblings(nodes.drop_last());
        lemma_sort_siblings_below(nodes.drop_last(), dir);
        lemma_insert_sorted_is_insert(prev, nodes.last());
        lemma_list_below_insert(prev, insert_position(prev, nodes.last()), nodes.last(), dir);
    }
}

/// Sorting a tree changes nothing of what it counts for `dir`.
pub proof fn lemma_sort_tree_below(node: TreeNodeView, dir: Seq<char>)
    ensures
        node_below(sort_tree(node), dir) == node_below(node, dir),
    decreases node, 1nat,
{
    lemma_sort_each_below(node.children, node.children.len() as int, dir);
    lemma_sort_siblings_below(sort_each(node.children), dir);
    assert(sort_each(node.children).take(node.children.len() as int) =~= sort_each(
        node.children,
    ));
    assert(node.children.take(node.children.len() as int) =~= node.children);
}

/// Sorting each tree of a list changes nothing of what the list counts for
/// `dir`.
pub proof fn lemma_sort_each_below(nodes: Seq<TreeNodeView>, k: int, dir: Seq<char>)
    requires
        0 <= k <= nodes.len(),
    ensures
        list_below(sort_each(nodes).take(k), dir) == list_below(nodes.take(k), dir),
    decreases nodes, 0nat, k,
{
    let mapped = sort_each(nodes);
    if k > 0 {
        lemma_sort_each_below(nodes, k - 1, dir);
        lemma_sort_tree_below(nodes[k - 1], dir);
        assert(mapped.take(k).drop_last() =~= mapped.take(k - 1));
        assert(nodes.take(k).drop_last() =~= nodes.take(k - 1));
        assert(mapped.take(k).last() == sort_tree(nodes[k - 1]));
        assert(nodes.take(k).last() == nodes[k - 1]);
    }
}

/// Storing the totals changes nothing of what a tree counts for `dir`.
pub proof fn lemma_aggregate_below(node: TreeNodeView, dir: Seq<char>)
    ensures
        node_below(aggregate(node), dir) == node_below(node, dir),
    decreases node, 1nat,
{
    if node.is_directory {
        lemma_aggregate_each_below(node.children, node.children.len() as int, dir);
        assert(aggregate_each(node.children).take(node.children.len() as int) =~= aggregate_each(
            node.children,
        ));
        assert(node.children.take(node.children.len() as int) =~= node.children);
    }
}

/// Storing the totals in each tree of a list changes nothing of what the
/// list counts for `dir`.
pub proof fn lemma_aggregate_each_below(nodes: Seq<TreeNodeView>, k: int, dir: Seq<char>)
    requires
        0 <= k <= nodes.len(),
    ensures
        list_below(aggregate_each(nodes).take(k), dir) == list_below(nodes.take(k), dir),
    decreases nodes, 0nat, k,
{
    let mapped = aggregate_each(nodes);
    if k > 0 {
        lemma_aggregate_each_below(nodes, k - 1, dir);
        lemma_aggregate_below(nodes[k - 1], dir);
        assert(mapped.take(k).drop_last() =~= mapped.take(k - 1));
        assert(nodes.take(k).drop_last() =~= nodes.take(k - 1));
        assert(mapped.take(k).last() == aggregate(nodes[k - 1]));
        assert(nodes.take(k).last() == nodes[k - 1]);
    }
}

/// The totals of records with one record put in.
pub proof fn lemma_records_below_insert(
    records: Seq<FileDiffView>,
    at: int,
    x: FileDiffView,
    dir: Seq<char>,
)
    requires
        0 <= at <= records.len(),
    ensures
        records_below(records.insert(at, x), dir) == records_below(records, dir).plus(
            counted_below(x, dir),
        ),
    decreases records.len() - at,
{
    if at == records.len() {
        assert(records.insert(at, x) =~= records.push(x));
        assert(records.push(x).drop_last() =~= records);
    } else {
        let front = records.drop_last();
        lemma_records_below_insert(front, at, x, dir);
        let longer = front.insert(at, x).push(records.last());
        assert(records.insert(at, x) =~= longer);
        assert(longer.drop_last() =~= front.insert(at, x));
    }
}

/// Putting records in order changes nothing of what they count for `dir`.
pub proof fn lemma_grouped_below(records: Seq<FileDiffView>, dir: Seq<char>)
    ensures
        records_below(grouped(records), dir) == records_below(records, dir),
    decreases records.len(),
{
    if records.len() > 0 {
        let prev = grouped(records.drop_last());
        lemma_grouped_below(records.drop_last(), dir);
        lemma_insert_record_is_insert(prev, records.last());
        lemma_records_below_insert(prev, record_position(prev, records.last()), records.last(), dir);
    }
}

/// The rows of a node, nothing collapsed, count for `dir` what the node
/// does.
pub proof fn lemma_rows_below_are_node(
    node: TreeNodeView,
    is_last: bool,
    flags: Seq<bool>,
    dir: Seq<char>,
)
    ensures
        totals_below(flatten_node(node, is_last, flags, Set::empty()), dir) == node_below(
            node,
            dir,
        ),
    decreases node, 1nat,
{
    let own = row_of(node, is_last, flags, Set::empty());
    let below = flatten_list(
        node.children,
        node.children.len() as int,
        flags.push(is_last),
        Set::empty(),
    );
    lemma_totals_below_concat(seq![own], below, dir);
    assert(seq![own].drop_last() =~= Seq::<FileTreeItemView>::empty());
    assert(totals_below(seq![own].drop_last(), dir) == Totals::zero());
    assert(seq![own].last() == own);
    assert(totals_below(seq![own], dir) == own_below(node, dir));
    lemma_rows_below_are_list(
        node.children,
        node.children.len() as int,
        flags.push(is_last),
        dir,
    );
    assert(node.children.take(node.children.len() as int) =~= node.children);
}

/// The rows of the first nodes of a list, nothing collapsed, count for
/// `dir` what these nodes do.
pub proof fn lemma_rows_below_are_list(
    children: Seq<TreeNodeView>,
    upto: int,
    flags: Seq<bool>,
    dir: Seq<char>,
)
    requires
        0 <= upto <= children.len(),
    ensures
        totals_below(flatten_list(children, upto, flags, Set::empty()), dir) == list_below(
            children.take(upto),
            dir,
        ),
    decreases children, 0nat, upto,
{
    if upto > 0 {
        let child = children[upto - 1];
        lemma_rows_below_are_list(children, upto - 1, flags, dir);
        lemma_rows_below_are_node(child, upto == children.len(), flags, dir);
        lemma_totals_below_concat(
            flatten_list(children, upto - 1, flags, Set::empty()),
            flatten_node(child, upto == children.len(), flags, Set::empty()),
            dir,
        );
        assert(children.take(upto).drop_last() =~= children.take(upto - 1));
        assert(children.take(upto).last() == child);
    } else {
        assert(children.take(0) =~= Seq::<TreeNodeView>::empty());
    }
}

/// File rows and records: the file rows of the list in which nothing is
/// collapsed count for any directory what the records do.
pub proof fn lemma_rows_count_records(records: Seq<FileDiffView>, dir: Seq<char>)
    ensures
        totals_below(spec_rows(records, Set::empty()), dir) == records_below(records, dir),
{
    let ordered = grouped(records);
    lemma_grouped(records);
    let inserted = insert_all(ordered, ordered.len() as int);
    lemma_insert_all_below(ordered, ordered.len() as int, dir);
    assert(ordered.take(ordered.len() as int) =~= ordered);
    lemma_grouped_below(records, dir);
    lemma_sort_tree_below(inserted, dir);
    let sorted = sort_tree(inserted);
    lemma_aggregate_below(sorted, dir);
    let root = spec_tree(records);
    lemma_sort_tree_totals(inserted);
    lemma_aggregate_keeps_totals(sorted);
    assert(root.is_directory);
    lemma_rows_below_are_list(root.children, root.children.len() as int, Seq::empty(), dir);
    assert(root.children.take(root.children.len() as int) =~= root.children);
}

/// Aggregation over the records: every directory row, whatever is
/// collapsed, shows the number of the records whose path lies strictly
/// below its own, the sum of their added lines and the sum of their
/// removed lines, whether their rows are shown or not. A path lies
/// strictly below that of the row where it begins with it and a `/`.
pub proof fn lemma_aggregation_over_records(
    records: Seq<FileDiffView>,
    collapsed: Set<Seq<char>>,
    i: int,
)
    requires
        0 <= i < spec_rows(records, collapsed).len(),
        spec_rows(records, collapsed)[i].is_directory,
    ensures
        row_stats(spec_rows(records, collapsed)[i]) == records_below(
            records,
            spec_rows(records, collapsed)[i].full_path,
        ),
        forall|path: Seq<char>|
            is_strictly_below(path, spec_rows(records, collapsed)[i].full_path) <==> (spec_rows(
                records,
                collapsed,
            )[i].full_path + seq!['/']).is_prefix_of(path),
{
    let dir = spec_rows(records, collapsed)[i].full_path;
    lemma_aggregation_invariant(records, collapsed, i);
    lemma_rows_count_records(records, dir);
    assert forall|path: Seq<char>| is_strictly_below(path, dir) <==> (dir + seq!['/']).is_prefix_of(
        path,
    ) by {
        lemma_strictly_below_is_prefix(path, dir);
    }
}

} // verus!
