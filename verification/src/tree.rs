//! Groups file records into a directory tree and flattens the tree into
//! display rows.

use crate::grouping::{
    group_records, grouped, lemma_grouped, lemma_insert_record_is_insert, record_position,
};
use crate::parser::{
    content_length, lemma_parse_content_length, lemma_parse_len, lemma_parse_stat_accounting,
    lemma_stats_bound,
    records_view, spec_parse, stats_match_content, FileDiff, FileDiffView,
};
use crate::paths::{join_path, lemma_split_path_nonempty, split_components, split_path};
use crate::pathset::PathSet;
use crate::text::{
    append_chars, chars_of, is_lex_less, lex_less, lowercase_chars, lowercase_of, same_chars,
    string_of, views_of,
};
use vstd::prelude::*;

verus! {

/// One row of the flattened tree.
#[derive(Debug)]
pub struct FileTreeItem {
    pub name: String,
    pub full_path: String,
    pub is_directory: bool,
    /// Number of ancestors above the row.
    pub depth: usize,
    pub file_diff: Option<FileDiff>,
    /// Whether the row is the last of its parent's children.
    pub is_last_child: bool,
    /// For each ancestor, outermost first, whether it was the last of its
    /// parent's children.
    pub parent_is_last: Vec<bool>,
    pub is_expanded: bool,
    /// Files at or below the row.
    pub dir_file_count: usize,
    /// Added lines in the files at or below the row.
    pub dir_added_lines: usize,
    /// Removed lines in the files at or below the row.
    pub dir_removed_lines: usize,
}

/// What a [`FileTreeItem`] holds, as mathematical values.
pub struct FileTreeItemView {
    pub name: Seq<char>,
    pub full_path: Seq<char>,
    pub is_directory: bool,
    pub depth: nat,
    pub file_diff: Option<FileDiffView>,
    pub is_last_child: bool,
    pub parent_is_last: Seq<bool>,
    pub is_expanded: bool,
    pub dir_file_count: nat,
    pub dir_added_lines: nat,
    pub dir_removed_lines: nat,
}

/// The view of an optional record.
pub open spec fn opt_diff_view(d: Option<FileDiff>) -> Option<FileDiffView> {
    match d {
        Some(d) => Some(d@),
        None => None,
    }
}

impl View for FileTreeItem {
    type V = FileTreeItemView;

    open spec fn view(&self) -> FileTreeItemView {
        FileTreeItemView {
            name: self.name@,
            full_path: self.full_path@,
            is_directory: self.is_directory,
            depth: self.depth as nat,
            file_diff: opt_diff_view(self.file_diff),
            is_last_child: self.is_last_child,
            parent_is_last: self.parent_is_last@,
            is_expanded: self.is_expanded,
            dir_file_count: self.dir_file_count as nat,
            dir_added_lines: self.dir_added_lines as nat,
            dir_removed_lines: self.dir_removed_lines as nat,
        }
    }
}

impl DeepView for FileTreeItem {
    type V = FileTreeItemView;

    open spec fn deep_view(&self) -> FileTreeItemView {
        self@
    }
}

/// A copy of an optional record.
pub fn clone_opt_diff(d: &Option<FileDiff>) -> (out: Option<FileDiff>)
    ensures
        out == *d,
{
    match d {
        Some(d) => Some(d.clone()),
        None => None,
    }
}

impl Clone for FileTreeItem {
    fn clone(&self) -> (out: Self)
        ensures
            out@ == self@,
    {
        FileTreeItem {
            name: self.name.clone(),
            full_path: self.full_path.clone(),
            is_directory: self.is_directory,
            depth: self.depth,
            file_diff: clone_opt_diff(&self.file_diff),
            is_last_child: self.is_last_child,
            parent_is_last: self.parent_is_last.clone(),
            is_expanded: self.is_expanded,
            dir_file_count: self.dir_file_count,
            dir_added_lines: self.dir_added_lines,
            dir_removed_lines: self.dir_removed_lines,
        }
    }
}

/// A node of the tree: a directory with its children, or a file with its
/// record.
pub struct TreeNode {
    pub name: String,
    pub full_path: String,
    pub is_directory: bool,
    pub file_diff: Option<FileDiff>,
    pub children: Vec<TreeNode>,
    pub file_count: usize,
    pub added_lines: usize,
    pub removed_lines: usize,
}

/// What a [`TreeNode`] holds, as mathematical values.
pub struct TreeNodeView {
    pub name: Seq<char>,
    pub full_path: Seq<char>,
    pub is_directory: bool,
    pub file_diff: Option<FileDiffView>,
    pub children: Seq<TreeNodeView>,
    pub file_count: nat,
    pub added_lines: nat,
    pub removed_lines: nat,
}

impl TreeNode {
    /// The node as a mathematical value.
    pub open spec fn model(&self) -> TreeNodeView
        decreases self,
    {
        TreeNodeView {
            name: self.name@,
            full_path: self.full_path@,
            is_directory: self.is_directory,
            file_diff: opt_diff_view(self.file_diff),
            children: Seq::new(
                self.children.len() as nat,
                |i: int|
                    if 0 <= i < self.children.len() {
                        self.children[i].model()
                    } else {
                        arbitrary()
                    },
            ),
            file_count: self.file_count as nat,
            added_lines: self.added_lines as nat,
            removed_lines: self.removed_lines as nat,
        }
    }
}

/// The models of a list of nodes.
pub open spec fn models_of(nodes: Seq<TreeNode>) -> Seq<TreeNodeView> {
    Seq::new(nodes.len(), |i: int| nodes[i].model())
}

/// The children of a node's model are the models of its children.
pub proof fn lemma_model_children(node: TreeNode)
    ensures
        node.model().children == models_of(node.children@),
{
    assert(node.model().children =~= models_of(node.children@));
}

// ---------------------------------------------------------------------
// Tree construction
// ---------------------------------------------------------------------

/// The root of an empty tree: a directory without a name.
pub open spec fn empty_root() -> TreeNodeView {
    TreeNodeView {
        name: Seq::empty(),
        full_path: Seq::empty(),
        is_directory: true,
        file_diff: None,
        children: Seq::empty(),
        file_count: 0,
        added_lines: 0,
        removed_lines: 0,
    }
}

/// A file node. It counts as one file with the changed lines of its
/// record.
pub open spec fn file_node(
    name: Seq<char>,
    path: Seq<char>,
    file: Option<FileDiffView>,
) -> TreeNodeView {
    TreeNodeView {
        name,
        full_path: path,
        is_directory: false,
        file_diff: file,
        children: Seq::empty(),
        file_count: 1,
        added_lines: match file {
            Some(f) => f.added_lines,
            None => 0,
        },
        removed_lines: match file {
            Some(f) => f.removed_lines,
            None => 0,
        },
    }
}

/// A directory node without children.
pub open spec fn directory_node(name: Seq<char>, path: Seq<char>) -> TreeNodeView {
    TreeNodeView {
        name,
        full_path: path,
        is_directory: true,
        file_diff: None,
        children: Seq::empty(),
        file_count: 0,
        added_lines: 0,
        removed_lines: 0,
    }
}

/// Index of the first directory named `name` among `children` from index
/// `from` on, or the number of children where there is none.
pub open spec fn directory_index(children: Seq<TreeNodeView>, name: Seq<char>, from: int) -> int
    decreases children.len() - from,
{
    if from < 0 || from >= children.len() {
        children.len() as int
    } else if children[from].is_directory && children[from].name == name {
        from
    } else {
        directory_index(children, name, from + 1)
    }
}

/// The node with other children.
pub open spec fn with_children(node: TreeNodeView, children: Seq<TreeNodeView>) -> TreeNodeView {
    TreeNodeView { children, ..node }
}

/// The tree below `node` after the file with components `parts` was added
/// from component `at` on: the directories along the path are entered,
/// made where they are missing, and the file becomes the last child of the
/// innermost one.
pub open spec fn insert_file(
    node: TreeNodeView,
    parts: Seq<Seq<char>>,
    at: int,
    path: Seq<char>,
    file: Option<FileDiffView>,
) -> TreeNodeView
    decreases parts.len() - at,
{
    if at < 0 || at >= parts.len() {
        node
    } else if at == parts.len() - 1 {
        with_children(node, node.children.push(file_node(parts[at], path, file)))
    } else {
        let at_child = directory_index(node.children, parts[at], 0);
        if at_child < node.children.len() {
            with_children(
                node,
                node.children.update(
                    at_child,
                    insert_file(node.children[at_child], parts, at + 1, path, file),
                ),
            )
        } else {
            with_children(
                node,
                node.children.push(
                    insert_file(
                        directory_node(parts[at], join_path(parts.take(at + 1))),
                        parts,
                        at + 1,
                        path,
                        file,
                    ),
                ),
            )
        }
    }
}

/// Finds the first directory named `name` among `children`.
fn find_directory(children: &Vec<TreeNode>, name: &String) -> (at: usize)
    ensures
        at == directory_index(models_of(children@), name@, 0),
        at <= children.len(),
        at < children.len() ==> children@[at as int].is_directory && children@[at as int].name@
            == name@,
{
    let mut i: usize = 0;
    while i < children.len()
        invariant
            i <= children.len(),
            directory_index(models_of(children@), name@, 0) == directory_index(
                models_of(children@),
                name@,
                i as int,
            ),
        decreases children.len() - i,
    {
        proof {
            assert(models_of(children@)[i as int] == children@[i as int].model());
        }
        if children[i].is_directory && children[i].name == *name {
            return i;
        }
        i += 1;
    }
    i
}

/// Adds a file below `node`, from component `at` of its path on.
/// `prefix` is the path of `node`: the components before `at`, joined.
fn insert_below(
    node: &mut TreeNode,
    parts: &Vec<Vec<char>>,
    at: usize,
    prefix: &Vec<char>,
    path: &str,
    file_diff: Option<FileDiff>,
)
    requires
        at < parts.len(),
        prefix@ == join_path(views_of(parts@).take(at as int)),
    ensures
        final(node).model() == insert_file(
            old(node).model(),
            views_of(parts@),
            at as int,
            path@,
            opt_diff_view(file_diff),
        ),
    decreases parts.len() - at,
{
    let ghost before = node.model();
    let ghost names = views_of(parts@);
    proof {
        lemma_model_children(*node);
        assert(names[at as int] == parts@[at as int]@);
    }
    let name = string_of(parts[at].as_slice());
    if at == parts.len() - 1 {
        let (added, removed) = match &file_diff {
            Some(fd) => (fd.added_lines, fd.removed_lines),
            None => (0, 0),
        };
        let leaf = TreeNode {
            name,
            full_path: string_of(chars_of(path).as_slice()),
            is_directory: false,
            file_diff,
            children: Vec::new(),
            file_count: 1,
            added_lines: added,
            removed_lines: removed,
        };
        proof {
            lemma_model_children(leaf);
            assert(leaf.model().children =~= Seq::<TreeNodeView>::empty());
            assert(leaf.model() == file_node(names[at as int], path@, opt_diff_view(file_diff)));
        }
        node.children.push(leaf);
        proof {
            lemma_model_children(*node);
            assert(node.model().children =~= before.children.push(leaf.model()));
        }
    } else {
        let mut dir_path: Vec<char> = Vec::new();
        append_chars(&mut dir_path, prefix.as_slice());
        if at > 0 {
            dir_path.push('/');
        }
        append_chars(&mut dir_path, parts[at].as_slice());
        proof {
            let upto = names.take(at + 1);
            assert(upto.drop_last() =~= names.take(at as int));
            assert(upto.last() == names[at as int]);
            if at == 0 {
                assert(prefix@ =~= Seq::<char>::empty());
                assert(dir_path@ =~= names[0]);
            } else {
                assert(dir_path@ =~= join_path(names.take(at as int)) + seq!['/']
                    + names[at as int]);
            }
            assert(dir_path@ == join_path(upto));
        }
        let at_child = find_directory(&node.children, &name);
        if at_child < node.children.len() {
            let ghost child_before = node.children@[at_child as int];
            let ghost children_before = node.children@;
            insert_below(&mut node.children[at_child], parts, at + 1, &dir_path, path, file_diff);
            proof {
                lemma_model_children(*node);
                assert(node.children@ =~= children_before.update(
                    at_child as int,
                    node.children@[at_child as int],
                ));
                assert(node.model().children =~= before.children.update(
                    at_child as int,
                    insert_file(
                        before.children[at_child as int],
                        names,
                        at + 1,
                        path@,
                        opt_diff_view(file_diff),
                    ),
                ));
            }
        } else {
            let mut dir = TreeNode {
                name,
                full_path: string_of(dir_path.as_slice()),
                is_directory: true,
                file_diff: None,
                children: Vec::new(),
                file_count: 0,
                added_lines: 0,
                removed_lines: 0,
            };
            proof {
                lemma_model_children(dir);
                assert(dir.model().children =~= Seq::<TreeNodeView>::empty());
                assert(dir.model() == directory_node(
                    names[at as int],
                    join_path(names.take(at + 1)),
                ));
            }
            insert_below(&mut dir, parts, at + 1, &dir_path, path, file_diff);
            node.children.push(dir);
            proof {
                lemma_model_children(*node);
                assert(node.model().children =~= before.children.push(dir.model()));
            }
        }
    }
}


// ---------------------------------------------------------------------
// Order of siblings
// ---------------------------------------------------------------------

/// Whether an entry stands before another among the children of one
/// directory: directories before files; then by lower-case name; then by
/// name. `a_key` and `b_key` are the lower-case names.
pub open spec fn precedes(
    a_is_directory: bool,
    a_key: Seq<char>,
    a_name: Seq<char>,
    b_is_directory: bool,
    b_key: Seq<char>,
    b_name: Seq<char>,
) -> bool {
    if a_is_directory != b_is_directory {
        a_is_directory
    } else if a_key != b_key {
        lex_less(a_key, b_key)
    } else {
        lex_less(a_name, b_name)
    }
}

/// Whether node `a` stands before node `b` among the children of one
/// directory.
pub open spec fn sibling_before(a: TreeNodeView, b: TreeNodeView) -> bool {
    precedes(
        a.is_directory,
        lowercase_of(a.name),
        a.name,
        b.is_directory,
        lowercase_of(b.name),
        b.name,
    )
}

/// `sorted` with `x` put in behind the last entry that `x` does not stand
/// before.
pub open spec fn insert_sorted(sorted: Seq<TreeNodeView>, x: TreeNodeView) -> Seq<TreeNodeView>
    decreases sorted.len(),
{
    if sorted.len() == 0 {
        seq![x]
    } else if sibling_before(x, sorted.last()) {
        insert_sorted(sorted.drop_last(), x).push(sorted.last())
    } else {
        sorted.push(x)
    }
}

/// The siblings in order. Entries of which neither stands before the other
/// keep the order in which they came.
pub open spec fn sort_siblings(nodes: Seq<TreeNodeView>) -> Seq<TreeNodeView>
    decreases nodes.len(),
{
    if nodes.len() == 0 {
        nodes
    } else {
        insert_sorted(sort_siblings(nodes.drop_last()), nodes.last())
    }
}

/// The tree with the children of every node in order.
pub open spec fn sort_tree(node: TreeNodeView) -> TreeNodeView
    decreases node,
{
    with_children(node, sort_siblings(sort_each(node.children)))
}

/// The given trees, each with the children of every node in order.
pub open spec fn sort_each(nodes: Seq<TreeNodeView>) -> Seq<TreeNodeView>
    decreases nodes,
{
    Seq::new(
        nodes.len(),
        |i: int|
            if 0 <= i < nodes.len() {
                sort_tree(nodes[i])
            } else {
                arbitrary()
            },
    )
}

/// Where `x` goes into a sorted list: in front of the run of entries at
/// the end that it stands before.
pub proof fn lemma_insert_sorted_at(sorted: Seq<TreeNodeView>, x: TreeNodeView, k: int)
    requires
        0 <= k <= sorted.len(),
        forall|j: int| k <= j < sorted.len() ==> sibling_before(x, #[trigger] sorted[j]),
        k == 0 || !sibling_before(x, sorted[k - 1]),
    ensures
        insert_sorted(sorted, x) == sorted.insert(k, x),
    decreases sorted.len() - k,
{
    if sorted.len() == 0 {
        assert(sorted.insert(k, x) =~= seq![x]);
    } else if k == sorted.len() {
        assert(sorted.insert(k, x) =~= sorted.push(x));
    } else {
        let front = sorted.drop_last();
        assert forall|j: int| k <= j < front.len() implies sibling_before(
            x,
            #[trigger] front[j],
        ) by {
            assert(front[j] == sorted[j]);
        }
        if k > 0 {
            assert(front[k - 1] == sorted[k - 1]);
        }
        lemma_insert_sorted_at(front, x, k);
        assert(front.insert(k, x).push(sorted.last()) =~= sorted.insert(k, x));
    }
}

/// Whether an entry stands before another among the children of one
/// directory; the keys are the lower-case names.
pub fn sibling_precedes(
    a_is_directory: bool,
    a_key: &[char],
    a_name: &[char],
    b_is_directory: bool,
    b_key: &[char],
    b_name: &[char],
) -> (r: bool)
    ensures
        r == precedes(a_is_directory, a_key@, a_name@, b_is_directory, b_key@, b_name@),
{
    if a_is_directory != b_is_directory {
        a_is_directory
    } else if !same_chars(a_key, b_key) {
        is_lex_less(a_key, b_key)
    } else {
        is_lex_less(a_name, b_name)
    }
}

/// Puts the children of one directory in order.
fn sort_children(children: Vec<TreeNode>) -> (sorted: Vec<TreeNode>)
    ensures
        models_of(sorted@) == sort_siblings(models_of(children@)),
{
    let ghost all = children@;
    let mut sorted: Vec<TreeNode> = Vec::new();
    let mut keys: Vec<Vec<char>> = Vec::new();
    let mut names: Vec<Vec<char>> = Vec::new();
    proof {
        assert(models_of(sorted@) =~= sort_siblings(models_of(all).take(0)));
    }
    for child in it: children
        invariant
            it.seq() == all,
            sorted.len() == keys.len(),
            sorted.len() == names.len(),
            forall|j: int|
                0 <= j < sorted.len() ==> (#[trigger] keys@[j])@ == lowercase_of(
                    sorted@[j].name@,
                ) && names@[j]@ == sorted@[j].name@,
            models_of(sorted@) == sort_siblings(models_of(all).take(it.index() as int)),
    {
        let key = lowercase_chars(child.name.as_str());
        let name = chars_of(child.name.as_str());
        let mut k: usize = sorted.len();
        while k > 0 && sibling_precedes(
            child.is_directory,
            key.as_slice(),
            name.as_slice(),
            sorted[k - 1].is_directory,
            keys[k - 1].as_slice(),
            names[k - 1].as_slice(),
        )
            invariant
                k <= sorted.len(),
                sorted.len() == keys.len(),
                sorted.len() == names.len(),
                key@ == lowercase_of(child.name@),
                name@ == child.name@,
                forall|j: int|
                    0 <= j < sorted.len() ==> (#[trigger] keys@[j])@ == lowercase_of(
                        sorted@[j].name@,
                    ) && names@[j]@ == sorted@[j].name@,
                forall|j: int|
                    k <= j < sorted.len() ==> sibling_before(
                        child.model(),
                        #[trigger] models_of(sorted@)[j],
                    ),
            decreases k,
        {
            proof {
                assert(models_of(sorted@)[k - 1] == sorted@[k - 1].model());
            }
            k -= 1;
        }
        proof {
            let before = models_of(sorted@);
            if k > 0 {
                assert(before[k - 1] == sorted@[k - 1].model());
                assert(keys@[k - 1]@ == lowercase_of(sorted@[k - 1].name@));
            }
            lemma_insert_sorted_at(before, child.model(), k as int);
            let upto = models_of(all).take(it.index() + 1);
            assert(upto.drop_last() =~= models_of(all).take(it.index() as int));
            assert(upto.last() == child.model());
        }
        let ghost before = sorted@;
        let ghost keys_before = keys@;
        let ghost names_before = names@;
        sorted.insert(k, child);
        keys.insert(k, key);
        names.insert(k, name);
        proof {
            assert(models_of(sorted@) =~= models_of(before).insert(k as int, child.model()));
            assert forall|j: int| 0 <= j < sorted.len() implies (#[trigger] keys@[j])@
                == lowercase_of(sorted@[j].name@) && names@[j]@ == sorted@[j].name@ by {
                if j < k {
                    assert(keys@[j] == keys_before[j]);
                    assert(sorted@[j] == before[j]);
                } else if j > k {
                    assert(keys@[j] == keys_before[j - 1]);
                    assert(sorted@[j] == before[j - 1]);
                    assert(names@[j] == names_before[j - 1]);
                }
            }
        }
    }
    proof {
        assert(models_of(all).take(all.len() as int) =~= models_of(all));
    }
    sorted
}


/// Puts the children of every node below `node` in order.
fn sort_below(node: &mut TreeNode)
    ensures
        final(node).model() == sort_tree(old(node).model()),
    decreases *old(node),
{
    let ghost before = *node;
    let n = node.children.len();
    let mut i: usize = 0;
    while i < n
        invariant
            i <= n,
            n == node.children.len(),
            n == before.children.len(),
            before == *old(node),
            node.name == before.name,
            node.full_path == before.full_path,
            node.is_directory == before.is_directory,
            node.file_diff == before.file_diff,
            node.file_count == before.file_count,
            node.added_lines == before.added_lines,
            node.removed_lines == before.removed_lines,
            forall|j: int|
                0 <= j < i ==> (#[trigger] node.children@[j]).model() == sort_tree(
                    before.children@[j].model(),
                ),
            forall|j: int| i <= j < n ==> #[trigger] node.children@[j] == before.children@[j],
        decreases n - i,
    {
        let ghost children_before = node.children@;
        proof {
            assert(node.children@[i as int] == before.children@[i as int]);
            assert(decreases_to!(before => before.children@[i as int]));
        }
        sort_below(&mut node.children[i]);
        proof {
            assert forall|j: int| 0 <= j < i + 1 implies (#[trigger] node.children@[j]).model()
                == sort_tree(before.children@[j].model()) by {
                if j < i {
                    assert(node.children@[j] == children_before[j]);
                }
            }
            assert forall|j: int| i + 1 <= j < n implies #[trigger] node.children@[j]
                == before.children@[j] by {
                assert(node.children@[j] == children_before[j]);
            }
        }
        i += 1;
    }
    let mut children: Vec<TreeNode> = Vec::new();
    core::mem::swap(&mut node.children, &mut children);
    let sorted = sort_children(children);
    node.children = sorted;
    proof {
        lemma_model_children(*node);
        lemma_model_children(before);
        assert(models_of(children@) =~= sort_each(before.model().children));
    }
}

// ---------------------------------------------------------------------
// Aggregated statistics
// ---------------------------------------------------------------------

/// Numbers of files, of added lines and of removed lines.
pub struct Totals {
    pub files: nat,
    pub added: nat,
    pub removed: nat,
}

impl Totals {
    /// No file.
    pub open spec fn zero() -> Totals {
        Totals { files: 0, added: 0, removed: 0 }
    }

    /// The sum, number by number.
    pub open spec fn plus(self, other: Totals) -> Totals {
        Totals {
            files: self.files + other.files,
            added: self.added + other.added,
            removed: self.removed + other.removed,
        }
    }

    /// Whether every number fits in a `usize`.
    pub open spec fn fits(self) -> bool {
        self.files <= usize::MAX && self.added <= usize::MAX && self.removed <= usize::MAX
    }

    /// Whether every number is at most the corresponding number of
    /// `other`.
    pub open spec fn at_most(self, other: Totals) -> bool {
        self.files <= other.files && self.added <= other.added && self.removed <= other.removed
    }
}

/// The numbers that a node stores.
pub open spec fn stored_totals(node: TreeNodeView) -> Totals {
    Totals { files: node.file_count, added: node.added_lines, removed: node.removed_lines }
}

/// The totals over the files at or below a node: a file counts what it
/// stores, a directory the sum over its children.
pub open spec fn file_totals(node: TreeNodeView) -> Totals
    decreases node,
{
    if !node.is_directory {
        stored_totals(node)
    } else {
        list_totals(node.children)
    }
}

/// The sum of the totals of the given nodes.
pub open spec fn list_totals(nodes: Seq<TreeNodeView>) -> Totals
    decreases nodes,
{
    if nodes.len() == 0 {
        Totals::zero()
    } else {
        list_totals(nodes.drop_last()).plus(file_totals(nodes.last()))
    }
}

/// The tree with, in every directory, the totals over the files below it.
pub open spec fn aggregate(node: TreeNodeView) -> TreeNodeView
    decreases node,
{
    if !node.is_directory {
        node
    } else {
        TreeNodeView {
            children: aggregate_each(node.children),
            file_count: file_totals(node).files,
            added_lines: file_totals(node).added,
            removed_lines: file_totals(node).removed,
            ..node
        }
    }
}

/// The given trees, each with the totals in every directory.
pub open spec fn aggregate_each(nodes: Seq<TreeNodeView>) -> Seq<TreeNodeView>
    decreases nodes,
{
    Seq::new(
        nodes.len(),
        |i: int|
            if 0 <= i < nodes.len() {
                aggregate(nodes[i])
            } else {
                arbitrary()
            },
    )
}

/// Whether every directory at or below the node stores the totals over
/// the files below it.
pub open spec fn is_aggregated(node: TreeNodeView) -> bool
    decreases node,
{
    node.is_directory ==> {
        &&& stored_totals(node) == file_totals(node)
        &&& forall|i: int|
            0 <= i < node.children.len() ==> is_aggregated(#[trigger] node.children[i])
    }
}

/// The totals of the first nodes of a list are at most the totals of the
/// list, and so are the totals of each of its nodes.
pub proof fn lemma_list_totals_monotonic(nodes: Seq<TreeNodeView>, k: int)
    requires
        0 <= k <= nodes.len(),
    ensures
        list_totals(nodes.take(k)).at_most(list_totals(nodes)),
        k < nodes.len() ==> list_totals(nodes.take(k)).plus(file_totals(nodes[k])).at_most(
            list_totals(nodes),
        ),
    decreases nodes.len() - k,
{
    if k == nodes.len() {
        assert(nodes.take(k) =~= nodes);
    } else {
        lemma_list_totals_monotonic(nodes, k + 1);
        assert(nodes.take(k + 1).drop_last() =~= nodes.take(k));
        assert(nodes.take(k + 1).last() == nodes[k]);
    }
}

/// Aggregating changes no file's numbers, so it changes no totals.
pub proof fn lemma_aggregate_keeps_totals(node: TreeNodeView)
    ensures
        file_totals(aggregate(node)) == file_totals(node),
        aggregate(node).is_directory == node.is_directory,
        aggregate(node).name == node.name,
        aggregate(node).full_path == node.full_path,
        aggregate(node).file_diff == node.file_diff,
        aggregate(node).children.len() == node.children.len(),
    decreases node, 1nat,
{
    if node.is_directory {
        lemma_aggregate_list_keeps_totals(node.children, node.children.len() as int);
        assert(aggregate(node).children.take(node.children.len() as int) =~= aggregate(
            node,
        ).children);
        assert(node.children.take(node.children.len() as int) =~= node.children);
    }
}

/// Aggregating the nodes of a list changes no totals of the list.
pub proof fn lemma_aggregate_list_keeps_totals(nodes: Seq<TreeNodeView>, k: int)
    requires
        0 <= k <= nodes.len(),
    ensures
        list_totals(aggregate_each(nodes).take(k)) == list_totals(nodes.take(k)),
    decreases nodes, 0nat, k,
{
    let mapped = aggregate_each(nodes);
    if k > 0 {
        lemma_aggregate_list_keeps_totals(nodes, k - 1);
        lemma_aggregate_keeps_totals(nodes[k - 1]);
        assert(mapped.take(k).drop_last() =~= mapped.take(k - 1));
        assert(nodes.take(k).drop_last() =~= nodes.take(k - 1));
        assert(mapped.take(k).last() == aggregate(nodes[k - 1]));
        assert(nodes.take(k).last() == nodes[k - 1]);
    }
}

/// After aggregation every directory stores the totals over its files.
pub proof fn lemma_aggregate_is_aggregated(node: TreeNodeView)
    ensures
        is_aggregated(aggregate(node)),
    decreases node,
{
    if node.is_directory {
        let result = aggregate(node);
        lemma_aggregate_keeps_totals(node);
        assert forall|i: int| 0 <= i < result.children.len() implies is_aggregated(
            #[trigger] result.children[i],
        ) by {
            lemma_aggregate_is_aggregated(node.children[i]);
        }
    }
}


/// Stores in every directory below `node` the totals over its files, and
/// returns the totals of `node`.
fn aggregate_below(node: &mut TreeNode) -> (totals: (usize, usize, usize))
    requires
        file_totals(old(node).model()).fits(),
    ensures
        final(node).model() == aggregate(old(node).model()),
        totals.0 == file_totals(old(node).model()).files,
        totals.1 == file_totals(old(node).model()).added,
        totals.2 == file_totals(old(node).model()).removed,
    decreases *old(node),
{
    if !node.is_directory {
        return (node.file_count, node.added_lines, node.removed_lines);
    }
    let ghost before = *node;
    let ghost kids = models_of(before.children@);
    proof {
        lemma_model_children(before);
    }
    let n = node.children.len();
    let mut total_files: usize = 0;
    let mut total_added: usize = 0;
    let mut total_removed: usize = 0;
    let mut i: usize = 0;
    while i < n
        invariant
            i <= n,
            n == node.children.len(),
            n == before.children.len(),
            before == *old(node),
            kids == models_of(before.children@),
            before.model().children == kids,
            before.is_directory,
            file_totals(before.model()).fits(),
            node.name == before.name,
            node.full_path == before.full_path,
            node.is_directory == before.is_directory,
            node.file_diff == before.file_diff,
            forall|j: int|
                0 <= j < i ==> (#[trigger] node.children@[j]).model() == aggregate(
                    before.children@[j].model(),
                ),
            forall|j: int| i <= j < n ==> #[trigger] node.children@[j] == before.children@[j],
            total_files == list_totals(kids.take(i as int)).files,
            total_added == list_totals(kids.take(i as int)).added,
            total_removed == list_totals(kids.take(i as int)).removed,
        decreases n - i,
    {
        let ghost children_before = node.children@;
        proof {
            assert(node.children@[i as int] == before.children@[i as int]);
            assert(decreases_to!(before => before.children@[i as int]));
            lemma_list_totals_monotonic(kids, i as int);
            assert(kids[i as int] == before.children@[i as int].model());
            assert(kids.take(i + 1).drop_last() =~= kids.take(i as int));
            assert(kids.take(i + 1).last() == kids[i as int]);
        }
        let (files, added, removed) = aggregate_below(&mut node.children[i]);
        proof {
            assert forall|j: int| 0 <= j < i + 1 implies (#[trigger] node.children@[j]).model()
                == aggregate(before.children@[j].model()) by {
                if j < i {
                    assert(node.children@[j] == children_before[j]);
                }
            }
            assert forall|j: int| i + 1 <= j < n implies #[trigger] node.children@[j]
                == before.children@[j] by {
                assert(node.children@[j] == children_before[j]);
            }
        }
        total_files += files;
        total_added += added;
        total_removed += removed;
        i += 1;
    }
    node.file_count = total_files;
    node.added_lines = total_added;
    node.removed_lines = total_removed;
    proof {
        assert(kids.take(n as int) =~= kids);
        lemma_model_children(*node);
        assert(node.model().children =~= aggregate_each(kids));
    }
    (total_files, total_added, total_removed)
}

/// The totals over the files at or below `node`, where they fit in
/// `usize`.
fn totals_below(node: &TreeNode) -> (r: Option<(usize, usize, usize)>)
    ensures
        match r {
            Some(t) => {
                &&& file_totals(node.model()).fits()
                &&& t.0 == file_totals(node.model()).files
                &&& t.1 == file_totals(node.model()).added
                &&& t.2 == file_totals(node.model()).removed
            },
            None => !file_totals(node.model()).fits(),
        },
    decreases node,
{
    if !node.is_directory {
        return Some((node.file_count, node.added_lines, node.removed_lines));
    }
    let ghost kids = models_of(node.children@);
    proof {
        lemma_model_children(*node);
    }
    let mut files: usize = 0;
    let mut added: usize = 0;
    let mut removed: usize = 0;
    let mut i: usize = 0;
    while i < node.children.len()
        invariant
            i <= node.children.len(),
            kids == models_of(node.children@),
            node.model().children == kids,
            node.is_directory,
            files == list_totals(kids.take(i as int)).files,
            added == list_totals(kids.take(i as int)).added,
            removed == list_totals(kids.take(i as int)).removed,
        decreases node.children.len() - i,
    {
        proof {
            assert(decreases_to!(node => node.children@[i as int]));
            lemma_list_totals_monotonic(kids, i as int);
            assert(kids[i as int] == node.children@[i as int].model());
            assert(kids.take(i + 1).drop_last() =~= kids.take(i as int));
            assert(kids.take(i + 1).last() == kids[i as int]);
        }
        match totals_below(&node.children[i]) {
            Some(t) => {
                if t.0 > usize::MAX - files || t.1 > usize::MAX - added || t.2 > usize::MAX
                    - removed {
                    return None;
                }
                files += t.0;
                added += t.1;
                removed += t.2;
            },
            None => {
                return None;
            },
        }
        i += 1;
    }
    proof {
        assert(kids.take(node.children@.len() as int) =~= kids);
    }
    Some((files, added, removed))
}

// ---------------------------------------------------------------------
// Flattening
// ---------------------------------------------------------------------

/// The row of a node. `flags` holds, for each ancestor of the node,
/// outermost first, whether that ancestor was the last of its siblings.
pub open spec fn row_of(
    node: TreeNodeView,
    is_last: bool,
    flags: Seq<bool>,
    collapsed: Set<Seq<char>>,
) -> FileTreeItemView {
    FileTreeItemView {
        name: node.name,
        full_path: node.full_path,
        is_directory: node.is_directory,
        depth: flags.len(),
        file_diff: node.file_diff,
        is_last_child: is_last,
        parent_is_last: flags,
        is_expanded: !collapsed.contains(node.full_path),
        dir_file_count: node.file_count,
        dir_added_lines: node.added_lines,
        dir_removed_lines: node.removed_lines,
    }
}

/// The rows of a node and of what is shown below it, in depth-first
/// order: the node's own row, then, unless its path is collapsed, the rows
/// of its children.
pub open spec fn flatten_node(
    node: TreeNodeView,
    is_last: bool,
    flags: Seq<bool>,
    collapsed: Set<Seq<char>>,
) -> Seq<FileTreeItemView>
    decreases node,
{
    seq![row_of(node, is_last, flags, collapsed)] + if collapsed.contains(node.full_path) {
        Seq::empty()
    } else {
        flatten_list(node.children, node.children.len() as int, flags.push(is_last), collapsed)
    }
}

/// The rows of the first `upto` of the given children and of what is
/// shown below them.
pub open spec fn flatten_list(
    children: Seq<TreeNodeView>,
    upto: int,
    flags: Seq<bool>,
    collapsed: Set<Seq<char>>,
) -> Seq<FileTreeItemView>
    decreases children, upto,
{
    if upto <= 0 || upto > children.len() {
        Seq::empty()
    } else {
        flatten_list(children, upto - 1, flags, collapsed) + flatten_node(
            children[upto - 1],
            upto == children.len(),
            flags,
            collapsed,
        )
    }
}

/// The views of a list of rows.
pub open spec fn rows_view(rows: Seq<FileTreeItem>) -> Seq<FileTreeItemView> {
    Seq::new(rows.len(), |i: int| rows[i]@)
}

/// A copy of a list of flags.
fn copy_flags(flags: &Vec<bool>) -> (out: Vec<bool>)
    ensures
        out@ == flags@,
{
    let mut out: Vec<bool> = Vec::new();
    let mut i: usize = 0;
    while i < flags.len()
        invariant
            i <= flags.len(),
            out@ == flags@.take(i as int),
        decreases flags.len() - i,
    {
        out.push(flags[i]);
        i += 1;
    }
    out
}

/// Appends the rows of `node` and of what is shown below it.
fn flatten_into(
    node: &TreeNode,
    is_last: bool,
    parent_is_last: &mut Vec<bool>,
    result: &mut Vec<FileTreeItem>,
    collapsed_dirs: &PathSet,
)
    ensures
        rows_view(final(result)@) == rows_view(old(result)@) + flatten_node(
            node.model(),
            is_last,
            old(parent_is_last)@,
            collapsed_dirs@,
        ),
        final(parent_is_last)@ == old(parent_is_last)@,
    decreases node, 1nat,
{
    let is_collapsed = collapsed_dirs.contains(&node.full_path);
    let row = FileTreeItem {
        name: node.name.clone(),
        full_path: node.full_path.clone(),
        is_directory: node.is_directory,
        depth: parent_is_last.len(),
        file_diff: clone_opt_diff(&node.file_diff),
        is_last_child: is_last,
        parent_is_last: copy_flags(parent_is_last),
        is_expanded: !is_collapsed,
        dir_file_count: node.file_count,
        dir_added_lines: node.added_lines,
        dir_removed_lines: node.removed_lines,
    };
    let ghost rows_before = rows_view(result@);
    let ghost flags = parent_is_last@;
    let ghost own = row_of(node.model(), is_last, flags, collapsed_dirs@);
    proof {
        assert(row@ == own);
    }
    result.push(row);
    proof {
        assert(rows_view(result@) =~= rows_before.push(own));
    }
    if !is_collapsed {
        parent_is_last.push(is_last);
        flatten_children_into(node, parent_is_last, result, collapsed_dirs);
        let _ = parent_is_last.pop();
        proof {
            let below = flatten_list(
                node.model().children,
                node.model().children.len() as int,
                flags.push(is_last),
                collapsed_dirs@,
            );
            assert(rows_before.push(own) + below =~= rows_before + (seq![own] + below));
            assert(parent_is_last@ =~= flags);
        }
    } else {
        proof {
            assert(rows_before.push(own) =~= rows_before + (seq![own] + Seq::<
                FileTreeItemView,
            >::empty()));
        }
    }
}

/// Appends the rows of the children of `node` and of what is shown below
/// them.
fn flatten_children_into(
    node: &TreeNode,
    parent_is_last: &mut Vec<bool>,
    result: &mut Vec<FileTreeItem>,
    collapsed_dirs: &PathSet,
)
    ensures
        rows_view(final(result)@) == rows_view(old(result)@) + flatten_list(
            node.model().children,
            node.model().children.len() as int,
            old(parent_is_last)@,
            collapsed_dirs@,
        ),
        final(parent_is_last)@ == old(parent_is_last)@,
    decreases node, 0nat,
{
    let ghost rows_before = rows_view(result@);
    let ghost kids = node.model().children;
    let ghost flags = parent_is_last@;
    proof {
        lemma_model_children(*node);
        assert(rows_before + flatten_list(kids, 0, flags, collapsed_dirs@) =~= rows_before);
    }
    let n = node.children.len();
    let mut i: usize = 0;
    while i < n
        invariant
            i <= n,
            n == node.children.len(),
            kids == models_of(node.children@),
            kids == node.model().children,
            parent_is_last@ == flags,
            rows_view(result@) == rows_before + flatten_list(
                kids,
                i as int,
                flags,
                collapsed_dirs@,
            ),
        decreases n - i,
    {
        let ghost so_far = flatten_list(kids, i as int, flags, collapsed_dirs@);
        let ghost next = flatten_node(kids[i as int], i + 1 == n, flags, collapsed_dirs@);
        proof {
            assert(kids[i as int] == node.children@[i as int].model());
            assert(decreases_to!(node => node.children@[i as int]));
        }
        flatten_into(&node.children[i], i + 1 == n, parent_is_last, result, collapsed_dirs);
        proof {
            assert((rows_before + so_far) + next =~= rows_before + (so_far + next));
        }
        i += 1;
    }
}


// ---------------------------------------------------------------------
// The whole construction
// ---------------------------------------------------------------------

/// The tree after the first `upto` records were added, in their order.
pub open spec fn insert_all(records: Seq<FileDiffView>, upto: int) -> TreeNodeView
    decreases upto,
{
    if upto <= 0 || upto > records.len() {
        empty_root()
    } else {
        insert_file(
            insert_all(records, upto - 1),
            split_path(records[upto - 1].filename),
            0,
            records[upto - 1].filename,
            Some(records[upto - 1]),
        )
    }
}

/// The tree of the records: the records put in order and added one by
/// one, the children of every directory put in order, and the totals
/// stored in the directories.
pub open spec fn spec_tree(records: Seq<FileDiffView>) -> TreeNodeView {
    aggregate(sort_tree(insert_all(grouped(records), records.len() as int)))
}

/// The rows of the records: the tree flattened, its root left out, with
/// nothing shown below a directory whose path is in `collapsed`.
pub open spec fn spec_rows(
    records: Seq<FileDiffView>,
    collapsed: Set<Seq<char>>,
) -> Seq<FileTreeItemView> {
    let root = spec_tree(records);
    flatten_list(root.children, root.children.len() as int, Seq::empty(), collapsed)
}

/// What one record counts: one file, with its changed lines.
pub open spec fn record_stats(file: Option<FileDiffView>) -> Totals {
    match file {
        Some(f) => Totals { files: 1, added: f.added_lines, removed: f.removed_lines },
        None => Totals { files: 1, added: 0, removed: 0 },
    }
}

/// The totals over the first `upto` records.
pub open spec fn record_totals(records: Seq<FileDiffView>, upto: int) -> Totals
    decreases upto,
{
    if upto <= 0 || upto > records.len() {
        Totals::zero()
    } else {
        record_totals(records, upto - 1).plus(record_stats(Some(records[upto - 1])))
    }
}

/// Whether the totals over all the records fit in `usize`.
pub open spec fn totals_fit(records: Seq<FileDiffView>) -> bool {
    record_totals(records, records.len() as int).fits()
}

/// An index that `directory_index` finds is that of a directory of the
/// given name, and no directory of that name stands before it.
pub proof fn lemma_directory_index(children: Seq<TreeNodeView>, name: Seq<char>, from: int)
    requires
        0 <= from <= children.len(),
    ensures
        from <= directory_index(children, name, from) <= children.len(),
        directory_index(children, name, from) < children.len() ==> {
            let at = directory_index(children, name, from);
            children[at].is_directory && children[at].name == name
        },
        forall|j: int|
            from <= j < directory_index(children, name, from) ==> !((
            #[trigger] children[j]).is_directory && children[j].name == name),
    decreases children.len() - from,
{
    if from < children.len() && !(children[from].is_directory && children[from].name == name) {
        lemma_directory_index(children, name, from + 1);
    }
}

/// The totals of a list with one node more.
pub proof fn lemma_list_totals_push(nodes: Seq<TreeNodeView>, x: TreeNodeView)
    ensures
        list_totals(nodes.push(x)) == list_totals(nodes).plus(file_totals(x)),
{
    assert(nodes.push(x).drop_last() =~= nodes);
}

/// The totals of a list with one node replaced.
pub proof fn lemma_list_totals_update(nodes: Seq<TreeNodeView>, at: int, x: TreeNodeView)
    requires
        0 <= at < nodes.len(),
    ensures
        list_totals(nodes.update(at, x)).plus(file_totals(nodes[at])) == list_totals(nodes).plus(
            file_totals(x),
        ),
    decreases nodes.len(),
{
    let changed = nodes.update(at, x);
    if at == nodes.len() - 1 {
        assert(changed.drop_last() =~= nodes.drop_last());
    } else {
        lemma_list_totals_update(nodes.drop_last(), at, x);
        assert(changed.drop_last() =~= nodes.drop_last().update(at, x));
        assert(nodes.drop_last()[at] == nodes[at]);
    }
}

/// Adding a file to a directory adds what the file counts to its totals.
pub proof fn lemma_insert_file_totals(
    node: TreeNodeView,
    parts: Seq<Seq<char>>,
    at: int,
    path: Seq<char>,
    file: Option<FileDiffView>,
)
    requires
        node.is_directory,
        0 <= at < parts.len(),
    ensures
        insert_file(node, parts, at, path, file).is_directory,
        file_totals(insert_file(node, parts, at, path, file)) == file_totals(node).plus(
            record_stats(file),
        ),
    decreases parts.len() - at,
{
    if at == parts.len() - 1 {
        lemma_list_totals_push(node.children, file_node(parts[at], path, file));
    } else {
        let at_child = directory_index(node.children, parts[at], 0);
        lemma_directory_index(node.children, parts[at], 0);
        if at_child < node.children.len() {
            let child = node.children[at_child];
            lemma_insert_file_totals(child, parts, at + 1, path, file);
            lemma_list_totals_update(
                node.children,
                at_child,
                insert_file(child, parts, at + 1, path, file),
            );
        } else {
            let dir = directory_node(parts[at], join_path(parts.take(at + 1)));
            lemma_insert_file_totals(dir, parts, at + 1, path, file);
            lemma_list_totals_push(node.children, insert_file(dir, parts, at + 1, path, file));
        }
    }
}

/// The tree of the first records has their totals.
pub proof fn lemma_insert_all_totals(records: Seq<FileDiffView>, upto: int)
    requires
        0 <= upto <= records.len(),
    ensures
        insert_all(records, upto).is_directory,
        file_totals(insert_all(records, upto)) == record_totals(records, upto),
    decreases upto,
{
    if upto > 0 {
        lemma_insert_all_totals(records, upto - 1);
        let parts = split_path(records[upto - 1].filename);
        lemma_split_path_nonempty(records[upto - 1].filename);
        lemma_insert_file_totals(
            insert_all(records, upto - 1),
            parts,
            0,
            records[upto - 1].filename,
            Some(records[upto - 1]),
        );
    }
}

/// Putting a node into a sorted list adds its totals.
pub proof fn lemma_insert_sorted_totals(sorted: Seq<TreeNodeView>, x: TreeNodeView)
    ensures
        list_totals(insert_sorted(sorted, x)) == list_totals(sorted).plus(file_totals(x)),
        insert_sorted(sorted, x).len() == sorted.len() + 1,
    decreases sorted.len(),
{
    if sorted.len() == 0 {
        lemma_list_totals_push(sorted, x);
        assert(seq![x] =~= sorted.push(x));
    } else if sibling_before(x, sorted.last()) {
        lemma_insert_sorted_totals(sorted.drop_last(), x);
        lemma_list_totals_push(insert_sorted(sorted.drop_last(), x), sorted.last());
    } else {
        lemma_list_totals_push(sorted, x);
    }
}

/// Sorting a list changes neither its totals nor its length.
pub proof fn lemma_sort_siblings_totals(nodes: Seq<TreeNodeView>)
    ensures
        list_totals(sort_siblings(nodes)) == list_totals(nodes),
        sort_siblings(nodes).len() == nodes.len(),
    decreases nodes.len(),
{
    if nodes.len() > 0 {
        lemma_sort_siblings_totals(nodes.drop_last());
        lemma_insert_sorted_totals(sort_siblings(nodes.drop_last()), nodes.last());
    }
}

/// Sorting a tree changes no totals.
pub proof fn lemma_sort_tree_totals(node: TreeNodeView)
    ensures
        file_totals(sort_tree(node)) == file_totals(node),
        sort_tree(node).is_directory == node.is_directory,
    decreases node, 1nat,
{
    if node.is_directory {
        lemma_sort_each_totals(node.children, node.children.len() as int);
        lemma_sort_siblings_totals(sort_each(node.children));
        assert(sort_each(node.children).take(node.children.len() as int) =~= sort_each(
            node.children,
        ));
        assert(node.children.take(node.children.len() as int) =~= node.children);
    }
}

/// Sorting each tree of a list changes no totals of the list.
pub proof fn lemma_sort_each_totals(nodes: Seq<TreeNodeView>, k: int)
    requires
        0 <= k <= nodes.len(),
    ensures
        list_totals(sort_each(nodes).take(k)) == list_totals(nodes.take(k)),
    decreases nodes, 0nat, k,
{
    let mapped = sort_each(nodes);
    if k > 0 {
        lemma_sort_each_totals(nodes, k - 1);
        lemma_sort_tree_totals(nodes[k - 1]);
        assert(mapped.take(k).drop_last() =~= mapped.take(k - 1));
        assert(nodes.take(k).drop_last() =~= nodes.take(k - 1));
        assert(mapped.take(k).last() == sort_tree(nodes[k - 1]));
        assert(nodes.take(k).last() == nodes[k - 1]);
    }
}

/// The totals over the first records do not depend on the records that
/// follow.
pub proof fn lemma_record_totals_prefix(a: Seq<FileDiffView>, b: Seq<FileDiffView>, upto: int)
    requires
        0 <= upto <= a.len(),
        upto <= b.len(),
        a.take(upto) == b.take(upto),
    ensures
        record_totals(a, upto) == record_totals(b, upto),
    decreases upto,
{
    if upto > 0 {
        assert(a.take(upto - 1) =~= a.take(upto).take(upto - 1));
        assert(b.take(upto - 1) =~= b.take(upto).take(upto - 1));
        lemma_record_totals_prefix(a, b, upto - 1);
        assert(a[upto - 1] == a.take(upto)[upto - 1]);
        assert(b[upto - 1] == b.take(upto)[upto - 1]);
    }
}

/// Putting a record into a list adds what it counts to the totals.
pub proof fn lemma_record_totals_insert(s: Seq<FileDiffView>, k: int, x: FileDiffView)
    requires
        0 <= k <= s.len(),
    ensures
        record_totals(s.insert(k, x), s.len() as int + 1) == record_totals(s, s.len() as int).plus(
            record_stats(Some(x)),
        ),
    decreases s.len() - k,
{
    let t = s.insert(k, x);
    let n = s.len() as int;
    if k == n {
        assert(t =~= s.push(x));
        assert(t.take(n) =~= s.take(n));
        lemma_record_totals_prefix(t, s, n);
    } else {
        let front = s.drop_last();
        lemma_record_totals_insert(front, k, x);
        let tf = front.insert(k, x);
        assert(t =~= tf.push(s.last()));
        assert(t.take(n) =~= tf.take(n));
        lemma_record_totals_prefix(t, tf, n);
        assert(s.take(n - 1) =~= front.take(n - 1));
        lemma_record_totals_prefix(s, front, n - 1);
    }
}

/// Putting records in order changes no totals.
pub proof fn lemma_grouped_totals(records: Seq<FileDiffView>)
    ensures
        record_totals(grouped(records), records.len() as int) == record_totals(
            records,
            records.len() as int,
        ),
        grouped(records).len() == records.len(),
    decreases records.len(),
{
    if records.len() > 0 {
        let front = records.drop_last();
        let n = records.len() as int;
        lemma_grouped_totals(front);
        lemma_grouped(front);
        let prev = grouped(front);
        lemma_insert_record_is_insert(prev, records.last());
        lemma_record_totals_insert(prev, record_position(prev, records.last()), records.last());
        assert(records.take(n - 1) =~= front.take(n - 1));
        lemma_record_totals_prefix(records, front, n - 1);
    }
}

/// Records whose statistics are those of their contents count no more
/// changed lines than their contents have characters.
pub proof fn lemma_totals_bounded(records: Seq<FileDiffView>, upto: int)
    requires
        0 <= upto <= records.len(),
        forall|i: int| 0 <= i < records.len() ==> stats_match_content(#[trigger] records[i]),
    ensures
        record_totals(records, upto).files == upto,
        record_totals(records, upto).added <= content_length(records.take(upto)),
        record_totals(records, upto).removed <= content_length(records.take(upto)),
    decreases upto,
{
    if upto > 0 {
        lemma_totals_bounded(records, upto - 1);
        lemma_stats_bound(records[upto - 1]);
        assert(records.take(upto).drop_last() =~= records.take(upto - 1));
        assert(records.take(upto).last() == records[upto - 1]);
    }
}

/// The totals over the records of a text that is not longer than `usize`
/// can tell fit in `usize`.
pub proof fn lemma_parsed_totals_fit(text: Seq<char>)
    requires
        text.len() <= usize::MAX,
    ensures
        totals_fit(spec_parse(text)),
{
    let records = spec_parse(text);
    lemma_parse_stat_accounting(text);
    lemma_parse_content_length(text);
    lemma_parse_len(text);
    lemma_totals_bounded(records, records.len() as int);
    assert(records.take(records.len() as int) =~= records);
}

/// The root of the tree of any records stores the totals over all of
/// them.
pub proof fn lemma_root_totals(records: Seq<FileDiffView>)
    ensures
        stored_totals(spec_tree(records)) == record_totals(records, records.len() as int),
{
    let ordered = grouped(records);
    lemma_grouped_totals(records);
    let inserted = insert_all(ordered, ordered.len() as int);
    lemma_insert_all_totals(ordered, ordered.len() as int);
    lemma_sort_tree_totals(inserted);
}

/// Builds display rows from file records.
pub struct FileTreeBuilder;

impl FileTreeBuilder {
    /// Whether the totals over all the records fit in `usize`, as the
    /// builder needs.
    pub fn stats_fit(file_diffs: &[FileDiff]) -> (r: bool)
        ensures
            r == totals_fit(records_view(file_diffs@)),
    {
        let ghost records = records_view(file_diffs@);
        let mut added: usize = 0;
        let mut removed: usize = 0;
        let mut i: usize = 0;
        while i < file_diffs.len()
            invariant
                i <= file_diffs.len(),
                records == records_view(file_diffs@),
                record_totals(records, i as int) == (Totals {
                    files: i as nat,
                    added: added as nat,
                    removed: removed as nat,
                }),
            decreases file_diffs.len() - i,
        {
            proof {
                assert(records[i as int] == file_diffs@[i as int]@);
            }
            let a = file_diffs[i].added_lines;
            let r = file_diffs[i].removed_lines;
            if a > usize::MAX - added || r > usize::MAX - removed {
                proof {
                    lemma_record_totals_monotonic(records, i + 1, records.len() as int);
                }
                return false;
            }
            added += a;
            removed += r;
            i += 1;
        }
        true
    }

    /// The rows of the whole tree, nothing collapsed.
    pub fn build_file_tree(file_diffs: &[FileDiff]) -> (rows: Vec<FileTreeItem>)
        requires
            totals_fit(records_view(file_diffs@)),
        ensures
            rows_view(rows@) == spec_rows(records_view(file_diffs@), Set::empty()),
    {
        let collapsed = PathSet::new();
        Self::build_file_tree_with_collapsed(file_diffs, &collapsed)
    }

    /// The rows of the tree of the records. A directory whose path is in
    /// `collapsed_dirs` has its own row, with its totals, and nothing shown
    /// below it.
    pub fn build_file_tree_with_collapsed(
        file_diffs: &[FileDiff],
        collapsed_dirs: &PathSet,
    ) -> (rows: Vec<FileTreeItem>)
        requires
            totals_fit(records_view(file_diffs@)),
        ensures
            rows_view(rows@) == spec_rows(records_view(file_diffs@), collapsed_dirs@),
    {
        let root = Self::build_tree_structure(file_diffs);
        let mut rows: Vec<FileTreeItem> = Vec::new();
        let mut flags: Vec<bool> = Vec::new();
        flatten_children_into(&root, &mut flags, &mut rows, collapsed_dirs);
        proof {
            let below = flatten_list(
                root.model().children,
                root.model().children.len() as int,
                Seq::empty(),
                collapsed_dirs@,
            );
            assert(Seq::<FileTreeItemView>::empty() + below =~= below);
            assert(rows_view(Seq::<FileTreeItem>::empty()) =~= Seq::<FileTreeItemView>::empty());
        }
        rows
    }

    /// The tree of the records: the records are put in order and added
    /// one by one, the children of every directory are put in order, and
    /// the totals are stored in the directories.
    pub fn build_tree_structure(file_diffs: &[FileDiff]) -> (root: TreeNode)
        requires
            totals_fit(records_view(file_diffs@)),
        ensures
            root.model() == spec_tree(records_view(file_diffs@)),
            is_aggregated(root.model()),
    {
        let ordered = group_records(file_diffs);
        proof {
            lemma_grouped_totals(records_view(file_diffs@));
        }
        let file_diffs = ordered.as_slice();
        let ghost records = records_view(file_diffs@);
        let mut root = TreeNode {
            name: String::new(),
            full_path: String::new(),
            is_directory: true,
            file_diff: None,
            children: Vec::new(),
            file_count: 0,
            added_lines: 0,
            removed_lines: 0,
        };
        proof {
            lemma_model_children(root);
            assert(root.model().children =~= Seq::<TreeNodeView>::empty());
        }
        let mut i: usize = 0;
        while i < file_diffs.len()
            invariant
                i <= file_diffs.len(),
                records == records_view(file_diffs@),
                root.model() == insert_all(records, i as int),
            decreases file_diffs.len() - i,
        {
            proof {
                assert(records[i as int] == file_diffs@[i as int]@);
            }
            let file_diff = file_diffs[i].clone();
            Self::add_file_to_tree(&mut root, file_diffs[i].filename.as_str(), Some(file_diff));
            i += 1;
        }
        Self::sort_tree_children(&mut root);
        proof {
            let inserted = insert_all(records, records.len() as int);
            lemma_insert_all_totals(records, records.len() as int);
            lemma_sort_tree_totals(inserted);
            lemma_aggregate_is_aggregated(sort_tree(inserted));
        }
        let _ = Self::calculate_directory_stats(&mut root);
        root
    }

    /// Adds a file to the tree below `root`: the directories along `path`
    /// are entered, made where they are missing, and the file becomes the
    /// last child of the innermost one.
    pub fn add_file_to_tree(root: &mut TreeNode, path: &str, file_diff: Option<FileDiff>)
        ensures
            final(root).model() == insert_file(
                old(root).model(),
                split_path(path@),
                0,
                path@,
                opt_diff_view(file_diff),
            ),
    {
        let chars = chars_of(path);
        let parts = split_components(chars.as_slice());
        let prefix: Vec<char> = Vec::new();
        proof {
            assert(views_of(parts@).take(0) =~= Seq::<Seq<char>>::empty());
        }
        insert_below(root, &parts, 0, &prefix, path, file_diff);
    }

    /// Puts the children of every node at or below `node` in order:
    /// directories before files, then by lower-case name, then by name.
    pub fn sort_tree_children(node: &mut TreeNode)
        ensures
            final(node).model() == sort_tree(old(node).model()),
    {
        sort_below(node);
    }

    /// The totals over the files at or below `node`: files, added lines,
    /// removed lines; none where they do not fit in `usize`.
    pub fn checked_directory_stats(node: &TreeNode) -> (r: Option<(usize, usize, usize)>)
        ensures
            match r {
                Some(t) => {
                    &&& file_totals(node.model()).fits()
                    &&& t.0 == file_totals(node.model()).files
                    &&& t.1 == file_totals(node.model()).added
                    &&& t.2 == file_totals(node.model()).removed
                },
                None => !file_totals(node.model()).fits(),
            },
    {
        totals_below(node)
    }

    /// Stores in every directory at or below `node` the totals over the
    /// files below it, and returns the totals of `node`: files, added
    /// lines, removed lines.
    pub fn calculate_directory_stats(node: &mut TreeNode) -> (totals: (usize, usize, usize))
        requires
            file_totals(old(node).model()).fits(),
        ensures
            final(node).model() == aggregate(old(node).model()),
            is_aggregated(final(node).model()),
            totals.0 == file_totals(old(node).model()).files,
            totals.1 == file_totals(old(node).model()).added,
            totals.2 == file_totals(old(node).model()).removed,
    {
        proof {
            lemma_aggregate_is_aggregated(node.model());
        }
        aggregate_below(node)
    }

    /// Appends to `result` the row of `node` and, unless its path is in
    /// `collapsed_dirs`, the rows of what stands below it, depth first.
    /// `parent_is_last` holds, for each ancestor of `node`, whether it was
    /// the last of its siblings; `is_last` says the same of `node`.
    pub fn flatten_tree_with_collapsed(
        node: &TreeNode,
        is_last: bool,
        parent_is_last: &mut Vec<bool>,
        result: &mut Vec<FileTreeItem>,
        collapsed_dirs: &PathSet,
    )
        ensures
            rows_view(final(result)@) == rows_view(old(result)@) + flatten_node(
                node.model(),
                is_last,
                old(parent_is_last)@,
                collapsed_dirs@,
            ),
            final(parent_is_last)@ == old(parent_is_last)@,
    {
        flatten_into(node, is_last, parent_is_last, result, collapsed_dirs);
    }
}

/// The totals over the first records are at most the totals over more of
/// them.
pub proof fn lemma_record_totals_monotonic(records: Seq<FileDiffView>, fewer: int, more: int)
    requires
        0 <= fewer <= more <= records.len(),
    ensures
        record_totals(records, fewer).at_most(record_totals(records, more)),
    decreases more - fewer,
{
    if fewer < more {
        lemma_record_totals_monotonic(records, fewer, more - 1);
    }
}

} // verus!
