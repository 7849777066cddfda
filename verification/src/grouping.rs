//! The order in which records go into the tree: the order in which their
//! rows stand in the tree, so that the rows do not depend on the order in
//! which the records came.

use crate::parser::{records_view, FileDiff, FileDiffView};
use crate::paths::{
    lemma_split_path_injective, lemma_split_path_nonempty, split_components, split_path,
};
use crate::text::{
    chars_of, lemma_lex_less_asymmetric, lemma_lex_less_connected, lemma_lex_less_irreflexive,
    lemma_lex_less_transitive, lowercase_chars, lowercase_of, string_of, views_of,
};
use crate::tree::{precedes, sibling_precedes};
use vstd::prelude::*;

verus! {

// ---------------------------------------------------------------------
// The order of paths
// ---------------------------------------------------------------------

/// Whether an entry of a directory stands before another: directories
/// before files, then by lower-case name, then by name.
pub open spec fn entry_before(
    a_is_directory: bool,
    a: Seq<char>,
    b_is_directory: bool,
    b: Seq<char>,
) -> bool {
    precedes(a_is_directory, lowercase_of(a), a, b_is_directory, lowercase_of(b), b)
}

/// Whether the path with components `p` stands before the path with
/// components `q`, which has the same components before index `i`: at the
/// first component in which they differ, as name or as directory against
/// file, the entry of `p` stands before that of `q`. Every component but
/// the last is a directory.
pub open spec fn parts_before(p: Seq<Seq<char>>, q: Seq<Seq<char>>, i: int) -> bool
    decreases p.len() - i,
{
    if i < 0 || i >= p.len() || i >= q.len() {
        false
    } else {
        let p_is_directory = i < p.len() - 1;
        let q_is_directory = i < q.len() - 1;
        if p_is_directory == q_is_directory && p[i] == q[i] {
            p_is_directory && parts_before(p, q, i + 1)
        } else {
            entry_before(p_is_directory, p[i], q_is_directory, q[i])
        }
    }
}

/// Whether a path stands before another in the tree.
pub open spec fn path_before(a: Seq<char>, b: Seq<char>) -> bool {
    parts_before(split_path(a), split_path(b), 0)
}

/// Whether a record goes into the tree before another.
pub open spec fn record_before(a: FileDiffView, b: FileDiffView) -> bool {
    path_before(a.filename, b.filename)
}

/// Of two entries, one at most stands before the other.
pub proof fn lemma_entry_before_asymmetric(ad: bool, a: Seq<char>, bd: bool, b: Seq<char>)
    requires
        entry_before(ad, a, bd, b),
    ensures
        !entry_before(bd, b, ad, a),
        !(ad == bd && a == b),
{
    if ad == bd {
        if lowercase_of(a) != lowercase_of(b) {
            lemma_lex_less_asymmetric(lowercase_of(a), lowercase_of(b));
        } else {
            lemma_lex_less_asymmetric(a, b);
            lemma_lex_less_irreflexive(a);
        }
    }
}

/// An entry that stands before a second, which stands before a third,
/// stands before the third.
pub proof fn lemma_entry_before_transitive(
    ad: bool,
    a: Seq<char>,
    bd: bool,
    b: Seq<char>,
    cd: bool,
    c: Seq<char>,
)
    requires
        entry_before(ad, a, bd, b),
        entry_before(bd, b, cd, c),
    ensures
        entry_before(ad, a, cd, c),
{
    let (ka, kb, kc) = (lowercase_of(a), lowercase_of(b), lowercase_of(c));
    if ad == bd && bd == cd {
        if ka != kb && kb != kc {
            lemma_lex_less_transitive(ka, kb, kc);
            lemma_lex_less_irreflexive(ka);
        } else if ka == kb && kb == kc {
            lemma_lex_less_transitive(a, b, c);
        }
    }
}

/// Of two different entries, one stands before the other.
pub proof fn lemma_entry_before_connected(ad: bool, a: Seq<char>, bd: bool, b: Seq<char>)
    ensures
        entry_before(ad, a, bd, b) || entry_before(bd, b, ad, a) || (ad == bd && a == b),
{
    if ad == bd {
        if lowercase_of(a) != lowercase_of(b) {
            lemma_lex_less_connected(lowercase_of(a), lowercase_of(b));
        } else {
            lemma_lex_less_connected(a, b);
        }
    }
}

/// Of two paths, one at most stands before the other.
pub proof fn lemma_parts_before_asymmetric(p: Seq<Seq<char>>, q: Seq<Seq<char>>, i: int)
    requires
        parts_before(p, q, i),
    ensures
        !parts_before(q, p, i),
    decreases p.len() - i,
{
    let pd = i < p.len() - 1;
    let qd = i < q.len() - 1;
    if pd == qd && p[i] == q[i] {
        lemma_parts_before_asymmetric(p, q, i + 1);
    } else {
        lemma_entry_before_asymmetric(pd, p[i], qd, q[i]);
    }
}

/// A path that stands before a second, which stands before a third,
/// stands before the third.
pub proof fn lemma_parts_before_transitive(
    p: Seq<Seq<char>>,
    q: Seq<Seq<char>>,
    r: Seq<Seq<char>>,
    i: int,
)
    requires
        parts_before(p, q, i),
        parts_before(q, r, i),
    ensures
        parts_before(p, r, i),
    decreases p.len() - i,
{
    let pd = i < p.len() - 1;
    let qd = i < q.len() - 1;
    let rd = i < r.len() - 1;
    let pq_same = pd == qd && p[i] == q[i];
    let qr_same = qd == rd && q[i] == r[i];
    if pq_same && qr_same {
        lemma_parts_before_transitive(p, q, r, i + 1);
    } else if pq_same {
    } else if qr_same {
    } else {
        lemma_entry_before_transitive(pd, p[i], qd, q[i], rd, r[i]);
        lemma_entry_before_asymmetric(pd, p[i], qd, q[i]);
        if pd == rd && p[i] == r[i] {
            assert(entry_before(qd, q[i], pd, p[i]));
        }
    }
}

/// Of two different paths with the same components before index `i`, one
/// stands before the other.
pub proof fn lemma_parts_before_connected(p: Seq<Seq<char>>, q: Seq<Seq<char>>, i: int)
    requires
        0 <= i < p.len(),
        i < q.len(),
        p.take(i) == q.take(i),
    ensures
        parts_before(p, q, i) || parts_before(q, p, i) || p == q,
    decreases p.len() - i,
{
    let pd = i < p.len() - 1;
    let qd = i < q.len() - 1;
    if pd == qd && p[i] == q[i] {
        assert(p.take(i + 1) =~= p.take(i).push(p[i]));
        assert(q.take(i + 1) =~= q.take(i).push(q[i]));
        if pd {
            lemma_parts_before_connected(p, q, i + 1);
        } else {
            assert(p.take(i + 1) =~= p);
            assert(q.take(i + 1) =~= q);
        }
    } else {
        lemma_entry_before_connected(pd, p[i], qd, q[i]);
    }
}

/// Of two records, one at most goes before the other.
pub proof fn lemma_record_before_asymmetric(a: FileDiffView, b: FileDiffView)
    requires
        record_before(a, b),
    ensures
        !record_before(b, a),
{
    lemma_parts_before_asymmetric(split_path(a.filename), split_path(b.filename), 0);
}

/// A record that goes before a second, which goes before a third, goes
/// before the third.
pub proof fn lemma_record_before_transitive(a: FileDiffView, b: FileDiffView, c: FileDiffView)
    requires
        record_before(a, b),
        record_before(b, c),
    ensures
        record_before(a, c),
{
    lemma_parts_before_transitive(
        split_path(a.filename),
        split_path(b.filename),
        split_path(c.filename),
        0,
    );
}

/// Of two records with different paths, one goes before the other.
pub proof fn lemma_record_before_connected(a: FileDiffView, b: FileDiffView)
    ensures
        record_before(a, b) || record_before(b, a) || a.filename == b.filename,
{
    let p = split_path(a.filename);
    let q = split_path(b.filename);
    lemma_split_path_nonempty(a.filename);
    lemma_split_path_nonempty(b.filename);
    assert(p.take(0) =~= q.take(0));
    lemma_parts_before_connected(p, q, 0);
    if p == q {
        lemma_split_path_injective(a.filename, b.filename);
    }
}

/// A record that does not go before a second, which does not go before a
/// third, does not go before the third.
pub proof fn lemma_record_not_before(x: FileDiffView, b: FileDiffView, a: FileDiffView)
    requires
        !record_before(x, b),
        !record_before(b, a),
    ensures
        !record_before(x, a),
{
    if record_before(x, a) {
        lemma_record_before_connected(a, b);
        if record_before(a, b) {
            lemma_record_before_transitive(x, a, b);
        }
    }
}

// ---------------------------------------------------------------------
// Records in order
// ---------------------------------------------------------------------

/// `sorted` with `x` put in behind the last record that `x` does not go
/// before.
pub open spec fn insert_record(sorted: Seq<FileDiffView>, x: FileDiffView) -> Seq<FileDiffView>
    decreases sorted.len(),
{
    if sorted.len() == 0 {
        seq![x]
    } else if record_before(x, sorted.last()) {
        insert_record(sorted.drop_last(), x).push(sorted.last())
    } else {
        sorted.push(x)
    }
}

/// The records in the order in which they go into the tree: files that
/// share a directory stand together, in a directory its subdirectories go
/// before its files, and names are ordered without regard to case, then
/// by code point. Records with the same path keep the order in which they
/// came.
pub open spec fn grouped(records: Seq<FileDiffView>) -> Seq<FileDiffView>
    decreases records.len(),
{
    if records.len() == 0 {
        records
    } else {
        insert_record(grouped(records.drop_last()), records.last())
    }
}

/// Whether no record goes before a record that comes earlier in the list.
pub open spec fn records_in_order(records: Seq<FileDiffView>) -> bool {
    forall|i: int, j: int|
        0 <= i < j < records.len() ==> !record_before(#[trigger] records[j], #[trigger] records[i])
}

/// Whether no two records have the same path.
pub open spec fn distinct_paths(records: Seq<FileDiffView>) -> bool {
    forall|i: int, j: int|
        0 <= i < j < records.len() ==> (#[trigger] records[i]).filename != (
        #[trigger] records[j]).filename
}

/// Where `x` goes into a list in order.
pub open spec fn record_position(sorted: Seq<FileDiffView>, x: FileDiffView) -> int
    decreases sorted.len(),
{
    if sorted.len() == 0 {
        0
    } else if record_before(x, sorted.last()) {
        record_position(sorted.drop_last(), x)
    } else {
        sorted.len() as int
    }
}

/// Putting a record into a list moves no other record.
pub proof fn lemma_insert_record_is_insert(sorted: Seq<FileDiffView>, x: FileDiffView)
    ensures
        0 <= record_position(sorted, x) <= sorted.len(),
        insert_record(sorted, x) == sorted.insert(record_position(sorted, x), x),
    decreases sorted.len(),
{
    if sorted.len() == 0 {
        assert(sorted.insert(0, x) =~= seq![x]);
    } else if record_before(x, sorted.last()) {
        let front = sorted.drop_last();
        lemma_insert_record_is_insert(front, x);
        let k = record_position(front, x);
        assert(front.insert(k, x).push(sorted.last()) =~= sorted.insert(k, x));
    } else {
        assert(sorted.insert(sorted.len() as int, x) =~= sorted.push(x));
    }
}

/// Where `x` goes into a list: in front of the run of records at the end
/// that it goes before.
pub proof fn lemma_insert_record_at(sorted: Seq<FileDiffView>, x: FileDiffView, k: int)
    requires
        0 <= k <= sorted.len(),
        forall|j: int| k <= j < sorted.len() ==> record_before(x, #[trigger] sorted[j]),
        k == 0 || !record_before(x, sorted[k - 1]),
    ensures
        insert_record(sorted, x) == sorted.insert(k, x),
    decreases sorted.len() - k,
{
    if sorted.len() == 0 {
        assert(sorted.insert(k, x) =~= seq![x]);
    } else if k == sorted.len() {
        assert(sorted.insert(k, x) =~= sorted.push(x));
    } else {
        let front = sorted.drop_last();
        assert forall|j: int| k <= j < front.len() implies record_before(
            x,
            #[trigger] front[j],
        ) by {
            assert(front[j] == sorted[j]);
        }
        if k > 0 {
            assert(front[k - 1] == sorted[k - 1]);
        }
        lemma_insert_record_at(front, x, k);
        assert(front.insert(k, x).push(sorted.last()) =~= sorted.insert(k, x));
    }
}

/// Putting a record into a list in order leaves the list in order.
pub proof fn lemma_insert_record_in_order(sorted: Seq<FileDiffView>, x: FileDiffView)
    requires
        records_in_order(sorted),
    ensures
        records_in_order(insert_record(sorted, x)),
    decreases sorted.len(),
{
    let result = insert_record(sorted, x);
    if sorted.len() == 0 {
    } else if record_before(x, sorted.last()) {
        let front = sorted.drop_last();
        let last = sorted.last();
        assert(records_in_order(front)) by {
            assert forall|i: int, j: int| 0 <= i < j < front.len() implies !record_before(
                #[trigger] front[j],
                #[trigger] front[i],
            ) by {
                assert(front[i] == sorted[i] && front[j] == sorted[j]);
            }
        }
        lemma_insert_record_in_order(front, x);
        lemma_insert_record_is_insert(front, x);
        let k = record_position(front, x);
        let inner = insert_record(front, x);
        lemma_record_before_asymmetric(x, last);
        assert forall|i: int, j: int| 0 <= i < j < result.len() implies !record_before(
            #[trigger] result[j],
            #[trigger] result[i],
        ) by {
            if j < inner.len() {
                assert(result[i] == inner[i] && result[j] == inner[j]);
            } else {
                assert(result[j] == last);
                assert(result[i] == inner[i]);
                if i < k {
                    assert(inner[i] == sorted[i]);
                } else if i > k {
                    assert(inner[i] == sorted[i - 1]);
                }
            }
        }
    } else {
        let last = sorted.last();
        assert forall|i: int, j: int| 0 <= i < j < result.len() implies !record_before(
            #[trigger] result[j],
            #[trigger] result[i],
        ) by {
            if j < sorted.len() {
                assert(result[i] == sorted[i] && result[j] == sorted[j]);
            } else {
                assert(result[j] == x);
                assert(result[i] == sorted[i]);
                if i < sorted.len() - 1 {
                    assert(!record_before(sorted[sorted.len() - 1], sorted[i]));
                    lemma_record_not_before(x, last, sorted[i]);
                }
            }
        }
    }
}

/// The records in order hold every record as often as it came, and none
/// goes before a record that comes earlier.
pub proof fn lemma_grouped(records: Seq<FileDiffView>)
    ensures
        records_in_order(grouped(records)),
        grouped(records).to_multiset() == records.to_multiset(),
        grouped(records).len() == records.len(),
    decreases records.len(),
{
    broadcast use vstd::seq_lib::to_multiset_build, vstd::seq_lib::to_multiset_insert;

    if records.len() > 0 {
        let front = records.drop_last();
        let x = records.last();
        lemma_grouped(front);
        let prev = grouped(front);
        lemma_insert_record_in_order(prev, x);
        lemma_insert_record_is_insert(prev, x);
        let k = record_position(prev, x);
        assert(records =~= front.push(x));
        assert(prev.insert(k, x).to_multiset() =~= prev.to_multiset().insert(x));
        assert(front.push(x).to_multiset() =~= front.to_multiset().insert(x));
    }
}


/// Two lists in order that hold the same records, no two of them with the
/// same path, are the same list.
pub proof fn lemma_in_order_unique(a: Seq<FileDiffView>, b: Seq<FileDiffView>)
    requires
        records_in_order(a),
        records_in_order(b),
        a.to_multiset() == b.to_multiset(),
        distinct_paths(a),
    ensures
        a == b,
    decreases a.len(),
{
    a.to_multiset_ensures();
    b.to_multiset_ensures();
    assert(a.len() == b.len());
    if a.len() == 0 {
        assert(a =~= b);
    } else {
        let n = a.len() as int;
        let la = a[n - 1];
        let lb = b[n - 1];
        assert(a.contains(la));
        assert(b.contains(lb));
        assert(a.to_multiset().count(la) > 0);
        assert(b.to_multiset().count(lb) > 0);
        assert(b.to_multiset().count(la) > 0);
        assert(a.to_multiset().count(lb) > 0);
        assert(b.contains(la));
        assert(a.contains(lb));
        let j = choose|j: int| 0 <= j < b.len() && b[j] == la;
        let i = choose|i: int| 0 <= i < a.len() && a[i] == lb;
        if j < n - 1 && i < n - 1 {
            assert(!record_before(b[n - 1], b[j]));
            assert(!record_before(a[n - 1], a[i]));
            lemma_record_before_connected(la, lb);
            assert(a[i].filename != a[n - 1].filename);
        }
        assert(la == lb);
        let fa = a.drop_last();
        let fb = b.drop_last();
        assert(fa =~= a.remove(n - 1));
        assert(fb =~= b.remove(n - 1));
        assert(fa.to_multiset() =~= fb.to_multiset());
        assert forall|x: int, y: int| 0 <= x < y < fa.len() implies !record_before(
            #[trigger] fa[y],
            #[trigger] fa[x],
        ) by {
            assert(fa[x] == a[x] && fa[y] == a[y]);
        }
        assert forall|x: int, y: int| 0 <= x < y < fb.len() implies !record_before(
            #[trigger] fb[y],
            #[trigger] fb[x],
        ) by {
            assert(fb[x] == b[x] && fb[y] == b[y]);
        }
        assert forall|x: int, y: int| 0 <= x < y < fa.len() implies (#[trigger] fa[x]).filename != (
        #[trigger] fa[y]).filename by {
            assert(fa[x] == a[x] && fa[y] == a[y]);
        }
        lemma_in_order_unique(fa, fb);
        assert(a =~= fa.push(la));
        assert(b =~= fb.push(lb));
    }
}

/// Records of which no two have the same path still have different paths
/// when they are put in order.
pub proof fn lemma_grouped_distinct(records: Seq<FileDiffView>)
    requires
        distinct_paths(records),
    ensures
        distinct_paths(grouped(records)),
{
    let g = grouped(records);
    lemma_grouped(records);
    g.to_multiset_ensures();
    records.to_multiset_ensures();
    assert(records.no_duplicates()) by {
        assert forall|i: int, j: int|
            0 <= i < records.len() && 0 <= j < records.len() && i != j implies records[i]
            != records[j] by {
            if i < j {
                assert(records[i].filename != records[j].filename);
            } else {
                assert(records[j].filename != records[i].filename);
            }
        }
    }
    records.lemma_multiset_has_no_duplicates();
    g.lemma_multiset_has_no_duplicates_conv();
    assert forall|i: int, j: int| 0 <= i < j < g.len() implies (#[trigger] g[i]).filename != (
    #[trigger] g[j]).filename by {
        assert(g[i] != g[j]);
        assert(g.contains(g[i]));
        assert(g.contains(g[j]));
        assert(g.to_multiset().count(g[i]) > 0);
        assert(g.to_multiset().count(g[j]) > 0);
        assert(records.to_multiset().count(g[i]) > 0);
        assert(records.to_multiset().count(g[j]) > 0);
        assert(records.contains(g[i]));
        assert(records.contains(g[j]));
        let x = choose|x: int| 0 <= x < records.len() && records[x] == g[i];
        let y = choose|y: int| 0 <= y < records.len() && records[y] == g[j];
        if x < y {
            assert(records[x].filename != records[y].filename);
        } else {
            assert(records[y].filename != records[x].filename);
        }
    }
}

/// Independence of order: records of which no two have the same path go
/// into the tree in the same order, in whatever order they came.
pub proof fn lemma_grouped_independent_of_order(a: Seq<FileDiffView>, b: Seq<FileDiffView>)
    requires
        a.to_multiset() == b.to_multiset(),
        distinct_paths(a),
    ensures
        grouped(a) == grouped(b),
{
    lemma_grouped(a);
    lemma_grouped(b);
    lemma_grouped_distinct(a);
    lemma_in_order_unique(grouped(a), grouped(b));
}

/// Records in order stay as they are when they are put in order.
pub proof fn lemma_grouped_of_ordered(records: Seq<FileDiffView>)
    requires
        records_in_order(records),
    ensures
        grouped(records) == records,
    decreases records.len(),
{
    if records.len() > 0 {
        let front = records.drop_last();
        assert forall|i: int, j: int| 0 <= i < j < front.len() implies !record_before(
            #[trigger] front[j],
            #[trigger] front[i],
        ) by {
            assert(front[i] == records[i] && front[j] == records[j]);
        }
        lemma_grouped_of_ordered(front);
        let x = records.last();
        if front.len() > 0 {
            assert(front.last() == records[records.len() - 2]);
            assert(!record_before(records[records.len() - 1], records[records.len() - 2]));
        }
        assert(records =~= front.push(x));
    }
}

// ---------------------------------------------------------------------
// Putting records in order
// ---------------------------------------------------------------------

/// The components of a path with their lower-case forms.
pub struct PathKey {
    pub parts: Vec<Vec<char>>,
    pub keys: Vec<Vec<char>>,
}

impl PathKey {
    /// Whether the key is that of the path: it holds the components of the
    /// path and, for each, its lower-case form.
    pub open spec fn is_key_of(&self, path: Seq<char>) -> bool {
        &&& views_of(self.parts@) == split_path(path)
        &&& self.keys@.len() == self.parts@.len()
        &&& forall|j: int|
            0 <= j < self.parts@.len() ==> (#[trigger] self.keys@[j])@ == lowercase_of(
                self.parts@[j]@,
            )
    }

    /// The key of a path.
    pub fn new(path: &str) -> (key: PathKey)
        ensures
            key.is_key_of(path@),
    {
        let chars = chars_of(path);
        let parts = split_components(chars.as_slice());
        let mut keys: Vec<Vec<char>> = Vec::new();
        let mut i: usize = 0;
        while i < parts.len()
            invariant
                i <= parts.len(),
                keys.len() == i,
                forall|j: int|
                    0 <= j < i ==> (#[trigger] keys@[j])@ == lowercase_of(parts@[j]@),
            decreases parts.len() - i,
        {
            let part = string_of(parts[i].as_slice());
            keys.push(lowercase_chars(part.as_str()));
            i += 1;
        }
        PathKey { parts, keys }
    }
}

/// Whether the path of key `a` stands before the path of key `b`.
fn key_precedes(
    a: &PathKey,
    b: &PathKey,
    Ghost(pa): Ghost<Seq<char>>,
    Ghost(pb): Ghost<Seq<char>>,
) -> (r: bool)
    requires
        a.is_key_of(pa),
        b.is_key_of(pb),
    ensures
        r == path_before(pa, pb),
{
    let ghost p = split_path(pa);
    let ghost q = split_path(pb);
    proof {
        lemma_split_path_nonempty(pa);
        lemma_split_path_nonempty(pb);
    }
    let mut i: usize = 0;
    loop
        invariant
            a.is_key_of(pa),
            b.is_key_of(pb),
            p == split_path(pa),
            q == split_path(pb),
            i < p.len(),
            i < q.len(),
            path_before(pa, pb) == parts_before(p, q, i as int),
        decreases p.len() - i,
    {
        proof {
            assert(views_of(a.parts@).len() == a.parts@.len());
            assert(views_of(b.parts@).len() == b.parts@.len());
            assert(p[i as int] == a.parts@[i as int]@);
            assert(q[i as int] == b.parts@[i as int]@);
        }
        let a_len = a.parts.len();
        let b_len = b.parts.len();
        let a_is_directory = i + 1 < a_len;
        let b_is_directory = i + 1 < b_len;
        if a_is_directory == b_is_directory && crate::text::same_chars(
            a.parts[i].as_slice(),
            b.parts[i].as_slice(),
        ) {
            if !a_is_directory {
                return false;
            }
            i += 1;
        } else {
            return sibling_precedes(
                a_is_directory,
                a.keys[i].as_slice(),
                a.parts[i].as_slice(),
                b_is_directory,
                b.keys[i].as_slice(),
                b.parts[i].as_slice(),
            );
        }
    }
}

/// Puts records in the order in which they go into the tree.
pub fn group_records(file_diffs: &[FileDiff]) -> (sorted: Vec<FileDiff>)
    ensures
        records_view(sorted@) == grouped(records_view(file_diffs@)),
{
    let ghost all = records_view(file_diffs@);
    let mut sorted: Vec<FileDiff> = Vec::new();
    let mut keys: Vec<PathKey> = Vec::new();
    let mut i: usize = 0;
    proof {
        assert(all.take(0) =~= Seq::<FileDiffView>::empty());
        assert(records_view(sorted@) =~= Seq::<FileDiffView>::empty());
    }
    while i < file_diffs.len()
        invariant
            i <= file_diffs.len(),
            all == records_view(file_diffs@),
            keys.len() == sorted.len(),
            forall|j: int|
                0 <= j < sorted.len() ==> (#[trigger] keys@[j]).is_key_of(sorted@[j].filename@),
            records_view(sorted@) == grouped(all.take(i as int)),
        decreases file_diffs.len() - i,
    {
        let record = file_diffs[i].clone();
        let key = PathKey::new(record.filename.as_str());
        proof {
            assert(all[i as int] == file_diffs@[i as int]@);
            assert(all.take(i + 1).drop_last() =~= all.take(i as int));
            assert(all.take(i + 1).last() == record@);
        }
        let mut k: usize = sorted.len();
        while k > 0 && key_precedes(
            &key,
            &keys[k - 1],
            Ghost(record.filename@),
            Ghost(sorted@[k - 1].filename@),
        )
            invariant
                k <= sorted.len(),
                keys.len() == sorted.len(),
                key.is_key_of(record.filename@),
                forall|j: int|
                    0 <= j < sorted.len() ==> (#[trigger] keys@[j]).is_key_of(
                        sorted@[j].filename@,
                    ),
                forall|j: int|
                    k <= j < sorted.len() ==> record_before(
                        record@,
                        #[trigger] records_view(sorted@)[j],
                    ),
            decreases k,
        {
            proof {
                assert(records_view(sorted@)[k - 1] == sorted@[k - 1]@);
            }
            k -= 1;
        }
        proof {
            let before = records_view(sorted@);
            if k > 0 {
                assert(before[k - 1] == sorted@[k - 1]@);
            }
            lemma_insert_record_at(before, record@, k as int);
        }
        let ghost before = sorted@;
        let ghost keys_before = keys@;
        sorted.insert(k, record);
        keys.insert(k, key);
        proof {
            assert(records_view(sorted@) =~= records_view(before).insert(k as int, record@));
            assert forall|j: int| 0 <= j < sorted.len() implies (#[trigger] keys@[j]).is_key_of(
                sorted@[j].filename@,
            ) by {
                if j < k {
                    assert(keys@[j] == keys_before[j]);
                    assert(sorted@[j] == before[j]);
                } else if j > k {
                    assert(keys@[j] == keys_before[j - 1]);
                    assert(sorted@[j] == before[j - 1]);
                }
            }
        }
        i += 1;
    }
    proof {
        assert(all.take(all.len() as int) =~= all);
    }
    sorted
}

} // verus!
