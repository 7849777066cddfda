//! Paths as sequences of components separated by `/`.

use crate::text::{copy_range, lemma_views_of_push, views_of};
use vstd::prelude::*;

verus! {

/// Number of characters before the first `/` of `s`, or the length of `s`
/// where it has none.
pub open spec fn first_part_len(s: Seq<char>) -> int
    decreases s.len(),
{
    if s.len() == 0 || s[0] == '/' {
        0
    } else {
        1 + first_part_len(s.drop_first())
    }
}

/// The components of a path: the texts between its `/`s. There is always
/// one at least, and a component may be empty.
pub open spec fn split_path(s: Seq<char>) -> Seq<Seq<char>>
    decreases s.len(),
{
    let n = first_part_len(s);
    if 0 <= n < s.len() {
        seq![s.take(n)] + split_path(s.skip(n + 1))
    } else {
        seq![s]
    }
}

/// The components joined by `/`.
pub open spec fn join_path(parts: Seq<Seq<char>>) -> Seq<char>
    decreases parts.len(),
{
    if parts.len() == 0 {
        Seq::empty()
    } else if parts.len() == 1 {
        parts[0]
    } else {
        join_path(parts.drop_last()) + seq!['/'] + parts.last()
    }
}

/// Whether `path` lies strictly below the directory `dir`: the components
/// of `dir` are the first components of `path`, which has more.
pub open spec fn is_strictly_below(path: Seq<char>, dir: Seq<char>) -> bool {
    is_strict_prefix_of_parts(split_path(dir), split_path(path))
}

/// A run of `k` characters other than `/` that a `/` or the end of the
/// text follows is the first component.
pub proof fn lemma_first_part_len(s: Seq<char>, k: int)
    requires
        0 <= k <= s.len(),
        forall|j: int| 0 <= j < k ==> s[j] != '/',
        k == s.len() || s[k] == '/',
    ensures
        first_part_len(s) == k,
    decreases k,
{
    if k > 0 {
        let t = s.drop_first();
        assert forall|j: int| 0 <= j < k - 1 implies t[j] != '/' by {
            assert(t[j] == s[j + 1]);
        }
        lemma_first_part_len(t, k - 1);
    }
}

/// A path has one component at least.
pub proof fn lemma_split_path_nonempty(s: Seq<char>)
    ensures
        split_path(s).len() >= 1,
    decreases s.len(),
{
    let n = first_part_len(s);
    if 0 <= n < s.len() {
        lemma_split_path_nonempty(s.skip(n + 1));
    }
}

/// Whether a text holds no `/`.
pub open spec fn is_component(s: Seq<char>) -> bool {
    forall|i: int| 0 <= i < s.len() ==> s[i] != '/'
}

/// Whether every text of the list holds no `/`.
pub open spec fn are_components(parts: Seq<Seq<char>>) -> bool {
    forall|i: int| 0 <= i < parts.len() ==> is_component(#[trigger] parts[i])
}

/// Whether `d` is a beginning of `p`, which may be all of it.
pub open spec fn is_prefix_of_parts(d: Seq<Seq<char>>, p: Seq<Seq<char>>) -> bool {
    d.len() <= p.len() && p.take(d.len() as int) == d
}

/// Whether `d` is a beginning of `p` and shorter than it.
pub open spec fn is_strict_prefix_of_parts(d: Seq<Seq<char>>, p: Seq<Seq<char>>) -> bool {
    d.len() < p.len() && p.take(d.len() as int) == d
}

/// The first component ends before the first `/`, if there is one.
pub proof fn lemma_first_part(s: Seq<char>)
    ensures
        0 <= first_part_len(s) <= s.len(),
        is_component(s.take(first_part_len(s))),
        first_part_len(s) < s.len() ==> s[first_part_len(s)] == '/',
    decreases s.len(),
{
    if s.len() == 0 || s[0] == '/' {
    } else {
        let t = s.drop_first();
        lemma_first_part(t);
        let n = first_part_len(t);
        let head = s.take(n + 1);
        assert forall|i: int| 0 <= i < head.len() implies head[i] != '/' by {
            if i > 0 {
                assert(head[i] == t.take(n)[i - 1]);
            }
        }
        if n < t.len() {
            assert(s[n + 1] == t[n]);
        }
    }
}

/// No component of a path holds a `/`.
pub proof fn lemma_split_path_components(s: Seq<char>)
    ensures
        are_components(split_path(s)),
    decreases s.len(),
{
    let n = first_part_len(s);
    lemma_first_part(s);
    if 0 <= n < s.len() {
        lemma_split_path_components(s.skip(n + 1));
        let rest = split_path(s.skip(n + 1));
        assert forall|i: int| 0 <= i < split_path(s).len() implies is_component(
            #[trigger] split_path(s)[i],
        ) by {
            if i > 0 {
                assert(split_path(s)[i] == rest[i - 1]);
            }
        }
    } else {
        assert(s.take(n) =~= s);
    }
}

/// Joining a first component and more components puts a `/` between them.
pub proof fn lemma_join_path_front(first: Seq<char>, rest: Seq<Seq<char>>)
    requires
        rest.len() >= 1,
    ensures
        join_path(seq![first] + rest) == first + seq!['/'] + join_path(rest),
    decreases rest.len(),
{
    let all = seq![first] + rest;
    assert(all.last() == rest.last());
    if rest.len() == 1 {
        assert(all.drop_last() =~= seq![first]);
        assert(join_path(all.drop_last()) == first);
    } else {
        assert(all.drop_last() =~= seq![first] + rest.drop_last());
        lemma_join_path_front(first, rest.drop_last());
        assert((first + seq!['/'] + join_path(rest.drop_last())) + seq!['/'] + rest.last()
            =~= first + seq!['/'] + (join_path(rest.drop_last()) + seq!['/'] + rest.last()));
    }
}

/// Joining the components of a path gives the path back.
pub proof fn lemma_join_split(s: Seq<char>)
    ensures
        join_path(split_path(s)) == s,
    decreases s.len(),
{
    let n = first_part_len(s);
    lemma_first_part(s);
    if 0 <= n < s.len() {
        let rest = s.skip(n + 1);
        lemma_join_split(rest);
        lemma_split_path_nonempty(rest);
        lemma_join_path_front(s.take(n), split_path(rest));
        assert(s.take(n) + seq!['/'] + rest =~= s);
    }
}

/// Paths with the same components are the same path.
pub proof fn lemma_split_path_injective(a: Seq<char>, b: Seq<char>)
    requires
        split_path(a) == split_path(b),
    ensures
        a == b,
{
    lemma_join_split(a);
    lemma_join_split(b);
}

/// Splitting what components were joined to gives the components back.
pub proof fn lemma_split_join(parts: Seq<Seq<char>>)
    requires
        parts.len() >= 1,
        are_components(parts),
    ensures
        split_path(join_path(parts)) == parts,
    decreases parts.len(),
{
    let first = parts[0];
    assert(is_component(first));
    if parts.len() == 1 {
        lemma_first_part_len(first, first.len() as int);
    } else {
        let rest = parts.drop_first();
        assert(parts =~= seq![first] + rest);
        lemma_join_path_front(first, rest);
        let joined = join_path(parts);
        assert(joined == first + seq!['/'] + join_path(rest));
        assert forall|j: int| 0 <= j < first.len() implies joined[j] != '/' by {
            assert(joined[j] == first[j]);
        }
        assert(joined[first.len() as int] == '/');
        lemma_first_part_len(joined, first.len() as int);
        assert(joined.take(first.len() as int) =~= first);
        assert(joined.skip(first.len() as int + 1) =~= join_path(rest));
        assert forall|i: int| 0 <= i < rest.len() implies is_component(#[trigger] rest[i]) by {
            assert(rest[i] == parts[i + 1]);
        }
        lemma_split_join(rest);
    }
}

/// The components of two paths joined by a `/` are the components of the
/// one followed by those of the other.
pub proof fn lemma_split_concat(a: Seq<char>, b: Seq<char>)
    ensures
        split_path(a + seq!['/'] + b) == split_path(a) + split_path(b),
    decreases a.len(),
{
    let whole = a + seq!['/'] + b;
    let n = first_part_len(a);
    lemma_first_part(a);
    assert forall|j: int| 0 <= j < n implies whole[j] != '/' by {
        assert(whole[j] == a.take(n)[j]);
    }
    if n < a.len() {
        assert(whole[n] == a[n]);
        lemma_first_part_len(whole, n);
        assert(whole.take(n) =~= a.take(n));
        assert(whole.skip(n + 1) =~= a.skip(n + 1) + seq!['/'] + b);
        lemma_split_concat(a.skip(n + 1), b);
        assert(seq![a.take(n)] + (split_path(a.skip(n + 1)) + split_path(b)) =~= (seq![a.take(n)]
            + split_path(a.skip(n + 1))) + split_path(b));
    } else {
        assert(whole[n] == '/');
        lemma_first_part_len(whole, n);
        assert(whole.take(n) =~= a);
        assert(whole.skip(n + 1) =~= b);
    }
}

/// Components joined are the first of them joined, a `/`, and the others
/// joined.
pub proof fn lemma_join_concat(p: Seq<Seq<char>>, q: Seq<Seq<char>>)
    requires
        p.len() >= 1,
        q.len() >= 1,
    ensures
        join_path(p + q) == join_path(p) + seq!['/'] + join_path(q),
    decreases q.len(),
{
    let all = p + q;
    assert(all.last() == q.last());
    if q.len() == 1 {
        assert(all.drop_last() =~= p);
    } else {
        assert(all.drop_last() =~= p + q.drop_last());
        lemma_join_concat(p, q.drop_last());
        assert((join_path(p) + seq!['/'] + join_path(q.drop_last())) + seq!['/'] + q.last()
            =~= join_path(p) + seq!['/'] + (join_path(q.drop_last()) + seq!['/'] + q.last()));
    }
}

/// A path lies strictly below a directory exactly where it begins with the
/// path of the directory and a `/`.
pub proof fn lemma_strictly_below_is_prefix(path: Seq<char>, dir: Seq<char>)
    ensures
        is_strictly_below(path, dir) <==> (dir + seq!['/']).is_prefix_of(path),
{
    let lead = dir + seq!['/'];
    let p = split_path(path);
    let d = split_path(dir);
    lemma_split_path_nonempty(dir);
    if lead.is_prefix_of(path) {
        let rest = path.skip(lead.len() as int);
        assert(path =~= path.subrange(0, lead.len() as int) + rest);
        assert(path =~= dir + seq!['/'] + rest);
        lemma_split_concat(dir, rest);
        lemma_split_path_nonempty(rest);
        assert((d + split_path(rest)).take(d.len() as int) =~= d);
    }
    if is_strict_prefix_of_parts(d, p) {
        let q = p.skip(d.len() as int);
        assert(p =~= p.take(d.len() as int) + q);
        lemma_join_concat(d, q);
        lemma_join_split(path);
        lemma_join_split(dir);
        let tail = join_path(q);
        assert(path == dir + seq!['/'] + tail);
        assert(path.subrange(0, lead.len() as int) =~= lead);
    }
}

/// Splits a path into its components.
pub fn split_components(path: &[char]) -> (out: Vec<Vec<char>>)
    ensures
        views_of(out@) == split_path(path@),
        out.len() >= 1,
{
    let mut out: Vec<Vec<char>> = Vec::new();
    let mut pos: usize = 0;
    proof {
        assert(path@.skip(0) =~= path@);
        assert(views_of(out@) + split_path(path@) =~= split_path(path@));
    }
    loop
        invariant
            pos <= path.len(),
            split_path(path@) == views_of(out@) + split_path(path@.skip(pos as int)),
        decreases path.len() - pos,
    {
        let mut end: usize = pos;
        while end < path.len() && path[end] != '/'
            invariant
                pos <= end <= path.len(),
                forall|j: int| pos <= j < end ==> path@[j] != '/',
            decreases path.len() - end,
        {
            end += 1;
        }
        let part = copy_range(path, pos, end);
        proof {
            let rest = path@.skip(pos as int);
            assert forall|j: int| 0 <= j < end - pos implies rest[j] != '/' by {
                assert(rest[j] == path@[pos + j]);
            }
            if end < path.len() {
                assert(rest[end - pos] == path@[end as int]);
            }
            lemma_first_part_len(rest, end - pos);
            lemma_views_of_push(out@, part);
            if end < path.len() {
                assert(rest.take(end - pos) =~= part@);
                assert(rest.skip(end - pos + 1) =~= path@.skip(end + 1));
                assert(views_of(out@) + (seq![part@] + split_path(path@.skip(end + 1)))
                    =~= views_of(out@).push(part@) + split_path(path@.skip(end + 1)));
            } else {
                assert(rest =~= part@);
                assert(views_of(out@) + seq![part@] =~= views_of(out@).push(part@));
            }
        }
        out.push(part);
        if end >= path.len() {
            proof {
                lemma_split_path_nonempty(path@);
            }
            return out;
        }
        pos = end + 1;
    }
}


/// Index of the last `c` in `s`, or -1 where there is none.
pub open spec fn last_index_of(s: Seq<char>, c: char) -> int
    decreases s.len(),
{
    if s.len() == 0 {
        -1
    } else if s.last() == c {
        s.len() - 1
    } else {
        last_index_of(s.drop_last(), c)
    }
}

/// The last component of a path: what follows its last `/`, or all of it.
pub open spec fn base_name(path: Seq<char>) -> Seq<char> {
    path.skip(last_index_of(path, '/') + 1)
}

/// The extension of a file name: what follows the last `.` of its last
/// component. There is none where that component is empty or `..`, has no
/// `.`, or has its only `.` at its start.
pub open spec fn extension(name: Seq<char>) -> Option<Seq<char>> {
    let base = base_name(name);
    let dot = last_index_of(base, '.');
    if base.len() == 0 || base == seq!['.', '.'] || dot <= 0 {
        None
    } else {
        Some(base.skip(dot + 1))
    }
}

/// Finds the last `c` in `s`.
pub fn find_last(s: &[char], c: char) -> (r: Option<usize>)
    ensures
        match r {
            Some(i) => i == last_index_of(s@, c) && i < s.len(),
            None => last_index_of(s@, c) == -1,
        },
{
    let mut i: usize = s.len();
    proof {
        assert(s@.take(s@.len() as int) =~= s@);
    }
    while i > 0
        invariant
            i <= s.len(),
            last_index_of(s@, c) == last_index_of(s@.take(i as int), c),
        decreases i,
    {
        proof {
            assert(s@.take(i as int).drop_last() =~= s@.take(i - 1));
            assert(s@.take(i as int).last() == s@[i - 1]);
        }
        if s[i - 1] == c {
            return Some(i - 1);
        }
        i -= 1;
    }
    None
}

/// The last component of a path.
pub fn base_name_of(path: &[char]) -> (out: Vec<char>)
    ensures
        out@ == base_name(path@),
{
    let start: usize = match find_last(path, '/') {
        Some(i) => i + 1,
        None => 0,
    };
    let out = copy_range(path, start, path.len());
    proof {
        assert(path@.skip(start as int) =~= path@.subrange(start as int, path@.len() as int));
    }
    out
}

/// The extension of a file name.
pub fn extension_of(name: &[char]) -> (r: Option<Vec<char>>)
    ensures
        match r {
            Some(e) => extension(name@) == Some(e@),
            None => extension(name@) is None,
        },
{
    let base = base_name_of(name);
    if base.len() == 0 {
        return None;
    }
    if base.len() == 2 && base[0] == '.' && base[1] == '.' {
        proof {
            assert(base@ =~= seq!['.', '.']);
        }
        return None;
    }
    proof {
        if base@ == seq!['.', '.'] {
            assert(base@.len() == 2);
            assert(base@[0] == '.' && base@[1] == '.');
        }
    }
    match find_last(base.as_slice(), '.') {
        Some(dot) => {
            if dot == 0 {
                None
            } else {
                let ext = copy_range(base.as_slice(), dot + 1, base.len());
                proof {
                    assert(base@.skip(dot + 1) =~= base@.subrange(dot + 1, base@.len() as int));
                }
                Some(ext)
            }
        },
        None => None,
    }
}

} // verus!
