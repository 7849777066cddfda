//! A set of paths, kept in insertion order.

use crate::text::strings_view;
use vstd::prelude::*;

verus! {

/// A set of paths. No path occurs twice in it.
pub struct PathSet {
    paths: Vec<String>,
}

impl View for PathSet {
    type V = Set<Seq<char>>;

    closed spec fn view(&self) -> Set<Seq<char>> {
        strings_view(self.paths@).to_set()
    }
}

impl PathSet {
    #[verifier::type_invariant]
    spec fn distinct(self) -> bool {
        strings_view(self.paths@).no_duplicates()
    }

    /// The empty set.
    pub fn new() -> (s: Self)
        ensures
            s@ == Set::<Seq<char>>::empty(),
    {
        let s = PathSet { paths: Vec::new() };
        assert(s@ =~= Set::<Seq<char>>::empty());
        s
    }

    /// Number of paths in the set.
    pub fn len(&self) -> (n: usize)
        ensures
            self@.finite(),
            n == self@.len(),
    {
        proof {
            use_type_invariant(self);
            strings_view(self.paths@).unique_seq_to_set();
        }
        self.paths.len()
    }

    /// Whether the set holds no path.
    pub fn is_empty(&self) -> (r: bool)
        ensures
            r == (self@ == Set::<Seq<char>>::empty()),
    {
        let r = self.paths.len() == 0;
        proof {
            if r {
                assert(self@ =~= Set::<Seq<char>>::empty());
            } else {
                assert(strings_view(self.paths@)[0] == self.paths@[0]@);
                assert(self@.contains(self.paths@[0]@));
            }
        }
        r
    }

    /// Where `path` stands in the list, if it is in the set.
    fn position(&self, path: &String) -> (r: Option<usize>)
        ensures
            match r {
                Some(i) => i < self.paths.len() && self.paths@[i as int]@ == path@,
                None => !self@.contains(path@),
            },
    {
        let mut i: usize = 0;
        while i < self.paths.len()
            invariant
                i <= self.paths.len(),
                forall|j: int| 0 <= j < i ==> self.paths@[j]@ != path@,
            decreases self.paths.len() - i,
        {
            if self.paths[i] == *path {
                return Some(i);
            }
            i += 1;
        }
        proof {
            let views = strings_view(self.paths@);
            assert forall|j: int| 0 <= j < views.len() implies views[j] != path@ by {
                assert(views[j] == self.paths@[j]@);
            }
        }
        None
    }

    /// Whether `path` is in the set.
    pub fn contains(&self, path: &String) -> (r: bool)
        ensures
            r == self@.contains(path@),
    {
        match self.position(path) {
            Some(i) => {
                proof {
                    assert(strings_view(self.paths@)[i as int] == path@);
                }
                true
            },
            None => false,
        }
    }

    /// Adds `path` to the set; returns whether it was new.
    pub fn insert(&mut self, path: String) -> (r: bool)
        ensures
            final(self)@ == old(self)@.insert(path@),
            r == !old(self)@.contains(path@),
    {
        proof {
            use_type_invariant(&*self);
        }
        let ghost before = strings_view(self.paths@);
        match self.position(&path) {
            Some(i) => {
                proof {
                    assert(before[i as int] == path@);
                    assert(self@ =~= self@.insert(path@));
                }
                false
            },
            None => {
                let mut paths: Vec<String> = Vec::new();
                core::mem::swap(&mut self.paths, &mut paths);
                paths.push(path);
                proof {
                    assert(strings_view(paths@) =~= before.push(path@));
                    lemma_push_new(before, path@);
                }
                core::mem::swap(&mut self.paths, &mut paths);
                true
            },
        }
    }

    /// Takes `path` out of the set; returns whether it was there.
    pub fn remove(&mut self, path: &String) -> (r: bool)
        ensures
            final(self)@ == old(self)@.remove(path@),
            r == old(self)@.contains(path@),
    {
        proof {
            use_type_invariant(&*self);
        }
        let ghost before = strings_view(self.paths@);
        match self.position(path) {
            Some(i) => {
                let mut paths: Vec<String> = Vec::new();
                core::mem::swap(&mut self.paths, &mut paths);
                let _ = paths.remove(i);
                proof {
                    assert(strings_view(paths@) =~= before.remove(i as int));
                    assert(before[i as int] == path@);
                    lemma_remove_at(before, i as int);
                }
                core::mem::swap(&mut self.paths, &mut paths);
                true
            },
            None => {
                proof {
                    assert(self@ =~= self@.remove(path@));
                }
                false
            },
        }
    }

    /// The paths of the set, in insertion order.
    pub fn to_vec(&self) -> (out: Vec<String>)
        ensures
            strings_view(out@).no_duplicates(),
            strings_view(out@).to_set() == self@,
    {
        proof {
            use_type_invariant(self);
        }
        let mut out: Vec<String> = Vec::new();
        let mut i: usize = 0;
        while i < self.paths.len()
            invariant
                i <= self.paths.len(),
                strings_view(out@) == strings_view(self.paths@).take(i as int),
            decreases self.paths.len() - i,
        {
            let ghost before = out@;
            let path = self.paths[i].clone();
            out.push(path);
            proof {
                assert(out@ == before.push(path));
                assert(strings_view(out@) =~= strings_view(before).push(path@));
                assert(strings_view(self.paths@).take(i + 1) =~= strings_view(self.paths@).take(
                    i as int,
                ).push(self.paths@[i as int]@));
            }
            i += 1;
        }
        proof {
            assert(strings_view(self.paths@).take(i as int) =~= strings_view(self.paths@));
        }
        out
    }
}


/// A list without duplicates that gets a new element at its end still has
/// no duplicates, and holds one element more.
proof fn lemma_push_new(list: Seq<Seq<char>>, x: Seq<char>)
    requires
        list.no_duplicates(),
        !list.to_set().contains(x),
    ensures
        list.push(x).no_duplicates(),
        list.push(x).to_set() == list.to_set().insert(x),
{
    let longer = list.push(x);
    assert forall|i: int| 0 <= i < list.len() implies list[i] != x by {
        assert(list.to_set().contains(list[i]));
    }
    assert forall|p: Seq<char>| longer.to_set().contains(p) <==> list.to_set().insert(x).contains(
        p,
    ) by {
        if longer.to_set().contains(p) {
            let j = choose|j: int| 0 <= j < longer.len() && longer[j] == p;
            if j < list.len() {
                assert(list[j] == p);
            }
        }
        if list.to_set().insert(x).contains(p) {
            if p == x {
                assert(longer[list.len() as int] == p);
            } else {
                let j = choose|j: int| 0 <= j < list.len() && list[j] == p;
                assert(longer[j] == p);
            }
        }
    }
    assert(longer.to_set() =~= list.to_set().insert(x));
}

/// A list without duplicates that loses an element still has no
/// duplicates, and does not hold that element any more.
proof fn lemma_remove_at(list: Seq<Seq<char>>, at: int)
    requires
        list.no_duplicates(),
        0 <= at < list.len(),
    ensures
        list.remove(at).no_duplicates(),
        list.remove(at).to_set() == list.to_set().remove(list[at]),
{
    let shorter = list.remove(at);
    assert forall|p: Seq<char>| shorter.to_set().contains(p) <==> list.to_set().remove(
        list[at],
    ).contains(p) by {
        if shorter.to_set().contains(p) {
            let j = choose|j: int| 0 <= j < shorter.len() && shorter[j] == p;
            if j < at {
                assert(list[j] == p);
            } else {
                assert(list[j + 1] == p);
            }
        }
        if list.to_set().remove(list[at]).contains(p) {
            let j = choose|j: int| 0 <= j < list.len() && list[j] == p;
            if j < at {
                assert(shorter[j] == p);
            } else {
                assert(shorter[j - 1] == p);
            }
        }
    }
    assert(shorter.to_set() =~= list.to_set().remove(list[at]));
}

} // verus!
