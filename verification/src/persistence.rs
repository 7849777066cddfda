//! Where the check state of a file is kept.

use crate::parser::DiffFileKey;
use crate::pathset::PathSet;
use crate::text::{
    append_chars, chars_of, replace_separators, string_of, strings_view, without_separators,
};
use vstd::prelude::*;
use vstd::string::*;

verus! {

/// Names the files that hold check states, below one directory.
pub struct PersistenceManager {
    pub base_dir: String,
}

/// The name of the file that holds the check state of a key: the two
/// hashes and the path, joined by `_`, the separators of the path replaced
/// by `_`, with the ending `.json`.
pub open spec fn check_file_name(
    from_hash: Seq<char>,
    to_hash: Seq<char>,
    file_path: Seq<char>,
) -> Seq<char> {
    from_hash + seq!['_'] + to_hash + seq!['_'] + without_separators(file_path) + ".json"@
}

impl PersistenceManager {
    /// A manager for the files below `base_dir`.
    pub fn with_base_dir(base_dir: String) -> (manager: Self)
        ensures
            manager.base_dir == base_dir,
    {
        PersistenceManager { base_dir }
    }

    /// The name of the file for `key`, without its directory.
    pub fn get_check_file_name(key: &DiffFileKey) -> (name: String)
        ensures
            name@ == check_file_name(key.from_hash@, key.to_hash@, key.file_path@),
    {
        let mut chars = chars_of(key.from_hash.as_str());
        chars.push('_');
        let to_hash = chars_of(key.to_hash.as_str());
        append_chars(&mut chars, to_hash.as_slice());
        chars.push('_');
        let path = chars_of(key.file_path.as_str());
        let safe = replace_separators(path.as_slice());
        append_chars(&mut chars, safe.as_slice());
        let ending = chars_of(".json");
        append_chars(&mut chars, ending.as_slice());
        string_of(chars.as_slice())
    }

    /// The path of the file for `key`: the base directory, a `/`, and the
    /// file's name.
    pub fn get_check_file_path(&self, key: &DiffFileKey) -> (path: String)
        ensures
            path@ == self.base_dir@ + seq!['/'] + check_file_name(
                key.from_hash@,
                key.to_hash@,
                key.file_path@,
            ),
    {
        let mut chars = chars_of(self.base_dir.as_str());
        chars.push('/');
        let name = Self::get_check_file_name(key);
        let name_chars = chars_of(name.as_str());
        append_chars(&mut chars, name_chars.as_slice());
        string_of(chars.as_slice())
    }
}


/// The nanoseconds of a day.
pub const DAY_NANOS: u128 = 86_400_000_000_000;

/// Whether a file that was changed at `modified` is older at `now` than
/// `max_age_days` days; the times are in nanoseconds since one epoch.
pub open spec fn expired(modified: u128, now: u128, max_age_days: u64) -> bool {
    modified + max_age_days * DAY_NANOS < now
}

/// Whether a stored list of checked paths holds the path.
pub open spec fn holds_path(stored: Option<Seq<Seq<char>>>, path: Seq<char>) -> bool {
    match stored {
        Some(paths) => paths.contains(path),
        None => false,
    }
}

/// The paths that are checked, given for each of the first `upto` keys
/// what is stored for it: the paths of the keys whose stored list holds
/// them.
pub open spec fn checked_paths(
    paths: Seq<Seq<char>>,
    stored: Seq<Option<Seq<Seq<char>>>>,
    upto: int,
) -> Set<Seq<char>>
    decreases upto,
{
    if upto <= 0 || upto > paths.len() || upto > stored.len() {
        Set::empty()
    } else if holds_path(stored[upto - 1], paths[upto - 1]) {
        checked_paths(paths, stored, upto - 1).insert(paths[upto - 1])
    } else {
        checked_paths(paths, stored, upto - 1)
    }
}

/// The paths of a list of keys.
pub open spec fn key_paths(keys: Seq<DiffFileKey>) -> Seq<Seq<char>> {
    Seq::new(keys.len(), |i: int| keys[i].file_path@)
}

/// The views of what is stored for a list of keys.
pub open spec fn stored_view(stored: Seq<Option<Vec<String>>>) -> Seq<Option<Seq<Seq<char>>>> {
    Seq::new(
        stored.len(),
        |i: int|
            match stored[i] {
                Some(paths) => Some(strings_view(paths@)),
                None => None,
            },
    )
}

/// Whether a list of paths holds the path.
fn list_holds(paths: &Vec<String>, path: &String) -> (r: bool)
    ensures
        r == strings_view(paths@).contains(path@),
{
    let mut i: usize = 0;
    while i < paths.len()
        invariant
            i <= paths.len(),
            forall|j: int| 0 <= j < i ==> paths@[j]@ != path@,
        decreases paths.len() - i,
    {
        if paths[i] == *path {
            proof {
                assert(strings_view(paths@)[i as int] == path@);
            }
            return true;
        }
        i += 1;
    }
    proof {
        let views = strings_view(paths@);
        assert forall|j: int| 0 <= j < views.len() implies views[j] != path@ by {
            assert(views[j] == paths@[j]@);
        }
    }
    false
}

impl PersistenceManager {
    /// Whether a state that was stored at `modified` is to be cleaned up at
    /// `now`, being older than `max_age_days` days.
    pub fn is_expired(modified: u128, now: u128, max_age_days: u64) -> (r: bool)
        ensures
            r == expired(modified, now, max_age_days),
    {
        assert(max_age_days * DAY_NANOS <= u64::MAX * DAY_NANOS) by (nonlinear_arith)
            requires
                max_age_days <= u64::MAX,
        ;
        let age: u128 = max_age_days as u128 * DAY_NANOS;
        if modified > u128::MAX - age {
            false
        } else {
            modified + age < now
        }
    }

    /// The list of checked paths to store for a key: its path where the
    /// file is checked, nothing where it is not.
    pub fn check_state_for(key: &DiffFileKey, is_checked: bool) -> (paths: Vec<String>)
        ensures
            strings_view(paths@) == if is_checked {
                seq![key.file_path@]
            } else {
                Seq::<Seq<char>>::empty()
            },
    {
        let mut paths: Vec<String> = Vec::new();
        if is_checked {
            paths.push(key.file_path.clone());
            proof {
                assert(strings_view(paths@) =~= seq![key.file_path@]);
            }
        } else {
            proof {
                assert(strings_view(paths@) =~= Seq::<Seq<char>>::empty());
            }
        }
        paths
    }

    /// The checked paths, given for each key the list that is stored for
    /// it, if one is. Where the lists are fewer than the keys, the keys
    /// without a list count as not stored.
    pub fn load_checked_files(keys: &[DiffFileKey], stored: &Vec<Option<Vec<String>>>) -> (checked:
        PathSet)
        ensures
            checked@ == checked_paths(
                key_paths(keys@),
                stored_view(stored@),
                if keys@.len() <= stored@.len() {
                    keys@.len() as int
                } else {
                    stored@.len() as int
                },
            ),
    {
        let count = if keys.len() <= stored.len() {
            keys.len()
        } else {
            stored.len()
        };
        let mut checked = PathSet::new();
        let mut i: usize = 0;
        while i < count
            invariant
                i <= count,
                count <= keys.len(),
                count <= stored.len(),
                checked@ == checked_paths(key_paths(keys@), stored_view(stored@), i as int),
            decreases count - i,
        {
            proof {
                assert(key_paths(keys@)[i as int] == keys@[i as int].file_path@);
            }
            let held = match &stored[i] {
                Some(paths) => list_holds(paths, &keys[i].file_path),
                None => false,
            };
            if held {
                let _ = checked.insert(keys[i].file_path.clone());
            }
            i += 1;
        }
        checked
    }
}

} // verus!
