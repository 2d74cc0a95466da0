//! Textual path handling: a path is a string whose components are separated
//! by `'/'`. The planner needs a destination's parent directory, and token
//! resolution needs a file's name and extension.

use vstd::prelude::*;
use vstd::string::*;

verus! {

/// Position of the last occurrence of `c` in `s`, if any.
pub open spec fn last_index_of(s: Seq<char>, c: char) -> Option<int>
    decreases s.len(),
{
    if s.len() == 0 {
        None
    } else if s[s.len() - 1] == c {
        Some(s.len() - 1)
    } else {
        last_index_of(s.drop_last(), c)
    }
}

/// `last_index_of` finds an occurrence with nothing behind it, and `None`
/// means there is no occurrence at all.
pub proof fn lemma_last_index_of(s: Seq<char>, c: char)
    ensures
        match last_index_of(s, c) {
            Some(i) => 0 <= i < s.len() && s[i] == c && (forall|k: int|
                i < k < s.len() ==> s[k] != c),
            None => forall|k: int| 0 <= k < s.len() ==> s[k] != c,
        },
    decreases s.len(),
{
    if s.len() == 0 {
    } else if s[s.len() - 1] == c {
    } else {
        let t = s.drop_last();
        lemma_last_index_of(t, c);
        match last_index_of(t, c) {
            Some(i) => {
                assert forall|k: int| i < k < s.len() implies s[k] != c by {
                    if k < s.len() - 1 {
                        assert(t[k] == s[k]);
                    }
                }
            },
            None => {
                assert forall|k: int| 0 <= k < s.len() implies s[k] != c by {
                    if k < s.len() - 1 {
                        assert(t[k] == s[k]);
                    }
                }
            },
        }
    }
}

/// The parent directory of a path: everything before the last separator.
/// A path without a separator has no parent directory.
pub open spec fn parent_of(s: Seq<char>) -> Option<Seq<char>> {
    match last_index_of(s, '/') {
        None => None,
        Some(i) => Some(s.subrange(0, i)),
    }
}

/// The file name of a path: everything after the last separator, or the
/// whole path when it has none.
pub open spec fn file_name_of(s: Seq<char>) -> Seq<char> {
    match last_index_of(s, '/') {
        None => s,
        Some(i) => s.subrange(i + 1, s.len() as int),
    }
}

/// The extension of a path: what follows the last dot of the file name.
/// A file name without a dot, or whose only dot starts it, has an empty
/// extension.
pub open spec fn extension_of(s: Seq<char>) -> Seq<char> {
    let name = file_name_of(s);
    match last_index_of(name, '.') {
        None => Seq::empty(),
        Some(i) => if i == 0 {
            Seq::empty()
        } else {
            name.subrange(i + 1, name.len() as int)
        },
    }
}

/// Finds the position of the last occurrence of `c` in `s`.
fn find_last(s: &str, c: char) -> (r: Option<usize>)
    ensures
        match r {
            Some(i) => last_index_of(s@, c) == Some(i as int),
            None => last_index_of(s@, c) is None,
        },
{
    let mut i = s.unicode_len();
    proof {
        assert(s@.subrange(0, i as int) =~= s@);
    }
    loop
        invariant
            i <= s@.len() <= usize::MAX,
            last_index_of(s@, c) == last_index_of(s@.subrange(0, i as int), c),
        decreases i,
    {
        if i == 0 {
            proof {
                assert(s@.subrange(0, 0).len() == 0);
            }
            return None;
        }
        i = i - 1;
        let ch = s.get_char(i);
        proof {
            let t = s@.subrange(0, i + 1);
            assert(t[t.len() - 1] == s@[i as int]);
            assert(t.drop_last() =~= s@.subrange(0, i as int));
        }
        if ch == c {
            return Some(i);
        }
    }
}

/// The parent directory of a path, as `parent_of` gives it.
pub fn parent_str(s: &str) -> (r: Option<String>)
    ensures
        match r {
            Some(p) => parent_of(s@) == Some(p@),
            None => parent_of(s@) is None,
        },
{
    match find_last(s, '/') {
        None => None,
        Some(i) => {
            proof {
                lemma_last_index_of(s@, '/');
            }
            Some(s.substring_char(0, i).to_owned())
        },
    }
}

/// The file name of a path, as `file_name_of` gives it.
pub fn file_name_str(s: &str) -> (r: String)
    ensures
        r@ == file_name_of(s@),
{
    match find_last(s, '/') {
        None => s.to_owned(),
        Some(i) => {
            let n = s.unicode_len();
            proof {
                lemma_last_index_of(s@, '/');
            }
            s.substring_char(i + 1, n).to_owned()
        },
    }
}

/// The extension of a path, as `extension_of` gives it.
pub fn extension_str(s: &str) -> (r: String)
    ensures
        r@ == extension_of(s@),
{
    let name = file_name_str(s);
    match find_last(name.as_str(), '.') {
        None => String::new(),
        Some(i) => {
            let n = name.as_str().unicode_len();
            proof {
                lemma_last_index_of(name@, '.');
            }
            if i == 0 {
                String::new()
            } else {
                name.as_str().substring_char(i + 1, n).to_owned()
            }
        },
    }
}

/// What the planner keeps of one directory entry: its path and the
/// name parts that token resolution reads.
pub struct EntryInfo {
    pub path: String,
    pub file_name: String,
    pub extension: String,
}

impl EntryInfo {
    /// The name parts agree with the path.
    pub open spec fn wf(self) -> bool {
        self.file_name@ == file_name_of(self.path@) && self.extension@ == extension_of(self.path@)
    }

    /// Builds the entry for a path, computing its file name and extension.
    pub fn from_path(path: String) -> (r: EntryInfo)
        ensures
            r.path@ == path@,
            r.wf(),
    {
        let file_name = file_name_str(path.as_str());
        let extension = extension_str(path.as_str());
        EntryInfo { path, file_name, extension }
    }
}

} // verus!
