//! Deriving a profile name from a registry file name.
//!
//! A registry file is named `<name>.tfrc.json`.  The name is whatever
//! precedes the *first* occurrence of the fixed suffix `.tfrc.json` in the
//! file name; a file name without an occurrence of the suffix carries no
//! profile name at all.

use vstd::prelude::*;
use vstd::string::StrSliceExecFns;

verus! {

/// The characters of the fixed suffix `.tfrc.json`.
pub open spec fn suffix_chars() -> Seq<char> {
    seq!['.', 't', 'f', 'r', 'c', '.', 'j', 's', 'o', 'n']
}

/// The suffix occurs in `s` starting at position `i`.
pub open spec fn matches_at(s: Seq<char>, i: int) -> bool {
    &&& 0 <= i
    &&& i + 10 <= s.len()
    &&& forall|j: int| 0 <= j < 10 ==> s[i + j] == suffix_chars()[j]
}

/// The suffix occurs somewhere in `s`.
pub open spec fn has_suffix_occurrence(s: Seq<char>) -> bool {
    exists|i: int| matches_at(s, i)
}

/// `i` is the position of the first occurrence of the suffix in `s`.
pub open spec fn is_first_occurrence(s: Seq<char>, i: int) -> bool {
    &&& matches_at(s, i)
    &&& forall|j: int| 0 <= j < i ==> !matches_at(s, j)
}

/// The position of the first occurrence of the suffix in `s`
/// (meaningful only when `has_suffix_occurrence(s)` holds).
pub open spec fn first_occurrence(s: Seq<char>) -> int {
    choose|i: int| is_first_occurrence(s, i)
}

/// The profile name carried by the file name `s`: the prefix before the
/// first occurrence of the suffix, or nothing if the suffix is absent.
pub open spec fn split_prefix(s: Seq<char>) -> Option<Seq<char>> {
    if has_suffix_occurrence(s) {
        Some(s.subrange(0, first_occurrence(s)))
    } else {
        None
    }
}

/// At most one position is the first occurrence.
pub proof fn lemma_first_occurrence_unique(s: Seq<char>, a: int, b: int)
    requires
        is_first_occurrence(s, a),
        is_first_occurrence(s, b),
    ensures
        a == b,
{
    if a < b {
        assert(!matches_at(s, a));
    } else if b < a {
        assert(!matches_at(s, b));
    }
}

/// Appending the suffix to a name that does not itself contain the
/// suffix, then splitting, yields the name back.  A straddling occurrence
/// is impossible because no shift of the suffix agrees with itself.
pub proof fn lemma_suffix_round_trip(name: Seq<char>)
    requires
        !has_suffix_occurrence(name),
    ensures
        split_prefix(name + suffix_chars()) == Some(name),
{
    let s = name + suffix_chars();
    let n = name.len() as int;
    assert forall|j: int| 0 <= j < 10 implies s[n + j] == suffix_chars()[j] by {
        assert(s[n + j] == suffix_chars()[n + j - n]);
    }
    assert(matches_at(s, n));
    assert forall|i: int| 0 <= i < n implies !matches_at(s, i) by {
        if matches_at(s, i) {
            if i + 10 <= n {
                assert forall|j: int| 0 <= j < 10 implies name[i + j] == suffix_chars()[j] by {
                    assert(s[i + j] == suffix_chars()[j]);
                }
                assert(matches_at(name, i));
                assert(false);
            } else {
                let p = n - i;
                assert(1 <= p < 10);
                assert forall|j: int| p <= j < 10 implies suffix_chars()[j - p] == #[trigger] suffix_chars()[j] by {
                    assert(s[i + j] == suffix_chars()[j]);
                    assert(s[i + j] == suffix_chars()[i + j - n]);
                }
                if p == 1 {
                    assert(suffix_chars()[0] == suffix_chars()[1]);
                } else if p == 2 {
                    assert(suffix_chars()[0] == suffix_chars()[2]);
                } else if p == 3 {
                    assert(suffix_chars()[0] == suffix_chars()[3]);
                } else if p == 4 {
                    assert(suffix_chars()[0] == suffix_chars()[4]);
                } else if p == 5 {
                    assert(suffix_chars()[1] == suffix_chars()[6]);
                } else if p == 6 {
                    assert(suffix_chars()[0] == suffix_chars()[6]);
                } else if p == 7 {
                    assert(suffix_chars()[0] == suffix_chars()[7]);
                } else if p == 8 {
                    assert(suffix_chars()[0] == suffix_chars()[8]);
                } else {
                    assert(suffix_chars()[0] == suffix_chars()[9]);
                }
                assert(false);
            }
        }
    }
    assert(is_first_occurrence(s, n));
    let f = first_occurrence(s);
    lemma_first_occurrence_unique(s, f, n);
    assert(s.subrange(0, n) =~= name);
}

/// Compare the ten characters of `s` starting at `i` against the suffix.
fn suffix_matches_here(s: &str, i: usize) -> (b: bool)
    requires
        i + 10 <= s@.len(),
        i + 10 <= usize::MAX,
    ensures
        b == matches_at(s@, i as int),
{
    let pat: &str = ".tfrc.json";
    proof {
        reveal_strlit(".tfrc.json");
        assert(pat@ =~= suffix_chars());
    }
    let mut j: usize = 0;
    while j < 10
        invariant
            j <= 10,
            i + 10 <= s@.len(),
            i + 10 <= usize::MAX,
            pat@ =~= suffix_chars(),
            forall|k: int| 0 <= k < j ==> s@[i + k] == suffix_chars()[k],
        decreases 10 - j,
    {
        if s.get_char(i + j) != pat.get_char(j) {
            assert(!matches_at(s@, i as int));
            return false;
        }
        j += 1;
    }
    true
}

/// Derive the profile name from the file name: the prefix before the first
/// occurrence of `.tfrc.json`, or `None` if the suffix never occurs.
pub fn profile_name_of(file_name: &str) -> (r: Option<String>)
    ensures
        match r {
            Some(prefix) => split_prefix(file_name@) == Some(prefix@),
            None => split_prefix(file_name@) is None,
        },
{
    let n = file_name.unicode_len();
    if n < 10 {
        proof {
            assert(forall|i: int| !matches_at(file_name@, i));
        }
        return None;
    }
    let mut i: usize = 0;
    while i <= n - 10
        invariant
            n == file_name@.len(),
            10 <= n,
            i <= n - 10 + 1,
            forall|k: int| 0 <= k < i ==> !matches_at(file_name@, k),
        decreases n - i,
    {
        if suffix_matches_here(file_name, i) {
            proof {
                assert(is_first_occurrence(file_name@, i as int));
                let f = first_occurrence(file_name@);
                lemma_first_occurrence_unique(file_name@, f, i as int);
            }
            let prefix = file_name.substring_char(0, i);
            return Some(prefix.to_owned());
        }
        i += 1;
    }
    proof {
        assert(forall|k: int| matches_at(file_name@, k) ==> 0 <= k <= n - 10);
        assert(forall|k: int| !matches_at(file_name@, k));
    }
    None
}

} // verus!
