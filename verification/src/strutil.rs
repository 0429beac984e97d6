//! Case folding, substring search, and whitespace trimming over `Seq<char>`
//! views of strings.

use vstd::prelude::*;

verus! {

/// What `str::to_lowercase` returns; the result depends on the characters
/// alone.
pub uninterp spec fn lower_of(s: Seq<char>) -> Seq<char>;

/// Relies on `str::to_lowercase`: Unicode lowercasing of every character.
#[verifier::external_body]
pub(crate) fn lowercase(s: &str) -> (r: String)
    ensures
        r@ == lower_of(s@),
{
    s.to_lowercase()
}

/// The needle occurs in the haystack starting at position `k`.
pub open spec fn matches_at(needle: Seq<char>, hay: Seq<char>, k: int) -> bool {
    0 <= k && k + needle.len() <= hay.len() && hay.subrange(k, k + needle.len() as int)
        == needle
}

/// The needle occurs somewhere in the haystack (always true of an empty
/// needle).
pub open spec fn is_substring(needle: Seq<char>, hay: Seq<char>) -> bool {
    exists|k: int| matches_at(needle, hay, k)
}

/// Naive substring search, character by character.
pub fn contains_substring(hay: &str, needle: &str) -> (r: bool)
    ensures
        r == is_substring(needle@, hay@),
{
    let n: usize = hay.unicode_len();
    let m: usize = needle.unicode_len();
    if m == 0 {
        proof {
            assert(hay@.subrange(0, 0) =~= needle@);
            assert(matches_at(needle@, hay@, 0));
        }
        return true;
    }
    if m > n {
        assert(forall|k: int| !matches_at(needle@, hay@, k));
        return false;
    }
    let mut k: usize = 0;
    while k <= n - m
        invariant
            1 <= m <= n,
            n == hay@.len(),
            m == needle@.len(),
            k <= n - m + 1,
            forall|k0: int| 0 <= k0 < k ==> !matches_at(needle@, hay@, k0),
        decreases n - m + 1 - k,
    {
        let mut j: usize = 0;
        let mut mismatch = false;
        while j < m
            invariant
                1 <= m <= n,
                n == hay@.len(),
                m == needle@.len(),
                k <= n - m,
                j <= m,
                !mismatch ==> forall|j0: int| 0 <= j0 < j ==> hay@[k + j0] == needle@[j0],
                mismatch ==> !matches_at(needle@, hay@, k as int),
            decreases m - j,
        {
            if hay.get_char(k + j) != needle.get_char(j) {
                proof {
                    let sub = hay@.subrange(k as int, k + m as int);
                    assert(sub[j as int] == hay@[k + j]);
                    assert(sub != needle@);
                }
                mismatch = true;
                j = m;
            } else {
                j = j + 1;
            }
        }
        if !mismatch {
            proof {
                let sub = hay@.subrange(k as int, k + m as int);
                assert(sub =~= needle@);
                assert(matches_at(needle@, hay@, k as int));
            }
            return true;
        }
        k = k + 1;
    }
    assert(forall|k0: int| !matches_at(needle@, hay@, k0));
    false
}

/// Whitespace for the purposes of trimming a line of user input.
pub open spec fn is_space(c: char) -> bool {
    c == ' ' || c == '\t' || c == '\r' || c == '\n'
}

/// The sequence with its leading whitespace removed.
pub open spec fn trim_front(s: Seq<char>) -> Seq<char>
    decreases s.len(),
{
    if s.len() > 0 && is_space(s.first()) {
        trim_front(s.drop_first())
    } else {
        s
    }
}

/// The sequence with its trailing whitespace removed.
pub open spec fn trim_back(s: Seq<char>) -> Seq<char>
    decreases s.len(),
{
    if s.len() > 0 && is_space(s.last()) {
        trim_back(s.drop_last())
    } else {
        s
    }
}

/// The sequence with whitespace removed from both ends.
pub open spec fn trim_of(s: Seq<char>) -> Seq<char> {
    trim_back(trim_front(s))
}

/// Removes leading and trailing whitespace, as a fresh string.
pub fn trim_str(s: &str) -> (r: String)
    ensures
        r@ == trim_of(s@),
{
    let n: usize = s.unicode_len();
    proof {
        assert(s@.subrange(0, n as int) =~= s@);
    }
    let mut i: usize = 0;
    while i < n && is_space_char(s.get_char(i))
        invariant
            n == s@.len(),
            i <= n,
            trim_front(s@) == trim_front(s@.subrange(i as int, n as int)),
        decreases n - i,
    {
        proof {
            let cur = s@.subrange(i as int, n as int);
            assert(cur.drop_first() =~= s@.subrange(i + 1, n as int));
        }
        i = i + 1;
    }
    proof {
        let cur = s@.subrange(i as int, n as int);
        if i < n {
            assert(!is_space(cur.first()));
        }
        assert(trim_front(s@) == cur);
    }
    let mut j: usize = n;
    while j > i && is_space_char(s.get_char(j - 1))
        invariant
            n == s@.len(),
            i <= j <= n,
            trim_front(s@) == s@.subrange(i as int, n as int),
            trim_back(s@.subrange(i as int, n as int)) == trim_back(
                s@.subrange(i as int, j as int),
            ),
        decreases j,
    {
        proof {
            let cur = s@.subrange(i as int, j as int);
            assert(cur.drop_last() =~= s@.subrange(i as int, j - 1));
        }
        j = j - 1;
    }
    proof {
        let cur = s@.subrange(i as int, j as int);
        if j > i {
            assert(!is_space(cur.last()));
        }
        assert(trim_back(s@.subrange(i as int, n as int)) == cur);
    }
    let r = s.substring_char(i, j);
    String::from_str(r)
}

/// Executable form of `is_space`.
pub fn is_space_char(c: char) -> (r: bool)
    ensures
        r == is_space(c),
{
    c == ' ' || c == '\t' || c == '\r' || c == '\n'
}

} // verus!
