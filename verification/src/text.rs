//! Character-level operations on the text of a page: comparison, search,
//! and decimal numbers.

use vstd::prelude::*;
use vstd::std_specs::iter::IteratorSpec;
use vstd::string::*;

verus! {

/// The characters of a string, one by one.
pub fn chars_of(s: &str) -> (chars: Vec<char>)
    ensures
        chars@ == s@,
{
    let mut chars: Vec<char> = Vec::new();
    for c in it: s.chars()
        invariant
            chars@ == it.seq().take(it.index() as int),
            it.seq() == s@,
    {
        chars.push(c);
    }
    chars
}

/// Whether two strings hold the same characters.
pub fn str_eq(a: &str, b: &str) -> (same: bool)
    ensures
        same == (a@ == b@),
{
    let mut xs = a.chars();
    let mut ys = b.chars();
    let ghost mut seen: Seq<char> = Seq::empty();
    loop
        invariant
            a@ == seen + xs.remaining(),
            b@ == seen + ys.remaining(),
        decreases a@.len() - seen.len(),
    {
        let x = xs.next();
        let y = ys.next();
        match (x, y) {
            (None, None) => {
                return true;
            },
            (Some(p), Some(q)) => {
                if p != q {
                    proof {
                        assert(a@[seen.len() as int] == p);
                        assert(b@[seen.len() as int] == q);
                    }
                    return false;
                }
                proof {
                    seen = seen.push(p);
                }
            },
            _ => {
                proof {
                    assert(a@.len() != b@.len());
                }
                return false;
            },
        }
    }
}

/// Whether `needle` stands in `hay` at position `at`.
pub open spec fn occurs_at(hay: Seq<char>, needle: Seq<char>, at: int) -> bool {
    &&& 0 <= at
    &&& at + needle.len() <= hay.len()
    &&& hay.subrange(at, at + needle.len()) == needle
}

/// Whether `needle` stands somewhere in `hay` as a run of consecutive
/// characters. The empty needle stands in every text.
pub open spec fn contains(hay: Seq<char>, needle: Seq<char>) -> bool {
    exists|at: int| occurs_at(hay, needle, at)
}

/// Compares `needle` with the characters of `hay` from `at` on.
fn matches_at(hay: &[char], needle: &[char], at: usize) -> (found: bool)
    requires
        at + needle@.len() <= hay@.len(),
    ensures
        found == occurs_at(hay@, needle@, at as int),
{
    let mut k: usize = 0;
    while k < needle.len()
        invariant
            k <= needle.len(),
            at + needle.len() <= hay.len(),
            forall|j: int| 0 <= j < k ==> hay@[at + j] == needle@[j],
        decreases needle@.len() - k,
    {
        if hay[at + k] != needle[k] {
            proof {
                assert(hay@.subrange(at as int, at + needle@.len())[k as int] == hay@[at + k]);
            }
            return false;
        }
        k += 1;
    }
    proof {
        assert(hay@.subrange(at as int, at + needle@.len()) =~= needle@);
    }
    true
}

/// Searches `hay` for `needle`.
pub fn has_substring(hay: &[char], needle: &[char]) -> (found: bool)
    ensures
        found == contains(hay@, needle@),
{
    if needle.len() > hay.len() {
        return false;
    }
    let last: usize = hay.len() - needle.len();
    let mut at: usize = 0;
    while at < last
        invariant
            last == hay.len() - needle.len(),
            at <= last,
            forall|j: int| 0 <= j < at ==> !occurs_at(hay@, needle@, j),
        decreases last - at,
    {
        if matches_at(hay, needle, at) {
            return true;
        }
        at += 1;
    }
    matches_at(hay, needle, last)
}

/// The position of the first `c` in `s`.
pub open spec fn first_index(s: Seq<char>, c: char) -> Option<int>
    decreases s.len(),
{
    if s.len() == 0 {
        None
    } else if s[0] == c {
        Some(0)
    } else {
        match first_index(s.drop_first(), c) {
            Some(i) => Some(i + 1),
            None => None,
        }
    }
}

/// `first_index` gives a position that holds `c` and has no `c` before it,
/// and gives none exactly when `c` does not occur.
pub proof fn lemma_first_index(s: Seq<char>, c: char)
    ensures
        match first_index(s, c) {
            Some(i) => 0 <= i < s.len() && s[i] == c && forall|j: int| 0 <= j < i ==> s[j] != c,
            None => forall|j: int| 0 <= j < s.len() ==> s[j] != c,
        },
    decreases s.len(),
{
    if s.len() > 0 && s[0] != c {
        let rest = s.drop_first();
        lemma_first_index(rest, c);
        match first_index(rest, c) {
            Some(i) => {
                assert forall|j: int| 0 <= j < i + 1 implies s[j] != c by {
                    if j > 0 {
                        assert(s[j] == rest[j - 1]);
                    }
                }
            },
            None => {
                assert forall|j: int| 0 <= j < s.len() implies s[j] != c by {
                    if j > 0 {
                        assert(s[j] == rest[j - 1]);
                    }
                }
            },
        }
    }
}

/// A position that holds `c` with no `c` before it is the first index.
pub proof fn lemma_first_index_is(s: Seq<char>, c: char, at: int)
    requires
        0 <= at < s.len(),
        s[at] == c,
        forall|j: int| 0 <= j < at ==> s[j] != c,
    ensures
        first_index(s, c) == Some(at),
{
    lemma_first_index(s, c);
}

/// Finds the first `c` in `s`.
pub fn find_char(s: &[char], c: char) -> (found: Option<usize>)
    ensures
        match found {
            Some(i) => first_index(s@, c) == Some(i as int),
            None => first_index(s@, c).is_none(),
        },
{
    let mut i: usize = 0;
    while i < s.len()
        invariant
            i <= s@.len(),
            forall|j: int| 0 <= j < i ==> s@[j] != c,
        decreases s@.len() - i,
    {
        if s[i] == c {
            proof {
                lemma_first_index_is(s@, c, i as int);
            }
            return Some(i);
        }
        i += 1;
    }
    proof {
        lemma_first_index(s@, c);
    }
    None
}

/// A needle that stands in a text stands there with each of its prefixes.
pub proof fn lemma_contains_prefix(hay: Seq<char>, needle: Seq<char>, len: int)
    requires
        contains(hay, needle),
        0 <= len <= needle.len(),
    ensures
        contains(hay, needle.take(len)),
{
    let at = choose|at: int| occurs_at(hay, needle, at);
    assert(hay.subrange(at, at + len) =~= hay.subrange(at, at + needle.len()).take(len));
    assert(occurs_at(hay, needle.take(len), at));
}

/// The lower-case form of a text, as the standard library defines it over
/// all of Unicode.
pub uninterp spec fn lowercased(text: Seq<char>) -> Seq<char>;

/// Calls `str::to_lowercase`. Trusted: the result is a function of the
/// characters of the text alone.
#[verifier::external_body]
pub(crate) fn to_lowercase(text: &str) -> (lower: String)
    ensures
        lower@ == lowercased(text@),
{
    text.to_lowercase()
}

} // verus!
