//! Small verified helpers on strings: equality of two slices and trimming
//! of ASCII whitespace.

use vstd::prelude::*;
use vstd::string::StrSliceExecFns;

verus! {

/// Whether `c` is an ASCII whitespace character.
pub open spec fn is_ascii_space(c: char) -> bool {
    c == ' ' || c == '\t' || c == '\n' || c == '\r'
}

/// Number of leading ASCII whitespace characters of `s`.
pub open spec fn trim_start_index(s: Seq<char>) -> int
    decreases s.len(),
{
    if s.len() == 0 {
        0
    } else if is_ascii_space(s[0]) {
        1 + trim_start_index(s.drop_first())
    } else {
        0
    }
}

/// Index just past the last non-whitespace character of `s` (zero when `s`
/// is all whitespace).
pub open spec fn trim_end_index(s: Seq<char>) -> int
    decreases s.len(),
{
    if s.len() == 0 {
        0
    } else if is_ascii_space(s.last()) {
        trim_end_index(s.drop_last())
    } else {
        s.len() as int
    }
}

/// `s` without its leading and trailing ASCII whitespace.
pub open spec fn trimmed(s: Seq<char>) -> Seq<char> {
    if trim_start_index(s) >= trim_end_index(s) {
        Seq::empty()
    } else {
        s.subrange(trim_start_index(s), trim_end_index(s))
    }
}

proof fn lemma_trim_start_index_at(s: Seq<char>, m: int)
    requires
        0 <= m <= s.len(),
        forall|k: int| 0 <= k < m ==> is_ascii_space(s[k]),
        m < s.len() ==> !is_ascii_space(s[m]),
    ensures
        trim_start_index(s) == m,
    decreases m,
{
    if m > 0 {
        assert forall|k: int| 0 <= k < m - 1 implies is_ascii_space(s.drop_first()[k]) by {
            assert(s.drop_first()[k] == s[k + 1]);
        }
        assert(m - 1 < s.drop_first().len() ==> s.drop_first()[m - 1] == s[m]);
        lemma_trim_start_index_at(s.drop_first(), m - 1);
    }
}

proof fn lemma_trim_end_index_at(s: Seq<char>, m: int)
    requires
        0 <= m <= s.len(),
        forall|k: int| m <= k < s.len() ==> is_ascii_space(s[k]),
        m > 0 ==> !is_ascii_space(s[m - 1]),
    ensures
        trim_end_index(s) == m,
    decreases s.len(),
{
    if s.len() > 0 && is_ascii_space(s.last()) {
        lemma_trim_end_index_at(s.drop_last(), m);
    }
}

/// Whether two string slices hold the same characters.
pub fn str_eq(a: &str, b: &str) -> (r: bool)
    ensures
        r == (a@ == b@),
{
    let n = a.unicode_len();
    let m = b.unicode_len();
    if n != m {
        return false;
    }
    let mut i: usize = 0;
    while i < n
        invariant
            i <= n,
            n == a@.len(),
            n == b@.len(),
            forall|k: int| 0 <= k < i ==> a@[k] == b@[k],
        decreases n - i,
    {
        if a.get_char(i) != b.get_char(i) {
            return false;
        }
        i = i + 1;
    }
    proof {
        assert(a@ =~= b@);
    }
    true
}

/// Exec test for ASCII whitespace.
fn is_space_char(c: char) -> (r: bool)
    ensures
        r == is_ascii_space(c),
{
    c == ' ' || c == '\t' || c == '\n' || c == '\r'
}

/// Returns `s` without its leading and trailing ASCII whitespace.
#[verifier::loop_isolation(false)]
pub fn trim(s: &str) -> (r: &str)
    ensures
        r@ == trimmed(s@),
{
    let n = s.unicode_len();
    let mut lo: usize = 0;
    while lo < n && is_space_char(s.get_char(lo))
        invariant
            lo <= n,
            forall|k: int| 0 <= k < lo ==> is_ascii_space(s@[k]),
        decreases n - lo,
    {
        lo = lo + 1;
    }
    proof {
        lemma_trim_start_index_at(s@, lo as int);
    }
    let mut hi: usize = n;
    while hi > lo && is_space_char(s.get_char(hi - 1))
        invariant
            lo <= hi <= n,
            forall|k: int| hi <= k < n ==> is_ascii_space(s@[k]),
        decreases hi,
    {
        hi = hi - 1;
    }
    if hi <= lo {
        proof {
            // the tail scan reached `lo`, so everything from `lo` on is
            // whitespace; the head scan stopped at `lo`, so `lo` is the end
            if lo < n {
                assert(is_ascii_space(s@[lo as int]));
                assert(false);
            }
            lemma_trim_end_index_at(s@, 0);
        }
        let r = s.substring_char(0, 0);
        proof {
            assert(r@ =~= trimmed(s@));
        }
        r
    } else {
        proof {
            lemma_trim_end_index_at(s@, hi as int);
        }
        s.substring_char(lo, hi)
    }
}

} // verus!
