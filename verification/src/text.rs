//! Character-level comparisons of strings against fixed labels.

use vstd::prelude::*;

verus! {

/// ASCII lower-casing of one character; other characters are unchanged.
pub open spec fn ascii_lower(c: char) -> char {
    if 'A' <= c && c <= 'Z' {
        ((c as u32) + 32) as char
    } else {
        c
    }
}

/// ASCII lower-casing of a whole character sequence.
pub open spec fn ascii_lower_seq(s: Seq<char>) -> Seq<char> {
    s.map_values(|c: char| ascii_lower(c))
}

/// Whether `s` spells exactly the characters of `label`.
pub fn same_chars(s: &str, label: &str) -> (r: bool)
    ensures
        r == (s@ == label@),
{
    let n = label.unicode_len();
    if s.unicode_len() != n {
        return false;
    }
    let mut i: usize = 0;
    while i < n
        invariant
            n == label@.len(),
            n == s@.len(),
            i <= n,
            forall|j: int| 0 <= j < i ==> s@[j] == label@[j],
        decreases n - i,
    {
        if s.get_char(i) != label.get_char(i) {
            return false;
        }
        i = i + 1;
    }
    assert(s@ =~= label@);
    true
}

/// Whether `s`, lower-cased character by character in ASCII, spells `label`.
pub fn same_chars_ascii_ci(s: &str, label: &str) -> (r: bool)
    ensures
        r == (ascii_lower_seq(s@) == label@),
{
    let n = label.unicode_len();
    if s.unicode_len() != n {
        assert(ascii_lower_seq(s@).len() != label@.len());
        return false;
    }
    let mut i: usize = 0;
    while i < n
        invariant
            n == label@.len(),
            n == s@.len(),
            i <= n,
            forall|j: int| 0 <= j < i ==> ascii_lower(s@[j]) == label@[j],
        decreases n - i,
    {
        let c = s.get_char(i);
        let l = label.get_char(i);
        if 'A' <= c && c <= 'Z' {
            if (c as u32) + 32 != (l as u32) {
                assert(ascii_lower_seq(s@)[i as int] != label@[i as int]);
                return false;
            }
        } else {
            if c != l {
                assert(ascii_lower_seq(s@)[i as int] != label@[i as int]);
                return false;
            }
        }
        i = i + 1;
    }
    assert(ascii_lower_seq(s@) =~= label@);
    true
}

} // verus!
