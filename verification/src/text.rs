//! Small helpers on text: comparing, and cutting a line at its first space.

use vstd::prelude::*;
use vstd::std_specs::iter::IteratorSpec;

verus! {

/// Index of the first space of `s`, or the length of `s` when it holds none.
pub open spec fn first_space(s: Seq<char>) -> int
    decreases s.len(),
{
    if s.len() == 0 {
        0
    } else if s[0] == ' ' {
        0
    } else {
        1 + first_space(s.drop_first())
    }
}

/// Whether `s` holds a space at all.
pub open spec fn has_space(s: Seq<char>) -> bool {
    first_space(s) < s.len()
}

/// What stands before the first space of `s`: all of `s` when it holds none.
pub open spec fn before_space(s: Seq<char>) -> Seq<char> {
    s.subrange(0, first_space(s))
}

/// What stands behind the first space of `s`; meaningful when `has_space(s)`.
pub open spec fn after_space(s: Seq<char>) -> Seq<char> {
    s.subrange(first_space(s) + 1, s.len() as int)
}

/// `first_space` is the one index with no space before it that either holds
/// a space or is the end of the text.
pub proof fn lemma_first_space(s: Seq<char>, i: int)
    requires
        0 <= i <= s.len(),
        forall|j: int| 0 <= j < i ==> s[j] != ' ',
        i < s.len() ==> s[i] == ' ',
    ensures
        first_space(s) == i,
    decreases s.len(),
{
    if s.len() == 0 || i == 0 {
    } else {
        let rest = s.drop_first();
        assert forall|j: int| 0 <= j < i - 1 implies rest[j] != ' ' by {
            assert(rest[j] == s[j + 1]);
        }
        lemma_first_space(rest, i - 1);
    }
}

/// `first_space` lies within the text, no space stands before it, and a
/// space stands at it unless it is the end.
pub proof fn lemma_first_space_bounds(s: Seq<char>)
    ensures
        0 <= first_space(s) <= s.len(),
        forall|j: int| 0 <= j < first_space(s) ==> s[j] != ' ',
        first_space(s) < s.len() ==> s[first_space(s)] == ' ',
    decreases s.len(),
{
    if s.len() == 0 || s[0] == ' ' {
    } else {
        let rest = s.drop_first();
        lemma_first_space_bounds(rest);
        assert forall|j: int| 0 <= j < first_space(s) implies s[j] != ' ' by {
            if j > 0 {
                assert(rest[j - 1] == s[j]);
            }
        }
    }
}

/// Equality of two string slices, as `str`'s `==` decides it: the two hold
/// the same characters in the same order.
#[verifier::external_body]
pub(crate) fn str_eq(a: &str, b: &str) -> (same: bool)
    ensures
        same == (a@ == b@),
{
    a == b
}

/// Finds the first space of `s`, counting in characters.
pub fn find_space(s: &str) -> (at: usize)
    ensures
        at == first_space(s@),
{
    let n = s.unicode_len();
    let mut it = s.chars();
    let mut i: usize = 0;
    loop
        invariant
            n == s@.len(),
            0 <= i <= n,
            it.remaining() == s@.subrange(i as int, n as int),
            forall|j: int| 0 <= j < i ==> s@[j] != ' ',
        decreases n - i,
    {
        match it.next() {
            Some(c) => {
                if c == ' ' {
                    proof {
                        lemma_first_space(s@, i as int);
                    }
                    return i;
                }
                i = i + 1;
            },
            None => {
                proof {
                    lemma_first_space(s@, i as int);
                }
                return i;
            },
        }
    }
}

/// Cuts `s` at its first space. The first part is what stands before that
/// space (all of `s` when there is none); the second is what stands behind
/// it, and is `None` when `s` holds no space.
pub fn split_at_space(s: &str) -> (parts: (&str, Option<&str>))
    ensures
        parts.0@ == before_space(s@),
        has_space(s@) ==> parts.1.is_some() && parts.1.unwrap()@ == after_space(s@),
        !has_space(s@) ==> parts.1.is_none(),
{
    let n = s.unicode_len();
    let at = find_space(s);
    proof {
        lemma_first_space_bounds(s@);
    }
    if at < n {
        (s.substring_char(0, at), Some(s.substring_char(at + 1, n)))
    } else {
        assert(before_space(s@) =~= s@);
        (s, None)
    }
}

} // verus!
