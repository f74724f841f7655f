//! Where an element first occurs in a sequence.
use vstd::prelude::*;

verus! {

/// Index of the first element of `s` that equals `needle`; the length of `s`
/// where none does.
pub open spec fn position<T>(s: Seq<T>, needle: T) -> nat
    decreases s.len(),
{
    if s.len() == 0 || s[0] == needle {
        0
    } else {
        1 + position(s.skip(1), needle)
    }
}

/// `position` lies within the sequence or at its end, no element before it
/// equals the needle, and the element at it does.
pub proof fn lemma_position_first<T>(s: Seq<T>, needle: T)
    ensures
        position(s, needle) <= s.len(),
        forall|i: int| 0 <= i < position(s, needle) ==> s[i] != needle,
        position(s, needle) < s.len() ==> s[position(s, needle) as int] == needle,
    decreases s.len(),
{
    if s.len() == 0 || s[0] == needle {
    } else {
        let rest = s.skip(1);
        lemma_position_first(rest, needle);
        assert forall|i: int| 0 <= i < position(s, needle) implies s[i] != needle by {
            if i > 0 {
                assert(s[i] == rest[i - 1]);
            }
        }
    }
}

/// An index with no needle before it, which holds the needle or is the end of
/// the sequence, is the `position` of the needle.
pub proof fn lemma_position_is<T>(s: Seq<T>, needle: T, k: int)
    requires
        0 <= k <= s.len(),
        forall|i: int| 0 <= i < k ==> s[i] != needle,
        k < s.len() ==> s[k] == needle,
    ensures
        position(s, needle) == k,
    decreases k,
{
    if k > 0 {
        let rest = s.skip(1);
        assert(forall|i: int| 0 <= i < k - 1 ==> rest[i] != needle);
        lemma_position_is(rest, needle, k - 1);
    }
}

} // verus!
