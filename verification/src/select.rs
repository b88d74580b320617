//! Which element of a list wins: the first least, the last greatest.

use vstd::prelude::*;

verus! {

/// The position of the first least element of `s`.
pub open spec fn first_least(s: Seq<int>) -> int
    decreases s.len(),
{
    if s.len() <= 1 {
        0
    } else {
        let m = first_least(s.drop_last());
        if s.last() < s[m] {
            s.len() - 1
        } else {
            m
        }
    }
}

/// The first least element is in the list, nothing is less, and everything
/// before it is greater.
pub proof fn first_least_is_least(s: Seq<int>)
    requires
        s.len() > 0,
    ensures
        0 <= first_least(s) < s.len(),
        forall|i: int| 0 <= i < s.len() ==> s[first_least(s)] <= #[trigger] s[i],
        forall|i: int| 0 <= i < first_least(s) ==> s[first_least(s)] < #[trigger] s[i],
    decreases s.len(),
{
    if s.len() > 1 {
        let t = s.drop_last();
        first_least_is_least(t);
        assert forall|i: int| 0 <= i < s.len() implies s[first_least(s)] <= #[trigger] s[i] by {
            if i < t.len() {
                assert(t[i] == s[i]);
            }
        }
        assert forall|i: int| 0 <= i < first_least(s) implies s[first_least(s)]
            < #[trigger] s[i] by {
            assert(t[i] == s[i]);
        }
    }
}

} // verus!
