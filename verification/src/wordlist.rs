//! Batch validation of a user-supplied word list against the built-in one.

use vstd::prelude::*;
use crate::words::contains_word;
use crate::words::in_list;
use crate::words::words_equal;
use crate::words::words_view;

verus! {

/// Every word of `new` occurs in `base`.
pub open spec fn subset_of(new: Seq<Seq<u8>>, base: Seq<Seq<u8>>) -> bool {
    forall|i: int| 0 <= i < new.len() ==> in_list(base, #[trigger] new[i])
}

/// No word occurs twice in the list.
pub open spec fn no_duplicates(l: Seq<Seq<u8>>) -> bool {
    forall|i: int, j: int| 0 <= i < j < l.len() ==> l[i] != l[j]
}

/// A replacement word list is accepted only if it is a subset of the list it
/// replaces and repeats no word.
pub fn check_valid_list(new: &Vec<Vec<u8>>, base: &Vec<Vec<u8>>) -> (r: bool)
    ensures
        r == (subset_of(words_view(new@), words_view(base@)) && no_duplicates(words_view(new@))),
{
    let ghost nv = words_view(new@);
    let ghost bv = words_view(base@);
    let n = new.len();
    let mut i: usize = 0;
    while i < n
        invariant
            i <= n,
            n == new@.len(),
            nv == words_view(new@),
            bv == words_view(base@),
            forall|k: int| 0 <= k < i ==> in_list(bv, #[trigger] nv[k]),
        decreases n - i,
    {
        if !contains_word(base, &new[i]) {
            proof {
                assert(!subset_of(nv, bv)) by {
                    if subset_of(nv, bv) {
                        assert(in_list(bv, nv[i as int]));
                    }
                }
            }
            return false;
        }
        i = i + 1;
    }
    let mut i: usize = 0;
    while i < n
        invariant
            i <= n,
            n == new@.len(),
            nv == words_view(new@),
            forall|k: int, l: int| 0 <= k < l < i ==> nv[k] != nv[l],
        decreases n - i,
    {
        let mut j: usize = 0;
        while j < i
            invariant
                j <= i < n,
                n == new@.len(),
                nv == words_view(new@),
                forall|k: int, l: int| 0 <= k < l < i ==> nv[k] != nv[l],
                forall|k: int| 0 <= k < j ==> nv[k] != nv[i as int],
            decreases i - j,
        {
            if words_equal(&new[j], &new[i]) {
                proof {
                    assert(!no_duplicates(nv)) by {
                        if no_duplicates(nv) {
                            assert(nv[j as int] != nv[i as int]);
                        }
                    }
                }
                return false;
            }
            j = j + 1;
        }
        i = i + 1;
    }
    true
}

} // verus!
