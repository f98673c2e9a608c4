//! Words as sequences of uppercase ASCII letters.
//!
//! An answer or a guess is exactly five uppercase letters; word lists are
//! vectors of such words.  The surrounding program normalizes raw text to
//! this form before it reaches the library.

use vstd::prelude::*;

verus! {

/// An uppercase ASCII letter.
pub open spec fn is_letter(b: u8) -> bool {
    65 <= b && b <= 90
}

/// A well-formed word: exactly five uppercase ASCII letters.
pub open spec fn is_word(w: Seq<u8>) -> bool {
    w.len() == 5 && forall|i: int| 0 <= i < w.len() ==> is_letter(#[trigger] w[i])
}

/// The word occurs in the list.
pub open spec fn in_list(list: Seq<Seq<u8>>, w: Seq<u8>) -> bool {
    exists|i: int| 0 <= i < list.len() && list[i] == w
}

/// The mathematical view of a word list: each word as its byte sequence.
pub open spec fn words_view(list: Seq<Vec<u8>>) -> Seq<Seq<u8>> {
    list.map_values(|v: Vec<u8>| v@)
}

/// Byte-for-byte equality of two words.
pub fn words_equal(a: &Vec<u8>, b: &Vec<u8>) -> (r: bool)
    ensures
        r == (a@ == b@),
{
    if a.len() != b.len() {
        proof {
            assert(a@ != b@);
        }
        return false;
    }
    let n = a.len();
    let mut i: usize = 0;
    while i < n
        invariant
            i <= n,
            n == a@.len(),
            n == b@.len(),
            forall|j: int| 0 <= j < i ==> a@[j] == b@[j],
        decreases n - i,
    {
        if a[i] != b[i] {
            proof {
                assert(a@ != b@);
            }
            return false;
        }
        i = i + 1;
    }
    proof {
        assert(a@ =~= b@);
    }
    true
}

/// Linear membership test of a word in a list.
pub fn contains_word(list: &Vec<Vec<u8>>, w: &Vec<u8>) -> (r: bool)
    ensures
        r == in_list(words_view(list@), w@),
{
    let ghost model = words_view(list@);
    let n = list.len();
    let mut i: usize = 0;
    while i < n
        invariant
            i <= n,
            n == list@.len(),
            model == list@.map_values(|v: Vec<u8>| v@),
            forall|j: int| 0 <= j < i ==> model[j] != w@,
        decreases n - i,
    {
        if words_equal(&list[i], w) {
            proof {
                assert(model[i as int] == w@);
            }
            return true;
        }
        i = i + 1;
    }
    false
}

/// An owned byte-for-byte copy of a word.
pub fn copy_word(w: &Vec<u8>) -> (r: Vec<u8>)
    ensures
        r@ == w@,
{
    let mut r: Vec<u8> = Vec::new();
    let n = w.len();
    let mut i: usize = 0;
    while i < n
        invariant
            i <= n,
            n == w@.len(),
            r@ == w@.subrange(0, i as int),
        decreases n - i,
    {
        r.push(w[i]);
        proof {
            assert(r@ =~= w@.subrange(0, i + 1));
        }
        i = i + 1;
    }
    proof {
        assert(w@.subrange(0, n as int) =~= w@);
    }
    r
}

/// An owned copy of a word list.
pub fn copy_words(list: &Vec<Vec<u8>>) -> (r: Vec<Vec<u8>>)
    ensures
        r@.len() == list@.len(),
        forall|i: int| 0 <= i < list@.len() ==> #[trigger] r@[i]@ == list@[i]@,
        words_view(r@) == words_view(list@),
{
    let mut r: Vec<Vec<u8>> = Vec::new();
    let n = list.len();
    let mut i: usize = 0;
    while i < n
        invariant
            i <= n,
            n == list@.len(),
            r@.len() == i,
            forall|j: int| 0 <= j < i ==> #[trigger] r@[j]@ == list@[j]@,
        decreases n - i,
    {
        r.push(copy_word(&list[i]));
        i = i + 1;
    }
    proof {
        assert(words_view(r@) =~= words_view(list@));
    }
    r
}

/// Checks that a word is exactly five uppercase ASCII letters.
pub fn well_formed(w: &Vec<u8>) -> (r: bool)
    ensures
        r == is_word(w@),
{
    if w.len() != 5 {
        return false;
    }
    let mut i: usize = 0;
    while i < 5
        invariant
            i <= 5,
            w@.len() == 5,
            forall|j: int| 0 <= j < i ==> is_letter(#[trigger] w@[j]),
        decreases 5 - i,
    {
        let b = w[i];
        if b < 65 || b > 90 {
            return false;
        }
        i = i + 1;
    }
    true
}

} // verus!
