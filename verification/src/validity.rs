//! Gates on a candidate guess: format and list membership, the hard-mode
//! constraint, and the hint-mode candidate filter.

use vstd::prelude::*;
use crate::compare::compare;
use crate::compare::count_occ;
use crate::compare::feedback;
use crate::status::Status;
use crate::words::contains_word;
use crate::words::in_list;
use crate::words::is_letter;
use crate::words::is_word;
use crate::words::well_formed;
use crate::words::words_view;

verus! {

/// A candidate guess is accepted when it is a well-formed word and occurs in
/// the final list, or — when the round does not insist on final words — in
/// the acceptable list.
pub open spec fn valid_input_spec(
    w: Seq<u8>,
    is_final: bool,
    final_list: Seq<Seq<u8>>,
    acceptable_list: Seq<Seq<u8>>,
) -> bool {
    is_word(w) && (in_list(final_list, w) || (!is_final && in_list(acceptable_list, w)))
}

/// Format and membership check of a candidate guess.
pub fn valid_input(
    word: &Vec<u8>,
    is_final: bool,
    final_list: &Vec<Vec<u8>>,
    acceptable_list: &Vec<Vec<u8>>,
) -> (r: bool)
    ensures
        r == valid_input_spec(word@, is_final, words_view(final_list@), words_view(acceptable_list@)),
{
    if !well_formed(word) {
        return false;
    }
    if contains_word(final_list, word) {
        return true;
    }
    if !is_final && contains_word(acceptable_list, word) {
        return true;
    }
    false
}

/// Does the guess contain letter `c` anywhere?
pub fn contains_letter(w: &Vec<u8>, c: u8) -> (r: bool)
    requires
        is_word(w@),
    ensures
        r == (count_occ(w@, c, 5) > 0),
{
    let mut i: usize = 0;
    while i < 5
        invariant
            i <= 5,
            is_word(w@),
            count_occ(w@, c, i as int) == 0,
        decreases 5 - i,
    {
        if w[i] == c {
            proof {
                crate::compare::lemma_count_occ_mono(w@, c, i + 1, 5);
            }
            return true;
        }
        i = i + 1;
    }
    false
}

/// Records the positions confirmed Green by the latest feedback: a position
/// already fixed stays fixed, and a freshly Green position becomes fixed.
pub fn update_known_greens(greens: &Vec<Status>, fb: &Vec<Status>) -> (r: Vec<Status>)
    requires
        greens@.len() == 5,
        fb@.len() == 5,
    ensures
        r@.len() == 5,
        forall|i: int|
            0 <= i < 5 ==> #[trigger] r@[i] == (if fb@[i] == Status::G {
                Status::G
            } else {
                greens@[i]
            }),
{
    let mut r: Vec<Status> = Vec::new();
    let mut i: usize = 0;
    while i < 5
        invariant
            i <= 5,
            greens@.len() == 5,
            fb@.len() == 5,
            r@.len() == i,
            forall|j: int|
                0 <= j < i ==> #[trigger] r@[j] == (if fb@[j] == Status::G {
                    Status::G
                } else {
                    greens@[j]
                }),
        decreases 5 - i,
    {
        if fb[i] == Status::G {
            r.push(Status::G);
        } else {
            r.push(greens[i]);
        }
        i = i + 1;
    }
    r
}

/// The hard-mode constraint: every position fixed Green must repeat the
/// answer's letter there, and every letter known Yellow must occur somewhere
/// in the guess.
pub open spec fn hard_mode_ok(
    guess: Seq<u8>,
    answer: Seq<u8>,
    greens: Seq<Status>,
    alphabet: Seq<Status>,
) -> bool {
    (forall|i: int| 0 <= i < 5 && #[trigger] greens[i] == Status::G ==> guess[i] == answer[i])
        && (forall|c: u8|
        is_letter(c) && #[trigger] alphabet[c - 65] == Status::Y ==> count_occ(guess, c, 5) > 0)
}

/// Hard-mode check of a candidate guess against the accumulated knowledge.
pub fn check_valid_difficult(
    guess: &Vec<u8>,
    answer: &Vec<u8>,
    greens: &Vec<Status>,
    alphabet: &Vec<Status>,
) -> (r: bool)
    requires
        is_word(guess@),
        is_word(answer@),
        greens@.len() == 5,
        alphabet@.len() == 26,
    ensures
        r == hard_mode_ok(guess@, answer@, greens@, alphabet@),
{
    let mut i: usize = 0;
    while i < 5
        invariant
            i <= 5,
            is_word(guess@),
            is_word(answer@),
            greens@.len() == 5,
            forall|j: int|
                0 <= j < i && #[trigger] greens@[j] == Status::G ==> guess@[j] == answer@[j],
        decreases 5 - i,
    {
        if greens[i] == Status::G && guess[i] != answer[i] {
            proof {
                assert(!hard_mode_ok(guess@, answer@, greens@, alphabet@)) by {
                    if hard_mode_ok(guess@, answer@, greens@, alphabet@) {
                        assert(greens@[i as int] == Status::G);
                    }
                }
            }
            return false;
        }
        i = i + 1;
    }
    let mut k: usize = 0;
    while k < 26
        invariant
            k <= 26,
            is_word(guess@),
            is_word(answer@),
            greens@.len() == 5,
            alphabet@.len() == 26,
            forall|j: int|
                0 <= j < i && #[trigger] greens@[j] == Status::G ==> guess@[j] == answer@[j],
            i == 5,
            forall|c: u8|
                is_letter(c) && c - 65 < k && #[trigger] alphabet@[c - 65] == Status::Y
                    ==> count_occ(guess@, c, 5) > 0,
        decreases 26 - k,
    {
        if alphabet[k] == Status::Y {
            let c = (k as u8) + 65;
            if !contains_letter(guess, c) {
                proof {
                    assert(!hard_mode_ok(guess@, answer@, greens@, alphabet@)) by {
                        if hard_mode_ok(guess@, answer@, greens@, alphabet@) {
                            assert(alphabet@[c - 65] == Status::Y);
                        }
                    }
                }
                return false;
            }
        }
        k = k + 1;
    }
    true
}

/// Hard mode rejects a guess that changes a previously fixed Green letter.
pub proof fn lemma_hard_mode_rejects_changed_green(
    guess: Seq<u8>,
    answer: Seq<u8>,
    greens: Seq<Status>,
    alphabet: Seq<Status>,
    i: int,
)
    requires
        0 <= i < 5,
        greens[i] == Status::G,
        guess[i] != answer[i],
    ensures
        !hard_mode_ok(guess, answer, greens, alphabet),
{
}

/// Hard mode rejects a guess that omits a letter already confirmed Yellow.
pub proof fn lemma_hard_mode_rejects_missing_yellow(
    guess: Seq<u8>,
    answer: Seq<u8>,
    greens: Seq<Status>,
    alphabet: Seq<Status>,
    c: u8,
)
    requires
        is_letter(c),
        alphabet[c - 65] == Status::Y,
        count_occ(guess, c, 5) == 0,
    ensures
        !hard_mode_ok(guess, answer, greens, alphabet),
{
}

/// A candidate answer stays possible exactly when scoring the submitted
/// guess against it reproduces the observed feedback.  Stricter rules that
/// add positional constraints for Yellow and Red letters are conceivable;
/// the round applies feedback reproduction and nothing more.
pub open spec fn hint_keeps(cand: Seq<u8>, guess: Seq<u8>, status: Seq<Status>) -> bool {
    feedback(cand, guess) == status
}

/// Does the candidate reproduce the observed feedback for the guess?
pub fn check_valid_hint(status: &Vec<Status>, cand: &Vec<u8>, word: &Vec<u8>) -> (r: bool)
    requires
        status@.len() == 5,
        is_word(cand@),
        is_word(word@),
    ensures
        r == hint_keeps(cand@, word@, status@),
{
    let (e_status, _) = compare(cand, word);
    let mut i: usize = 0;
    while i < 5
        invariant
            i <= 5,
            status@.len() == 5,
            e_status@ == feedback(cand@, word@),
            forall|j: int| 0 <= j < i ==> e_status@[j] == status@[j],
        decreases 5 - i,
    {
        if e_status[i] != status[i] {
            proof {
                assert(e_status@ != status@);
            }
            return false;
        }
        i = i + 1;
    }
    proof {
        assert(e_status@ =~= status@);
    }
    true
}

/// Intersects the hint pool with the candidates that reproduce the latest
/// feedback.  The pool never grows.
#[verifier::loop_isolation(false)]
pub fn filter_possible(possible: &Vec<Vec<u8>>, status: &Vec<Status>, word: &Vec<u8>) -> (r: Vec<
    Vec<u8>,
>)
    requires
        forall|i: int| 0 <= i < possible@.len() ==> is_word(#[trigger] possible@[i]@),
        status@.len() == 5,
        is_word(word@),
    ensures
        words_view(r@) == words_view(possible@).filter(
            |c: Seq<u8>| hint_keeps(c, word@, status@),
        ),
        r@.len() <= possible@.len(),
        forall|i: int| 0 <= i < r@.len() ==> is_word(#[trigger] r@[i]@),
{
    let ghost pred = |c: Seq<u8>| hint_keeps(c, word@, status@);
    let ghost wv = words_view(possible@);
    let mut r: Vec<Vec<u8>> = Vec::new();
    let n = possible.len();
    proof {
        reveal(Seq::filter);
        assert(words_view(r@) =~= wv.subrange(0, 0).filter(pred));
    }
    let mut i: usize = 0;
    while i < n
        invariant
            i <= n,
            words_view(r@) == wv.subrange(0, i as int).filter(pred),
            r@.len() <= i,
            forall|j: int| 0 <= j < r@.len() ==> is_word(#[trigger] r@[j]@),
        decreases n - i,
    {
        let ghost prefix = wv.subrange(0, i as int);
        let ghost next = wv.subrange(0, i + 1);
        proof {
            reveal(Seq::filter);
            assert(next.drop_last() =~= prefix);
            assert(next.last() == possible@[i as int]@);
        }
        let cand = &possible[i];
        if check_valid_hint(status, cand, word) {
            let copy = cand.clone();
            proof {
                assert forall|j: int| 0 <= j < copy@.len() implies copy@[j] == cand@[j] by {
                    assert(cloned::<u8>(cand@[j], copy@[j]));
                }
                assert(copy@ =~= cand@);
                assert(pred(next.last()));
            }
            r.push(copy);
            proof {
                reveal(Seq::filter);
                assert(words_view(r@) =~= next.filter(pred));
            }
        } else {
            proof {
                reveal(Seq::filter);
                assert(!pred(next.last()));
                assert(words_view(r@) =~= next.filter(pred));
            }
        }
        i = i + 1;
    }
    proof {
        assert(wv.subrange(0, n as int) =~= wv);
        assert(pred =~= (|c: Seq<u8>| hint_keeps(c, word@, status@)));
        wv.lemma_filter_len(pred);
    }
    r
}

} // verus!
