//! The round controller: up to six validated guesses driven to a terminal
//! outcome, with the accumulated alphabet state, the fixed Green positions,
//! and the hint-mode candidate pool carried along.

use vstd::prelude::*;
use crate::compare::all_green;
use crate::compare::check_correct;
use crate::compare::compare;
use crate::compare::feedback;
use crate::compare::letter_status;
use crate::status::merge_seq;
use crate::status::Status;
use crate::status::merge;
use crate::validity::check_valid_difficult;
use crate::validity::filter_possible;
use crate::validity::hard_mode_ok;
use crate::validity::hint_keeps;
use crate::validity::valid_input;
use crate::validity::valid_input_spec;
use crate::validity::update_known_greens;
use crate::words::copy_word;
use crate::words::copy_words;
use crate::words::is_letter;
use crate::words::is_word;
use crate::words::words_view;

verus! {

/// The one recoverable failure: a candidate guess that the round refuses.
/// It never consumes an attempt.
#[derive(Clone, Copy, PartialEq, Eq, Structural, Debug)]
#[allow(non_camel_case_types)]
pub enum Error {
    INVALID,
}

/// How a round ended: the answer was guessed, or six attempts ran out.
#[derive(Clone, Copy, PartialEq, Eq, Structural, Debug)]
#[allow(non_camel_case_types)]
pub enum Outcome {
    CORRECT,
    FAILED,
}

/// The per-letter feedback row of one guess over the whole alphabet.
pub open spec fn letter_row(ans: Seq<u8>, g: Seq<u8>) -> Seq<Status> {
    Seq::new(26, |k: int| letter_status(ans, g, (k + 65) as u8))
}

/// The alphabet state before any guess: nothing known.
pub open spec fn init_alphabet() -> Seq<Status> {
    Seq::new(26, |k: int| Status::X)
}

/// The fixed-Green record before any guess: nothing fixed.
pub open spec fn init_greens() -> Seq<Status> {
    Seq::new(5, |i: int| Status::X)
}

/// The alphabet state after folding the letter feedback of each guess in
/// turn into the initial state.
pub open spec fn alphabet_after(ans: Seq<u8>, gs: Seq<Seq<u8>>) -> Seq<Status>
    decreases gs.len(),
{
    if gs.len() == 0 {
        init_alphabet()
    } else {
        merge_seq(alphabet_after(ans, gs.drop_last()), letter_row(ans, gs.last()))
    }
}

/// One step of the fixed-Green record: a freshly Green position becomes
/// fixed, the rest keep their state.
pub open spec fn greens_update(greens: Seq<Status>, fb: Seq<Status>) -> Seq<Status> {
    Seq::new(5, |i: int| if fb[i] == Status::G {
        Status::G
    } else {
        greens[i]
    })
}

/// The fixed-Green record after each guess of the round in turn.
pub open spec fn greens_after(ans: Seq<u8>, gs: Seq<Seq<u8>>) -> Seq<Status>
    decreases gs.len(),
{
    if gs.len() == 0 {
        init_greens()
    } else {
        greens_update(greens_after(ans, gs.drop_last()), feedback(ans, gs.last()))
    }
}

/// The hint pool after intersecting the initial pool with the candidates
/// that reproduce the feedback of each guess in turn.
pub open spec fn pool_after(pool0: Seq<Seq<u8>>, ans: Seq<u8>, gs: Seq<Seq<u8>>) -> Seq<Seq<u8>>
    decreases gs.len(),
{
    if gs.len() == 0 {
        pool0
    } else {
        pool_after(pool0, ans, gs.drop_last()).filter(
            |c: Seq<u8>| hint_keeps(c, gs.last(), feedback(ans, gs.last())),
        )
    }
}

pub proof fn lemma_alphabet_after_len(ans: Seq<u8>, gs: Seq<Seq<u8>>)
    ensures
        alphabet_after(ans, gs).len() == 26,
    decreases gs.len(),
{
    if gs.len() > 0 {
        lemma_alphabet_after_len(ans, gs.drop_last());
    }
}

pub proof fn lemma_greens_after_len(ans: Seq<u8>, gs: Seq<Seq<u8>>)
    ensures
        greens_after(ans, gs).len() == 5,
    decreases gs.len(),
{
    if gs.len() > 0 {
        lemma_greens_after_len(ans, gs.drop_last());
    }
}

/// Knowledge never regresses within a round: after one more guess, no
/// letter of the alphabet state drops in priority, and a position once
/// fixed Green stays fixed.
pub proof fn lemma_round_state_monotonic(ans: Seq<u8>, gs: Seq<Seq<u8>>, g: Seq<u8>)
    ensures
        forall|k: int|
            0 <= k < 26 ==> (#[trigger] alphabet_after(ans, gs.push(g))[k]).priority()
                >= alphabet_after(ans, gs)[k].priority(),
        forall|i: int|
            0 <= i < 5 && greens_after(ans, gs)[i] == Status::G ==> (#[trigger] greens_after(
                ans,
                gs.push(g),
            )[i]) == Status::G,
{
    let next = gs.push(g);
    assert(next.drop_last() =~= gs);
    assert(next.last() == g);
    lemma_alphabet_after_len(ans, gs);
    lemma_greens_after_len(ans, gs);
    assert forall|k: int|
        0 <= k < 26 implies (#[trigger] alphabet_after(ans, next)[k]).priority() >= alphabet_after(
        ans,
        gs,
    )[k].priority() by {
        crate::status::lemma_merge_monotonic(alphabet_after(ans, gs)[k], letter_row(ans, g)[k]);
    }
}

/// One round of the game: the fixed answer, the guesses so far, the state
/// accumulated from them, and the terminal outcome once one is reached.
pub struct Round {
    /// The hidden answer, five uppercase letters.
    pub answer: Vec<u8>,
    /// Number of attempts consumed so far.
    pub count: usize,
    /// Accumulated alphabet knowledge across the guesses.
    pub alphabet: Vec<Status>,
    /// Positions confirmed Green so far.
    pub greens: Vec<Status>,
    /// The guesses accepted so far, in order.
    pub guesses: Vec<Vec<u8>>,
    /// Hint mode: the candidate answers still consistent with all feedback.
    pub possible: Vec<Vec<u8>>,
    /// Whether the hard-mode constraint gates each guess.
    pub is_difficult: bool,
    /// Whether the candidate pool is maintained.
    pub is_hint: bool,
    /// The terminal outcome, once the round is over.
    pub finished: Option<Outcome>,
    /// The candidate pool the round started from.
    pub initial_pool: Ghost<Seq<Seq<u8>>>,
}

impl Round {
    /// The guesses as byte sequences.
    pub open spec fn guesses_view(self) -> Seq<Seq<u8>> {
        words_view(self.guesses@)
    }

    /// The hint pool as byte sequences.
    pub open spec fn pool_view(self) -> Seq<Seq<u8>> {
        words_view(self.possible@)
    }

    /// Well-formedness: every field is the fold of the comparator and the
    /// accumulator over the recorded guesses, and the terminal outcome is
    /// exactly what those guesses dictate.
    pub open spec fn wf(self) -> bool {
        &&& is_word(self.answer@)
        &&& self.guesses@.len() <= 6
        &&& self.count == self.guesses@.len()
        &&& forall|i: int| 0 <= i < self.guesses@.len() ==> is_word(#[trigger] self.guesses@[i]@)
        &&& self.alphabet@ == alphabet_after(self.answer@, self.guesses_view())
        &&& (self.is_difficult ==> self.greens@ == greens_after(
            self.answer@,
            self.guesses_view(),
        ))
        &&& (!self.is_difficult ==> self.greens@ == init_greens())
        &&& self.alphabet@.len() == 26
        &&& self.greens@.len() == 5
        &&& forall|i: int| 0 <= i < self.possible@.len() ==> is_word(#[trigger] self.possible@[i]@)
        &&& (self.is_hint ==> self.pool_view() == pool_after(
            self.initial_pool@,
            self.answer@,
            self.guesses_view(),
        ))
        &&& forall|j: int|
            0 <= j < self.guesses@.len() - 1 ==> !all_green(
                feedback(self.answer@, #[trigger] self.guesses@[j]@),
            )
        &&& (self.finished == Some(Outcome::CORRECT) <==> self.guesses@.len() > 0 && all_green(
            feedback(self.answer@, self.guesses_view().last()),
        ))
        &&& (self.finished == Some(Outcome::FAILED) <==> self.guesses@.len() == 6 && !all_green(
            feedback(self.answer@, self.guesses_view().last()),
        ))
    }

    /// Starts a round on the given answer.  In hint mode the candidate pool
    /// starts as the whole acceptable list.
    pub fn new(answer: Vec<u8>, is_difficult: bool, is_hint: bool, acceptable_list: &Vec<Vec<u8>>) -> (r:
        Round)
        requires
            is_word(answer@),
            forall|i: int|
                0 <= i < acceptable_list@.len() ==> is_word(#[trigger] acceptable_list@[i]@),
        ensures
            r.wf(),
            r.answer@ == answer@,
            r.count == 0,
            r.guesses@.len() == 0,
            r.finished.is_none(),
            r.is_difficult == is_difficult,
            r.is_hint == is_hint,
            is_hint ==> r.pool_view() == words_view(acceptable_list@),
            r.initial_pool@ == words_view(acceptable_list@),
    {
        let mut alphabet: Vec<Status> = Vec::new();
        let mut k: usize = 0;
        while k < 26
            invariant
                k <= 26,
                alphabet@.len() == k,
                forall|j: int| 0 <= j < k ==> alphabet@[j] == Status::X,
            decreases 26 - k,
        {
            alphabet.push(Status::X);
            k = k + 1;
        }
        let mut greens: Vec<Status> = Vec::new();
        let mut i: usize = 0;
        while i < 5
            invariant
                i <= 5,
                greens@.len() == i,
                forall|j: int| 0 <= j < i ==> greens@[j] == Status::X,
            decreases 5 - i,
        {
            greens.push(Status::X);
            i = i + 1;
        }
        let possible: Vec<Vec<u8>> = if is_hint {
            copy_words(acceptable_list)
        } else {
            Vec::new()
        };
        let r = Round {
            answer,
            count: 0,
            alphabet,
            greens,
            guesses: Vec::new(),
            possible,
            is_difficult,
            is_hint,
            finished: None,
            initial_pool: Ghost(words_view(acceptable_list@)),
        };
        proof {
            assert(r.guesses_view() =~= Seq::<Seq<u8>>::empty());
            assert(r.alphabet@ =~= init_alphabet());
            assert(r.greens@ =~= init_greens());
            if is_hint {
                assert(r.pool_view() =~= words_view(acceptable_list@));
            }
        }
        r
    }

    /// Submits one candidate guess.
    ///
    /// A guess that fails the format/membership check, or — in hard mode —
    /// the hard-mode constraint, is refused: the round is left exactly as it
    /// was and no attempt is consumed.  An accepted guess consumes one
    /// attempt, is scored by the comparator, folded into the alphabet state
    /// and the fixed-Green record, narrows the hint pool, and ends the round
    /// when it is all Green or when it was the sixth attempt.
    pub fn guess(
        &mut self,
        word: &Vec<u8>,
        final_list: &Vec<Vec<u8>>,
        acceptable_list: &Vec<Vec<u8>>,
    ) -> (res: Result<Vec<Status>, Error>)
        requires
            old(self).wf(),
            old(self).finished.is_none(),
        ensures
            final(self).wf(),
            final(self).answer@ == old(self).answer@,
            final(self).is_difficult == old(self).is_difficult,
            final(self).is_hint == old(self).is_hint,
            final(self).initial_pool == old(self).initial_pool,
            ({
                let ans = old(self).answer@;
                let accepted = valid_input_spec(
                    word@,
                    false,
                    words_view(final_list@),
                    words_view(acceptable_list@),
                ) && (old(self).is_difficult ==> hard_mode_ok(
                    word@,
                    ans,
                    old(self).greens@,
                    old(self).alphabet@,
                ));
                match res {
                    Result::Err(e) => !accepted && e == Error::INVALID && *final(self) == *old(self),
                    Result::Ok(fb) => {
                        &&& accepted
                        &&& fb@ == feedback(ans, word@)
                        &&& final(self).count == old(self).count + 1
                        &&& final(self).guesses_view() == old(self).guesses_view().push(word@)
                        &&& final(self).alphabet@ == merge_seq(
                            old(self).alphabet@,
                            letter_row(ans, word@),
                        )
                        &&& (old(self).is_difficult ==> final(self).greens@ == greens_update(
                            old(self).greens@,
                            feedback(ans, word@),
                        ))
                        &&& (!old(self).is_difficult ==> final(self).greens@ == old(self).greens@)
                        &&& (old(self).is_hint ==> final(self).pool_view() == old(
                            self,
                        ).pool_view().filter(
                            (|c: Seq<u8>| hint_keeps(c, word@, feedback(old(self).answer@, word@))),
                        ))
                        &&& (!old(self).is_hint ==> final(self).pool_view() == old(self).pool_view())
                        &&& final(self).pool_view().len() <= old(self).pool_view().len()
                        &&& final(self).finished == (if all_green(feedback(ans, word@)) {
                            Some(Outcome::CORRECT)
                        } else if old(self).count + 1 == 6 {
                            Some(Outcome::FAILED)
                        } else {
                            None::<Outcome>
                        })
                    },
                }
            }),
    {
        if !valid_input(word, false, final_list, acceptable_list) {
            return Result::Err(Error::INVALID);
        }
        if self.is_difficult && !check_valid_difficult(
            word,
            &self.answer,
            &self.greens,
            &self.alphabet,
        ) {
            return Result::Err(Error::INVALID);
        }
        let ghost ans = self.answer@;
        let ghost old_gv = self.guesses_view();
        let ghost new_gv = old_gv.push(word@);

        let (fb_row, letter_fb) = compare(&self.answer, word);
        self.guesses.push(copy_word(word));
        self.count = self.count + 1;
        proof {
            assert(self.guesses_view() =~= new_gv);
            assert(new_gv.drop_last() =~= old_gv);
            assert(new_gv.last() == word@);
        }

        let alphabet = merge(&self.alphabet, &letter_fb);
        self.alphabet = alphabet;
        proof {
            assert forall|k: int| 0 <= k < 26 implies letter_fb@[k] == letter_status(
                ans,
                word@,
                (k + 65) as u8,
            ) by {
                let c = (k + 65) as u8;
                assert(is_letter(c));
                assert(c - 65 == k);
                assert(letter_fb@[c - 65] == letter_status(ans, word@, c));
            }
            assert(letter_fb@ =~= letter_row(ans, word@));
            assert(self.alphabet@ == merge_seq(
                alphabet_after(ans, old_gv),
                letter_row(ans, new_gv.last()),
            ));
        }

        if self.is_difficult {
            let greens = update_known_greens(&self.greens, &fb_row);
            self.greens = greens;
            proof {
                assert(self.greens@ =~= greens_update(
                    greens_after(ans, old_gv),
                    feedback(ans, word@),
                ));
            }
        }

        if self.is_hint {
            let narrowed = filter_possible(&self.possible, &fb_row, word);
            self.possible = narrowed;
            proof {
                let inner = |c: Seq<u8>| hint_keeps(c, word@, fb_row@);
                let outer = |c: Seq<u8>| hint_keeps(c, new_gv.last(), feedback(ans, new_gv.last()));
                assert(inner =~= outer);
            }
        }

        if check_correct(&fb_row) {
            self.finished = Some(Outcome::CORRECT);
        } else if self.count == 6 {
            self.finished = Some(Outcome::FAILED);
        }
        Result::Ok(fb_row)
    }
}

/// A prefix of the guess sequence that wins at attempt `n`: the `n`-th guess
/// scores all Green and no earlier one does.
pub open spec fn winning_attempt(ans: Seq<u8>, gs: Seq<Seq<u8>>, n: int) -> bool {
    1 <= n <= gs.len() && all_green(feedback(ans, gs[n - 1])) && forall|j: int|
        0 <= j < n - 1 ==> !all_green(feedback(ans, #[trigger] gs[j]))
}

/// The terminal result that replaying a guess sequence through the
/// comparator yields: a win at the first all-Green attempt, a loss after
/// six attempts without one, and no result while attempts remain.
pub open spec fn replay_result(ans: Seq<u8>, gs: Seq<Seq<u8>>) -> Option<(Outcome, int)> {
    if exists|n: int| winning_attempt(ans, gs, n) {
        Some((Outcome::CORRECT, choose|n: int| winning_attempt(ans, gs, n)))
    } else if gs.len() >= 6 {
        Some((Outcome::FAILED, 6))
    } else {
        None
    }
}

/// At most one attempt can be the first winning one.
pub proof fn lemma_winning_attempt_unique(ans: Seq<u8>, gs: Seq<Seq<u8>>, n1: int, n2: int)
    requires
        winning_attempt(ans, gs, n1),
        winning_attempt(ans, gs, n2),
    ensures
        n1 == n2,
{
    if n1 < n2 {
        assert(!all_green(feedback(ans, gs[n1 - 1])));
    }
    if n2 < n1 {
        assert(!all_green(feedback(ans, gs[n2 - 1])));
    }
}

/// Replays a recorded guess sequence through the comparator and reports the
/// terminal result it reaches.
pub fn replay(answer: &Vec<u8>, guesses: &Vec<Vec<u8>>) -> (r: Option<(Outcome, usize)>)
    requires
        is_word(answer@),
        forall|i: int| 0 <= i < guesses@.len() ==> is_word(#[trigger] guesses@[i]@),
        guesses@.len() <= 6,
    ensures
        match r {
            Some((o, n)) => replay_result(answer@, words_view(guesses@)) == Some((o, n as int)),
            None => replay_result(answer@, words_view(guesses@)).is_none(),
        },
{
    let ghost gv = words_view(guesses@);
    let n = guesses.len();
    let mut i: usize = 0;
    while i < n
        invariant
            i <= n,
            n == guesses@.len() <= 6,
            is_word(answer@),
            gv == words_view(guesses@),
            forall|j: int| 0 <= j < guesses@.len() ==> is_word(#[trigger] guesses@[j]@),
            forall|j: int| 0 <= j < i ==> !all_green(feedback(answer@, #[trigger] gv[j])),
        decreases n - i,
    {
        let (fb_row, _) = compare(answer, &guesses[i]);
        if check_correct(&fb_row) {
            proof {
                assert(winning_attempt(answer@, gv, i + 1));
                let w = choose|m: int| winning_attempt(answer@, gv, m);
                lemma_winning_attempt_unique(answer@, gv, w, i + 1);
            }
            return Some((Outcome::CORRECT, i + 1));
        }
        i = i + 1;
    }
    proof {
        assert(!exists|m: int| winning_attempt(answer@, gv, m)) by {
            if exists|m: int| winning_attempt(answer@, gv, m) {
                let m = choose|m: int| winning_attempt(answer@, gv, m);
                assert(!all_green(feedback(answer@, gv[m - 1])));
            }
        }
    }
    if n == 6 {
        Some((Outcome::FAILED, 6))
    } else {
        None
    }
}

/// Round trip: the terminal outcome and attempt count that a finished round
/// recorded are exactly what replaying its guess sequence through the
/// comparator yields again.
pub proof fn lemma_round_trip(r: Round)
    requires
        r.wf(),
        r.finished.is_some(),
    ensures
        match r.finished {
            Some(o) => replay_result(r.answer@, r.guesses_view()) == Some((o, r.count as int)),
            None => false,
        },
{
    let ans = r.answer@;
    let gv = r.guesses_view();
    if r.finished == Some(Outcome::CORRECT) {
        assert(winning_attempt(ans, gv, gv.len() as int));
        let w = choose|m: int| winning_attempt(ans, gv, m);
        lemma_winning_attempt_unique(ans, gv, w, gv.len() as int);
    } else {
        assert(r.finished == Some(Outcome::FAILED));
        assert(!exists|m: int| winning_attempt(ans, gv, m)) by {
            if exists|m: int| winning_attempt(ans, gv, m) {
                let m = choose|m: int| winning_attempt(ans, gv, m);
                assert(!all_green(feedback(ans, gv[m - 1])));
            }
        }
    }
}

} // verus!
