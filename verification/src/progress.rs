//! The session record: finished rounds as answer/guess-list pairs, and the
//! results derived from them.
//!
//! The surrounding program persists and restores these records; the library
//! owns their shape and everything computed from them.

use vstd::prelude::*;
use crate::round::Outcome;
use crate::words::copy_words;
use crate::words::words_equal;
use crate::words::words_view;

verus! {

/// One finished round: the answer and the ordered guesses.
pub struct Game {
    pub answer: Vec<u8>,
    pub guesses: Vec<Vec<u8>>,
}

/// A whole session: how many rounds were played, and each round's record.
pub struct GameData {
    pub total_rounds: i32,
    pub games: Vec<Game>,
}

/// Appends one finished round to the session record and stores the round
/// total.
pub fn update(data: &mut GameData, guesses: &Vec<Vec<u8>>, total_rounds: i32, answer: Vec<u8>)
    ensures
        final(data).games@.len() == old(data).games@.len() + 1,
        forall|j: int|
            0 <= j < old(data).games@.len() ==> final(data).games@[j] == old(data).games@[j],
        final(data).games@.last().answer@ == answer@,
        words_view(final(data).games@.last().guesses@) == words_view(guesses@),
        final(data).total_rounds == total_rounds,
{
    let game = Game { answer, guesses: copy_words(guesses) };
    data.games.push(game);
    data.total_rounds = total_rounds;
}

/// The outcome a recorded round reports: won exactly when its last guess is
/// its answer.
pub open spec fn game_outcome(ans: Seq<u8>, gs: Seq<Seq<u8>>) -> Outcome {
    if gs.len() > 0 && gs.last() == ans {
        Outcome::CORRECT
    } else {
        Outcome::FAILED
    }
}

/// Reads one recorded round back as an outcome and an attempt count.
pub fn derive_result(game: &Game) -> (r: (Outcome, i32))
    requires
        1 <= game.guesses@.len() <= 0x7fff_ffff,
    ensures
        r.0 == game_outcome(game.answer@, words_view(game.guesses@)),
        r.1 == game.guesses@.len(),
{
    let n = game.guesses.len();
    let won = words_equal(&game.guesses[n - 1], &game.answer);
    proof {
        assert(words_view(game.guesses@).last() == game.guesses@[n - 1]@);
    }
    if won {
        (Outcome::CORRECT, n as i32)
    } else {
        (Outcome::FAILED, n as i32)
    }
}

/// Reads a whole session record back as outcome/attempt pairs, one per
/// round, in order.
pub fn derive_results(data: &GameData) -> (r: Vec<(Outcome, i32)>)
    requires
        forall|i: int|
            0 <= i < data.games@.len() ==> 1 <= #[trigger] data.games@[i].guesses@.len()
                <= 0x7fff_ffff,
    ensures
        r@.len() == data.games@.len(),
        forall|i: int|
            0 <= i < data.games@.len() ==> #[trigger] r@[i] == (
            game_outcome(data.games@[i].answer@, words_view(data.games@[i].guesses@)),
            data.games@[i].guesses@.len() as i32,
            ),
    {
    let mut r: Vec<(Outcome, i32)> = Vec::new();
    let n = data.games.len();
    let mut i: usize = 0;
    while i < n
        invariant
            i <= n,
            n == data.games@.len(),
            r@.len() == i,
            forall|j: int|
                0 <= j < data.games@.len() ==> 1 <= #[trigger] data.games@[j].guesses@.len()
                    <= 0x7fff_ffff,
            forall|j: int|
                0 <= j < i ==> #[trigger] r@[j] == (
                game_outcome(data.games@[j].answer@, words_view(data.games@[j].guesses@)),
                data.games@[j].guesses@.len() as i32,
                ),
        decreases n - i,
    {
        let pair = derive_result(&data.games[i]);
        r.push(pair);
        i = i + 1;
    }
    r
}

} // verus!
