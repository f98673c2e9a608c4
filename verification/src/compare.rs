//! Scoring one guess against the answer under duplicate-letter semantics.
//!
//! Per position, a guess letter is Green when it matches the answer at that
//! position; of the remaining positions, each letter is Yellow only while
//! the answer still has unmatched occurrences of it to give out, scanning
//! left to right; the rest are Red.  The specification below pins down this
//! allocation exactly: a non-Green position `i` is Yellow if and only if the
//! number of earlier non-Green positions guessing the same letter is below
//! the number of non-Green answer positions holding that letter.

use vstd::prelude::*;
use crate::status::Status;
use crate::words::is_letter;
use crate::words::is_word;

verus! {

/// Number of positions `j < n` of `w` holding letter `c`.
pub open spec fn count_occ(w: Seq<u8>, c: u8, n: int) -> int
    decreases n,
{
    if n <= 0 {
        0
    } else {
        count_occ(w, c, n - 1) + if w[n - 1] == c {
            1int
        } else {
            0int
        }
    }
}

/// Number of positions `j < n` where the guess letter is `c` and matches the
/// answer (a Green position for `c`).
pub open spec fn green_count(ans: Seq<u8>, g: Seq<u8>, c: u8, n: int) -> int
    decreases n,
{
    if n <= 0 {
        0
    } else {
        green_count(ans, g, c, n - 1) + if g[n - 1] == c && ans[n - 1] == g[n - 1] {
            1int
        } else {
            0int
        }
    }
}

/// Number of positions `j < n` where the answer holds `c` and is not matched
/// by the guess: the budget of `c` still available for Yellow marks.
pub open spec fn avail_count(ans: Seq<u8>, g: Seq<u8>, c: u8, n: int) -> int
    decreases n,
{
    if n <= 0 {
        0
    } else {
        avail_count(ans, g, c, n - 1) + if ans[n - 1] == c && ans[n - 1] != g[n - 1] {
            1int
        } else {
            0int
        }
    }
}

/// Number of non-Green positions `j < n` guessing letter `c`: the demand for
/// Yellow marks of `c` made before position `n`.
pub open spec fn demand_before(ans: Seq<u8>, g: Seq<u8>, c: u8, n: int) -> int
    decreases n,
{
    if n <= 0 {
        0
    } else {
        demand_before(ans, g, c, n - 1) + if g[n - 1] == c && ans[n - 1] != g[n - 1] {
            1int
        } else {
            0int
        }
    }
}

/// A position is Yellow when it is not Green and the earlier demand for its
/// letter has not yet exhausted the answer's budget for that letter.
pub open spec fn is_yellow(ans: Seq<u8>, g: Seq<u8>, i: int) -> bool {
    ans[i] != g[i] && demand_before(ans, g, g[i], i) < avail_count(ans, g, g[i], 5)
}

/// Number of positions `j < n` guessing letter `c` that are marked Yellow.
pub open spec fn yellow_before(ans: Seq<u8>, g: Seq<u8>, c: u8, n: int) -> int
    decreases n,
{
    if n <= 0 {
        0
    } else {
        yellow_before(ans, g, c, n - 1) + if g[n - 1] == c && is_yellow(ans, g, n - 1) {
            1int
        } else {
            0int
        }
    }
}

/// The feedback for position `i` of the guess.
pub open spec fn pos_status(ans: Seq<u8>, g: Seq<u8>, i: int) -> Status {
    if ans[i] == g[i] {
        Status::G
    } else if is_yellow(ans, g, i) {
        Status::Y
    } else {
        Status::R
    }
}

/// The per-letter feedback of one guess, after `n` positions of the Yellow
/// scan: Green beats Yellow beats Red; a letter never guessed stays unknown.
pub open spec fn letter_interim(ans: Seq<u8>, g: Seq<u8>, c: u8, n: int) -> Status {
    if green_count(ans, g, c, 5) > 0 {
        Status::G
    } else if yellow_before(ans, g, c, n) > 0 {
        Status::Y
    } else if count_occ(g, c, 5) > 0 {
        Status::R
    } else {
        Status::X
    }
}

/// The per-letter feedback of one full guess.
pub open spec fn letter_status(ans: Seq<u8>, g: Seq<u8>, c: u8) -> Status {
    letter_interim(ans, g, c, 5)
}

/// The full five-position feedback of one guess.
pub open spec fn feedback(ans: Seq<u8>, g: Seq<u8>) -> Seq<Status> {
    Seq::new(5, |i: int| pos_status(ans, g, i))
}

pub proof fn lemma_count_occ_bounds(w: Seq<u8>, c: u8, n: int)
    requires
        n >= 0,
    ensures
        0 <= count_occ(w, c, n) <= n,
    decreases n,
{
    if n > 0 {
        lemma_count_occ_bounds(w, c, n - 1);
    }
}

pub proof fn lemma_green_count_bounds(ans: Seq<u8>, g: Seq<u8>, c: u8, n: int)
    requires
        n >= 0,
    ensures
        0 <= green_count(ans, g, c, n) <= n,
    decreases n,
{
    if n > 0 {
        lemma_green_count_bounds(ans, g, c, n - 1);
    }
}

pub proof fn lemma_avail_bounds(ans: Seq<u8>, g: Seq<u8>, c: u8, n: int)
    requires
        n >= 0,
    ensures
        0 <= avail_count(ans, g, c, n) <= n,
    decreases n,
{
    if n > 0 {
        lemma_avail_bounds(ans, g, c, n - 1);
    }
}

pub proof fn lemma_demand_bounds(ans: Seq<u8>, g: Seq<u8>, c: u8, n: int)
    requires
        n >= 0,
    ensures
        0 <= demand_before(ans, g, c, n) <= n,
    decreases n,
{
    if n > 0 {
        lemma_demand_bounds(ans, g, c, n - 1);
    }
}

/// The Yellow marks given to a letter are exactly the smaller of its demand
/// and the answer's budget: the scan grants each request while any budget
/// remains.
pub proof fn lemma_yellow_min(ans: Seq<u8>, g: Seq<u8>, c: u8, n: int)
    requires
        n >= 0,
    ensures
        yellow_before(ans, g, c, n) == vstd::math::min(
            demand_before(ans, g, c, n),
            avail_count(ans, g, c, 5),
        ),
    decreases n,
{
    lemma_avail_bounds(ans, g, c, 5);
    if n > 0 {
        lemma_yellow_min(ans, g, c, n - 1);
    }
}

/// A position is marked Green exactly when the guess letter equals the
/// answer letter at that position.
pub proof fn lemma_green_iff(ans: Seq<u8>, g: Seq<u8>, i: int)
    ensures
        pos_status(ans, g, i) == Status::G <==> ans[i] == g[i],
{
}

/// Duplicate-letter bound: across one guess, the positions guessing letter
/// `c` that are marked Green or Yellow never outnumber the occurrences of
/// `c` in the answer.
pub proof fn lemma_duplicate_bound(ans: Seq<u8>, g: Seq<u8>, c: u8)
    requires
        is_word(ans),
        is_word(g),
    ensures
        green_count(ans, g, c, 5) + yellow_before(ans, g, c, 5) <= count_occ(ans, c, 5),
{
    lemma_yellow_min(ans, g, c, 5);
    lemma_green_avail_split(ans, g, c, 5);
}

/// The occurrences of `c` in the answer split into those matched by the
/// guess (Green) and those left available for Yellow marks.
proof fn lemma_green_avail_split(ans: Seq<u8>, g: Seq<u8>, c: u8, n: int)
    requires
        n >= 0,
    ensures
        count_occ(ans, c, n) == green_count(ans, g, c, n) + avail_count(ans, g, c, n),
    decreases n,
{
    if n > 0 {
        lemma_green_avail_split(ans, g, c, n - 1);
    }
}

/// Compares the guess against the answer: returns the per-position feedback
/// for the five positions, and the per-letter feedback for the 26 letters,
/// indexed by letter.
pub fn compare(answer: &Vec<u8>, guess: &Vec<u8>) -> (r: (Vec<Status>, Vec<Status>))
    requires
        is_word(answer@),
        is_word(guess@),
    ensures
        r.0@ == feedback(answer@, guess@),
        r.1@.len() == 26,
        forall|c: u8|
            is_letter(c) ==> r.1@[c - 65] == letter_status(answer@, guess@, c),
{
    let ghost ans = answer@;
    let ghost gs = guess@;
    let mut result: Vec<Status> = vec![Status::R, Status::R, Status::R, Status::R, Status::R];
    let mut letters: Vec<Status> = Vec::new();
    let mut k: usize = 0;
    while k < 26
        invariant
            k <= 26,
            letters@.len() == k,
            forall|j: int| 0 <= j < k ==> letters@[j] == Status::X,
        decreases 26 - k,
    {
        letters.push(Status::X);
        k = k + 1;
    }

    // Mark every guessed letter Red in the alphabet feedback.
    let mut i: usize = 0;
    while i < 5
        invariant
            i <= 5,
            is_word(ans),
            is_word(gs),
            gs == guess@,
            letters@.len() == 26,
            forall|j: int|
                0 <= j < 26 ==> #[trigger] letters@[j] == (if count_occ(gs, (j + 65) as u8, i as int)
                    > 0 {
                    Status::R
                } else {
                    Status::X
                }),
        decreases 5 - i,
    {
        let c = guess[i];
        let ci = (c - 65) as usize;
        letters.set(ci, Status::R);
        proof {
            assert(forall|d: u8|
                #[trigger] count_occ(gs, d, i + 1) == count_occ(gs, d, i as int) + (if gs[i as int]
                    == d {
                    1int
                } else {
                    0int
                }));
            lemma_count_occ_bounds(gs, c, i as int);
        }
        i = i + 1;
    }

    // Exact-match pass: Green positions and Green letters.
    let mut i: usize = 0;
    while i < 5
        invariant
            i <= 5,
            is_word(ans),
            is_word(gs),
            ans == answer@,
            gs == guess@,
            result@.len() == 5,
            letters@.len() == 26,
            forall|j: int|
                0 <= j < i ==> #[trigger] result@[j] == (if ans[j] == gs[j] {
                    Status::G
                } else {
                    Status::R
                }),
            forall|j: int| i <= j < 5 ==> #[trigger] result@[j] == Status::R,
            forall|j: int|
                0 <= j < 26 ==> #[trigger] letters@[j] == (if green_count(
                    ans,
                    gs,
                    (j + 65) as u8,
                    i as int,
                ) > 0 {
                    Status::G
                } else if count_occ(gs, (j + 65) as u8, 5) > 0 {
                    Status::R
                } else {
                    Status::X
                }),
        decreases 5 - i,
    {
        let a = answer[i];
        let c = guess[i];
        proof {
            assert(forall|d: u8|
                #[trigger] green_count(ans, gs, d, i + 1) == green_count(ans, gs, d, i as int) + (
                if gs[i as int] == d && ans[i as int] == gs[i as int] {
                    1int
                } else {
                    0int
                }));
        }
        if a == c {
            let ci = (c - 65) as usize;
            result.set(i, Status::G);
            letters.set(ci, Status::G);
            proof {
                lemma_green_count_bounds(ans, gs, c, i as int);
                lemma_count_occ_bounds(gs, c, 5);
                assert(count_occ(gs, c, 5) >= count_occ(gs, c, i + 1)) by {
                    lemma_count_occ_mono(gs, c, i + 1, 5);
                };
                assert(count_occ(gs, c, i + 1) > 0) by {
                    lemma_count_occ_bounds(gs, c, i as int);
                };
            }
        }
        i = i + 1;
    }

    // Budget pass: per letter, how many answer occurrences were not matched.
    let mut counts: Vec<usize> = Vec::new();
    let mut k: usize = 0;
    while k < 26
        invariant
            k <= 26,
            counts@.len() == k,
            forall|j: int| 0 <= j < k ==> counts@[j] == 0,
        decreases 26 - k,
    {
        counts.push(0);
        k = k + 1;
    }
    let mut i: usize = 0;
    while i < 5
        invariant
            i <= 5,
            is_word(ans),
            is_word(gs),
            ans == answer@,
            gs == guess@,
            counts@.len() == 26,
            forall|j: int|
                0 <= j < 26 ==> #[trigger] counts@[j] == avail_count(ans, gs, (j + 65) as u8, i as int),
        decreases 5 - i,
    {
        let a = answer[i];
        let c = guess[i];
        proof {
            assert(forall|d: u8|
                #[trigger] avail_count(ans, gs, d, i + 1) == avail_count(ans, gs, d, i as int) + (
                if ans[i as int] == d && ans[i as int] != gs[i as int] {
                    1int
                } else {
                    0int
                }));
            lemma_avail_bounds(ans, gs, a, i as int);
        }
        if a != c {
            let ai = (a - 65) as usize;
            let cur = counts[ai];
            counts.set(ai, cur + 1);
        }
        i = i + 1;
    }

    // Misplaced pass: grant Yellow marks while the budget lasts.
    let mut i: usize = 0;
    while i < 5
        invariant
            i <= 5,
            is_word(ans),
            is_word(gs),
            ans == answer@,
            gs == guess@,
            result@.len() == 5,
            letters@.len() == 26,
            counts@.len() == 26,
            forall|j: int| 0 <= j < i ==> #[trigger] result@[j] == pos_status(ans, gs, j),
            forall|j: int|
                i <= j < 5 ==> #[trigger] result@[j] == (if ans[j] == gs[j] {
                    Status::G
                } else {
                    Status::R
                }),
            forall|j: int|
                0 <= j < 26 ==> #[trigger] counts@[j] == avail_count(ans, gs, (j + 65) as u8, 5)
                    - yellow_before(ans, gs, (j + 65) as u8, i as int),
            forall|j: int|
                0 <= j < 26 ==> #[trigger] letters@[j] == letter_interim(
                    ans,
                    gs,
                    (j + 65) as u8,
                    i as int,
                ),
        decreases 5 - i,
    {
        let c = guess[i];
        let ci = (c - 65) as usize;
        proof {
            assert(forall|d: u8|
                #[trigger] yellow_before(ans, gs, d, i + 1) == yellow_before(ans, gs, d, i as int)
                    + (if gs[i as int] == d && is_yellow(ans, gs, i as int) {
                    1int
                } else {
                    0int
                }));
            lemma_yellow_min(ans, gs, c, i as int);
            lemma_demand_bounds(ans, gs, c, i as int);
            lemma_avail_bounds(ans, gs, c, 5);
        }
        if result[i] != Status::G {
            if counts[ci] > 0 {
                // The budget for this letter is not exhausted: Yellow.
                proof {
                    assert(avail_count(ans, gs, c, 5) - yellow_before(ans, gs, c, i as int) > 0);
                    assert(demand_before(ans, gs, c, i as int) < avail_count(ans, gs, c, 5));
                    assert(is_yellow(ans, gs, i as int));
                }
                result.set(i, Status::Y);
                if letters[ci] != Status::G {
                    letters.set(ci, Status::Y);
                }
                let cur = counts[ci];
                counts.set(ci, cur - 1);
            } else {
                proof {
                    assert(yellow_before(ans, gs, c, i as int) == avail_count(ans, gs, c, 5));
                    assert(!(demand_before(ans, gs, c, i as int) < avail_count(ans, gs, c, 5)));
                    assert(!is_yellow(ans, gs, i as int));
                }
            }
        }
        i = i + 1;
    }

    proof {
        assert(result@ =~= feedback(ans, gs));
    }
    (result, letters)
}

/// Monotonicity of the occurrence count in its bound.
pub proof fn lemma_count_occ_mono(w: Seq<u8>, c: u8, m: int, n: int)
    requires
        0 <= m <= n,
    ensures
        count_occ(w, c, m) <= count_occ(w, c, n),
    decreases n,
{
    if n > m {
        lemma_count_occ_mono(w, c, m, n - 1);
    }
}

/// A guess is correct exactly when all five positions are Green.
pub fn check_correct(feedback_row: &Vec<Status>) -> (r: bool)
    requires
        feedback_row@.len() == 5,
    ensures
        r == all_green(feedback_row@),
{
    let mut i: usize = 0;
    while i < 5
        invariant
            i <= 5,
            feedback_row@.len() == 5,
            forall|j: int| 0 <= j < i ==> feedback_row@[j] == Status::G,
        decreases 5 - i,
    {
        if feedback_row[i] != Status::G {
            return false;
        }
        i = i + 1;
    }
    true
}

/// All five positions of a feedback row are Green.
pub open spec fn all_green(row: Seq<Status>) -> bool {
    forall|i: int| 0 <= i < 5 ==> row[i] == Status::G
}

/// The feedback of a guess is all Green exactly when the guess is the answer.
pub proof fn lemma_all_green_iff_equal(ans: Seq<u8>, g: Seq<u8>)
    requires
        is_word(ans),
        is_word(g),
    ensures
        all_green(feedback(ans, g)) <==> ans == g,
{
    if all_green(feedback(ans, g)) {
        assert forall|i: int| 0 <= i < 5 implies ans[i] == g[i] by {
            assert(feedback(ans, g)[i] == Status::G);
        }
        assert(ans =~= g);
    }
    if ans == g {
        assert forall|i: int| 0 <= i < 5 implies feedback(ans, g)[i] == Status::G by {
        }
    }
}

} // verus!
