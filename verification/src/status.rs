//! The four-valued per-letter knowledge state and its merge rule.

use vstd::prelude::*;

verus! {

/// Knowledge about a letter or a position: `G` correctly placed, `Y` present
/// but misplaced, `R` absent, `X` nothing known yet.
#[derive(Clone, Copy, PartialEq, Eq, Structural, Debug)]
pub enum Status {
    G,
    Y,
    R,
    X,
}

impl Status {
    /// Priority in the merge ordering: G > Y > R > X.
    pub open spec fn priority(self) -> int {
        match self {
            Status::G => 3,
            Status::Y => 2,
            Status::R => 1,
            Status::X => 0,
        }
    }
}

/// The merge rule for a single letter: the side of higher priority wins.
pub open spec fn merge_one(a: Status, b: Status) -> Status {
    if a == Status::G || b == Status::G {
        Status::G
    } else if a == Status::Y || b == Status::Y {
        Status::Y
    } else if a == Status::R || b == Status::R {
        Status::R
    } else {
        Status::X
    }
}

/// Pointwise merge of two equally long status sequences.
pub open spec fn merge_seq(s1: Seq<Status>, s2: Seq<Status>) -> Seq<Status> {
    Seq::new(s1.len(), |i: int| merge_one(s1[i], s2[i]))
}

/// Folds the letter feedback of one guess into the accumulated alphabet
/// state, letter by letter, by the priority rule.
pub fn merge(s1: &Vec<Status>, s2: &Vec<Status>) -> (r: Vec<Status>)
    requires
        s1@.len() == 26,
        s2@.len() == 26,
    ensures
        r@ == merge_seq(s1@, s2@),
{
    let mut r: Vec<Status> = Vec::new();
    let mut i: usize = 0;
    while i < 26
        invariant
            i <= 26,
            s1@.len() == 26,
            s2@.len() == 26,
            r@.len() == i,
            forall|j: int| 0 <= j < i ==> r@[j] == merge_one(s1@[j], s2@[j]),
        decreases 26 - i,
    {
        if s1[i] == Status::G || s2[i] == Status::G {
            r.push(Status::G);
        } else if s1[i] == Status::Y || s2[i] == Status::Y {
            r.push(Status::Y);
        } else if s1[i] == Status::R || s2[i] == Status::R {
            r.push(Status::R);
        } else {
            r.push(Status::X);
        }
        i = i + 1;
    }
    proof {
        assert(r@ =~= merge_seq(s1@, s2@));
    }
    r
}

/// Merging a state with itself changes nothing: the merge rule is idempotent.
pub proof fn lemma_merge_idempotent(s: Seq<Status>)
    ensures
        merge_seq(s, s) == s,
{
    assert(merge_seq(s, s) =~= s);
}

/// The merged status of a letter never has lower priority than either input:
/// accumulated knowledge is monotonic.
pub proof fn lemma_merge_monotonic(a: Status, b: Status)
    ensures
        merge_one(a, b).priority() >= a.priority(),
        merge_one(a, b).priority() >= b.priority(),
{
}

/// The merge rule is commutative per letter.
pub proof fn lemma_merge_commutative(a: Status, b: Status)
    ensures
        merge_one(a, b) == merge_one(b, a),
{
}

/// Merging a row that carries nothing new — no letter of higher priority
/// than the state already has — changes nothing.
pub proof fn lemma_merge_absorbs(s: Seq<Status>, row: Seq<Status>)
    requires
        s.len() == row.len(),
        forall|i: int| 0 <= i < s.len() ==> (#[trigger] row[i]).priority() <= s[i].priority(),
    ensures
        merge_seq(s, row) == s,
{
    assert forall|i: int| 0 <= i < s.len() implies merge_seq(s, row)[i] == s[i] by {
        assert(row[i].priority() <= s[i].priority());
    }
    assert(merge_seq(s, row) =~= s);
}

} // verus!
