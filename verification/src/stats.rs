//! Session statistics: wins, losses, attempts spent on wins, and how often
//! each word was guessed.

use vstd::prelude::*;
use vstd::multiset::Multiset;
use crate::round::Outcome;
use crate::words::copy_word;
use crate::words::words_equal;
use crate::words::words_view;

verus! {

broadcast use vstd::seq_lib::group_to_multiset_ensures;

/// Number of won rounds among the results.
pub open spec fn wins_of(results: Seq<(Outcome, i32)>) -> int
    decreases results.len(),
{
    if results.len() == 0 {
        0
    } else {
        wins_of(results.drop_last()) + if results.last().0 == Outcome::CORRECT {
            1int
        } else {
            0int
        }
    }
}

/// Number of lost rounds among the results.
pub open spec fn losses_of(results: Seq<(Outcome, i32)>) -> int
    decreases results.len(),
{
    if results.len() == 0 {
        0
    } else {
        losses_of(results.drop_last()) + if results.last().0 == Outcome::CORRECT {
            0int
        } else {
            1int
        }
    }
}

/// Total attempts spent on the won rounds.
pub open spec fn won_attempts_of(results: Seq<(Outcome, i32)>) -> int
    decreases results.len(),
{
    if results.len() == 0 {
        0
    } else {
        won_attempts_of(results.drop_last()) + if results.last().0 == Outcome::CORRECT {
            results.last().1 as int
        } else {
            0int
        }
    }
}

proof fn lemma_stats_bounds(results: Seq<(Outcome, i32)>)
    ensures
        0 <= wins_of(results) <= results.len(),
        0 <= losses_of(results) <= results.len(),
        -results.len() * 0x8000_0000 <= won_attempts_of(results) <= results.len() * 0x8000_0000,
    decreases results.len(),
{
    if results.len() > 0 {
        lemma_stats_bounds(results.drop_last());
    }
}

/// Counts wins and losses, and sums the attempts of the won rounds; the
/// average shown to the player is the quotient of the last two.
pub fn compute_stats(results: &Vec<(Outcome, i32)>) -> (r: (usize, usize, i64))
    requires
        results@.len() < 0x8000_0000,
    ensures
        r.0 == wins_of(results@),
        r.1 == losses_of(results@),
        r.2 == won_attempts_of(results@),
{
    let n = results.len();
    let mut wins: usize = 0;
    let mut losses: usize = 0;
    let mut attempts: i64 = 0;
    let mut i: usize = 0;
    while i < n
        invariant
            i <= n,
            n == results@.len() < 0x8000_0000,
            wins == wins_of(results@.subrange(0, i as int)),
            losses == losses_of(results@.subrange(0, i as int)),
            attempts == won_attempts_of(results@.subrange(0, i as int)),
        decreases n - i,
    {
        let ghost prefix = results@.subrange(0, i as int);
        let ghost next = results@.subrange(0, i + 1);
        proof {
            assert(next.drop_last() =~= prefix);
            assert(next.last() == results@[i as int]);
            lemma_stats_bounds(prefix);
        }
        let (outcome, tries) = results[i];
        if outcome == Outcome::CORRECT {
            wins = wins + 1;
            attempts = attempts + (tries as i64);
        } else {
            losses = losses + 1;
        }
        i = i + 1;
    }
    proof {
        assert(results@.subrange(0, n as int) =~= results@);
    }
    (wins, losses, attempts)
}

/// How often the word `w` is counted among the entries: the count of the
/// entry holding it, or zero when none does.
pub open spec fn count_in(entries: Seq<(Vec<u8>, u64)>, w: Seq<u8>) -> int
    decreases entries.len(),
{
    if entries.len() == 0 {
        0
    } else if entries.last().0@ == w {
        entries.last().1 as int
    } else {
        count_in(entries.drop_last(), w)
    }
}

/// Each word appears in at most one entry.
pub open spec fn unique_keys(entries: Seq<(Vec<u8>, u64)>) -> bool {
    forall|i: int, j: int|
        0 <= i < j < entries.len() ==> (#[trigger] entries[i]).0@ != (#[trigger] entries[j]).0@
}

proof fn lemma_count_in_absent(entries: Seq<(Vec<u8>, u64)>, w: Seq<u8>)
    requires
        forall|i: int| 0 <= i < entries.len() ==> (#[trigger] entries[i]).0@ != w,
    ensures
        count_in(entries, w) == 0,
    decreases entries.len(),
{
    if entries.len() > 0 {
        assert(entries[entries.len() - 1].0@ != w);
        assert forall|i: int| 0 <= i < entries.drop_last().len() implies (#[trigger] entries.drop_last()[i]).0@
            != w by {
            assert(entries.drop_last()[i] == entries[i]);
        }
        lemma_count_in_absent(entries.drop_last(), w);
    }
}

proof fn lemma_count_in_at(entries: Seq<(Vec<u8>, u64)>, w: Seq<u8>, i: int)
    requires
        unique_keys(entries),
        0 <= i < entries.len(),
        entries[i].0@ == w,
    ensures
        count_in(entries, w) == entries[i].1 as int,
    decreases entries.len(),
{
    if i == entries.len() - 1 {
    } else {
        assert(entries[entries.len() - 1].0@ != w);
        assert forall|k: int, l: int|
            0 <= k < l < entries.drop_last().len() implies (#[trigger] entries.drop_last()[k]).0@
            != (#[trigger] entries.drop_last()[l]).0@ by {
            assert(entries.drop_last()[k] == entries[k]);
            assert(entries.drop_last()[l] == entries[l]);
        }
        assert(entries.drop_last()[i] == entries[i]);
        lemma_count_in_at(entries.drop_last(), w, i);
    }
}

proof fn lemma_count_in_update(entries: Seq<(Vec<u8>, u64)>, i: int, e2: (Vec<u8>, u64), w: Seq<u8>)
    requires
        0 <= i < entries.len(),
        entries[i].0@ != w,
        e2.0@ != w,
    ensures
        count_in(entries.update(i, e2), w) == count_in(entries, w),
    decreases entries.len(),
{
    let u = entries.update(i, e2);
    if i == entries.len() - 1 {
        assert(u.last() == e2);
        assert(u.drop_last() =~= entries.drop_last());
    } else {
        assert(u.last() == entries.last());
        if entries.last().0@ == w {
        } else {
            assert(u.drop_last() =~= entries.drop_last().update(i, e2));
            assert(entries.drop_last()[i] == entries[i]);
            lemma_count_in_update(entries.drop_last(), i, e2, w);
        }
    }
}

/// How often each guessed word has been used, across the session.
pub struct WordCount {
    pub entries: Vec<(Vec<u8>, u64)>,
}

impl WordCount {
    /// Each word has at most one entry.
    pub open spec fn wf(self) -> bool {
        unique_keys(self.entries@)
    }

    /// The number of times `w` has been counted.
    pub open spec fn count_of(self, w: Seq<u8>) -> int {
        count_in(self.entries@, w)
    }

    /// An empty usage record.
    pub fn new() -> (r: WordCount)
        ensures
            r.wf(),
            r.entries@.len() == 0,
            forall|w: Seq<u8>| r.count_of(w) == 0,
    {
        WordCount { entries: Vec::new() }
    }

    /// Counts one more use of `word`: its count grows by one and every
    /// other word's count is unchanged.
    pub fn bump(&mut self, word: &Vec<u8>)
        requires
            old(self).wf(),
            old(self).count_of(word@) < u64::MAX,
        ensures
            final(self).wf(),
            final(self).count_of(word@) == old(self).count_of(word@) + 1,
            forall|w: Seq<u8>| w != word@ ==> final(self).count_of(w) == old(self).count_of(w),
    {
        let ghost orig = self.entries@;
        let n = self.entries.len();
        let mut i: usize = 0;
        while i < n
            invariant
                i <= n,
                n == self.entries@.len(),
                self.entries@ == orig,
                orig == old(self).entries@,
                unique_keys(orig),
                count_in(orig, word@) < u64::MAX,
                forall|j: int| 0 <= j < i ==> (#[trigger] orig[j]).0@ != word@,
            decreases n - i,
        {
            if words_equal(&self.entries[i].0, word) {
                proof {
                    lemma_count_in_at(orig, word@, i as int);
                }
                let c = self.entries[i].1;
                let key = copy_word(&self.entries[i].0);
                self.entries.set(i, (key, c + 1));
                proof {
                    let now = self.entries@;
                    assert(now == orig.update(i as int, (key, (c + 1) as u64)));
                    assert(now[i as int].0@ == word@);
                    assert(now[i as int].1 == c + 1);
                    assert forall|k: int, l: int| 0 <= k < l < now.len() implies (
                    #[trigger] now[k]).0@ != (#[trigger] now[l]).0@ by {
                        assert(now[k].0@ == orig[k].0@);
                        assert(now[l].0@ == orig[l].0@);
                    }
                    lemma_count_in_at(now, word@, i as int);
                    assert forall|w: Seq<u8>| w != word@ implies count_in(now, w) == count_in(
                        orig,
                        w,
                    ) by {
                        lemma_count_in_update(orig, i as int, (key, (c + 1) as u64), w);
                    }
                }
                return ;
            }
            i = i + 1;
        }
        proof {
            lemma_count_in_absent(orig, word@);
        }
        self.entries.push((copy_word(word), 1));
        proof {
            let now = self.entries@;
            assert(now.last().0@ == word@);
            assert(now.drop_last() =~= orig);
            assert(count_in(now, word@) == 1);
            assert forall|k: int, l: int| 0 <= k < l < now.len() implies (#[trigger] now[k]).0@
                != (#[trigger] now[l]).0@ by {
                if l < now.len() - 1 {
                    assert(now[k] == orig[k]);
                    assert(now[l] == orig[l]);
                } else {
                    assert(now[k] == orig[k]);
                    assert(now[l].0@ == word@);
                }
            }
            assert forall|w: Seq<u8>| w != word@ implies count_in(now, w) == count_in(orig, w) by {
            }
        }
    }
}

/// Number of occurrences of the word `w` among the first `n` entries of a
/// word list.
pub open spec fn occurrences(ws: Seq<Seq<u8>>, w: Seq<u8>, n: int) -> int
    decreases n,
{
    if n <= 0 {
        0
    } else {
        occurrences(ws, w, n - 1) + if ws[n - 1] == w {
            1int
        } else {
            0int
        }
    }
}

proof fn lemma_occurrences_mono(ws: Seq<Seq<u8>>, w: Seq<u8>, m: int, n: int)
    requires
        0 <= m <= n,
    ensures
        occurrences(ws, w, m) <= occurrences(ws, w, n),
    decreases n,
{
    if n > m {
        lemma_occurrences_mono(ws, w, m, n - 1);
    }
}

impl WordCount {
    /// Counts one use of every word in the list: each word's count grows by
    /// its number of occurrences there.
    pub fn bump_all(&mut self, list: &Vec<Vec<u8>>)
        requires
            old(self).wf(),
            forall|w: Seq<u8>|
                old(self).count_of(w) + occurrences(words_view(list@), w, list@.len() as int)
                    <= u64::MAX,
        ensures
            final(self).wf(),
            forall|w: Seq<u8>|
                final(self).count_of(w) == old(self).count_of(w) + occurrences(
                    words_view(list@),
                    w,
                    list@.len() as int,
                ),
    {
        let ghost ws = words_view(list@);
        let n = list.len();
        let mut i: usize = 0;
        while i < n
            invariant
                i <= n,
                n == list@.len(),
                ws == words_view(list@),
                self.wf(),
                forall|w: Seq<u8>|
                    old(self).count_of(w) + occurrences(ws, w, n as int) <= u64::MAX,
                forall|w: Seq<u8>|
                    self.count_of(w) == old(self).count_of(w) + occurrences(ws, w, i as int),
            decreases n - i,
        {
            let ghost wi = list@[i as int]@;
            proof {
                assert(ws[i as int] == wi);
                assert forall|w: Seq<u8>| #[trigger]
                    occurrences(ws, w, i + 1) == occurrences(ws, w, i as int) + (if ws[i as int]
                        == w {
                        1int
                    } else {
                        0int
                    }) by {}
                lemma_occurrences_mono(ws, wi, i + 1, n as int);
            }
            self.bump(&list[i]);
            i = i + 1;
        }
    }
}

/// Lexicographic order on byte sequences.
pub open spec fn lex_le(a: Seq<u8>, b: Seq<u8>) -> bool
    decreases a.len(),
{
    if a.len() == 0 {
        true
    } else if b.len() == 0 {
        false
    } else if a.first() < b.first() {
        true
    } else if a.first() > b.first() {
        false
    } else {
        lex_le(a.drop_first(), b.drop_first())
    }
}

pub proof fn lemma_lex_le_total(a: Seq<u8>, b: Seq<u8>)
    ensures
        lex_le(a, b) || lex_le(b, a),
    decreases a.len(),
{
    if a.len() > 0 && b.len() > 0 && a.first() == b.first() {
        lemma_lex_le_total(a.drop_first(), b.drop_first());
    }
}

pub proof fn lemma_lex_le_trans(a: Seq<u8>, b: Seq<u8>, c: Seq<u8>)
    requires
        lex_le(a, b),
        lex_le(b, c),
    ensures
        lex_le(a, c),
    decreases a.len(),
{
    if a.len() > 0 && b.len() > 0 && c.len() > 0 && a.first() == b.first() && b.first()
        == c.first() {
        lemma_lex_le_trans(a.drop_first(), b.drop_first(), c.drop_first());
    }
}

/// Byte-wise lexicographic comparison of two words.
pub fn lex_le_words(a: &Vec<u8>, b: &Vec<u8>) -> (r: bool)
    ensures
        r == lex_le(a@, b@),
{
    let na = a.len();
    let nb = b.len();
    proof {
        assert(a@.skip(0) =~= a@);
        assert(b@.skip(0) =~= b@);
    }
    let mut i: usize = 0;
    while i < na && i < nb
        invariant
            i <= na,
            i <= nb,
            na == a@.len(),
            nb == b@.len(),
            lex_le(a@, b@) == lex_le(a@.skip(i as int), b@.skip(i as int)),
        decreases na - i,
    {
        proof {
            assert(a@.skip(i as int).first() == a@[i as int]);
            assert(b@.skip(i as int).first() == b@[i as int]);
        }
        let x = a[i];
        let y = b[i];
        if x < y {
            return true;
        }
        if x > y {
            return false;
        }
        proof {
            assert(a@.skip(i as int).drop_first() =~= a@.skip(i + 1));
            assert(b@.skip(i as int).drop_first() =~= b@.skip(i + 1));
        }
        i = i + 1;
    }
    proof {
        if i == na {
            assert(a@.skip(i as int).len() == 0);
        } else {
            assert(b@.skip(i as int).len() == 0);
            assert(a@.skip(i as int).len() > 0);
        }
    }
    na <= nb
}

/// Display order for usage entries: more uses first, ties broken by word
/// order.
pub open spec fn entry_le(a: (Seq<u8>, u64), b: (Seq<u8>, u64)) -> bool {
    a.1 > b.1 || (a.1 == b.1 && lex_le(a.0, b.0))
}

/// The usage entries as plain values: each word as its byte sequence.
pub open spec fn entry_views(entries: Seq<(Vec<u8>, u64)>) -> Seq<(Seq<u8>, u64)> {
    entries.map_values(|e: (Vec<u8>, u64)| (e.0@, e.1))
}

pub proof fn lemma_entry_le_total(a: (Seq<u8>, u64), b: (Seq<u8>, u64))
    ensures
        entry_le(a, b) || entry_le(b, a),
{
    lemma_lex_le_total(a.0, b.0);
}

pub proof fn lemma_entry_le_trans(a: (Seq<u8>, u64), b: (Seq<u8>, u64), c: (Seq<u8>, u64))
    requires
        entry_le(a, b),
        entry_le(b, c),
    ensures
        entry_le(a, c),
{
    if a.1 == b.1 && b.1 == c.1 {
        lemma_lex_le_trans(a.0, b.0, c.0);
    }
}

/// Display order of two usage entries.
fn entry_le_exec(a: &(Vec<u8>, u64), b: &(Vec<u8>, u64)) -> (r: bool)
    ensures
        r == entry_le((a.0@, a.1), (b.0@, b.1)),
{
    if a.1 > b.1 {
        true
    } else if a.1 < b.1 {
        false
    } else {
        lex_le_words(&a.0, &b.0)
    }
}

/// The usage record ordered for display: most used first, ties in word
/// order; the result holds the same entries as the record.
pub fn sorted_entries(wc: &WordCount) -> (r: Vec<(Vec<u8>, u64)>)
    ensures
        r@.len() == wc.entries@.len(),
        entry_views(r@).to_multiset() == entry_views(wc.entries@).to_multiset(),
        forall|i: int, j: int|
            0 <= i < j < r@.len() ==> entry_le(
                #[trigger] entry_views(r@)[i],
                #[trigger] entry_views(r@)[j],
            ),
{
    let ghost input = entry_views(wc.entries@);
    let mut rest: Vec<(Vec<u8>, u64)> = Vec::new();
    let n = wc.entries.len();
    let mut i: usize = 0;
    while i < n
        invariant
            i <= n,
            n == wc.entries@.len(),
            rest@.len() == i,
            forall|j: int|
                0 <= j < i ==> #[trigger] rest@[j].0@ == wc.entries@[j].0@ && rest@[j].1
                    == wc.entries@[j].1,
        decreases n - i,
    {
        let e = &wc.entries[i];
        rest.push((copy_word(&e.0), e.1));
        i = i + 1;
    }
    proof {
        assert(entry_views(rest@) =~= input);
    }
    let mut out: Vec<(Vec<u8>, u64)> = Vec::new();
    proof {
        assert(entry_views(out@) =~= Seq::<(Seq<u8>, u64)>::empty());
        assert(entry_views(out@).to_multiset().add(entry_views(rest@).to_multiset()) =~= input.to_multiset());
    }
    while rest.len() > 0
        invariant
            out@.len() + rest@.len() == input.len(),
            entry_views(out@).to_multiset().add(entry_views(rest@).to_multiset())
                == input.to_multiset(),
            forall|i: int, j: int|
                0 <= i < j < out@.len() ==> entry_le(
                    #[trigger] entry_views(out@)[i],
                    #[trigger] entry_views(out@)[j],
                ),
            forall|i: int, j: int|
                0 <= i < out@.len() && 0 <= j < rest@.len() ==> entry_le(
                    #[trigger] entry_views(out@)[i],
                    #[trigger] entry_views(rest@)[j],
                ),
        decreases rest@.len(),
    {
        let ghost rv = entry_views(rest@);
        let ghost ov = entry_views(out@);
        let len = rest.len();
        let mut m: usize = 0;
        proof {
            lemma_entry_le_total(rv[0], rv[0]);
        }
        let mut k: usize = 1;
        while k < len
            invariant
                m < k <= len,
                len == rest@.len(),
                rv == entry_views(rest@),
                forall|j: int| 0 <= j < k ==> entry_le(rv[m as int], #[trigger] rv[j]),
            decreases len - k,
        {
            if entry_le_exec(&rest[k], &rest[m]) {
                proof {
                    assert forall|j: int| 0 <= j < k + 1 implies entry_le(
                        rv[k as int],
                        #[trigger] rv[j],
                    ) by {
                        if j < k {
                            lemma_entry_le_trans(rv[k as int], rv[m as int], rv[j]);
                        } else {
                            lemma_entry_le_total(rv[k as int], rv[k as int]);
                        }
                    }
                }
                m = k;
            } else {
                proof {
                    lemma_entry_le_total(rv[m as int], rv[k as int]);
                }
            }
            k = k + 1;
        }
        let e = rest.remove(m);
        let ghost ev = (e.0@, e.1);
        out.push(e);
        proof {
            assert(entry_views(out@) =~= ov.push(ev));
            assert(entry_views(rest@) =~= rv.remove(m as int));
            assert(rv[m as int] == ev);
            assert(rv.to_multiset().count(ev) > 0);
            assert(entry_views(out@).to_multiset() =~= ov.to_multiset().insert(ev));
            assert(entry_views(rest@).to_multiset() =~= rv.to_multiset().remove(ev));
            assert(ov.to_multiset().insert(ev).add(rv.to_multiset().remove(ev)) =~= ov.to_multiset().add(rv.to_multiset()));
            assert forall|i: int, j: int|
                0 <= i < j < out@.len() implies entry_le(
                #[trigger] entry_views(out@)[i],
                #[trigger] entry_views(out@)[j],
            ) by {
                if j < out@.len() - 1 {
                    assert(entry_views(out@)[i] == ov[i]);
                    assert(entry_views(out@)[j] == ov[j]);
                } else {
                    assert(entry_views(out@)[i] == ov[i]);
                    assert(entry_views(out@)[j] == ev);
                }
            }
            assert forall|i: int, j: int|
                0 <= i < out@.len() && 0 <= j < rest@.len() implies entry_le(
                #[trigger] entry_views(out@)[i],
                #[trigger] entry_views(rest@)[j],
            ) by {
                let x = entry_views(rest@)[j];
                assert(x == rv.remove(m as int)[j]);
                if j < m {
                    assert(x == rv[j]);
                } else {
                    assert(x == rv[j + 1]);
                }
                if i < out@.len() - 1 {
                    assert(entry_views(out@)[i] == ov[i]);
                } else {
                    assert(entry_views(out@)[i] == ev);
                }
            }
        }
    }
    proof {
        assert(entry_views(rest@).to_multiset() =~= Multiset::<(Seq<u8>, u64)>::empty());
        assert(entry_views(out@).to_multiset() =~= input.to_multiset());
    }
    out
}

} // verus!
