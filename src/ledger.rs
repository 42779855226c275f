//! The high-score ledger: at most ten scores, highest first.
use vstd::prelude::*;

verus! {

/// Most scores a ledger keeps.
pub const MAX_ENTRIES: usize = 10;

/// `s` is ordered from highest to lowest.
pub open spec fn sorted_desc(s: Seq<u32>) -> bool {
    forall|i: int, j: int| 0 <= i < j < s.len() ==> s[i] >= s[j]
}

/// How many leading entries of `s` are at least `x`: the place where `x`
/// enters a descending list.
pub open spec fn rank_of(s: Seq<u32>, x: u32) -> nat
    decreases s.len(),
{
    if s.len() == 0 || s[0] < x {
        0
    } else {
        1 + rank_of(s.drop_first(), x)
    }
}

/// `s` with `score` added at its place, then cut to the first ten.
pub open spec fn recorded(s: Seq<u32>, score: u32) -> Seq<u32> {
    let t = s.insert(rank_of(s, score) as int, score);
    if t.len() > MAX_ENTRIES {
        t.take(MAX_ENTRIES as int)
    } else {
        t
    }
}

/// The ledger obtained by recording each score of `s` in turn into an
/// empty one.
pub open spec fn recorded_all(s: Seq<u32>) -> Seq<u32>
    decreases s.len(),
{
    if s.len() == 0 {
        Seq::empty()
    } else {
        recorded(recorded_all(s.drop_last()), s.last())
    }
}

/// Where every entry before `k` is at least `x` and the entry at `k`, if
/// any, is below it, `k` is the rank of `x`.
proof fn lemma_rank_at(s: Seq<u32>, x: u32, k: int)
    requires
        0 <= k <= s.len(),
        forall|j: int| 0 <= j < k ==> s[j] >= x,
        k < s.len() ==> s[k] < x,
    ensures
        rank_of(s, x) == k,
    decreases k,
{
    if k > 0 {
        let t = s.drop_first();
        assert forall|j: int| 0 <= j < k - 1 implies t[j] >= x by {
            assert(s[j + 1] >= x);
        }
        lemma_rank_at(t, x, k - 1);
    }
}

/// In a descending list, the rank of `x` splits it into the entries at
/// least `x` and those below.
proof fn lemma_rank_splits(s: Seq<u32>, x: u32)
    requires
        sorted_desc(s),
    ensures
        rank_of(s, x) <= s.len(),
        forall|j: int| 0 <= j < rank_of(s, x) ==> s[j] >= x,
        forall|j: int| rank_of(s, x) <= j < s.len() ==> s[j] < x,
    decreases s.len(),
{
    if s.len() > 0 && s[0] >= x {
        let t = s.drop_first();
        lemma_rank_splits(t, x);
        assert forall|j: int| 0 <= j < rank_of(s, x) implies s[j] >= x by {
            if j > 0 {
                assert(s[j] == t[j - 1]);
            }
        }
        assert forall|j: int| rank_of(s, x) <= j < s.len() implies s[j] < x by {
            assert(s[j] == t[j - 1]);
        }
    }
}

/// Recording a score keeps a ledger descending and at most ten long.
pub proof fn lemma_recorded_wf(s: Seq<u32>, score: u32)
    requires
        sorted_desc(s),
        s.len() <= MAX_ENTRIES,
    ensures
        sorted_desc(recorded(s, score)),
        recorded(s, score).len() == if s.len() < MAX_ENTRIES { s.len() + 1 } else { MAX_ENTRIES as nat },
{
    lemma_rank_splits(s, score);
    let k = rank_of(s, score) as int;
    let t = s.insert(k, score);
    s.insert_ensures(k, score);
    assert forall|i: int, j: int| 0 <= i < j < t.len() implies t[i] >= t[j] by {
        if i < k && j < k {
        } else if i < k && j == k {
        } else if i < k {
            assert(t[j] == s[j - 1]);
        } else if i == k {
            assert(t[j] == s[j - 1]);
        } else {
            assert(t[i] == s[i - 1]);
            assert(t[j] == s[j - 1]);
        }
    }
}

/// Recording a score into an empty ledger gives the ledger holding just
/// that score.
pub proof fn lemma_record_into_empty(score: u32)
    ensures
        recorded(Seq::empty(), score) == seq![score],
{
    assert(rank_of(Seq::<u32>::empty(), score) == 0);
    assert(Seq::<u32>::empty().insert(0, score) =~= seq![score]);
}

/// The top-ten high-score ledger.
pub struct DataConfig {
    /// Scores, highest first.
    pub scores: Vec<u32>,
}

impl DataConfig {
    /// The scores are descending and there are at most ten of them.
    pub open spec fn wf(&self) -> bool {
        &&& sorted_desc(self.scores@)
        &&& self.scores@.len() <= MAX_ENTRIES
    }

    /// A ledger with no scores.
    pub fn empty() -> (r: Self)
        ensures
            r.wf(),
            r.scores@ == Seq::<u32>::empty(),
    {
        DataConfig { scores: Vec::new() }
    }

    /// Adds `score` at its place, keeping the list descending, and drops
    /// what falls beyond the tenth place.
    pub fn record(&mut self, score: u32)
        requires
            old(self).wf(),
        ensures
            final(self).wf(),
            final(self).scores@ == recorded(old(self).scores@, score),
    {
        let ghost s = self.scores@;
        let mut i: usize = 0;
        while i < self.scores.len() && self.scores[i] >= score
            invariant
                self.scores@ == s,
                i <= s.len(),
                forall|j: int| 0 <= j < i ==> s[j] >= score,
            decreases s.len() - i,
        {
            i = i + 1;
        }
        proof {
            lemma_rank_at(s, score, i as int);
            lemma_recorded_wf(s, score);
        }
        self.scores.insert(i, score);
        if self.scores.len() > MAX_ENTRIES {
            self.scores.truncate(MAX_ENTRIES);
        }
    }

    /// Tells whether the scores are descending and at most ten.
    pub fn is_wf(&self) -> (r: bool)
        ensures
            r == self.wf(),
    {
        if self.scores.len() > MAX_ENTRIES {
            return false;
        }
        let mut k: usize = 1;
        while k < self.scores.len()
            invariant
                1 <= k,
                self.scores@.len() <= MAX_ENTRIES,
                forall|i: int, j: int| 0 <= i < j < k && j < self.scores@.len() ==> self.scores@[i] >= self.scores@[j],
            decreases self.scores@.len() - k,
        {
            if self.scores[k - 1] < self.scores[k] {
                return false;
            }
            k = k + 1;
        }
        true
    }

    /// Builds a ledger from scores in any order, as if each had been
    /// recorded in turn into an empty one.
    pub fn from_scores(scores: Vec<u32>) -> (r: Self)
        ensures
            r.wf(),
            r.scores@ == recorded_all(scores@),
    {
        let mut r = DataConfig::empty();
        let mut i: usize = 0;
        while i < scores.len()
            invariant
                i <= scores@.len(),
                r.wf(),
                r.scores@ == recorded_all(scores@.take(i as int)),
            decreases scores@.len() - i,
        {
            r.record(scores[i]);
            assert(scores@.take(i + 1).drop_last() =~= scores@.take(i as int));
            i = i + 1;
        }
        assert(scores@.take(i as int) =~= scores@);
        r
    }
}

} // verus!
