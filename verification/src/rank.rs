//! The ranked view of the ledger: a stable sort of the entries by score,
//! highest first, and the top-n slice of it.

use crate::ledger::{clone_entry, models, Entry, EntryModel, Ledger};
use vstd::prelude::*;

verus! {

/// Scores never increase along the sequence.
pub open spec fn sorted_desc(s: Seq<EntryModel>) -> bool {
    forall|i: int, j: int| 0 <= i < j < s.len() ==> s[i].score >= s[j].score
}

/// The subsequence of entries with the given score, in their original order.
pub open spec fn score_class(s: Seq<EntryModel>, k: u32) -> Seq<EntryModel> {
    s.filter(|e: EntryModel| e.score == k)
}

/// A stable descending reordering: sorted by score, and every score class
/// keeps the order it had in the original sequence. These two clauses pin the
/// result down uniquely.
pub open spec fn stable_reordering(from: Seq<EntryModel>, to: Seq<EntryModel>) -> bool {
    &&& to.len() == from.len()
    &&& sorted_desc(to)
    &&& forall|k: u32| #[trigger] score_class(to, k) == score_class(from, k)
}

/// After a reset the history is empty, and every ranked view of an empty
/// history — any stable reordering of it, cut to any length — is the empty
/// sequence.
pub proof fn lemma_reset_renders_empty(full: Seq<EntryModel>, k: int)
    requires
        stable_reordering(Seq::<EntryModel>::empty(), full),
        0 <= k <= full.len(),
    ensures
        full.take(k) == Seq::<EntryModel>::empty(),
{
    assert(full.take(k) =~= Seq::<EntryModel>::empty());
}

proof fn lemma_filter_all_false(s: Seq<EntryModel>, pred: spec_fn(EntryModel) -> bool)
    requires
        forall|i: int| 0 <= i < s.len() ==> !pred(#[trigger] s[i]),
    ensures
        s.filter(pred) == Seq::<EntryModel>::empty(),
    decreases s.len(),
{
    reveal(Seq::filter);
    if s.len() > 0 {
        lemma_filter_all_false(s.drop_last(), pred);
    }
}

proof fn lemma_filter_one(x: EntryModel, pred: spec_fn(EntryModel) -> bool)
    ensures
        seq![x].filter(pred) == (if pred(x) {
            seq![x]
        } else {
            Seq::<EntryModel>::empty()
        }),
{
    reveal_with_fuel(Seq::filter, 2);
    assert(seq![x].drop_last() =~= Seq::<EntryModel>::empty());
    assert(seq![x].last() == x);
    if pred(x) {
        assert(Seq::<EntryModel>::empty().push(x) =~= seq![x]);
    }
}

/// Appending one element extends its own score class and no other.
proof fn lemma_class_push(m: Seq<EntryModel>, x: EntryModel)
    ensures
        forall|k: u32|
            #[trigger] score_class(m.push(x), k) == score_class(m, k) + (if x.score == k {
                seq![x]
            } else {
                Seq::<EntryModel>::empty()
            }),
{
    broadcast use Seq::filter_distributes_over_add;

    assert(m.push(x) =~= m + seq![x]);
    assert forall|k: u32|
        #[trigger] score_class(m.push(x), k) == score_class(m, k) + (if x.score == k {
            seq![x]
        } else {
            Seq::<EntryModel>::empty()
        }) by {
        lemma_filter_one(x, |e: EntryModel| e.score == k);
    }
}

/// Inserting an element between the entries with scores at least its own and
/// those with smaller scores keeps the sequence sorted, and appends the
/// element at the end of its own score class.
proof fn lemma_stable_insert(m: Seq<EntryModel>, x: EntryModel, pos: int)
    requires
        0 <= pos <= m.len(),
        sorted_desc(m),
        forall|j: int| 0 <= j < pos ==> m[j].score >= x.score,
        pos == m.len() || m[pos].score < x.score,
    ensures
        sorted_desc(m.insert(pos, x)),
        forall|k: u32|
            #[trigger] score_class(m.insert(pos, x), k) == score_class(m, k) + (if x.score == k {
                seq![x]
            } else {
                Seq::<EntryModel>::empty()
            }),
{
    broadcast use Seq::filter_distributes_over_add;

    let a = m.subrange(0, pos);
    let b = m.subrange(pos, m.len() as int);
    let r = m.insert(pos, x);
    assert(forall|j: int| 0 <= j < b.len() ==> #[trigger] b[j].score < x.score);
    assert(r =~= (a + seq![x]) + b);
    assert(m =~= a + b);
    assert forall|k: u32|
        #[trigger] score_class(r, k) == score_class(m, k) + (if x.score == k {
            seq![x]
        } else {
            Seq::<EntryModel>::empty()
        }) by {
        let pred = |e: EntryModel| e.score == k;
        lemma_filter_one(x, pred);
        if x.score == k {
            lemma_filter_all_false(b, pred);
            assert(score_class(r, k) =~= score_class(m, k) + seq![x]);
        } else {
            assert(score_class(r, k) =~= score_class(m, k));
        }
    }
}

impl Ledger {
    /// All entries, stably sorted by score descending: ties keep their
    /// original relative order.
    pub fn sorted_by_score(&self) -> (r: Vec<Entry>)
        ensures
            stable_reordering(self@, models(r@)),
    {
        let n = self.entries.len();
        let mut out: Vec<Entry> = Vec::new();
        let mut i: usize = 0;
        proof {
            assert(models(self.entries@.take(0)) =~= Seq::<EntryModel>::empty());
            assert forall|k: u32|
                #[trigger] score_class(models(out@), k) == score_class(
                    models(self.entries@.take(0)),
                    k,
                ) by {
                lemma_filter_all_false(models(out@), |e: EntryModel| e.score == k);
                lemma_filter_all_false(
                    models(self.entries@.take(0)),
                    |e: EntryModel| e.score == k,
                );
            }
        }
        while i < n
            invariant
                i <= n,
                n == self.entries@.len(),
                models(out@).len() == i,
                sorted_desc(models(out@)),
                forall|k: u32|
                    #[trigger] score_class(models(out@), k) == score_class(
                        models(self.entries@.take(i as int)),
                        k,
                    ),
            decreases n - i,
        {
            let e = clone_entry(&self.entries[i]);
            let mut pos: usize = 0;
            while pos < out.len() && out[pos].score >= e.score
                invariant
                    pos <= out.len(),
                    forall|j: int| 0 <= j < pos ==> models(out@)[j].score >= e@.score,
                decreases out.len() - pos,
            {
                pos += 1;
            }
            let ghost m_old = models(out@);
            let ghost m_in_old = models(self.entries@.take(i as int));
            proof {
                lemma_stable_insert(m_old, e@, pos as int);
                lemma_class_push(m_in_old, e@);
            }
            out.insert(pos, e);
            i += 1;
            proof {
                assert(models(out@) =~= m_old.insert(pos as int, self.entries@[i - 1]@));
                assert(models(self.entries@.take(i as int)) =~= m_in_old.push(
                    self.entries@[i - 1]@,
                ));
            }
        }
        proof {
            assert(models(self.entries@.take(n as int)) =~= self@);
        }
        out
    }

    /// The ranked view: the `n` best entries, by score descending, ties in
    /// their original order. An empty ledger renders as the empty sequence.
    pub fn render_top(&self, n: usize) -> (r: Vec<Entry>)
        ensures
            r@.len() == (if n <= self@.len() {
                n as int
            } else {
                self@.len() as int
            }),
            exists|full: Seq<EntryModel>|
                #[trigger] stable_reordering(self@, full) && models(r@) == full.take(
                    r@.len() as int,
                ),
            self@.len() == 0 ==> models(r@) == Seq::<EntryModel>::empty(),
    {
        let mut sorted = self.sorted_by_score();
        let ghost full = models(sorted@);
        if n < sorted.len() {
            sorted.truncate(n);
        }
        proof {
            assert(models(sorted@) =~= full.take(sorted@.len() as int));
            if self@.len() == 0 {
                assert(models(sorted@) =~= Seq::<EntryModel>::empty());
            }
        }
        sorted
    }
}

} // verus!
