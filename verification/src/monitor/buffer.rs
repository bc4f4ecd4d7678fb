use vstd::prelude::*;

use crate::seqs::{first_index, lemma_first_index_is};
use crate::types::TxInfo;

verus! {

/// `a` comes no later than `b` in (slot, index) order.
pub open spec fn tx_before<R>(a: TxInfo<R>, b: TxInfo<R>) -> bool {
    a.slot < b.slot || (a.slot == b.slot && a.index <= b.index)
}

/// The sequence runs from the latest transaction to the earliest.
pub open spec fn latest_first<R>(s: Seq<TxInfo<R>>) -> bool {
    forall|i: int, j: int| 0 <= i < j < s.len() ==> tx_before(#[trigger] s[j], #[trigger] s[i])
}

/// The test "`t` comes no later than `tx`".
pub open spec fn not_after<R>(tx: TxInfo<R>) -> spec_fn(TxInfo<R>) -> bool {
    |t: TxInfo<R>| tx_before(t, tx)
}

/// Where a new transaction `tx` goes in a latest-first sequence: before the
/// first transaction that comes no later than it. Transactions at the same
/// position therefore leave (from the end) in the order they arrived.
pub open spec fn arrival_pos<R>(s: Seq<TxInfo<R>>, tx: TxInfo<R>) -> int {
    first_index(s, not_after(tx))
}

/// Whether `a` comes no later than `b` in (slot, index) order.
pub fn precedes<R>(a: &TxInfo<R>, b: &TxInfo<R>) -> (r: bool)
    ensures
        r == tx_before(*a, *b),
{
    a.slot < b.slot || (a.slot == b.slot && a.index <= b.index)
}

/// A priority buffer of transactions that hands out the earliest one in
/// (slot, index) order first.
pub struct TxBuffer<R> {
    items: Vec<TxInfo<R>>,
}

impl<R> TxBuffer<R> {
    /// The buffered transactions, from the latest to the earliest.
    pub closed spec fn contents(&self) -> Seq<TxInfo<R>> {
        self.items@
    }

    /// The buffer keeps its transactions ordered.
    pub open spec fn wf(&self) -> bool {
        latest_first(self.contents())
    }

    /// An empty buffer.
    pub fn new() -> (b: Self)
        ensures
            b.wf(),
            b.contents() == Seq::<TxInfo<R>>::empty(),
    {
        TxBuffer { items: Vec::new() }
    }

    /// The number of buffered transactions.
    pub fn len(&self) -> (n: usize)
        ensures
            n == self.contents().len(),
    {
        self.items.len()
    }

    /// Adds a transaction. It goes after every buffered transaction that does
    /// not come later than it, so equal positions leave in arrival order.
    pub fn push(&mut self, tx: TxInfo<R>)
        requires
            old(self).wf(),
        ensures
            final(self).wf(),
            0 <= arrival_pos(old(self).contents(), tx) <= old(self).contents().len(),
            final(self).contents() == old(self).contents().insert(arrival_pos(old(self).contents(), tx), tx),
    {
        let mut p: usize = 0;
        while p < self.items.len() && !precedes(&self.items[p], &tx)
            invariant
                0 <= p <= self.items.len(),
                latest_first(self.items@),
                self.items@ == old(self).items@,
                forall|k: int| 0 <= k < p ==> !tx_before(#[trigger] self.items@[k], tx),
            decreases self.items.len() - p,
        {
            p = p + 1;
        }
        let ghost before = self.items@;
        proof {
            lemma_first_index_is(before, not_after(tx), 0, p as int);
        }
        self.items.insert(p, tx);
        assert forall|i: int, j: int| 0 <= i < j < self.items@.len() implies tx_before(
            #[trigger] self.items@[j],
            #[trigger] self.items@[i],
        ) by {
            if j < p {
            } else if j == p {
            } else if i < p {
                assert(self.items@[j] == before[j - 1]);
                if (j - 1) > p {
                    assert(tx_before(before[j - 1], before[p as int]));
                }
            } else if i == p {
                assert(self.items@[j] == before[j - 1]);
                if (j - 1) > p {
                    assert(tx_before(before[j - 1], before[p as int]));
                }
            } else {
                assert(self.items@[i] == before[i - 1]);
                assert(self.items@[j] == before[j - 1]);
            }
        }
        assert(self.contents() == old(self).contents().insert(p as int, tx));
    }

    /// The slot of the earliest buffered transaction.
    pub fn peek_slot(&self) -> (s: Option<u64>)
        ensures
            self.contents().len() == 0 ==> s is None,
            self.contents().len() > 0 ==> s == Some(self.contents().last().slot),
    {
        let n = self.items.len();
        if n == 0 {
            None
        } else {
            Some(self.items[n - 1].slot)
        }
    }

    /// Takes out the earliest buffered transaction.
    pub fn pop(&mut self) -> (r: Option<TxInfo<R>>)
        requires
            old(self).wf(),
        ensures
            final(self).wf(),
            old(self).contents().len() == 0 ==> r is None && final(self).contents() == old(
                self,
            ).contents(),
            old(self).contents().len() > 0 ==> r == Some(old(self).contents().last())
                && final(self).contents() == old(self).contents().drop_last(),
            r matches Some(t) ==> forall|i: int|
                0 <= i < old(self).contents().len() ==> tx_before(
                    t,
                    #[trigger] old(self).contents()[i],
                ),
    {
        let r = self.items.pop();
        r
    }
}

} // verus!
