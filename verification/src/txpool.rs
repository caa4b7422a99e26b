//! The mempool: a deduplicated holding area for pending transactions, keyed
//! by transaction hash. Inserting an already-present hash replaces that entry
//! and never grows the pool.

use vstd::prelude::*;
use crate::transaction::{Transaction, tx_hash};

verus! {

/// Whether some transaction in `s` has the hash `h`.
pub open spec fn contains_hash(s: Seq<Transaction>, h: Seq<u8>) -> bool {
    exists|i: int| 0 <= i < s.len() && tx_hash((#[trigger] s[i]).data) == h
}

/// Pairwise-distinct transaction hashes.
pub open spec fn distinct_hashes(s: Seq<Transaction>) -> bool {
    forall|i: int, j: int| 0 <= i < j < s.len()
        ==> tx_hash((#[trigger] s[i]).data) != tx_hash((#[trigger] s[j]).data)
}

/// A deduplicated pool of pending transactions.
pub struct TxPool {
    transactions: Vec<Transaction>,
}

impl TxPool {
    /// The pooled transactions; order carries no meaning.
    pub closed spec fn pool_view(self) -> Seq<Transaction> {
        self.transactions@
    }

    /// Pool invariant: hashes are pairwise distinct.
    pub open spec fn wf(self) -> bool {
        distinct_hashes(self.pool_view())
    }

    /// An empty pool.
    pub fn new() -> (p: TxPool)
        ensures
            p.wf(),
            p.pool_view() == Seq::<Transaction>::empty(),
    {
        let p = TxPool { transactions: Vec::new() };
        proof {
            assert(p.pool_view() =~= Seq::<Transaction>::empty());
        }
        p
    }

    /// Idempotent upsert keyed by the transaction's hash: a new hash is
    /// appended, a present hash has its entry replaced, so the pool never
    /// holds two transactions with one hash.
    pub fn add(&mut self, tx: Transaction)
        requires
            old(self).wf(),
        ensures
            final(self).wf(),
            contains_hash(old(self).pool_view(), tx_hash(tx.data))
                ==> exists|i: int| 0 <= i < old(self).pool_view().len()
                    && tx_hash((#[trigger] old(self).pool_view()[i]).data) == tx_hash(tx.data)
                    && final(self).pool_view() == old(self).pool_view().update(i, tx),
            !contains_hash(old(self).pool_view(), tx_hash(tx.data))
                ==> final(self).pool_view() == old(self).pool_view().push(tx),
            final(self).pool_view().len() == if contains_hash(old(self).pool_view(), tx_hash(tx.data)) {
                old(self).pool_view().len()
            } else {
                old(self).pool_view().len() + 1
            },
            contains_hash(final(self).pool_view(), tx_hash(tx.data)),
    {
        let ghost pre = self.transactions@;
        proof {
            assert(distinct_hashes(pre));
        }
        let key = tx.hash();
        let n = self.transactions.len();
        let mut k: usize = 0;
        while k < n
            invariant
                pre == old(self).pool_view(),
                pre == self.transactions@,
                distinct_hashes(pre),
                n == pre.len(),
                k <= n,
                key@ == tx_hash(tx.data),
                forall|m: int| 0 <= m < k ==> tx_hash((#[trigger] pre[m]).data) != key@,
            decreases n - k,
        {
            let h = self.transactions[k].hash();
            if crate::codec::bytes_eq(&h, &key) {
                proof {
                    assert(tx_hash(pre[k as int].data) == key@);
                }
                self.transactions.set(k, tx);
                proof {
                    let post = self.transactions@;
                    assert(post == pre.update(k as int, tx));
                    assert forall|i: int, j: int| 0 <= i < j < post.len()
                        implies tx_hash((#[trigger] post[i]).data)
                            != tx_hash((#[trigger] post[j]).data) by {
                        if i == k as int {
                            assert(post[i] == tx);
                            assert(post[j] == pre[j]);
                            assert(tx_hash((pre[k as int]).data) != tx_hash((pre[j]).data));
                        } else if j == k as int {
                            assert(post[j] == tx);
                            assert(post[i] == pre[i]);
                        } else {
                            assert(post[i] == pre[i] && post[j] == pre[j]);
                        }
                    }
                    assert(contains_hash(post, key@)) by {
                        assert(tx_hash(post[k as int].data) == key@);
                    }
                    assert((k as int) < pre.len()
                        && tx_hash(pre[k as int].data) == tx_hash(tx.data)
                        && post == pre.update(k as int, tx));
                    assert(contains_hash(pre, tx_hash(tx.data))) by {
                        assert(tx_hash(pre[k as int].data) == tx_hash(tx.data));
                    }
                }
                return;
            }
            k = k + 1;
        }
        proof {
            assert(!contains_hash(pre, key@));
        }
        self.transactions.push(tx);
        proof {
            let post = self.transactions@;
            assert(post == pre.push(tx));
            assert forall|i: int, j: int| 0 <= i < j < post.len()
                implies tx_hash((#[trigger] post[i]).data) != tx_hash((#[trigger] post[j]).data) by {
                if j < pre.len() {
                    assert(post[i] == pre[i] && post[j] == pre[j]);
                } else {
                    assert(post[j] == tx);
                    assert(post[i] == pre[i]);
                }
            }
            assert(contains_hash(post, key@)) by {
                assert(tx_hash(post[pre.len() as int].data) == key@);
            }
        }
    }

    /// Membership by hash.
    pub fn has(&self, tx: &Transaction) -> (r: bool)
        ensures
            r == contains_hash(self.pool_view(), tx_hash(tx.data)),
    {
        let key = tx.hash();
        let n = self.transactions.len();
        let mut k: usize = 0;
        while k < n
            invariant
                n == self.pool_view().len(),
                k <= n,
                key@ == tx_hash(tx.data),
                forall|m: int| 0 <= m < k
                    ==> tx_hash((#[trigger] self.pool_view()[m]).data) != key@,
            decreases n - k,
        {
            let h = self.transactions[k].hash();
            if crate::codec::bytes_eq(&h, &key) {
                return true;
            }
            k = k + 1;
        }
        false
    }

    /// A snapshot of the pending transactions; the order carries no meaning.
    pub fn transactions(&self) -> (r: Vec<&Transaction>)
        ensures
            r@.len() == self.pool_view().len(),
            forall|k: int| 0 <= k < r@.len() ==> *(#[trigger] r@[k]) == self.pool_view()[k],
    {
        let n = self.transactions.len();
        let mut out: Vec<&Transaction> = Vec::new();
        let mut k: usize = 0;
        while k < n
            invariant
                n == self.pool_view().len(),
                k <= n,
                out@.len() == k,
                forall|m: int| 0 <= m < k ==> *(#[trigger] out@[m]) == self.pool_view()[m],
            decreases n - k,
        {
            out.push(&self.transactions[k]);
            k = k + 1;
        }
        out
    }

    /// How many transactions are pending.
    pub fn len(&self) -> (r: usize)
        ensures
            r == self.pool_view().len(),
    {
        self.transactions.len()
    }
}

/// Once a transaction is inserted — appended or replacing an entry — its
/// hash is present; by `add`'s length clause, a second insert of any
/// transaction with that hash then replaces the entry and leaves the pool's
/// length unchanged.
pub proof fn lemma_pool_add_dedup(p: Seq<Transaction>, t1: Transaction, t2: Transaction)
    requires
        tx_hash(t1.data) == tx_hash(t2.data),
    ensures
        contains_hash(p.push(t1), tx_hash(t2.data)),
        forall|i: int| 0 <= i < p.len()
            ==> contains_hash(#[trigger] p.update(i, t1), tx_hash(t2.data)),
{
    assert(tx_hash(p.push(t1)[p.len() as int].data) == tx_hash(t2.data));
    assert forall|i: int| 0 <= i < p.len()
        implies contains_hash(#[trigger] p.update(i, t1), tx_hash(t2.data)) by {
        assert(tx_hash(p.update(i, t1)[i].data) == tx_hash(t2.data));
    }
}

} // verus!
