//! Pending transactions, kept in increasing order of their identifiers.

use vstd::prelude::*;
use crate::keymap::{bytes_lt, compare_bytes, lemma_bytes_lt_asym, lemma_bytes_lt_irrefl, lemma_bytes_lt_trans};
use crate::transaction::{tx_id_spec, Transaction, TransactionId};

verus! {

/// Pool entries: identifier bytes and transaction.
pub type PoolEntries = Seq<(Seq<u8>, Transaction)>;

/// Identifiers strictly increase along the entries.
pub open spec fn ids_increase(e: PoolEntries) -> bool {
    forall|i: int, j: int| 0 <= i < j < e.len() ==> bytes_lt(#[trigger] e[i].0, #[trigger] e[j].0)
}

/// Every entry is stored under the identifier of its transaction.
pub open spec fn ids_match(e: PoolEntries) -> bool {
    forall|i: int| 0 <= i < e.len() ==> (#[trigger] e[i]).0 == tx_id_spec(e[i].1)
}

/// Some entry is stored under `k`.
pub open spec fn has_id(e: PoolEntries, k: Seq<u8>) -> bool {
    exists|i: int| 0 <= i < e.len() && (#[trigger] e[i]).0 == k
}

/// The transaction stored under `k`, if any.
pub open spec fn find_tx(e: PoolEntries, k: Seq<u8>) -> Option<Transaction>
    decreases e.len(),
{
    if e.len() == 0 {
        None
    } else if e[0].0 == k {
        Some(e[0].1)
    } else {
        find_tx(e.drop_first(), k)
    }
}

/// Adds `(k, t)` in identifier order (replacing an entry stored under `k`).
pub open spec fn insert_by_id(e: PoolEntries, k: Seq<u8>, t: Transaction) -> PoolEntries
    decreases e.len(),
{
    if e.len() == 0 {
        seq![(k, t)]
    } else if e[0].0 == k {
        e.update(0, (k, t))
    } else if bytes_lt(k, e[0].0) {
        seq![(k, t)] + e
    } else {
        seq![e[0]] + insert_by_id(e.drop_first(), k, t)
    }
}

/// Drops the entry stored under `k`, if any.
pub open spec fn remove_by_id(e: PoolEntries, k: Seq<u8>) -> PoolEntries
    decreases e.len(),
{
    if e.len() == 0 {
        e
    } else if e[0].0 == k {
        e.drop_first()
    } else {
        seq![e[0]] + remove_by_id(e.drop_first(), k)
    }
}

/// The transactions of the entries, in order.
pub open spec fn pool_txs(e: PoolEntries) -> Seq<Transaction> {
    e.map_values(|x: (Seq<u8>, Transaction)| x.1)
}

proof fn lemma_insert_at(e: PoolEntries, k: Seq<u8>, t: Transaction, i: int)
    requires
        0 <= i <= e.len(),
        forall|j: int| 0 <= j < i ==> bytes_lt(#[trigger] e[j].0, k),
        i < e.len() ==> bytes_lt(k, e[i].0),
    ensures
        insert_by_id(e, k, t) == e.insert(i, (k, t)),
    decreases i,
{
    if i == 0 {
        if e.len() > 0 {
            lemma_bytes_lt_irrefl(k);
        }
        assert(e.insert(0, (k, t)) =~= seq![(k, t)] + e);
    } else {
        lemma_bytes_lt_irrefl(k);
        lemma_bytes_lt_asym(e[0].0, k);
        let rest = e.drop_first();
        assert forall|j: int| 0 <= j < i - 1 implies bytes_lt(#[trigger] rest[j].0, k) by {
            assert(rest[j] == e[j + 1]);
        }
        lemma_insert_at(rest, k, t, i - 1);
        assert(seq![e[0]] + rest.insert(i - 1, (k, t)) =~= e.insert(i, (k, t)));
    }
}

proof fn lemma_insert_keeps_order(e: PoolEntries, k: Seq<u8>, t: Transaction, i: int)
    requires
        ids_increase(e),
        ids_match(e),
        k == tx_id_spec(t),
        0 <= i <= e.len(),
        forall|j: int| 0 <= j < i ==> bytes_lt(#[trigger] e[j].0, k),
        i < e.len() ==> bytes_lt(k, e[i].0),
    ensures
        ids_increase(e.insert(i, (k, t))),
        ids_match(e.insert(i, (k, t))),
{
    let ne = e.insert(i, (k, t));
    assert forall|a: int, b: int| 0 <= a < b < ne.len() implies bytes_lt(
        #[trigger] ne[a].0,
        #[trigger] ne[b].0,
    ) by {
        if b < i {
        } else if a < i && b == i {
        } else if a < i {
            assert(bytes_lt(e[a].0, e[b - 1].0));
        } else if a == i {
            if b - 1 > i {
                lemma_bytes_lt_trans(k, e[i].0, e[b - 1].0);
            }
        } else {
            assert(bytes_lt(e[a - 1].0, e[b - 1].0));
        }
    }
    assert forall|a: int| 0 <= a < ne.len() implies (#[trigger] ne[a]).0 == tx_id_spec(ne[a].1) by {
        if a < i {
            assert(ne[a] == e[a]);
        } else if a > i {
            assert(ne[a] == e[a - 1]);
        }
    }
}

proof fn lemma_remove_keeps_order(e: PoolEntries, i: int)
    requires
        ids_increase(e),
        ids_match(e),
        0 <= i < e.len(),
    ensures
        ids_increase(e.remove(i)),
        ids_match(e.remove(i)),
{
    let ne = e.remove(i);
    assert forall|a: int, b: int| 0 <= a < b < ne.len() implies bytes_lt(
        #[trigger] ne[a].0,
        #[trigger] ne[b].0,
    ) by {
        if b < i {
        } else if a < i {
            assert(bytes_lt(e[a].0, e[b + 1].0));
        } else {
            assert(bytes_lt(e[a + 1].0, e[b + 1].0));
        }
    }
    assert forall|a: int| 0 <= a < ne.len() implies (#[trigger] ne[a]).0 == tx_id_spec(ne[a].1) by {
        if a < i {
            assert(ne[a] == e[a]);
        } else {
            assert(ne[a] == e[a + 1]);
        }
    }
}

proof fn lemma_found_at(e: PoolEntries, k: Seq<u8>, i: int)
    requires
        0 <= i < e.len(),
        forall|j: int| 0 <= j < i ==> #[trigger] e[j].0 != k,
        e[i].0 == k,
    ensures
        find_tx(e, k) == Some(e[i].1),
        remove_by_id(e, k) == e.remove(i),
    decreases i,
{
    if i == 0 {
        assert(e.remove(0) =~= e.drop_first());
    } else {
        let rest = e.drop_first();
        assert forall|j: int| 0 <= j < i - 1 implies #[trigger] rest[j].0 != k by {
            assert(rest[j] == e[j + 1]);
        }
        lemma_found_at(rest, k, i - 1);
        assert(seq![e[0]] + rest.remove(i - 1) =~= e.remove(i));
    }
}

proof fn lemma_absent(e: PoolEntries, k: Seq<u8>)
    requires
        !has_id(e, k),
    ensures
        find_tx(e, k) is None,
        remove_by_id(e, k) == e,
    decreases e.len(),
{
    if e.len() > 0 {
        assert(e[0] == e[0]);
        let rest = e.drop_first();
        assert(!has_id(rest, k)) by {
            if has_id(rest, k) {
                let j = choose|j: int| 0 <= j < rest.len() && (#[trigger] rest[j]).0 == k;
                assert(e[j + 1] == rest[j]);
            }
        }
        lemma_absent(rest, k);
        assert(seq![e[0]] + rest =~= e);
    }
}

/// Reading `k2` after adding `t` under `k`: the new transaction under `k`,
/// the old contents elsewhere.
pub proof fn lemma_find_after_insert(e: PoolEntries, k: Seq<u8>, t: Transaction, k2: Seq<u8>)
    ensures
        find_tx(insert_by_id(e, k, t), k2) == if k2 == k {
            Some(t)
        } else {
            find_tx(e, k2)
        },
    decreases e.len(),
{
    let s = insert_by_id(e, k, t);
    if e.len() == 0 {
        assert(s.drop_first() =~= e);
    } else if e[0].0 == k {
        assert(s.drop_first() =~= e.drop_first());
    } else if bytes_lt(k, e[0].0) {
        assert(s.drop_first() =~= e);
    } else {
        lemma_find_after_insert(e.drop_first(), k, t, k2);
        assert(s.drop_first() =~= insert_by_id(e.drop_first(), k, t));
    }
    assert(s[0].0 == k ==> s[0].1 == t);
    assert(s[0].0 != k ==> s[0] == e[0]);
}

/// Reading `k2` after dropping `k`: nothing under `k` when identifiers are
/// distinct, the old contents elsewhere.
pub proof fn lemma_find_after_remove(e: PoolEntries, k: Seq<u8>, k2: Seq<u8>)
    requires
        ids_increase(e),
    ensures
        find_tx(remove_by_id(e, k), k2) == if k2 == k {
            None
        } else {
            find_tx(e, k2)
        },
    decreases e.len(),
{
    if e.len() > 0 {
        let rest = e.drop_first();
        assert forall|i: int, j: int| 0 <= i < j < rest.len() implies bytes_lt(
            #[trigger] rest[i].0,
            #[trigger] rest[j].0,
        ) by {
            assert(rest[i] == e[i + 1] && rest[j] == e[j + 1]);
        }
        lemma_find_after_remove(rest, k, k2);
        if e[0].0 == k {
            if k2 == k {
                assert(!has_id(rest, k)) by {
                    if has_id(rest, k) {
                        let j = choose|j: int| 0 <= j < rest.len() && (#[trigger] rest[j]).0 == k;
                        assert(e[j + 1] == rest[j]);
                        assert(bytes_lt(e[0].0, e[j + 1].0));
                        lemma_bytes_lt_irrefl(k);
                    }
                }
                lemma_absent(rest, k);
            }
        } else {
            assert((seq![e[0]] + remove_by_id(rest, k)).drop_first() =~= remove_by_id(rest, k));
        }
    }
}

/// The pool of pending transactions.
#[derive(Debug, Default)]
pub struct Mempool {
    entries: Vec<(TransactionId, Transaction)>,
}

/// Why a transaction was not admitted.
#[derive(Clone, Copy, Debug, PartialEq, Eq)]
pub enum MempoolError {
    Duplicate(TransactionId),
}

impl View for Mempool {
    type V = PoolEntries;

    closed spec fn view(&self) -> PoolEntries {
        self.entries@.map_values(|x: (TransactionId, Transaction)| (x.0.0@, x.1))
    }
}

impl Mempool {
    #[verifier::type_invariant]
    spec fn ordered(self) -> bool {
        ids_increase(self@) && ids_match(self@)
    }

    /// Every pool keeps its entries in strictly increasing identifier order,
    /// each under the identifier of its transaction.
    pub fn entries_ordered(&self)
        ensures
            ids_increase(self@),
            ids_match(self@),
    {
        proof {
            use_type_invariant(self);
        }
    }

    pub fn new() -> (r: Mempool)
        ensures
            r@ == Seq::<(Seq<u8>, Transaction)>::empty(),
    {
        let r = Mempool { entries: Vec::new() };
        assert(r@ =~= Seq::<(Seq<u8>, Transaction)>::empty());
        r
    }

    pub fn len(&self) -> (r: usize)
        ensures
            r == self@.len(),
    {
        self.entries.len()
    }

    pub fn is_empty(&self) -> (r: bool)
        ensures
            r <==> self@.len() == 0,
    {
        self.entries.len() == 0
    }

    /// The position of the first entry whose identifier is not below `k`,
    /// and whether that entry is stored under `k`.
    fn locate(&self, k: &TransactionId) -> (r: (usize, bool))
        ensures
            r.0 <= self@.len(),
            forall|j: int| 0 <= j < r.0 ==> bytes_lt(#[trigger] self@[j].0, k.0@),
            r.1 <==> (r.0 < self@.len() && self@[r.0 as int].0 == k.0@),
            !r.1 && r.0 < self@.len() ==> bytes_lt(k.0@, self@[r.0 as int].0),
            r.1 <==> has_id(self@, k.0@),
    {
        proof {
            use_type_invariant(self);
        }
        let ghost e = self@;
        let mut i: usize = 0;
        while i < self.entries.len()
            invariant
                e == self@,
                e.len() == self.entries@.len(),
                ids_increase(e),
                i <= e.len(),
                forall|j: int| 0 <= j < i ==> bytes_lt(#[trigger] e[j].0, k.0@),
            decreases e.len() - i,
        {
            let c = compare_bytes(self.entries[i].0.0.as_slice(), k.0.as_slice());
            assert(e[i as int].0 == self.entries@[i as int].0.0@);
            if c == 0 {
                return (i, true);
            }
            if c == 1 {
                proof {
                    assert forall|j: int| 0 <= j < e.len() implies (#[trigger] e[j]).0 != k.0@ by {
                        if j < i {
                            lemma_bytes_lt_irrefl(k.0@);
                        } else if j > i {
                            lemma_bytes_lt_trans(k.0@, e[i as int].0, e[j].0);
                            lemma_bytes_lt_irrefl(k.0@);
                        } else {
                            lemma_bytes_lt_irrefl(k.0@);
                        }
                    }
                }
                return (i, false);
            }
            i = i + 1;
        }
        proof {
            assert forall|j: int| 0 <= j < e.len() implies (#[trigger] e[j]).0 != k.0@ by {
                lemma_bytes_lt_irrefl(k.0@);
            }
        }
        (i, false)
    }

    /// Whether a transaction with identifier `id` is pending.
    pub fn contains(&self, id: &TransactionId) -> (r: bool)
        ensures
            r <==> has_id(self@, id.0@),
    {
        let (_, found) = self.locate(id);
        found
    }

    /// Admits `tx` under its identifier, unless a transaction with that
    /// identifier is already pending.
    pub fn insert(&mut self, tx: Transaction) -> (r: Result<TransactionId, MempoolError>)
        ensures
            r is Err <==> has_id(old(self)@, tx_id_spec(tx)),
            match r {
                Ok(id) => id.0@ == tx_id_spec(tx) && final(self)@ == insert_by_id(
                    old(self)@,
                    tx_id_spec(tx),
                    tx,
                ),
                Err(MempoolError::Duplicate(id)) => id.0@ == tx_id_spec(tx) && final(self)@ == old(
                    self,
                )@,
            },
    {
        proof {
            use_type_invariant(&*self);
        }
        let id = tx.id();
        let (i, found) = self.locate(&id);
        if found {
            return Err(MempoolError::Duplicate(id));
        }
        let ghost e = self@;
        let ghost k = id.0@;
        proof {
            lemma_insert_at(e, k, tx, i as int);
        }
        let mut entries: Vec<(TransactionId, Transaction)> = Vec::new();
        std::mem::swap(&mut entries, &mut self.entries);
        entries.insert(i, (id, tx));
        let ghost ne = entries@.map_values(|x: (TransactionId, Transaction)| (x.0.0@, x.1));
        assert(ne =~= e.insert(i as int, (k, tx)));
        proof {
            lemma_insert_keeps_order(e, k, tx, i as int);
        }
        self.entries = entries;
        Ok(id)
    }

    /// Takes out the transaction stored under `id`, if any.
    pub fn remove(&mut self, id: &TransactionId) -> (r: Option<Transaction>)
        ensures
            r == find_tx(old(self)@, id.0@),
            final(self)@ == remove_by_id(old(self)@, id.0@),
    {
        proof {
            use_type_invariant(&*self);
        }
        let (i, found) = self.locate(id);
        let ghost e = self@;
        if !found {
            proof {
                lemma_absent(e, id.0@);
            }
            return None;
        }
        proof {
            assert forall|j: int| 0 <= j < i implies #[trigger] e[j].0 != id.0@ by {
                lemma_bytes_lt_irrefl(id.0@);
            }
            lemma_found_at(e, id.0@, i as int);
        }
        let mut entries: Vec<(TransactionId, Transaction)> = Vec::new();
        std::mem::swap(&mut entries, &mut self.entries);
        let (_, tx) = entries.remove(i);
        let ghost ne = entries@.map_values(|x: (TransactionId, Transaction)| (x.0.0@, x.1));
        assert(ne =~= e.remove(i as int));
        proof {
            lemma_remove_keeps_order(e, i as int);
        }
        self.entries = entries;
        Some(tx)
    }

    /// Takes out the `limit` transactions with the smallest identifiers (all
    /// of them when fewer are pending), in increasing identifier order.
    pub fn drain_for_block(&mut self, limit: usize) -> (r: Vec<Transaction>)
        ensures
            ({
                let n = if limit < old(self)@.len() {
                    limit as int
                } else {
                    old(self)@.len() as int
                };
                &&& r@ == pool_txs(old(self)@.take(n))
                &&& final(self)@ == old(self)@.skip(n)
            }),
    {
        proof {
            use_type_invariant(&*self);
        }
        let ghost e = self@;
        let n: usize = if limit < self.entries.len() {
            limit
        } else {
            self.entries.len()
        };
        let mut taken: Vec<(TransactionId, Transaction)> = Vec::new();
        std::mem::swap(&mut taken, &mut self.entries);
        let rest = taken.split_off(n);
        let ghost re = rest@.map_values(|x: (TransactionId, Transaction)| (x.0.0@, x.1));
        assert(re =~= e.skip(n as int));
        proof {
            assert forall|a: int, b: int| 0 <= a < b < re.len() implies bytes_lt(
                #[trigger] re[a].0,
                #[trigger] re[b].0,
            ) by {
                assert(re[a] == e[a + n] && re[b] == e[b + n]);
            }
            assert forall|a: int| 0 <= a < re.len() implies (#[trigger] re[a]).0 == tx_id_spec(
                re[a].1,
            ) by {
                assert(re[a] == e[a + n]);
            }
        }
        self.entries = rest;
        let ghost first = taken@;
        let mut out: Vec<Transaction> = Vec::new();
        let mut k: usize = 0;
        while taken.len() > 0
            invariant
                first.len() == n,
                k + taken@.len() == n,
                taken@ == first.skip(k as int),
                out@ == first.take(k as int).map_values(|x: (TransactionId, Transaction)| x.1),
                first.map_values(|x: (TransactionId, Transaction)| (x.0.0@, x.1)) == e.take(n as int),
            decreases taken@.len(),
        {
            let (_, tx) = taken.remove(0);
            out.push(tx);
            assert(first.take(k + 1).map_values(|x: (TransactionId, Transaction)| x.1) =~= first.take(
                k as int,
            ).map_values(|x: (TransactionId, Transaction)| x.1).push(first[k as int].1));
            assert(taken@ =~= first.skip(k + 1));
            k = k + 1;
        }
        assert(first.take(k as int) =~= first);
        assert(out@ =~= pool_txs(e.take(n as int)));
        out
    }
}

} // verus!
