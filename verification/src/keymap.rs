//! Maps keyed by address, kept as a vector of entries in strictly increasing
//! byte order of the address strings (the order of a `BTreeMap<Address, _>`).

use vstd::prelude::*;
use vstd::utf8::{encode_utf8, encode_utf8_decode_utf8};
use crate::address::{valid_address, Address};

verus! {

/// Lexicographic order on byte strings (a proper prefix comes first).
pub open spec fn bytes_lt(a: Seq<u8>, b: Seq<u8>) -> bool
    decreases a.len(),
{
    if a.len() == 0 {
        b.len() > 0
    } else if b.len() == 0 {
        false
    } else if a[0] != b[0] {
        a[0] < b[0]
    } else {
        bytes_lt(a.drop_first(), b.drop_first())
    }
}

/// Order on address strings: the order of their UTF-8 bytes.
pub open spec fn key_lt(a: Seq<char>, b: Seq<char>) -> bool {
    bytes_lt(encode_utf8(a), encode_utf8(b))
}

/// Entries whose keys strictly increase.
pub open spec fn sorted_keys<T>(e: Seq<(Seq<char>, T)>) -> bool {
    forall|i: int, j: int| 0 <= i < j < e.len() ==> key_lt(#[trigger] e[i].0, #[trigger] e[j].0)
}

/// Every key is a well-formed address string.
pub open spec fn keys_valid<T>(e: Seq<(Seq<char>, T)>) -> bool {
    forall|i: int| 0 <= i < e.len() ==> valid_address(#[trigger] e[i].0)
}

/// The value stored under `k`, if any (the first entry with that key).
pub open spec fn lookup<T>(e: Seq<(Seq<char>, T)>, k: Seq<char>) -> Option<T>
    decreases e.len(),
{
    if e.len() == 0 {
        None
    } else if e[0].0 == k {
        Some(e[0].1)
    } else {
        lookup(e.drop_first(), k)
    }
}

/// Stores `v` under `k`, replacing an entry with that key or adding one in
/// key order.
pub open spec fn sorted_insert<T>(e: Seq<(Seq<char>, T)>, k: Seq<char>, v: T) -> Seq<(Seq<char>, T)>
    decreases e.len(),
{
    if e.len() == 0 {
        seq![(k, v)]
    } else if e[0].0 == k {
        e.update(0, (k, v))
    } else if key_lt(k, e[0].0) {
        seq![(k, v)] + e
    } else {
        seq![e[0]] + sorted_insert(e.drop_first(), k, v)
    }
}

pub proof fn lemma_bytes_lt_irrefl(a: Seq<u8>)
    ensures
        !bytes_lt(a, a),
    decreases a.len(),
{
    if a.len() > 0 {
        lemma_bytes_lt_irrefl(a.drop_first());
    }
}

pub proof fn lemma_bytes_lt_trans(a: Seq<u8>, b: Seq<u8>, c: Seq<u8>)
    requires
        bytes_lt(a, b),
        bytes_lt(b, c),
    ensures
        bytes_lt(a, c),
    decreases a.len(),
{
    if a.len() > 0 && b.len() > 0 && c.len() > 0 && a[0] == b[0] && b[0] == c[0] {
        lemma_bytes_lt_trans(a.drop_first(), b.drop_first(), c.drop_first());
    }
}

pub proof fn lemma_bytes_lt_total(a: Seq<u8>, b: Seq<u8>)
    ensures
        a == b || bytes_lt(a, b) || bytes_lt(b, a),
    decreases a.len(),
{
    if a.len() > 0 && b.len() > 0 && a[0] == b[0] {
        lemma_bytes_lt_total(a.drop_first(), b.drop_first());
        if a.drop_first() == b.drop_first() {
            assert(a =~= seq![a[0]] + a.drop_first());
            assert(b =~= seq![b[0]] + b.drop_first());
        }
    } else if a.len() == 0 && b.len() == 0 {
        assert(a =~= b);
    }
}

pub proof fn lemma_bytes_lt_asym(a: Seq<u8>, b: Seq<u8>)
    requires
        bytes_lt(a, b),
    ensures
        !bytes_lt(b, a),
{
    if bytes_lt(b, a) {
        lemma_bytes_lt_trans(a, b, a);
        lemma_bytes_lt_irrefl(a);
    }
}

/// Distinct strings have distinct UTF-8 encodings.
pub proof fn lemma_encode_injective(a: Seq<char>, b: Seq<char>)
    requires
        encode_utf8(a) == encode_utf8(b),
    ensures
        a == b,
{
    encode_utf8_decode_utf8(a);
    encode_utf8_decode_utf8(b);
}

/// `key_lt` is a strict total order.
pub proof fn lemma_key_order(a: Seq<char>, b: Seq<char>, c: Seq<char>)
    ensures
        !key_lt(a, a),
        a == b || key_lt(a, b) || key_lt(b, a),
        key_lt(a, b) ==> !key_lt(b, a),
        key_lt(a, b) && key_lt(b, c) ==> key_lt(a, c),
{
    lemma_bytes_lt_irrefl(encode_utf8(a));
    lemma_bytes_lt_total(encode_utf8(a), encode_utf8(b));
    if encode_utf8(a) == encode_utf8(b) {
        lemma_encode_injective(a, b);
    }
    if key_lt(a, b) {
        lemma_bytes_lt_asym(encode_utf8(a), encode_utf8(b));
        if key_lt(b, c) {
            lemma_bytes_lt_trans(encode_utf8(a), encode_utf8(b), encode_utf8(c));
        }
    }
}

proof fn lemma_bytes_lt_skip(a: Seq<u8>, b: Seq<u8>, i: int)
    requires
        0 <= i <= a.len(),
        i <= b.len(),
        a.subrange(0, i) == b.subrange(0, i),
    ensures
        bytes_lt(a, b) == bytes_lt(a.subrange(i, a.len() as int), b.subrange(i, b.len() as int)),
    decreases i,
{
    if i > 0 {
        assert(a[0] == a.subrange(0, i)[0]);
        assert(b[0] == b.subrange(0, i)[0]);
        assert(a.drop_first().subrange(0, i - 1) =~= a.subrange(0, i).drop_first());
        assert(b.drop_first().subrange(0, i - 1) =~= b.subrange(0, i).drop_first());
        lemma_bytes_lt_skip(a.drop_first(), b.drop_first(), i - 1);
        assert(a.drop_first().subrange(i - 1, a.len() - 1) =~= a.subrange(i, a.len() as int));
        assert(b.drop_first().subrange(i - 1, b.len() - 1) =~= b.subrange(i, b.len() as int));
    } else {
        assert(a.subrange(0, a.len() as int) =~= a);
        assert(b.subrange(0, b.len() as int) =~= b);
    }
}

/// Three-way comparison of byte strings: -1, 0 or 1.
pub fn compare_bytes(a: &[u8], b: &[u8]) -> (r: i8)
    ensures
        r == -1 <==> bytes_lt(a@, b@),
        r == 0 <==> a@ == b@,
        r == 1 <==> bytes_lt(b@, a@),
        -1 <= r <= 1,
{
    proof {
        lemma_bytes_lt_irrefl(a@);
        lemma_bytes_lt_total(a@, b@);
        if bytes_lt(a@, b@) {
            lemma_bytes_lt_asym(a@, b@);
        }
    }
    let mut i: usize = 0;
    while i < a.len() && i < b.len()
        invariant
            i <= a@.len(),
            i <= b@.len(),
            a@.subrange(0, i as int) == b@.subrange(0, i as int),
        decreases a@.len() - i,
    {
        if a[i] != b[i] {
            proof {
                lemma_bytes_lt_skip(a@, b@, i as int);
                lemma_bytes_lt_skip(b@, a@, i as int);
            }
            if a[i] < b[i] {
                return -1;
            } else {
                return 1;
            }
        }
        assert(a@.subrange(0, i + 1) =~= a@.subrange(0, i as int).push(a@[i as int]));
        assert(b@.subrange(0, i + 1) =~= b@.subrange(0, i as int).push(b@[i as int]));
        i = i + 1;
    }
    proof {
        lemma_bytes_lt_skip(a@, b@, i as int);
        lemma_bytes_lt_skip(b@, a@, i as int);
    }
    if a.len() == b.len() {
        assert(a@ =~= a@.subrange(0, i as int));
        assert(b@ =~= b@.subrange(0, i as int));
        0
    } else if a.len() < b.len() {
        -1
    } else {
        1
    }
}

/// Three-way comparison of addresses in key order.
pub fn compare_addresses(a: &Address, b: &Address) -> (r: i8)
    ensures
        r == -1 <==> key_lt(a@, b@),
        r == 0 <==> a@ == b@,
        r == 1 <==> key_lt(b@, a@),
        -1 <= r <= 1,
{
    let r = compare_bytes(a.as_str().as_bytes(), b.as_str().as_bytes());
    proof {
        if encode_utf8(a@) == encode_utf8(b@) {
            lemma_encode_injective(a@, b@);
        }
    }
    r
}

/// Reading `k2` after storing `v` under `k`.
pub proof fn lemma_lookup_insert<T>(e: Seq<(Seq<char>, T)>, k: Seq<char>, v: T, k2: Seq<char>)
    ensures
        lookup(sorted_insert(e, k, v), k2) == if k2 == k {
            Some(v)
        } else {
            lookup(e, k2)
        },
    decreases e.len(),
{
    if e.len() == 0 {
    } else if e[0].0 == k {
        assert(e.update(0, (k, v)).drop_first() =~= e.drop_first());
    } else if key_lt(k, e[0].0) {
        assert((seq![(k, v)] + e).drop_first() =~= e);
    } else {
        lemma_lookup_insert(e.drop_first(), k, v, k2);
        assert((seq![e[0]] + sorted_insert(e.drop_first(), k, v)).drop_first() =~= sorted_insert(
            e.drop_first(),
            k,
            v,
        ));
    }
}

pub proof fn lemma_insert_split<T>(e: Seq<(Seq<char>, T)>, k: Seq<char>, v: T, i: int)
    requires
        0 <= i <= e.len(),
        forall|j: int| 0 <= j < i ==> key_lt(#[trigger] e[j].0, k),
    ensures
        sorted_insert(e, k, v) == e.subrange(0, i) + sorted_insert(e.subrange(i, e.len() as int), k, v),
    decreases i,
{
    if i == 0 {
        assert(e.subrange(0, 0) + sorted_insert(e.subrange(0, e.len() as int), k, v) =~= sorted_insert(e, k, v)) by {
            assert(e.subrange(0, e.len() as int) =~= e);
        }
    } else {
        lemma_key_order(k, e[0].0, k);
        assert(e[0].0 != k);
        assert(!key_lt(k, e[0].0));
        let rest = e.drop_first();
        assert forall|j: int| 0 <= j < i - 1 implies key_lt(#[trigger] rest[j].0, k) by {
            assert(rest[j] == e[j + 1]);
        }
        lemma_insert_split(rest, k, v, i - 1);
        assert(rest.subrange(i - 1, rest.len() as int) =~= e.subrange(i, e.len() as int));
        assert(seq![e[0]] + rest.subrange(0, i - 1) =~= e.subrange(0, i));
    }
}

proof fn lemma_lookup_skip<T>(e: Seq<(Seq<char>, T)>, k: Seq<char>, i: int)
    requires
        0 <= i <= e.len(),
        forall|j: int| 0 <= j < i ==> #[trigger] e[j].0 != k,
    ensures
        lookup(e, k) == lookup(e.subrange(i, e.len() as int), k),
    decreases i,
{
    if i == 0 {
        assert(e.subrange(0, e.len() as int) =~= e);
    } else {
        let rest = e.drop_first();
        assert forall|j: int| 0 <= j < i - 1 implies #[trigger] rest[j].0 != k by {
            assert(rest[j] == e[j + 1]);
        }
        lemma_lookup_skip(rest, k, i - 1);
        assert(rest.subrange(i - 1, rest.len() as int) =~= e.subrange(i, e.len() as int));
    }
}

/// The value stored under `k` when the `i`-th entry is the first with
/// that key.
pub proof fn lemma_lookup_at<T>(e: Seq<(Seq<char>, T)>, k: Seq<char>, i: int)
    requires
        0 <= i < e.len(),
        forall|j: int| 0 <= j < i ==> #[trigger] e[j].0 != k,
        e[i].0 == k,
    ensures
        lookup(e, k) == Some(e[i].1),
{
    lemma_lookup_skip(e, k, i);
    assert(e.subrange(i, e.len() as int)[0] == e[i]);
}

/// Nothing is stored under a key that no entry has.
pub proof fn lemma_lookup_absent<T>(e: Seq<(Seq<char>, T)>, k: Seq<char>)
    requires
        forall|j: int| 0 <= j < e.len() ==> #[trigger] e[j].0 != k,
    ensures
        lookup(e, k) is None,
{
    lemma_lookup_skip(e, k, e.len() as int);
    assert(e.subrange(e.len() as int, e.len() as int) =~= Seq::<(Seq<char>, T)>::empty());
}

/// Storing a key above `a` in entries whose keys are all above `a` leaves
/// every key above `a`.
proof fn lemma_insert_above<T>(e: Seq<(Seq<char>, T)>, k: Seq<char>, v: T, a: Seq<char>)
    requires
        forall|j: int| 0 <= j < e.len() ==> key_lt(a, #[trigger] e[j].0),
        key_lt(a, k),
    ensures
        forall|j: int|
            0 <= j < sorted_insert(e, k, v).len() ==> key_lt(a, #[trigger] sorted_insert(e, k, v)[j].0),
    decreases e.len(),
{
    if e.len() > 0 && e[0].0 != k && !key_lt(k, e[0].0) {
        let rest = e.drop_first();
        assert forall|j: int| 0 <= j < rest.len() implies key_lt(a, #[trigger] rest[j].0) by {
            assert(rest[j] == e[j + 1]);
        }
        lemma_insert_above(rest, k, v, a);
        let t = sorted_insert(e, k, v);
        assert forall|j: int| 0 <= j < t.len() implies key_lt(a, #[trigger] t[j].0) by {
            if j > 0 {
                assert(t[j] == sorted_insert(rest, k, v)[j - 1]);
            }
        }
    }
}

/// Storing a value keeps the keys in increasing order.
pub proof fn lemma_sorted_insert_sorted<T>(e: Seq<(Seq<char>, T)>, k: Seq<char>, v: T)
    requires
        sorted_keys(e),
    ensures
        sorted_keys(sorted_insert(e, k, v)),
    decreases e.len(),
{
    let t = sorted_insert(e, k, v);
    if e.len() == 0 {
    } else if e[0].0 == k {
        assert forall|a: int, b: int| 0 <= a < b < t.len() implies key_lt(#[trigger] t[a].0, #[trigger] t[b].0) by {
            assert(t[a].0 == e[a].0 && t[b].0 == e[b].0);
        }
    } else if key_lt(k, e[0].0) {
        assert forall|a: int, b: int| 0 <= a < b < t.len() implies key_lt(#[trigger] t[a].0, #[trigger] t[b].0) by {
            if a == 0 {
                if b > 1 {
                    lemma_key_order(k, e[0].0, e[b - 1].0);
                }
            } else {
                assert(t[a] == e[a - 1] && t[b] == e[b - 1]);
            }
        }
    } else {
        lemma_key_order(e[0].0, k, k);
        let rest = e.drop_first();
        assert forall|a: int, b: int| 0 <= a < b < rest.len() implies key_lt(
            #[trigger] rest[a].0,
            #[trigger] rest[b].0,
        ) by {
            assert(rest[a] == e[a + 1] && rest[b] == e[b + 1]);
        }
        assert forall|j: int| 0 <= j < rest.len() implies key_lt(e[0].0, #[trigger] rest[j].0) by {
            assert(rest[j] == e[j + 1]);
        }
        lemma_sorted_insert_sorted(rest, k, v);
        lemma_insert_above(rest, k, v, e[0].0);
        let u = sorted_insert(rest, k, v);
        assert forall|a: int, b: int| 0 <= a < b < t.len() implies key_lt(#[trigger] t[a].0, #[trigger] t[b].0) by {
            assert(t[b] == u[b - 1]);
            if a > 0 {
                assert(t[a] == u[a - 1]);
            }
        }
    }
}

/// Storing a new key that falls between the entries before `i` and the
/// entry at `i` inserts it at `i` and keeps the keys increasing.
pub proof fn lemma_insert_new_key<T>(e: Seq<(Seq<char>, T)>, k: Seq<char>, v: T, i: int)
    requires
        sorted_keys(e),
        0 <= i <= e.len(),
        forall|j: int| 0 <= j < i ==> key_lt(#[trigger] e[j].0, k),
        i < e.len() ==> key_lt(k, e[i].0),
    ensures
        sorted_insert(e, k, v) == e.insert(i, (k, v)),
        sorted_keys(e.insert(i, (k, v))),
        lookup(e, k) is None,
{
    lemma_insert_split(e, k, v, i);
    let tail = e.subrange(i, e.len() as int);
    if i < e.len() {
        assert(tail[0] == e[i]);
        lemma_key_order(k, e[i].0, k);
        assert(sorted_insert(tail, k, v) == seq![(k, v)] + tail);
    } else {
        assert(tail.len() == 0);
    }
    assert(e.subrange(0, i) + (seq![(k, v)] + tail) =~= e.insert(i, (k, v)));
    let ins = e.insert(i, (k, v));
    assert forall|a: int, b: int| 0 <= a < b < ins.len() implies key_lt(
        #[trigger] ins[a].0,
        #[trigger] ins[b].0,
    ) by {
        if b == i {
        } else if a == i {
            lemma_key_order(k, e[i].0, e[b - 1].0);
        } else if a < i && b > i {
            lemma_key_order(e[a].0, k, e[b - 1].0);
        } else if b < i {
        } else {
            assert(key_lt(e[a - 1].0, e[b - 1].0));
        }
    }
    assert forall|j: int| 0 <= j < e.len() implies #[trigger] e[j].0 != k by {
        lemma_key_order(k, k, k);
        if j > i {
            lemma_key_order(k, e[i].0, e[j].0);
        }
    }
    lemma_lookup_absent(e, k);
}

/// A map from addresses to values, in increasing key order.
#[derive(Debug)]
pub struct AddressMap<T: Copy> {
    entries: Vec<(Address, T)>,
}

impl<T: Copy> View for AddressMap<T> {
    type V = Seq<(Seq<char>, T)>;

    closed spec fn view(&self) -> Seq<(Seq<char>, T)> {
        self.entries@.map_values(|e: (Address, T)| (e.0@, e.1))
    }
}

impl<T: Copy> AddressMap<T> {
    #[verifier::type_invariant]
    spec fn keys_increase(self) -> bool {
        sorted_keys(self@) && keys_valid(self@)
    }

    /// The entries of every map are in strictly increasing key order, and
    /// every key is a well-formed address.
    pub fn entries_sorted(&self)
        ensures
            sorted_keys(self@),
            keys_valid(self@),
    {
        proof {
            use_type_invariant(self);
        }
    }

    pub fn new() -> (r: AddressMap<T>)
        ensures
            r@ == Seq::<(Seq<char>, T)>::empty(),
    {
        let r = AddressMap { entries: Vec::new() };
        assert(r@ =~= Seq::<(Seq<char>, T)>::empty());
        r
    }

    pub fn len(&self) -> (r: usize)
        ensures
            r == self@.len(),
    {
        self.entries.len()
    }

    /// The key of the `i`-th entry.
    pub fn key_at(&self, i: usize) -> (r: &Address)
        requires
            i < self@.len(),
        ensures
            r@ == self@[i as int].0,
    {
        &self.entries[i].0
    }

    /// The value of the `i`-th entry.
    pub fn value_at(&self, i: usize) -> (r: T)
        requires
            i < self@.len(),
        ensures
            r == self@[i as int].1,
    {
        self.entries[i].1
    }

    pub fn get(&self, k: &Address) -> (r: Option<T>)
        ensures
            r == lookup(self@, k@),
    {
        let ghost e = self@;
        let mut i: usize = 0;
        while i < self.entries.len()
            invariant
                e == self@,
                i <= e.len(),
                e.len() == self.entries@.len(),
                forall|j: int| 0 <= j < i ==> #[trigger] e[j].0 != k@,
            decreases e.len() - i,
        {
            if compare_addresses(&self.entries[i].0, k) == 0 {
                proof {
                    lemma_lookup_skip(e, k@, i as int);
                    assert(e.subrange(i as int, e.len() as int)[0] == e[i as int]);
                }
                return Some(self.entries[i].1);
            }
            i = i + 1;
        }
        proof {
            lemma_lookup_skip(e, k@, i as int);
            assert(e.subrange(i as int, e.len() as int) =~= Seq::<(Seq<char>, T)>::empty());
        }
        None
    }

    pub fn insert(&mut self, k: &Address, v: T)
        ensures
            final(self)@ == sorted_insert(old(self)@, k@, v),
    {
        k.check_valid();
        proof {
            use_type_invariant(&*self);
        }
        let ghost e = self@;
        let n = self.entries.len();
        let mut i: usize = 0;
        while i < n
            invariant
                e == self@,
                e == old(self)@,
                n == e.len(),
                n == self.entries@.len(),
                i <= n,
                sorted_keys(e),
                keys_valid(e),
                valid_address(k@),
                forall|j: int| 0 <= j < i ==> key_lt(#[trigger] e[j].0, k@),
            decreases n - i,
        {
            let c = compare_addresses(&self.entries[i].0, k);
            assert(e[i as int] == (self.entries@[i as int].0@, self.entries@[i as int].1));
            if c == 0 {
                proof {
                    lemma_insert_split(e, k@, v, i as int);
                    let tail = e.subrange(i as int, n as int);
                    assert(tail[0] == e[i as int]);
                    assert(tail.len() > 0);
                    assert(sorted_insert(tail, k@, v) == tail.update(0, (k@, v)));
                    assert(e.subrange(0, i as int) + tail.update(0, (k@, v))
                        =~= e.update(i as int, (k@, v)));
                    assert(sorted_insert(e, k@, v) == e.update(i as int, (k@, v)));
                }
                let key = k.clone();
                let mut entries: Vec<(Address, T)> = Vec::new();
                std::mem::swap(&mut entries, &mut self.entries);
                entries.set(i, (key, v));
                assert(entries@.map_values(|e: (Address, T)| (e.0@, e.1)) =~= e.update(i as int, (k@, v)));
                proof {
                    let u = e.update(i as int, (k@, v));
                    assert forall|a: int| 0 <= a < u.len() implies valid_address(#[trigger] u[a].0) by {
                        if a != i {
                            assert(u[a] == e[a]);
                        }
                    }
                    assert forall|a: int, b: int| 0 <= a < b < u.len() implies key_lt(
                        #[trigger] u[a].0,
                        #[trigger] u[b].0,
                    ) by {
                        assert(key_lt(e[a].0, e[b].0));
                    }
                }
                self.entries = entries;
                proof {
                    assert(self@ =~= e.update(i as int, (k@, v)));
                }
                return;
            }
            if c == 1 {
                proof {
                    lemma_insert_split(e, k@, v, i as int);
                    let tail = e.subrange(i as int, n as int);
                    assert(tail[0] == e[i as int]);
                    assert(tail.len() > 0);
                    lemma_key_order(k@, e[i as int].0, k@);
                    assert(sorted_insert(tail, k@, v) == seq![(k@, v)] + tail);
                    assert(e.subrange(0, i as int) + (seq![(k@, v)] + tail)
                        =~= e.insert(i as int, (k@, v)));
                    assert(sorted_insert(e, k@, v) == e.insert(i as int, (k@, v)));
                }
                let key = k.clone();
                let mut entries: Vec<(Address, T)> = Vec::new();
                std::mem::swap(&mut entries, &mut self.entries);
                entries.insert(i, (key, v));
                let ghost ins = e.insert(i as int, (k@, v));
                assert(entries@.map_values(|e: (Address, T)| (e.0@, e.1)) =~= ins);
                proof {
                    assert forall|a: int| 0 <= a < ins.len() implies valid_address(#[trigger] ins[a].0) by {
                        if a < i {
                            assert(ins[a] == e[a]);
                        } else if a > i {
                            assert(ins[a] == e[a - 1]);
                        }
                    }
                    assert forall|a: int, b: int| 0 <= a < b < ins.len() implies key_lt(
                        #[trigger] ins[a].0,
                        #[trigger] ins[b].0,
                    ) by {
                        if b == i {
                        } else if a == i {
                            lemma_key_order(k@, e[i as int].0, e[b - 1].0);
                        } else if a < i && b > i {
                            lemma_key_order(e[a].0, k@, e[b - 1].0);
                        }
                    }
                }
                self.entries = entries;
                assert(self@ =~= e.insert(i as int, (k@, v)));
                return;
            }
            i = i + 1;
        }
        proof {
            lemma_insert_split(e, k@, v, n as int);
            assert(e.subrange(0, n as int) + seq![(k@, v)] =~= e.push((k@, v)));
        }
        let key = k.clone();
        let mut entries: Vec<(Address, T)> = Vec::new();
        std::mem::swap(&mut entries, &mut self.entries);
        entries.push((key, v));
        assert(entries@.map_values(|e: (Address, T)| (e.0@, e.1)) =~= e.push((k@, v)));
        proof {
            let p = e.push((k@, v));
            assert forall|a: int| 0 <= a < p.len() implies valid_address(#[trigger] p[a].0) by {
                if a < n {
                    assert(p[a] == e[a]);
                }
            }
            assert forall|a: int, b: int| 0 <= a < b < p.len() implies key_lt(
                #[trigger] p[a].0,
                #[trigger] p[b].0,
            ) by {
                if b < n {
                    assert(key_lt(e[a].0, e[b].0));
                }
            }
        }
        self.entries = entries;
        assert(self@ =~= e.push((k@, v)));
    }
}

/// The views of a list of entries.
pub open spec fn entry_views<T>(s: Seq<(Address, T)>) -> Seq<(Seq<char>, T)> {
    s.map_values(|e: (Address, T)| (e.0@, e.1))
}

proof fn lemma_entry_views_push<T>(s: Seq<(Address, T)>, x: (Address, T))
    ensures
        entry_views(s.push(x)) == entry_views(s).push((x.0@, x.1)),
{
    assert(entry_views(s.push(x)) =~= entry_views(s).push((x.0@, x.1)));
}

impl<T: Copy> Clone for AddressMap<T> {
    fn clone(&self) -> (r: AddressMap<T>)
        ensures
            r@ == self@,
    {
        proof {
            use_type_invariant(self);
        }
        let mut entries: Vec<(Address, T)> = Vec::new();
        let mut i: usize = 0;
        while i < self.entries.len()
            invariant
                i <= self.entries@.len(),
                entry_views(entries@) == self@.subrange(0, i as int),
                self@ == entry_views(self.entries@),
            decreases self.entries@.len() - i,
        {
            let key = self.entries[i].0.clone();
            let ghost before = entries@;
            entries.push((key, self.entries[i].1));
            proof {
                lemma_entry_views_push(before, (key, self.entries@[i as int].1));
                assert(self@[i as int] == (self.entries@[i as int].0@, self.entries@[i as int].1));
                assert(self@.subrange(0, i + 1) =~= self@.subrange(0, i as int).push(self@[i as int]));
            }
            i = i + 1;
        }
        assert(self@.subrange(0, self@.len() as int) =~= self@);
        let r = AddressMap { entries };
        assert(r@ == entry_views(entries@));
        r
    }
}

} // verus!
