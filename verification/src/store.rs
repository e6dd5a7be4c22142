//! The endpoint store: a capacity-bounded associative cache from endpoint
//! key to classification result, with first-write-wins semantics and
//! oldest-first eviction. The capacity check happens before an insert, so
//! the store may hold `cap + 1` entries right after a non-evicting insert.

use vstd::prelude::*;

verus! {

#[derive(Debug, Clone, Copy, PartialEq, Eq, Structural)]
pub enum OS {
    Windows,
    MacOS,
    Linux,
    Unknown,
}

/// One classification result: the OS guess and the canonical signature.
pub struct ClientData {
    pub os: OS,
    pub signature: String,
}

/// Mathematical model of a classification result.
#[verifier::ext_equal]
pub struct ClientModel {
    pub os: OS,
    pub signature: Seq<char>,
}

impl View for ClientData {
    type V = ClientModel;

    open spec fn view(&self) -> ClientModel {
        ClientModel { os: self.os, signature: self.signature@ }
    }
}

/// Mathematical model of one stored entry.
#[verifier::ext_equal]
pub struct EntryModel {
    pub key: Seq<char>,
    pub value: ClientModel,
}

/// Whether some entry of `m` has key `k`.
pub open spec fn store_contains(m: Seq<EntryModel>, k: Seq<char>) -> bool {
    exists|i: int| 0 <= i < m.len() && m[i].key == k
}

/// The index of the entry with key `k` (meaningful only when present).
pub open spec fn store_index_of(m: Seq<EntryModel>, k: Seq<char>) -> int {
    choose|i: int| 0 <= i < m.len() && m[i].key == k
}

/// The value stored under key `k` (meaningful only when present).
pub open spec fn store_lookup(m: Seq<EntryModel>, k: Seq<char>) -> ClientModel {
    m[store_index_of(m, k)].value
}

/// No two entries share a key.
pub open spec fn store_keys_unique(m: Seq<EntryModel>) -> bool {
    forall|i: int, j: int| 0 <= i < j < m.len() ==> m[i].key != m[j].key
}

/// The insert discipline: a present key is left untouched; otherwise, when
/// the store holds strictly more than `cap` entries, the oldest entry is
/// evicted before the new one is appended.
pub open spec fn store_insert(m: Seq<EntryModel>, e: EntryModel, cap: nat) -> Seq<EntryModel> {
    if store_contains(m, e.key) {
        m
    } else if m.len() > cap {
        m.drop_first().push(e)
    } else {
        m.push(e)
    }
}

struct Entry {
    address: String,
    data: ClientData,
}

impl View for Entry {
    type V = EntryModel;

    closed spec fn view(&self) -> EntryModel {
        EntryModel { key: self.address@, value: self.data@ }
    }
}

/// The bounded, insertion-ordered endpoint cache.
pub struct Store {
    entries: Vec<Entry>,
    cap: usize,
}

impl View for Store {
    type V = Seq<EntryModel>;

    closed spec fn view(&self) -> Seq<EntryModel> {
        self.entries@.map(|i: int, e: Entry| e@)
    }
}

impl Store {
    /// The fixed capacity the store was created with.
    pub closed spec fn capacity(&self) -> nat {
        self.cap as nat
    }

    /// Keys are unique and the entry count never exceeds capacity plus one.
    pub open spec fn inv(&self) -> bool {
        store_keys_unique(self@) && self@.len() <= self.capacity() + 1
    }

    /// Creates an empty store with the given capacity bound.
    pub fn new(cap: usize) -> (r: Store)
        ensures
            r@ == Seq::<EntryModel>::empty(),
            r.capacity() == cap,
            r.inv(),
    {
        let r = Store { entries: Vec::new(), cap };
        proof {
            assert(r@ =~= Seq::<EntryModel>::empty());
        }
        r
    }

    fn contains_key_exec(&self, address: &String) -> (r: bool)
        ensures
            r == store_contains(self@, address@),
    {
        let n = self.entries.len();
        let mut i: usize = 0;
        while i < n
            invariant
                i <= n == self.entries@.len(),
                self@.len() == self.entries@.len(),
                forall|k: int| 0 <= k < i ==> self@[k].key != address@,
            decreases n - i,
        {
            if self.entries[i].address == *address {
                proof {
                    assert(self@[i as int].key == address@);
                }
                return true;
            }
            i = i + 1;
        }
        false
    }

    /// Inserts a classification for an endpoint. A key already present is
    /// left as it was (first write wins); otherwise, when the store holds
    /// strictly more than `cap` entries, the oldest entry is evicted first.
    pub fn add_new_client(&mut self, address: String, client_data: ClientData)
        requires
            old(self).inv(),
        ensures
            final(self).inv(),
            final(self).capacity() == old(self).capacity(),
            final(self)@ == store_insert(
                old(self)@,
                EntryModel { key: address@, value: client_data@ },
                old(self).capacity(),
            ),
    {
        let ghost e = EntryModel { key: address@, value: client_data@ };
        if self.contains_key_exec(&address) {
            return;
        }
        if self.entries.len() > self.cap {
            self.entries.remove(0);
            proof {
                assert(self@ =~= old(self)@.drop_first());
            }
            self.entries.push(Entry { address, data: client_data });
            proof {
                assert(self@ =~= old(self)@.drop_first().push(e));
                assert forall|i: int, j: int| 0 <= i < j < self@.len() implies self@[i].key
                    != self@[j].key by {
                    if j < self@.len() - 1 {
                        assert(self@[i] == old(self)@[i + 1]);
                        assert(self@[j] == old(self)@[j + 1]);
                    } else {
                        assert(self@[i] == old(self)@[i + 1]);
                        assert(!store_contains(old(self)@, e.key));
                    }
                }
            }
        } else {
            self.entries.push(Entry { address, data: client_data });
            proof {
                assert(self@ =~= old(self)@.push(e));
                assert forall|i: int, j: int| 0 <= i < j < self@.len() implies self@[i].key
                    != self@[j].key by {
                    if j < self@.len() - 1 {
                        assert(self@[i] == old(self)@[i]);
                        assert(self@[j] == old(self)@[j]);
                    } else {
                        assert(self@[i] == old(self)@[i]);
                        assert(!store_contains(old(self)@, e.key));
                    }
                }
            }
        }
    }

    /// Looks up the classification stored for an exact key; yields nothing
    /// when the key is absent. Never mutates the store.
    pub fn get_client(&self, ip: &str) -> (r: Option<&ClientData>)
        requires
            self.inv(),
        ensures
            r is Some <==> store_contains(self@, ip@),
            r matches Some(d) ==> d@ == store_lookup(self@, ip@),
    {
        let key: String = ip.to_owned();
        let n = self.entries.len();
        let mut i: usize = 0;
        while i < n
            invariant
                i <= n == self.entries@.len(),
                self@.len() == self.entries@.len(),
                key@ == ip@,
                self.inv(),
                forall|k: int| 0 <= k < i ==> self@[k].key != ip@,
            decreases n - i,
        {
            if self.entries[i].address == key {
                proof {
                    assert(self@[i as int].key == ip@);
                    let i0 = store_index_of(self@, ip@);
                    assert(0 <= i0 < self@.len() && self@[i0].key == ip@);
                    assert(i0 == i as int);
                }
                return Some(&self.entries[i].data);
            }
            i = i + 1;
        }
        None
    }
}

/// First write wins: once a key is stored, inserting the same key again,
/// with any value, leaves the store — and so the stored value — unchanged.
pub proof fn lemma_store_first_write_wins(
    m: Seq<EntryModel>,
    e1: EntryModel,
    e2: EntryModel,
    cap: nat,
)
    requires
        store_keys_unique(m),
        !store_contains(m, e1.key),
        e2.key == e1.key,
    ensures
        ({
            let m1 = store_insert(m, e1, cap);
            &&& store_contains(m1, e1.key)
            &&& store_lookup(m1, e1.key) == e1.value
            &&& store_insert(m1, e2, cap) == m1
        }),
{
    let m1 = store_insert(m, e1, cap);
    assert(m1[m1.len() - 1] == e1);
    assert(store_contains(m1, e1.key));
    let i0 = store_index_of(m1, e1.key);
    assert(0 <= i0 < m1.len() && m1[i0].key == e1.key);
    if i0 < m1.len() - 1 {
        if m.len() > cap {
            assert(m1[i0] == m[i0 + 1]);
        } else {
            assert(m1[i0] == m[i0]);
        }
        assert(store_contains(m, e1.key));
    }
    assert(m1[i0] == e1);
}

/// Inserting a sequence of entries in order, oldest first.
pub open spec fn store_insert_all(m: Seq<EntryModel>, es: Seq<EntryModel>, cap: nat) -> Seq<
    EntryModel,
>
    decreases es.len(),
{
    if es.len() == 0 {
        m
    } else {
        store_insert_all(store_insert(m, es[0], cap), es.drop_first(), cap)
    }
}

/// No two of the entries to insert share a key.
pub open spec fn entry_keys_distinct(es: Seq<EntryModel>) -> bool {
    forall|i: int, j: int| 0 <= i < j < es.len() ==> es[i].key != es[j].key
}

proof fn lemma_insert_all_snoc(m: Seq<EntryModel>, es: Seq<EntryModel>, e: EntryModel, cap: nat)
    ensures
        store_insert_all(m, es.push(e), cap) == store_insert(store_insert_all(m, es, cap), e, cap),
    decreases es.len(),
{
    if es.len() == 0 {
        assert(es.push(e)[0] == e);
        assert(es.push(e).drop_first() =~= Seq::<EntryModel>::empty());
        assert(store_insert_all(m, es.push(e), cap) == store_insert_all(
            store_insert(m, e, cap),
            Seq::<EntryModel>::empty(),
            cap,
        ));
        assert(store_insert_all(store_insert(m, e, cap), Seq::<EntryModel>::empty(), cap)
            == store_insert(m, e, cap));
        assert(store_insert_all(m, es, cap) == m);
    } else {
        assert(es.push(e)[0] == es[0]);
        assert(es.push(e).drop_first() =~= es.drop_first().push(e));
        assert(store_insert_all(m, es.push(e), cap) == store_insert_all(
            store_insert(m, es[0], cap),
            es.drop_first().push(e),
            cap,
        ));
        lemma_insert_all_snoc(store_insert(m, es[0], cap), es.drop_first(), e, cap);
        assert(store_insert_all(m, es, cap) == store_insert_all(
            store_insert(m, es[0], cap),
            es.drop_first(),
            cap,
        ));
    }
}

proof fn lemma_store_fill(m: Seq<EntryModel>, es: Seq<EntryModel>, cap: nat)
    requires
        store_keys_unique(m),
        entry_keys_distinct(es),
        forall|i: int| 0 <= i < es.len() ==> !store_contains(m, #[trigger] es[i].key),
        m.len() + es.len() <= cap + 1,
    ensures
        store_insert_all(m, es, cap) == m + es,
    decreases es.len(),
{
    if es.len() == 0 {
        assert(m + es =~= m);
    } else {
        let e = es[0];
        assert(!store_contains(m, e.key));
        let m1 = m.push(e);
        assert(store_insert(m, e, cap) == m1);
        assert(store_keys_unique(m1)) by {
            assert forall|i: int, j: int| 0 <= i < j < m1.len() implies m1[i].key != m1[j].key by {
                if j < m1.len() - 1 {
                    assert(m1[i] == m[i] && m1[j] == m[j]);
                } else {
                    assert(m1[i] == m[i]);
                }
            }
        }
        assert(forall|i: int| 0 <= i < es.drop_first().len() ==> !store_contains(
            m1,
            #[trigger] es.drop_first()[i].key,
        )) by {
            assert forall|i: int| 0 <= i < es.drop_first().len() implies !store_contains(
                m1,
                #[trigger] es.drop_first()[i].key,
            ) by {
                let k = es.drop_first()[i].key;
                assert(es.drop_first()[i] == es[i + 1]);
                assert(k != e.key);
                if store_contains(m1, k) {
                    let w = store_index_of(m1, k);
                    assert(0 <= w < m1.len() && m1[w].key == k);
                    assert(w < m1.len() - 1);
                    assert(m1[w] == m[w]);
                    assert(store_contains(m, k));
                }
            }
        }
        lemma_store_fill(m1, es.drop_first(), cap);
        assert(m1 + es.drop_first() =~= m + es);
    }
}

/// Capacity bound with oldest-first eviction: filling an empty store with
/// `cap + 2` entries under distinct keys retains exactly the most recent
/// `cap + 1` of them, in insertion order; the oldest key is gone.
pub proof fn lemma_store_bound(es: Seq<EntryModel>, cap: nat)
    requires
        entry_keys_distinct(es),
        es.len() == cap + 2,
    ensures
        ({
            let m = store_insert_all(Seq::<EntryModel>::empty(), es, cap);
            &&& m == es.drop_first()
            &&& !store_contains(m, es[0].key)
            &&& forall|i: int| 1 <= i < es.len() ==> store_contains(m, #[trigger] es[i].key)
        }),
{
    let empty = Seq::<EntryModel>::empty();
    let head = es.take(es.len() - 1);
    let last = es[es.len() - 1];
    assert(es =~= head.push(last));
    lemma_insert_all_snoc(empty, head, last, cap);
    assert(store_keys_unique(empty));
    lemma_store_fill(empty, head, cap);
    assert(empty + head =~= head);
    let filled = store_insert_all(empty, head, cap);
    assert(filled == head);
    assert(!store_contains(head, last.key)) by {
        if store_contains(head, last.key) {
            let w = store_index_of(head, last.key);
            assert(0 <= w < head.len() && head[w].key == last.key);
            assert(head[w] == es[w]);
        }
    }
    assert(head.len() == cap + 1 > cap);
    let m = store_insert_all(empty, es, cap);
    assert(m == head.drop_first().push(last));
    assert(m =~= es.drop_first());
    assert(!store_contains(m, es[0].key)) by {
        if store_contains(m, es[0].key) {
            let w = store_index_of(m, es[0].key);
            assert(0 <= w < m.len() && m[w].key == es[0].key);
            assert(m[w] == es[w + 1]);
        }
    }
    assert(forall|i: int| 1 <= i < es.len() ==> store_contains(m, #[trigger] es[i].key)) by {
        assert forall|i: int| 1 <= i < es.len() implies store_contains(m, #[trigger] es[i].key) by {
            assert(m[i - 1] == es[i]);
        }
    }
}

} // verus!
