//! The heap: the name→value store a stack of runners shares, where `>name`
//! saves a result and `req name` reads it back.

use vstd::prelude::*;

use crate::request_body::{kv_map, uniq_keys, upsert};

verus! {

/// A name→value store. Its view is the mathematical map it holds.
#[derive(Debug)]
pub struct Heap {
    entries: Vec<(String, String)>,
}

impl View for Heap {
    type V = Map<Seq<char>, Seq<char>>;

    closed spec fn view(&self) -> Map<Seq<char>, Seq<char>> {
        kv_map(self.entries.deep_view())
    }
}

impl Heap {
    /// The store keeps one entry per name.
    pub closed spec fn inv(&self) -> bool {
        uniq_keys(self.entries.deep_view())
    }

    /// An empty heap.
    pub fn new() -> (r: Heap)
        ensures
            r.inv(),
            r@ == Map::<Seq<char>, Seq<char>>::empty(),
    {
        let entries: Vec<(String, String)> = Vec::new();
        assert(entries.deep_view() =~= Seq::<(Seq<char>, Seq<char>)>::empty());
        Heap { entries }
    }

    /// Writes `value` under `name`, overwriting any earlier value.
    pub fn insert(self: &mut Self, name: String, value: String)
        requires
            old(self).inv(),
        ensures
            final(self).inv(),
            final(self)@ == old(self)@.insert(name@, value@),
    {
        upsert(&mut self.entries, name, value);
    }

    /// Reads the value saved under `name`, if any.
    pub fn get(self: &Self, name: &String) -> (r: Option<String>)
        requires
            self.inv(),
        ensures
            match r {
                Some(v) => self@.contains_key(name@) && v@ == self@[name@],
                None => !self@.contains_key(name@),
            },
    {
        let ghost dv = self.entries.deep_view();
        let n = self.entries.len();
        let mut i: usize = 0;
        while i < n
            invariant
                i <= n,
                n == self.entries@.len(),
                dv == self.entries.deep_view(),
                uniq_keys(dv),
                forall|j: int| 0 <= j < i ==> (#[trigger] dv[j]).0 != name@,
            decreases n - i,
        {
            proof {
                assert(dv[i as int] == (self.entries@[i as int].0@, self.entries@[i as int].1@));
            }
            if self.entries[i].0 == *name {
                proof {
                    assert forall|j: int| (i as int) < j < dv.len() implies (#[trigger] dv[j]).0
                        != dv[i as int].0 by {
                        assert(dv[i as int].0 != dv[j].0);
                    }
                    lemma_kv_lookup(dv, i as int);
                    assert(dv[i as int].0 == name@);
                }
                return Some(self.entries[i].1.clone());
            }
            i = i + 1;
        }
        proof {
            lemma_kv_absent(dv, name@);
        }
        None
    }
}

/// The map of an entry list holds each entry whose key no later entry
/// repeats.
proof fn lemma_kv_lookup(entries: Seq<(Seq<char>, Seq<char>)>, i: int)
    requires
        0 <= i < entries.len(),
        forall|j: int| i < j < entries.len() ==> (#[trigger] entries[j]).0 != entries[i].0,
    ensures
        kv_map(entries).contains_key(entries[i].0),
        kv_map(entries)[entries[i].0] == entries[i].1,
    decreases entries.len(),
{
    if i == entries.len() - 1 {
    } else {
        assert(entries.drop_last()[i] == entries[i]);
        lemma_kv_lookup(entries.drop_last(), i);
        assert(entries[entries.len() - 1].0 != entries[i].0);
    }
}

/// A key no entry holds is not in the map.
proof fn lemma_kv_absent(entries: Seq<(Seq<char>, Seq<char>)>, k: Seq<char>)
    requires
        forall|j: int| 0 <= j < entries.len() ==> (#[trigger] entries[j]).0 != k,
    ensures
        !kv_map(entries).contains_key(k),
    decreases entries.len(),
{
    if entries.len() > 0 {
        assert forall|j: int| 0 <= j < entries.drop_last().len() implies (#[trigger] entries.drop_last()[j]).0
            != k by {
            assert(entries.drop_last()[j] == entries[j]);
        }
        lemma_kv_absent(entries.drop_last(), k);
    }
}

/// A sequence of writes applied to a heap map, in order.
pub open spec fn apply_writes(
    h: Map<Seq<char>, Seq<char>>,
    writes: Seq<(Seq<char>, Seq<char>)>,
) -> Map<Seq<char>, Seq<char>>
    decreases writes.len(),
{
    if writes.len() == 0 {
        h
    } else {
        apply_writes(h.insert(writes[0].0, writes[0].1), writes.skip(1))
    }
}

/// Heap visibility: a value saved under a name is exactly what any later
/// read of that name sees, however many other writes happen in between, as
/// long as none of them reuses the name.
pub proof fn lemma_heap_visibility(
    h: Map<Seq<char>, Seq<char>>,
    k: Seq<char>,
    v: Seq<char>,
    writes: Seq<(Seq<char>, Seq<char>)>,
)
    requires
        forall|j: int| 0 <= j < writes.len() ==> (#[trigger] writes[j]).0 != k,
    ensures
        apply_writes(h.insert(k, v), writes).contains_key(k),
        apply_writes(h.insert(k, v), writes)[k] == v,
    decreases writes.len(),
{
    if writes.len() > 0 {
        let h1 = h.insert(k, v);
        let w = writes[0];
        assert(h1.insert(w.0, w.1) =~= h.insert(w.0, w.1).insert(k, v));
        assert forall|j: int| 0 <= j < writes.skip(1).len() implies (#[trigger] writes.skip(1)[j]).0
            != k by {
            assert(writes.skip(1)[j] == writes[j + 1]);
        }
        lemma_heap_visibility(h.insert(w.0, w.1), k, v, writes.skip(1));
    }
}

/// A fresh, empty heap.
pub fn heap() -> (r: Heap)
    ensures
        r.inv(),
        r@ == Map::<Seq<char>, Seq<char>>::empty(),
{
    Heap::new()
}

} // verus!
