use vstd::prelude::*;

use crate::object::{Object, Value};

verus! {

/// The value bound to `key` by the first binding at or after `i`.
pub open spec fn binding_from(store: Seq<(String, Object)>, key: Seq<char>, i: int) -> Option<Value>
    decreases store.len() - i,
{
    if i < 0 || i >= store.len() {
        None
    } else if store[i].0@ == key {
        Some(store[i].1@)
    } else {
        binding_from(store, key, i + 1)
    }
}

/// The value bound to `key` in a list of bindings: its first binding.
pub open spec fn binding(store: Seq<(String, Object)>, key: Seq<char>) -> Option<Value> {
    binding_from(store, key, 0)
}

/// Bindings that agree on `key` from `i` on give it the same value.
proof fn lemma_binding_frame(a: Seq<(String, Object)>, b: Seq<(String, Object)>, key: Seq<char>, i: int)
    requires
        0 <= i,
        a.len() <= b.len(),
        forall|m: int| i <= m < a.len() ==> (#[trigger] a[m]).0@ == b[m].0@,
        forall|m: int| i <= m < a.len() && (#[trigger] a[m]).0@ == key ==> a[m].1@ == b[m].1@,
        forall|m: int| a.len() <= m < b.len() ==> (#[trigger] b[m]).0@ != key,
    ensures
        binding_from(a, key, i) == binding_from(b, key, i),
    decreases b.len() - i,
{
    if i < b.len() {
        lemma_binding_frame(a, b, key, i + 1);
    }
}

/// The first binding of `key` at or after `i` is the one at `j`.
proof fn lemma_binding_first(b: Seq<(String, Object)>, key: Seq<char>, i: int, j: int)
    requires
        0 <= i <= j < b.len(),
        forall|m: int| i <= m < j ==> (#[trigger] b[m]).0@ != key,
        b[j].0@ == key,
    ensures
        binding_from(b, key, i) == Some(b[j].1@),
    decreases j - i,
{
    if i < j {
        lemma_binding_first(b, key, i + 1, j);
    }
}

/// The value bound to `key` by the first binding at or after `i`.
pub open spec fn entries_find(st: Seq<(Seq<char>, Value)>, key: Seq<char>, i: int) -> Option<Value>
    decreases st.len() - i,
{
    if i < 0 || i >= st.len() {
        None
    } else if st[i].0 == key {
        Some(st[i].1)
    } else {
        entries_find(st, key, i + 1)
    }
}

/// The index of the first binding of `key` at or after `i`.
pub open spec fn entries_index(st: Seq<(Seq<char>, Value)>, key: Seq<char>, i: int) -> Option<int>
    decreases st.len() - i,
{
    if i < 0 || i >= st.len() {
        None
    } else if st[i].0 == key {
        Some(i)
    } else {
        entries_index(st, key, i + 1)
    }
}

/// The bindings after binding `key` to `v`: its first binding gets `v`, or
/// the binding is added at the end.
pub open spec fn entries_set(st: Seq<(Seq<char>, Value)>, key: Seq<char>, v: Value) -> Seq<(Seq<char>, Value)> {
    match entries_index(st, key, 0) {
        Some(i) => st.update(i, (key, v)),
        None => st.push((key, v)),
    }
}

/// The bindings of a list of pairs, as values.
pub open spec fn entries_of(store: Seq<(String, Object)>) -> Seq<(Seq<char>, Value)> {
    store.map_values(|e: (String, Object)| (e.0@, e.1@))
}

proof fn lemma_binding_is_entries(store: Seq<(String, Object)>, key: Seq<char>, i: int)
    requires
        0 <= i,
    ensures
        binding_from(store, key, i) == entries_find(entries_of(store), key, i),
    decreases store.len() - i,
{
    if i < store.len() {
        lemma_binding_is_entries(store, key, i + 1);
    }
}

/// One scope: bindings from names to values, and the index of the
/// enclosing scope, if any. The bindings are a vector of pairs, each name at
/// most once by first match: every operation on it is proved here, where a
/// hash map keyed by strings would leave lookups unspecified.
#[derive(Debug, PartialEq)]
pub struct Env {
    store: Vec<(String, Object)>,
    outer: Option<usize>,
}

impl Env {
    /// The value bound to `key` in this scope alone.
    pub closed spec fn find(&self, key: Seq<char>) -> Option<Value> {
        binding(self.store@, key)
    }

    /// The bindings of this scope, as values, in order.
    pub closed spec fn entries(&self) -> Seq<(Seq<char>, Value)> {
        entries_of(self.store@)
    }

    /// The value bound to `key` in this scope is its first binding.
    pub proof fn lemma_find_entries(&self, key: Seq<char>)
        ensures
            self.find(key) == entries_find(self.entries(), key, 0),
    {
        lemma_binding_is_entries(self.store@, key, 0);
    }

    /// The index of the enclosing scope.
    pub closed spec fn parent(&self) -> Option<usize> {
        self.outer
    }

    /// An empty scope with no enclosing scope.
    pub fn new() -> (r: Env)
        ensures
            r.entries() == Seq::<(Seq<char>, Value)>::empty(),
            forall|k: Seq<char>| r.find(k) is None,
            r.parent() is None,
    {
        let r = Env { store: Vec::new(), outer: None };
        proof {
            assert(r.entries() =~= Seq::<(Seq<char>, Value)>::empty());
        }
        r
    }

    /// The value bound to `key` in this scope alone.
    pub fn get(&self, key: String) -> (r: Option<Object>)
        ensures
            match self.find(key@) {
                Some(v) => r is Some && r->0@ == v,
                None => r is None,
            },
    {
        let mut i: usize = 0;
        while i < self.store.len()
            invariant
                i <= self.store@.len(),
                self.find(key@) == binding_from(self.store@, key@, i as int),
            decreases self.store@.len() - i,
        {
            if self.store[i].0.eq(&key) {
                return Some(self.store[i].1.copy());
            }
            i += 1;
        }
        None
    }

    /// Binds `key` to `value` in this scope, replacing an earlier binding.
    pub fn set(&mut self, key: String, value: Object)
        ensures
            final(self).find(key@) == Some(value@),
            forall|k: Seq<char>| k != key@ ==> final(self).find(k) == old(self).find(k),
            final(self).parent() == old(self).parent(),
            final(self).entries() == entries_set(old(self).entries(), key@, value@),
    {
        let ghost before = self.store@;
        let mut i: usize = 0;
        while i < self.store.len()
            invariant
                self.store@ == before,
                self.outer == old(self).outer,
                before == old(self).store@,
                i <= before.len(),
                forall|m: int| 0 <= m < i ==> (#[trigger] before[m]).0@ != key@,
                entries_index(entries_of(before), key@, 0) == entries_index(entries_of(before), key@, i as int),
            decreases before.len() - i,
        {
            if self.store[i].0.eq(&key) {
                let ghost kv = key@;
                let ghost vv = value@;
                self.store.set(i, (key, value));
                proof {
                    lemma_binding_first(self.store@, kv, 0, i as int);
                    assert(entries_of(self.store@) =~= entries_of(before).update(i as int, (kv, vv)));
                    assert forall|k: Seq<char>| k != kv implies self.find(k) == old(self).find(k) by {
                        lemma_binding_frame(before, self.store@, k, 0);
                    }
                }
                return;
            }
            i += 1;
        }
        let ghost kv = key@;
        let ghost vv = value@;
        self.store.push((key, value));
        proof {
            lemma_binding_first(self.store@, kv, 0, before.len() as int);
            assert(entries_of(self.store@) =~= entries_of(before).push((kv, vv)));
            assert forall|k: Seq<char>| k != kv implies self.find(k) == old(self).find(k) by {
                lemma_binding_frame(before, self.store@, k, 0);
            }
        }
    }

    /// An empty scope inside the scope at index `outer`.
    pub fn enclosed_outer_env(outer: usize) -> (r: Env)
        ensures
            r.entries() == Seq::<(Seq<char>, Value)>::empty(),
            forall|k: Seq<char>| r.find(k) is None,
            r.parent() == Some(outer),
    {
        let r = Env { store: Vec::new(), outer: Some(outer) };
        proof {
            assert(r.entries() =~= Seq::<(Seq<char>, Value)>::empty());
        }
        r
    }

    /// A scope with no enclosing scope that holds the given bindings.
    pub fn from(builtin: Vec<(String, Object)>) -> (r: Env)
        ensures
            r.entries() == entries_of(builtin@),
            forall|k: Seq<char>| r.find(k) == binding(builtin@, k),
            r.parent() is None,
    {
        Env { store: builtin, outer: None }
    }

    /// The index of the enclosing scope.
    pub fn outer(&self) -> (r: Option<usize>)
        ensures
            r == self.parent(),
    {
        self.outer
    }

    /// This scope with no enclosing scope.
    pub fn detached(self) -> (r: Env)
        ensures
            r.entries() == self.entries(),
            forall|k: Seq<char>| r.find(k) == self.find(k),
            r.parent() is None,
    {
        Env { store: self.store, outer: None }
    }
}

} // verus!
