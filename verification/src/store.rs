//! The durable key-value collaborator the chain writes into, as a minimal
//! contract: get, put, and a durability flush. Any engine meeting the
//! contract is substitutable; this module also provides a verified in-memory
//! store, useful on its own and for exercising the chain.

use vstd::prelude::*;

verus! {

use vstd::std_specs::cmp::PartialEqSpec;

/// An underlying storage operation failed. The chain does not retry
/// internally; the failure is surfaced to the caller.
#[derive(Debug)]
pub struct StoreError;

/// The store contract: a durable mapping from byte keys to byte values.
///
/// `contents` is the store's model. A `get` that succeeds reports exactly the
/// model; a `put` that succeeds updates it; a `put` that fails either took
/// effect or left the contents as they were, and never disturbs other
/// entries; `flush` is a durability barrier and changes nothing. `count`
/// reports how many keys the store holds, which bounds how long any chain
/// threaded through it can be.
pub trait KvStore: Sized {
    /// The mapping the store currently holds. An engine that does not say
    /// what it holds is left with an arbitrary, unspecified model.
    open spec fn contents(&self) -> Map<Seq<u8>, Seq<u8>> {
        vstd::pervasive::arbitrary()
    }

    /// Look a key up.
    fn get(&self, key: &Vec<u8>) -> (r: Result<Option<Vec<u8>>, StoreError>)
        ensures
            match r {
                Ok(Some(v)) => self.contents().contains_key(key@) && v@ == self.contents()[key@],
                Ok(None) => !self.contents().contains_key(key@),
                Err(_) => true,
            },
    ;

    /// Write a value under a key, replacing any prior value.
    fn put(&mut self, key: &Vec<u8>, value: &Vec<u8>) -> (r: Result<(), StoreError>)
        ensures
            r is Ok ==> final(self).contents() == old(self).contents().insert(key@, value@),
            r is Err ==> final(self).contents() == old(self).contents() || final(self).contents()
                == old(self).contents().insert(key@, value@),
    ;

    /// Durability barrier: after it returns successfully, prior puts survive
    /// a crash. The contents are unchanged either way.
    fn flush(&mut self) -> (r: Result<(), StoreError>)
        ensures
            final(self).contents() == old(self).contents(),
    ;

    /// The number of keys the store holds.
    fn count(&self) -> (r: usize)
        ensures
            r == self.contents().dom().len(),
    ;
}

/// Copy a byte vector.
pub fn clone_bytes(v: &Vec<u8>) -> (r: Vec<u8>)
    ensures
        r@ == v@,
{
    let r = v.clone();
    proof {
        assert(forall|i: int| 0 <= i < v@.len() ==> r@[i] == v@[i]);
        assert(r@ =~= v@);
    }
    r
}

/// Compare two byte vectors by contents.
pub fn bytes_eq(a: &Vec<u8>, b: &Vec<u8>) -> (r: bool)
    ensures
        r == (a@ == b@),
{
    let r = a == b;
    proof {
        if r {
            assert(a@ =~= b@);
        } else {
            if a@ == b@ {
                assert(a.eq_spec(b));
            }
        }
    }
    r
}

/// The mapping described by a sequence of key-value pairs, later pairs
/// winning.
pub open spec fn map_of(s: Seq<(Vec<u8>, Vec<u8>)>) -> Map<Seq<u8>, Seq<u8>>
    decreases s.len(),
{
    if s.len() == 0 {
        Map::empty()
    } else {
        map_of(s.drop_last()).insert(s.last().0@, s.last().1@)
    }
}

/// No two pairs share a key.
pub open spec fn unique_keys(s: Seq<(Vec<u8>, Vec<u8>)>) -> bool {
    forall|i: int, j: int| 0 <= i < j < s.len() ==> s[i].0@ != s[j].0@
}

proof fn lemma_map_of_absent(s: Seq<(Vec<u8>, Vec<u8>)>, k: Seq<u8>)
    requires
        forall|i: int| 0 <= i < s.len() ==> s[i].0@ != k,
    ensures
        !map_of(s).contains_key(k),
    decreases s.len(),
{
    if s.len() > 0 {
        lemma_map_of_absent(s.drop_last(), k);
    }
}

proof fn lemma_map_of_found(s: Seq<(Vec<u8>, Vec<u8>)>, i: int)
    requires
        unique_keys(s),
        0 <= i < s.len(),
    ensures
        map_of(s).contains_key(s[i].0@),
        map_of(s)[s[i].0@] == s[i].1@,
    decreases s.len(),
{
    if i < s.len() - 1 {
        lemma_map_of_found(s.drop_last(), i);
    }
}

proof fn lemma_map_of_len(s: Seq<(Vec<u8>, Vec<u8>)>)
    requires
        unique_keys(s),
    ensures
        map_of(s).dom().finite(),
        map_of(s).dom().len() == s.len(),
    decreases s.len(),
{
    if s.len() > 0 {
        lemma_map_of_len(s.drop_last());
        lemma_map_of_absent(s.drop_last(), s.last().0@);
    }
}

proof fn lemma_map_of_update(s: Seq<(Vec<u8>, Vec<u8>)>, i: int, p: (Vec<u8>, Vec<u8>))
    requires
        unique_keys(s),
        0 <= i < s.len(),
        p.0@ == s[i].0@,
    ensures
        map_of(s.update(i, p)) =~= map_of(s).insert(p.0@, p.1@),
        unique_keys(s.update(i, p)),
    decreases s.len(),
{
    let t = s.update(i, p);
    if i == s.len() - 1 {
        assert(t.drop_last() =~= s.drop_last());
    } else {
        assert(t.drop_last() =~= s.drop_last().update(i, p));
        lemma_map_of_update(s.drop_last(), i, p);
        assert(map_of(t) =~= map_of(s).insert(p.0@, p.1@));
    }
}

proof fn lemma_map_of_remove(s: Seq<(Vec<u8>, Vec<u8>)>, i: int)
    requires
        unique_keys(s),
        0 <= i < s.len(),
    ensures
        map_of(s.remove(i)) =~= map_of(s).remove(s[i].0@),
        unique_keys(s.remove(i)),
    decreases s.len(),
{
    let t = s.remove(i);
    lemma_map_of_absent(s.remove(i), s[i].0@);
    if i == s.len() - 1 {
        assert(t =~= s.drop_last());
        lemma_map_of_absent(s.drop_last(), s[i].0@);
        assert(map_of(s.remove(i)) =~= map_of(s).remove(s[i].0@));
    } else {
        assert(t.drop_last() =~= s.drop_last().remove(i));
        lemma_map_of_remove(s.drop_last(), i);
        assert(t.last() == s.last());
        assert(map_of(t) == map_of(s.drop_last().remove(i)).insert(s.last().0@, s.last().1@));
        assert(map_of(s.remove(i)) =~= map_of(s).remove(s[i].0@));
    }
}

/// A verified in-memory key-value store: a flat list of pairs with no key
/// repeated.
pub struct MemStore {
    entries: Vec<(Vec<u8>, Vec<u8>)>,
}

impl MemStore {
    #[verifier::type_invariant]
    spec fn inv(self) -> bool {
        unique_keys(self.entries@)
    }

    /// An empty store.
    pub fn new() -> (r: MemStore)
        ensures
            r.contents() == Map::<Seq<u8>, Seq<u8>>::empty(),
    {
        MemStore { entries: Vec::new() }
    }

    /// The index holding a key, if any.
    fn find(&self, key: &Vec<u8>) -> (r: Option<usize>)
        ensures
            match r {
                Some(i) => i < self.entries@.len() && self.entries@[i as int].0@ == key@,
                None => forall|j: int| 0 <= j < self.entries@.len() ==> self.entries@[j].0@ != key@,
            },
    {
        let mut i: usize = 0;
        while i < self.entries.len()
            invariant
                i <= self.entries@.len(),
                forall|j: int| 0 <= j < i ==> self.entries@[j].0@ != key@,
            decreases self.entries@.len() - i,
        {
            if bytes_eq(&self.entries[i].0, key) {
                return Some(i);
            }
            i = i + 1;
        }
        None
    }

    /// Drop a key and its value, if present. Extra to the store contract;
    /// normal ledger operation never deletes, but a store can be damaged
    /// from outside, and exercising the validator's response needs this.
    pub fn remove(&mut self, key: &Vec<u8>)
        ensures
            final(self).contents() == old(self).contents().remove(key@),
    {
        proof {
            use_type_invariant(&*self);
        }
        match self.find(key) {
            Some(i) => {
                proof {
                    lemma_map_of_remove(self.entries@, i as int);
                }
                let mut es: Vec<(Vec<u8>, Vec<u8>)> = Vec::new();
                core::mem::swap(&mut es, &mut self.entries);
                let _ = es.remove(i);
                self.entries = es;
                proof {
                    assert(self.contents() =~= old(self).contents().remove(key@));
                }
            },
            None => {
                proof {
                    lemma_map_of_absent(self.entries@, key@);
                    assert(self.contents() =~= self.contents().remove(key@));
                }
            },
        }
    }
}

impl KvStore for MemStore {
    closed spec fn contents(&self) -> Map<Seq<u8>, Seq<u8>> {
        map_of(self.entries@)
    }

    fn get(&self, key: &Vec<u8>) -> (r: Result<Option<Vec<u8>>, StoreError>) {
        proof {
            use_type_invariant(&*self);
        }
        match self.find(key) {
            Some(i) => {
                proof {
                    lemma_map_of_found(self.entries@, i as int);
                }
                Ok(Some(clone_bytes(&self.entries[i].1)))
            },
            None => {
                proof {
                    lemma_map_of_absent(self.entries@, key@);
                }
                Ok(None)
            },
        }
    }

    fn put(&mut self, key: &Vec<u8>, value: &Vec<u8>) -> (r: Result<(), StoreError>) {
        proof {
            use_type_invariant(&*self);
        }
        let nk = clone_bytes(key);
        let nv = clone_bytes(value);
        let found = self.find(key);
        let mut es: Vec<(Vec<u8>, Vec<u8>)> = Vec::new();
        core::mem::swap(&mut es, &mut self.entries);
        match found {
            Some(i) => {
                proof {
                    lemma_map_of_update(es@, i as int, (nk, nv));
                }
                es[i] = (nk, nv);
            },
            None => {
                proof {
                    let pushed = es@.push((nk, nv));
                    assert(pushed.drop_last() =~= es@);
                    assert(map_of(pushed) =~= map_of(es@).insert(key@, value@));
                }
                es.push((nk, nv));
            },
        }
        self.entries = es;
        Ok(())
    }

    fn flush(&mut self) -> (r: Result<(), StoreError>) {
        Ok(())
    }

    fn count(&self) -> (r: usize) {
        proof {
            use_type_invariant(&*self);
            lemma_map_of_len(self.entries@);
        }
        self.entries.len()
    }
}

} // verus!
