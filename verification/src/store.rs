//! The key-value store backing every component: keys are strings, and the
//! store is viewed as a finite map from key to stored value.
//!
//! The store owns all persisted state; components read, mutate and write
//! back within a single operation and keep no cache of their own.  Exclusive
//! (`&mut`) access to the store is what makes a read-then-write sequence
//! atomic here: two operations on the same store can only run one after the
//! other.

use vstd::prelude::*;
use vstd::pervasive::VecAdditionalExecFns;
use crate::errors::AuthError;
use crate::records::ClientRecord;
use crate::records::ClientView;
use crate::records::Grant;
use crate::records::GrantView;
use crate::records::TokenRecord;
use crate::records::TokenRecordView;
use crate::records::copy_bytes;

verus! {

/// A value held under one key of the store.
#[derive(Debug)]
pub enum StoredValue {
    /// Raw bytes: the fixed-width encoding of the usage counter.
    Bytes(Vec<u8>),
    /// A grant awaiting redemption of its one-time authorization code.
    GrantEntry(Grant),
    /// One copy of an access/refresh token record.
    TokenEntry(TokenRecord),
    /// A registered client.
    ClientEntry(ClientRecord),
}

/// Mathematical view of a [`StoredValue`].
pub ghost enum ValueView {
    Bytes(Seq<u8>),
    GrantEntry(GrantView),
    TokenEntry(TokenRecordView),
    ClientEntry(ClientView),
}

impl View for StoredValue {
    type V = ValueView;

    open spec fn view(&self) -> ValueView {
        match self {
            StoredValue::Bytes(b) => ValueView::Bytes(b@),
            StoredValue::GrantEntry(g) => ValueView::GrantEntry(g@),
            StoredValue::TokenEntry(t) => ValueView::TokenEntry(t@),
            StoredValue::ClientEntry(c) => ValueView::ClientEntry(c@),
        }
    }
}

impl Clone for StoredValue {
    fn clone(&self) -> (r: Self)
        ensures
            r@ == self@,
    {
        match self {
            StoredValue::Bytes(b) => StoredValue::Bytes(copy_bytes(b)),
            StoredValue::GrantEntry(g) => StoredValue::GrantEntry(g.clone()),
            StoredValue::TokenEntry(t) => StoredValue::TokenEntry(t.clone()),
            StoredValue::ClientEntry(c) => StoredValue::ClientEntry(c.clone()),
        }
    }
}

/// No two entries share a key.
pub open spec fn distinct_keys(s: Seq<(String, StoredValue)>) -> bool {
    forall|i: int, j: int| 0 <= i < j < s.len() ==> s[i].0@ != s[j].0@
}

/// Some entry carries key `k`.
pub open spec fn has_key(s: Seq<(String, StoredValue)>, k: Seq<char>) -> bool {
    exists|i: int| 0 <= i < s.len() && s[i].0@ == k
}

/// The index of the entry carrying key `k`.
pub open spec fn idx_of(s: Seq<(String, StoredValue)>, k: Seq<char>) -> int {
    choose|i: int| 0 <= i < s.len() && s[i].0@ == k
}

/// The value stored under key `k`.
pub open spec fn value_for(s: Seq<(String, StoredValue)>, k: Seq<char>) -> ValueView {
    s[idx_of(s, k)].1@
}

/// The entry list read as a map from key to value.
pub open spec fn map_of(s: Seq<(String, StoredValue)>) -> Map<Seq<char>, ValueView> {
    Map::new(|k: Seq<char>| has_key(s, k), |k: Seq<char>| value_for(s, k))
}

/// When keys are distinct, the entry at index `i` is the one `idx_of` finds
/// for its key.
proof fn lemma_at(s: Seq<(String, StoredValue)>, k: Seq<char>, i: int)
    requires
        distinct_keys(s),
        0 <= i < s.len(),
        s[i].0@ == k,
    ensures
        has_key(s, k),
        idx_of(s, k) == i,
        value_for(s, k) == s[i].1@,
{
    assert(has_key(s, k));
    let j = idx_of(s, k);
    assert(0 <= j < s.len() && s[j].0@ == k);
    if j < i {
        assert(s[j].0@ != s[i].0@);
    } else if i < j {
        assert(s[i].0@ != s[j].0@);
    }
}

/// Overwriting the entry that already carries a key updates the map at that
/// key.
proof fn lemma_map_of_update(s: Seq<(String, StoredValue)>, i: int, kv: (String, StoredValue))
    requires
        distinct_keys(s),
        0 <= i < s.len(),
        s[i].0@ == kv.0@,
    ensures
        distinct_keys(s.update(i, kv)),
        map_of(s.update(i, kv)) == map_of(s).insert(kv.0@, kv.1@),
{
    let t = s.update(i, kv);
    assert forall|j: int| 0 <= j < t.len() implies #[trigger] t[j].0@ == s[j].0@ by {
        if j == i {
        }
    }
    assert(distinct_keys(t));
    assert forall|k: Seq<char>| true implies has_key(t, k) == has_key(s, k) by {
        if has_key(t, k) {
            let j = idx_of(t, k);
            assert(0 <= j < t.len() && t[j].0@ == k);
            assert(s[j].0@ == k);
            assert(has_key(s, k));
        }
        if has_key(s, k) {
            let j = idx_of(s, k);
            assert(0 <= j < s.len() && s[j].0@ == k);
            assert(t[j].0@ == k);
            assert(has_key(t, k));
        }
    }
    assert forall|k: Seq<char>| has_key(t, k) implies value_for(t, k) == map_of(s).insert(
        kv.0@,
        kv.1@,
    )[k] by {
        if k == kv.0@ {
            lemma_at(t, k, i);
        } else {
            let j = idx_of(s, k);
            assert(0 <= j < s.len() && s[j].0@ == k);
            assert(j != i);
            lemma_at(t, k, j);
            lemma_at(s, k, j);
        }
    }
    assert(has_key(s, kv.0@));
    assert(map_of(t) =~= map_of(s).insert(kv.0@, kv.1@));
}

/// Appending an entry with a fresh key updates the map at that key.
proof fn lemma_map_of_push(s: Seq<(String, StoredValue)>, kv: (String, StoredValue))
    requires
        distinct_keys(s),
        !has_key(s, kv.0@),
    ensures
        distinct_keys(s.push(kv)),
        map_of(s.push(kv)) == map_of(s).insert(kv.0@, kv.1@),
{
    let t = s.push(kv);
    assert forall|i: int, j: int| 0 <= i < j < t.len() implies t[i].0@ != t[j].0@ by {
        if j == s.len() {
            assert(t[i].0@ == s[i].0@);
            if t[i].0@ == kv.0@ {
                assert(has_key(s, kv.0@));
            }
        }
    }
    assert forall|k: Seq<char>| true implies has_key(t, k) == (has_key(s, k) || k == kv.0@) by {
        if has_key(t, k) {
            let j = idx_of(t, k);
            assert(0 <= j < t.len() && t[j].0@ == k);
            if j < s.len() {
                assert(s[j].0@ == k);
                assert(has_key(s, k));
            }
        }
        if has_key(s, k) {
            let j = idx_of(s, k);
            assert(t[j].0@ == k);
            assert(has_key(t, k));
        }
        if k == kv.0@ {
            assert(t[s.len() as int].0@ == k);
            assert(has_key(t, k));
        }
    }
    assert forall|k: Seq<char>| has_key(t, k) implies value_for(t, k) == map_of(s).insert(
        kv.0@,
        kv.1@,
    )[k] by {
        if k == kv.0@ {
            lemma_at(t, k, s.len() as int);
        } else {
            let j = idx_of(s, k);
            assert(0 <= j < s.len() && s[j].0@ == k);
            lemma_at(t, k, j);
            lemma_at(s, k, j);
        }
    }
    assert(map_of(t) =~= map_of(s).insert(kv.0@, kv.1@));
}

/// Removing the entry at index `i` removes exactly its key from the map.
proof fn lemma_map_of_remove(s: Seq<(String, StoredValue)>, i: int)
    requires
        distinct_keys(s),
        0 <= i < s.len(),
    ensures
        distinct_keys(s.remove(i)),
        map_of(s.remove(i)) == map_of(s).remove(s[i].0@),
{
    let t = s.remove(i);
    let k0 = s[i].0@;
    assert forall|a: int, b: int| 0 <= a < b < t.len() implies t[a].0@ != t[b].0@ by {
        let sa = if a < i { a } else { a + 1 };
        let sb = if b < i { b } else { b + 1 };
        assert(t[a].0@ == s[sa].0@);
        assert(t[b].0@ == s[sb].0@);
    }
    assert forall|k: Seq<char>| true implies has_key(t, k) == (has_key(s, k) && k != k0) by {
        if has_key(t, k) {
            let j = idx_of(t, k);
            assert(0 <= j < t.len() && t[j].0@ == k);
            let sj = if j < i { j } else { j + 1 };
            assert(s[sj].0@ == k);
            assert(has_key(s, k));
            if k == k0 {
                lemma_at(s, k, i);
                assert(sj == i);
                assert(false);
            }
        }
        if has_key(s, k) && k != k0 {
            let j = idx_of(s, k);
            assert(0 <= j < s.len() && s[j].0@ == k);
            assert(j != i);
            if j < i {
                assert(t[j].0@ == k);
            } else {
                assert(t[j - 1].0@ == k);
            }
            assert(has_key(t, k));
        }
    }
    assert forall|k: Seq<char>| has_key(t, k) implies value_for(t, k) == value_for(s, k) by {
        let j = idx_of(s, k);
        assert(0 <= j < s.len() && s[j].0@ == k);
        assert(j != i) by {
            if j == i {
                assert(k == k0);
                assert(!has_key(t, k));
            }
        }
        lemma_at(s, k, j);
        if j < i {
            assert(t[j].0@ == k);
            lemma_at(t, k, j);
        } else {
            assert(t[j - 1].0@ == k);
            lemma_at(t, k, j - 1);
        }
    }
    assert(map_of(t) =~= map_of(s).remove(k0));
}

/// String comparison with its meaning on views.
pub(crate) fn str_eq(a: &String, b: &str) -> (r: bool)
    ensures
        r == (a@ == b@),
{
    let t: String = b.to_owned();
    *a == t
}

/// The in-memory key-value store.
///
/// Its view is the finite map the entries denote; `wf` says that no two
/// entries share a key, which every operation preserves.
pub struct MemStore {
    entries: Vec<(String, StoredValue)>,
}

impl View for MemStore {
    type V = Map<Seq<char>, ValueView>;

    closed spec fn view(&self) -> Map<Seq<char>, ValueView> {
        map_of(self.entries@)
    }
}

impl MemStore {
    /// The store's internal invariant: keys are pairwise distinct.
    pub closed spec fn wf(&self) -> bool {
        distinct_keys(self.entries@)
    }

    /// An empty store.
    pub fn new() -> (r: Self)
        ensures
            r.wf(),
            r@ == Map::<Seq<char>, ValueView>::empty(),
    {
        let r = MemStore { entries: Vec::new() };
        proof {
            assert(r@ =~= Map::<Seq<char>, ValueView>::empty());
        }
        r
    }

    /// The index of the entry carrying `key`, if any.
    fn find(&self, key: &str) -> (r: Option<usize>)
        ensures
            match r {
                Some(i) => i < self.entries@.len() && self.entries@[i as int].0@ == key@,
                None => forall|i: int|
                    0 <= i < self.entries@.len() ==> self.entries@[i].0@ != key@,
            },
    {
        let mut i: usize = 0;
        while i < self.entries.len()
            invariant
                i <= self.entries@.len(),
                forall|j: int| 0 <= j < i ==> self.entries@[j].0@ != key@,
            decreases self.entries@.len() - i,
        {
            let e = &self.entries[i];
            if str_eq(&e.0, key) {
                return Some(i);
            }
            i = i + 1;
        }
        None
    }

    /// Reads the value under `key`, or fails with `NotFound`.
    pub fn get(&self, key: &str) -> (r: Result<StoredValue, AuthError>)
        requires
            self.wf(),
        ensures
            match r {
                Ok(v) => self@.contains_key(key@) && v@ == self@[key@],
                Err(e) => e == AuthError::NotFound && !self@.contains_key(key@),
            },
    {
        match self.find(key) {
            Some(i) => {
                let e = &self.entries[i];
                let v = e.1.clone();
                proof {
                    lemma_at(self.entries@, key@, i as int);
                }
                Ok(v)
            },
            None => Err(AuthError::NotFound),
        }
    }

    /// Writes `value` under `key`, overwriting any prior value.
    pub fn set(&mut self, key: &str, value: StoredValue)
        requires
            old(self).wf(),
        ensures
            final(self).wf(),
            final(self)@ == old(self)@.insert(key@, value@),
    {
        let ghost s0 = self.entries@;
        let ghost v0 = value@;
        match self.find(key) {
            Some(i) => {
                self.entries.set(i, (key.to_owned(), value));
                proof {
                    lemma_map_of_update(s0, i as int, self.entries@[i as int]);
                }
            },
            None => {
                self.entries.push((key.to_owned(), value));
                proof {
                    lemma_map_of_push(s0, self.entries@[s0.len() as int]);
                }
            },
        }
    }

    /// Deletes the entry under `key` and returns its value: the conditional
    /// delete used to redeem one-time artifacts, failing with `NotFound` when
    /// the key is absent.
    pub fn remove(&mut self, key: &str) -> (r: Result<StoredValue, AuthError>)
        requires
            old(self).wf(),
        ensures
            final(self).wf(),
            match r {
                Ok(v) => old(self)@.contains_key(key@) && v@ == old(self)@[key@] && final(self)@
                    == old(self)@.remove(key@),
                Err(e) => e == AuthError::NotFound && !old(self)@.contains_key(key@)
                    && final(self)@ == old(self)@,
            },
    {
        let ghost s0 = self.entries@;
        match self.find(key) {
            Some(i) => {
                let (_k, v) = self.entries.remove(i);
                proof {
                    lemma_at(s0, key@, i as int);
                    lemma_map_of_remove(s0, i as int);
                }
                Ok(v)
            },
            None => Err(AuthError::NotFound),
        }
    }

    /// Deletes the entry under `key`; absence is not an error.
    pub fn delete(&mut self, key: &str)
        requires
            old(self).wf(),
        ensures
            final(self).wf(),
            final(self)@ == old(self)@.remove(key@),
    {
        let r = self.remove(key);
        proof {
            match r {
                Ok(_) => {},
                Err(_) => {
                    assert(self@ =~= old(self)@.remove(key@));
                },
            }
        }
    }

    /// Every key of the store, each exactly once.
    pub fn list_keys(&self) -> (r: Vec<String>)
        requires
            self.wf(),
        ensures
            forall|i: int| 0 <= i < r@.len() ==> self@.contains_key(#[trigger] r@[i]@),
            forall|k: Seq<char>|
                self@.contains_key(k) ==> exists|i: int| 0 <= i < r@.len() && #[trigger] r@[i]@ == k,
            forall|i: int, j: int| 0 <= i < j < r@.len() ==> r@[i]@ != r@[j]@,
    {
        let mut r: Vec<String> = Vec::new();
        let mut i: usize = 0;
        while i < self.entries.len()
            invariant
                self.wf(),
                i <= self.entries@.len(),
                r@.len() == i,
                forall|j: int| 0 <= j < i ==> #[trigger] r@[j]@ == self.entries@[j].0@,
            decreases self.entries@.len() - i,
        {
            let e = &self.entries[i];
            r.push(e.0.clone());
            i = i + 1;
        }
        proof {
            assert forall|i2: int| 0 <= i2 < r@.len() implies self@.contains_key(
                #[trigger] r@[i2]@,
            ) by {
                lemma_at(self.entries@, self.entries@[i2].0@, i2);
            }
            assert forall|k: Seq<char>| self@.contains_key(k) implies exists|i2: int|
                0 <= i2 < r@.len() && #[trigger] r@[i2]@ == k by {
                let j = idx_of(self.entries@, k);
                assert(0 <= j < self.entries@.len() && self.entries@[j].0@ == k);
                assert(r@[j]@ == k);
            }
        }
        r
    }
}

} // verus!
