//! The typed record store: structured reads and writes of grants, token
//! records and client records, and the fixed-width 8-byte big-endian
//! encoding of the usage counter under its reserved key.

use vstd::prelude::*;
use crate::errors::AuthError;
use crate::records::ClientRecord;
use crate::records::Grant;
use crate::records::TokenRecord;
use crate::store::MemStore;
use crate::store::StoredValue;
use crate::store::ValueView;

verus! {

/// The reserved key the usage counter is stored under.
pub open spec fn usage_key() -> Seq<char> {
    "usage"@
}

/// Byte `i` of the big-endian encoding of `v` (byte 0 is the most
/// significant).
pub open spec fn be_byte(v: u64, i: int) -> u8 {
    ((v >> (((7 - i) * 8) as u64)) & 0xff) as u8
}

/// The fixed 8-byte big-endian encoding of `v`.
pub open spec fn be_bytes(v: u64) -> Seq<u8> {
    Seq::new(8, |i: int| be_byte(v, i))
}

/// The value an 8-byte big-endian sequence denotes.
pub open spec fn be_val(b: Seq<u8>) -> u64
    recommends
        b.len() == 8,
{
    ((b[0] as u64) << 56u64) | ((b[1] as u64) << 48u64) | ((b[2] as u64) << 40u64) | ((b[3]
        as u64) << 32u64) | ((b[4] as u64) << 24u64) | ((b[5] as u64) << 16u64) | ((b[6] as u64)
        << 8u64) | (b[7] as u64)
}

/// Decoding the encoding of `v` gives `v` back.
pub proof fn lemma_be_round_trip(v: u64)
    ensures
        be_val(be_bytes(v)) == v,
{
    let b = be_bytes(v);
    assert(b[0] == ((v >> 56u64) & 0xff) as u8);
    assert(b[1] == ((v >> 48u64) & 0xff) as u8);
    assert(b[2] == ((v >> 40u64) & 0xff) as u8);
    assert(b[3] == ((v >> 32u64) & 0xff) as u8);
    assert(b[4] == ((v >> 24u64) & 0xff) as u8);
    assert(b[5] == ((v >> 16u64) & 0xff) as u8);
    assert(b[6] == ((v >> 8u64) & 0xff) as u8);
    assert(b[7] == ((v >> 0u64) & 0xff) as u8);
    assert(v >> 0u64 == v) by (bit_vector);
    assert(((((v >> 56u64) & 0xff) as u8 as u64) << 56u64) | ((((v >> 48u64) & 0xff) as u8 as u64)
        << 48u64) | ((((v >> 40u64) & 0xff) as u8 as u64) << 40u64) | ((((v >> 32u64) & 0xff) as u8
        as u64) << 32u64) | ((((v >> 24u64) & 0xff) as u8 as u64) << 24u64) | ((((v >> 16u64)
        & 0xff) as u8 as u64) << 16u64) | ((((v >> 8u64) & 0xff) as u8 as u64) << 8u64) | (((v
        & 0xff) as u8) as u64) == v) by (bit_vector);
}

/// Every 8-byte sequence is the encoding of the value it denotes.
pub proof fn lemma_be_canonical(b: Seq<u8>)
    requires
        b.len() == 8,
    ensures
        be_bytes(be_val(b)) == b,
{
    let x0 = b[0];
    let x1 = b[1];
    let x2 = b[2];
    let x3 = b[3];
    let x4 = b[4];
    let x5 = b[5];
    let x6 = b[6];
    let x7 = b[7];
    let v = be_val(b);
    assert(v == ((x0 as u64) << 56u64) | ((x1 as u64) << 48u64) | ((x2 as u64) << 40u64) | ((x3
        as u64) << 32u64) | ((x4 as u64) << 24u64) | ((x5 as u64) << 16u64) | ((x6 as u64) << 8u64)
        | (x7 as u64));
    let w = ((x0 as u64) << 56u64) | ((x1 as u64) << 48u64) | ((x2 as u64) << 40u64) | ((x3 as u64)
        << 32u64) | ((x4 as u64) << 24u64) | ((x5 as u64) << 16u64) | ((x6 as u64) << 8u64) | (x7
        as u64);
    assert(((w >> 56u64) & 0xff) as u8 == x0 && ((w >> 48u64) & 0xff) as u8 == x1 && ((w >> 40u64)
        & 0xff) as u8 == x2 && ((w >> 32u64) & 0xff) as u8 == x3 && ((w >> 24u64) & 0xff) as u8
        == x4 && ((w >> 16u64) & 0xff) as u8 == x5 && ((w >> 8u64) & 0xff) as u8 == x6 && (w
        & 0xff) as u8 == x7 && w >> 0u64 == w) by (bit_vector)
        requires
            w == ((x0 as u64) << 56u64) | ((x1 as u64) << 48u64) | ((x2 as u64) << 40u64) | ((x3
                as u64) << 32u64) | ((x4 as u64) << 24u64) | ((x5 as u64) << 16u64) | ((x6 as u64)
                << 8u64) | (x7 as u64),
    ;
    assert forall|i: int| 0 <= i < 8 implies be_bytes(v)[i] == b[i] by {
        assert((7 - 0) * 8 == 56 && (7 - 1) * 8 == 48 && (7 - 2) * 8 == 40 && (7 - 3) * 8 == 32 && (
        7 - 4) * 8 == 24 && (7 - 5) * 8 == 16 && (7 - 6) * 8 == 8 && (7 - 7) * 8 == 0);
    }
    assert(be_bytes(v) =~= b);
}

/// A stored value holding a well-formed counter encoding.
pub open spec fn is_u64_value(v: ValueView) -> bool {
    v matches ValueView::Bytes(b) && b.len() == 8
}

/// The counter a store map holds under the reserved key, if any.
pub open spec fn counter_read(m: Map<Seq<char>, ValueView>) -> Option<u64> {
    if m.contains_key(usage_key()) && is_u64_value(m[usage_key()]) {
        Some(be_val(m[usage_key()]->Bytes_0))
    } else {
        None
    }
}

/// After storing the encoding of `v` under the reserved key, the counter
/// reads back as `v`.
pub proof fn lemma_counter_read_insert(m: Map<Seq<char>, ValueView>, v: u64)
    ensures
        counter_read(m.insert(usage_key(), ValueView::Bytes(be_bytes(v)))) == Some(v),
{
    lemma_be_round_trip(v);
}

/// What a successful listing returns: the store holds client records only,
/// and the listing carries exactly one record per stored key — there is a
/// duplicate-free key sequence covering the whole domain whose entry `i`
/// stores record `i` of the listing.
#[verifier::opaque]
pub open spec fn client_listing(m: Map<Seq<char>, ValueView>, s: Seq<ClientRecord>) -> bool {
    &&& forall|k: Seq<char>| m.contains_key(k) ==> #[trigger] m[k] is ClientEntry
    &&& forall|i: int|
        0 <= i < s.len() ==> m.contains_value(ValueView::ClientEntry(#[trigger] s[i]@))
    &&& forall|k: Seq<char>|
        m.contains_key(k) ==> exists|i: int|
            0 <= i < s.len() && ValueView::ClientEntry(#[trigger] s[i]@) == m[k]
    &&& exists|ks: Seq<Seq<char>>|
        {
            &&& #[trigger] ks.no_duplicates()
            &&& ks.len() == s.len()
            &&& forall|i: int|
                0 <= i < s.len() ==> m.contains_key(#[trigger] ks[i]) && m[ks[i]]
                    == ValueView::ClientEntry(s[i]@)
            &&& forall|k: Seq<char>| m.contains_key(k) ==> ks.contains(k)
        }
}

/// The typed wrapper over the key-value store.
pub struct TypedRecordStore {
    kv: MemStore,
}

impl View for TypedRecordStore {
    type V = Map<Seq<char>, ValueView>;

    closed spec fn view(&self) -> Map<Seq<char>, ValueView> {
        self.kv@
    }
}

impl TypedRecordStore {
    /// The underlying store's invariant.
    pub closed spec fn wf(&self) -> bool {
        self.kv.wf()
    }

    /// Wraps a key-value store.
    pub fn new(kv: MemStore) -> (r: Self)
        requires
            kv.wf(),
        ensures
            r.wf(),
            r@ == kv@,
    {
        TypedRecordStore { kv }
    }

    /// Reads the fixed-width unsigned integer under `key`.
    pub fn get_u64(&self, key: &str) -> (r: Result<u64, AuthError>)
        requires
            self.wf(),
        ensures
            match r {
                Ok(n) => self@.contains_key(key@) && self@[key@] == ValueView::Bytes(be_bytes(n)),
                Err(e) => (e == AuthError::NotFound && !self@.contains_key(key@)) || (e
                    == AuthError::SerializationError && self@.contains_key(key@) && !is_u64_value(
                    self@[key@],
                )),
            },
    {
        match self.kv.get(key) {
            Err(e) => Err(e),
            Ok(v) => match v {
                StoredValue::Bytes(b) => {
                    if b.len() == 8 {
                        let n: u64 = ((b[0] as u64) << 56u64) | ((b[1] as u64) << 48u64) | ((b[2]
                            as u64) << 40u64) | ((b[3] as u64) << 32u64) | ((b[4] as u64) << 24u64)
                            | ((b[5] as u64) << 16u64) | ((b[6] as u64) << 8u64) | (b[7] as u64);
                        proof {
                            assert(n == be_val(b@));
                            lemma_be_canonical(b@);
                        }
                        Ok(n)
                    } else {
                        Err(AuthError::SerializationError)
                    }
                },
                _ => Err(AuthError::SerializationError),
            },
        }
    }

    /// Writes `v` under `key` as a fixed 8-byte big-endian integer.
    pub fn set_u64(&mut self, key: &str, v: u64)
        requires
            old(self).wf(),
        ensures
            final(self).wf(),
            final(self)@ == old(self)@.insert(key@, ValueView::Bytes(be_bytes(v))),
    {
        let mut b: Vec<u8> = Vec::new();
        let x0: u64 = (v >> 56u64) & 0xff;
        let x1: u64 = (v >> 48u64) & 0xff;
        let x2: u64 = (v >> 40u64) & 0xff;
        let x3: u64 = (v >> 32u64) & 0xff;
        let x4: u64 = (v >> 24u64) & 0xff;
        let x5: u64 = (v >> 16u64) & 0xff;
        let x6: u64 = (v >> 8u64) & 0xff;
        let x7: u64 = v & 0xff;
        proof {
            assert((v >> 56u64) & 0xff < 256 && (v >> 48u64) & 0xff < 256 && (v >> 40u64) & 0xff
                < 256 && (v >> 32u64) & 0xff < 256 && (v >> 24u64) & 0xff < 256 && (v >> 16u64)
                & 0xff < 256 && (v >> 8u64) & 0xff < 256 && v & 0xff < 256) by (bit_vector);
            assert(v >> 0u64 == v) by (bit_vector);
        }
        b.push(x0 as u8);
        b.push(x1 as u8);
        b.push(x2 as u8);
        b.push(x3 as u8);
        b.push(x4 as u8);
        b.push(x5 as u8);
        b.push(x6 as u8);
        b.push(x7 as u8);
        proof {
            assert((7 - 0) * 8 == 56 && (7 - 1) * 8 == 48 && (7 - 2) * 8 == 40 && (7 - 3) * 8 == 32
                && (7 - 4) * 8 == 24 && (7 - 5) * 8 == 16 && (7 - 6) * 8 == 8 && (7 - 7) * 8 == 0);
            assert(b@ =~= be_bytes(v));
        }
        self.kv.set(key, StoredValue::Bytes(b));
    }

    /// Reads the grant stored under `key`.
    pub fn get_grant(&self, key: &str) -> (r: Result<Grant, AuthError>)
        requires
            self.wf(),
        ensures
            match r {
                Ok(g) => self@.contains_key(key@) && self@[key@] == ValueView::GrantEntry(g@),
                Err(e) => (e == AuthError::NotFound && !self@.contains_key(key@)) || (e
                    == AuthError::SerializationError && self@.contains_key(key@) && !(self@[key@]
                    is GrantEntry)),
            },
    {
        match self.kv.get(key) {
            Err(e) => Err(e),
            Ok(v) => match v {
                StoredValue::GrantEntry(g) => Ok(g),
                _ => Err(AuthError::SerializationError),
            },
        }
    }

    /// Writes `g` under `key`.
    pub fn set_grant(&mut self, key: &str, g: Grant)
        requires
            old(self).wf(),
        ensures
            final(self).wf(),
            final(self)@ == old(self)@.insert(key@, ValueView::GrantEntry(g@)),
    {
        self.kv.set(key, StoredValue::GrantEntry(g));
    }

    /// Reads and deletes the grant under `key` in one step, so that a
    /// one-time code is redeemable exactly once.  A malformed entry is left
    /// in place.
    pub fn remove_grant(&mut self, key: &str) -> (r: Result<Grant, AuthError>)
        requires
            old(self).wf(),
        ensures
            final(self).wf(),
            match r {
                Ok(g) => old(self)@.contains_key(key@) && old(self)@[key@]
                    == ValueView::GrantEntry(g@) && final(self)@ == old(self)@.remove(key@),
                Err(e) => final(self)@ == old(self)@ && ((e == AuthError::NotFound && !old(
                    self,
                )@.contains_key(key@)) || (e == AuthError::SerializationError && old(
                    self,
                )@.contains_key(key@) && !(old(self)@[key@] is GrantEntry))),
            },
    {
        match self.kv.get(key) {
            Err(e) => Err(e),
            Ok(v) => match v {
                StoredValue::GrantEntry(_) => {
                    match self.kv.remove(key) {
                        Ok(v2) => match v2 {
                            StoredValue::GrantEntry(g) => Ok(g),
                            _ => {
                                proof {
                                    assert(false);
                                }
                                Err(AuthError::SerializationError)
                            },
                        },
                        Err(e2) => {
                            proof {
                                assert(false);
                            }
                            Err(e2)
                        },
                    }
                },
                _ => Err(AuthError::SerializationError),
            },
        }
    }

    /// Reads the token record stored under `key`.
    pub fn get_token(&self, key: &str) -> (r: Result<TokenRecord, AuthError>)
        requires
            self.wf(),
        ensures
            match r {
                Ok(t) => self@.contains_key(key@) && self@[key@] == ValueView::TokenEntry(t@),
                Err(e) => (e == AuthError::NotFound && !self@.contains_key(key@)) || (e
                    == AuthError::SerializationError && self@.contains_key(key@) && !(self@[key@]
                    is TokenEntry)),
            },
    {
        match self.kv.get(key) {
            Err(e) => Err(e),
            Ok(v) => match v {
                StoredValue::TokenEntry(t) => Ok(t),
                _ => Err(AuthError::SerializationError),
            },
        }
    }

    /// Writes `t` under `key`.
    pub fn set_token(&mut self, key: &str, t: TokenRecord)
        requires
            old(self).wf(),
        ensures
            final(self).wf(),
            final(self)@ == old(self)@.insert(key@, ValueView::TokenEntry(t@)),
    {
        self.kv.set(key, StoredValue::TokenEntry(t));
    }

    /// Deletes whatever is stored under `key`; absence is not an error.
    pub fn delete_key(&mut self, key: &str)
        requires
            old(self).wf(),
        ensures
            final(self).wf(),
            final(self)@ == old(self)@.remove(key@),
    {
        self.kv.delete(key);
    }

    /// Reads the client record stored under `key`.
    pub fn get_client(&self, key: &str) -> (r: Result<ClientRecord, AuthError>)
        requires
            self.wf(),
        ensures
            match r {
                Ok(c) => self@.contains_key(key@) && self@[key@] == ValueView::ClientEntry(c@),
                Err(e) => (e == AuthError::NotFound && !self@.contains_key(key@)) || (e
                    == AuthError::SerializationError && self@.contains_key(key@) && !(self@[key@]
                    is ClientEntry)),
            },
    {
        match self.kv.get(key) {
            Err(e) => Err(e),
            Ok(v) => match v {
                StoredValue::ClientEntry(c) => Ok(c),
                _ => Err(AuthError::SerializationError),
            },
        }
    }

    /// Writes `c` under `key`.
    pub fn set_client(&mut self, key: &str, c: ClientRecord)
        requires
            old(self).wf(),
        ensures
            final(self).wf(),
            final(self)@ == old(self)@.insert(key@, ValueView::ClientEntry(c@)),
    {
        self.kv.set(key, StoredValue::ClientEntry(c));
    }

    /// Every record in the store, which must hold client records only: a
    /// single malformed entry fails the whole listing.
    #[verifier::rlimit(50)]
    pub fn list_clients(&self) -> (r: Result<Vec<ClientRecord>, AuthError>)
        requires
            self.wf(),
        ensures
            match r {
                Ok(v) => client_listing(self@, v@),
                Err(e) => e == AuthError::SerializationError && (exists|k: Seq<char>|
                    self@.contains_key(k) && !(#[trigger] self@[k] is ClientEntry)),
            },
    {
        let keys = self.kv.list_keys();
        let mut out: Vec<ClientRecord> = Vec::new();
        let mut i: usize = 0;
        while i < keys.len()
            invariant
                self.wf(),
                i <= keys@.len(),
                out@.len() == i,
                forall|j: int| 0 <= j < keys@.len() ==> self@.contains_key(#[trigger] keys@[j]@),
                forall|k: Seq<char>|
                    self@.contains_key(k) ==> exists|j: int|
                        0 <= j < keys@.len() && #[trigger] keys@[j]@ == k,
                forall|j: int|
                    0 <= j < i ==> self@[#[trigger] keys@[j]@] == ValueView::ClientEntry(out@[j]@),
            decreases keys@.len() - i,
        {
            match self.get_client(keys[i].as_str()) {
                Ok(c) => {
                    out.push(c);
                },
                Err(_) => {
                    return Err(AuthError::SerializationError);
                },
            }
            i = i + 1;
        }
        proof {
            assert forall|k: Seq<char>| self@.contains_key(k) implies #[trigger] self@[k]
                is ClientEntry by {
                let j = choose|j: int| 0 <= j < keys@.len() && #[trigger] keys@[j]@ == k;
                assert(self@[keys@[j]@] == ValueView::ClientEntry(out@[j]@));
            }
            assert forall|i2: int| 0 <= i2 < out@.len() implies self@.contains_value(
                ValueView::ClientEntry(#[trigger] out@[i2]@),
            ) by {
                assert(self@.dom().contains(keys@[i2]@) && self@[keys@[i2]@]
                    == ValueView::ClientEntry(out@[i2]@));
            }
            assert forall|k: Seq<char>| self@.contains_key(k) implies exists|i2: int|
                0 <= i2 < out@.len() && ValueView::ClientEntry(#[trigger] out@[i2]@)
                == self@[k] by {
                let j = choose|j: int| 0 <= j < keys@.len() && #[trigger] keys@[j]@ == k;
                assert(0 <= j < out@.len() && ValueView::ClientEntry(out@[j]@) == self@[k]);
            }
            let ks = keys@.map_values(|k: String| k@);
            assert(ks.no_duplicates());
            assert forall|i2: int| 0 <= i2 < out@.len() implies self@.contains_key(
                #[trigger] ks[i2],
            ) && self@[ks[i2]] == ValueView::ClientEntry(out@[i2]@) by {
                assert(ks[i2] == keys@[i2]@);
            }
            assert forall|k: Seq<char>| self@.contains_key(k) implies ks.contains(k) by {
                let j = choose|j: int| 0 <= j < keys@.len() && #[trigger] keys@[j]@ == k;
                assert(ks[j] == k);
            }
            assert(client_listing(self@, out@)) by {
                reveal(client_listing);
            }
        }
        Ok(out)
    }
}

} // verus!
