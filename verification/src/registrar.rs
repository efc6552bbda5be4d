//! Client registration: lookup and registration of client records keyed by
//! client identifier.

use vstd::prelude::*;
use crate::errors::AuthError;
use crate::records::ClientRecord;
use crate::store::ValueView;
use crate::typed::TypedRecordStore;
use crate::typed::client_listing;

verus! {

/// Lookup and registration of clients over a typed record store.
pub struct ClientRegistrar {
    store: TypedRecordStore,
}

impl ClientRegistrar {
    /// The underlying store's invariant.
    pub closed spec fn wf(&self) -> bool {
        self.store.wf()
    }

    /// The records the registrar holds, keyed by store key.
    pub closed spec fn contents(&self) -> Map<Seq<char>, ValueView> {
        self.store@
    }

    /// A registrar over `store`.
    pub fn new(store: TypedRecordStore) -> (r: Self)
        requires
            store.wf(),
        ensures
            r.wf(),
            r.contents() == store@,
    {
        ClientRegistrar { store }
    }

    /// Registers `client` under its own identifier, unconditionally
    /// overwriting any prior record with the same id: last write wins.
    pub fn register(&mut self, client: ClientRecord)
        requires
            old(self).wf(),
        ensures
            final(self).wf(),
            final(self).contents() == old(self).contents().insert(
                client.client_id@,
                ValueView::ClientEntry(client@),
            ),
    {
        let key = client.client_id.clone();
        self.store.set_client(key.as_str(), client);
    }

    /// The record registered under `id`, or `NotFound`.
    pub fn find_client_by_id(&self, id: &str) -> (r: Result<ClientRecord, AuthError>)
        requires
            self.wf(),
        ensures
            match r {
                Ok(c) => self.contents().contains_key(id@) && self.contents()[id@]
                    == ValueView::ClientEntry(c@),
                Err(e) => (e == AuthError::NotFound && !self.contents().contains_key(id@)) || (e
                    == AuthError::SerializationError && self.contents().contains_key(id@) && !(
                self.contents()[id@] is ClientEntry)),
            },
    {
        self.store.get_client(id)
    }

    /// Every registered client record, in no particular order.
    pub fn list(&self) -> (r: Result<Vec<ClientRecord>, AuthError>)
        requires
            self.wf(),
        ensures
            match r {
                Ok(v) => client_listing(self.contents(), v@),
                Err(e) => e == AuthError::SerializationError && (exists|k: Seq<char>|
                    self.contents().contains_key(k) && !(#[trigger] self.contents()[k]
                        is ClientEntry)),
            },
    {
        let r = self.store.list_clients();
        proof {
            match &r {
                Ok(v) => {
                    assert(client_listing(self.contents(), v@));
                },
                Err(_) => {
                    let k = choose|k: Seq<char>|
                        self.store@.contains_key(k) && !(#[trigger] self.store@[k] is ClientEntry);
                    assert(self.contents().contains_key(k) && !(self.contents()[k]
                        is ClientEntry));
                },
            }
        }
        r
    }
}

} // verus!
