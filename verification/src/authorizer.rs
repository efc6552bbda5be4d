//! One-time authorization codes: issuance bound to a grant, and redemption
//! that succeeds exactly once.

use vstd::prelude::*;
use crate::errors::AuthError;
use crate::records::Grant;
use crate::store::ValueView;
use crate::tags::TagGenerator;
use crate::tags::wrapping_add_u64;
use crate::tags::wadd;
use crate::typed::TypedRecordStore;
use crate::typed::be_bytes;
use crate::typed::counter_read;
use crate::typed::usage_key;

verus! {

/// Issues and consumes one-time authorization codes over a typed record
/// store, minting code strings through a tag generator.
pub struct CodeAuthorizer<G: TagGenerator> {
    store: TypedRecordStore,
    tagger: G,
}

impl<G: TagGenerator> CodeAuthorizer<G> {
    /// The underlying store's invariant.
    pub closed spec fn wf(&self) -> bool {
        self.store.wf()
    }

    /// The persisted state the authorizer works on.
    pub closed spec fn contents(&self) -> Map<Seq<char>, ValueView> {
        self.store@
    }

    /// The generator codes are minted with.
    pub closed spec fn tag_gen(&self) -> G {
        self.tagger
    }

    /// An authorizer over `store`, minting codes with `tagger`.
    pub fn new(store: TypedRecordStore, tagger: G) -> (r: Self)
        requires
            store.wf(),
        ensures
            r.wf(),
            r.contents() == store@,
            r.tag_gen() == tagger,
    {
        CodeAuthorizer { store, tagger }
    }

    /// Mints a one-time code for `grant`: reads the usage counter, derives
    /// the code string from its value, and only then persists the grant
    /// under the code and advances the counter.  Every failure, the
    /// generator's included, leaves the store untouched.  From this call
    /// until the code is extracted, the code resolves to exactly this
    /// grant.
    pub fn authorize(&mut self, grant: Grant) -> (r: Result<String, AuthError>)
        requires
            old(self).wf(),
        ensures
            final(self).wf(),
            final(self).tag_gen() == old(self).tag_gen(),
            r is Err ==> final(self).contents() == old(self).contents(),
            match r {
                Ok(code) => counter_read(old(self).contents()) matches Some(c) && code@ == old(
                    self,
                ).tag_gen().tag_spec(c, grant@) && final(self).contents() == old(
                    self,
                ).contents().insert(code@, ValueView::GrantEntry(grant@)).insert(
                    usage_key(),
                    ValueView::Bytes(be_bytes(wadd(c, 1))),
                ),
                Err(e) => match e {
                    AuthError::NotFound => !old(self).contents().contains_key(usage_key()),
                    AuthError::SerializationError => old(self).contents().contains_key(usage_key())
                        && counter_read(old(self).contents()) is None,
                    AuthError::TagGenerationError => counter_read(old(self).contents()) is Some,
                    _ => false,
                },
            },
    {
        let c = match self.store.get_u64("usage") {
            Ok(c) => c,
            Err(e) => {
                return Err(e);
            },
        };
        proof {
            crate::typed::lemma_be_round_trip(c);
        }
        let code = match self.tagger.tag(c, &grant) {
            Ok(code) => code,
            Err(_) => {
                return Err(AuthError::TagGenerationError);
            },
        };
        self.store.set_grant(code.as_str(), grant);
        self.store.set_u64("usage", wrapping_add_u64(c, 1));
        Ok(code)
    }

    /// Redeems `code`: returns the grant it was bound to and deletes the
    /// binding in the same step, so any further extraction of the same code
    /// observes `NotFound`.
    pub fn extract(&mut self, code: &str) -> (r: Result<Grant, AuthError>)
        requires
            old(self).wf(),
        ensures
            final(self).wf(),
            final(self).tag_gen() == old(self).tag_gen(),
            match r {
                Ok(g) => old(self).contents().contains_key(code@) && old(self).contents()[code@]
                    == ValueView::GrantEntry(g@) && final(self).contents() == old(
                    self,
                ).contents().remove(code@),
                Err(e) => final(self).contents() == old(self).contents() && ((e
                    == AuthError::NotFound && !old(self).contents().contains_key(code@)) || (e
                    == AuthError::SerializationError && old(self).contents().contains_key(code@)
                    && !(old(self).contents()[code@] is GrantEntry))),
            },
    {
        self.store.remove_grant(code)
    }
}

} // verus!
