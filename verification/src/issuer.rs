//! Token issuance: minting access/refresh pairs, rotating them on refresh,
//! and recovering grants from live tokens.
//!
//! A pair's record is persisted twice, once under each token, and the
//! refresh-keyed copy is always written first: a lookup by refresh token
//! alone stays consistent even if the access-keyed write is lost.  That
//! ordering is a correctness requirement, not an implementation detail.

use vstd::prelude::*;
use crate::errors::AuthError;
use crate::records::Grant;
use crate::records::GrantView;
use crate::records::IssuedToken;
use crate::records::RefreshedToken;
use crate::records::TokenRecord;
use crate::records::TokenRecordView;
use crate::records::TokenType;
use crate::store::ValueView;
use crate::store::str_eq;
use crate::tags::TagGenerator;
use crate::tags::lemma_tags_within_draw_distinct;
use crate::tags::wrapping_add_u64;
use crate::tags::wadd;
use crate::typed::TypedRecordStore;
use crate::typed::be_bytes;
use crate::typed::counter_read;
use crate::typed::usage_key;

verus! {

/// The expiry a grant gets when a lifetime of `d` seconds is applied at
/// time `now`, saturating at the largest representable timestamp.
pub open spec fn clamped_until(now: int, d: u32) -> int {
    if now + d <= i64::MAX {
        now + d
    } else {
        i64::MAX as int
    }
}

/// The grant as persisted: unchanged when no token lifetime is configured,
/// otherwise with its expiry rewritten to `now` plus the lifetime.
pub open spec fn apply_lifetime(g: GrantView, now: int, lt: Option<u32>) -> GrantView {
    match lt {
        None => g,
        Some(d) => GrantView { until: clamped_until(now, d), ..g },
    }
}

/// Relies on std::time::SystemTime::now for the current time in seconds
/// since the epoch; nothing is promised of the value.  The body is total:
/// a clock before the epoch reads as a negative count, and a count beyond
/// the representable range saturates.
#[verifier::external_body]
fn now_seconds() -> i64 {
    match std::time::SystemTime::now().duration_since(std::time::UNIX_EPOCH) {
        Ok(d) => i64::try_from(d.as_secs()).unwrap_or(i64::MAX),
        Err(e) => -i64::try_from(e.duration().as_secs()).unwrap_or(i64::MAX),
    }
}

/// Issues, rotates and recovers access/refresh token pairs over a typed
/// record store, minting token strings through a tag generator and
/// optionally applying a fixed token lifetime in seconds.
pub struct TokenIssuer<G: TagGenerator> {
    store: TypedRecordStore,
    tagger: G,
    lifetime: Option<u32>,
}

impl<G: TagGenerator> TokenIssuer<G> {
    /// The underlying store's invariant.
    pub closed spec fn wf(&self) -> bool {
        self.store.wf()
    }

    /// The persisted state the issuer works on.
    pub closed spec fn contents(&self) -> Map<Seq<char>, ValueView> {
        self.store@
    }

    /// The generator tokens are minted with.
    pub closed spec fn tag_gen(&self) -> G {
        self.tagger
    }

    /// The configured token lifetime, in seconds.
    pub closed spec fn lifetime_spec(&self) -> Option<u32> {
        self.lifetime
    }

    /// An issuer over `store`, minting tokens with `tagger`; when
    /// `lifetime` is set, every issued or refreshed grant expires that many
    /// seconds after the moment of issuance.
    pub fn new(store: TypedRecordStore, tagger: G, lifetime: Option<u32>) -> (r: Self)
        requires
            store.wf(),
        ensures
            r.wf(),
            r.contents() == store@,
            r.tag_gen() == tagger,
            r.lifetime_spec() == lifetime,
    {
        TokenIssuer { store, tagger, lifetime }
    }

    /// The grant with the configured lifetime applied at time `now`.
    fn apply_lifetime_exec(&self, grant: Grant, now: i64) -> (g: Grant)
        ensures
            g@ == apply_lifetime(grant@, now as int, self.lifetime_spec()),
    {
        let mut g = grant;
        match self.lifetime {
            None => {},
            Some(d) => {
                let d64: i64 = d as i64;
                if now <= i64::MAX - d64 {
                    g.until = now + d64;
                } else {
                    g.until = i64::MAX;
                }
            },
        }
        g
    }

    /// Mints an access/refresh pair for `grant` as of time `now`: applies
    /// the configured lifetime, reads the usage counter and derives the two
    /// token strings from its value and successor, so they differ, and only
    /// then persists the record under both tokens, refresh key first, and
    /// advances the counter.  Every failure, the generator's included,
    /// leaves the store untouched.
    pub fn issue_at(&mut self, grant: Grant, now: i64) -> (r: Result<IssuedToken, AuthError>)
        requires
            old(self).wf(),
        ensures
            final(self).wf(),
            final(self).tag_gen() == old(self).tag_gen(),
            final(self).lifetime_spec() == old(self).lifetime_spec(),
            r is Err ==> final(self).contents() == old(self).contents(),
            match r {
                Ok(tok) => counter_read(old(self).contents()) matches Some(c) && ({
                    let g2 = apply_lifetime(grant@, now as int, old(self).lifetime_spec());
                    let a = old(self).tag_gen().tag_spec(c, g2);
                    let rf = old(self).tag_gen().tag_spec(wadd(c, 1), g2);
                    let rec = TokenRecordView { access: a, refresh: Some(rf), grant: g2 };
                    &&& tok.token@ == a
                    &&& (tok.refresh matches Some(s) && s@ == rf)
                    &&& a != rf
                    &&& tok.until as int == g2.until
                    &&& tok.token_type == TokenType::Bearer
                    &&& final(self).contents() == old(self).contents().insert(
                        rf,
                        ValueView::TokenEntry(rec),
                    ).insert(a, ValueView::TokenEntry(rec)).insert(
                        usage_key(),
                        ValueView::Bytes(be_bytes(wadd(c, 2))),
                    )
                }),
                Err(e) => match e {
                    AuthError::NotFound => !old(self).contents().contains_key(usage_key()),
                    AuthError::SerializationError => old(self).contents().contains_key(usage_key())
                        && counter_read(old(self).contents()) is None,
                    AuthError::TagGenerationError => counter_read(old(self).contents()) is Some,
                    _ => false,
                },
            },
    {
        let g2 = self.apply_lifetime_exec(grant, now);
        let c = match self.store.get_u64("usage") {
            Ok(c) => c,
            Err(e) => {
                return Err(e);
            },
        };
        proof {
            crate::typed::lemma_be_round_trip(c);
        }
        let t1 = wrapping_add_u64(c, 1);
        let access = match self.tagger.tag(c, &g2) {
            Ok(s) => s,
            Err(_) => {
                return Err(AuthError::TagGenerationError);
            },
        };
        let refresh = match self.tagger.tag(t1, &g2) {
            Ok(s) => s,
            Err(_) => {
                return Err(AuthError::TagGenerationError);
            },
        };
        proof {
            lemma_tags_within_draw_distinct(c, 0, 1);
            self.tagger.lemma_tag_injective(c, g2@, t1, g2@);
        }
        let until = g2.until;
        let rec = TokenRecord { access: access.clone(), refresh: Some(refresh.clone()), grant: g2 };
        let rec2 = rec.clone();
        self.store.set_token(refresh.as_str(), rec2);
        self.store.set_token(access.as_str(), rec);
        self.store.set_u64("usage", wrapping_add_u64(c, 2));
        Ok(IssuedToken { token: access, refresh: Some(refresh), until, token_type: TokenType::Bearer })
    }

    /// Mints an access/refresh pair for `grant` as of the current time.
    ///
    /// Everything of `issue_at` holds, with the persisted expiry carried in
    /// the returned token; when no lifetime is configured, it is the
    /// grant's own expiry.
    pub fn issue(&mut self, grant: Grant) -> (r: Result<IssuedToken, AuthError>)
        requires
            old(self).wf(),
        ensures
            final(self).wf(),
            final(self).tag_gen() == old(self).tag_gen(),
            final(self).lifetime_spec() == old(self).lifetime_spec(),
            r is Err ==> final(self).contents() == old(self).contents(),
            match r {
                Ok(tok) => counter_read(old(self).contents()) matches Some(c) && ({
                    let g2 = GrantView { until: tok.until as int, ..grant@ };
                    let a = old(self).tag_gen().tag_spec(c, g2);
                    let rf = old(self).tag_gen().tag_spec(wadd(c, 1), g2);
                    let rec = TokenRecordView { access: a, refresh: Some(rf), grant: g2 };
                    &&& (old(self).lifetime_spec() is None ==> tok.until == grant.until)
                    &&& tok.token@ == a
                    &&& (tok.refresh matches Some(s) && s@ == rf)
                    &&& a != rf
                    &&& tok.token_type == TokenType::Bearer
                    &&& final(self).contents() == old(self).contents().insert(
                        rf,
                        ValueView::TokenEntry(rec),
                    ).insert(a, ValueView::TokenEntry(rec)).insert(
                        usage_key(),
                        ValueView::Bytes(be_bytes(wadd(c, 2))),
                    )
                }),
                Err(e) => match e {
                    AuthError::NotFound => !old(self).contents().contains_key(usage_key()),
                    AuthError::SerializationError => old(self).contents().contains_key(usage_key())
                        && counter_read(old(self).contents()) is None,
                    AuthError::TagGenerationError => counter_read(old(self).contents()) is Some,
                    _ => false,
                },
            },
    {
        let ghost gv = grant@;
        let now = now_seconds();
        let r = self.issue_at(grant, now);
        proof {
            match &r {
                Ok(tok) => {
                    assert(GrantView { until: tok.until as int, ..gv } == apply_lifetime(
                        gv,
                        now as int,
                        old(self).lifetime_spec(),
                    ));
                },
                Err(_) => {},
            }
        }
        r
    }

    /// Rotates the pair that `refresh_token` belongs to, as of time `now`:
    /// checks that the stored record names `refresh_token` as its own
    /// refresh token, derives two fresh tokens from the counter, and only
    /// then deletes both copies of the superseded record so the old pair
    /// can never be reused, persists the new record under both new tokens,
    /// refresh key first, and advances the counter.  Every failure, the
    /// generator's included, leaves the store untouched.
    pub fn refresh_at(&mut self, refresh_token: &str, grant: Grant, now: i64) -> (r: Result<
        RefreshedToken,
        AuthError,
    >)
        requires
            old(self).wf(),
        ensures
            final(self).wf(),
            final(self).tag_gen() == old(self).tag_gen(),
            final(self).lifetime_spec() == old(self).lifetime_spec(),
            r is Err ==> final(self).contents() == old(self).contents(),
            match r {
                Ok(rt) => old(self).contents().contains_key(refresh_token@) && (old(
                    self,
                ).contents()[refresh_token@] matches ValueView::TokenEntry(rec0) && ({
                    let g2 = apply_lifetime(grant@, now as int, old(self).lifetime_spec());
                    let a2 = old(self).tag_gen().tag_spec(c_of(old(self).contents()), g2);
                    let r2 = old(self).tag_gen().tag_spec(wadd(c_of(old(self).contents()), 1), g2);
                    let rec1 = TokenRecordView { access: a2, refresh: Some(r2), grant: g2 };
                    &&& rec0.refresh == Some(refresh_token@)
                    &&& counter_read(old(self).contents()) is Some
                    &&& rt.token@ == a2
                    &&& (rt.refresh matches Some(s) && s@ == r2)
                    &&& a2 != r2
                    &&& rt.until as int == g2.until
                    &&& rt.token_type == TokenType::Bearer
                    &&& final(self).contents() == old(self).contents().remove(
                        refresh_token@,
                    ).remove(rec0.access).insert(r2, ValueView::TokenEntry(rec1)).insert(
                        a2,
                        ValueView::TokenEntry(rec1),
                    ).insert(
                        usage_key(),
                        ValueView::Bytes(be_bytes(wadd(c_of(old(self).contents()), 2))),
                    )
                })),
                Err(e) => match e {
                    AuthError::NotFound => !old(self).contents().contains_key(refresh_token@) || (
                    old(self).contents().contains_key(refresh_token@) && (old(
                        self,
                    ).contents()[refresh_token@] matches ValueView::TokenEntry(rec0) && rec0.refresh
                        == Some(refresh_token@)) && !old(self).contents().contains_key(
                        usage_key(),
                    )),
                    AuthError::SerializationError => (old(self).contents().contains_key(
                        refresh_token@,
                    ) && !(old(self).contents()[refresh_token@] is TokenEntry)) || (old(
                        self,
                    ).contents().contains_key(refresh_token@) && (old(
                        self,
                    ).contents()[refresh_token@] matches ValueView::TokenEntry(rec0) && rec0.refresh
                        == Some(refresh_token@)) && old(self).contents().contains_key(usage_key())
                        && counter_read(old(self).contents()) is None),
                    AuthError::Conflict => old(self).contents().contains_key(refresh_token@) && (
                    old(self).contents()[refresh_token@] matches ValueView::TokenEntry(rec0)
                        && rec0.refresh != Some(refresh_token@)),
                    AuthError::TagGenerationError => old(self).contents().contains_key(
                        refresh_token@,
                    ) && (old(self).contents()[refresh_token@] matches ValueView::TokenEntry(rec0)
                        && rec0.refresh == Some(refresh_token@)) && counter_read(
                        old(self).contents(),
                    ) is Some,
                    _ => false,
                },
            },
    {
        let rec = match self.store.get_token(refresh_token) {
            Ok(t) => t,
            Err(e) => {
                return Err(e);
            },
        };
        let matches_key = match &rec.refresh {
            Some(s) => str_eq(s, refresh_token),
            None => false,
        };
        if !matches_key {
            return Err(AuthError::Conflict);
        }
        let g2 = self.apply_lifetime_exec(grant, now);
        let c = match self.store.get_u64("usage") {
            Ok(c) => c,
            Err(e) => {
                return Err(e);
            },
        };
        proof {
            crate::typed::lemma_be_round_trip(c);
        }
        let t1 = wrapping_add_u64(c, 1);
        let access = match self.tagger.tag(c, &g2) {
            Ok(s) => s,
            Err(_) => {
                return Err(AuthError::TagGenerationError);
            },
        };
        let new_refresh = match self.tagger.tag(t1, &g2) {
            Ok(s) => s,
            Err(_) => {
                return Err(AuthError::TagGenerationError);
            },
        };
        proof {
            lemma_tags_within_draw_distinct(c, 0, 1);
            self.tagger.lemma_tag_injective(c, g2@, t1, g2@);
        }
        self.store.delete_key(refresh_token);
        self.store.delete_key(rec.access.as_str());
        let until = g2.until;
        let new_rec = TokenRecord {
            access: access.clone(),
            refresh: Some(new_refresh.clone()),
            grant: g2,
        };
        let new_rec2 = new_rec.clone();
        self.store.set_token(new_refresh.as_str(), new_rec2);
        self.store.set_token(access.as_str(), new_rec);
        self.store.set_u64("usage", wrapping_add_u64(c, 2));
        Ok(
            RefreshedToken {
                token: access,
                refresh: Some(new_refresh),
                until,
                token_type: TokenType::Bearer,
            },
        )
    }

    /// Rotates the pair that `refresh_token` belongs to, as of the current
    /// time.
    pub fn refresh(&mut self, refresh_token: &str, grant: Grant) -> (r: Result<
        RefreshedToken,
        AuthError,
    >)
        requires
            old(self).wf(),
        ensures
            final(self).wf(),
            final(self).tag_gen() == old(self).tag_gen(),
            final(self).lifetime_spec() == old(self).lifetime_spec(),
            r is Err ==> final(self).contents() == old(self).contents(),
            match r {
                Ok(rt) => old(self).contents().contains_key(refresh_token@) && (old(
                    self,
                ).contents()[refresh_token@] matches ValueView::TokenEntry(rec0) && ({
                    let g2 = GrantView { until: rt.until as int, ..grant@ };
                    let a2 = old(self).tag_gen().tag_spec(c_of(old(self).contents()), g2);
                    let r2 = old(self).tag_gen().tag_spec(wadd(c_of(old(self).contents()), 1), g2);
                    let rec1 = TokenRecordView { access: a2, refresh: Some(r2), grant: g2 };
                    &&& (old(self).lifetime_spec() is None ==> rt.until == grant.until)
                    &&& rec0.refresh == Some(refresh_token@)
                    &&& counter_read(old(self).contents()) is Some
                    &&& rt.token@ == a2
                    &&& (rt.refresh matches Some(s) && s@ == r2)
                    &&& a2 != r2
                    &&& rt.token_type == TokenType::Bearer
                    &&& final(self).contents() == old(self).contents().remove(
                        refresh_token@,
                    ).remove(rec0.access).insert(r2, ValueView::TokenEntry(rec1)).insert(
                        a2,
                        ValueView::TokenEntry(rec1),
                    ).insert(
                        usage_key(),
                        ValueView::Bytes(be_bytes(wadd(c_of(old(self).contents()), 2))),
                    )
                })),
                Err(e) => match e {
                    AuthError::NotFound => !old(self).contents().contains_key(refresh_token@) || (
                    old(self).contents().contains_key(refresh_token@) && (old(
                        self,
                    ).contents()[refresh_token@] matches ValueView::TokenEntry(rec0) && rec0.refresh
                        == Some(refresh_token@)) && !old(self).contents().contains_key(
                        usage_key(),
                    )),
                    AuthError::SerializationError => (old(self).contents().contains_key(
                        refresh_token@,
                    ) && !(old(self).contents()[refresh_token@] is TokenEntry)) || (old(
                        self,
                    ).contents().contains_key(refresh_token@) && (old(
                        self,
                    ).contents()[refresh_token@] matches ValueView::TokenEntry(rec0) && rec0.refresh
                        == Some(refresh_token@)) && old(self).contents().contains_key(usage_key())
                        && counter_read(old(self).contents()) is None),
                    AuthError::Conflict => old(self).contents().contains_key(refresh_token@) && (
                    old(self).contents()[refresh_token@] matches ValueView::TokenEntry(rec0)
                        && rec0.refresh != Some(refresh_token@)),
                    AuthError::TagGenerationError => old(self).contents().contains_key(
                        refresh_token@,
                    ) && (old(self).contents()[refresh_token@] matches ValueView::TokenEntry(rec0)
                        && rec0.refresh == Some(refresh_token@)) && counter_read(
                        old(self).contents(),
                    ) is Some,
                    _ => false,
                },
            },
    {
        let ghost gv = grant@;
        let now = now_seconds();
        let r = self.refresh_at(refresh_token, grant, now);
        proof {
            match &r {
                Ok(rt) => {
                    assert(GrantView { until: rt.until as int, ..gv } == apply_lifetime(
                        gv,
                        now as int,
                        old(self).lifetime_spec(),
                    ));
                },
                Err(_) => {},
            }
        }
        r
    }

    /// Looks up the grant behind a live access token without consuming it:
    /// `None` when the token is unknown, never a mutation of the store.
    pub fn recover_token(&self, token: &str) -> (r: Result<Option<Grant>, AuthError>)
        requires
            self.wf(),
        ensures
            match r {
                Ok(og) => match og {
                    Some(g) => self.contents().contains_key(token@) && (
                    self.contents()[token@] matches ValueView::TokenEntry(rec) && rec.grant == g@),
                    None => !self.contents().contains_key(token@),
                },
                Err(e) => e == AuthError::SerializationError && self.contents().contains_key(
                    token@,
                ) && !(self.contents()[token@] is TokenEntry),
            },
    {
        match self.store.get_token(token) {
            Ok(t) => Ok(Some(t.grant)),
            Err(AuthError::NotFound) => Ok(None),
            Err(e) => Err(e),
        }
    }

    /// Looks up the grant behind a refresh token without rotating it:
    /// `None` when the token is unknown, never a mutation of the store.
    pub fn recover_refresh(&self, token: &str) -> (r: Result<Option<Grant>, AuthError>)
        requires
            self.wf(),
        ensures
            match r {
                Ok(og) => match og {
                    Some(g) => self.contents().contains_key(token@) && (
                    self.contents()[token@] matches ValueView::TokenEntry(rec) && rec.grant == g@),
                    None => !self.contents().contains_key(token@),
                },
                Err(e) => e == AuthError::SerializationError && self.contents().contains_key(
                    token@,
                ) && !(self.contents()[token@] is TokenEntry),
            },
    {
        match self.store.get_token(token) {
            Ok(t) => Ok(Some(t.grant)),
            Err(AuthError::NotFound) => Ok(None),
            Err(e) => Err(e),
        }
    }
}

/// The counter value a store map holds, where one is known to be held.
pub open spec fn c_of(m: Map<Seq<char>, ValueView>) -> u64 {
    counter_read(m)->Some_0
}

} // verus!
