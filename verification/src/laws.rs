//! The laws of the credential lifecycle, proved over the store states that
//! the components' contracts describe.
//!
//! Each law speaks about the map compositions that `authorize`, `extract`,
//! `issue` and `refresh` guarantee in their postconditions, so together
//! with those contracts it pins the observable behaviour of any sequence
//! of calls.

use vstd::prelude::*;
use crate::records::GrantView;
use crate::records::TokenRecordView;
use crate::store::ValueView;
use crate::tags::TagGenerator;
use crate::tags::lemma_tags_within_draw_distinct;
use crate::tags::wadd;
use crate::typed::be_bytes;
use crate::typed::usage_key;

verus! {

/// Law: an issued pair carries distinct access and refresh tokens, and in
/// the store `issue` leaves behind, both tokens resolve to the very record
/// whose grant is the issued one.  By the contracts of `recover_token` and
/// `recover_refresh`, both lookups on that store are then forced to return
/// the issued grant (equal to the requested one modulo expiry adjustment).
pub proof fn lemma_issue_round_trip<G: TagGenerator>(
    tagger: G,
    m: Map<Seq<char>, ValueView>,
    c: u64,
    g2: GrantView,
)
    ensures
        ({
            let a = tagger.tag_spec(c, g2);
            let rf = tagger.tag_spec(wadd(c, 1), g2);
            let rec = TokenRecordView { access: a, refresh: Some(rf), grant: g2 };
            let m1 = m.insert(rf, ValueView::TokenEntry(rec)).insert(
                a,
                ValueView::TokenEntry(rec),
            ).insert(usage_key(), ValueView::Bytes(be_bytes(wadd(c, 2))));
            &&& a != rf
            &&& m1.contains_key(a) && m1[a] == ValueView::TokenEntry(rec)
            &&& m1.contains_key(rf) && m1[rf] == ValueView::TokenEntry(rec)
            &&& rec.grant == g2
        }),
{
    lemma_tags_within_draw_distinct(c, 0, 1);
    tagger.lemma_tag_injective(c, g2, wadd(c, 1), g2);
    tagger.lemma_tag_wf(c, g2);
    tagger.lemma_tag_wf(wadd(c, 1), g2);
}

/// Law: a code is redeemable exactly once.  In the store `authorize`
/// leaves behind, the code resolves to the bound grant, so the contract of
/// `extract` forces the first redemption to succeed with exactly that
/// grant; and in the store that redemption leaves behind, the code is
/// absent, so the same contract forces every later redemption to fail with
/// `NotFound`.
pub proof fn lemma_code_single_use<G: TagGenerator>(
    tagger: G,
    m: Map<Seq<char>, ValueView>,
    c: u64,
    gv: GrantView,
)
    ensures
        ({
            let code = tagger.tag_spec(c, gv);
            let m1 = m.insert(code, ValueView::GrantEntry(gv)).insert(
                usage_key(),
                ValueView::Bytes(be_bytes(wadd(c, 1))),
            );
            &&& m1.contains_key(code) && m1[code] == ValueView::GrantEntry(gv)
            &&& !m1.remove(code).contains_key(code)
        }),
{
    tagger.lemma_tag_wf(c, gv);
}

/// Law: the codes of any number of authorizations are pairwise distinct.
/// Each call of `authorize` consumes the counter value its predecessor
/// left behind, so the codes of a run of calls starting at counter `c0`
/// are tags of consecutive counter values; by the generator's injectivity
/// they never coincide, whatever the grants, as long as the run draws at
/// most the full counter range.
pub proof fn lemma_codes_pairwise_distinct<G: TagGenerator>(
    tagger: G,
    c0: u64,
    grants: Seq<GrantView>,
    codes: Seq<Seq<char>>,
)
    requires
        codes.len() == grants.len(),
        codes.len() <= u64::MAX + 1,
        forall|i: int|
            0 <= i < codes.len() ==> codes[i] == tagger.tag_spec(wadd(c0, i as u64), grants[i]),
    ensures
        forall|i: int, j: int|
            0 <= i < codes.len() && 0 <= j < codes.len() && i != j ==> codes[i] != codes[j],
{
    assert forall|i: int, j: int|
        0 <= i < codes.len() && 0 <= j < codes.len() && i != j implies codes[i] != codes[j] by {
        lemma_tags_within_draw_distinct(c0, i as u64, j as u64);
        tagger.lemma_tag_injective(wadd(c0, i as u64), grants[i], wadd(c0, j as u64), grants[j]);
    }
}

/// Law: a successful refresh invalidates the superseded pair.  In the
/// store `refresh` leaves behind, neither the old refresh token nor the
/// old access token is present any longer, while both new tokens resolve
/// to the new record and its grant.  By the recovery contracts, looking up
/// either old token is then forced to return `None`, and either new token
/// the refreshed grant.
///
/// The previous tokens are tags of earlier counter draws, so their counter
/// values differ from the two values of the rotating draw; that is what
/// the `requires` states.
pub proof fn lemma_refresh_invalidates<G: TagGenerator>(
    tagger: G,
    m: Map<Seq<char>, ValueView>,
    rec0: TokenRecordView,
    rtok: Seq<char>,
    c0a: u64,
    c0r: u64,
    ga: GrantView,
    gr: GrantView,
    c: u64,
    g2: GrantView,
)
    requires
        rec0.access == tagger.tag_spec(c0a, ga),
        rtok == tagger.tag_spec(c0r, gr),
        c0a != c,
        c0a != wadd(c, 1),
        c0r != c,
        c0r != wadd(c, 1),
    ensures
        ({
            let a2 = tagger.tag_spec(c, g2);
            let r2 = tagger.tag_spec(wadd(c, 1), g2);
            let rec1 = TokenRecordView { access: a2, refresh: Some(r2), grant: g2 };
            let m1 = m.remove(rtok).remove(rec0.access).insert(
                r2,
                ValueView::TokenEntry(rec1),
            ).insert(a2, ValueView::TokenEntry(rec1)).insert(
                usage_key(),
                ValueView::Bytes(be_bytes(wadd(c, 2))),
            );
            &&& !m1.contains_key(rtok)
            &&& !m1.contains_key(rec0.access)
            &&& m1.contains_key(a2) && m1[a2] == ValueView::TokenEntry(rec1)
            &&& m1.contains_key(r2) && m1[r2] == ValueView::TokenEntry(rec1)
            &&& rec1.grant == g2
        }),
{
    lemma_tags_within_draw_distinct(c, 0, 1);
    tagger.lemma_tag_injective(c, g2, wadd(c, 1), g2);
    tagger.lemma_tag_injective(c0r, gr, c, g2);
    tagger.lemma_tag_injective(c0r, gr, wadd(c, 1), g2);
    tagger.lemma_tag_injective(c0a, ga, c, g2);
    tagger.lemma_tag_injective(c0a, ga, wadd(c, 1), g2);
    tagger.lemma_tag_wf(c, g2);
    tagger.lemma_tag_wf(wadd(c, 1), g2);
    tagger.lemma_tag_wf(c0a, ga);
    tagger.lemma_tag_wf(c0r, gr);
}

} // verus!
