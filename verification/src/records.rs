//! The record types persisted by the credential store, with their
//! mathematical views.

use vstd::prelude::*;

verus! {

/// Mathematical view of a [`Grant`].
pub ghost struct GrantView {
    pub client_id: Seq<char>,
    pub owner_id: Seq<char>,
    pub scope: Seq<char>,
    pub redirect_uri: Seq<char>,
    pub until: int,
}

/// An authorized request, as handed over by the external grant-validation
/// engine.
///
/// The core treats a grant as an immutable value: the only field it ever
/// rewrites is the expiry timestamp `until`, when a configured token
/// lifetime is applied.  `until` counts seconds.
#[derive(PartialEq, Eq, Debug)]
pub struct Grant {
    /// The client the grant was issued for.
    pub client_id: String,
    /// Reference to the resource owner who authorized the request.
    pub owner_id: String,
    /// The authorized scope.
    pub scope: String,
    /// Where a response for this grant may be redirected.
    pub redirect_uri: String,
    /// Expiry timestamp, in seconds.
    pub until: i64,
}

impl View for Grant {
    type V = GrantView;

    open spec fn view(&self) -> GrantView {
        GrantView {
            client_id: self.client_id@,
            owner_id: self.owner_id@,
            scope: self.scope@,
            redirect_uri: self.redirect_uri@,
            until: self.until as int,
        }
    }
}

impl Clone for Grant {
    fn clone(&self) -> (r: Self)
        ensures
            r@ == self@,
    {
        Grant {
            client_id: self.client_id.clone(),
            owner_id: self.owner_id.clone(),
            scope: self.scope.clone(),
            redirect_uri: self.redirect_uri.clone(),
            until: self.until,
        }
    }
}

/// Mathematical view of a [`TokenRecord`].
pub ghost struct TokenRecordView {
    pub access: Seq<char>,
    pub refresh: Option<Seq<char>>,
    pub grant: GrantView,
}

/// The record persisted for an issued access/refresh pair.
///
/// When `refresh` is present the same logical record is stored twice, once
/// under the access key and once under the refresh key, so either token
/// resolves it in one lookup.
#[derive(PartialEq, Eq, Debug)]
pub struct TokenRecord {
    /// The access token string.
    pub access: String,
    /// The refresh token string, when one was issued.
    pub refresh: Option<String>,
    /// The grant the pair was minted for.
    pub grant: Grant,
}

impl View for TokenRecord {
    type V = TokenRecordView;

    open spec fn view(&self) -> TokenRecordView {
        TokenRecordView {
            access: self.access@,
            refresh: match self.refresh {
                Some(s) => Some(s@),
                None => None,
            },
            grant: self.grant@,
        }
    }
}

impl Clone for TokenRecord {
    fn clone(&self) -> (r: Self)
        ensures
            r@ == self@,
    {
        TokenRecord {
            access: self.access.clone(),
            refresh: match &self.refresh {
                Some(s) => Some(s.clone()),
                None => None,
            },
            grant: self.grant.clone(),
        }
    }
}

/// Mathematical view of a [`ClientRecord`].
pub ghost struct ClientView {
    pub client_id: Seq<char>,
    pub data: Seq<u8>,
}

/// A registered client: its identifier and an opaque metadata blob.
#[derive(PartialEq, Eq, Debug)]
pub struct ClientRecord {
    /// The client identifier, also the key the record is stored under.
    pub client_id: String,
    /// Opaque client metadata.
    pub data: Vec<u8>,
}

impl View for ClientRecord {
    type V = ClientView;

    open spec fn view(&self) -> ClientView {
        ClientView { client_id: self.client_id@, data: self.data@ }
    }
}

impl Clone for ClientRecord {
    fn clone(&self) -> (r: Self)
        ensures
            r@ == self@,
    {
        let data = copy_bytes(&self.data);
        ClientRecord { client_id: self.client_id.clone(), data }
    }
}

/// An element-for-element copy of a byte vector.
pub fn copy_bytes(b: &Vec<u8>) -> (r: Vec<u8>)
    ensures
        r@ == b@,
{
    let mut r: Vec<u8> = Vec::new();
    let mut i: usize = 0;
    while i < b.len()
        invariant
            i <= b.len(),
            r@ == b@.subrange(0, i as int),
        decreases b.len() - i,
    {
        r.push(b[i]);
        proof {
            assert(r@ =~= b@.subrange(0, i + 1 as int));
        }
        i = i + 1;
    }
    proof {
        assert(r@ =~= b@);
    }
    r
}

/// How the token is to be presented by its bearer.
#[derive(Clone, Copy, PartialEq, Eq, Structural, Debug)]
pub enum TokenType {
    /// A bearer token: possession alone grants access.
    Bearer,
}

/// What `issue` hands back to the protocol engine.
#[derive(PartialEq, Eq, Debug)]
pub struct IssuedToken {
    /// The access token.
    pub token: String,
    /// The refresh token paired with it.
    pub refresh: Option<String>,
    /// Expiry of the pair, in seconds.
    pub until: i64,
    /// How the token is presented.
    pub token_type: TokenType,
}

/// What `refresh` hands back to the protocol engine.
#[derive(PartialEq, Eq, Debug)]
pub struct RefreshedToken {
    /// The freshly minted access token.
    pub token: String,
    /// The freshly minted refresh token paired with it.
    pub refresh: Option<String>,
    /// Expiry of the new pair, in seconds.
    pub until: i64,
    /// How the token is presented.
    pub token_type: TokenType,
}

} // verus!
