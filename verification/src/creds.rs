//! Credential data: a consumer key pair, and optionally a stored access token
//! made of a consumer and an access key pair.
//!
//! Text is carried as bytes; the surrounding program converts to and from
//! platform strings at its edge.

use vstd::prelude::*;

verus! {

/// A key/secret pair as the remote service hands them out.
#[derive(Debug)]
pub struct KeyPair {
    pub key: Vec<u8>,
    pub secret: Vec<u8>,
}

/// Ghost image of a [`KeyPair`].
pub ghost struct KeyPairView {
    pub key: Seq<u8>,
    pub secret: Seq<u8>,
}

impl View for KeyPair {
    type V = KeyPairView;

    open spec fn view(&self) -> KeyPairView {
        KeyPairView { key: self.key@, secret: self.secret@ }
    }
}

/// An access token: the consumer pair it was issued under and the access pair
/// authorizing calls on behalf of the user.
#[derive(Debug)]
pub struct Token {
    pub consumer: KeyPair,
    pub access: KeyPair,
}

/// Ghost image of a [`Token`].
pub ghost struct TokenView {
    pub consumer: KeyPairView,
    pub access: KeyPairView,
}

impl View for Token {
    type V = TokenView;

    open spec fn view(&self) -> TokenView {
        TokenView { consumer: self.consumer@, access: self.access@ }
    }
}

/// Everything the credential file holds: the application's consumer pair and,
/// once the first interactive authorization has run, the stored access token.
#[derive(Debug)]
pub struct Credentials {
    pub consumer: KeyPair,
    pub token: Option<Token>,
}

/// Ghost image of [`Credentials`].
pub ghost struct CredentialsView {
    pub consumer: KeyPairView,
    pub token: Option<TokenView>,
}

impl View for Credentials {
    type V = CredentialsView;

    open spec fn view(&self) -> CredentialsView {
        CredentialsView {
            consumer: self.consumer@,
            token: match self.token {
                Some(t) => Some(t@),
                None => None,
            },
        }
    }
}

/// Copies a byte vector.
pub fn dup_bytes(v: &Vec<u8>) -> (r: Vec<u8>)
    ensures
        r@ == v@,
{
    let mut r: Vec<u8> = Vec::new();
    let mut i: usize = 0;
    while i < v.len()
        invariant
            i <= v.len(),
            r@ == v@.take(i as int),
        decreases v.len() - i,
    {
        r.push(v[i]);
        i = i + 1;
        proof {
            assert(r@ =~= v@.take(i as int));
        }
    }
    proof {
        assert(r@ =~= v@);
    }
    r
}

impl KeyPair {
    /// Copies a key pair.
    pub fn dup(&self) -> (r: KeyPair)
        ensures
            r@ == self@,
    {
        KeyPair { key: dup_bytes(&self.key), secret: dup_bytes(&self.secret) }
    }
}

impl Token {
    /// Copies a token.
    pub fn dup(&self) -> (r: Token)
        ensures
            r@ == self@,
    {
        Token { consumer: self.consumer.dup(), access: self.access.dup() }
    }
}

} // verus!
