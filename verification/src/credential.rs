//! The credential cache: at most one cached bearer credential with an
//! absolute expiry, replaced wholesale on refresh.
//!
//! The cache itself only decides; the network exchange that obtains a
//! fresh credential happens outside. A caller follows the protocol:
//! ask `get_valid` first; on `None`, enter the exclusive refresh
//! section, ask again (another caller may have refreshed meanwhile),
//! and only then perform the exchange and hand the parsed fields to
//! `store_refreshed`.

use vstd::prelude::*;
use vstd::string::StringExecFns;
use vstd::utf8::encode_utf8;
use base64::Engine;

verus! {

/// A bearer credential with its absolute expiry in unix seconds.
pub struct Credential {
    pub access_token: String,
    pub token_type: String,
    pub expires_at: i64,
}

impl Credential {
    /// A credential is valid at `now` unless its expiry lies strictly
    /// in the past.
    pub open spec fn valid_at(self, now: i64) -> bool {
        self.expires_at >= now
    }
}

impl Clone for Credential {
    fn clone(&self) -> (r: Self)
        ensures
            r == *self,
    {
        Credential {
            access_token: self.access_token.clone(),
            token_type: self.token_type.clone(),
            expires_at: self.expires_at,
        }
    }
}

/// Holds at most one cached credential.
pub struct CredentialCache {
    cached: Option<Credential>,
}

impl CredentialCache {
    /// The credential the cache holds, if any.
    pub closed spec fn spec_cached(self) -> Option<Credential> {
        self.cached
    }

    /// True iff a cached credential exists and is valid at `now`.
    pub open spec fn spec_valid(self, now: i64) -> bool {
        self.spec_cached() matches Some(c) && c.valid_at(now)
    }

    /// An empty cache: the first caller must refresh.
    pub fn new() -> (r: CredentialCache)
        ensures
            r.spec_cached() is None,
    {
        CredentialCache { cached: None }
    }

    /// Returns a copy of the cached credential exactly when it is
    /// still valid at `now`; `None` demands a refresh.
    pub fn get_valid(&self, now: i64) -> (r: Option<Credential>)
        ensures
            r is Some <==> self.spec_valid(now),
            self.spec_valid(now) ==> r == Some(self.spec_cached()->Some_0),
    {
        match &self.cached {
            Some(c) => {
                if c.expires_at >= now {
                    Some(c.clone())
                } else {
                    None
                }
            },
            None => None,
        }
    }

    /// Stores the parsed fields of a token response, with the absolute
    /// expiry computed as `now + expires_in`, and returns a copy of the
    /// stored credential.
    pub fn store_refreshed(
        &mut self,
        access_token: String,
        token_type: String,
        expires_in: i64,
        now: i64,
    ) -> (r: Credential)
        requires
            0 <= expires_in,
            now + expires_in <= i64::MAX,
        ensures
            final(self).spec_cached() == Some(r),
            r.access_token == access_token,
            r.token_type == token_type,
            r.expires_at == now + expires_in,
            r.valid_at(now),
            final(self).spec_valid(now),
    {
        let c = Credential { access_token, token_type, expires_at: now + expires_in };
        let copy = c.clone();
        self.cached = Some(c);
        copy
    }
}

/// Law: after one caller has stored a refreshed credential, every
/// caller that re-checks the cache before any time up to the stored
/// expiry finds it valid, so the exclusive refresh section is entered
/// to no effect and no duplicate exchange is issued.
pub proof fn lemma_single_refresh_serves_all(cache: CredentialCache, later: i64)
    requires
        cache.spec_cached() is Some,
        later <= cache.spec_cached()->Some_0.expires_at,
    ensures
        cache.spec_valid(later),
{
}

/// The name the standard-alphabet base64 encoding gives to a byte
/// sequence.
pub uninterp spec fn base64_standard(bytes: Seq<u8>) -> Seq<char>;

/// Relies on base64's `STANDARD` engine: `encode` returns the
/// standard-alphabet encoding with padding — four output characters for
/// every three input bytes — and depends on the input bytes alone.
#[verifier::external_body]
fn base64_standard_encode(bytes: &[u8]) -> (r: String)
    ensures
        r@ == base64_standard(bytes@),
        r@.len() == 4 * ((bytes@.len() + 2) / 3),
{
    base64::engine::general_purpose::STANDARD.encode(bytes)
}

/// The value of the `Authorization` header for the client-credentials
/// exchange: `Basic` followed by the base64 encoding of
/// `client_id:client_secret`.
pub fn basic_auth_header(client_id: &str, client_secret: &str) -> (r: String)
    ensures
        r@ == "Basic "@ + base64_standard(encode_utf8(client_id@ + ":"@ + client_secret@)),
{
    let combined = client_id.to_owned().concat(":").concat(client_secret);
    let encoded = base64_standard_encode(combined.as_str().as_bytes());
    "Basic ".to_owned().concat(encoded.as_str())
}

/// The token endpoint for the client-credentials exchange, directly
/// under the gateway's base URL.
pub fn token_endpoint_url(base_url: &str) -> (r: String)
    ensures
        r@ == base_url@ + "oauth2/token"@,
{
    base_url.to_owned().concat("oauth2/token")
}

/// The value of the `Authorization` header for an authenticated
/// gateway call: the credential's token type, a space, and the access
/// token.
pub fn bearer_header(credential: &Credential) -> (r: String)
    ensures
        r@ == credential.token_type@ + " "@ + credential.access_token@,
{
    credential.token_type.clone().concat(" ").concat(credential.access_token.as_str())
}

} // verus!
