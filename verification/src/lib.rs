//! Verified core of a command-line client for a remote issue-tracking
//! service: credential encoding, request construction and outcome
//! classification, JSON payload handling, tabular rendering, the
//! confirmation gate, and the batch executor.

pub mod b64;
pub mod batch;
pub mod check_version;
pub mod confirm;
pub mod group;
pub mod issue;
pub mod json;
pub mod labels;
pub mod license;
pub mod project;
pub mod render;
pub mod request;
pub mod sprint;
pub mod text;
pub mod urls;
pub mod user;

use vstd::prelude::*;
use vstd::string::*;
use vstd::utf8::{decode_utf8, encode_utf8, encode_utf8_decode_utf8};

use crate::b64::{b64_decode, b64_of, encode_base64, lemma_b64_round_trip, lemma_encode_utf8_len};

verus! {

/// Longest principal or secret the credential encoder accepts, in
/// characters; keeps every intermediate buffer well inside `usize`.
pub const CREDENTIAL_LIMIT: usize = 0x100000;

/// The `principal:secret` text that HTTP basic authentication encodes.
pub open spec fn basic_credentials(principal: Seq<char>, secret: Seq<char>) -> Seq<char> {
    principal + seq![':'] + secret
}

/// The base64 authorization token for a principal/secret pair.
pub open spec fn auth_token(principal: Seq<char>, secret: Seq<char>) -> Seq<char> {
    b64_of(encode_utf8(basic_credentials(principal, secret)))
}

/// Index of the first `:` in `s`, or `s.len()` if there is none.
pub open spec fn colon_pos(s: Seq<char>) -> int
    decreases s.len(),
{
    if s.len() == 0 {
        0
    } else if s[0] == ':' {
        0
    } else {
        1 + colon_pos(s.skip(1))
    }
}

/// The principal/secret pair read back from a `principal:secret` text by
/// splitting at the first `:`; `None` if there is no separator.
pub open spec fn split_credentials(s: Seq<char>) -> Option<(Seq<char>, Seq<char>)> {
    if s.contains(':') {
        Some((s.take(colon_pos(s)), s.skip(colon_pos(s) + 1)))
    } else {
        None
    }
}

proof fn lemma_colon_pos_of_join(principal: Seq<char>, secret: Seq<char>)
    requires
        !principal.contains(':'),
    ensures
        colon_pos(basic_credentials(principal, secret)) == principal.len(),
    decreases principal.len(),
{
    let s = basic_credentials(principal, secret);
    if principal.len() == 0 {
        assert(s[0] == ':');
    } else {
        assert(s[0] == principal[0]);
        assert(principal[0] != ':');
        assert(!principal.skip(1).contains(':')) by {
            if principal.skip(1).contains(':') {
                let i = choose|i: int|
                    0 <= i < principal.skip(1).len() && principal.skip(1)[i] == ':';
                assert(principal[i + 1] == ':');
            }
        }
        lemma_colon_pos_of_join(principal.skip(1), secret);
        assert(s.skip(1) =~= basic_credentials(principal.skip(1), secret));
    }
}

/// Law: for every request the engine sends, the attached authorization
/// token decodes — base64, then UTF-8, then a split at the first `:` —
/// back to the principal/secret pair it was built from, provided the
/// principal itself contains no `:` (with a `:` in the principal the pair
/// is not recoverable from `principal:secret` at all).
pub proof fn lemma_auth_token_decodes(principal: Seq<char>, secret: Seq<char>)
    requires
        !principal.contains(':'),
    ensures
        b64_decode(auth_token(principal, secret))
            == Some(encode_utf8(basic_credentials(principal, secret))),
        decode_utf8(encode_utf8(basic_credentials(principal, secret)))
            == basic_credentials(principal, secret),
        split_credentials(basic_credentials(principal, secret)) == Some((principal, secret)),
{
    let joined = basic_credentials(principal, secret);
    lemma_b64_round_trip(encode_utf8(joined));
    encode_utf8_decode_utf8(joined);
    lemma_colon_pos_of_join(principal, secret);
    assert(joined[principal.len() as int] == ':');
    assert(joined.contains(':'));
    assert(joined.take(principal.len() as int) =~= principal);
    assert(joined.skip(principal.len() + 1 as int) =~= secret);
}

/// The credentials every outbound request is authenticated with.
pub struct Global {
    pub domain: String,
    pub user: String,
    pub token: String,
}

/// A source of an HTTP basic authorization token.
pub trait Authorization {
    /// The principal (user name) the token encodes.
    spec fn principal(&self) -> Seq<char>;

    /// The secret (API token) the token encodes.
    spec fn secret(&self) -> Seq<char>;

    /// The base64 token for the `Authorization: Basic` header.
    fn b64auth(&self) -> (r: String)
        requires
            self.principal().len() <= CREDENTIAL_LIMIT,
            self.secret().len() <= CREDENTIAL_LIMIT,
        ensures
            r@ == auth_token(self.principal(), self.secret()),
    ;
}

impl Authorization for Global {
    open spec fn principal(&self) -> Seq<char> {
        self.user@
    }

    open spec fn secret(&self) -> Seq<char> {
        self.token@
    }

    fn b64auth(&self) -> (r: String) {
        let joined = self.user.clone().concat(":").concat(self.token.as_str());
        proof {
            reveal_strlit(":");
            assert(joined@ =~= basic_credentials(self.user@, self.token@));
            lemma_encode_utf8_len(joined@);
        }
        encode_base64(joined.as_str().as_bytes())
    }
}

/// The four HTTP verbs the client issues.
pub enum HttpRequest {
    GET,
    POST,
    PUT,
    DELETE,
}

impl HttpRequest {
    /// True for the verbs that carry a JSON body.
    pub open spec fn spec_has_body(&self) -> bool {
        match self {
            HttpRequest::POST | HttpRequest::PUT => true,
            HttpRequest::GET | HttpRequest::DELETE => false,
        }
    }

    #[verifier::when_used_as_spec(spec_has_body)]
    pub fn has_body(&self) -> (r: bool)
        ensures
            r == self.spec_has_body(),
    {
        match self {
            HttpRequest::POST | HttpRequest::PUT => true,
            HttpRequest::GET | HttpRequest::DELETE => false,
        }
    }
}

} // verus!
