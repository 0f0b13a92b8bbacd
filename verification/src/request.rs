//! The request engine: building an authenticated request out of a verb,
//! a URL and an optional JSON body, and classifying what came back from
//! the transport into the typed outcome the callers consume.

use vstd::prelude::*;
use vstd::string::*;

use crate::json::{int_chars, ser, to_text, Json};
use crate::{auth_token, Authorization, Global, HttpRequest, CREDENTIAL_LIMIT};

verus! {

/// One outbound request: a verb, a fully composed URL, and the JSON body
/// for the verbs that carry one.
pub struct ApiRequest {
    pub method: HttpRequest,
    pub url: String,
    pub body: Option<Json>,
}

impl ApiRequest {
    /// A body travels only on the verbs that carry one.
    pub open spec fn well_formed(&self) -> bool {
        self.body is Some ==> self.method.spec_has_body()
    }
}

/// A request made concrete for the transport: the verb, the URL, every
/// header, and the serialized body text.
pub struct PreparedRequest {
    pub method: HttpRequest,
    pub url: String,
    pub headers: Vec<(String, String)>,
    pub body: Option<String>,
}

/// The value of the `Authorization` header for a principal/secret pair.
pub open spec fn auth_header_value(principal: Seq<char>, secret: Seq<char>) -> Seq<char> {
    seq!['B', 'a', 's', 'i', 'c', ' '] + auth_token(principal, secret)
}

/// What building a request promises: the verb and URL are kept; there
/// is exactly one `Authorization` header and it carries the basic token;
/// the `Accept` header asks for JSON; the body text is exactly the
/// serialization of the request body, and a `Content-Type` header rides
/// along with it.
pub open spec fn prepared_for(
    r: PreparedRequest,
    req: ApiRequest,
    principal: Seq<char>,
    secret: Seq<char>,
) -> bool {
    &&& r.method == req.method
    &&& r.url@ == req.url@
    &&& r.headers@.len() == if req.body is Some {
        3int
    } else {
        2int
    }
    &&& r.headers@[0].0@ == "Accept"@ && r.headers@[0].1@ == "application/json"@
    &&& r.headers@[1].0@ == "Authorization"@ && r.headers@[1].1@ == auth_header_value(
        principal,
        secret,
    )
    &&& (forall|k: int|
        0 <= k < r.headers@.len() ==> ((#[trigger] r.headers@[k].0@) == "Authorization"@ <==> k
            == 1))
    &&& match req.body {
        Some(b) => r.body matches Some(text) && text@ == ser(b@) && r.headers@[2].0@
            == "Content-Type"@ && r.headers@[2].1@ == "application/json"@,
        None => r.body is None,
    }
}

/// Law: the one `Authorization` header every prepared request carries
/// decodes back to the credential pair it was built from — after the
/// `Basic ` marker, the token base64-decodes to the UTF-8 bytes of
/// `principal:secret`, and splitting that text at its first `:` yields
/// exactly the principal and the secret, provided the principal itself
/// contains no `:` (with one, no encoding of the pair into
/// `principal:secret` is recoverable).
pub proof fn lemma_authorization_header_decodes(principal: Seq<char>, secret: Seq<char>)
    requires
        !principal.contains(':'),
    ensures
        auth_header_value(principal, secret).skip(6) == auth_token(principal, secret),
        crate::b64::b64_decode(auth_token(principal, secret)) == Some(
            vstd::utf8::encode_utf8(crate::basic_credentials(principal, secret)),
        ),
        vstd::utf8::decode_utf8(
            vstd::utf8::encode_utf8(crate::basic_credentials(principal, secret)),
        ) == crate::basic_credentials(principal, secret),
        crate::split_credentials(crate::basic_credentials(principal, secret)) == Some(
            (principal, secret),
        ),
{
    crate::lemma_auth_token_decodes(principal, secret);
    assert(auth_header_value(principal, secret).skip(6) =~= auth_token(principal, secret));
}

/// Builds the concrete request for any authorization source: attaches
/// the `Accept` header, exactly one `Authorization` header, and — where a
/// body is present — its serialization and the `Content-Type` header.
pub fn make_request<A: Authorization>(req: ApiRequest, b64auth: &A) -> (r: PreparedRequest)
    requires
        b64auth.principal().len() <= CREDENTIAL_LIMIT,
        b64auth.secret().len() <= CREDENTIAL_LIMIT,
    ensures
        prepared_for(r, req, b64auth.principal(), b64auth.secret()),
{
    let token = b64auth.b64auth();
    let mut auth_value = String::from_str("Basic ");
    auth_value.append(token.as_str());
    proof {
        reveal_strlit("Basic ");
        assert(auth_value@ =~= auth_header_value(b64auth.principal(), b64auth.secret()));
        reveal_strlit("Accept");
        reveal_strlit("Authorization");
        reveal_strlit("Content-Type");
        assert("Accept"@.len() == 6);
        assert("Authorization"@.len() == 13);
        assert("Content-Type"@.len() == 12);
        assert("Accept"@ != "Authorization"@);
        assert("Content-Type"@ != "Authorization"@);
    }
    let mut headers: Vec<(String, String)> = Vec::new();
    headers.push((String::from_str("Accept"), String::from_str("application/json")));
    headers.push((String::from_str("Authorization"), auth_value));
    let ApiRequest { method, url, body } = req;
    let body_text: Option<String> = match &body {
        Some(b) => {
            headers.push((String::from_str("Content-Type"), String::from_str("application/json")));
            Some(to_text(b))
        },
        None => None,
    };
    PreparedRequest { method, url, headers, body: body_text }
}

/// Builds the concrete request authenticated with the process-wide
/// credentials, as every endpoint does.
pub fn request(req: ApiRequest, global: &Global) -> (r: PreparedRequest)
    requires
        global.user@.len() <= CREDENTIAL_LIMIT,
        global.token@.len() <= CREDENTIAL_LIMIT,
    ensures
        prepared_for(r, req, global.user@, global.token@),
{
    make_request(req, global)
}

/// One single-target operation, fully planned: the request to issue, the
/// report to print when it succeeds, and the prefix of the diagnostic to
/// print (ahead of the failure's own text) when it does not.
pub struct OperationPlan {
    pub request: ApiRequest,
    pub success_message: String,
    pub error_prefix: String,
}

/// The failure taxonomy: a request that could not be built, a network
/// exchange that never completed, a completed exchange the service
/// rejected (the numeric status is retained), and a response body that
/// could not be understood.
#[derive(Debug)]
pub enum APIError {
    Construction(String),
    Transport(String),
    Protocol(u16, String),
    Parse(String),
}

impl APIError {
    /// A short diagnostic text for each failure kind; a protocol failure
    /// names its numeric status.
    pub fn describe(&self) -> (r: String)
        ensures
            r@ == match self {
                APIError::Construction(m) => "construction error: "@ + m@,
                APIError::Transport(m) => "transport error: "@ + m@,
                APIError::Protocol(status, m) => "protocol error (status "@ + int_chars(
                    status as int,
                ) + "): "@ + m@,
                APIError::Parse(m) => "parse error: "@ + m@,
            },
    {
        match self {
            APIError::Construction(m) => {
                let mut s = String::from_str("construction error: ");
                s.append(m.as_str());
                s
            },
            APIError::Transport(m) => {
                let mut s = String::from_str("transport error: ");
                s.append(m.as_str());
                s
            },
            APIError::Protocol(status, m) => {
                let status_text = crate::json::i64_string(*status as i64);
                let mut s = String::from_str("protocol error (status ");
                s.append(status_text.as_str());
                s.append("): ");
                s.append(m.as_str());
                s
            },
            APIError::Parse(m) => {
                let mut s = String::from_str("parse error: ");
                s.append(m.as_str());
                s
            },
        }
    }
}

/// What the transport observed for one request: either a completed HTTP
/// exchange with its status and body text, or a failure to complete the
/// exchange at all, with the diagnostic text.
pub enum TransportOutcome {
    Delivered(u16, String),
    Failed(String),
}

/// A status in the 2xx range is a success.
pub open spec fn is_success_status(status: u16) -> bool {
    200 <= status < 300
}

/// Classifies one completed or failed exchange, exactly one terminal
/// state per call.
///
/// Law: every delivered non-2xx response becomes a `Protocol` error that
/// carries the numeric status unchanged, together with the response
/// body; every 2xx response is a success carrying the raw body; every
/// transport failure becomes a `Transport` error carrying its
/// diagnostic.
pub fn classify_outcome(outcome: TransportOutcome) -> (r: Result<String, APIError>)
    ensures
        match outcome {
            TransportOutcome::Delivered(status, body) => if is_success_status(status) {
                r == Ok::<String, APIError>(body)
            } else {
                r == Err::<String, APIError>(APIError::Protocol(status, body))
            },
            TransportOutcome::Failed(message) => r == Err::<String, APIError>(
                APIError::Transport(message),
            ),
        },
{
    match outcome {
        TransportOutcome::Delivered(status, body) => {
            if 200 <= status && status < 300 {
                Ok(body)
            } else {
                Err(APIError::Protocol(status, body))
            }
        },
        TransportOutcome::Failed(message) => Err(APIError::Transport(message)),
    }
}

} // verus!
