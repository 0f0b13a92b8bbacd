//! The credential encoder and the request engine.

use jira_cli::request::{classify_outcome, make_request, ApiRequest, APIError, TransportOutcome};
use jira_cli::{Authorization, Global, HttpRequest};

fn global() -> Global {
    Global {
        domain: String::from("example.atlassian.net"),
        user: String::from("user"),
        token: String::from("token"),
    }
}

#[test]
fn b64auth_encodes_user_colon_token() {
    assert_eq!(global().b64auth(), "dXNlcjp0b2tlbg==");
}

#[test]
fn b64auth_of_empty_credentials() {
    let g = Global {
        domain: String::new(),
        user: String::new(),
        token: String::new(),
    };
    assert_eq!(g.b64auth(), "Og==");
}

#[test]
fn b64auth_padding_variants() {
    // one, two and zero padding characters
    let one = Global {
        domain: String::new(),
        user: String::from("a"),
        token: String::from("bcd"),
    };
    assert_eq!(one.b64auth(), "YTpiY2Q=");
    let two = Global {
        domain: String::new(),
        user: String::from("ab"),
        token: String::from("c"),
    };
    assert_eq!(two.b64auth(), "YWI6Yw==");
    let zero = Global {
        domain: String::new(),
        user: String::from("ab"),
        token: String::from("cde"),
    };
    assert_eq!(zero.b64auth(), "YWI6Y2Rl");
}

#[test]
fn authorization_token_decodes_back_to_the_credential_pair() {
    let g = Global {
        domain: String::from("example.atlassian.net"),
        user: String::from("alice@example.com"),
        token: String::from("s3cr3t-t0ken"),
    };
    let token = g.b64auth();
    let decoded =
        base64::Engine::decode(&base64::engine::general_purpose::STANDARD, token).unwrap();
    let decoded = String::from_utf8(decoded).unwrap();
    assert_eq!(decoded, "alice@example.com:s3cr3t-t0ken");
    let (principal, secret) = decoded.split_once(':').unwrap();
    assert_eq!(principal, g.user);
    assert_eq!(secret, g.token);
}

#[test]
fn prepared_request_has_exactly_one_authorization_header() {
    let req = ApiRequest {
        method: HttpRequest::GET,
        url: String::from("https://example.atlassian.net/rest/api/3/issue/AB-1"),
        body: None,
    };
    let prepared = make_request(req, &global());
    let auth: Vec<&(String, String)> = prepared
        .headers
        .iter()
        .filter(|h| h.0 == "Authorization")
        .collect();
    assert_eq!(auth.len(), 1);
    assert_eq!(auth[0].1, "Basic dXNlcjp0b2tlbg==");
    assert!(prepared
        .headers
        .iter()
        .any(|h| h.0 == "Accept" && h.1 == "application/json"));
    assert!(prepared.body.is_none());
}

#[test]
fn prepared_request_serializes_body_and_sets_content_type() {
    let payload = jira_cli::json::obj1("accountId", jira_cli::json::text("null"));
    let req = ApiRequest {
        method: HttpRequest::PUT,
        url: String::from("https://example.atlassian.net/rest/api/3/issue/AB-1/assignee"),
        body: Some(payload),
    };
    let prepared = make_request(req, &global());
    assert_eq!(prepared.headers.len(), 3);
    assert_eq!(prepared.headers[2].0, "Content-Type");
    assert_eq!(prepared.headers[2].1, "application/json");
    assert_eq!(prepared.body.as_deref(), Some("{\"accountId\":\"null\"}"));
}

#[test]
fn classify_keeps_the_numeric_status() {
    match classify_outcome(TransportOutcome::Delivered(404, String::from("missing"))) {
        Err(APIError::Protocol(status, body)) => {
            assert_eq!(status, 404);
            assert_eq!(body, "missing");
        }
        _ => panic!("a 404 must become a protocol error"),
    }
    match classify_outcome(TransportOutcome::Delivered(500, String::new())) {
        Err(APIError::Protocol(status, _)) => assert_eq!(status, 500),
        _ => panic!("a 500 must become a protocol error"),
    }
}

#[test]
fn classify_accepts_every_2xx() {
    assert_eq!(
        classify_outcome(TransportOutcome::Delivered(200, String::from("body"))).unwrap(),
        "body"
    );
    assert_eq!(
        classify_outcome(TransportOutcome::Delivered(204, String::new())).unwrap(),
        ""
    );
    assert_eq!(
        classify_outcome(TransportOutcome::Delivered(299, String::from("x"))).unwrap(),
        "x"
    );
}

#[test]
fn classify_maps_transport_failures() {
    match classify_outcome(TransportOutcome::Failed(String::from("dns failure"))) {
        Err(APIError::Transport(m)) => assert_eq!(m, "dns failure"),
        _ => panic!("a failed exchange must become a transport error"),
    }
}

#[test]
fn describe_names_each_failure_kind() {
    assert_eq!(
        APIError::Construction(String::from("x")).describe(),
        "construction error: x"
    );
    assert_eq!(
        APIError::Transport(String::from("y")).describe(),
        "transport error: y"
    );
    assert_eq!(
        APIError::Protocol(404, String::from("z")).describe(),
        "protocol error (status 404): z"
    );
    assert_eq!(
        APIError::Parse(String::from("w")).describe(),
        "parse error: w"
    );
}
