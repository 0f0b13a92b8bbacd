//! End-to-end flows over a scripted transport: a batch with one failing
//! target, a declined deletion, and an empty listing.

use jira_cli::batch::run_batch;
use jira_cli::confirm::GateOutcome;
use jira_cli::json::parse_json;
use jira_cli::render::render;
use jira_cli::request::{classify_outcome, APIError, TransportOutcome};
use jira_cli::{Global, HttpRequest};

fn global() -> Global {
    Global {
        domain: String::from("example.atlassian.net"),
        user: String::from("u"),
        token: String::from("t"),
    }
}

/// Batch-adds the label `blocked` to two issues while the remote rejects
/// the second with a 404: the first still reports success, the second
/// reports the protocol failure with its status.
#[test]
fn batch_add_label_with_one_missing_issue() {
    let global = global();
    let targets = vec![String::from("AB-1"), String::from("AB-2")];
    let results = run_batch(&targets, |issue_key: &String| {
        let plan = jira_cli::issue::add_label(&global, issue_key.as_str(), "blocked");
        // scripted transport: AB-2 does not exist on the remote side
        let outcome = if issue_key == "AB-2" {
            TransportOutcome::Delivered(404, String::from("Issue does not exist"))
        } else {
            TransportOutcome::Delivered(204, String::new())
        };
        match classify_outcome(outcome) {
            Ok(_) => Ok(plan.success_message),
            Err(e) => Err(format!("{}{}", plan.error_prefix, e.describe())),
        }
    });
    assert_eq!(results.len(), 2);
    assert_eq!(results[0], Ok(String::from("Label blocked added to issue AB-1")));
    match &results[1] {
        Err(diagnostic) => {
            assert!(diagnostic.starts_with("Impossible to add label blocked to issue AB-2"));
            assert!(diagnostic.contains("protocol error"));
            assert!(diagnostic.contains("404"));
        }
        Ok(_) => panic!("the second target must fail"),
    }
}

/// Declining the confirmation for a group deletion issues no DELETE at
/// all and reports the decline.
#[test]
fn declined_group_deletion_sends_nothing() {
    let op = jira_cli::group::delete(&global(), "g1");
    assert_eq!(op.prompt, "Are you sure you want to delete the group id: g1?");
    let mut delete_requests_issued = 0;
    match op.resolve(false) {
        GateOutcome::Proceed(_, _, _) => {
            delete_requests_issued += 1;
        }
        GateOutcome::Declined(message) => {
            assert_eq!(message, "Group id g1 not deleted.");
        }
    }
    assert_eq!(delete_requests_issued, 0);
}

/// Listing versions over a remote that returns an empty array renders a
/// zero-row table with the header line intact.
#[test]
fn empty_version_listing_renders_a_header_only_table() {
    let global = global();
    let plan = jira_cli::project::list_versions(&global, "AB");
    assert!(matches!(plan.request.method, HttpRequest::GET));
    assert_eq!(
        plan.request.url,
        "https://example.atlassian.net/rest/api/3/project/AB/versions"
    );
    // scripted transport: the remote answers 200 with an empty array
    let body_text = classify_outcome(TransportOutcome::Delivered(200, String::from("[]")))
        .expect("a 200 is a success");
    let body = parse_json(&body_text).expect("the body is JSON");
    let rows = jira_cli::project::list_versions_rows(&body).expect("an empty list is valid");
    let rows = jira_cli::project::sort_rows_by_first(rows);
    let header: Vec<String> = ["Name", "Description", "Released", "Archived", "Id"]
        .iter()
        .map(|s| String::from(*s))
        .collect();
    let lines = render(&header, &Vec::new(), &rows).expect("the table must render");
    assert_eq!(lines.len(), 1);
    assert_eq!(lines[0], "Name | Description | Released | Archived | Id");
}

/// A transport failure surfaces as a transport diagnostic, untouched.
#[test]
fn transport_failure_reaches_the_caller() {
    let plan = jira_cli::issue::list_priorities(&global());
    let outcome = TransportOutcome::Failed(String::from("connection refused"));
    match classify_outcome(outcome) {
        Err(APIError::Transport(m)) => {
            assert_eq!(m, "connection refused");
            assert_eq!(plan.error_prefix, "Impossible to get priorities: ");
        }
        _ => panic!("a failed exchange is a transport error"),
    }
}
