//! The renderer, the batch executor and the confirmation gate.

use jira_cli::batch::run_batch;
use jira_cli::confirm::{parse_confirmation, GateOutcome};
use jira_cli::render::{render, CellAlignment};

fn strings(items: &[&str]) -> Vec<String> {
    items.iter().map(|s| String::from(*s)).collect()
}

#[test]
fn renders_one_line_per_row_plus_header() {
    let header = strings(&["Key", "Name"]);
    let rows = vec![
        strings(&["AB", "Apple"]),
        strings(&["CD", "Cherry"]),
        strings(&["EF", "Elder"]),
    ];
    let lines = render(&header, &Vec::new(), &rows).expect("well-shaped rows must render");
    assert_eq!(lines.len(), 4);
    assert_eq!(lines[0], "Key | Name  ");
    assert_eq!(lines[1], "AB  | Apple ");
    assert_eq!(lines[2], "CD  | Cherry");
    assert_eq!(lines[3], "EF  | Elder ");
}

#[test]
fn rendering_fails_fast_on_a_mismatched_row() {
    let header = strings(&["A", "B"]);
    let rows = vec![strings(&["1", "2"]), strings(&["only one"])];
    assert!(render(&header, &Vec::new(), &rows).is_none());
}

#[test]
fn renders_an_empty_table_as_its_header() {
    let header = strings(&["Name", "Description", "Released", "Archived", "Id"]);
    let rows: Vec<Vec<String>> = Vec::new();
    let lines = render(&header, &Vec::new(), &rows).expect("an empty table must render");
    assert_eq!(lines.len(), 1);
    assert_eq!(lines[0], "Name | Description | Released | Archived | Id");
}

#[test]
fn aligns_cells_as_asked() {
    let header = strings(&["L", "C", "R"]);
    let alignment = vec![(1usize, CellAlignment::Center), (2usize, CellAlignment::Right)];
    let rows = vec![strings(&["a", "b", "c"]), strings(&["wide", "wide", "wide"])];
    let lines = render(&header, &alignment, &rows).unwrap();
    assert_eq!(lines[0], "L    |  C   |    R");
    assert_eq!(lines[1], "a    |  b   |    c");
    assert_eq!(lines[2], "wide | wide | wide");
}

#[test]
fn batch_invokes_the_operation_once_per_target() {
    let targets = strings(&["AB-1", "AB-2", "AB-3"]);
    let results = run_batch(&targets, |key: &String| format!("seen {key}"));
    assert_eq!(results.len(), 3);
    assert_eq!(results[0], "seen AB-1");
    assert_eq!(results[1], "seen AB-2");
    assert_eq!(results[2], "seen AB-3");
}

#[test]
fn one_failing_target_does_not_stop_the_others() {
    let targets = strings(&["good", "bad", "good"]);
    let results = run_batch(&targets, |key: &String| {
        if key == "bad" {
            Err(format!("{key} failed"))
        } else {
            Ok(format!("{key} done"))
        }
    });
    assert_eq!(results.len(), 3);
    assert_eq!(results[0], Ok(String::from("good done")));
    assert_eq!(results[1], Err(String::from("bad failed")));
    assert_eq!(results[2], Ok(String::from("good done")));
}

#[test]
fn affirmative_answers_confirm() {
    assert_eq!(parse_confirmation("y"), Some(true));
    assert_eq!(parse_confirmation("Y"), Some(true));
    assert_eq!(parse_confirmation("yes"), Some(true));
    assert_eq!(parse_confirmation("Yes"), Some(true));
    assert_eq!(parse_confirmation("YES"), Some(true));
}

#[test]
fn negative_answers_decline() {
    assert_eq!(parse_confirmation("n"), Some(false));
    assert_eq!(parse_confirmation("N"), Some(false));
    assert_eq!(parse_confirmation("no"), Some(false));
    assert_eq!(parse_confirmation("No"), Some(false));
    assert_eq!(parse_confirmation("NO"), Some(false));
}

#[test]
fn other_answers_ask_again() {
    assert_eq!(parse_confirmation(""), None);
    assert_eq!(parse_confirmation("maybe"), None);
    assert_eq!(parse_confirmation("yess"), None);
}

#[test]
fn a_declined_gate_holds_no_request() {
    let global = jira_cli::Global {
        domain: String::from("example.atlassian.net"),
        user: String::from("u"),
        token: String::from("t"),
    };
    let op = jira_cli::group::delete(&global, "g1");
    match op.resolve(false) {
        GateOutcome::Declined(message) => assert_eq!(message, "Group id g1 not deleted."),
        GateOutcome::Proceed(_, _, _) => panic!("a declined gate must not yield a request"),
    }
}

#[test]
fn a_confirmed_gate_yields_the_delete_request() {
    let global = jira_cli::Global {
        domain: String::from("example.atlassian.net"),
        user: String::from("u"),
        token: String::from("t"),
    };
    let op = jira_cli::group::delete(&global, "g1");
    match op.resolve(true) {
        GateOutcome::Proceed(request, success, _) => {
            assert!(matches!(request.method, jira_cli::HttpRequest::DELETE));
            assert_eq!(
                request.url,
                "https://example.atlassian.net/rest/api/3/group?groupId=g1"
            );
            assert_eq!(success, "The group id g1 has been deleted.");
        }
        GateOutcome::Declined(_) => panic!("a confirmed gate must yield the request"),
    }
}
