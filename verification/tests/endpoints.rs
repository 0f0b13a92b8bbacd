//! The planned requests and response readers of the endpoint modules.

use jira_cli::check_version::print_version_info;
use jira_cli::json::{parse_json, to_text};
use jira_cli::urls::{generate_url, Resource};
use jira_cli::{Global, HttpRequest};

fn global() -> Global {
    Global {
        domain: String::from("example.atlassian.net"),
        user: String::from("u"),
        token: String::from("t"),
    }
}

#[test]
fn composes_urls_from_the_resource_table() {
    assert_eq!(
        generate_url("example.atlassian.net", Resource::Issue, Some("/AB-1")),
        "https://example.atlassian.net/rest/api/3/issue/AB-1"
    );
    assert_eq!(
        generate_url("example.atlassian.net", Resource::Priority, None),
        "https://example.atlassian.net/rest/api/3/priority"
    );
    assert_eq!(
        generate_url("d", Resource::IssueLinkTypes, None),
        "https://d/rest/api/3/issueLinkType"
    );
    assert_eq!(
        generate_url("d", Resource::Sprint, Some("/7")),
        "https://d/rest/agile/1.0/sprint/7"
    );
}

#[test]
fn plans_the_add_label_request() {
    let plan = jira_cli::issue::add_label(&global(), "AB-1", "blocked");
    assert!(matches!(plan.request.method, HttpRequest::PUT));
    assert_eq!(
        plan.request.url,
        "https://example.atlassian.net/rest/api/3/issue/AB-1"
    );
    assert_eq!(
        to_text(&plan.request.body.unwrap()),
        "{\"update\":{\"labels\":[{\"add\":\"blocked\"}]}}"
    );
    assert_eq!(plan.success_message, "Label blocked added to issue AB-1");
    assert_eq!(
        plan.error_prefix,
        "Impossible to add label blocked to issue AB-1 "
    );
}

#[test]
fn plans_the_issue_creation_payload() {
    let plan = jira_cli::issue::create(&global(), "acc1", "AB", "Task", "A summary", "A text", "");
    assert_eq!(
        to_text(&plan.request.body.unwrap()),
        "{\"fields\":{\"project\":{\"key\":\"AB\"},\"summary\":\"A summary\",\
         \"description\":{\"type\":\"doc\",\"version\":1,\"content\":[{\"type\":\"paragraph\",\
         \"content\":[{\"type\":\"text\",\"text\":\"A text\"}]}]},\
         \"issuetype\":{\"name\":\"Task\"},\"reporter\":{\"id\":\"acc1\"}}}"
    );
    let with_priority =
        jira_cli::issue::create(&global(), "acc1", "AB", "Task", "S", "D", "High");
    let body = to_text(&with_priority.request.body.unwrap());
    assert!(body.ends_with("\"priority\":{\"name\":\"High\"}}}"));
}

#[test]
fn plans_the_delete_issue_request() {
    let plan = jira_cli::issue::delete(&global(), "AB-9", true);
    assert!(matches!(plan.request.method, HttpRequest::DELETE));
    assert_eq!(
        plan.request.url,
        "https://example.atlassian.net/rest/api/3/issue/AB-9?deleteSubtasks=true"
    );
    assert_eq!(plan.success_message, "Issue AB-9 deleted with its subtasks");
    let without = jira_cli::issue::delete(&global(), "AB-9", false);
    assert_eq!(without.success_message, "Issue AB-9 deleted");
}

#[test]
fn reads_transition_rows() {
    let body = parse_json(
        "{\"transitions\":[{\"id\":\"31\",\"name\":\"Done\",\"to\":{\"name\":\"Closed\"}},\
         {\"id\":\"11\",\"name\":\"Start\"}]}",
    )
    .unwrap();
    let rows = jira_cli::issue::get_transitions_rows(&body).unwrap();
    assert_eq!(rows.len(), 2);
    assert_eq!(rows[0], vec!["31", "Done", "Closed"]);
    assert_eq!(rows[1], vec!["11", "Start", ""]);
}

#[test]
fn transition_rows_demand_an_id() {
    let body = parse_json("{\"transitions\":[{\"name\":\"Done\"}]}").unwrap();
    assert!(jira_cli::issue::get_transitions_rows(&body).is_err());
}

#[test]
fn reads_the_created_issue_key() {
    let body = parse_json("{\"key\":\"AB-7\"}").unwrap();
    assert_eq!(
        jira_cli::issue::create_report(&body).unwrap(),
        "Issue created: AB-7"
    );
    let empty = parse_json("{}").unwrap();
    assert!(jira_cli::issue::create_report(&empty).is_err());
}

#[test]
fn reads_priority_names() {
    let body = parse_json("[{\"name\":\"High\"},{\"name\":\"Low\"}]").unwrap();
    let names = jira_cli::issue::names_of_array(&body).unwrap();
    assert_eq!(names, vec!["High", "Low"]);
}

#[test]
fn reads_the_vote_report() {
    let none = parse_json("{\"hasVoted\":false}").unwrap();
    assert!(matches!(
        jira_cli::issue::list_votes_report(&none).unwrap(),
        jira_cli::issue::VotesReport::NoVotes
    ));
    let some = parse_json(
        "{\"hasVoted\":true,\"votes\":2,\"voters\":[{\"accountId\":\"a1\",\
         \"displayName\":\"Ada\"},{\"accountId\":\"a2\",\"name\":\"bob\"}]}",
    )
    .unwrap();
    match jira_cli::issue::list_votes_report(&some).unwrap() {
        jira_cli::issue::VotesReport::Voters(count, rows) => {
            assert_eq!(count, 2);
            assert_eq!(rows[0], vec!["", "a1", "Ada"]);
            assert_eq!(rows[1], vec!["bob", "a2", ""]);
        }
        jira_cli::issue::VotesReport::NoVotes => panic!("votes were present"),
    }
}

#[test]
fn reads_group_rows_under_both_keys() {
    let found =
        parse_json("{\"groups\":[{\"name\":\"dev\",\"groupId\":\"g1\"}]}").unwrap();
    let rows = jira_cli::group::group_rows(&found, "groups").unwrap();
    assert_eq!(rows, vec![vec!["dev", "g1"]]);
    let listed =
        parse_json("{\"values\":[{\"name\":\"ops\",\"groupId\":\"g2\"}]}").unwrap();
    let rows = jira_cli::group::group_rows(&listed, "values").unwrap();
    assert_eq!(rows, vec![vec!["ops", "g2"]]);
}

#[test]
fn reads_the_account_lookup() {
    let found = parse_json(
        "{\"users\":{\"users\":[{\"accountId\":\"abc123\"},{\"accountId\":\"zzz\"}]}}",
    )
    .unwrap();
    match jira_cli::user::account_id_report(&found).unwrap() {
        jira_cli::user::AccountLookup::Found(id) => assert_eq!(id, "abc123"),
        jira_cli::user::AccountLookup::NotFound => panic!("the user exists"),
    }
    let missing = parse_json("{\"users\":{\"users\":[]}}").unwrap();
    assert!(matches!(
        jira_cli::user::account_id_report(&missing).unwrap(),
        jira_cli::user::AccountLookup::NotFound
    ));
}

#[test]
fn reads_the_numeric_project_id() {
    let body = parse_json("{\"id\":\"10042\"}").unwrap();
    assert_eq!(jira_cli::project::project_id(&body).unwrap(), 10042);
    let bad = parse_json("{\"id\":\"ten\"}").unwrap();
    assert!(jira_cli::project::project_id(&bad).is_err());
}

#[test]
fn reads_feature_rows() {
    let body = parse_json(
        "{\"features\":[{\"feature\":\"boards\",\"localisedDescription\":\"Boards\",\
         \"state\":\"ENABLED\",\"toggleLocked\":false}]}",
    )
    .unwrap();
    let rows = jira_cli::project::list_features_rows(&body).unwrap();
    assert_eq!(rows, vec![vec!["boards", "Boards", "ENABLED", "false"]]);
}

#[test]
fn reads_a_projects_page_and_its_next_link() {
    let body = parse_json(
        "{\"next_page\":\"https://example/next\",\"values\":[{\"key\":\"AB\",\"name\":\"Apps\",\
         \"description\":\"d\",\"projectTypeKey\":\"software\"}]}",
    )
    .unwrap();
    let page = jira_cli::project::parse_projects_page(&body).unwrap();
    assert_eq!(page.rows, vec![vec!["AB", "Apps", "d", "software"]]);
    assert_eq!(page.next_page.as_deref(), Some("https://example/next"));
    let last = parse_json("{\"values\":[]}").unwrap();
    let page = jira_cli::project::parse_projects_page(&last).unwrap();
    assert!(page.rows.is_empty());
    assert!(page.next_page.is_none());
    let broken = parse_json("{\"values\":[{\"key\":\"AB\"}]}").unwrap();
    assert!(jira_cli::project::parse_projects_page(&broken).is_err());
}

#[test]
fn sorts_version_rows_by_name_and_keeps_duplicates() {
    let body = parse_json(
        "[{\"id\":\"3\",\"name\":\"2.0\",\"released\":false,\"archived\":false},\
         {\"id\":\"1\",\"name\":\"1.0\",\"released\":true,\"archived\":false,\
         \"description\":\"first\"},\
         {\"id\":\"2\",\"name\":\"1.0\",\"released\":false,\"archived\":true}]",
    )
    .unwrap();
    let rows = jira_cli::project::list_versions_rows(&body).unwrap();
    let sorted = jira_cli::project::sort_rows_by_first(rows);
    assert_eq!(sorted.len(), 3);
    assert_eq!(sorted[0][0], "1.0");
    assert_eq!(sorted[1][0], "1.0");
    assert_eq!(sorted[2], vec!["2.0", "", "false", "false", "3"]);
    assert_eq!(sorted[0], vec!["1.0", "first", "true", "false", "1"]);
    assert_eq!(sorted[1], vec!["1.0", "", "false", "true", "2"]);
}

#[test]
fn rejects_an_out_of_range_project_id_before_any_request() {
    match jira_cli::project::new_version(&global(), "99999999999", "1.0") {
        Err(jira_cli::request::APIError::Construction(_)) => {}
        _ => panic!("an oversized project id is a construction error"),
    }
    let plan = jira_cli::project::new_version(&global(), "10042", "1.0").unwrap();
    assert_eq!(
        to_text(&plan.request.body.unwrap()),
        "{\"name\":\"1.0\",\"projectId\":10042}"
    );
}

#[test]
fn reads_sprint_rows_and_the_creation_report() {
    let created = parse_json("{\"id\":7,\"name\":\"Sprint A\"}").unwrap();
    assert_eq!(
        jira_cli::sprint::create_report(&created).unwrap(),
        "Sprint \"Sprint A\" created with id: 7"
    );
    let listing = parse_json(
        "[{\"id\":\"7\",\"name\":\"Sprint A\",\"state\":\"active\",\"goal\":\"ship\"}]",
    )
    .unwrap();
    let rows = jira_cli::sprint::get_rows(&listing).unwrap();
    assert_eq!(rows, vec![vec!["7", "Sprint A", "active", "ship"]]);
}

#[test]
fn reads_label_values_as_json_lines() {
    let body = parse_json("{\"values\":[\"alpha\",\"beta\"]}").unwrap();
    let lines = jira_cli::labels::list_values(&body).unwrap();
    assert_eq!(lines, vec!["\"alpha\"", "\"beta\""]);
}

#[test]
fn reads_the_group_membership_report() {
    let none = parse_json("{}").unwrap();
    assert!(matches!(
        jira_cli::user::get_user_groups_report(&none),
        jira_cli::user::GroupsReport::NoGroups
    ));
    let some = parse_json("{\"name\":[\"dev\",\"ops\"]}").unwrap();
    match jira_cli::user::get_user_groups_report(&some) {
        jira_cli::user::GroupsReport::Groups(lines) => {
            assert_eq!(lines, vec!["\"dev\"", "\"ops\""]);
        }
        jira_cli::user::GroupsReport::NoGroups => panic!("groups were present"),
    }
}

#[test]
fn an_explicit_null_member_list_reports_no_users() {
    let absent = parse_json("{}").unwrap();
    assert!(matches!(
        jira_cli::group::list_users_report(&absent).unwrap(),
        jira_cli::group::UsersReport::NoUsers
    ));
    let null = parse_json("{\"values\":null}").unwrap();
    assert!(matches!(
        jira_cli::group::list_users_report(&null).unwrap(),
        jira_cli::group::UsersReport::NoUsers
    ));
    let listed = parse_json(
        "{\"values\":[{\"accountId\":\"a1\",\"displayName\":\"Ada\"}]}",
    )
    .unwrap();
    match jira_cli::group::list_users_report(&listed).unwrap() {
        jira_cli::group::UsersReport::Users(rows) => {
            assert_eq!(rows, vec![vec!["", "a1", "Ada"]]);
        }
        jira_cli::group::UsersReport::NoUsers => panic!("members were present"),
    }
}

#[test]
fn a_null_error_list_reports_the_created_link_type() {
    let body = parse_json(
        "{\"errorMessages\":null,\"name\":\"Blocks\",\"id\":\"10\"}",
    )
    .unwrap();
    assert_eq!(
        jira_cli::issue::create_link_type_report(&body).unwrap(),
        "New link type Blocks (id: 10 ) created"
    );
    let errs = parse_json("{\"errorMessages\":[\"name in use\"]}").unwrap();
    assert_eq!(
        jira_cli::issue::create_link_type_report(&errs).unwrap(),
        "name in use"
    );
}

#[test]
fn the_feature_switch_diagnostic_names_the_project() {
    let plan = jira_cli::project::set_feature_state(&global(), "AB", "boards", "ENABLED");
    assert_eq!(plan.success_message, "Feature boards set to ENABLED on project AB");
    assert_eq!(
        plan.error_prefix,
        "Impossible to set feature boards to ENABLED on project AB: "
    );
}

#[test]
fn a_missing_release_tag_keeps_the_parse_message() {
    let missing = parse_json("{}").unwrap();
    match jira_cli::check_version::extract_version_from_response(&missing) {
        Err(jira_cli::request::APIError::Parse(m)) => {
            assert_eq!(m, "Failed to parse version from JSON");
        }
        _ => panic!("a missing tag is a parse error"),
    }
}

#[test]
fn compares_versions() {
    assert_eq!(
        print_version_info("1.2.3", "1.2.3"),
        "You are using the latest version."
    );
    assert_eq!(
        print_version_info("1.2.3", "1.3.0"),
        "You are using an outdated version. The latest version is 1.3.0"
    );
    assert_eq!(
        print_version_info("2.0.0", "1.3.0"),
        "You are using an unreleased version. The latest version is 1.3.0"
    );
}

#[test]
fn strips_the_release_tag_prefix() {
    let body = parse_json("{\"tag_name\":\"v1.4.0\"}").unwrap();
    assert_eq!(
        jira_cli::check_version::extract_version_from_response(&body).unwrap(),
        "1.4.0"
    );
    let bare = parse_json("{\"tag_name\":\"1.4.0\"}").unwrap();
    assert_eq!(
        jira_cli::check_version::extract_version_from_response(&bare).unwrap(),
        "1.4.0"
    );
}

#[test]
fn the_license_report_opens_with_name_and_description() {
    let text = jira_cli::license::logic_commands("jira_cli", "JIRA personal assistant");
    assert!(text.starts_with("jira_cli\nJIRA personal assistant\n\nCopyright (c) 2022, sycured"));
    assert!(text.ends_with("https://www.gnu.org/licenses/old-licenses/gpl-2.0.txt"));
}

#[test]
fn the_release_feed_url_is_fixed() {
    assert_eq!(
        jira_cli::check_version::get_api_url(),
        "https://api.github.com/repos/sycured/jira_cli/releases/latest"
    );
}
