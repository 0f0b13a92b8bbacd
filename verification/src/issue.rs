//! Issue operations: labels, fix versions, votes, assignment, creation,
//! deletion, transitions and link types — each as a fully planned
//! request, plus the verified readers of the responses the listing
//! operations consume.

use vstd::prelude::*;

use crate::json::{
    arr1, as_text, obj1, obj2, obj3, obj_get, obj_push, text, text_or, Json, JsonV,
};
use crate::request::{APIError, ApiRequest, OperationPlan};
use crate::text::{cat2, cat3, cat4, cat5, strs_of};
use crate::urls::{generate_url, url_of, Resource};
use crate::{Global, HttpRequest};

verus! {

/// The body that adds or removes one label on an issue.
pub open spec fn label_payload(op: Seq<char>, label: Seq<char>) -> JsonV {
    JsonV::Obj(
        seq![
            (
                "update"@,
                JsonV::Obj(
                    seq![("labels"@, JsonV::Arr(seq![JsonV::Obj(seq![(op, JsonV::Text(label))])]))],
                ),
            ),
        ],
    )
}

/// The body that adds or removes one fix version on an issue.
pub open spec fn fixversion_payload(op: Seq<char>, version_name: Seq<char>) -> JsonV {
    JsonV::Obj(
        seq![
            (
                "update"@,
                JsonV::Obj(
                    seq![
                        (
                            "fixVersions"@,
                            JsonV::Arr(
                                seq![
                                    JsonV::Obj(
                                        seq![(op, JsonV::Obj(seq![("name"@, JsonV::Text(version_name))]))],
                                    ),
                                ],
                            ),
                        ),
                    ],
                ),
            ),
        ],
    )
}

/// Plans adding `label` to one issue.
pub fn add_label(global: &Global, issue_key: &str, label: &str) -> (r: OperationPlan)
    ensures
        r.request.method is PUT,
        r.request.url@ == url_of(global.domain@, Resource::Issue, Some("/"@ + issue_key@)),
        r.request.body matches Some(b) && b@ == label_payload("add"@, label@),
        r.success_message@ == "Label "@ + label@ + " added to issue "@ + issue_key@,
        r.error_prefix@ == "Impossible to add label "@ + label@ + " to issue "@ + issue_key@
            + " "@,
{
    let suffix = cat2("/", issue_key);
    let url = generate_url(global.domain.as_str(), Resource::Issue, Some(suffix.as_str()));
    let payload = obj1("update", obj1("labels", arr1(obj1("add", text(label)))));
    OperationPlan {
        request: ApiRequest { method: HttpRequest::PUT, url, body: Some(payload) },
        success_message: cat4("Label ", label, " added to issue ", issue_key),
        error_prefix: cat5("Impossible to add label ", label, " to issue ", issue_key, " "),
    }
}

/// Plans removing `label` from one issue.
pub fn remove_label(global: &Global, issue_key: &str, label: &str) -> (r: OperationPlan)
    ensures
        r.request.method is PUT,
        r.request.url@ == url_of(global.domain@, Resource::Issue, Some("/"@ + issue_key@)),
        r.request.body matches Some(b) && b@ == label_payload("remove"@, label@),
        r.success_message@ == "Label "@ + label@ + " removed from issue "@ + issue_key@,
        r.error_prefix@ == "Failed to remove label "@ + label@ + " from issue "@ + issue_key@
            + ": "@,
{
    let suffix = cat2("/", issue_key);
    let url = generate_url(global.domain.as_str(), Resource::Issue, Some(suffix.as_str()));
    let payload = obj1("update", obj1("labels", arr1(obj1("remove", text(label)))));
    OperationPlan {
        request: ApiRequest { method: HttpRequest::PUT, url, body: Some(payload) },
        success_message: cat4("Label ", label, " removed from issue ", issue_key),
        error_prefix: cat5("Failed to remove label ", label, " from issue ", issue_key, ": "),
    }
}

/// Plans adding the fix version `version_name` to one issue.
pub fn add_version(global: &Global, version_name: &str, issue_key: &str) -> (r: OperationPlan)
    ensures
        r.request.method is PUT,
        r.request.url@ == url_of(global.domain@, Resource::Issue, Some("/"@ + issue_key@)),
        r.request.body matches Some(b) && b@ == fixversion_payload("add"@, version_name@),
        r.success_message@ == "Version "@ + version_name@ + " added to issue "@ + issue_key@,
        r.error_prefix@ == "Impossible to add version "@ + version_name@ + " to issue "@
            + issue_key@ + " "@,
{
    let suffix = cat2("/", issue_key);
    let url = generate_url(global.domain.as_str(), Resource::Issue, Some(suffix.as_str()));
    let payload = obj1(
        "update",
        obj1("fixVersions", arr1(obj1("add", obj1("name", text(version_name))))),
    );
    OperationPlan {
        request: ApiRequest { method: HttpRequest::PUT, url, body: Some(payload) },
        success_message: cat4("Version ", version_name, " added to issue ", issue_key),
        error_prefix: cat5(
            "Impossible to add version ",
            version_name,
            " to issue ",
            issue_key,
            " ",
        ),
    }
}

/// Plans removing the fix version `version_name` from one issue.
pub fn remove_version(global: &Global, version_name: &str, issue_key: &str) -> (r: OperationPlan)
    ensures
        r.request.method is PUT,
        r.request.url@ == url_of(global.domain@, Resource::Issue, Some("/"@ + issue_key@)),
        r.request.body matches Some(b) && b@ == fixversion_payload("remove"@, version_name@),
        r.success_message@ == "Version "@ + version_name@ + " removed from issue "@ + issue_key@,
        r.error_prefix@ == "Impossible to remove version "@ + version_name@ + " from issue "@
            + issue_key@ + ": "@,
{
    let suffix = cat2("/", issue_key);
    let url = generate_url(global.domain.as_str(), Resource::Issue, Some(suffix.as_str()));
    let payload = obj1(
        "update",
        obj1("fixVersions", arr1(obj1("remove", obj1("name", text(version_name))))),
    );
    OperationPlan {
        request: ApiRequest { method: HttpRequest::PUT, url, body: Some(payload) },
        success_message: cat4("Version ", version_name, " removed from issue ", issue_key),
        error_prefix: cat5(
            "Impossible to remove version ",
            version_name,
            " from issue ",
            issue_key,
            ": ",
        ),
    }
}

/// Plans adding the caller's vote to one issue.
pub fn add_vote(global: &Global, issue_key: &str) -> (r: OperationPlan)
    ensures
        r.request.method is POST,
        r.request.url@ == url_of(global.domain@, Resource::Issue, Some("/"@ + issue_key@
            + "/votes"@)),
        r.request.body matches Some(b) && b@ == JsonV::Obj(Seq::<(Seq<char>, JsonV)>::empty()),
        r.success_message@ == "Vote added to issue "@ + issue_key@,
        r.error_prefix@ == "Impossible to add vote to issue "@ + issue_key@ + ": "@,
{
    let suffix = cat3("/", issue_key, "/votes");
    let url = generate_url(global.domain.as_str(), Resource::Issue, Some(suffix.as_str()));
    let payload = Json::Obj(Vec::new());
    proof {
        assert(payload@ == JsonV::Obj(Seq::<(Seq<char>, JsonV)>::empty()));
    }
    OperationPlan {
        request: ApiRequest { method: HttpRequest::POST, url, body: Some(payload) },
        success_message: cat2("Vote added to issue ", issue_key),
        error_prefix: cat3("Impossible to add vote to issue ", issue_key, ": "),
    }
}

/// Plans withdrawing the caller's vote from one issue.
pub fn remove_vote(global: &Global, issue_key: &str) -> (r: OperationPlan)
    ensures
        r.request.method is DELETE,
        r.request.url@ == url_of(global.domain@, Resource::Issue, Some("/"@ + issue_key@
            + "/votes"@)),
        r.request.body is None,
        r.success_message@ == "Vote removed from issue "@ + issue_key@,
        r.error_prefix@ == "Impossible to remove vote from issue "@ + issue_key@ + ": "@,
{
    let suffix = cat3("/", issue_key, "/votes");
    let url = generate_url(global.domain.as_str(), Resource::Issue, Some(suffix.as_str()));
    OperationPlan {
        request: ApiRequest { method: HttpRequest::DELETE, url, body: None },
        success_message: cat2("Vote removed from issue ", issue_key),
        error_prefix: cat3("Impossible to remove vote from issue ", issue_key, ": "),
    }
}

/// Plans assigning one issue to an account; the caller supplies the
/// report to print on success.
pub fn assign(global: &Global, issue_key: &str, account_id: &str, success_message: &str) -> (r:
    OperationPlan)
    ensures
        r.request.method is PUT,
        r.request.url@ == url_of(global.domain@, Resource::Issue, Some("/"@ + issue_key@
            + "/assignee"@)),
        r.request.body matches Some(b) && b@ == JsonV::Obj(
            seq![("accountId"@, JsonV::Text(account_id@))],
        ),
        r.success_message@ == success_message@,
        r.error_prefix@ == "Impossible to assign the issue "@ + issue_key@ + ": "@,
{
    let suffix = cat3("/", issue_key, "/assignee");
    let url = generate_url(global.domain.as_str(), Resource::Issue, Some(suffix.as_str()));
    let payload = obj1("accountId", text(account_id));
    OperationPlan {
        request: ApiRequest { method: HttpRequest::PUT, url, body: Some(payload) },
        success_message: success_message.to_owned(),
        error_prefix: cat3("Impossible to assign the issue ", issue_key, ": "),
    }
}

/// The body that creates an issue, before the optional priority.
pub open spec fn create_payload(
    reporter_account_id: Seq<char>,
    project_key: Seq<char>,
    issue_type: Seq<char>,
    summary: Seq<char>,
    description: Seq<char>,
) -> JsonV {
    JsonV::Obj(
        seq![
            (
                "fields"@,
                JsonV::Obj(
                    seq![
                        ("project"@, JsonV::Obj(seq![("key"@, JsonV::Text(project_key))])),
                        ("summary"@, JsonV::Text(summary)),
                        ("description"@, description_doc(description)),
                        ("issuetype"@, JsonV::Obj(seq![("name"@, JsonV::Text(issue_type))])),
                        ("reporter"@, JsonV::Obj(seq![("id"@, JsonV::Text(reporter_account_id))])),
                    ],
                ),
            ),
        ],
    )
}

/// The rich-text document wrapping an issue description.
pub open spec fn description_doc(description: Seq<char>) -> JsonV {
    JsonV::Obj(
        seq![
            ("type"@, JsonV::Text("doc"@)),
            ("version"@, JsonV::Int(1)),
            (
                "content"@,
                JsonV::Arr(
                    seq![
                        JsonV::Obj(
                            seq![
                                ("type"@, JsonV::Text("paragraph"@)),
                                (
                                    "content"@,
                                    JsonV::Arr(
                                        seq![
                                            JsonV::Obj(
                                                seq![
                                                    ("type"@, JsonV::Text("text"@)),
                                                    ("text"@, JsonV::Text(description)),
                                                ],
                                            ),
                                        ],
                                    ),
                                ),
                            ],
                        ),
                    ],
                ),
            ),
        ],
    )
}

/// The issue-creation body with the priority appended when one is given.
pub open spec fn create_payload_with_priority(
    reporter_account_id: Seq<char>,
    project_key: Seq<char>,
    issue_type: Seq<char>,
    summary: Seq<char>,
    description: Seq<char>,
    priority: Seq<char>,
) -> JsonV {
    let base = create_payload(reporter_account_id, project_key, issue_type, summary, description);
    if priority.len() == 0 {
        base
    } else {
        JsonV::Obj(
            seq![
                (
                    "fields"@,
                    JsonV::Obj(
                        base->Obj_0[0].1->Obj_0 + seq![
                            ("priority"@, JsonV::Obj(seq![("name"@, JsonV::Text(priority))])),
                        ],
                    ),
                ),
            ],
        )
    }
}

/// Plans creating one issue; an empty `priority` means none is sent.
pub fn create(
    global: &Global,
    reporter_account_id: &str,
    project_key: &str,
    issue_type: &str,
    summary: &str,
    description: &str,
    priority: &str,
) -> (r: OperationPlan)
    ensures
        r.request.method is POST,
        r.request.url@ == url_of(global.domain@, Resource::Issue, None),
        r.request.body matches Some(b) && b@ == create_payload_with_priority(
            reporter_account_id@,
            project_key@,
            issue_type@,
            summary@,
            description@,
            priority@,
        ),
        r.success_message@ == Seq::<char>::empty(),
        r.error_prefix@ == "Failed to create issue: "@,
{
    let url = generate_url(global.domain.as_str(), Resource::Issue, None);
    let doc = obj3(
        "type",
        text("doc"),
        "version",
        Json::Int(1),
        "content",
        arr1(
            obj2(
                "type",
                text("paragraph"),
                "content",
                arr1(obj2("type", text("text"), "text", text(description))),
            ),
        ),
    );
    let mut fields = obj3(
        "project",
        obj1("key", text(project_key)),
        "summary",
        text(summary),
        "description",
        doc,
    );
    fields = obj_push(fields, "issuetype", obj1("name", text(issue_type)));
    fields = obj_push(fields, "reporter", obj1("id", text(reporter_account_id)));
    proof {
        assert(fields@->Obj_0 =~= create_payload(
            reporter_account_id@,
            project_key@,
            issue_type@,
            summary@,
            description@,
        )->Obj_0[0].1->Obj_0);
    }
    if !priority.is_empty() {
        fields = obj_push(fields, "priority", obj1("name", text(priority)));
    }
    let payload = obj1("fields", fields);
    proof {
        if priority@.len() == 0 {
            assert(payload@->Obj_0 =~= create_payload(
                reporter_account_id@,
                project_key@,
                issue_type@,
                summary@,
                description@,
            )->Obj_0);
            assert(payload@ == create_payload_with_priority(
                reporter_account_id@,
                project_key@,
                issue_type@,
                summary@,
                description@,
                priority@,
            ));
        } else {
            assert(payload@->Obj_0 =~= create_payload_with_priority(
                reporter_account_id@,
                project_key@,
                issue_type@,
                summary@,
                description@,
                priority@,
            )->Obj_0);
            assert(payload@ == create_payload_with_priority(
                reporter_account_id@,
                project_key@,
                issue_type@,
                summary@,
                description@,
                priority@,
            ));
        }
    }
    OperationPlan {
        request: ApiRequest { method: HttpRequest::POST, url, body: Some(payload) },
        success_message: String::new(),
        error_prefix: "Failed to create issue: ".to_owned(),
    }
}

/// Reads the report for a created issue out of the response body: the
/// key of the new issue.
pub fn create_report(body: &Json) -> (r: Result<String, APIError>)
    ensures
        match as_text(obj_get(body@, "key"@)) {
            Some(k) => r matches Ok(m) && m@ == "Issue created: "@ + k,
            None => r matches Err(e) && e is Parse,
        },
{
    match body.get("key") {
        Some(k) => match k.as_str() {
            Some(t) => Ok(cat2("Issue created: ", t.as_str())),
            None => Err(APIError::Parse("issue key is not a string".to_owned())),
        },
        None => Err(APIError::Parse("response carries no issue key".to_owned())),
    }
}

/// Plans creating an issue link type.
pub fn create_link_type(global: &Global, name: &str, inward: &str, outward: &str) -> (r:
    OperationPlan)
    ensures
        r.request.method is POST,
        r.request.url@ == url_of(global.domain@, Resource::IssueLinkTypes, None),
        r.request.body matches Some(b) && b@ == JsonV::Obj(
            seq![
                ("name"@, JsonV::Text(name@)),
                ("inward"@, JsonV::Text(inward@)),
                ("outward"@, JsonV::Text(outward@)),
            ],
        ),
        r.success_message@ == Seq::<char>::empty(),
        r.error_prefix@ == "Failed to create issue link type: "@,
{
    let url = generate_url(global.domain.as_str(), Resource::IssueLinkTypes, None);
    let payload = obj3("name", text(name), "inward", text(inward), "outward", text(outward));
    OperationPlan {
        request: ApiRequest { method: HttpRequest::POST, url, body: Some(payload) },
        success_message: String::new(),
        error_prefix: "Failed to create issue link type: ".to_owned(),
    }
}

/// Reads the report for a created link type out of the response body:
/// the new name and id, or the service's own first error message.
pub fn create_link_type_report(body: &Json) -> (r: Result<String, APIError>)
    ensures
        match obj_get(body@, "errorMessages"@) {
            None | Some(JsonV::Null) => match (
                as_text(obj_get(body@, "name"@)),
                as_text(obj_get(body@, "id"@)),
            ) {
                (Some(n), Some(i)) => r matches Ok(m) && m@ == "New link type "@ + n + " (id: "@
                    + i + " ) created"@,
                _ => r matches Err(e) && e is Parse,
            },
            Some(errs) => match errs {
                JsonV::Arr(items) => if items.len() >= 1 && items[0] is Text {
                    r matches Ok(m) && m@ == items[0]->Text_0
                } else {
                    r matches Err(e) && e is Parse
                },
                _ => r matches Err(e) && e is Parse,
            },
        },
{
    let error_messages = match body.get("errorMessages") {
        Some(v) => {
            if v.is_null() {
                None
            } else {
                Some(v)
            }
        },
        None => None,
    };
    match error_messages {
        None => {
            let name = body.get("name");
            let id = body.get("id");
            match (name, id) {
                (Some(n), Some(i)) => match (n.as_str(), i.as_str()) {
                    (Some(nt), Some(it)) => Ok(
                        cat5("New link type ", nt.as_str(), " (id: ", it.as_str(), " ) created"),
                    ),
                    _ => Err(APIError::Parse("link type name or id is not a string".to_owned())),
                },
                _ => Err(APIError::Parse("response carries no link type name or id".to_owned())),
            }
        },
        Some(errs) => match errs.as_array() {
            Some(items) => {
                if items.len() >= 1 {
                    proof {
                        crate::json::lemma_json_views_index(items@);
                    }
                    match items[0].as_str() {
                        Some(t) => Ok(t.clone()),
                        None => Err(APIError::Parse("error message is not a string".to_owned())),
                    }
                } else {
                    Err(APIError::Parse("empty error message list".to_owned()))
                }
            },
            None => Err(APIError::Parse("error messages are not a list".to_owned())),
        },
    }
}

/// Plans deleting one issue, with or without its subtasks.
pub fn delete(global: &Global, issue_key: &str, delete_subtasks: bool) -> (r: OperationPlan)
    ensures
        r.request.method is DELETE,
        r.request.url@ == url_of(global.domain@, Resource::Issue, Some("/"@ + issue_key@
            + "?deleteSubtasks="@ + (if delete_subtasks {
            "true"@
        } else {
            "false"@
        }))),
        r.request.body is None,
        delete_subtasks ==> r.success_message@ == "Issue "@ + issue_key@
            + " deleted with its subtasks"@,
        !delete_subtasks ==> r.success_message@ == "Issue "@ + issue_key@ + " deleted"@,
        r.error_prefix@ == "Impossible to delete issue "@ + issue_key@ + ": "@,
{
    let flag: &str = if delete_subtasks {
        "true"
    } else {
        "false"
    };
    let suffix = cat4("/", issue_key, "?deleteSubtasks=", flag);
    let url = generate_url(global.domain.as_str(), Resource::Issue, Some(suffix.as_str()));
    let success_message = if delete_subtasks {
        cat3("Issue ", issue_key, " deleted with its subtasks")
    } else {
        cat3("Issue ", issue_key, " deleted")
    };
    OperationPlan {
        request: ApiRequest { method: HttpRequest::DELETE, url, body: None },
        success_message,
        error_prefix: cat3("Impossible to delete issue ", issue_key, ": "),
    }
}

/// Plans deleting one issue link type.
pub fn delete_link_type(global: &Global, link_type_id: &str) -> (r: OperationPlan)
    ensures
        r.request.method is DELETE,
        r.request.url@ == url_of(global.domain@, Resource::IssueLinkTypes, Some("/"@
            + link_type_id@)),
        r.request.body is None,
        r.success_message@ == "Link type "@ + link_type_id@ + " deleted"@,
        r.error_prefix@ == "Impossible to delete link type id "@ + link_type_id@ + ": "@,
{
    let suffix = cat2("/", link_type_id);
    let url = generate_url(
        global.domain.as_str(),
        Resource::IssueLinkTypes,
        Some(suffix.as_str()),
    );
    OperationPlan {
        request: ApiRequest { method: HttpRequest::DELETE, url, body: None },
        success_message: cat3("Link type ", link_type_id, " deleted"),
        error_prefix: cat3("Impossible to delete link type id ", link_type_id, ": "),
    }
}

/// Plans fetching one issue link type.
pub fn get_link_type(global: &Global, link_type_id: &str) -> (r: OperationPlan)
    ensures
        r.request.method is GET,
        r.request.url@ == url_of(global.domain@, Resource::IssueLinkTypes, Some("/"@
            + link_type_id@)),
        r.request.body is None,
        r.error_prefix@ == "Impossible to get link type "@ + link_type_id@ + ": "@,
{
    let suffix = cat2("/", link_type_id);
    let url = generate_url(
        global.domain.as_str(),
        Resource::IssueLinkTypes,
        Some(suffix.as_str()),
    );
    OperationPlan {
        request: ApiRequest { method: HttpRequest::GET, url, body: None },
        success_message: String::new(),
        error_prefix: cat3("Impossible to get link type ", link_type_id, ": "),
    }
}

/// The table row for one link type: id, name, and the two directed
/// descriptions (empty when absent).
pub open spec fn link_type_row(x: JsonV) -> Option<Seq<Seq<char>>> {
    match (as_text(obj_get(x, "id"@)), as_text(obj_get(x, "name"@))) {
        (Some(id), Some(name)) => Some(
            seq![
                id,
                name,
                text_or(obj_get(x, "inward"@), Seq::<char>::empty()),
                text_or(obj_get(x, "outward"@), Seq::<char>::empty()),
            ],
        ),
        _ => None,
    }
}

/// Builds the table row for one link type value.
fn link_type_cells(x: &Json) -> (r: Result<Vec<String>, APIError>)
    ensures
        match link_type_row(x@) {
            Some(row) => r matches Ok(cells) && strs_of(cells@) == row,
            None => r matches Err(e) && e is Parse,
        },
{
    let id = match x.get("id") {
        Some(v) => match v.as_str() {
            Some(t) => t.clone(),
            None => {
                return Err(APIError::Parse("link type id is not a string".to_owned()));
            },
        },
        None => {
            return Err(APIError::Parse("link type carries no id".to_owned()));
        },
    };
    let name = match x.get("name") {
        Some(v) => match v.as_str() {
            Some(t) => t.clone(),
            None => {
                return Err(APIError::Parse("link type name is not a string".to_owned()));
            },
        },
        None => {
            return Err(APIError::Parse("link type carries no name".to_owned()));
        },
    };
    let inward = text_field_or_empty(x, "inward");
    let outward = text_field_or_empty(x, "outward");
    let mut cells: Vec<String> = Vec::new();
    cells.push(id);
    cells.push(name);
    cells.push(inward);
    cells.push(outward);
    proof {
        assert(strs_of(cells@) =~= link_type_row(x@).unwrap());
    }
    Ok(cells)
}

/// The text of the member named `key`, or the empty string.
pub fn text_field_or_empty(x: &Json, key: &str) -> (r: String)
    ensures
        r@ == text_or(obj_get(x@, key@), Seq::<char>::empty()),
{
    match x.get(key) {
        Some(v) => match v.as_str() {
            Some(t) => t.clone(),
            None => String::new(),
        },
        None => String::new(),
    }
}

/// Reads the single table row for a fetched link type out of the
/// response body.
pub fn get_link_type_rows(body: &Json) -> (r: Result<Vec<Vec<String>>, APIError>)
    ensures
        match link_type_row(body@) {
            Some(row) => r matches Ok(rows) && rows@.len() == 1 && strs_of(rows@[0]@) == row,
            None => r matches Err(e) && e is Parse,
        },
{
    let cells = link_type_cells(body)?;
    let mut rows: Vec<Vec<String>> = Vec::new();
    rows.push(cells);
    Ok(rows)
}

/// Plans listing every issue link type.
pub fn list_link_types(global: &Global) -> (r: OperationPlan)
    ensures
        r.request.method is GET,
        r.request.url@ == url_of(global.domain@, Resource::IssueLinkTypes, None),
        r.request.body is None,
        r.error_prefix@ == "Failed to get issue link types: "@,
{
    let url = generate_url(global.domain.as_str(), Resource::IssueLinkTypes, None);
    OperationPlan {
        request: ApiRequest { method: HttpRequest::GET, url, body: None },
        success_message: String::new(),
        error_prefix: "Failed to get issue link types: ".to_owned(),
    }
}

/// Reads the table rows for all link types out of the response body:
/// one row per entry of `issueLinkTypes`.
pub fn list_link_types_rows(body: &Json) -> (r: Result<Vec<Vec<String>>, APIError>)
    ensures
        r is Ok <==> (obj_get(body@, "issueLinkTypes"@) matches Some(arr) && arr is Arr && (forall|
            q: int,
        |
            0 <= q < arr->Arr_0.len() ==> (#[trigger] link_type_row(arr->Arr_0[q])) is Some)),
        r matches Ok(rows) ==> {
            let items = obj_get(body@, "issueLinkTypes"@).unwrap()->Arr_0;
            &&& rows@.len() == items.len()
            &&& forall|q: int|
                0 <= q < items.len() ==> Some(strs_of(#[trigger] rows@[q]@)) == link_type_row(
                    items[q],
                )
        },
        r matches Err(e) ==> e is Parse,
{
    let items = match body.get("issueLinkTypes") {
        Some(v) => match v.as_array() {
            Some(items) => items,
            None => {
                return Err(APIError::Parse("link type list is not a list".to_owned()));
            },
        },
        None => {
            return Err(APIError::Parse("response carries no link type list".to_owned()));
        },
    };
    proof {
        crate::json::lemma_json_views_index(items@);
    }
    let ghost items_v = obj_get(body@, "issueLinkTypes"@).unwrap()->Arr_0;
    let mut rows: Vec<Vec<String>> = Vec::new();
    let mut q: usize = 0;
    while q < items.len()
        invariant
            obj_get(body@, "issueLinkTypes"@) == Some(JsonV::Arr(items_v)),
            items_v == crate::json::json_views(items@),
            items_v.len() == items@.len(),
            forall|p: int| 0 <= p < items@.len() ==> items_v[p] == items@[p]@,
            q <= items@.len(),
            rows@.len() == q,
            forall|p: int|
                0 <= p < q ==> Some(strs_of(#[trigger] rows@[p]@)) == link_type_row(items_v[p]),
        decreases items@.len() - q,
    {
        match link_type_cells(&items[q]) {
            Ok(cells) => {
                rows.push(cells);
            },
            Err(e) => {
                proof {
                    assert(link_type_row(items_v[q as int]) is None);
                }
                return Err(e);
            },
        }
        q += 1;
    }
    proof {
        assert forall|p: int|
            0 <= p < items_v.len() implies (#[trigger] link_type_row(items_v[p])) is Some by {
            assert(Some(strs_of(rows@[p]@)) == link_type_row(items_v[p]));
        }
    }
    Ok(rows)
}

/// Plans fetching the transitions available on one issue.
pub fn get_transitions(global: &Global, issue_key: &str) -> (r: OperationPlan)
    ensures
        r.request.method is GET,
        r.request.url@ == url_of(global.domain@, Resource::Issue, Some("/"@ + issue_key@
            + "/transitions"@)),
        r.request.body is None,
        r.error_prefix@ == "Failed to get transitions for issue "@ + issue_key@ + ": "@,
{
    let suffix = cat3("/", issue_key, "/transitions");
    let url = generate_url(global.domain.as_str(), Resource::Issue, Some(suffix.as_str()));
    OperationPlan {
        request: ApiRequest { method: HttpRequest::GET, url, body: None },
        success_message: String::new(),
        error_prefix: cat3("Failed to get transitions for issue ", issue_key, ": "),
    }
}

/// The table row for one transition: id, name, and the name of the
/// target state (empty when absent).
pub open spec fn transition_row(x: JsonV) -> Option<Seq<Seq<char>>> {
    match (as_text(obj_get(x, "id"@)), as_text(obj_get(x, "name"@))) {
        (Some(id), Some(name)) => Some(
            seq![
                id,
                name,
                match obj_get(x, "to"@) {
                    Some(to) => text_or(obj_get(to, "name"@), Seq::<char>::empty()),
                    None => Seq::<char>::empty(),
                },
            ],
        ),
        _ => None,
    }
}

/// Reads the table rows for an issue's transitions out of the response
/// body: one row per entry of `transitions`.
pub fn get_transitions_rows(body: &Json) -> (r: Result<Vec<Vec<String>>, APIError>)
    ensures
        r is Ok <==> (obj_get(body@, "transitions"@) matches Some(arr) && arr is Arr && (forall|
            q: int,
        |
            0 <= q < arr->Arr_0.len() ==> (#[trigger] transition_row(arr->Arr_0[q])) is Some)),
        r matches Ok(rows) ==> {
            let items = obj_get(body@, "transitions"@).unwrap()->Arr_0;
            &&& rows@.len() == items.len()
            &&& forall|q: int|
                0 <= q < items.len() ==> Some(strs_of(#[trigger] rows@[q]@)) == transition_row(
                    items[q],
                )
        },
        r matches Err(e) ==> e is Parse,
{
    let items = match body.get("transitions") {
        Some(v) => match v.as_array() {
            Some(items) => items,
            None => {
                return Err(APIError::Parse("transition list is not a list".to_owned()));
            },
        },
        None => {
            return Err(APIError::Parse("response carries no transition list".to_owned()));
        },
    };
    proof {
        crate::json::lemma_json_views_index(items@);
    }
    let ghost items_v = obj_get(body@, "transitions"@).unwrap()->Arr_0;
    let mut rows: Vec<Vec<String>> = Vec::new();
    let mut q: usize = 0;
    while q < items.len()
        invariant
            obj_get(body@, "transitions"@) == Some(JsonV::Arr(items_v)),
            items_v == crate::json::json_views(items@),
            items_v.len() == items@.len(),
            forall|p: int| 0 <= p < items@.len() ==> items_v[p] == items@[p]@,
            q <= items@.len(),
            rows@.len() == q,
            forall|p: int|
                0 <= p < q ==> Some(strs_of(#[trigger] rows@[p]@)) == transition_row(items_v[p]),
        decreases items@.len() - q,
    {
        let x = &items[q];
        let id = match x.get("id") {
            Some(v) => match v.as_str() {
                Some(t) => t.clone(),
                None => {
                    proof {
                        assert(transition_row(items_v[q as int]) is None);
                    }
                    return Err(APIError::Parse("transition id is not a string".to_owned()));
                },
            },
            None => {
                proof {
                    assert(transition_row(items_v[q as int]) is None);
                }
                return Err(APIError::Parse("transition carries no id".to_owned()));
            },
        };
        let name = match x.get("name") {
            Some(v) => match v.as_str() {
                Some(t) => t.clone(),
                None => {
                    proof {
                        assert(transition_row(items_v[q as int]) is None);
                    }
                    return Err(APIError::Parse("transition name is not a string".to_owned()));
                },
            },
            None => {
                proof {
                    assert(transition_row(items_v[q as int]) is None);
                }
                return Err(APIError::Parse("transition carries no name".to_owned()));
            },
        };
        let to_name = match x.get("to") {
            Some(to) => text_field_or_empty(to, "name"),
            None => String::new(),
        };
        let mut cells: Vec<String> = Vec::new();
        cells.push(id);
        cells.push(name);
        cells.push(to_name);
        proof {
            assert(strs_of(cells@) =~= transition_row(items_v[q as int]).unwrap());
        }
        rows.push(cells);
        q += 1;
    }
    proof {
        assert forall|p: int|
            0 <= p < items_v.len() implies (#[trigger] transition_row(items_v[p])) is Some by {
            assert(Some(strs_of(rows@[p]@)) == transition_row(items_v[p]));
        }
    }
    Ok(rows)
}

/// Plans listing the priorities of the site.
pub fn list_priorities(global: &Global) -> (r: OperationPlan)
    ensures
        r.request.method is GET,
        r.request.url@ == url_of(global.domain@, Resource::Priority, None),
        r.request.body is None,
        r.error_prefix@ == "Impossible to get priorities: "@,
{
    let url = generate_url(global.domain.as_str(), Resource::Priority, None);
    OperationPlan {
        request: ApiRequest { method: HttpRequest::GET, url, body: None },
        success_message: String::new(),
        error_prefix: "Impossible to get priorities: ".to_owned(),
    }
}

/// The name of one entry, where it is a string.
pub open spec fn name_of(x: JsonV) -> Option<Seq<char>> {
    as_text(obj_get(x, "name"@))
}

/// Reads the `name` of every element of an array value: the shared shape
/// of the priority listing, the issue-type listing and the fix-version
/// listing.
pub fn names_of_array(arr: &Json) -> (r: Result<Vec<String>, APIError>)
    ensures
        r is Ok <==> (arr@ is Arr && (forall|q: int|
            0 <= q < arr@->Arr_0.len() ==> (#[trigger] name_of(arr@->Arr_0[q])) is Some)),
        r matches Ok(names) ==> {
            let items = arr@->Arr_0;
            &&& names@.len() == items.len()
            &&& forall|q: int|
                0 <= q < items.len() ==> Some((#[trigger] names@[q])@) == name_of(items[q])
        },
        r matches Err(e) ==> e is Parse,
{
    let items = match arr.as_array() {
        Some(items) => items,
        None => {
            return Err(APIError::Parse("expected a list".to_owned()));
        },
    };
    proof {
        crate::json::lemma_json_views_index(items@);
    }
    let ghost items_v = arr@->Arr_0;
    let mut names: Vec<String> = Vec::new();
    let mut q: usize = 0;
    while q < items.len()
        invariant
            arr@ == JsonV::Arr(items_v),
            items_v == crate::json::json_views(items@),
            items_v.len() == items@.len(),
            forall|p: int| 0 <= p < items@.len() ==> items_v[p] == items@[p]@,
            q <= items@.len(),
            names@.len() == q,
            forall|p: int| 0 <= p < q ==> Some((#[trigger] names@[p])@) == name_of(items_v[p]),
        decreases items@.len() - q,
    {
        match items[q].get("name") {
            Some(v) => match v.as_str() {
                Some(t) => {
                    names.push(t.clone());
                },
                None => {
                    proof {
                        assert(name_of(items_v[q as int]) is None);
                    }
                    return Err(APIError::Parse("name is not a string".to_owned()));
                },
            },
            None => {
                proof {
                    assert(name_of(items_v[q as int]) is None);
                }
                return Err(APIError::Parse("entry carries no name".to_owned()));
            },
        }
        q += 1;
    }
    proof {
        assert forall|p: int|
            0 <= p < items_v.len() implies (#[trigger] name_of(items_v[p])) is Some by {
            assert(Some(names@[p]@) == name_of(items_v[p]));
        }
    }
    Ok(names)
}

/// Plans listing the issue types available on one project.
pub fn list_types(global: &Global, project_key: &str) -> (r: OperationPlan)
    ensures
        r.request.method is GET,
        r.request.url@ == url_of(global.domain@, Resource::Issue, Some(
            "/createmeta?projectKeys="@ + project_key@,
        )),
        r.request.body is None,
        r.error_prefix@ == "Impossible to list types: "@,
{
    let suffix = cat2("/createmeta?projectKeys=", project_key);
    let url = generate_url(global.domain.as_str(), Resource::Issue, Some(suffix.as_str()));
    OperationPlan {
        request: ApiRequest { method: HttpRequest::GET, url, body: None },
        success_message: String::new(),
        error_prefix: "Impossible to list types: ".to_owned(),
    }
}

/// The issue type list of a creation-metadata response body, where it
/// has one: the `issuetypes` of the first project.
pub open spec fn issue_types_of(body: JsonV) -> Option<JsonV> {
    match obj_get(body, "projects"@) {
        Some(JsonV::Arr(projects)) => if projects.len() == 0 {
            None
        } else {
            obj_get(projects[0], "issuetypes"@)
        },
        _ => None,
    }
}

/// Reads the issue type names out of a creation-metadata response body:
/// the names under `projects[0].issuetypes`.
pub fn list_types_names(body: &Json) -> (r: Result<Vec<String>, APIError>)
    ensures
        r is Ok <==> (issue_types_of(body@) matches Some(arr) && arr is Arr && (forall|q: int|
            0 <= q < arr->Arr_0.len() ==> (#[trigger] name_of(arr->Arr_0[q])) is Some)),
        r matches Ok(names) ==> {
            let items = issue_types_of(body@).unwrap()->Arr_0;
            &&& names@.len() == items.len()
            &&& forall|q: int|
                0 <= q < items.len() ==> Some((#[trigger] names@[q])@) == name_of(items[q])
        },
        r matches Err(e) ==> e is Parse,
{
    let projects = match body.get("projects") {
        Some(v) => match v.as_array() {
            Some(items) => items,
            None => {
                return Err(APIError::Parse("project list is not a list".to_owned()));
            },
        },
        None => {
            return Err(APIError::Parse("response carries no project list".to_owned()));
        },
    };
    if projects.len() == 0 {
        return Err(APIError::Parse("empty project list".to_owned()));
    }
    proof {
        crate::json::lemma_json_views_index(projects@);
    }
    match projects[0].get("issuetypes") {
        Some(types) => names_of_array(types),
        None => Err(APIError::Parse("project carries no issue types".to_owned())),
    }
}

/// Plans listing the votes on one issue.
pub fn list_votes(global: &Global, issue_key: &str) -> (r: OperationPlan)
    ensures
        r.request.method is GET,
        r.request.url@ == url_of(global.domain@, Resource::Issue, Some("/"@ + issue_key@
            + "/votes"@)),
        r.request.body is None,
        r.error_prefix@ == "Impossible to list votes for issue "@ + issue_key@ + ": "@,
{
    let suffix = cat3("/", issue_key, "/votes");
    let url = generate_url(global.domain.as_str(), Resource::Issue, Some(suffix.as_str()));
    OperationPlan {
        request: ApiRequest { method: HttpRequest::GET, url, body: None },
        success_message: String::new(),
        error_prefix: cat3("Impossible to list votes for issue ", issue_key, ": "),
    }
}

/// The table row for one voter: name (empty when absent), account id,
/// display name (empty when absent).
pub open spec fn voter_row(x: JsonV) -> Option<Seq<Seq<char>>> {
    match as_text(obj_get(x, "accountId"@)) {
        Some(account_id) => Some(
            seq![
                text_or(obj_get(x, "name"@), Seq::<char>::empty()),
                account_id,
                text_or(obj_get(x, "displayName"@), Seq::<char>::empty()),
            ],
        ),
        None => None,
    }
}

/// A vote response body whose count and voter list have the shape the
/// report needs.
pub open spec fn votes_shape_ok(body: JsonV) -> bool {
    &&& obj_get(body, "votes"@) matches Some(votes) && votes is Int
    &&& obj_get(body, "voters"@) matches Some(arr) && arr is Arr && (forall|q: int|
        0 <= q < arr->Arr_0.len() ==> (#[trigger] voter_row(arr->Arr_0[q])) is Some)
}

/// What the vote listing reports: either that the issue has no votes, or
/// the vote count with one table row per voter.
pub enum VotesReport {
    NoVotes,
    Voters(i64, Vec<Vec<String>>),
}

/// Reads the vote report out of the response body: where `hasVoted` is
/// true, the `votes` count and the rows of `voters`; anything else is
/// the no-votes report.
pub fn list_votes_report(body: &Json) -> (r: Result<VotesReport, APIError>)
    ensures
        obj_get(body@, "hasVoted"@) != Some(JsonV::Bool(true)) ==> r == Ok::<
            VotesReport,
            APIError,
        >(VotesReport::NoVotes),
        r is Err <==> (obj_get(body@, "hasVoted"@) == Some(JsonV::Bool(true)) && !votes_shape_ok(
            body@,
        )),
        (obj_get(body@, "hasVoted"@) == Some(JsonV::Bool(true)) && votes_shape_ok(body@)) <==> (
        r matches Ok(rep) && rep is Voters),
        match r {
            Ok(VotesReport::NoVotes) => true,
            Ok(VotesReport::Voters(count, rows)) => {
                &&& obj_get(body@, "hasVoted"@) == Some(JsonV::Bool(true))
                &&& obj_get(body@, "votes"@) == Some(JsonV::Int(count as i64))
                &&& obj_get(body@, "voters"@) matches Some(arr) && arr is Arr
                &&& rows@.len() == obj_get(body@, "voters"@).unwrap()->Arr_0.len()
                &&& forall|q: int|
                    0 <= q < rows@.len() ==> Some(strs_of(#[trigger] rows@[q]@)) == voter_row(
                        obj_get(body@, "voters"@).unwrap()->Arr_0[q],
                    )
            },
            Err(e) => e is Parse,
        },
{
    let has_voted = match body.get("hasVoted") {
        Some(v) => match v.as_bool() {
            Some(b) => b,
            None => false,
        },
        None => false,
    };
    if !has_voted {
        return Ok(VotesReport::NoVotes);
    }
    let count = match body.get("votes") {
        Some(v) => match v.as_int() {
            Some(n) => n,
            None => {
                return Err(APIError::Parse("vote count is not a number".to_owned()));
            },
        },
        None => {
            return Err(APIError::Parse("response carries no vote count".to_owned()));
        },
    };
    let items = match body.get("voters") {
        Some(v) => match v.as_array() {
            Some(items) => items,
            None => {
                return Err(APIError::Parse("voter list is not a list".to_owned()));
            },
        },
        None => {
            return Err(APIError::Parse("response carries no voter list".to_owned()));
        },
    };
    proof {
        crate::json::lemma_json_views_index(items@);
    }
    let ghost items_v = obj_get(body@, "voters"@).unwrap()->Arr_0;
    let mut rows: Vec<Vec<String>> = Vec::new();
    let mut q: usize = 0;
    while q < items.len()
        invariant
            obj_get(body@, "hasVoted"@) == Some(JsonV::Bool(true)),
            obj_get(body@, "votes"@) == Some(JsonV::Int(count)),
            obj_get(body@, "voters"@) == Some(JsonV::Arr(items_v)),
            items_v == crate::json::json_views(items@),
            items_v.len() == items@.len(),
            forall|p: int| 0 <= p < items@.len() ==> items_v[p] == items@[p]@,
            q <= items@.len(),
            rows@.len() == q,
            forall|p: int|
                0 <= p < q ==> Some(strs_of(#[trigger] rows@[p]@)) == voter_row(items_v[p]),
        decreases items@.len() - q,
    {
        let x = &items[q];
        let account_id = match x.get("accountId") {
            Some(v) => match v.as_str() {
                Some(t) => t.clone(),
                None => {
                    return Err(APIError::Parse("voter account id is not a string".to_owned()));
                },
            },
            None => {
                return Err(APIError::Parse("voter carries no account id".to_owned()));
            },
        };
        let name = text_field_or_empty(x, "name");
        let display_name = text_field_or_empty(x, "displayName");
        let mut cells: Vec<String> = Vec::new();
        cells.push(name);
        cells.push(account_id);
        cells.push(display_name);
        proof {
            assert(strs_of(cells@) =~= voter_row(items_v[q as int]).unwrap());
        }
        rows.push(cells);
        q += 1;
    }
    proof {
        assert forall|p: int|
            0 <= p < items_v.len() implies (#[trigger] voter_row(items_v[p])) is Some by {
            assert(Some(strs_of(rows@[p]@)) == voter_row(items_v[p]));
        }
    }
    Ok(VotesReport::Voters(count, rows))
}

/// Plans fetching one issue's fix versions.
pub fn show_fixversions(global: &Global, issue_key: &str) -> (r: OperationPlan)
    ensures
        r.request.method is GET,
        r.request.url@ == url_of(global.domain@, Resource::Issue, Some("/"@ + issue_key@)),
        r.request.body is None,
        r.error_prefix@ == "Impossible to list fix versions for issue "@ + issue_key@ + ": "@,
{
    let suffix = cat2("/", issue_key);
    let url = generate_url(global.domain.as_str(), Resource::Issue, Some(suffix.as_str()));
    OperationPlan {
        request: ApiRequest { method: HttpRequest::GET, url, body: None },
        success_message: String::new(),
        error_prefix: cat3("Impossible to list fix versions for issue ", issue_key, ": "),
    }
}

/// The fix version list of an issue response body, where it has one.
pub open spec fn fixversions_of(body: JsonV) -> Option<JsonV> {
    match obj_get(body, "fields"@) {
        Some(fields) => obj_get(fields, "fixVersions"@),
        None => None,
    }
}

/// Reads the fix version names out of an issue response body: the names
/// under `fields.fixVersions`.
pub fn show_fixversions_names(body: &Json) -> (r: Result<Vec<String>, APIError>)
    ensures
        r is Ok <==> (fixversions_of(body@) matches Some(arr) && arr is Arr && (forall|q: int|
            0 <= q < arr->Arr_0.len() ==> (#[trigger] name_of(arr->Arr_0[q])) is Some)),
        r matches Ok(names) ==> {
            let items = fixversions_of(body@).unwrap()->Arr_0;
            &&& names@.len() == items.len()
            &&& forall|q: int|
                0 <= q < items.len() ==> Some((#[trigger] names@[q])@) == name_of(items[q])
        },
        r matches Err(e) ==> e is Parse,
{
    match body.get("fields") {
        Some(fields) => match fields.get("fixVersions") {
            Some(versions) => names_of_array(versions),
            None => Err(APIError::Parse("issue carries no fix versions".to_owned())),
        },
        None => Err(APIError::Parse("response carries no fields".to_owned())),
    }
}

/// Plans moving one issue through a transition.
pub fn transition(global: &Global, issue_key: &str, transition_id: &str) -> (r: OperationPlan)
    ensures
        r.request.method is POST,
        r.request.url@ == url_of(global.domain@, Resource::Issue, Some("/"@ + issue_key@
            + "/transitions"@)),
        r.request.body matches Some(b) && b@ == JsonV::Obj(
            seq![
                ("transition"@, JsonV::Obj(seq![("id"@, JsonV::Text(transition_id@))])),
            ],
        ),
        r.success_message@ == "Success"@,
        r.error_prefix@ == "Failed to transition issue "@ + issue_key@ + ": "@,
{
    let suffix = cat3("/", issue_key, "/transitions");
    let url = generate_url(global.domain.as_str(), Resource::Issue, Some(suffix.as_str()));
    let payload = obj1("transition", obj1("id", text(transition_id)));
    OperationPlan {
        request: ApiRequest { method: HttpRequest::POST, url, body: Some(payload) },
        success_message: "Success".to_owned(),
        error_prefix: cat3("Failed to transition issue ", issue_key, ": "),
    }
}

/// Plans updating one issue link type.
pub fn update_link_type(
    global: &Global,
    link_type_id: &str,
    link_type_name: &str,
    link_type_inward: &str,
    link_type_outward: &str,
) -> (r: OperationPlan)
    ensures
        r.request.method is PUT,
        r.request.url@ == url_of(global.domain@, Resource::IssueLinkTypes, Some("/"@
            + link_type_id@)),
        r.request.body matches Some(b) && b@ == JsonV::Obj(
            seq![
                ("name"@, JsonV::Text(link_type_name@)),
                ("inward"@, JsonV::Text(link_type_inward@)),
                ("outward"@, JsonV::Text(link_type_outward@)),
            ],
        ),
        r.success_message@ == "Link type "@ + link_type_id@ + " updated"@,
        r.error_prefix@ == "Impossible to update link type "@ + link_type_id@ + ": "@,
{
    let suffix = cat2("/", link_type_id);
    let url = generate_url(
        global.domain.as_str(),
        Resource::IssueLinkTypes,
        Some(suffix.as_str()),
    );
    let payload = obj3(
        "name",
        text(link_type_name),
        "inward",
        text(link_type_inward),
        "outward",
        text(link_type_outward),
    );
    OperationPlan {
        request: ApiRequest { method: HttpRequest::PUT, url, body: Some(payload) },
        success_message: cat3("Link type ", link_type_id, " updated"),
        error_prefix: cat3("Impossible to update link type ", link_type_id, ": "),
    }
}

} // verus!
