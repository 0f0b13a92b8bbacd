//! Project operations: creation, deletion, the id lookup, the feature,
//! version and project listings and the feature switch — each as a fully
//! planned request, with the verified readers of the responses, the
//! paginated project walk, and the sort that orders version rows by
//! name.

use vstd::prelude::*;

use crate::confirm::ConfirmedOperation;
use crate::json::{
    as_text, decimal_value, is_decimal_text, obj1, obj_get, obj_push, parse_i32, text, text_or,
    Json, JsonV,
};
use crate::request::{APIError, ApiRequest, OperationPlan};
use crate::text::{cat2, cat3, cat4, lex_le, lex_le_chars, str_chars, strs_of};
use crate::urls::{generate_url, url_of, Resource};
use crate::{Global, HttpRequest};

verus! {

broadcast use vstd::seq_lib::to_multiset_build, vstd::seq_lib::to_multiset_insert,
    vstd::seq_lib::to_multiset_remove, vstd::seq_lib::to_multiset_len,
    vstd::seq_lib::to_multiset_contains;

/// The body that creates a project.
pub open spec fn create_payload(
    project_name: Seq<char>,
    project_key: Seq<char>,
    project_leadaccountid: Seq<char>,
    project_type: Seq<char>,
    project_template: Seq<char>,
) -> JsonV {
    JsonV::Obj(
        seq![
            ("name"@, JsonV::Text(project_name)),
            ("key"@, JsonV::Text(project_key)),
            ("leadAccountId"@, JsonV::Text(project_leadaccountid)),
            ("projectTypeKey"@, JsonV::Text(project_type)),
            ("projectTemplateKey"@, JsonV::Text(project_template)),
            ("assigneeType"@, JsonV::Text("UNASSIGNED"@)),
        ],
    )
}

/// Plans creating one project.
pub fn create(
    global: &Global,
    project_name: &str,
    project_key: &str,
    project_leadaccountid: &str,
    project_type: &str,
    project_template: &str,
) -> (r: OperationPlan)
    ensures
        r.request.method is POST,
        r.request.url@ == url_of(global.domain@, Resource::Project, None),
        r.request.body matches Some(b) && b@ == create_payload(
            project_name@,
            project_key@,
            project_leadaccountid@,
            project_type@,
            project_template@,
        ),
        r.success_message@ == "Project "@ + project_key@ + " created"@,
        r.error_prefix@ == "Impossible to create the project "@ + project_key@ + ": "@,
{
    let url = generate_url(global.domain.as_str(), Resource::Project, None);
    let mut payload = crate::json::obj3(
        "name",
        text(project_name),
        "key",
        text(project_key),
        "leadAccountId",
        text(project_leadaccountid),
    );
    payload = obj_push(payload, "projectTypeKey", text(project_type));
    payload = obj_push(payload, "projectTemplateKey", text(project_template));
    payload = obj_push(payload, "assigneeType", text("UNASSIGNED"));
    proof {
        assert(payload@->Obj_0 =~= create_payload(
            project_name@,
            project_key@,
            project_leadaccountid@,
            project_type@,
            project_template@,
        )->Obj_0);
        assert(payload@ == create_payload(
            project_name@,
            project_key@,
            project_leadaccountid@,
            project_type@,
            project_template@,
        ));
    }
    OperationPlan {
        request: ApiRequest { method: HttpRequest::POST, url, body: Some(payload) },
        success_message: cat3("Project ", project_key, " created"),
        error_prefix: cat3("Impossible to create the project ", project_key, ": "),
    }
}

/// Plans deleting one project, behind the confirmation gate; `enable_undo`
/// keeps the project recoverable on the remote side.
pub fn delete(global: &Global, project_key: &str, enable_undo: bool) -> (r: ConfirmedOperation)
    ensures
        r.prompt@ == "Are you sure you want to delete the project key: "@ + project_key@ + "?"@,
        r.request.method is DELETE,
        r.request.url@ == url_of(global.domain@, Resource::Project, Some("/"@ + project_key@
            + "?enableUndo="@ + (if enable_undo {
            "true"@
        } else {
            "false"@
        }))),
        r.request.body is None,
        r.success_message@ == "Project "@ + project_key@ + " deleted"@,
        r.declined_message@ == "Project "@ + project_key@ + " not deleted."@,
        r.error_prefix@ == "Impossible to delete the project "@ + project_key@ + ": "@,
{
    let flag: &str = if enable_undo {
        "true"
    } else {
        "false"
    };
    let suffix = cat4("/", project_key, "?enableUndo=", flag);
    let url = generate_url(global.domain.as_str(), Resource::Project, Some(suffix.as_str()));
    ConfirmedOperation {
        prompt: cat3("Are you sure you want to delete the project key: ", project_key, "?"),
        request: ApiRequest { method: HttpRequest::DELETE, url, body: None },
        success_message: cat3("Project ", project_key, " deleted"),
        declined_message: cat3("Project ", project_key, " not deleted."),
        error_prefix: cat3("Impossible to delete the project ", project_key, ": "),
    }
}

/// Plans fetching one project (for its id).
pub fn get_id(global: &Global, project_key: &str) -> (r: OperationPlan)
    ensures
        r.request.method is GET,
        r.request.url@ == url_of(global.domain@, Resource::Project, Some("/"@ + project_key@)),
        r.request.body is None,
        r.error_prefix@ == "Impossible to get project "@ + project_key@ + " id: "@,
{
    let suffix = cat2("/", project_key);
    let url = generate_url(global.domain.as_str(), Resource::Project, Some(suffix.as_str()));
    OperationPlan {
        request: ApiRequest { method: HttpRequest::GET, url, body: None },
        success_message: String::new(),
        error_prefix: cat3("Impossible to get project ", project_key, " id: "),
    }
}

/// Reads the numeric project id out of the response body: the `id`
/// member, a decimal text that must fit a 32-bit integer.
pub fn project_id(body: &Json) -> (r: Result<i32, APIError>)
    ensures
        r is Ok <==> (as_text(obj_get(body@, "id"@)) matches Some(t) && is_decimal_text(t)
            && i32::MIN <= decimal_value(t) <= i32::MAX),
        r matches Ok(n) ==> (as_text(obj_get(body@, "id"@)) matches Some(t) && is_decimal_text(t)
            && decimal_value(t) == n),
        r matches Err(e) ==> e is Parse,
{
    match body.get("id") {
        Some(v) => match v.as_str() {
            Some(t) => match parse_i32(t.as_str()) {
                Some(n) => Ok(n),
                None => Err(APIError::Parse("project id is not a 32-bit number".to_owned())),
            },
            None => Err(APIError::Parse("project id is not a string".to_owned())),
        },
        None => Err(APIError::Parse("response carries no project id".to_owned())),
    }
}

/// Plans listing the features of one project.
pub fn list_features(global: &Global, project_key: &str) -> (r: OperationPlan)
    ensures
        r.request.method is GET,
        r.request.url@ == url_of(global.domain@, Resource::Project, Some("/"@ + project_key@
            + "/features"@)),
        r.request.body is None,
        r.error_prefix@ == "Impossible to list features for project "@ + project_key@ + ": "@,
{
    let suffix = cat3("/", project_key, "/features");
    let url = generate_url(global.domain.as_str(), Resource::Project, Some(suffix.as_str()));
    OperationPlan {
        request: ApiRequest { method: HttpRequest::GET, url, body: None },
        success_message: String::new(),
        error_prefix: cat3("Impossible to list features for project ", project_key, ": "),
    }
}

/// The text of a boolean.
pub open spec fn bool_text(b: bool) -> Seq<char> {
    if b {
        "true"@
    } else {
        "false"@
    }
}

/// The table row for one project feature: key, description, state, and
/// whether its toggle is locked.
pub open spec fn feature_row(x: JsonV) -> Option<Seq<Seq<char>>> {
    match (
        as_text(obj_get(x, "feature"@)),
        as_text(obj_get(x, "localisedDescription"@)),
        as_text(obj_get(x, "state"@)),
        obj_get(x, "toggleLocked"@),
    ) {
        (Some(key), Some(description), Some(state), Some(JsonV::Bool(locked))) => Some(
            seq![key, description, state, bool_text(locked)],
        ),
        _ => None,
    }
}

/// Reads the feature rows out of the response body: one row per entry of
/// `features`.
pub fn list_features_rows(body: &Json) -> (r: Result<Vec<Vec<String>>, APIError>)
    ensures
        r is Ok <==> (obj_get(body@, "features"@) matches Some(arr) && arr is Arr && (forall|
            q: int,
        |
            0 <= q < arr->Arr_0.len() ==> (#[trigger] feature_row(arr->Arr_0[q])) is Some)),
        r matches Ok(rows) ==> {
            let items = obj_get(body@, "features"@).unwrap()->Arr_0;
            &&& rows@.len() == items.len()
            &&& forall|q: int|
                0 <= q < items.len() ==> Some(strs_of(#[trigger] rows@[q]@)) == feature_row(
                    items[q],
                )
        },
        r matches Err(e) ==> e is Parse,
{
    let items = match body.get("features") {
        Some(v) => match v.as_array() {
            Some(items) => items,
            None => {
                return Err(APIError::Parse("feature list is not a list".to_owned()));
            },
        },
        None => {
            return Err(APIError::Parse("response carries no feature list".to_owned()));
        },
    };
    proof {
        crate::json::lemma_json_views_index(items@);
    }
    let ghost items_v = obj_get(body@, "features"@).unwrap()->Arr_0;
    let mut rows: Vec<Vec<String>> = Vec::new();
    let mut q: usize = 0;
    while q < items.len()
        invariant
            obj_get(body@, "features"@) == Some(JsonV::Arr(items_v)),
            items_v == crate::json::json_views(items@),
            items_v.len() == items@.len(),
            forall|p: int| 0 <= p < items@.len() ==> items_v[p] == items@[p]@,
            q <= items@.len(),
            rows@.len() == q,
            forall|p: int|
                0 <= p < q ==> Some(strs_of(#[trigger] rows@[p]@)) == feature_row(items_v[p]),
        decreases items@.len() - q,
    {
        let x = &items[q];
        let key = match required_text(x, "feature") {
            Ok(t) => t,
            Err(e) => {
                proof {
                    assert(feature_row(items_v[q as int]) is None);
                }
                return Err(e);
            },
        };
        let description = match required_text(x, "localisedDescription") {
            Ok(t) => t,
            Err(e) => {
                proof {
                    assert(feature_row(items_v[q as int]) is None);
                }
                return Err(e);
            },
        };
        let state = match required_text(x, "state") {
            Ok(t) => t,
            Err(e) => {
                proof {
                    assert(feature_row(items_v[q as int]) is None);
                }
                return Err(e);
            },
        };
        let locked = match x.get("toggleLocked") {
            Some(v) => match v.as_bool() {
                Some(b) => b,
                None => {
                    proof {
                        assert(feature_row(items_v[q as int]) is None);
                    }
                    return Err(APIError::Parse("feature lock is not a boolean".to_owned()));
                },
            },
            None => {
                proof {
                    assert(feature_row(items_v[q as int]) is None);
                }
                return Err(APIError::Parse("feature carries no lock state".to_owned()));
            },
        };
        let locked_text: &str = if locked {
            "true"
        } else {
            "false"
        };
        let mut cells: Vec<String> = Vec::new();
        cells.push(key);
        cells.push(description);
        cells.push(state);
        cells.push(locked_text.to_owned());
        proof {
            assert(strs_of(cells@) =~= feature_row(items_v[q as int]).unwrap());
        }
        rows.push(cells);
        q += 1;
    }
    proof {
        assert forall|p: int|
            0 <= p < items_v.len() implies (#[trigger] feature_row(items_v[p])) is Some by {
            assert(Some(strs_of(rows@[p]@)) == feature_row(items_v[p]));
        }
    }
    Ok(rows)
}

/// The text of the member named `key`, required to be a string.
fn required_text(x: &Json, key: &str) -> (r: Result<String, APIError>)
    ensures
        r matches Ok(t) ==> as_text(obj_get(x@, key@)) == Some(t@),
        r is Err <==> as_text(obj_get(x@, key@)) is None,
        r matches Err(e) ==> e is Parse,
{
    match x.get(key) {
        Some(v) => match v.as_str() {
            Some(t) => Ok(t.clone()),
            None => Err(APIError::Parse("expected a string member".to_owned())),
        },
        None => Err(APIError::Parse("a required member is absent".to_owned())),
    }
}

/// Plans the first page of the paginated project listing.
pub fn list_projects(global: &Global, start_at: &str, max_results: &str) -> (r: OperationPlan)
    ensures
        r.request.method is GET,
        r.request.url@ == url_of(global.domain@, Resource::Project, Some("/search?startAt="@
            + start_at@ + "&maxResults="@ + max_results@ + "&expand=description"@)),
        r.request.body is None,
        r.error_prefix@
            == "Impossible to retrieve a paginated list of projects visible to the user"@,
{
    let suffix1 = cat4("/search?startAt=", start_at, "&maxResults=", max_results);
    let suffix = cat2(suffix1.as_str(), "&expand=description");
    let url = generate_url(global.domain.as_str(), Resource::Project, Some(suffix.as_str()));
    OperationPlan {
        request: ApiRequest { method: HttpRequest::GET, url, body: None },
        success_message: String::new(),
        error_prefix: "Impossible to retrieve a paginated list of projects visible to the user"
            .to_owned(),
    }
}

/// The table row for one project: key, name, description and type.
pub open spec fn project_row(x: JsonV) -> Option<Seq<Seq<char>>> {
    match (
        as_text(obj_get(x, "key"@)),
        as_text(obj_get(x, "name"@)),
        as_text(obj_get(x, "description"@)),
        as_text(obj_get(x, "projectTypeKey"@)),
    ) {
        (Some(key), Some(name), Some(description), Some(type_key)) => Some(
            seq![key, name, description, type_key],
        ),
        _ => None,
    }
}

/// One parsed page of the project listing: its rows and, where the
/// service announced one, the URL of the next page. The walk follows
/// next-page links until a page carries none.
pub struct ProjectsPage {
    pub rows: Vec<Vec<String>>,
    pub next_page: Option<String>,
}

/// Reads one page of the project listing out of the response body: one
/// row per entry of `values`, and the optional `next_page` link.
pub fn parse_projects_page(body: &Json) -> (r: Result<ProjectsPage, APIError>)
    ensures
        r is Ok <==> ((obj_get(body@, "values"@) matches Some(arr) && arr is Arr && (forall|
            q: int,
        |
            0 <= q < arr->Arr_0.len() ==> (#[trigger] project_row(arr->Arr_0[q])) is Some))
            && match obj_get(body@, "next_page"@) {
            Some(v) => v is Text,
            None => true,
        }),
        r matches Ok(page) ==> {
            let items = obj_get(body@, "values"@).unwrap()->Arr_0;
            &&& page.rows@.len() == items.len()
            &&& forall|q: int|
                0 <= q < items.len() ==> Some(strs_of(#[trigger] page.rows@[q]@)) == project_row(
                    items[q],
                )
            &&& match obj_get(body@, "next_page"@) {
                Some(v) => page.next_page matches Some(u) && JsonV::Text(u@) == v,
                None => page.next_page is None,
            }
        },
        r matches Err(e) ==> e is Parse,
{
    let next_page: Option<String> = match body.get("next_page") {
        Some(v) => match v.as_str() {
            Some(t) => Some(t.clone()),
            None => {
                return Err(APIError::Parse("next page link is not a string".to_owned()));
            },
        },
        None => None,
    };
    let items = match body.get("values") {
        Some(v) => match v.as_array() {
            Some(items) => items,
            None => {
                return Err(APIError::Parse("project list is not a list".to_owned()));
            },
        },
        None => {
            return Err(APIError::Parse("response carries no project list".to_owned()));
        },
    };
    proof {
        crate::json::lemma_json_views_index(items@);
    }
    let ghost items_v = obj_get(body@, "values"@).unwrap()->Arr_0;
    let mut rows: Vec<Vec<String>> = Vec::new();
    let mut q: usize = 0;
    while q < items.len()
        invariant
            obj_get(body@, "values"@) == Some(JsonV::Arr(items_v)),
            items_v == crate::json::json_views(items@),
            items_v.len() == items@.len(),
            forall|p: int| 0 <= p < items@.len() ==> items_v[p] == items@[p]@,
            q <= items@.len(),
            rows@.len() == q,
            forall|p: int|
                0 <= p < q ==> Some(strs_of(#[trigger] rows@[p]@)) == project_row(items_v[p]),
        decreases items@.len() - q,
    {
        let x = &items[q];
        let ghost xv = items_v[q as int];
        let key = match required_text(x, "key") {
            Ok(t) => t,
            Err(e) => {
                proof {
                    assert(project_row(xv) is None);
                }
                return Err(e);
            },
        };
        let name = match required_text(x, "name") {
            Ok(t) => t,
            Err(e) => {
                proof {
                    assert(project_row(xv) is None);
                }
                return Err(e);
            },
        };
        let description = match required_text(x, "description") {
            Ok(t) => t,
            Err(e) => {
                proof {
                    assert(project_row(xv) is None);
                }
                return Err(e);
            },
        };
        let type_key = match required_text(x, "projectTypeKey") {
            Ok(t) => t,
            Err(e) => {
                proof {
                    assert(project_row(xv) is None);
                }
                return Err(e);
            },
        };
        let mut cells: Vec<String> = Vec::new();
        cells.push(key);
        cells.push(name);
        cells.push(description);
        cells.push(type_key);
        proof {
            assert(strs_of(cells@) =~= project_row(xv).unwrap());
        }
        rows.push(cells);
        q += 1;
    }
    proof {
        assert forall|p: int|
            0 <= p < items_v.len() implies (#[trigger] project_row(items_v[p])) is Some by {
            assert(Some(strs_of(rows@[p]@)) == project_row(items_v[p]));
        }
    }
    Ok(ProjectsPage { rows, next_page })
}

/// The report for an empty project listing.
pub fn no_projects_message() -> (r: String)
    ensures
        r@ == "No project in Jira"@,
{
    "No project in Jira".to_owned()
}

/// Plans listing the versions of one project.
pub fn list_versions(global: &Global, project_key: &str) -> (r: OperationPlan)
    ensures
        r.request.method is GET,
        r.request.url@ == url_of(global.domain@, Resource::Project, Some("/"@ + project_key@
            + "/versions"@)),
        r.request.body is None,
        r.error_prefix@ == "Impossible to list versions on project "@ + project_key@ + ": "@,
{
    let suffix = cat3("/", project_key, "/versions");
    let url = generate_url(global.domain.as_str(), Resource::Project, Some(suffix.as_str()));
    OperationPlan {
        request: ApiRequest { method: HttpRequest::GET, url, body: None },
        success_message: String::new(),
        error_prefix: cat3("Impossible to list versions on project ", project_key, ": "),
    }
}

/// The table row for one version: name, description (empty when absent),
/// the released and archived flags, and the id.
pub open spec fn version_row(x: JsonV) -> Option<Seq<Seq<char>>> {
    match (
        as_text(obj_get(x, "id"@)),
        as_text(obj_get(x, "name"@)),
        obj_get(x, "released"@),
        obj_get(x, "archived"@),
    ) {
        (Some(id), Some(name), Some(JsonV::Bool(released)), Some(JsonV::Bool(archived))) => Some(
            seq![
                name,
                text_or(obj_get(x, "description"@), Seq::<char>::empty()),
                bool_text(released),
                bool_text(archived),
                id,
            ],
        ),
        _ => None,
    }
}

/// Reads the version rows out of a response body that is itself a list,
/// in the response's own order.
pub fn list_versions_rows(body: &Json) -> (r: Result<Vec<Vec<String>>, APIError>)
    ensures
        r is Ok <==> (body@ is Arr && (forall|q: int|
            0 <= q < body@->Arr_0.len() ==> (#[trigger] version_row(body@->Arr_0[q])) is Some)),
        r matches Ok(rows) ==> {
            let items = body@->Arr_0;
            &&& rows@.len() == items.len()
            &&& forall|q: int|
                0 <= q < items.len() ==> Some(strs_of(#[trigger] rows@[q]@)) == version_row(
                    items[q],
                )
            &&& forall|q: int| 0 <= q < rows@.len() ==> (#[trigger] rows@[q]@).len() == 5
        },
        r matches Err(e) ==> e is Parse,
{
    let items = match body.as_array() {
        Some(items) => items,
        None => {
            return Err(APIError::Parse("version response is not a list".to_owned()));
        },
    };
    proof {
        crate::json::lemma_json_views_index(items@);
    }
    let ghost items_v = body@->Arr_0;
    let mut rows: Vec<Vec<String>> = Vec::new();
    let mut q: usize = 0;
    while q < items.len()
        invariant
            body@ == JsonV::Arr(items_v),
            items_v == crate::json::json_views(items@),
            items_v.len() == items@.len(),
            forall|p: int| 0 <= p < items@.len() ==> items_v[p] == items@[p]@,
            q <= items@.len(),
            rows@.len() == q,
            forall|p: int|
                0 <= p < q ==> Some(strs_of(#[trigger] rows@[p]@)) == version_row(items_v[p]),
            forall|p: int| 0 <= p < q ==> (#[trigger] rows@[p]@).len() == 5,
        decreases items@.len() - q,
    {
        let x = &items[q];
        let ghost xv = items_v[q as int];
        let id = match required_text(x, "id") {
            Ok(t) => t,
            Err(e) => {
                proof {
                    assert(version_row(xv) is None);
                }
                return Err(e);
            },
        };
        let name = match required_text(x, "name") {
            Ok(t) => t,
            Err(e) => {
                proof {
                    assert(version_row(xv) is None);
                }
                return Err(e);
            },
        };
        let description = crate::issue::text_field_or_empty(x, "description");
        let released = match x.get("released") {
            Some(v) => match v.as_bool() {
                Some(b) => b,
                None => {
                    proof {
                        assert(version_row(xv) is None);
                    }
                    return Err(APIError::Parse("release flag is not a boolean".to_owned()));
                },
            },
            None => {
                proof {
                    assert(version_row(xv) is None);
                }
                return Err(APIError::Parse("version carries no release flag".to_owned()));
            },
        };
        let archived = match x.get("archived") {
            Some(v) => match v.as_bool() {
                Some(b) => b,
                None => {
                    proof {
                        assert(version_row(xv) is None);
                    }
                    return Err(APIError::Parse("archive flag is not a boolean".to_owned()));
                },
            },
            None => {
                proof {
                    assert(version_row(xv) is None);
                }
                return Err(APIError::Parse("version carries no archive flag".to_owned()));
            },
        };
        let released_text: &str = if released {
            "true"
        } else {
            "false"
        };
        let archived_text: &str = if archived {
            "true"
        } else {
            "false"
        };
        let mut cells: Vec<String> = Vec::new();
        cells.push(name);
        cells.push(description);
        cells.push(released_text.to_owned());
        cells.push(archived_text.to_owned());
        cells.push(id);
        proof {
            assert(strs_of(cells@) =~= version_row(xv).unwrap());
        }
        rows.push(cells);
        q += 1;
    }
    proof {
        assert forall|p: int|
            0 <= p < items_v.len() implies (#[trigger] version_row(items_v[p])) is Some by {
            assert(Some(strs_of(rows@[p]@)) == version_row(items_v[p]));
        }
    }
    Ok(rows)
}

/// Rows stand in order of their first cell.
pub open spec fn rows_sorted_by_first(rows: Seq<Vec<String>>) -> bool {
    forall|i: int, j: int| 0 <= i < j < rows.len() ==> lex_le(rows[i]@[0]@, rows[j]@[0]@)
}

/// Sorts table rows by their first cell, lexicographically by code
/// point; the output holds exactly the input rows.
pub fn sort_rows_by_first(rows: Vec<Vec<String>>) -> (r: Vec<Vec<String>>)
    requires
        forall|i: int| 0 <= i < rows@.len() ==> (#[trigger] rows@[i]@).len() >= 1,
    ensures
        r@.to_multiset() == rows@.to_multiset(),
        r@.len() == rows@.len(),
        rows_sorted_by_first(r@),
        forall|i: int| 0 <= i < r@.len() ==> (#[trigger] r@[i]@).len() >= 1,
{
    let ghost orig = rows@;
    let mut rest = rows;
    let mut out: Vec<Vec<String>> = Vec::new();
    proof {
        assert forall|a: Vec<String>| out@.to_multiset().count(a) == 0 by {
            assert(!out@.contains(a));
        }
        assert(out@.to_multiset().add(rest@.to_multiset()) =~= orig.to_multiset());
    }
    while rest.len() > 0
        invariant
            out@.to_multiset().add(rest@.to_multiset()) == orig.to_multiset(),
            out@.len() + rest@.len() == orig.len(),
            rows_sorted_by_first(out@),
            forall|i: int| 0 <= i < out@.len() ==> (#[trigger] out@[i]@).len() >= 1,
            forall|i: int| 0 <= i < rest@.len() ==> (#[trigger] rest@[i]@).len() >= 1,
        decreases rest@.len(),
    {
        let ghost old_rest = rest@;
        let row = rest.remove(0);
        let row_key = str_chars(row[0].as_str());
        proof {
            assert(old_rest[0] == row);
            assert(old_rest.contains(row));
            assert(rest@.to_multiset() =~= old_rest.to_multiset().remove(row));
        }
        // find the first position whose key is strictly greater
        let mut k: usize = 0;
        loop
            invariant
                k <= out@.len(),
                row_key@ == row@[0]@,
                row@.len() >= 1,
                rows_sorted_by_first(out@),
                forall|i: int| 0 <= i < out@.len() ==> (#[trigger] out@[i]@).len() >= 1,
                forall|i: int| 0 <= i < k ==> lex_le((#[trigger] out@[i]@)[0]@, row@[0]@),
            ensures
                k <= out@.len(),
                forall|i: int| 0 <= i < k ==> lex_le((#[trigger] out@[i]@)[0]@, row@[0]@),
                k < out@.len() ==> !lex_le(out@[k as int]@[0]@, row@[0]@),
            decreases out@.len() - k,
        {
            if k == out.len() {
                break;
            }
            let out_key = str_chars(out[k][0].as_str());
            if !lex_le_chars(&out_key, &row_key) {
                break;
            }
            k += 1;
        }
        proof {
            if k < out@.len() {
                crate::text::lemma_lex_le_total(out@[k as int]@[0]@, row@[0]@);
            }
            assert forall|j: int|
                k <= j < out@.len() implies lex_le(row@[0]@, (#[trigger] out@[j]@)[0]@) by {
                if j > k {
                    crate::text::lemma_lex_le_trans(
                        row@[0]@,
                        out@[k as int]@[0]@,
                        out@[j as int]@[0]@,
                    );
                }
            }
        }
        let ghost pre_out = out@;
        let ghost pre_rest = rest@;
        out.insert(k, row);
        proof {
            assert(out@.to_multiset() =~= pre_out.to_multiset().insert(row));
            assert(out@.to_multiset().add(rest@.to_multiset()) =~= orig.to_multiset());
            assert(rows_sorted_by_first(out@)) by {
                assert forall|i: int, j: int|
                    0 <= i < j < out@.len() implies lex_le(
                    (#[trigger] out@[i]@)[0]@,
                    (#[trigger] out@[j]@)[0]@,
                ) by {
                    if j < k {
                    } else if i < k && j == k {
                    } else if i == k {
                    } else if i < k && j > k {
                        crate::text::lemma_lex_le_trans(
                            out@[i]@[0]@,
                            out@[k as int]@[0]@,
                            out@[j]@[0]@,
                        );
                    }
                }
            }
        }
    }
    proof {
        assert forall|a: Vec<String>| rest@.to_multiset().count(a) == 0 by {
            assert(!rest@.contains(a));
        }
        assert(out@.to_multiset() =~= orig.to_multiset());
    }
    out
}

/// Plans creating one version on a project; a project id that is not a
/// 32-bit decimal number is rejected before any request exists.
pub fn new_version(global: &Global, project_id: &str, version_name: &str) -> (r: Result<
    OperationPlan,
    APIError,
>)
    ensures
        r is Ok <==> (is_decimal_text(project_id@) && i32::MIN <= decimal_value(project_id@)
            <= i32::MAX),
        r matches Ok(plan) ==> {
            &&& plan.request.method is POST
            &&& plan.request.url@ == url_of(global.domain@, Resource::Version, None)
            &&& plan.request.body matches Some(b) && b@ == JsonV::Obj(
                seq![
                    ("name"@, JsonV::Text(version_name@)),
                    ("projectId"@, JsonV::Int(decimal_value(project_id@) as i64)),
                ],
            )
            &&& plan.success_message@ == "Version created: "@ + version_name@
            &&& plan.error_prefix@ == "Failed to create version "@ + version_name@ + ": "@
        },
        r matches Err(e) ==> e is Construction,
{
    let id = match parse_i32(project_id) {
        Some(n) => n,
        None => {
            return Err(
                APIError::Construction("the project id is not a 32-bit number".to_owned()),
            );
        },
    };
    let url = generate_url(global.domain.as_str(), Resource::Version, None);
    let payload = crate::json::obj2(
        "name",
        text(version_name),
        "projectId",
        Json::Int(id as i64),
    );
    Ok(
        OperationPlan {
            request: ApiRequest { method: HttpRequest::POST, url, body: Some(payload) },
            success_message: cat2("Version created: ", version_name),
            error_prefix: cat3("Failed to create version ", version_name, ": "),
        },
    )
}

/// Plans switching one project feature to a state.
pub fn set_feature_state(
    global: &Global,
    project_key: &str,
    project_feature_key: &str,
    project_feature_state: &str,
) -> (r: OperationPlan)
    ensures
        r.request.method is PUT,
        r.request.url@ == url_of(global.domain@, Resource::Project, Some("/"@ + project_key@
            + "/features/"@ + project_feature_key@)),
        r.request.body matches Some(b) && b@ == JsonV::Obj(
            seq![("state"@, JsonV::Text(project_feature_state@))],
        ),
        r.success_message@ == "Feature "@ + project_feature_key@ + " set to "@
            + project_feature_state@ + " on project "@ + project_key@,
        r.error_prefix@ == "Impossible to set feature "@ + project_feature_key@ + " to "@
            + project_feature_state@ + " on project "@ + project_key@ + ": "@,
{
    let suffix = cat4("/", project_key, "/features/", project_feature_key);
    let url = generate_url(global.domain.as_str(), Resource::Project, Some(suffix.as_str()));
    let payload = obj1("state", text(project_feature_state));
    let success1 = cat4("Feature ", project_feature_key, " set to ", project_feature_state);
    let error1 = cat4("Impossible to set feature ", project_feature_key, " to ", project_feature_state);
    OperationPlan {
        request: ApiRequest { method: HttpRequest::PUT, url, body: Some(payload) },
        success_message: cat3(success1.as_str(), " on project ", project_key),
        error_prefix: cat4(error1.as_str(), " on project ", project_key, ": "),
    }
}

} // verus!
