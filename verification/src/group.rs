//! Group operations: membership changes, creation, deletion and the
//! group listings, each as a fully planned request, with the verified
//! readers of the listing responses.

use vstd::prelude::*;

use crate::confirm::ConfirmedOperation;
use crate::json::{as_text, obj1, obj_get, text, Json, JsonV};
use crate::request::{APIError, ApiRequest, OperationPlan};
use crate::text::{cat2, cat3, cat5, strs_of};
use crate::urls::{generate_url, url_of, Resource};
use crate::{Global, HttpRequest};

verus! {

/// Plans adding one account to a group.
pub fn add_user(global: &Global, account_id: &str, group_id: &str) -> (r: OperationPlan)
    ensures
        r.request.method is POST,
        r.request.url@ == url_of(global.domain@, Resource::Group, Some("/user?groupId="@
            + group_id@)),
        r.request.body matches Some(b) && b@ == JsonV::Obj(
            seq![("accountId"@, JsonV::Text(account_id@))],
        ),
        r.success_message@ == "Account id "@ + account_id@ + " added to group id "@ + group_id@,
        r.error_prefix@ == Seq::<char>::empty(),
{
    let suffix = cat2("/user?groupId=", group_id);
    let url = generate_url(global.domain.as_str(), Resource::Group, Some(suffix.as_str()));
    let payload = obj1("accountId", text(account_id));
    OperationPlan {
        request: ApiRequest { method: HttpRequest::POST, url, body: Some(payload) },
        success_message: cat4_group(account_id, group_id, " added to group id "),
        error_prefix: String::new(),
    }
}

/// `Account id {a}{middle}{g}` — the shape the membership reports share.
fn cat4_group(account_id: &str, group_id: &str, middle: &str) -> (r: String)
    ensures
        r@ == "Account id "@ + account_id@ + middle@ + group_id@,
{
    crate::text::cat4("Account id ", account_id, middle, group_id)
}

/// Plans creating one group.
pub fn create(global: &Global, name: &str) -> (r: OperationPlan)
    ensures
        r.request.method is POST,
        r.request.url@ == url_of(global.domain@, Resource::Group, None),
        r.request.body matches Some(b) && b@ == JsonV::Obj(seq![("name"@, JsonV::Text(name@))]),
        r.success_message@ == "Group "@ + name@ + " created"@,
        r.error_prefix@ == "Impossible to create group "@ + name@ + ": "@,
{
    let url = generate_url(global.domain.as_str(), Resource::Group, None);
    let payload = obj1("name", text(name));
    OperationPlan {
        request: ApiRequest { method: HttpRequest::POST, url, body: Some(payload) },
        success_message: cat3("Group ", name, " created"),
        error_prefix: cat3("Impossible to create group ", name, ": "),
    }
}

/// Plans deleting one group, behind the confirmation gate.
pub fn delete(global: &Global, group_id: &str) -> (r: ConfirmedOperation)
    ensures
        r.prompt@ == "Are you sure you want to delete the group id: "@ + group_id@ + "?"@,
        r.request.method is DELETE,
        r.request.url@ == url_of(global.domain@, Resource::Group, Some("?groupId="@ + group_id@)),
        r.request.body is None,
        r.success_message@ == "The group id "@ + group_id@ + " has been deleted."@,
        r.declined_message@ == "Group id "@ + group_id@ + " not deleted."@,
        r.error_prefix@ == "Impossible to delete group id "@ + group_id@ + ": "@,
{
    let suffix = cat2("?groupId=", group_id);
    let url = generate_url(global.domain.as_str(), Resource::Group, Some(suffix.as_str()));
    ConfirmedOperation {
        prompt: cat3("Are you sure you want to delete the group id: ", group_id, "?"),
        request: ApiRequest { method: HttpRequest::DELETE, url, body: None },
        success_message: cat3("The group id ", group_id, " has been deleted."),
        declined_message: cat3("Group id ", group_id, " not deleted."),
        error_prefix: cat3("Impossible to delete group id ", group_id, ": "),
    }
}

/// Plans removing one account from a group, behind the confirmation
/// gate.
pub fn remove_user(global: &Global, account_id: &str, group_id: &str) -> (r: ConfirmedOperation)
    ensures
        r.prompt@ == "Are you sure you want to remove account id "@ + account_id@
            + " from group id: "@ + group_id@ + "?"@,
        r.request.method is DELETE,
        r.request.url@ == url_of(global.domain@, Resource::Group, Some("/user?groupId="@
            + group_id@ + "&accountId="@ + account_id@)),
        r.request.body is None,
        r.success_message@ == "Account id "@ + account_id@ + " removed from group id "@
            + group_id@,
        r.declined_message@ == "Account id "@ + account_id@ + " not removed from group id "@
            + group_id@,
        r.error_prefix@ == "Impossible to remove user: "@,
{
    let suffix = crate::text::cat4("/user?groupId=", group_id, "&accountId=", account_id);
    let url = generate_url(global.domain.as_str(), Resource::Group, Some(suffix.as_str()));
    ConfirmedOperation {
        prompt: cat5(
            "Are you sure you want to remove account id ",
            account_id,
            " from group id: ",
            group_id,
            "?",
        ),
        request: ApiRequest { method: HttpRequest::DELETE, url, body: None },
        success_message: cat4_group(account_id, group_id, " removed from group id "),
        declined_message: cat4_group(account_id, group_id, " not removed from group id "),
        error_prefix: "Impossible to remove user: ".to_owned(),
    }
}

/// Plans searching groups by a query text.
pub fn find(global: &Global, query: &str) -> (r: OperationPlan)
    ensures
        r.request.method is GET,
        r.request.url@ == url_of(global.domain@, Resource::Groups, Some("/picker?query="@
            + query@)),
        r.request.body is None,
        r.error_prefix@ == "Impossible to find group "@ + query@ + ": "@,
{
    let suffix = cat2("/picker?query=", query);
    let url = generate_url(global.domain.as_str(), Resource::Groups, Some(suffix.as_str()));
    OperationPlan {
        request: ApiRequest { method: HttpRequest::GET, url, body: None },
        success_message: String::new(),
        error_prefix: cat3("Impossible to find group ", query, ": "),
    }
}

/// Plans listing groups page-wise.
pub fn list_groups(global: &Global, start_at: &str, max_results: &str) -> (r: OperationPlan)
    ensures
        r.request.method is GET,
        r.request.url@ == url_of(global.domain@, Resource::Group, Some("/bulk?startAt="@
            + start_at@ + "&maxResults="@ + max_results@)),
        r.request.body is None,
        r.error_prefix@ == "Impossible to list groups: "@,
{
    let suffix = crate::text::cat4("/bulk?startAt=", start_at, "&maxResults=", max_results);
    let url = generate_url(global.domain.as_str(), Resource::Group, Some(suffix.as_str()));
    OperationPlan {
        request: ApiRequest { method: HttpRequest::GET, url, body: None },
        success_message: String::new(),
        error_prefix: "Impossible to list groups: ".to_owned(),
    }
}

/// The table row for one group: its name and its id.
pub open spec fn group_row(x: JsonV) -> Option<Seq<Seq<char>>> {
    match (as_text(obj_get(x, "name"@)), as_text(obj_get(x, "groupId"@))) {
        (Some(name), Some(group_id)) => Some(seq![name, group_id]),
        _ => None,
    }
}

/// Reads the group rows out of a response body, under the member named
/// `key` (`groups` for the search, `values` for the listing).
pub fn group_rows(body: &Json, key: &str) -> (r: Result<Vec<Vec<String>>, APIError>)
    ensures
        r is Ok <==> (obj_get(body@, key@) matches Some(arr) && arr is Arr && (forall|q: int|
            0 <= q < arr->Arr_0.len() ==> (#[trigger] group_row(arr->Arr_0[q])) is Some)),
        r matches Ok(rows) ==> {
            let items = obj_get(body@, key@).unwrap()->Arr_0;
            &&& rows@.len() == items.len()
            &&& forall|q: int|
                0 <= q < items.len() ==> Some(strs_of(#[trigger] rows@[q]@)) == group_row(
                    items[q],
                )
        },
        r matches Err(e) ==> e is Parse,
{
    let items = match body.get(key) {
        Some(v) => match v.as_array() {
            Some(items) => items,
            None => {
                return Err(APIError::Parse("group list is not a list".to_owned()));
            },
        },
        None => {
            return Err(APIError::Parse("response carries no group list".to_owned()));
        },
    };
    proof {
        crate::json::lemma_json_views_index(items@);
    }
    let ghost items_v = obj_get(body@, key@).unwrap()->Arr_0;
    let mut rows: Vec<Vec<String>> = Vec::new();
    let mut q: usize = 0;
    while q < items.len()
        invariant
            obj_get(body@, key@) == Some(JsonV::Arr(items_v)),
            items_v == crate::json::json_views(items@),
            items_v.len() == items@.len(),
            forall|p: int| 0 <= p < items@.len() ==> items_v[p] == items@[p]@,
            q <= items@.len(),
            rows@.len() == q,
            forall|p: int|
                0 <= p < q ==> Some(strs_of(#[trigger] rows@[p]@)) == group_row(items_v[p]),
        decreases items@.len() - q,
    {
        let x = &items[q];
        let name = match x.get("name") {
            Some(v) => match v.as_str() {
                Some(t) => t.clone(),
                None => {
                    proof {
                        assert(group_row(items_v[q as int]) is None);
                    }
                    return Err(APIError::Parse("group name is not a string".to_owned()));
                },
            },
            None => {
                proof {
                    assert(group_row(items_v[q as int]) is None);
                }
                return Err(APIError::Parse("group carries no name".to_owned()));
            },
        };
        let group_id = match x.get("groupId") {
            Some(v) => match v.as_str() {
                Some(t) => t.clone(),
                None => {
                    proof {
                        assert(group_row(items_v[q as int]) is None);
                    }
                    return Err(APIError::Parse("group id is not a string".to_owned()));
                },
            },
            None => {
                proof {
                    assert(group_row(items_v[q as int]) is None);
                }
                return Err(APIError::Parse("group carries no id".to_owned()));
            },
        };
        let mut cells: Vec<String> = Vec::new();
        cells.push(name);
        cells.push(group_id);
        proof {
            assert(strs_of(cells@) =~= group_row(items_v[q as int]).unwrap());
        }
        rows.push(cells);
        q += 1;
    }
    proof {
        assert forall|p: int|
            0 <= p < items_v.len() implies (#[trigger] group_row(items_v[p])) is Some by {
            assert(Some(strs_of(rows@[p]@)) == group_row(items_v[p]));
        }
    }
    Ok(rows)
}

/// Plans listing the members of one group.
pub fn list_users(
    global: &Global,
    group_id: &str,
    include_inactive: bool,
    start_at: &str,
    max_results: &str,
) -> (r: OperationPlan)
    ensures
        r.request.method is GET,
        r.request.url@ == url_of(global.domain@, Resource::Group, Some("/member?groupId="@
            + group_id@ + "&includeInactiveUsers="@ + (if include_inactive {
            "true"@
        } else {
            "false"@
        }) + "&startAt="@ + start_at@ + "&maxResults="@ + max_results@)),
        r.request.body is None,
        r.error_prefix@ == "Impossible to list users in group "@ + group_id@ + ": "@,
{
    let flag: &str = if include_inactive {
        "true"
    } else {
        "false"
    };
    let suffix1 = crate::text::cat4("/member?groupId=", group_id, "&includeInactiveUsers=", flag);
    let suffix = crate::text::cat5(
        suffix1.as_str(),
        "&startAt=",
        start_at,
        "&maxResults=",
        max_results,
    );
    let url = generate_url(global.domain.as_str(), Resource::Group, Some(suffix.as_str()));
    OperationPlan {
        request: ApiRequest { method: HttpRequest::GET, url, body: None },
        success_message: String::new(),
        error_prefix: cat3("Impossible to list users in group ", group_id, ": "),
    }
}

/// What the member listing reports: that no member was found, or one
/// table row per member.
pub enum UsersReport {
    NoUsers,
    Users(Vec<Vec<String>>),
}

/// Reads the member rows out of the response body: where `values` is
/// absent or null the no-users report, else one row per entry — name
/// (empty when absent), account id, display name (empty when absent).
pub fn list_users_report(body: &Json) -> (r: Result<UsersReport, APIError>)
    ensures
        (obj_get(body@, "values"@) is None || obj_get(body@, "values"@) == Some(JsonV::Null))
            <==> r == Ok::<UsersReport, APIError>(UsersReport::NoUsers),
        r is Err <==> (obj_get(body@, "values"@) matches Some(v) && !(v is Null) && !(v is Arr && (
        forall|q: int|
            0 <= q < v->Arr_0.len() ==> (#[trigger] crate::issue::voter_row(
                v->Arr_0[q],
            )) is Some))),
        match r {
            Ok(UsersReport::NoUsers) => true,
            Ok(UsersReport::Users(rows)) => {
                &&& obj_get(body@, "values"@) matches Some(arr) && arr is Arr
                &&& rows@.len() == obj_get(body@, "values"@).unwrap()->Arr_0.len()
                &&& forall|q: int|
                    0 <= q < rows@.len() ==> Some(strs_of(#[trigger] rows@[q]@))
                        == crate::issue::voter_row(obj_get(body@, "values"@).unwrap()->Arr_0[q])
            },
            Err(e) => e is Parse,
        },
{
    let items = match body.get("values") {
        Some(v) => {
            if v.is_null() {
                return Ok(UsersReport::NoUsers);
            }
            match v.as_array() {
                Some(items) => items,
                None => {
                    return Err(APIError::Parse("member list is not a list".to_owned()));
                },
            }
        },
        None => {
            return Ok(UsersReport::NoUsers);
        },
    };
    proof {
        crate::json::lemma_json_views_index(items@);
    }
    let ghost items_v = obj_get(body@, "values"@).unwrap()->Arr_0;
    let mut rows: Vec<Vec<String>> = Vec::new();
    let mut q: usize = 0;
    while q < items.len()
        invariant
            obj_get(body@, "values"@) == Some(JsonV::Arr(items_v)),
            items_v == crate::json::json_views(items@),
            items_v.len() == items@.len(),
            forall|p: int| 0 <= p < items@.len() ==> items_v[p] == items@[p]@,
            q <= items@.len(),
            rows@.len() == q,
            forall|p: int|
                0 <= p < q ==> Some(strs_of(#[trigger] rows@[p]@)) == crate::issue::voter_row(
                    items_v[p],
                ),
        decreases items@.len() - q,
    {
        let x = &items[q];
        let account_id = match x.get("accountId") {
            Some(v) => match v.as_str() {
                Some(t) => t.clone(),
                None => {
                    return Err(APIError::Parse("member account id is not a string".to_owned()));
                },
            },
            None => {
                return Err(APIError::Parse("member carries no account id".to_owned()));
            },
        };
        let name = crate::issue::text_field_or_empty(x, "name");
        let display_name = crate::issue::text_field_or_empty(x, "displayName");
        let mut cells: Vec<String> = Vec::new();
        cells.push(name);
        cells.push(account_id);
        cells.push(display_name);
        proof {
            assert(strs_of(cells@) =~= crate::issue::voter_row(items_v[q as int]).unwrap());
        }
        rows.push(cells);
        q += 1;
    }
    proof {
        assert forall|p: int|
            0 <= p < items_v.len() implies (#[trigger] crate::issue::voter_row(
            items_v[p],
        )) is Some by {
            assert(Some(strs_of(rows@[p]@)) == crate::issue::voter_row(items_v[p]));
        }
    }
    Ok(UsersReport::Users(rows))
}

} // verus!
