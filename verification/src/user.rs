//! User operations: creation, deletion, the account-id lookup and the
//! group membership listing, each as a fully planned request, with the
//! verified readers of the lookup responses.

use vstd::prelude::*;

use crate::confirm::ConfirmedOperation;
use crate::json::{as_text, obj2, obj_get, ser, text, to_text, Json, JsonV};
use crate::request::{APIError, ApiRequest, OperationPlan};
use crate::text::{cat2, cat3};
use crate::urls::{generate_url, url_of, Resource};
use crate::{Global, HttpRequest};

verus! {

/// Plans creating one user.
pub fn create(global: &Global, email: &str, display_name: &str) -> (r: OperationPlan)
    ensures
        r.request.method is POST,
        r.request.url@ == url_of(global.domain@, Resource::User, None),
        r.request.body matches Some(b) && b@ == JsonV::Obj(
            seq![
                ("emailAddress"@, JsonV::Text(email@)),
                ("displayName"@, JsonV::Text(display_name@)),
            ],
        ),
        r.success_message@ == "User "@ + email@ + " created"@,
        r.error_prefix@ == "Unable to create the user "@ + email@ + ": "@,
{
    let url = generate_url(global.domain.as_str(), Resource::User, None);
    let payload = obj2("emailAddress", text(email), "displayName", text(display_name));
    OperationPlan {
        request: ApiRequest { method: HttpRequest::POST, url, body: Some(payload) },
        success_message: cat3("User ", email, " created"),
        error_prefix: cat3("Unable to create the user ", email, ": "),
    }
}

/// Plans deleting one user, behind the confirmation gate.
pub fn delete(global: &Global, account_id: &str) -> (r: ConfirmedOperation)
    ensures
        r.prompt@ == "Are you sure you want to delete the account id: "@ + account_id@ + "?"@,
        r.request.method is DELETE,
        r.request.url@ == url_of(global.domain@, Resource::User, Some("?accountId="@
            + account_id@)),
        r.request.body is None,
        r.success_message@ == "User "@ + account_id@ + " deleted"@,
        r.declined_message@ == "User "@ + account_id@ + " not deleted."@,
        r.error_prefix@ == "Unable to delete the user "@ + account_id@ + ": "@,
{
    let suffix = cat2("?accountId=", account_id);
    let url = generate_url(global.domain.as_str(), Resource::User, Some(suffix.as_str()));
    ConfirmedOperation {
        prompt: cat3("Are you sure you want to delete the account id: ", account_id, "?"),
        request: ApiRequest { method: HttpRequest::DELETE, url, body: None },
        success_message: cat3("User ", account_id, " deleted"),
        declined_message: cat3("User ", account_id, " not deleted."),
        error_prefix: cat3("Unable to delete the user ", account_id, ": "),
    }
}

/// Plans looking an account id up by an email address.
pub fn get_account_id(global: &Global, email_address: &str) -> (r: OperationPlan)
    ensures
        r.request.method is GET,
        r.request.url@ == url_of(global.domain@, Resource::GroupUserPicker, Some("?query="@
            + email_address@)),
        r.request.body is None,
        r.error_prefix@ == Seq::<char>::empty(),
{
    let suffix = cat2("?query=", email_address);
    let url = generate_url(
        global.domain.as_str(),
        Resource::GroupUserPicker,
        Some(suffix.as_str()),
    );
    OperationPlan {
        request: ApiRequest { method: HttpRequest::GET, url, body: None },
        success_message: String::new(),
        error_prefix: String::new(),
    }
}

/// What the account lookup found: the account id of the first matching
/// user, or nobody.
pub enum AccountLookup {
    Found(String),
    NotFound,
}

/// The first user entry of an account lookup response body.
pub open spec fn first_user(body: JsonV) -> Option<JsonV> {
    match obj_get(body, "users"@) {
        Some(outer) => match obj_get(outer, "users"@) {
            Some(JsonV::Arr(items)) => if items.len() == 0 {
                None
            } else {
                Some(items[0])
            },
            _ => None,
        },
        None => None,
    }
}

/// A lookup response body whose user list has the shape the report
/// needs: a list under `users.users` that is empty or opens with an
/// entry carrying a textual account id.
pub open spec fn lookup_shape_ok(body: JsonV) -> bool {
    &&& obj_get(body, "users"@) matches Some(outer)
    &&& obj_get(obj_get(body, "users"@).unwrap(), "users"@) matches Some(arr) && arr is Arr && (
    arr->Arr_0.len() == 0 || as_text(obj_get(arr->Arr_0[0], "accountId"@)) is Some)
}

/// Reads the looked-up account id out of the response body: the
/// `accountId` of the first entry under `users.users`, or the not-found
/// report when that list is empty.
pub fn account_id_report(body: &Json) -> (r: Result<AccountLookup, APIError>)
    ensures
        r is Err <==> !lookup_shape_ok(body@),
        match r {
            Ok(AccountLookup::Found(id)) => as_text(
                match first_user(body@) {
                    Some(u) => obj_get(u, "accountId"@),
                    None => None,
                },
            ) == Some(id@),
            Ok(AccountLookup::NotFound) => {
                &&& obj_get(body@, "users"@) matches Some(outer)
                &&& obj_get(obj_get(body@, "users"@).unwrap(), "users"@) matches Some(arr)
                &&& arr is Arr
                &&& arr->Arr_0.len() == 0
            },
            Err(e) => e is Parse,
        },
{
    let outer = match body.get("users") {
        Some(v) => v,
        None => {
            return Err(APIError::Parse("response carries no user lookup".to_owned()));
        },
    };
    let items = match outer.get("users") {
        Some(v) => match v.as_array() {
            Some(items) => items,
            None => {
                return Err(APIError::Parse("user list is not a list".to_owned()));
            },
        },
        None => {
            return Err(APIError::Parse("lookup carries no user list".to_owned()));
        },
    };
    if items.len() == 0 {
        return Ok(AccountLookup::NotFound);
    }
    proof {
        crate::json::lemma_json_views_index(items@);
    }
    match items[0].get("accountId") {
        Some(v) => match v.as_str() {
            Some(t) => Ok(AccountLookup::Found(t.clone())),
            None => Err(APIError::Parse("account id is not a string".to_owned())),
        },
        None => Err(APIError::Parse("user carries no account id".to_owned())),
    }
}

/// Plans listing the groups one account belongs to.
pub fn get_user_groups(global: &Global, account_id: &str) -> (r: OperationPlan)
    ensures
        r.request.method is GET,
        r.request.url@ == url_of(global.domain@, Resource::User, Some("/groups?accountId="@
            + account_id@)),
        r.request.body is None,
        r.error_prefix@ == "Impossible to get groups for user "@ + account_id@ + ": "@,
{
    let suffix = cat2("/groups?accountId=", account_id);
    let url = generate_url(global.domain.as_str(), Resource::User, Some(suffix.as_str()));
    OperationPlan {
        request: ApiRequest { method: HttpRequest::GET, url, body: None },
        success_message: String::new(),
        error_prefix: cat3("Impossible to get groups for user ", account_id, ": "),
    }
}

/// What the membership listing reports: that no group was found, or the
/// serialized entries under `name`, one line each.
pub enum GroupsReport {
    NoGroups,
    Groups(Vec<String>),
}

/// Reads the membership report out of the response body: where `name` is
/// a list, each entry serialized back to its JSON text; anything else is
/// the no-groups report.
pub fn get_user_groups_report(body: &Json) -> (r: GroupsReport)
    ensures
        match r {
            GroupsReport::NoGroups => !(obj_get(body@, "name"@) matches Some(arr) && arr is Arr),
            GroupsReport::Groups(lines) => {
                &&& obj_get(body@, "name"@) matches Some(arr) && arr is Arr
                &&& lines@.len() == obj_get(body@, "name"@).unwrap()->Arr_0.len()
                &&& forall|q: int|
                    0 <= q < lines@.len() ==> (#[trigger] lines@[q]@) == ser(
                        obj_get(body@, "name"@).unwrap()->Arr_0[q],
                    )
            },
        },
{
    let items = match body.get("name") {
        Some(v) => match v.as_array() {
            Some(items) => items,
            None => {
                return GroupsReport::NoGroups;
            },
        },
        None => {
            return GroupsReport::NoGroups;
        },
    };
    proof {
        crate::json::lemma_json_views_index(items@);
    }
    let ghost items_v = obj_get(body@, "name"@).unwrap()->Arr_0;
    let mut lines: Vec<String> = Vec::new();
    let mut q: usize = 0;
    while q < items.len()
        invariant
            obj_get(body@, "name"@) == Some(JsonV::Arr(items_v)),
            items_v == crate::json::json_views(items@),
            items_v.len() == items@.len(),
            forall|p: int| 0 <= p < items@.len() ==> items_v[p] == items@[p]@,
            q <= items@.len(),
            lines@.len() == q,
            forall|p: int| 0 <= p < q ==> (#[trigger] lines@[p]@) == ser(items_v[p]),
        decreases items@.len() - q,
    {
        lines.push(to_text(&items[q]));
        q += 1;
    }
    GroupsReport::Groups(lines)
}

} // verus!
