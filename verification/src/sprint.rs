//! Sprint operations: creation, deletion and the sprint lookup, each as
//! a fully planned request, with the verified readers of the responses.

use vstd::prelude::*;

use crate::json::{
    i64_string, int_chars, obj_get, obj_push, ser, text, to_text, Json, JsonV,
};
use crate::request::{APIError, ApiRequest, OperationPlan};
use crate::text::{cat2, cat3, strs_of};
use crate::urls::{generate_url, url_of, Resource};
use crate::{Global, HttpRequest};

verus! {

/// The body that creates a sprint.
pub open spec fn create_payload(
    name: Seq<char>,
    start_date: Seq<char>,
    end_date: Seq<char>,
    origin_board_id: i64,
    goal: Seq<char>,
) -> JsonV {
    JsonV::Obj(
        seq![
            ("originBoardId"@, JsonV::Int(origin_board_id)),
            ("goal"@, JsonV::Text(goal)),
            ("endDate"@, JsonV::Text(end_date)),
            ("startDate"@, JsonV::Text(start_date)),
            ("name"@, JsonV::Text(name)),
        ],
    )
}

/// Plans creating one sprint.
pub fn create(
    global: &Global,
    name: &str,
    start_date: &str,
    end_date: &str,
    origin_board_id: i64,
    goal: &str,
) -> (r: OperationPlan)
    ensures
        r.request.method is POST,
        r.request.url@ == url_of(global.domain@, Resource::Sprint, None),
        r.request.body matches Some(b) && b@ == create_payload(
            name@,
            start_date@,
            end_date@,
            origin_board_id,
            goal@,
        ),
        r.success_message@ == Seq::<char>::empty(),
        r.error_prefix@ == "Failed to create sprint: "@,
{
    let url = generate_url(global.domain.as_str(), Resource::Sprint, None);
    let mut payload = crate::json::obj3(
        "originBoardId",
        Json::Int(origin_board_id),
        "goal",
        text(goal),
        "endDate",
        text(end_date),
    );
    payload = obj_push(payload, "startDate", text(start_date));
    payload = obj_push(payload, "name", text(name));
    proof {
        assert(payload@->Obj_0 =~= create_payload(
            name@,
            start_date@,
            end_date@,
            origin_board_id,
            goal@,
        )->Obj_0);
        assert(payload@ == create_payload(name@, start_date@, end_date@, origin_board_id, goal@));
    }
    OperationPlan {
        request: ApiRequest { method: HttpRequest::POST, url, body: Some(payload) },
        success_message: String::new(),
        error_prefix: "Failed to create sprint: ".to_owned(),
    }
}

/// Reads the report for a created sprint out of the response body: the
/// new sprint's name and id, each shown as its JSON text.
pub fn create_report(body: &Json) -> (r: Result<String, APIError>)
    ensures
        match (obj_get(body@, "name"@), obj_get(body@, "id"@)) {
            (Some(n), Some(i)) => r matches Ok(m) && m@ == "Sprint "@ + ser(n)
                + " created with id: "@ + ser(i),
            _ => r matches Err(e) && e is Parse,
        },
{
    let name = match body.get("name") {
        Some(v) => v,
        None => {
            return Err(APIError::Parse("response carries no sprint name".to_owned()));
        },
    };
    let id = match body.get("id") {
        Some(v) => v,
        None => {
            return Err(APIError::Parse("response carries no sprint id".to_owned()));
        },
    };
    let name_text = to_text(name);
    let id_text = to_text(id);
    Ok(
        crate::text::cat4(
            "Sprint ",
            name_text.as_str(),
            " created with id: ",
            id_text.as_str(),
        ),
    )
}

/// Plans deleting one sprint.
pub fn delete(global: &Global, sprint_id: i64) -> (r: OperationPlan)
    ensures
        r.request.method is DELETE,
        r.request.url@ == url_of(global.domain@, Resource::Sprint, Some("/"@ + int_chars(
            sprint_id as int,
        ))),
        r.request.body is None,
        r.success_message@ == "Sprint "@ + int_chars(sprint_id as int) + " deleted"@,
        r.error_prefix@ == "Impossible to delete sprint "@ + int_chars(sprint_id as int) + ": "@,
{
    let id_text = i64_string(sprint_id);
    let suffix = cat2("/", id_text.as_str());
    let url = generate_url(global.domain.as_str(), Resource::Sprint, Some(suffix.as_str()));
    OperationPlan {
        request: ApiRequest { method: HttpRequest::DELETE, url, body: None },
        success_message: cat3("Sprint ", id_text.as_str(), " deleted"),
        error_prefix: cat3("Impossible to delete sprint ", id_text.as_str(), ": "),
    }
}

/// Plans fetching one sprint.
pub fn get(global: &Global, sprint_id: i64) -> (r: OperationPlan)
    ensures
        r.request.method is GET,
        r.request.url@ == url_of(global.domain@, Resource::Sprint, Some("/"@ + int_chars(
            sprint_id as int,
        ))),
        r.request.body is None,
        r.error_prefix@ == "Failed to get sprint: "@,
{
    let id_text = i64_string(sprint_id);
    let suffix = cat2("/", id_text.as_str());
    let url = generate_url(global.domain.as_str(), Resource::Sprint, Some(suffix.as_str()));
    OperationPlan {
        request: ApiRequest { method: HttpRequest::GET, url, body: None },
        success_message: String::new(),
        error_prefix: "Failed to get sprint: ".to_owned(),
    }
}

/// The table row for one sprint: id, name, and the state and goal
/// (empty when absent).
pub open spec fn sprint_row(x: JsonV) -> Option<Seq<Seq<char>>> {
    match (
        crate::json::as_text(obj_get(x, "id"@)),
        crate::json::as_text(obj_get(x, "name"@)),
    ) {
        (Some(id), Some(name)) => Some(
            seq![
                id,
                name,
                crate::json::text_or(obj_get(x, "state"@), Seq::<char>::empty()),
                crate::json::text_or(obj_get(x, "goal"@), Seq::<char>::empty()),
            ],
        ),
        _ => None,
    }
}

/// Reads the sprint rows out of a response body that is itself a list.
pub fn get_rows(body: &Json) -> (r: Result<Vec<Vec<String>>, APIError>)
    ensures
        r is Ok <==> (body@ is Arr && (forall|q: int|
            0 <= q < body@->Arr_0.len() ==> (#[trigger] sprint_row(body@->Arr_0[q])) is Some)),
        r matches Ok(rows) ==> {
            let items = body@->Arr_0;
            &&& rows@.len() == items.len()
            &&& forall|q: int|
                0 <= q < items.len() ==> Some(strs_of(#[trigger] rows@[q]@)) == sprint_row(
                    items[q],
                )
        },
        r matches Err(e) ==> e is Parse,
{
    let items = match body.as_array() {
        Some(items) => items,
        None => {
            return Err(APIError::Parse("sprint response is not a list".to_owned()));
        },
    };
    proof {
        crate::json::lemma_json_views_index(items@);
    }
    let ghost items_v = body@->Arr_0;
    let mut rows: Vec<Vec<String>> = Vec::new();
    let mut q: usize = 0;
    while q < items.len()
        invariant
            body@ == JsonV::Arr(items_v),
            items_v == crate::json::json_views(items@),
            items_v.len() == items@.len(),
            forall|p: int| 0 <= p < items@.len() ==> items_v[p] == items@[p]@,
            q <= items@.len(),
            rows@.len() == q,
            forall|p: int|
                0 <= p < q ==> Some(strs_of(#[trigger] rows@[p]@)) == sprint_row(items_v[p]),
        decreases items@.len() - q,
    {
        let x = &items[q];
        let id = match x.get("id") {
            Some(v) => match v.as_str() {
                Some(t) => t.clone(),
                None => {
                    proof {
                        assert(sprint_row(items_v[q as int]) is None);
                    }
                    return Err(APIError::Parse("sprint id is not a string".to_owned()));
                },
            },
            None => {
                proof {
                    assert(sprint_row(items_v[q as int]) is None);
                }
                return Err(APIError::Parse("sprint carries no id".to_owned()));
            },
        };
        let name = match x.get("name") {
            Some(v) => match v.as_str() {
                Some(t) => t.clone(),
                None => {
                    proof {
                        assert(sprint_row(items_v[q as int]) is None);
                    }
                    return Err(APIError::Parse("sprint name is not a string".to_owned()));
                },
            },
            None => {
                proof {
                    assert(sprint_row(items_v[q as int]) is None);
                }
                return Err(APIError::Parse("sprint carries no name".to_owned()));
            },
        };
        let state = crate::issue::text_field_or_empty(x, "state");
        let goal = crate::issue::text_field_or_empty(x, "goal");
        let mut cells: Vec<String> = Vec::new();
        cells.push(id);
        cells.push(name);
        cells.push(state);
        cells.push(goal);
        proof {
            assert(strs_of(cells@) =~= sprint_row(items_v[q as int]).unwrap());
        }
        rows.push(cells);
        q += 1;
    }
    proof {
        assert forall|p: int|
            0 <= p < items_v.len() implies (#[trigger] sprint_row(items_v[p])) is Some by {
            assert(Some(strs_of(rows@[p]@)) == sprint_row(items_v[p]));
        }
    }
    Ok(rows)
}

} // verus!
