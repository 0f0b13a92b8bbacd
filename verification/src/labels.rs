//! The global label listing: the planned request and the verified reader
//! of its response.

use vstd::prelude::*;

use crate::json::{obj_get, ser, to_text, Json, JsonV};
use crate::request::{APIError, ApiRequest, OperationPlan};
use crate::text::cat4;
use crate::urls::{generate_url, url_of, Resource};
use crate::{Global, HttpRequest};

verus! {

/// Plans listing the labels of the global label field, page-wise.
pub fn list(global: &Global, start_at: &str, max_results: &str) -> (r: OperationPlan)
    ensures
        r.request.method is GET,
        r.request.url@ == url_of(global.domain@, Resource::Label, Some("?startAt="@ + start_at@
            + "&maxResults="@ + max_results@)),
        r.request.body is None,
        r.error_prefix@ == "Impossible to list labels: "@,
{
    let suffix = cat4("?startAt=", start_at, "&maxResults=", max_results);
    let url = generate_url(global.domain.as_str(), Resource::Label, Some(suffix.as_str()));
    OperationPlan {
        request: ApiRequest { method: HttpRequest::GET, url, body: None },
        success_message: String::new(),
        error_prefix: "Impossible to list labels: ".to_owned(),
    }
}

/// Reads the label lines out of the response body: every entry under
/// `values`, serialized back to its JSON text, one line each.
pub fn list_values(body: &Json) -> (r: Result<Vec<String>, APIError>)
    ensures
        r is Ok <==> (obj_get(body@, "values"@) matches Some(arr) && arr is Arr),
        r matches Ok(lines) ==> {
            let items = obj_get(body@, "values"@).unwrap()->Arr_0;
            &&& lines@.len() == items.len()
            &&& forall|q: int| 0 <= q < items.len() ==> (#[trigger] lines@[q]@) == ser(items[q])
        },
        r matches Err(e) ==> e is Parse,
{
    let items = match body.get("values") {
        Some(v) => match v.as_array() {
            Some(items) => items,
            None => {
                return Err(APIError::Parse("label list is not a list".to_owned()));
            },
        },
        None => {
            return Err(APIError::Parse("response carries no label list".to_owned()));
        },
    };
    proof {
        crate::json::lemma_json_views_index(items@);
    }
    let ghost items_v = obj_get(body@, "values"@).unwrap()->Arr_0;
    let mut lines: Vec<String> = Vec::new();
    let mut q: usize = 0;
    while q < items.len()
        invariant
            obj_get(body@, "values"@) == Some(JsonV::Arr(items_v)),
            items_v == crate::json::json_views(items@),
            items_v.len() == items@.len(),
            forall|p: int| 0 <= p < items@.len() ==> items_v[p] == items@[p]@,
            q <= items@.len(),
            lines@.len() == q,
            forall|p: int| 0 <= p < q ==> (#[trigger] lines@[p]@) == ser(items_v[p]),
        decreases items@.len() - q,
    {
        lines.push(to_text(&items[q]));
        q += 1;
    }
    Ok(lines)
}

} // verus!
