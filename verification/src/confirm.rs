//! The confirmation gate: interpreting an interactive yes/no answer, and
//! resolving a gated destructive operation so that the guarded request
//! exists only when the operator confirmed it.

use vstd::prelude::*;

use crate::request::ApiRequest;
use crate::text::str_eq;

verus! {

/// The recognized affirmative answers.
pub open spec fn is_affirmative(s: Seq<char>) -> bool {
    s == "y"@ || s == "Y"@ || s == "yes"@ || s == "Yes"@ || s == "YES"@
}

/// The recognized negative answers.
pub open spec fn is_negative(s: Seq<char>) -> bool {
    s == "n"@ || s == "N"@ || s == "no"@ || s == "No"@ || s == "NO"@
}

/// Interprets one interactive answer: `Some(true)` on an affirmative
/// answer, `Some(false)` on a negative one, `None` on anything else (the
/// caller asks again).
pub fn parse_confirmation(answer: &str) -> (r: Option<bool>)
    ensures
        r == Some(true) <==> is_affirmative(answer@),
        r == Some(false) <==> is_negative(answer@),
        r is None <==> !is_affirmative(answer@) && !is_negative(answer@),
{
    proof {
        reveal_strlit("y");
        reveal_strlit("Y");
        reveal_strlit("yes");
        reveal_strlit("Yes");
        reveal_strlit("YES");
        reveal_strlit("n");
        reveal_strlit("N");
        reveal_strlit("no");
        reveal_strlit("No");
        reveal_strlit("NO");
        assert("y"@.len() == 1 && "Y"@.len() == 1 && "yes"@.len() == 3 && "Yes"@.len() == 3
            && "YES"@.len() == 3);
        assert("n"@.len() == 1 && "N"@.len() == 1 && "no"@.len() == 2 && "No"@.len() == 2
            && "NO"@.len() == 2);
        assert("y"@[0] == 'y' && "Y"@[0] == 'Y' && "n"@[0] == 'n' && "N"@[0] == 'N');
    }
    if str_eq(answer, "y") || str_eq(answer, "Y") || str_eq(answer, "yes") || str_eq(answer, "Yes")
        || str_eq(answer, "YES") {
        Some(true)
    } else if str_eq(answer, "n") || str_eq(answer, "N") || str_eq(answer, "no") || str_eq(
        answer,
        "No",
    ) || str_eq(answer, "NO") {
        Some(false)
    } else {
        None
    }
}

/// A destructive operation waiting on the operator: the prompt to show,
/// the request to issue only on a yes, and the two report texts.
pub struct ConfirmedOperation {
    pub prompt: String,
    pub request: ApiRequest,
    pub success_message: String,
    pub declined_message: String,
    pub error_prefix: String,
}

/// The two ways a gate can resolve: the request to issue together with
/// its success report and its diagnostic prefix, or only the declined
/// report.
pub enum GateOutcome {
    Proceed(ApiRequest, String, String),
    Declined(String),
}

impl ConfirmedOperation {
    /// One yes/no outcome for one guarded request.
    ///
    /// Law: the guarded request exists in the outcome exactly when the
    /// decision was yes; on a no the outcome holds no request at all,
    /// only the declined report, so the gated action never runs.
    pub fn resolve(self, confirmed: bool) -> (r: GateOutcome)
        ensures
            confirmed ==> r == GateOutcome::Proceed(
                self.request,
                self.success_message,
                self.error_prefix,
            ),
            !confirmed ==> r == GateOutcome::Declined(self.declined_message),
    {
        if confirmed {
            GateOutcome::Proceed(self.request, self.success_message, self.error_prefix)
        } else {
            GateOutcome::Declined(self.declined_message)
        }
    }
}

} // verus!
