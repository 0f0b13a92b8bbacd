//! The version check: the release-feed URL, the reading of the latest
//! release tag out of the feed's response, and the comparison of the
//! running version against it.

use vstd::prelude::*;

use crate::json::{as_text, obj_get, Json};
use crate::request::APIError;
use crate::text::{cat2, lex_le, lex_le_chars, str_chars, str_eq};

verus! {

/// The URL of the latest-release feed for this tool's repository.
pub fn get_api_url() -> (r: String)
    ensures
        r@ == "https://api.github.com/repos/sycured/jira_cli/releases/latest"@,
{
    "https://api.github.com/repos/sycured/jira_cli/releases/latest".to_owned()
}

/// `s` with every leading `v` removed.
pub open spec fn strip_v(s: Seq<char>) -> Seq<char>
    decreases s.len(),
{
    if s.len() > 0 && s[0] == 'v' {
        strip_v(s.skip(1))
    } else {
        s
    }
}

/// Reads the latest version out of the release feed's response body: the
/// `tag_name` member with its leading `v` removed.
pub fn extract_version_from_response(body: &Json) -> (r: Result<String, APIError>)
    ensures
        match as_text(obj_get(body@, "tag_name"@)) {
            Some(tag) => r matches Ok(version) && version@ == strip_v(tag),
            None => r matches Err(e) && e matches APIError::Parse(m) && m@
                == "Failed to parse version from JSON"@,
        },
{
    let tag = match body.get("tag_name") {
        Some(v) => match v.as_str() {
            Some(t) => t,
            None => {
                return Err(APIError::Parse("Failed to parse version from JSON".to_owned()));
            },
        },
        None => {
            return Err(APIError::Parse("Failed to parse version from JSON".to_owned()));
        },
    };
    let chars = str_chars(tag.as_str());
    let mut i: usize = 0;
    proof {
        assert(tag@.skip(0) =~= tag@);
    }
    loop
        invariant
            chars@ == tag@,
            i <= chars@.len(),
            strip_v(tag@) == strip_v(tag@.skip(i as int)),
        ensures
            i <= tag@.len(),
            strip_v(tag@) == tag@.skip(i as int),
        decreases chars@.len() - i,
    {
        if i == chars.len() {
            proof {
                assert(tag@.skip(i as int) =~= Seq::<char>::empty());
            }
            break;
        }
        proof {
            assert(tag@.skip(i as int)[0] == tag@[i as int]);
        }
        if chars[i] != 'v' {
            break;
        }
        proof {
            assert(tag@.skip(i as int).skip(1) =~= tag@.skip(i + 1));
        }
        i += 1;
    }
    let mut out: Vec<char> = Vec::new();
    let mut j = i;
    while j < chars.len()
        invariant
            chars@ == tag@,
            i <= j <= chars@.len(),
            out@ == tag@.subrange(i as int, j as int),
        decreases chars@.len() - j,
    {
        out.push(chars[j]);
        proof {
            assert(tag@.subrange(i as int, j + 1) =~= tag@.subrange(i as int, j as int).push(
                tag@[j as int],
            ));
        }
        j += 1;
    }
    proof {
        assert(out@ =~= tag@.skip(i as int));
    }
    Ok(crate::text::chars_to_string(&out))
}

/// The report comparing the running version against the latest release:
/// up to date on equality, outdated below it, unreleased above it (by
/// code-point order on the version texts).
pub fn print_version_info(actual_version: &str, latest_version: &str) -> (r: String)
    ensures
        actual_version@ == latest_version@ ==> r@ == "You are using the latest version."@,
        actual_version@ != latest_version@ && lex_le(actual_version@, latest_version@) ==> r@
            == "You are using an outdated version. The latest version is "@ + latest_version@,
        actual_version@ != latest_version@ && !lex_le(actual_version@, latest_version@) ==> r@
            == "You are using an unreleased version. The latest version is "@ + latest_version@,
{
    if str_eq(actual_version, latest_version) {
        "You are using the latest version.".to_owned()
    } else {
        let a = str_chars(actual_version);
        let l = str_chars(latest_version);
        if lex_le_chars(&a, &l) {
            cat2("You are using an outdated version. The latest version is ", latest_version)
        } else {
            cat2("You are using an unreleased version. The latest version is ", latest_version)
        }
    }
}

/// The whole decision of the version check: given the running version
/// and the release feed's response body, the report to print.
pub fn logic_commands(actual_version: &str, body: &Json) -> (r: Result<String, APIError>)
    ensures
        match as_text(obj_get(body@, "tag_name"@)) {
            Some(tag) => {
                &&& r is Ok
                &&& (actual_version@ == strip_v(tag) ==> r.unwrap()@
                    == "You are using the latest version."@)
                &&& (actual_version@ != strip_v(tag) && lex_le(actual_version@, strip_v(tag))
                    ==> r.unwrap()@
                    == "You are using an outdated version. The latest version is "@ + strip_v(
                    tag,
                ))
                &&& (actual_version@ != strip_v(tag) && !lex_le(actual_version@, strip_v(tag))
                    ==> r.unwrap()@
                    == "You are using an unreleased version. The latest version is "@ + strip_v(
                    tag,
                ))
            },
            None => r matches Err(e) && e matches APIError::Parse(m) && m@
                == "Failed to parse version from JSON"@,
        },
{
    let latest = extract_version_from_response(body)?;
    Ok(print_version_info(actual_version, latest.as_str()))
}

} // verus!
