//! The closed set of REST resources the client addresses, each with its
//! base path, and the composition of a full request URL.

use vstd::prelude::*;
use vstd::string::*;

verus! {

/// The resources of the remote service's REST API. A closed set: there
/// is no way to ask for a path that does not exist.
#[derive(Clone, Copy)]
pub enum Resource {
    Group,
    GroupUserPicker,
    Groups,
    Issue,
    IssueLinkTypes,
    Label,
    Priority,
    Project,
    Sprint,
    User,
    Version,
}

/// The base path of each resource.
pub open spec fn resource_path(r: Resource) -> Seq<char> {
    match r {
        Resource::Group => "/rest/api/3/group"@,
        Resource::GroupUserPicker => "/rest/api/3/groupuserpicker"@,
        Resource::Groups => "/rest/api/3/groups"@,
        Resource::Issue => "/rest/api/3/issue"@,
        Resource::IssueLinkTypes => "/rest/api/3/issueLinkType"@,
        Resource::Label => "/rest/api/3/label"@,
        Resource::Priority => "/rest/api/3/priority"@,
        Resource::Project => "/rest/api/3/project"@,
        Resource::Sprint => "/rest/agile/1.0/sprint"@,
        Resource::User => "/rest/api/3/user"@,
        Resource::Version => "/rest/api/3/version"@,
    }
}

/// The full URL for a request: scheme, domain, resource path, and the
/// optional suffix (a sub-path or query string).
pub open spec fn url_of(domain: Seq<char>, r: Resource, query: Option<Seq<char>>) -> Seq<char> {
    "https://"@ + domain + resource_path(r) + match query {
        Some(q) => q,
        None => Seq::<char>::empty(),
    }
}

/// Composes the URL for `key` on `domain`, with `query` appended when
/// present.
pub fn generate_url(domain: &str, key: Resource, query: Option<&str>) -> (r: String)
    ensures
        r@ == url_of(domain@, key, match query {
            Some(q) => Some(q@),
            None => None,
        }),
{
    let path: &str = match key {
        Resource::Group => "/rest/api/3/group",
        Resource::GroupUserPicker => "/rest/api/3/groupuserpicker",
        Resource::Groups => "/rest/api/3/groups",
        Resource::Issue => "/rest/api/3/issue",
        Resource::IssueLinkTypes => "/rest/api/3/issueLinkType",
        Resource::Label => "/rest/api/3/label",
        Resource::Priority => "/rest/api/3/priority",
        Resource::Project => "/rest/api/3/project",
        Resource::Sprint => "/rest/agile/1.0/sprint",
        Resource::User => "/rest/api/3/user",
        Resource::Version => "/rest/api/3/version",
    };
    let mut url = String::from_str("https://");
    url.append(domain);
    url.append(path);
    match query {
        Some(q) => {
            url.append(q);
        },
        None => {
            proof {
                assert(url@ =~= url_of(domain@, key, None));
            }
        },
    }
    url
}

} // verus!
