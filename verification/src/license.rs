//! The copyright and license report.

use vstd::prelude::*;

use crate::text::cat4;

verus! {

/// The fixed body of the license report, after the tool's name and
/// description.
pub fn license_body() -> (r: &'static str)
    ensures
        r@
            == "\n\nCopyright (c) 2022, sycured\nAll rights reserved\n\nSPDX-License-Identifier: GPL-2.0-only\n\nLicense file:\n- https://github.com/sycured/jira_cli/blob/main/LICENSE\n- https://www.gnu.org/licenses/old-licenses/gpl-2.0.txt"@,
{
    "\n\nCopyright (c) 2022, sycured\nAll rights reserved\n\nSPDX-License-Identifier: GPL-2.0-only\n\nLicense file:\n- https://github.com/sycured/jira_cli/blob/main/LICENSE\n- https://www.gnu.org/licenses/old-licenses/gpl-2.0.txt"
}

/// The license report: the tool's name, its description, and the fixed
/// copyright and license block.
pub fn logic_commands(name: &str, description: &str) -> (r: String)
    ensures
        r@ == name@ + "\n"@ + description@ + license_text_tail(),
{
    cat4(name, "\n", description, license_body())
}

/// The view of the fixed license block.
pub open spec fn license_text_tail() -> Seq<char> {
    "\n\nCopyright (c) 2022, sycured\nAll rights reserved\n\nSPDX-License-Identifier: GPL-2.0-only\n\nLicense file:\n- https://github.com/sycured/jira_cli/blob/main/LICENSE\n- https://www.gnu.org/licenses/old-licenses/gpl-2.0.txt"@
}

} // verus!
