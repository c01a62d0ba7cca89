use vstd::prelude::*;

use crate::text::str_eq;

verus! {

/// The numeric role the remote API expects for a new API key: 1 grants read
/// and write, 0 grants read only, and any other role name is rejected.
pub fn role_code(role: &str) -> (r: Option<u8>)
    ensures
        role@ == "Read + Write"@ ==> r == Some(1u8),
        role@ == "Read"@ ==> r == Some(0u8),
        role@ != "Read + Write"@ && role@ != "Read"@ ==> r is None,
{
    proof {
        reveal_strlit("Read + Write");
        reveal_strlit("Read");
        assert("Read + Write"@.len() == 12);
        assert("Read"@.len() == 4);
    }
    if str_eq(role, "Read + Write") {
        Some(1)
    } else if str_eq(role, "Read") {
        Some(0)
    } else {
        None
    }
}

} // verus!
