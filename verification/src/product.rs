//! Release policy.

use vstd::prelude::*;

verus! {

/// Self-updates and release downloads need a release source, and none is
/// configured: every request for one is answered with the same refusal.
pub fn require_release_source() -> (source: Result<(), String>)
    ensures
        source matches Err(refusal) && refusal@
            == "Mastr self-updates and release downloads are disabled: no Mastr release source is configured. Build locally; for a different remote platform provide MASTR_REMOTE_BINARY."@,
{
    Err(
        "Mastr self-updates and release downloads are disabled: no Mastr release source is configured. Build locally; for a different remote platform provide MASTR_REMOTE_BINARY.".to_owned(),
    )
}

} // verus!
