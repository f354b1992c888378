//! The client-visible text built around a freshly created short link.

use vstd::prelude::*;

verus! {

/// What a successful creation reports, before the short identifier is
/// appended: the full short link lives under this address.
pub open spec fn success_prefix() -> Seq<char> {
    "Success - shortened URL: http://localhost:1029/"@
}

/// The full success message for a freshly assigned identifier.
pub fn success_message(short_id: &String) -> (message: String)
    ensures
        message@ == success_prefix() + short_id@,
{
    let mut message = String::from_str("Success - shortened URL: http://localhost:1029/");
    message.append(short_id.as_str());
    message
}

} // verus!
