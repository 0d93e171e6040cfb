//! Session ids.

use vstd::prelude::*;

verus! {

/// The shape of a session id: 36 characters in five groups, with hyphens
/// after the 8th, 12th, 16th and 20th digit, and the digit 4 at the head of
/// the third group.
pub open spec fn is_session_id(id: Seq<char>) -> bool {
    &&& id.len() == 36
    &&& id[8] == '-'
    &&& id[13] == '-'
    &&& id[18] == '-'
    &&& id[23] == '-'
    &&& id[14] == '4'
}

/// Calls `uuid::Uuid::new_v4` and formats the value with its `Display` impl.
///
/// Trusted: the text is the hyphenated form, 36 characters long with hyphens
/// at the positions 8, 13, 18 and 23, and the version digit 4 at position 14.
/// Nothing is claimed of the random digits. The call aborts where the
/// operating system cannot supply random bytes.
#[verifier::external_body]
fn random_uuid_text() -> (id: String)
    ensures
        is_session_id(id@),
{
    uuid::Uuid::new_v4().to_string()
}

/// Source of the ids that sessions go by.
pub struct Helper {}

impl Helper {
    pub fn new() -> Self {
        Self {  }
    }

    /// A fresh random id in the shape of a version 4 UUID.
    pub fn generate_unique_id(&self) -> (id: String)
        ensures
            is_session_id(id@),
    {
        random_uuid_text()
    }
}

} // verus!
