use vstd::prelude::*;

use crate::uuid::entity_revision::{AbstractEntityRevision, EntityRevisionFields};

verus! {

/// Any other revision as it is rendered: only its content, falling back to
/// the empty string.
#[derive(Debug)]
pub struct GenericRevision {
    pub content: String,
}

impl GenericRevision {
    pub fn from(abstract_entity_revision: &AbstractEntityRevision) -> (r: Self)
        ensures
            r.content@ == EntityRevisionFields::spec_get_or(
                abstract_entity_revision.fields.0@,
                "content"@,
                ""@,
            ),
    {
        let content = abstract_entity_revision.fields.get_or("content", "");

        GenericRevision { content }
    }
}

} // verus!
