use vstd::prelude::*;

use crate::uuid::entity_revision::{AbstractEntityRevision, EntityRevisionFields};

verus! {

/// A course-page revision as it is rendered: title and content, each falling
/// back to the empty string.
#[derive(Debug)]
pub struct CoursePageRevision {
    pub title: String,
    pub content: String,
}

impl CoursePageRevision {
    pub fn from(abstract_entity_revision: &AbstractEntityRevision) -> (r: Self)
        ensures
            r.title@ == EntityRevisionFields::spec_get_or(
                abstract_entity_revision.fields.0@,
                "title"@,
                ""@,
            ),
            r.content@ == EntityRevisionFields::spec_get_or(
                abstract_entity_revision.fields.0@,
                "content"@,
                ""@,
            ),
    {
        let title = abstract_entity_revision.fields.get_or("title", "");
        let content = abstract_entity_revision.fields.get_or("content", "");

        CoursePageRevision { title, content }
    }
}

} // verus!
