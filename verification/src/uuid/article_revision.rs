use vstd::prelude::*;

use crate::uuid::entity_revision::{AbstractEntityRevision, EntityRevisionFields};

verus! {

/// An article revision as it is rendered: its four field slots, each falling
/// back to the empty string when the revision lacks the field.
#[derive(Debug)]
pub struct ArticleRevision {
    pub title: String,
    pub content: String,
    pub meta_title: String,
    pub meta_description: String,
}

impl ArticleRevision {
    pub fn from(abstract_entity_revision: &AbstractEntityRevision) -> (r: Self)
        ensures
            r.title@ == EntityRevisionFields::spec_get_or(
                abstract_entity_revision.fields.0@,
                "title"@,
                ""@,
            ),
            r.content@ == EntityRevisionFields::spec_get_or(
                abstract_entity_revision.fields.0@,
                "content"@,
                ""@,
            ),
            r.meta_title@ == EntityRevisionFields::spec_get_or(
                abstract_entity_revision.fields.0@,
                "meta_title"@,
                ""@,
            ),
            r.meta_description@ == EntityRevisionFields::spec_get_or(
                abstract_entity_revision.fields.0@,
                "meta_description"@,
                ""@,
            ),
    {
        let title = abstract_entity_revision.fields.get_or("title", "");
        let content = abstract_entity_revision.fields.get_or("content", "");
        let meta_title = abstract_entity_revision.fields.get_or("meta_title", "");
        let meta_description = abstract_entity_revision.fields.get_or("meta_description", "");

        ArticleRevision { title, content, meta_title, meta_description }
    }
}

} // verus!
