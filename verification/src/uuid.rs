pub mod article_revision;
pub mod course_page_revision;
pub mod entity_revision;
pub mod generic_entity_revision;
pub mod messages;
pub mod uuid_query;
pub mod uuid_set_state_mutation;
