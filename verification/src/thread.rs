pub mod create_comment_mutation;
pub mod create_thread_mutation;
pub mod edit_comment_mutation;
pub mod model;
pub mod set_thread_archived_mutation;
