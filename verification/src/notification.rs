pub mod messages;
pub mod model;
pub mod notifications_query;
pub mod set_state_mutation;
