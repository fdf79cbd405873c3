pub mod messages;
pub mod navigation_query;
