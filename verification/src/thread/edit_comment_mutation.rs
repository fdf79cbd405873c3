use vstd::prelude::*;

verus! {

/// Input of the comment-editing mutation: which comment, the new content,
/// and who asks.
#[derive(Clone, Debug)]
pub struct Payload {
    pub comment_id: i32,
    pub content: String,
    pub user_id: i32,
}

} // verus!
