use vstd::prelude::*;

verus! {

/// Input of the reply mutation: which thread to answer, with what, by whom,
/// and whether the author subscribes to the thread and the new comment.
#[derive(Clone, Debug)]
pub struct Payload {
    pub thread_id: i32,
    pub content: String,
    pub user_id: i32,
    pub subscribe: bool,
    pub send_email: bool,
}

} // verus!
