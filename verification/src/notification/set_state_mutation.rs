use vstd::prelude::*;

use crate::notification::model::{spec_set_state, NotificationStore, Notifications};
use crate::operation::{Error, SuccessOutput};

verus! {

/// Input of the read/unread mutation: which rows to flip, for whom, and to
/// which state.
#[derive(Clone, Debug)]
pub struct Payload {
    pub ids: Vec<i32>,
    pub user_id: i32,
    pub unread: bool,
}

impl Payload {
    /// Applies the whole batch to the store and reports success.
    pub fn execute(&self, store: &mut NotificationStore) -> (r: Result<SuccessOutput, Error>)
        ensures
            r matches Ok(out) && out.success,
            final(store).notifications@ == spec_set_state(
                old(store).notifications@,
                self.ids@,
                self.unread,
            ),
            final(store).events == old(store).events,
            final(store).uuids == old(store).uuids,
            final(store).next_id == old(store).next_id,
            old(store).well_formed() ==> final(store).well_formed(),
    {
        match Notifications::set_notification_state(self, store) {
            Ok(_) => Ok(SuccessOutput { success: true }),
            Err(e) => Err(e),
        }
    }
}

} // verus!
