use vstd::prelude::*;

use crate::notification::model::{spec_fetch, NotificationStore, Notifications};
use crate::operation::Error;

verus! {

/// Input of the notifications query: whose notifications to list.
#[derive(Clone, Copy, Debug)]
pub struct Payload {
    pub user_id: i32,
}

impl Payload {
    /// Runs the query against one consistent snapshot of the store.
    pub fn execute(&self, store: &NotificationStore) -> (r: Result<Notifications, Error>)
        ensures
            r matches Ok(ns) && ns.user_id == self.user_id && ns.notifications@ == spec_fetch(
                *store,
                self.user_id,
            ),
    {
        Notifications::fetch_via_transaction(self.user_id, store)
    }
}

} // verus!
