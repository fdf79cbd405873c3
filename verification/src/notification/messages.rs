use vstd::prelude::*;

use crate::notification::notifications_query;
use crate::notification::set_state_mutation;

verus! {

/// The notification operations of the message envelope.
#[derive(Debug)]
pub enum NotificationMessage {
    NotificationsQuery(notifications_query::Payload),
    NotificationSetStateMutation(set_state_mutation::Payload),
}

} // verus!
