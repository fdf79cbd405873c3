use vstd::prelude::*;

use crate::uuid::uuid_query;
use crate::uuid::uuid_set_state_mutation;

verus! {

/// The object operations of the message envelope.
#[derive(Debug)]
pub enum UuidMessage {
    UuidQuery(uuid_query::Payload),
    UuidSetStateMutation(uuid_set_state_mutation::Payload),
}

} // verus!
