use vstd::prelude::*;

use crate::navigation::navigation_query;

verus! {

/// The navigation operations of the message envelope.
#[derive(Debug)]
pub enum NavigationMessage {
    NavigationQuery(navigation_query::Payload),
}

} // verus!
