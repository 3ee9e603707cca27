//! The failures that the core reports.

use vstd::prelude::*;

verus! {

/// The kinds of failure that a caller of the core can observe.
#[derive(Clone, Copy, Debug, PartialEq, Eq, Structural)]
pub enum ServiceError {
    /// The store refused or failed a read or a write. Nothing was changed.
    StoreUnavailable,
    /// A mark of attendance named a user and an event with no subscription.
    NotSubscribed,
    /// The request itself is unusable: no event was named, or an identifier
    /// is not one that the store hands out.
    InvalidRequest,
    /// An update did not reach one observer. This never fails the change that
    /// caused the update.
    ChannelDeliveryFailure,
}

impl ServiceError {
    /// The text shown for this failure.
    pub fn message(&self) -> (text: String)
        ensures
            text@ == match *self {
                ServiceError::StoreUnavailable => "the store is unavailable"@,
                ServiceError::NotSubscribed => "the user is not subscribed to the event"@,
                ServiceError::InvalidRequest => "the request is invalid"@,
                ServiceError::ChannelDeliveryFailure => "an update could not be delivered"@,
            },
    {
        match self {
            ServiceError::StoreUnavailable => "the store is unavailable".to_owned(),
            ServiceError::NotSubscribed => "the user is not subscribed to the event".to_owned(),
            ServiceError::InvalidRequest => "the request is invalid".to_owned(),
            ServiceError::ChannelDeliveryFailure => "an update could not be delivered".to_owned(),
        }
    }
}

} // verus!
