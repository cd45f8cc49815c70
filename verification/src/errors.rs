//! The failure taxonomy shared by the capacity validator, the event store
//! and the dialog protocols.

use vstd::prelude::*;

verus! {

/// Every way a signup, signoff, or dialog interaction can fail.
#[derive(Clone, Copy, PartialEq, Eq, Structural, Debug)]
pub enum CoreError {
    /// The requested role name matches no role of the event.
    RoleNotFound,
    /// A non-empty flavor label matches no flavor of the event.
    FlavorNotFound,
    /// Total participants already equal the sum of all role capacities.
    EventFull,
    /// The matched role's headcount already equals its capacity.
    RoleFull,
    /// The matched flavor is constrained and its headcount already equals
    /// its capacity.
    FlavorFull,
    /// No participant with the given identity exists on the event.
    ParticipantNotFound,
    /// A menu was presented but no selection arrived within the timeout.
    DialogTimeout,
    /// Malformed free-text input ended a dialog before it produced a result.
    DialogAborted,
    /// A selection referenced an event that is no longer in the store.
    EventNotFound,
}

impl CoreError {
    /// A short human-readable explanation, suitable for sending back to the
    /// user who triggered the failing interaction.
    pub fn message(&self) -> (r: &'static str)
        ensures
            r@ == self.spec_message(),
    {
        match self {
            CoreError::RoleNotFound => "No role with that name found.",
            CoreError::FlavorNotFound => "No flavor with that name found.",
            CoreError::EventFull => "Event is full.",
            CoreError::RoleFull => "Role is full.",
            CoreError::FlavorFull => "Flavor is full.",
            CoreError::ParticipantNotFound => "User not found.",
            CoreError::DialogTimeout => "The dialog timed out.",
            CoreError::DialogAborted => "The dialog was aborted.",
            CoreError::EventNotFound => "That event no longer exists.",
        }
    }

    pub open spec fn spec_message(self) -> Seq<char> {
        match self {
            CoreError::RoleNotFound => "No role with that name found."@,
            CoreError::FlavorNotFound => "No flavor with that name found."@,
            CoreError::EventFull => "Event is full."@,
            CoreError::RoleFull => "Role is full."@,
            CoreError::FlavorFull => "Flavor is full."@,
            CoreError::ParticipantNotFound => "User not found."@,
            CoreError::DialogTimeout => "The dialog timed out."@,
            CoreError::DialogAborted => "The dialog was aborted."@,
            CoreError::EventNotFound => "That event no longer exists."@,
        }
    }
}

} // verus!
