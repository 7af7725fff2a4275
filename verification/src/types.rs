//! Protocol constants and the closed action / response enumerations.
//!
//! Every message starts with a single tag byte that selects the layout of
//! the rest of the message.  The tag sets are closed: a byte outside the
//! enumeration is a protocol error, reported through the `InvalidActionType`
//! and `InvalidResponseType` marker types.

use vstd::prelude::*;

verus! {

/// Default TCP port of the registry service.
pub const DEFAULT_PORT: u16 = 12345;

/// Identifier a peer chooses for itself.  The value `0` never denotes a real
/// peer; search replies use it exclusively to mean "not found".
pub type PeerId = u32;

/// Request kinds of the wire protocol, carried as a single leading tag byte.
#[allow(non_camel_case_types)]
#[derive(Clone, Copy, Debug, PartialEq, Eq, Structural)]
pub enum ActionType {
    JOIN,
    PUBLISH,
    SEARCH,
    FETCH,
    REGISTER,
}

/// Marker error for a tag byte outside the action enumeration.
#[derive(Clone, Copy, Debug, PartialEq, Eq, Structural)]
pub struct InvalidActionType;

impl ActionType {
    /// The tag byte this action carries on the wire.
    pub open spec fn spec_tag(self) -> u8 {
        match self {
            ActionType::JOIN => 0,
            ActionType::PUBLISH => 1,
            ActionType::SEARCH => 2,
            ActionType::FETCH => 3,
            ActionType::REGISTER => 4,
        }
    }

    /// Encodes this action as its tag byte.
    pub fn tag(self) -> (r: u8)
        ensures
            r == self.spec_tag(),
    {
        match self {
            ActionType::JOIN => 0,
            ActionType::PUBLISH => 1,
            ActionType::SEARCH => 2,
            ActionType::FETCH => 3,
            ActionType::REGISTER => 4,
        }
    }

    /// Decodes a tag byte; every byte outside the closed set is rejected.
    pub fn try_from(value: u8) -> (r: Result<ActionType, InvalidActionType>)
        ensures
            value <= 4 ==> (r matches Ok(a) && a.spec_tag() == value),
            value > 4 ==> r is Err,
    {
        match value {
            0 => Ok(ActionType::JOIN),
            1 => Ok(ActionType::PUBLISH),
            2 => Ok(ActionType::SEARCH),
            3 => Ok(ActionType::FETCH),
            4 => Ok(ActionType::REGISTER),
            _ => Err(InvalidActionType),
        }
    }
}

/// Reply kinds a peer listener sends back to a requester, carried as a
/// single tag byte.  Only on `SUCCESS` do raw file bytes follow.
#[allow(non_camel_case_types)]
#[derive(Clone, Copy, Debug, PartialEq, Eq, Structural)]
pub enum ResponseType {
    SUCCESS,
    ERROR,
    UNKNOWN_ACTION,
    UNHANDLED_ACTION,
    NO_DATA,
    TOO_MUCH_DATA,
    INVALID_DATA,
}

/// Marker error for a tag byte outside the response enumeration.
#[derive(Clone, Copy, Debug, PartialEq, Eq, Structural)]
pub struct InvalidResponseType;

impl ResponseType {
    /// The tag byte this response carries on the wire.
    pub open spec fn spec_tag(self) -> u8 {
        match self {
            ResponseType::SUCCESS => 0,
            ResponseType::ERROR => 1,
            ResponseType::UNKNOWN_ACTION => 2,
            ResponseType::UNHANDLED_ACTION => 3,
            ResponseType::NO_DATA => 4,
            ResponseType::TOO_MUCH_DATA => 5,
            ResponseType::INVALID_DATA => 6,
        }
    }

    /// Encodes this response as its tag byte.
    pub fn tag(self) -> (r: u8)
        ensures
            r == self.spec_tag(),
    {
        match self {
            ResponseType::SUCCESS => 0,
            ResponseType::ERROR => 1,
            ResponseType::UNKNOWN_ACTION => 2,
            ResponseType::UNHANDLED_ACTION => 3,
            ResponseType::NO_DATA => 4,
            ResponseType::TOO_MUCH_DATA => 5,
            ResponseType::INVALID_DATA => 6,
        }
    }

    /// Decodes a tag byte; every byte outside the closed set is rejected.
    pub fn try_from(value: u8) -> (r: Result<ResponseType, InvalidResponseType>)
        ensures
            value <= 6 ==> (r matches Ok(a) && a.spec_tag() == value),
            value > 6 ==> r is Err,
    {
        match value {
            0 => Ok(ResponseType::SUCCESS),
            1 => Ok(ResponseType::ERROR),
            2 => Ok(ResponseType::UNKNOWN_ACTION),
            3 => Ok(ResponseType::UNHANDLED_ACTION),
            4 => Ok(ResponseType::NO_DATA),
            5 => Ok(ResponseType::TOO_MUCH_DATA),
            6 => Ok(ResponseType::INVALID_DATA),
            _ => Err(InvalidResponseType),
        }
    }
}

} // verus!
