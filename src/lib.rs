//! A flight-booking ledger: flights, ticket sales and cancellations against an
//! escrow amount, status changes, and lookups by route, by passenger or over all
//! flights. The ledger state is held in keyed tables with hand-kept secondary
//! indexes, and every operation either applies all of its changes or none.

pub mod table;
pub mod types;
pub mod ledger;
pub mod laws;

pub use ledger::FlyStellar;
pub use types::{
    refund_split, Address, FlightDetails, FlightId, FlightStatus, FlyStellarError,
    PassengerRecord, Symbol,
};
