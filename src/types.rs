//! The records that the ledger stores, its error values, and the refund rule.

use vstd::prelude::*;

verus! {

/// A flight identifier (the text of its 32-byte id).
pub type FlightId = String;

/// The address of an account: the administrator or a passenger.
pub type Address = String;

/// An interned text token: a route endpoint, a status name or a booking tag.
pub type Symbol = String;

/// Where a flight stands: open for booking, departed, or cancelled.
#[derive(PartialEq, Eq, Structural, Clone, Copy, Debug)]
pub enum FlightStatus {
    Booking,
    Takeoff,
    Cancelled,
}

/// The status that a status symbol names, if it names one.
pub open spec fn status_named(s: Seq<char>) -> Option<FlightStatus> {
    if s == "booking"@ {
        Some(FlightStatus::Booking)
    } else if s == "takeoff"@ {
        Some(FlightStatus::Takeoff)
    } else if s == "cancelled"@ {
        Some(FlightStatus::Cancelled)
    } else {
        None
    }
}

impl FlightStatus {
    /// Reads a status symbol: `booking`, `takeoff` or `cancelled`.
    pub fn from_symbol(s: &Symbol) -> (r: Option<FlightStatus>)
        ensures
            r == status_named(s@),
    {
        let booking = "booking".to_owned();
        let takeoff = "takeoff".to_owned();
        let cancelled = "cancelled".to_owned();
        proof {
            reveal_strlit("booking");
            reveal_strlit("takeoff");
            reveal_strlit("cancelled");
        }
        if *s == booking {
            Some(FlightStatus::Booking)
        } else if *s == takeoff {
            Some(FlightStatus::Takeoff)
        } else if *s == cancelled {
            Some(FlightStatus::Cancelled)
        } else {
            None
        }
    }
}

/// The canonical record of one flight.
#[derive(Clone, Debug)]
pub struct FlightDetails {
    pub id: FlightId,
    pub max_passengers: u32,
    pub distance: i128,
    pub src: Symbol,
    pub dest: Symbol,
    pub status: FlightStatus,
    pub escrow_amount: i128,
    pub passenger_count: u32,
}

impl FlightDetails {
    /// A copy of the record, field for field.
    pub fn duplicate(&self) -> (r: FlightDetails)
        ensures
            r == *self,
    {
        FlightDetails {
            id: self.id.clone(),
            max_passengers: self.max_passengers,
            distance: self.distance,
            src: self.src.clone(),
            dest: self.dest.clone(),
            status: self.status,
            escrow_amount: self.escrow_amount,
            passenger_count: self.passenger_count,
        }
    }
}

/// One booking of one passenger on a flight.
#[derive(Clone, Debug)]
pub struct PassengerRecord {
    pub passenger: Address,
    pub paid: i128,
    pub details: Symbol,
}

impl PassengerRecord {
    /// A copy of the record, field for field.
    pub fn duplicate(&self) -> (r: PassengerRecord)
        ensures
            r == *self,
    {
        PassengerRecord {
            passenger: self.passenger.clone(),
            paid: self.paid,
            details: self.details.clone(),
        }
    }
}

/// Why an operation was refused; a refused operation changes nothing.
#[derive(PartialEq, Eq, Structural, Clone, Copy, Debug)]
pub enum FlyStellarError {
    AlreadyInitialized,
    Unauthorized,
    FlightAlreadyExists,
    FlightNotFound,
    InvalidInput,
    FlightFull,
    InvalidFare,
    PassengerNotFound,
    InvalidStatus,
    NoPassengers,
}

/// The passenger's share of a refunded fare: nine tenths, truncated.
pub open spec fn refund_of(paid: int) -> int {
    paid * 9 / 10
}

/// Splits a refunded fare into the passenger's ninety percent (truncated) and
/// the administrator's fee, which is the rest.
pub fn refund_split(paid: i128) -> (r: (i128, i128))
    requires
        paid >= 0,
    ensures
        r.0 == refund_of(paid as int),
        r.1 == paid - refund_of(paid as int),
{
    let tenth = paid / 10;
    let rest = paid % 10;
    let refund = 9 * tenth + (9 * rest) / 10;
    assert(refund == refund_of(paid as int)) by (nonlinear_arith)
        requires
            paid >= 0,
            tenth == paid / 10,
            rest == paid % 10,
            refund == 9 * tenth + (9 * rest) / 10,
    ;
    (refund, paid - refund)
}

} // verus!
