//! Facts about the ledger's index and lookup functions that hold for all
//! inputs.

use vstd::prelude::*;
use crate::ledger::{
    fresh_flight, occurrences, resolve, with_bookings, without_flight, without_passenger,
};
use crate::types::{FlightDetails, FlightId, FlightStatus, PassengerRecord, Symbol};

verus! {

/// A fresh flight takes `max_passengers` bookings: before each of them it is
/// still open for booking with a seat free, and after the last one it is full.
pub proof fn lemma_fill_fresh_flight(
    id: FlightId,
    max_passengers: u32,
    distance: i128,
    src: Symbol,
    dest: Symbol,
)
    ensures
        forall|j: nat|
            j < max_passengers ==> {
                let f = #[trigger] with_bookings(
                    fresh_flight(id, max_passengers, distance, src, dest),
                    j,
                );
                f.status == FlightStatus::Booking && f.passenger_count == j && f.passenger_count
                    < f.max_passengers
            },
        ({
            let f = with_bookings(
                fresh_flight(id, max_passengers, distance, src, dest),
                max_passengers as nat,
            );
            f.passenger_count == max_passengers && f.max_passengers == max_passengers
        }),
{
    let start = fresh_flight(id, max_passengers, distance, src, dest);
    assert forall|j: nat| j <= max_passengers implies {
        let f = #[trigger] with_bookings(start, j);
        f.status == FlightStatus::Booking && f.passenger_count == j && f.max_passengers
            == max_passengers
    } by {
        lemma_bookings_count(start, j, max_passengers);
    }
}

proof fn lemma_bookings_count(f: FlightDetails, j: nat, cap: u32)
    requires
        f.passenger_count == 0,
        f.status == FlightStatus::Booking,
        f.max_passengers == cap,
        j <= cap,
    ensures
        with_bookings(f, j).passenger_count == j,
        with_bookings(f, j).status == FlightStatus::Booking,
        with_bookings(f, j).max_passengers == cap,
    decreases j,
{
    if j > 0 {
        lemma_bookings_count(f, (j - 1) as nat, cap);
    }
}

/// Cancelling the only booking of a passenger takes out exactly that record
/// and keeps the others in their order.
pub proof fn lemma_cancel_only_booking(s: Seq<PassengerRecord>, passenger: Seq<char>, i: int)
    requires
        0 <= i < s.len(),
        s[i].passenger@ == passenger,
        forall|j: int| 0 <= j < s.len() && j != i ==> (#[trigger] s[j]).passenger@ != passenger,
    ensures
        without_passenger(s, passenger) == s.remove(i),
        without_passenger(s, passenger).len() == s.len() - 1,
    decreases s.len(),
{
    if i == s.len() - 1 {
        lemma_no_booking_kept(s.drop_last(), passenger);
        assert(s.remove(i) =~= s.drop_last());
    } else {
        let t = s.drop_last();
        assert forall|j: int| 0 <= j < t.len() && j != i implies (#[trigger] t[j]).passenger@
            != passenger by {
            assert(t[j] == s[j]);
        }
        lemma_cancel_only_booking(t, passenger, i);
        assert(s.remove(i) =~= t.remove(i).push(s.last()));
    }
}

/// A ledger with no booking of `passenger` is kept whole.
pub proof fn lemma_no_booking_kept(s: Seq<PassengerRecord>, passenger: Seq<char>)
    requires
        forall|j: int| 0 <= j < s.len() ==> (#[trigger] s[j]).passenger@ != passenger,
    ensures
        without_passenger(s, passenger) == s,
    decreases s.len(),
{
    if s.len() > 0 {
        let t = s.drop_last();
        assert forall|j: int| 0 <= j < t.len() implies (#[trigger] t[j]).passenger@
            != passenger by {
            assert(t[j] == s[j]);
        }
        lemma_no_booking_kept(t, passenger);
        assert(t.push(s.last()) =~= s);
    }
}

/// After the flight `id` is taken out of a personal index, no entry of it
/// names `id`.
pub proof fn lemma_without_flight_omits(s: Seq<FlightId>, id: Seq<char>)
    ensures
        occurrences(without_flight(s, id), id) == 0,
        forall|j: int|
            0 <= j < without_flight(s, id).len() ==> (#[trigger] without_flight(s, id)[j])@ != id,
    decreases s.len(),
{
    if s.len() > 0 {
        let t = s.drop_last();
        lemma_without_flight_omits(t, id);
        if s.last()@ != id {
            let w = without_flight(t, id);
            assert(w.push(s.last()).drop_last() =~= w);
            assert forall|j: int| 0 <= j < w.push(s.last()).len() implies (#[trigger] w.push(
                s.last(),
            )[j])@ != id by {
                if j < w.len() {
                    assert(w.push(s.last())[j] == w[j]);
                }
            }
        }
    }
}

/// Looking up the flights of two index segments one after the other gives the
/// lookups of each segment in turn: entries keep their relative order.
pub proof fn lemma_resolve_concat(
    a: Seq<FlightId>,
    b: Seq<FlightId>,
    flights: Map<Seq<char>, FlightDetails>,
)
    ensures
        resolve(a + b, flights) == resolve(a, flights) + resolve(b, flights),
    decreases b.len(),
{
    if b.len() == 0 {
        assert(a + b =~= a);
        assert(resolve(a, flights) + resolve(b, flights) =~= resolve(a, flights));
    } else {
        lemma_resolve_concat(a, b.drop_last(), flights);
        assert((a + b).drop_last() =~= a + b.drop_last());
        assert((a + b).last() == b.last());
        if flights.contains_key(b.last()@) {
            assert(resolve(a, flights) + resolve(b.drop_last(), flights).push(
                flights[b.last()@],
            ) =~= (resolve(a, flights) + resolve(b.drop_last(), flights)).push(
                flights[b.last()@],
            ));
        }
    }
}

/// An index entry with no flight record contributes nothing to a lookup;
/// one with a record contributes that record.
pub proof fn lemma_resolve_entry(id: FlightId, flights: Map<Seq<char>, FlightDetails>)
    ensures
        !flights.contains_key(id@) ==> resolve(seq![id], flights) == Seq::<FlightDetails>::empty(),
        flights.contains_key(id@) ==> resolve(seq![id], flights) == seq![flights[id@]],
{
    let single = seq![id];
    assert(single.drop_last() =~= Seq::<FlightId>::empty());
    assert(single.last() == id);
    assert(resolve(Seq::<FlightId>::empty(), flights) == Seq::<FlightDetails>::empty());
    if flights.contains_key(id@) {
        assert(Seq::<FlightDetails>::empty().push(flights[id@]) =~= seq![flights[id@]]);
    }
}

/// Dropping an index entry that names no flight leaves a lookup unchanged.
pub proof fn lemma_resolve_skips_dangling(
    a: Seq<FlightId>,
    id: FlightId,
    b: Seq<FlightId>,
    flights: Map<Seq<char>, FlightDetails>,
)
    requires
        !flights.contains_key(id@),
    ensures
        resolve(a + seq![id] + b, flights) == resolve(a + b, flights),
{
    lemma_resolve_concat(a + seq![id], b, flights);
    lemma_resolve_concat(a, seq![id], flights);
    lemma_resolve_concat(a, b, flights);
    lemma_resolve_entry(id, flights);
    assert(resolve(a, flights) + Seq::<FlightDetails>::empty() =~= resolve(a, flights));
}

} // verus!
