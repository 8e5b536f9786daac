//! The ledger: flight registry, passenger ledgers, the route, global and
//! personal indexes, and the workflows that keep them consistent.

use vstd::prelude::*;
use crate::table::Table;
use crate::types::{
    refund_of, refund_split, status_named, Address, FlightDetails, FlightId, FlightStatus, FlyStellarError,
    PassengerRecord, Symbol,
};

verus! {

/// How many entries of `s` name the flight `id`.
pub open spec fn occurrences(s: Seq<FlightId>, id: Seq<char>) -> nat
    decreases s.len(),
{
    if s.len() == 0 {
        0
    } else {
        occurrences(s.drop_last(), id) + if s.last()@ == id {
            1nat
        } else {
            0nat
        }
    }
}

/// `s` without its entries that name the flight `id`, order kept.
pub open spec fn without_flight(s: Seq<FlightId>, id: Seq<char>) -> Seq<FlightId>
    decreases s.len(),
{
    if s.len() == 0 {
        s
    } else if s.last()@ == id {
        without_flight(s.drop_last(), id)
    } else {
        without_flight(s.drop_last(), id).push(s.last())
    }
}

/// `s` without the bookings of `passenger`, order kept.
pub open spec fn without_passenger(s: Seq<PassengerRecord>, passenger: Seq<char>) -> Seq<
    PassengerRecord,
>
    decreases s.len(),
{
    if s.len() == 0 {
        s
    } else if s.last().passenger@ == passenger {
        without_passenger(s.drop_last(), passenger)
    } else {
        without_passenger(s.drop_last(), passenger).push(s.last())
    }
}

/// The flights that the entries of `ids` name, in index order; an entry with no
/// flight record is left out.
pub open spec fn resolve(ids: Seq<FlightId>, flights: Map<Seq<char>, FlightDetails>) -> Seq<
    FlightDetails,
>
    decreases ids.len(),
{
    if ids.len() == 0 {
        Seq::empty()
    } else if flights.contains_key(ids.last()@) {
        resolve(ids.drop_last(), flights).push(flights[ids.last()@])
    } else {
        resolve(ids.drop_last(), flights)
    }
}

/// A flight record after one more booking.
pub open spec fn with_booking(f: FlightDetails) -> FlightDetails {
    FlightDetails { passenger_count: (f.passenger_count + 1) as u32, ..f }
}

/// A flight record after `n` more bookings.
pub open spec fn with_bookings(f: FlightDetails, n: nat) -> FlightDetails
    decreases n,
{
    if n == 0 {
        f
    } else {
        with_booking(with_bookings(f, (n - 1) as nat))
    }
}

/// The record of a newly created flight.
pub open spec fn fresh_flight(
    id: FlightId,
    max_passengers: u32,
    distance: i128,
    src: Symbol,
    dest: Symbol,
) -> FlightDetails {
    FlightDetails {
        id,
        max_passengers,
        distance,
        src,
        dest,
        status: FlightStatus::Booking,
        escrow_amount: (max_passengers * distance) as i128,
        passenger_count: 0,
    }
}

proof fn lemma_occurrences_push(s: Seq<FlightId>, x: FlightId, id: Seq<char>)
    ensures
        occurrences(s.push(x), id) == occurrences(s, id) + if x@ == id {
            1nat
        } else {
            0nat
        },
{
    assert(s.push(x).drop_last() =~= s);
}

proof fn lemma_occurrences_absent(s: Seq<FlightId>, id: Seq<char>)
    requires
        forall|i: int| 0 <= i < s.len() ==> (#[trigger] s[i])@ != id,
    ensures
        occurrences(s, id) == 0,
    decreases s.len(),
{
    if s.len() > 0 {
        lemma_occurrences_absent(s.drop_last(), id);
    }
}

/// Whether `s` holds a booking of `passenger`.
pub open spec fn has_booking(s: Seq<PassengerRecord>, passenger: Seq<char>) -> bool {
    exists|i: int| 0 <= i < s.len() && (#[trigger] s[i]).passenger@ == passenger
}

/// The ledger `list` without the bookings of `passenger`, and the refund split
/// of each booking taken out, in ledger order.
fn split_out(list: &Vec<PassengerRecord>, passenger: &Address, fare: i128) -> (r: (
    Vec<PassengerRecord>,
    Vec<(i128, i128)>,
))
    requires
        fare > 0,
        forall|j: int| 0 <= j < list@.len() ==> (#[trigger] list@[j]).paid == fare,
    ensures
        r.0@ == without_passenger(list@, passenger@),
        r.0@.len() + r.1@.len() == list@.len(),
        r.1@.len() > 0 <==> has_booking(list@, passenger@),
        forall|j: int| 0 <= j < r.0@.len() ==> (#[trigger] r.0@[j]).paid == fare,
        forall|j: int|
            0 <= j < r.1@.len() ==> #[trigger] r.1@[j] == (
                refund_of(fare as int) as i128,
                (fare - refund_of(fare as int)) as i128,
            ),
{
    let mut kept: Vec<PassengerRecord> = Vec::new();
    let mut splits: Vec<(i128, i128)> = Vec::new();
    let mut i: usize = 0;
    while i < list.len()
        invariant
            i <= list@.len(),
            fare > 0,
            forall|j: int| 0 <= j < list@.len() ==> (#[trigger] list@[j]).paid == fare,
            kept@ == without_passenger(list@.subrange(0, i as int), passenger@),
            kept@.len() + splits@.len() == i,
            splits@.len() > 0 <==> has_booking(list@.subrange(0, i as int), passenger@),
            forall|j: int| 0 <= j < kept@.len() ==> (#[trigger] kept@[j]).paid == fare,
            forall|j: int|
                0 <= j < splits@.len() ==> #[trigger] splits@[j] == (
                    refund_of(fare as int) as i128,
                    (fare - refund_of(fare as int)) as i128,
                ),
        decreases list@.len() - i,
    {
        let ghost prefix = list@.subrange(0, i as int);
        let ghost next = list@.subrange(0, i + 1);
        assert(next.drop_last() =~= prefix);
        assert(next.last() == list@[i as int]);
        let rec = &list[i];
        if rec.passenger == *passenger {
            splits.push(refund_split(rec.paid));
            assert(next[i as int].passenger@ == passenger@);
        } else {
            kept.push(rec.duplicate());
            assert forall|j: int| 0 <= j < next.len() implies (#[trigger] next[j]).passenger@
                != passenger@ || has_booking(prefix, passenger@) by {
                if j < i {
                    assert(next[j] == prefix[j]);
                }
            }
        }
        proof {
            if has_booking(prefix, passenger@) {
                let j = choose|j: int|
                    0 <= j < prefix.len() && (#[trigger] prefix[j]).passenger@ == passenger@;
                assert(next[j] == prefix[j]);
            }
        }
        i = i + 1;
    }
    assert(list@.subrange(0, list@.len() as int) =~= list@);
    (kept, splits)
}

/// `ids` without the entries that name the flight `id`.
fn drop_flight(ids: &Vec<FlightId>, id: &FlightId) -> (r: Vec<FlightId>)
    ensures
        r@ == without_flight(ids@, id@),
{
    let mut kept: Vec<FlightId> = Vec::new();
    let mut i: usize = 0;
    while i < ids.len()
        invariant
            i <= ids@.len(),
            kept@ == without_flight(ids@.subrange(0, i as int), id@),
        decreases ids@.len() - i,
    {
        let ghost next = ids@.subrange(0, i + 1);
        assert(next.drop_last() =~= ids@.subrange(0, i as int));
        if ids[i] != *id {
            kept.push(ids[i].clone());
        }
        i = i + 1;
    }
    assert(ids@.subrange(0, ids@.len() as int) =~= ids@);
    kept
}

/// The whole ledger state of the flight-booking service.
pub struct FlyStellar {
    admin: Option<Address>,
    flights: Table<FlightDetails>,
    routes: Table<Table<Vec<FlightId>>>,
    global: Vec<FlightId>,
    manifests: Table<Vec<PassengerRecord>>,
    registrations: Table<Vec<FlightId>>,
}

impl FlyStellar {
    /// The configured administrator, if any.
    pub closed spec fn admin_of(&self) -> Option<Seq<char>> {
        match self.admin {
            Some(a) => Some(a@),
            None => None,
        }
    }

    /// The flight records, keyed by flight id.
    pub closed spec fn flights(&self) -> Map<Seq<char>, FlightDetails> {
        self.flights@
    }

    /// The route index of `(src, dest)`; empty where there is none.
    pub closed spec fn route_ids(&self, src: Seq<char>, dest: Seq<char>) -> Seq<FlightId> {
        if self.routes@.contains_key(src) && self.routes@[src]@.contains_key(dest) {
            self.routes@[src]@[dest]@
        } else {
            Seq::empty()
        }
    }

    /// The global index of all flights ever created.
    pub closed spec fn global_ids(&self) -> Seq<FlightId> {
        self.global@
    }

    /// Whether a passenger ledger has been stored for the flight `id`.
    pub closed spec fn has_ledger(&self, id: Seq<char>) -> bool {
        self.manifests@.contains_key(id)
    }

    /// The passenger ledger of the flight `id`; empty where there is none.
    pub closed spec fn passengers(&self, id: Seq<char>) -> Seq<PassengerRecord> {
        if self.manifests@.contains_key(id) {
            self.manifests@[id]@
        } else {
            Seq::empty()
        }
    }

    /// The personal index of `passenger`; empty where there is none.
    pub closed spec fn booked(&self, passenger: Seq<char>) -> Seq<FlightId> {
        if self.registrations@.contains_key(passenger) {
            self.registrations@[passenger]@
        } else {
            Seq::empty()
        }
    }

    /// What holds of the record stored under the flight id `k`.
    pub closed spec fn flight_ok(&self, k: Seq<char>) -> bool {
        let f = self.flights@[k];
        &&& f.id@ == k
        &&& f.max_passengers > 0
        &&& f.distance > 0
        &&& f.escrow_amount == f.max_passengers * f.distance
        &&& f.passenger_count <= f.max_passengers
        &&& f.passenger_count == self.passengers(k).len()
        &&& forall|i: int|
            0 <= i < self.passengers(k).len() ==> (#[trigger] self.passengers(k)[i]).paid
                == f.distance
    }

    /// The ledger's invariant: tables well formed, each flight record
    /// consistent with its passenger ledger, and every index entry naming a
    /// flight that exists.
    pub closed spec fn wf(&self) -> bool {
        &&& self.flights.wf()
        &&& self.routes.wf()
        &&& self.manifests.wf()
        &&& self.registrations.wf()
        &&& forall|s: Seq<char>| #[trigger] self.routes@.contains_key(s) ==> self.routes@[s].wf()
        &&& forall|k: Seq<char>| #[trigger] self.flights@.contains_key(k) ==> self.flight_ok(k)
        &&& forall|k: Seq<char>|
            #[trigger] self.manifests@.contains_key(k) ==> self.flights@.contains_key(k)
        &&& forall|i: int|
            0 <= i < self.global@.len() ==> self.flights@.contains_key(#[trigger] self.global@[i]@)
        &&& forall|s: Seq<char>, d: Seq<char>, i: int|
            0 <= i < self.route_ids(s, d).len() ==> self.flights@.contains_key(
                #[trigger] self.route_ids(s, d)[i]@,
            )
    }

    /// An empty ledger with no administrator yet.
    pub fn new() -> (r: FlyStellar)
        ensures
            r.wf(),
            r.admin_of() is None,
            r.flights() == Map::<Seq<char>, FlightDetails>::empty(),
            r.global_ids() == Seq::<FlightId>::empty(),
            forall|s: Seq<char>, d: Seq<char>| r.route_ids(s, d) == Seq::<FlightId>::empty(),
            forall|k: Seq<char>|
                !r.has_ledger(k) && r.passengers(k) == Seq::<PassengerRecord>::empty(),
            forall|p: Seq<char>| r.booked(p) == Seq::<FlightId>::empty(),
    {
        FlyStellar {
            admin: None,
            flights: Table::new(),
            routes: Table::new(),
            global: Vec::new(),
            manifests: Table::new(),
            registrations: Table::new(),
        }
    }

    /// Whether `caller` is the configured administrator.
    pub open spec fn is_admin(&self, caller: Seq<char>) -> bool {
        self.admin_of() == Some(caller)
    }

    /// Configures the administrator once; a second call is refused.
    pub fn initialize(&mut self, admin: Address) -> (r: Result<(), FlyStellarError>)
        requires
            old(self).wf(),
        ensures
            final(self).wf(),
            old(self).admin_of() is Some ==> r == Err::<(), _>(FlyStellarError::AlreadyInitialized)
                && *final(self) == *old(self),
            old(self).admin_of() is None ==> r is Ok && final(self).admin_of() == Some(admin@)
                && final(self).flights() == old(self).flights() && final(self).global_ids()
                == old(self).global_ids() && (forall|s: Seq<char>, d: Seq<char>|
                final(self).route_ids(s, d) == old(self).route_ids(s, d)) && (forall|
                k: Seq<char>,
            |
                final(self).passengers(k) == old(self).passengers(k) && final(self).has_ledger(k)
                    == old(self).has_ledger(k)) && (forall|p: Seq<char>|
                final(self).booked(p) == old(self).booked(p)),
    {
        if self.admin.is_some() {
            return Err(FlyStellarError::AlreadyInitialized);
        }
        let ghost pre = *self;
        self.admin = Some(admin);
        assert forall|k: Seq<char>| #[trigger] self.flights@.contains_key(k) implies self.flight_ok(
            k,
        ) by {
            assert(pre.flight_ok(k));
        }
        assert forall|s: Seq<char>, d: Seq<char>, i: int|
            0 <= i < self.route_ids(s, d).len() implies self.flights@.contains_key(
            #[trigger] self.route_ids(s, d)[i]@,
        ) by {
            assert(pre.route_ids(s, d) == self.route_ids(s, d));
        }
        Ok(())
    }

    /// The configured administrator's address, if one is configured.
    pub fn get_admin(&self) -> (r: Option<Address>)
        ensures
            match r {
                Some(a) => self.admin_of() == Some(a@),
                None => self.admin_of() is None,
            },
    {
        match &self.admin {
            Some(a) => Some(a.clone()),
            None => None,
        }
    }

    /// Refuses `caller` unless it is the configured administrator. The caller's
    /// control of the address is proved to the host before the ledger is asked.
    fn require_admin(&self, caller: &Address) -> (r: Result<(), FlyStellarError>)
        ensures
            r is Ok <==> self.is_admin(caller@),
            r is Err ==> r == Err::<(), _>(FlyStellarError::Unauthorized),
    {
        match &self.admin {
            Some(a) => if *a == *caller {
                Ok(())
            } else {
                Err(FlyStellarError::Unauthorized)
            },
            None => Err(FlyStellarError::Unauthorized),
        }
    }

    /// Creates a flight open for booking, with escrow `max_passengers * distance`,
    /// and adds its id to its route index and to the global index.
    pub fn create_flight(
        &mut self,
        caller: &Address,
        flight_id: FlightId,
        max_passengers: u32,
        distance: i128,
        src: Symbol,
        dest: Symbol,
    ) -> (r: Result<(), FlyStellarError>)
        requires
            old(self).wf(),
            distance > 0 ==> max_passengers * distance <= i128::MAX,
        ensures
            final(self).wf(),
            !old(self).is_admin(caller@) ==> r == Err::<(), _>(FlyStellarError::Unauthorized),
            old(self).is_admin(caller@) && (max_passengers == 0 || distance <= 0) ==> r == Err::<
                (),
                _,
            >(FlyStellarError::InvalidInput),
            old(self).is_admin(caller@) && max_passengers > 0 && distance > 0 && old(
                self,
            ).flights().contains_key(flight_id@) ==> r == Err::<(), _>(
                FlyStellarError::FlightAlreadyExists,
            ),
            r is Ok <==> old(self).is_admin(caller@) && max_passengers > 0 && distance > 0 && !old(
                self,
            ).flights().contains_key(flight_id@),
            r is Err ==> *final(self) == *old(self),
            r is Ok ==> {
                &&& final(self).flights() == old(self).flights().insert(
                    flight_id@,
                    fresh_flight(flight_id, max_passengers, distance, src, dest),
                )
                &&& final(self).global_ids() == old(self).global_ids().push(flight_id)
                &&& final(self).route_ids(src@, dest@) == old(self).route_ids(src@, dest@).push(
                    flight_id,
                )
                &&& forall|s: Seq<char>, d: Seq<char>|
                    (s, d) != (src@, dest@) ==> final(self).route_ids(s, d) == old(self).route_ids(
                        s,
                        d,
                    )
                &&& occurrences(final(self).global_ids(), flight_id@) == 1
                &&& occurrences(final(self).route_ids(src@, dest@), flight_id@) == 1
                &&& final(self).admin_of() == old(self).admin_of()
                &&& forall|k: Seq<char>|
                    final(self).passengers(k) == old(self).passengers(k) && final(self).has_ledger(
                        k,
                    ) == old(self).has_ledger(k)
                &&& forall|p: Seq<char>| final(self).booked(p) == old(self).booked(p)
            },
    {
        self.require_admin(caller)?;
        if max_passengers == 0 || distance <= 0 {
            return Err(FlyStellarError::InvalidInput);
        }
        if self.flights.has(&flight_id) {
            return Err(FlyStellarError::FlightAlreadyExists);
        }
        assert(0 < max_passengers * distance) by (nonlinear_arith)
            requires
                max_passengers > 0,
                distance > 0,
        ;
        let escrow = max_passengers as i128 * distance;
        let ghost pre = *self;
        proof {
            lemma_occurrences_absent(pre.global_ids(), flight_id@);
            lemma_occurrences_absent(pre.route_ids(src@, dest@), flight_id@);
            lemma_occurrences_push(pre.global_ids(), flight_id, flight_id@);
            lemma_occurrences_push(pre.route_ids(src@, dest@), flight_id, flight_id@);
        }
        let details = FlightDetails {
            id: flight_id.clone(),
            max_passengers,
            distance,
            src: src.clone(),
            dest: dest.clone(),
            status: FlightStatus::Booking,
            escrow_amount: escrow,
            passenger_count: 0,
        };
        self.flights.set(flight_id.clone(), details);
        let mut by_dest = match self.routes.take(&src) {
            Some(t) => t,
            None => Table::new(),
        };
        let mut ids = match by_dest.take(&dest) {
            Some(v) => v,
            None => Vec::new(),
        };
        ids.push(flight_id.clone());
        by_dest.set(dest.clone(), ids);
        self.routes.set(src.clone(), by_dest);
        self.global.push(flight_id);
        assert forall|s2: Seq<char>, d2: Seq<char>|
            (s2, d2) != (src@, dest@) implies self.route_ids(s2, d2) == pre.route_ids(s2, d2) by {
            if s2 == src@ {
                assert(d2 != dest@);
            }
        }
        assert forall|k: Seq<char>| #[trigger] self.flights@.contains_key(k) implies self.flight_ok(
            k,
        ) by {
            if k != flight_id@ {
                assert(pre.flight_ok(k));
            }
        }
        assert forall|s2: Seq<char>, d2: Seq<char>, i: int|
            0 <= i < self.route_ids(s2, d2).len() implies self.flights@.contains_key(
            #[trigger] self.route_ids(s2, d2)[i]@,
        ) by {
            if (s2, d2) != (src@, dest@) {
                assert(pre.route_ids(s2, d2)[i] == self.route_ids(s2, d2)[i]);
            } else if i < pre.route_ids(s2, d2).len() {
                assert(pre.route_ids(s2, d2)[i] == self.route_ids(s2, d2)[i]);
            }
        }
        assert forall|i: int| 0 <= i < self.global@.len() implies self.flights@.contains_key(
            #[trigger] self.global@[i]@,
        ) by {
            if i < pre.global@.len() {
                assert(pre.global@[i] == self.global@[i]);
            }
        }
        Ok(())
    }

    /// Books `passenger` onto the flight `flight_id` at a fare equal to its
    /// distance: appends a record to the flight's passenger ledger, appends the
    /// id to the passenger's personal index and counts one more passenger. The
    /// passenger's control of the address is proved to the host first.
    pub fn buy_ticket(&mut self, flight_id: &FlightId, passenger: Address, details: Symbol) -> (r:
        Result<(), FlyStellarError>)
        requires
            old(self).wf(),
        ensures
            final(self).wf(),
            !old(self).flights().contains_key(flight_id@) ==> r == Err::<(), _>(
                FlyStellarError::FlightNotFound,
            ),
            old(self).flights().contains_key(flight_id@) ==> {
                let f = old(self).flights()[flight_id@];
                &&& f.status != FlightStatus::Booking ==> r == Err::<(), _>(
                    FlyStellarError::InvalidStatus,
                )
                &&& f.status == FlightStatus::Booking && f.passenger_count >= f.max_passengers
                    ==> r == Err::<(), _>(FlyStellarError::FlightFull)
                &&& f.status == FlightStatus::Booking && f.passenger_count < f.max_passengers
                    ==> r is Ok
            },
            r is Err ==> *final(self) == *old(self),
            r is Ok ==> {
                let f = old(self).flights()[flight_id@];
                &&& final(self).flights() == old(self).flights().insert(
                    flight_id@,
                    with_booking(f),
                )
                &&& final(self).passengers(flight_id@) == old(self).passengers(flight_id@).push(
                    PassengerRecord { passenger, paid: f.distance, details },
                )
                &&& final(self).has_ledger(flight_id@)
                &&& forall|k: Seq<char>|
                    k != flight_id@ ==> final(self).passengers(k) == old(self).passengers(k)
                        && final(self).has_ledger(k) == old(self).has_ledger(k)
                &&& final(self).booked(passenger@) == old(self).booked(passenger@).push(*flight_id)
                &&& forall|p: Seq<char>|
                    p != passenger@ ==> final(self).booked(p) == old(self).booked(p)
                &&& final(self).global_ids() == old(self).global_ids()
                &&& forall|s: Seq<char>, d: Seq<char>|
                    final(self).route_ids(s, d) == old(self).route_ids(s, d)
                &&& final(self).admin_of() == old(self).admin_of()
            },
    {
        let mut updated = match self.flights.get(flight_id) {
            Some(f) => f.duplicate(),
            None => return Err(FlyStellarError::FlightNotFound),
        };
        if updated.status != FlightStatus::Booking {
            return Err(FlyStellarError::InvalidStatus);
        }
        if updated.passenger_count >= updated.max_passengers {
            return Err(FlyStellarError::FlightFull);
        }
        let fare = updated.distance;
        if fare <= 0 {
            return Err(FlyStellarError::InvalidFare);
        }
        let ghost pre = *self;
        proof {
            assert(pre.flight_ok(flight_id@));
        }
        updated.passenger_count = updated.passenger_count + 1;
        let record = PassengerRecord { passenger: passenger.clone(), paid: fare, details };
        let mut list = match self.manifests.take(flight_id) {
            Some(v) => v,
            None => Vec::new(),
        };
        list.push(record);
        self.manifests.set(flight_id.clone(), list);
        let mut reg = match self.registrations.take(&passenger) {
            Some(v) => v,
            None => Vec::new(),
        };
        reg.push(flight_id.clone());
        self.registrations.set(passenger, reg);
        self.flights.set(flight_id.clone(), updated);
        assert forall|k: Seq<char>| #[trigger] self.flights@.contains_key(k) implies self.flight_ok(
            k,
        ) by {
            if k != flight_id@ {
                assert(pre.flight_ok(k));
                assert(self.passengers(k) == pre.passengers(k));
            } else {
                assert forall|i: int| 0 <= i < self.passengers(k).len() implies (
                #[trigger] self.passengers(k)[i]).paid == self.flights@[k].distance by {
                    if i < pre.passengers(k).len() {
                        assert(self.passengers(k)[i] == pre.passengers(k)[i]);
                    }
                }
            }
        }
        assert forall|s: Seq<char>, d: Seq<char>, i: int|
            0 <= i < self.route_ids(s, d).len() implies self.flights@.contains_key(
            #[trigger] self.route_ids(s, d)[i]@,
        ) by {
            assert(pre.route_ids(s, d) == self.route_ids(s, d));
        }
        Ok(())
    }

    /// Cancels every booking of `passenger` on the flight `flight_id`: the
    /// bookings leave the passenger ledger (the others keep their order), the
    /// passenger count drops by their number, and the id leaves the passenger's
    /// personal index. Returns, per cancelled booking and in ledger order, the
    /// passenger's refund (nine tenths of the fare, truncated) and the
    /// administrator's fee (the rest). The route and global indexes keep the id.
    /// The passenger's control of the address is proved to the host first.
    pub fn cancel_ticket(&mut self, flight_id: &FlightId, passenger: &Address) -> (r: Result<
        Vec<(i128, i128)>,
        FlyStellarError,
    >)
        requires
            old(self).wf(),
        ensures
            final(self).wf(),
            !old(self).flights().contains_key(flight_id@) ==> r == Err::<Vec<(i128, i128)>, _>(
                FlyStellarError::FlightNotFound,
            ),
            old(self).flights().contains_key(flight_id@) && !old(self).has_ledger(flight_id@)
                ==> r == Err::<Vec<(i128, i128)>, _>(FlyStellarError::NoPassengers),
            old(self).flights().contains_key(flight_id@) && old(self).has_ledger(flight_id@)
                && !has_booking(old(self).passengers(flight_id@), passenger@) ==> r == Err::<
                Vec<(i128, i128)>,
                _,
            >(FlyStellarError::PassengerNotFound),
            r is Ok <==> old(self).flights().contains_key(flight_id@) && old(self).has_ledger(
                flight_id@,
            ) && has_booking(old(self).passengers(flight_id@), passenger@),
            r is Err ==> *final(self) == *old(self),
            r matches Ok(splits) ==> {
                let f = old(self).flights()[flight_id@];
                let before = old(self).passengers(flight_id@);
                let after = without_passenger(before, passenger@);
                &&& final(self).passengers(flight_id@) == after
                &&& final(self).has_ledger(flight_id@)
                &&& splits@.len() == before.len() - after.len()
                &&& forall|j: int|
                    0 <= j < splits@.len() ==> #[trigger] splits@[j] == (
                        refund_of(f.distance as int) as i128,
                        (f.distance - refund_of(f.distance as int)) as i128,
                    )
                &&& final(self).flights() == old(self).flights().insert(
                    flight_id@,
                    FlightDetails {
                        passenger_count: (f.passenger_count - splits@.len()) as u32,
                        ..f
                    },
                )
                &&& forall|k: Seq<char>|
                    k != flight_id@ ==> final(self).passengers(k) == old(self).passengers(k)
                        && final(self).has_ledger(k) == old(self).has_ledger(k)
                &&& final(self).booked(passenger@) == without_flight(
                    old(self).booked(passenger@),
                    flight_id@,
                )
                &&& forall|p: Seq<char>|
                    p != passenger@ ==> final(self).booked(p) == old(self).booked(p)
                &&& final(self).global_ids() == old(self).global_ids()
                &&& forall|s: Seq<char>, d: Seq<char>|
                    final(self).route_ids(s, d) == old(self).route_ids(s, d)
                &&& final(self).admin_of() == old(self).admin_of()
            },
    {
        let mut updated = match self.flights.get(flight_id) {
            Some(f) => f.duplicate(),
            None => return Err(FlyStellarError::FlightNotFound),
        };
        let ghost pre = *self;
        proof {
            assert(pre.flight_ok(flight_id@));
        }
        let (kept, splits) = match self.manifests.get(flight_id) {
            Some(list) => split_out(list, passenger, updated.distance),
            None => return Err(FlyStellarError::NoPassengers),
        };
        if splits.len() == 0 {
            return Err(FlyStellarError::PassengerNotFound);
        }
        updated.passenger_count = updated.passenger_count - splits.len() as u32;
        self.manifests.set(flight_id.clone(), kept);
        self.flights.set(flight_id.clone(), updated);
        if self.registrations.has(passenger) {
            let reg = match self.registrations.take(passenger) {
                Some(v) => v,
                None => Vec::new(),
            };
            let rest = drop_flight(&reg, flight_id);
            self.registrations.set(passenger.clone(), rest);
        }
        assert forall|k: Seq<char>| #[trigger] self.flights@.contains_key(k) implies self.flight_ok(
            k,
        ) by {
            if k != flight_id@ {
                assert(pre.flight_ok(k));
                assert(self.passengers(k) == pre.passengers(k));
            }
        }
        assert forall|s: Seq<char>, d: Seq<char>, i: int|
            0 <= i < self.route_ids(s, d).len() implies self.flights@.contains_key(
            #[trigger] self.route_ids(s, d)[i]@,
        ) by {
            assert(pre.route_ids(s, d) == self.route_ids(s, d));
        }
        Ok(splits)
    }

    /// Sets the status of the flight `flight_id` to the one that `new_status`
    /// names, which must be `takeoff` or `cancelled`. The current status is not
    /// consulted, so a departed flight may still be marked cancelled and back.
    pub fn update_flight_status(&mut self, caller: &Address, flight_id: &FlightId, new_status: &Symbol)
        -> (r: Result<(), FlyStellarError>)
        requires
            old(self).wf(),
        ensures
            final(self).wf(),
            !old(self).is_admin(caller@) ==> r == Err::<(), _>(FlyStellarError::Unauthorized),
            old(self).is_admin(caller@) && !old(self).flights().contains_key(flight_id@) ==> r
                == Err::<(), _>(FlyStellarError::FlightNotFound),
            old(self).is_admin(caller@) && old(self).flights().contains_key(flight_id@) ==> match status_named(
                new_status@,
            ) {
                Some(s) => if s == FlightStatus::Booking {
                    r == Err::<(), _>(FlyStellarError::InvalidStatus)
                } else {
                    r is Ok
                },
                None => r == Err::<(), _>(FlyStellarError::InvalidStatus),
            },
            r is Err ==> *final(self) == *old(self),
            r is Ok ==> {
                let f = old(self).flights()[flight_id@];
                &&& final(self).flights() == old(self).flights().insert(
                    flight_id@,
                    FlightDetails { status: status_named(new_status@)->Some_0, ..f },
                )
                &&& forall|k: Seq<char>|
                    final(self).passengers(k) == old(self).passengers(k) && final(self).has_ledger(
                        k,
                    ) == old(self).has_ledger(k)
                &&& forall|p: Seq<char>| final(self).booked(p) == old(self).booked(p)
                &&& final(self).global_ids() == old(self).global_ids()
                &&& forall|s: Seq<char>, d: Seq<char>|
                    final(self).route_ids(s, d) == old(self).route_ids(s, d)
                &&& final(self).admin_of() == old(self).admin_of()
            },
    {
        self.require_admin(caller)?;
        let mut updated = match self.flights.get(flight_id) {
            Some(f) => f.duplicate(),
            None => return Err(FlyStellarError::FlightNotFound),
        };
        let status = match FlightStatus::from_symbol(new_status) {
            Some(FlightStatus::Takeoff) => FlightStatus::Takeoff,
            Some(FlightStatus::Cancelled) => FlightStatus::Cancelled,
            _ => return Err(FlyStellarError::InvalidStatus),
        };
        let ghost pre = *self;
        updated.status = status;
        self.flights.set(flight_id.clone(), updated);
        assert forall|k: Seq<char>| #[trigger] self.flights@.contains_key(k) implies self.flight_ok(
            k,
        ) by {
            assert(pre.flight_ok(k));
        }
        assert forall|s: Seq<char>, d: Seq<char>, i: int|
            0 <= i < self.route_ids(s, d).len() implies self.flights@.contains_key(
            #[trigger] self.route_ids(s, d)[i]@,
        ) by {
            assert(pre.route_ids(s, d) == self.route_ids(s, d));
        }
        Ok(())
    }

    /// The flights that `ids` names, in order, leaving out any entry with no
    /// flight record.
    fn lookup_all(&self, ids: &Vec<FlightId>) -> (r: Vec<FlightDetails>)
        requires
            self.wf(),
        ensures
            r@ == resolve(ids@, self.flights()),
    {
        let mut out: Vec<FlightDetails> = Vec::new();
        let mut i: usize = 0;
        while i < ids.len()
            invariant
                self.wf(),
                i <= ids@.len(),
                out@ == resolve(ids@.subrange(0, i as int), self.flights()),
            decreases ids@.len() - i,
        {
            let ghost next = ids@.subrange(0, i + 1);
            assert(next.drop_last() =~= ids@.subrange(0, i as int));
            if let Some(f) = self.flights.get(&ids[i]) {
                out.push(f.duplicate());
            }
            i = i + 1;
        }
        assert(ids@.subrange(0, ids@.len() as int) =~= ids@);
        out
    }

    /// The flights of the route index of `(src, dest)`, in index order.
    pub fn get_flights_search(&self, src: &Symbol, dest: &Symbol) -> (r: Vec<FlightDetails>)
        requires
            self.wf(),
        ensures
            r@ == resolve(self.route_ids(src@, dest@), self.flights()),
    {
        match self.routes.get(src) {
            Some(by_dest) => match by_dest.get(dest) {
                Some(ids) => self.lookup_all(ids),
                None => Vec::new(),
            },
            None => Vec::new(),
        }
    }

    /// All flights of the global index, in index order; for the administrator.
    pub fn get_flights_admin(&self, caller: &Address) -> (r: Result<
        Vec<FlightDetails>,
        FlyStellarError,
    >)
        requires
            self.wf(),
        ensures
            !self.is_admin(caller@) ==> r == Err::<Vec<FlightDetails>, _>(
                FlyStellarError::Unauthorized,
            ),
            self.is_admin(caller@) ==> (r matches Ok(v) && v@ == resolve(
                self.global_ids(),
                self.flights(),
            )),
    {
        self.require_admin(caller)?;
        Ok(self.lookup_all(&self.global))
    }

    /// The record of the flight `flight_id`; for the administrator.
    pub fn get_flight_admin(&self, caller: &Address, flight_id: &FlightId) -> (r: Result<
        FlightDetails,
        FlyStellarError,
    >)
        requires
            self.wf(),
        ensures
            !self.is_admin(caller@) ==> r == Err::<FlightDetails, _>(FlyStellarError::Unauthorized),
            self.is_admin(caller@) && !self.flights().contains_key(flight_id@) ==> r == Err::<
                FlightDetails,
                _,
            >(FlyStellarError::FlightNotFound),
            self.is_admin(caller@) && self.flights().contains_key(flight_id@) ==> r == Ok::<
                _,
                FlyStellarError,
            >(self.flights()[flight_id@]),
    {
        self.require_admin(caller)?;
        match self.flights.get(flight_id) {
            Some(f) => Ok(f.duplicate()),
            None => Err(FlyStellarError::FlightNotFound),
        }
    }

    /// The flights of the personal index of `passenger`, in index order. Any
    /// caller may ask about any passenger.
    pub fn get_flights_pass(&self, passenger: &Address) -> (r: Vec<FlightDetails>)
        requires
            self.wf(),
        ensures
            r@ == resolve(self.booked(passenger@), self.flights()),
    {
        match self.registrations.get(passenger) {
            Some(ids) => self.lookup_all(ids),
            None => Vec::new(),
        }
    }

    /// The passenger ledger of the flight `flight_id`, in booking order; empty
    /// where none is stored.
    pub fn get_passengers(&self, flight_id: &FlightId) -> (r: Vec<PassengerRecord>)
        requires
            self.wf(),
        ensures
            r@ == self.passengers(flight_id@),
    {
        let mut out: Vec<PassengerRecord> = Vec::new();
        if let Some(list) = self.manifests.get(flight_id) {
            let mut i: usize = 0;
            while i < list.len()
                invariant
                    i <= list@.len(),
                    list@ == self.passengers(flight_id@),
                    out@ == list@.subrange(0, i as int),
                decreases list@.len() - i,
            {
                out.push(list[i].duplicate());
                assert(out@ =~= list@.subrange(0, i + 1));
                i = i + 1;
            }
            assert(list@.subrange(0, list@.len() as int) =~= list@);
        }
        out
    }
}

} // verus!
