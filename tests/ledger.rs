use fly_stellar::{refund_split, FlightStatus, FlyStellar, FlyStellarError};

fn s(text: &str) -> String {
    text.to_string()
}

fn ledger() -> FlyStellar {
    let mut l = FlyStellar::new();
    assert_eq!(l.initialize(s("ADMIN")), Ok(()));
    l
}

fn ids(flights: &[fly_stellar::FlightDetails]) -> Vec<String> {
    flights.iter().map(|f| f.id.clone()).collect()
}

#[test]
fn create_flight_stores_record_and_indexes() {
    let mut l = ledger();
    assert_eq!(l.create_flight(&s("ADMIN"), s("F1"), 3, 70, s("NYC"), s("LON")), Ok(()));
    let f = l.get_flight_admin(&s("ADMIN"), &s("F1")).unwrap();
    assert_eq!(f.escrow_amount, 210);
    assert_eq!(f.max_passengers, 3);
    assert_eq!(f.distance, 70);
    assert_eq!(f.passenger_count, 0);
    assert_eq!(f.status, FlightStatus::Booking);
    assert_eq!(f.src, "NYC");
    assert_eq!(f.dest, "LON");
    assert_eq!(ids(&l.get_flights_admin(&s("ADMIN")).unwrap()), vec![s("F1")]);
    assert_eq!(ids(&l.get_flights_search(&s("NYC"), &s("LON"))), vec![s("F1")]);
    assert!(l.get_flights_search(&s("LON"), &s("NYC")).is_empty());
}

#[test]
fn create_flight_rejects_zero_capacity() {
    let mut l = ledger();
    assert_eq!(
        l.create_flight(&s("ADMIN"), s("F1"), 0, 70, s("NYC"), s("LON")),
        Err(FlyStellarError::InvalidInput)
    );
    assert!(l.get_flights_admin(&s("ADMIN")).unwrap().is_empty());
    assert!(l.get_flights_search(&s("NYC"), &s("LON")).is_empty());
}

#[test]
fn create_flight_rejects_non_positive_distance() {
    let mut l = ledger();
    assert_eq!(
        l.create_flight(&s("ADMIN"), s("F1"), 2, 0, s("NYC"), s("LON")),
        Err(FlyStellarError::InvalidInput)
    );
    assert_eq!(
        l.create_flight(&s("ADMIN"), s("F1"), 2, -5, s("NYC"), s("LON")),
        Err(FlyStellarError::InvalidInput)
    );
    assert!(l.get_flights_admin(&s("ADMIN")).unwrap().is_empty());
    assert_eq!(
        l.get_flight_admin(&s("ADMIN"), &s("F1")).unwrap_err(),
        FlyStellarError::FlightNotFound
    );
}

#[test]
fn create_flight_rejects_existing_id() {
    let mut l = ledger();
    assert_eq!(l.create_flight(&s("ADMIN"), s("F1"), 2, 50, s("NYC"), s("LON")), Ok(()));
    assert_eq!(
        l.create_flight(&s("ADMIN"), s("F1"), 9, 10, s("PAR"), s("ROM")),
        Err(FlyStellarError::FlightAlreadyExists)
    );
    let f = l.get_flight_admin(&s("ADMIN"), &s("F1")).unwrap();
    assert_eq!(f.max_passengers, 2);
    assert_eq!(f.escrow_amount, 100);
    assert_eq!(ids(&l.get_flights_admin(&s("ADMIN")).unwrap()), vec![s("F1")]);
    assert!(l.get_flights_search(&s("PAR"), &s("ROM")).is_empty());
}

#[test]
fn only_the_admin_may_administer() {
    let mut l = ledger();
    assert_eq!(
        l.create_flight(&s("MALLORY"), s("F1"), 2, 50, s("NYC"), s("LON")),
        Err(FlyStellarError::Unauthorized)
    );
    assert_eq!(l.create_flight(&s("ADMIN"), s("F1"), 2, 50, s("NYC"), s("LON")), Ok(()));
    assert_eq!(
        l.update_flight_status(&s("MALLORY"), &s("F1"), &s("takeoff")),
        Err(FlyStellarError::Unauthorized)
    );
    assert_eq!(
        l.get_flights_admin(&s("MALLORY")).unwrap_err(),
        FlyStellarError::Unauthorized
    );
    assert_eq!(
        l.get_flight_admin(&s("MALLORY"), &s("F1")).unwrap_err(),
        FlyStellarError::Unauthorized
    );
}

#[test]
fn no_admin_before_initialize() {
    let mut l = FlyStellar::new();
    assert_eq!(l.get_admin(), None);
    assert_eq!(
        l.create_flight(&s("ADMIN"), s("F1"), 2, 50, s("NYC"), s("LON")),
        Err(FlyStellarError::Unauthorized)
    );
    assert_eq!(l.initialize(s("ADMIN")), Ok(()));
    assert_eq!(l.get_admin(), Some(s("ADMIN")));
    assert_eq!(l.initialize(s("OTHER")), Err(FlyStellarError::AlreadyInitialized));
    assert_eq!(l.get_admin(), Some(s("ADMIN")));
}

#[test]
fn booking_fills_flight_then_refuses() {
    let mut l = ledger();
    assert_eq!(l.create_flight(&s("ADMIN"), s("F1"), 3, 40, s("NYC"), s("LON")), Ok(()));
    for p in ["P1", "P2", "P3"] {
        assert_eq!(l.buy_ticket(&s("F1"), s(p), s("economy")), Ok(()));
    }
    assert_eq!(l.get_flight_admin(&s("ADMIN"), &s("F1")).unwrap().passenger_count, 3);
    assert_eq!(
        l.buy_ticket(&s("F1"), s("P4"), s("economy")),
        Err(FlyStellarError::FlightFull)
    );
    assert_eq!(l.get_flight_admin(&s("ADMIN"), &s("F1")).unwrap().passenger_count, 3);
    let list = l.get_passengers(&s("F1"));
    let who: Vec<String> = list.iter().map(|r| r.passenger.clone()).collect();
    assert_eq!(who, vec![s("P1"), s("P2"), s("P3")]);
    assert!(list.iter().all(|r| r.paid == 40));
    assert!(l.get_flights_pass(&s("P4")).is_empty());
    assert_eq!(
        l.cancel_ticket(&s("F1"), &s("P4")),
        Err(FlyStellarError::PassengerNotFound)
    );
}

#[test]
fn booking_unknown_flight_fails() {
    let mut l = ledger();
    assert_eq!(
        l.buy_ticket(&s("NOPE"), s("P1"), s("economy")),
        Err(FlyStellarError::FlightNotFound)
    );
    assert!(l.get_flights_pass(&s("P1")).is_empty());
}

#[test]
fn booking_after_takeoff_fails() {
    let mut l = ledger();
    assert_eq!(l.create_flight(&s("ADMIN"), s("F1"), 3, 40, s("NYC"), s("LON")), Ok(()));
    assert_eq!(l.update_flight_status(&s("ADMIN"), &s("F1"), &s("takeoff")), Ok(()));
    assert_eq!(
        l.buy_ticket(&s("F1"), s("P1"), s("economy")),
        Err(FlyStellarError::InvalidStatus)
    );
    assert_eq!(l.get_flight_admin(&s("ADMIN"), &s("F1")).unwrap().passenger_count, 0);
}

#[test]
fn cancel_only_booking_removes_it() {
    let mut l = ledger();
    assert_eq!(l.create_flight(&s("ADMIN"), s("F1"), 3, 40, s("NYC"), s("LON")), Ok(()));
    assert_eq!(l.create_flight(&s("ADMIN"), s("F2"), 3, 30, s("NYC"), s("LON")), Ok(()));
    assert_eq!(l.buy_ticket(&s("F1"), s("P1"), s("economy")), Ok(()));
    assert_eq!(l.buy_ticket(&s("F1"), s("P2"), s("business")), Ok(()));
    assert_eq!(l.buy_ticket(&s("F2"), s("P1"), s("economy")), Ok(()));
    assert_eq!(l.cancel_ticket(&s("F1"), &s("P1")), Ok(vec![(36, 4)]));
    assert_eq!(l.get_flight_admin(&s("ADMIN"), &s("F1")).unwrap().passenger_count, 1);
    let list = l.get_passengers(&s("F1"));
    assert_eq!(list.len(), 1);
    assert_eq!(list[0].passenger, "P2");
    assert_eq!(list[0].details, "business");
    assert_eq!(l.get_passengers(&s("F2")).len(), 1);
    assert_eq!(ids(&l.get_flights_pass(&s("P1"))), vec![s("F2")]);
    assert_eq!(ids(&l.get_flights_pass(&s("P2"))), vec![s("F1")]);
    assert_eq!(ids(&l.get_flights_admin(&s("ADMIN")).unwrap()), vec![s("F1"), s("F2")]);
    assert_eq!(ids(&l.get_flights_search(&s("NYC"), &s("LON"))), vec![s("F1"), s("F2")]);
    assert_eq!(
        l.cancel_ticket(&s("F1"), &s("P1")),
        Err(FlyStellarError::PassengerNotFound)
    );
}

#[test]
fn cancel_all_bookings_of_a_passenger() {
    let mut l = ledger();
    assert_eq!(l.create_flight(&s("ADMIN"), s("F1"), 3, 101, s("NYC"), s("LON")), Ok(()));
    assert_eq!(l.buy_ticket(&s("F1"), s("P1"), s("economy")), Ok(()));
    assert_eq!(l.buy_ticket(&s("F1"), s("P1"), s("economy")), Ok(()));
    assert_eq!(ids(&l.get_flights_pass(&s("P1"))), vec![s("F1"), s("F1")]);
    assert_eq!(l.cancel_ticket(&s("F1"), &s("P1")), Ok(vec![(90, 11), (90, 11)]));
    assert_eq!(l.get_flight_admin(&s("ADMIN"), &s("F1")).unwrap().passenger_count, 0);
    assert!(l.get_flights_pass(&s("P1")).is_empty());
}

#[test]
fn cancel_errors() {
    let mut l = ledger();
    assert_eq!(
        l.cancel_ticket(&s("F1"), &s("P1")),
        Err(FlyStellarError::FlightNotFound)
    );
    assert_eq!(l.create_flight(&s("ADMIN"), s("F1"), 3, 40, s("NYC"), s("LON")), Ok(()));
    assert_eq!(
        l.cancel_ticket(&s("F1"), &s("P1")),
        Err(FlyStellarError::NoPassengers)
    );
    assert_eq!(l.buy_ticket(&s("F1"), s("P2"), s("economy")), Ok(()));
    assert_eq!(
        l.cancel_ticket(&s("F1"), &s("P1")),
        Err(FlyStellarError::PassengerNotFound)
    );
    assert_eq!(l.get_flight_admin(&s("ADMIN"), &s("F1")).unwrap().passenger_count, 1);
    assert_eq!(ids(&l.get_flights_pass(&s("P2"))), vec![s("F1")]);
}

#[test]
fn refund_split_truncates() {
    assert_eq!(refund_split(100), (90, 10));
    assert_eq!(refund_split(101), (90, 11));
    assert_eq!(refund_split(50), (45, 5));
    assert_eq!(refund_split(0), (0, 0));
    assert_eq!(refund_split(9), (8, 1));
}

#[test]
fn status_update_accepts_takeoff_and_cancelled_only() {
    let mut l = ledger();
    assert_eq!(l.create_flight(&s("ADMIN"), s("F1"), 3, 40, s("NYC"), s("LON")), Ok(()));
    for bad in ["booking", "landed", "", "Takeoff"] {
        assert_eq!(
            l.update_flight_status(&s("ADMIN"), &s("F1"), &s(bad)),
            Err(FlyStellarError::InvalidStatus)
        );
        assert_eq!(
            l.get_flight_admin(&s("ADMIN"), &s("F1")).unwrap().status,
            FlightStatus::Booking
        );
    }
    assert_eq!(l.update_flight_status(&s("ADMIN"), &s("F1"), &s("cancelled")), Ok(()));
    assert_eq!(
        l.get_flight_admin(&s("ADMIN"), &s("F1")).unwrap().status,
        FlightStatus::Cancelled
    );
    assert_eq!(l.update_flight_status(&s("ADMIN"), &s("F1"), &s("takeoff")), Ok(()));
    assert_eq!(
        l.get_flight_admin(&s("ADMIN"), &s("F1")).unwrap().status,
        FlightStatus::Takeoff
    );
    assert_eq!(
        l.update_flight_status(&s("ADMIN"), &s("F9"), &s("takeoff")),
        Err(FlyStellarError::FlightNotFound)
    );
}

#[test]
fn status_symbols() {
    assert_eq!(FlightStatus::from_symbol(&s("booking")), Some(FlightStatus::Booking));
    assert_eq!(FlightStatus::from_symbol(&s("takeoff")), Some(FlightStatus::Takeoff));
    assert_eq!(FlightStatus::from_symbol(&s("cancelled")), Some(FlightStatus::Cancelled));
    assert_eq!(FlightStatus::from_symbol(&s("canceled")), None);
}

#[test]
fn queries_keep_index_order() {
    let mut l = ledger();
    for (id, src, dest) in [("A", "NYC", "LON"), ("B", "PAR", "ROM"), ("C", "NYC", "LON")] {
        assert_eq!(l.create_flight(&s("ADMIN"), s(id), 2, 10, s(src), s(dest)), Ok(()));
    }
    assert_eq!(ids(&l.get_flights_admin(&s("ADMIN")).unwrap()), vec![s("A"), s("B"), s("C")]);
    assert_eq!(ids(&l.get_flights_search(&s("NYC"), &s("LON"))), vec![s("A"), s("C")]);
    assert_eq!(ids(&l.get_flights_search(&s("PAR"), &s("ROM"))), vec![s("B")]);
    assert!(l.get_flights_search(&s("NYC"), &s("ROM")).is_empty());
    assert_eq!(l.buy_ticket(&s("C"), s("P1"), s("x")), Ok(()));
    assert_eq!(l.buy_ticket(&s("A"), s("P1"), s("x")), Ok(()));
    assert_eq!(ids(&l.get_flights_pass(&s("P1"))), vec![s("C"), s("A")]);
    assert!(l.get_flights_pass(&s("NOBODY")).is_empty());
}

#[test]
fn end_to_end_booking_and_cancellation() {
    let mut l = ledger();
    assert_eq!(l.create_flight(&s("ADMIN"), s("F1"), 2, 50, s("NYC"), s("LON")), Ok(()));
    assert_eq!(l.get_flight_admin(&s("ADMIN"), &s("F1")).unwrap().escrow_amount, 100);
    assert_eq!(l.buy_ticket(&s("F1"), s("P1"), s("economy")), Ok(()));
    let f = l.get_flight_admin(&s("ADMIN"), &s("F1")).unwrap();
    assert_eq!(f.passenger_count, 1);
    let list = l.get_passengers(&s("F1"));
    assert_eq!(list.len(), 1);
    assert_eq!(list[0].passenger, "P1");
    assert_eq!(list[0].paid, 50);
    assert_eq!(list[0].details, "economy");
    assert_eq!(ids(&l.get_flights_pass(&s("P1"))), vec![s("F1")]);
    assert_eq!(l.cancel_ticket(&s("F1"), &s("P1")), Ok(vec![(45, 5)]));
    assert_eq!(l.get_flight_admin(&s("ADMIN"), &s("F1")).unwrap().passenger_count, 0);
    assert!(l.get_passengers(&s("F1")).is_empty());
    assert!(l.get_flights_pass(&s("P1")).is_empty());
    assert_eq!(
        l.cancel_ticket(&s("F1"), &s("P1")),
        Err(FlyStellarError::PassengerNotFound)
    );
    assert_eq!(ids(&l.get_flights_search(&s("NYC"), &s("LON"))), vec![s("F1")]);
    assert_eq!(ids(&l.get_flights_admin(&s("ADMIN")).unwrap()), vec![s("F1")]);
}
