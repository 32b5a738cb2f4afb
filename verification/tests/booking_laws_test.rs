use flight_booking::dates::{Date, Time};
use flight_booking::error::AppError;
use flight_booking::models::{
    Flight, FlightBookingRequest, FlightRoute, Seat, SeatBookingRequest, SeatStatus,
    TicketBookingRequest,
};
use flight_booking::retry::backoff_millis;
use flight_booking::store::InventoryStore;
use flight_booking::text::{date_string, i32_string, u32_string};
use flight_booking::ticket_service::TicketService;

fn date(y: i32, m: u32, d: u32) -> Date {
    Date { year: y, month: m, day: d }
}

fn setup_flight(
    store: &mut InventoryStore,
    flight_number: i32,
    capacity: u32,
    seats: u32,
    flight_date: Date,
) -> i32 {
    let flight_id = store.flights.len() as i32 + 1;
    store.routes.push(FlightRoute {
        flight_number,
        departure_city: "Zurich".to_string(),
        destination_city: "Lisbon".to_string(),
        departure_time: Time { hour: 8, minute: 30, second: 0 },
        arrival_time: Time { hour: 11, minute: 0, second: 0 },
        aircraft_id: flight_number,
        overbooking_hundredths: 105,
        start_date: flight_date,
        end_date: None,
    });
    store.flights.push(Flight {
        flight_id,
        flight_number,
        flight_date,
        available_tickets: capacity,
        version: 0,
    });
    for seat_number in 1..=seats as i32 {
        store.seats.push(Seat {
            flight_id,
            seat_number,
            status: SeatStatus::Available,
            version: 0,
        });
    }
    flight_id
}

/// A two-leg booking whose second leg is sold out rolls the first leg all
/// the way back: quota, ticket and seat.
#[test]
fn two_leg_booking_compensates_first_leg() {
    let mut store = InventoryStore::new();
    let d = date(2025, 3, 14);
    let leg_a = setup_flight(&mut store, 700, 5, 5, d);
    setup_flight(&mut store, 701, 0, 5, d);

    let before_quota = store.flights[0].available_tickets;
    let result = TicketService::new().book_ticket(
        &mut store,
        42,
        TicketBookingRequest {
            flights: vec![
                FlightBookingRequest { flight_number: 700, flight_date: d, preferred_seat: Some(2) },
                FlightBookingRequest { flight_number: 701, flight_date: d, preferred_seat: None },
            ],
        },
    );

    match result {
        Err(AppError::ValidationError(msg)) => {
            assert_eq!(
                msg,
                "Failed to book some of your flights, please try again: \
                 Validation error: This flight is fully booked."
            );
        }
        _ => panic!("Expected ValidationError for the failed second leg"),
    }
    // leg A is fully reverted
    assert_eq!(store.flights[0].available_tickets, before_quota);
    assert!(store.tickets.is_empty(), "The first leg's ticket must be deleted");
    let seat2 = store
        .seats
        .iter()
        .find(|s| s.flight_id == leg_a && s.seat_number == 2)
        .unwrap();
    assert_eq!(seat2.status, SeatStatus::Available, "The claimed seat must be freed");
    // the version gates moved forward, as every write advances them
    assert!(store.flights[0].version >= 2);
}

/// A two-leg booking whose second flight does not exist reports the cause
/// and reverts the first leg.
#[test]
fn two_leg_booking_rejects_missing_flight() {
    let mut store = InventoryStore::new();
    let d = date(2025, 3, 14);
    setup_flight(&mut store, 700, 5, 5, d);

    let result = TicketService::new().book_ticket(
        &mut store,
        42,
        TicketBookingRequest {
            flights: vec![
                FlightBookingRequest { flight_number: 700, flight_date: d, preferred_seat: None },
                FlightBookingRequest { flight_number: 999, flight_date: d, preferred_seat: None },
            ],
        },
    );

    match result {
        Err(AppError::ValidationError(msg)) => {
            assert_eq!(
                msg,
                "Failed to book some of your flights, please try again: \
                 Not found: Flight 999 does not exist on 2025-03-14\n"
            );
        }
        _ => panic!("Expected ValidationError for the missing flight"),
    }
    assert_eq!(store.flights[0].available_tickets, 5);
    assert!(store.tickets.is_empty());
}

/// Releasing the same ticket twice gives the quota back only once; the
/// second release reports the ticket as missing.
#[test]
fn releasing_twice_does_not_double_increment() {
    let mut store = InventoryStore::new();
    let d = date(2025, 3, 14);
    setup_flight(&mut store, 700, 5, 5, d);
    let service = TicketService::new();

    let ticket_id = service.acquire(&mut store, 42, 700, d).unwrap();
    assert_eq!(store.flights[0].available_tickets, 4);

    service.release_ticket(&mut store, ticket_id).unwrap();
    assert_eq!(store.flights[0].available_tickets, 5);
    let quota_after_first = store.flights[0].available_tickets;
    let version_after_first = store.flights[0].version;

    let second = service.release_ticket(&mut store, ticket_id);
    match second {
        Err(AppError::NotFound(msg)) => assert_eq!(msg, "Ticket not found"),
        _ => panic!("Expected NotFound for the second release"),
    }
    assert_eq!(store.flights[0].available_tickets, quota_after_first);
    assert_eq!(store.flights[0].version, version_after_first);
}

/// Releasing a ticket with a seat frees the seat.
#[test]
fn releasing_frees_the_attached_seat() {
    let mut store = InventoryStore::new();
    let d = date(2025, 3, 14);
    let fid = setup_flight(&mut store, 700, 5, 5, d);
    let service = TicketService::new();

    let ticket_id = service.acquire(&mut store, 42, 700, d).unwrap();
    service
        .book_seat_for_ticket(
            &mut store,
            42,
            SeatBookingRequest { flight_number: 700, flight_date: d, seat_number: 3 },
        )
        .unwrap();
    assert_eq!(
        store.seats.iter().find(|s| s.flight_id == fid && s.seat_number == 3).unwrap().status,
        SeatStatus::Booked
    );

    service.release_ticket(&mut store, ticket_id).unwrap();
    assert_eq!(
        store.seats.iter().find(|s| s.flight_id == fid && s.seat_number == 3).unwrap().status,
        SeatStatus::Available
    );
}

/// Booking a flight that does not exist is a not-found rejection that
/// touches nothing.
#[test]
fn booking_a_missing_flight_is_not_found() {
    let mut store = InventoryStore::new();
    let d = date(2025, 3, 14);
    setup_flight(&mut store, 700, 5, 5, d);
    let missing = TicketService::new().acquire(&mut store, 42, 901, d);
    match missing {
        Err(AppError::NotFound(msg)) => {
            assert_eq!(msg, "Flight 901 does not exist on 2025-03-14\n");
        }
        _ => panic!("Expected NotFound for a missing flight"),
    }
    assert!(store.tickets.is_empty());
    assert_eq!(store.flights[0].version, 0);
}

/// A customer who already holds a ticket for the dated flight is rejected
/// before any quota mutation.
#[test]
fn rebooking_is_rejected_without_quota_mutation() {
    let mut store = InventoryStore::new();
    let d = date(2025, 3, 14);
    setup_flight(&mut store, 700, 5, 5, d);
    let service = TicketService::new();

    service.acquire(&mut store, 42, 700, d).unwrap();
    let quota = store.flights[0].available_tickets;
    let version = store.flights[0].version;

    let result = service.acquire(&mut store, 42, 700, d);
    match result {
        Err(AppError::ValidationError(msg)) => assert_eq!(msg, "Cannot re-book the same flight"),
        _ => panic!("Expected ValidationError for rebooking the same flight"),
    }
    assert_eq!(store.flights[0].available_tickets, quota);
    assert_eq!(store.flights[0].version, version);
    assert_eq!(store.tickets.len(), 1);
}

/// Moving to a new seat frees the old one; asking for the seat already
/// held is rejected.
#[test]
fn seat_moves_free_the_old_seat() {
    let mut store = InventoryStore::new();
    let d = date(2025, 3, 14);
    let fid = setup_flight(&mut store, 700, 5, 5, d);
    let service = TicketService::new();

    service.acquire(&mut store, 42, 700, d).unwrap();
    service
        .book_seat_for_ticket(
            &mut store,
            42,
            SeatBookingRequest { flight_number: 700, flight_date: d, seat_number: 1 },
        )
        .unwrap();
    // the same seat again is a rejection
    let same = service.book_seat_for_ticket(
        &mut store,
        42,
        SeatBookingRequest { flight_number: 700, flight_date: d, seat_number: 1 },
    );
    match same {
        Err(AppError::BadRequest(msg)) => {
            assert_eq!(msg, "Cannot book the same seat you already have");
        }
        _ => panic!("Expected BadRequest for rebooking the held seat"),
    }
    // moving to another seat frees the first
    service
        .book_seat_for_ticket(
            &mut store,
            42,
            SeatBookingRequest { flight_number: 700, flight_date: d, seat_number: 4 },
        )
        .unwrap();
    let seat1 = store.seats.iter().find(|s| s.flight_id == fid && s.seat_number == 1).unwrap();
    let seat4 = store.seats.iter().find(|s| s.flight_id == fid && s.seat_number == 4).unwrap();
    assert_eq!(seat1.status, SeatStatus::Available);
    assert_eq!(seat4.status, SeatStatus::Booked);
    assert_eq!(store.tickets[0].seat_number, Some(4));
}

/// A booked or unavailable seat is a terminal conflict, and a seat that
/// does not exist is a validation error.
#[test]
fn seat_rejections_have_their_own_kinds() {
    let mut store = InventoryStore::new();
    let d = date(2025, 3, 14);
    let fid = setup_flight(&mut store, 700, 5, 5, d);
    let service = TicketService::new();
    service.acquire(&mut store, 42, 700, d).unwrap();
    service.acquire(&mut store, 43, 700, d).unwrap();
    service
        .book_seat_for_ticket(
            &mut store,
            42,
            SeatBookingRequest { flight_number: 700, flight_date: d, seat_number: 2 },
        )
        .unwrap();

    let taken = service.book_seat_for_ticket(
        &mut store,
        43,
        SeatBookingRequest { flight_number: 700, flight_date: d, seat_number: 2 },
    );
    match taken {
        Err(AppError::Conflict(msg)) => {
            assert_eq!(msg, "The new seat is already booked or unavailable");
        }
        _ => panic!("Expected Conflict for a taken seat"),
    }

    store
        .seats
        .iter_mut()
        .find(|s| s.flight_id == fid && s.seat_number == 5)
        .unwrap()
        .status = SeatStatus::Unavailable;
    let unavailable = service.book_seat_for_ticket(
        &mut store,
        43,
        SeatBookingRequest { flight_number: 700, flight_date: d, seat_number: 5 },
    );
    assert!(matches!(unavailable, Err(AppError::Conflict(_))));

    let missing = service.book_seat_for_ticket(
        &mut store,
        43,
        SeatBookingRequest { flight_number: 700, flight_date: d, seat_number: 77 },
    );
    match missing {
        Err(AppError::ValidationError(msg)) => assert_eq!(msg, "The new seat is not found"),
        _ => panic!("Expected ValidationError for a missing seat"),
    }

    let missing_flight = service.book_seat_for_ticket(
        &mut store,
        43,
        SeatBookingRequest { flight_number: 888, flight_date: d, seat_number: 1 },
    );
    assert!(matches!(missing_flight, Err(AppError::NotFound(_))));

    let no_ticket = service.book_seat_for_ticket(
        &mut store,
        99,
        SeatBookingRequest { flight_number: 700, flight_date: d, seat_number: 3 },
    );
    match no_ticket {
        Err(AppError::BadRequest(msg)) => {
            assert_eq!(msg, "Customer does not have a ticket for this flight");
        }
        _ => panic!("Expected BadRequest without a ticket"),
    }
}

/// The confirmation message softens when a preferred seat could not be had.
#[test]
fn confirmation_message_tracks_missed_seats() {
    let mut store = InventoryStore::new();
    let d = date(2025, 3, 14);
    setup_flight(&mut store, 700, 5, 5, d);
    setup_flight(&mut store, 701, 5, 5, d);
    let service = TicketService::new();

    let confirmed = service
        .book_ticket(
            &mut store,
            1,
            TicketBookingRequest {
                flights: vec![FlightBookingRequest {
                    flight_number: 700,
                    flight_date: d,
                    preferred_seat: Some(1),
                }],
            },
        )
        .unwrap();
    assert_eq!(confirmed.booking_status, "Confirmed");
    assert_eq!(confirmed.flight_bookings.len(), 1);
    assert_eq!(confirmed.flight_bookings[0].seat_number, Some(1));
    assert_eq!(confirmed.flight_bookings[0].flight_details, "Flight 700 on 2025-03-14");

    // another customer wants the very seat customer 1 now holds
    let softened = service
        .book_ticket(
            &mut store,
            2,
            TicketBookingRequest {
                flights: vec![FlightBookingRequest {
                    flight_number: 700,
                    flight_date: d,
                    preferred_seat: Some(1),
                }],
            },
        )
        .unwrap();
    assert_eq!(
        softened.booking_status,
        "Confirmed booking, however the preferred seat is currently unavaiable, \
         please try again later."
    );
    assert_eq!(softened.flight_bookings[0].seat_number, None);
}

/// The backoff jitter stays inside its documented band.
#[test]
fn backoff_delay_stays_in_range() {
    for _ in 0..200 {
        let d = backoff_millis();
        assert!((1..=50).contains(&d));
    }
}

/// Exact renderings of numbers and dates.
#[test]
fn decimal_and_date_rendering() {
    assert_eq!(u32_string(0), "0");
    assert_eq!(u32_string(7), "7");
    assert_eq!(u32_string(12), "12");
    assert_eq!(u32_string(4294967295), "4294967295");
    assert_eq!(i32_string(-1), "-1");
    assert_eq!(i32_string(-2147483648), "-2147483648");
    assert_eq!(i32_string(2147483647), "2147483647");
    assert_eq!(date_string(&Date { year: 2024, month: 12, day: 8 }), "2024-12-08");
    assert_eq!(date_string(&Date { year: 999, month: 1, day: 31 }), "999-01-31");
}

/// The error taxonomy maps to the documented status codes and renderings.
#[test]
fn error_rendering_and_status_codes() {
    let e = AppError::ValidationError("This flight is fully booked.".to_string());
    assert_eq!(e.status_code(), 400);
    assert_eq!(e.display_string(), "Validation error: This flight is fully booked.");
    assert_eq!(e.message(), "This flight is fully booked.");

    assert_eq!(AppError::NotFound(String::new()).status_code(), 404);
    assert_eq!(AppError::DatabaseError(String::new()).status_code(), 500);
    assert_eq!(AppError::AuthError(String::new()).status_code(), 401);
    assert_eq!(AppError::Conflict(String::new()).status_code(), 409);
    assert_eq!(AppError::Unprocessable(String::new()).status_code(), 422);
    assert_eq!(AppError::BadRequest(String::new()).status_code(), 400);
    assert_eq!(AppError::DatabaseError("x".to_string()).display_string(), "Database error");
    assert_eq!(AppError::Conflict("seat".to_string()).display_string(), "Conflict: seat");
}
