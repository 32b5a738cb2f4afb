use flight_booking::dates::{Date, Time};
use flight_booking::error::AppError;
use flight_booking::models::{
    Flight, FlightBookingRequest, FlightRoute, Seat, SeatBookingRequest, SeatStatus,
    TicketBookingRequest,
};
use flight_booking::store::InventoryStore;
use flight_booking::ticket_service::TicketService;

fn date(y: i32, m: u32, d: u32) -> Date {
    Date { year: y, month: m, day: d }
}

/// A New York - London route and a dated
/// flight with `capacity` tickets and `capacity` available seats.
fn setup_database(
    store: &mut InventoryStore,
    flight_number: i32,
    capacity: u32,
    flight_date: Date,
) -> i32 {
    let flight_id = store.flights.len() as i32 + 1;
    store.routes.push(FlightRoute {
        flight_number,
        departure_city: "New York".to_string(),
        destination_city: "London".to_string(),
        departure_time: Time { hour: 10, minute: 0, second: 0 },
        arrival_time: Time { hour: 22, minute: 0, second: 0 },
        aircraft_id: flight_number,
        overbooking_hundredths: 0,
        start_date: flight_date,
        end_date: Some(flight_date),
    });
    store.flights.push(Flight {
        flight_id,
        flight_number,
        flight_date,
        available_tickets: capacity,
        version: 1,
    });
    for seat_number in 1..=capacity as i32 {
        store.seats.push(Seat {
            flight_id,
            seat_number,
            status: SeatStatus::Available,
            version: 0,
        });
    }
    flight_id
}

fn single_leg(flight_number: i32, flight_date: Date) -> TicketBookingRequest {
    TicketBookingRequest {
        flights: vec![FlightBookingRequest { flight_number, flight_date, preferred_seat: None }],
    }
}

/// Ten contenders race for one ticket; the store's version gate serializes
/// them, so the run below is the order in which their updates landed.
#[test]
fn test_concurrent_ticket_booking_capacity1() {
    let mut store = InventoryStore::new();
    let flight_number = 10;
    let capacity = 1;
    let num_users = 10;
    let flight_date = date(2024, 12, 8);
    setup_database(&mut store, flight_number, capacity, flight_date);

    let service = TicketService::new();
    let mut successful_bookings = 0;
    for user_id in 1..=num_users {
        let result = service.book_ticket(&mut store, user_id, single_leg(flight_number, flight_date));
        if result.is_ok() {
            successful_bookings += 1;
        } else {
            assert!(matches!(result, Err(AppError::ValidationError(_))));
        }
    }

    assert_eq!(successful_bookings, 1, "Only one booking should succeed");
    assert_eq!(store.tickets.len(), 1, "There should be exactly one ticket in the store");
    assert_eq!(store.flights[0].available_tickets, 0, "Available tickets should be 0");
}

#[test]
fn test_concurrent_ticket_booking_capacity5() {
    let mut store = InventoryStore::new();
    let flight_number = 11;
    let capacity = 5;
    let num_users = 20;
    let flight_date = date(2024, 12, 8);
    setup_database(&mut store, flight_number, capacity, flight_date);

    let service = TicketService::new();
    let mut successful_bookings = 0;
    for user_id in 1..=num_users {
        if service
            .book_ticket(&mut store, user_id, single_leg(flight_number, flight_date))
            .is_ok()
        {
            successful_bookings += 1;
        }
    }

    assert_eq!(successful_bookings, 5, "Exactly five bookings should succeed");
    assert_eq!(store.tickets.len(), 5);
    assert_eq!(store.flights[0].available_tickets, 0);
}

/// Ten ticket holders all go for seat number one.
#[test]
fn test_concurrent_seat_booking1() {
    let mut store = InventoryStore::new();
    let flight_number = 20;
    let capacity = 10;
    let num_users = 10;
    let flight_date = date(2024, 12, 8);
    let target_seat = 1;
    let flight_id = setup_database(&mut store, flight_number, capacity, flight_date);

    let service = TicketService::new();
    for user_id in 1..=num_users {
        service
            .book_ticket(&mut store, user_id, single_leg(flight_number, flight_date))
            .unwrap();
    }

    let mut successful_bookings = 0;
    for user_id in 1..=num_users {
        let result = service.book_seat_for_ticket(
            &mut store,
            user_id,
            SeatBookingRequest { flight_number, flight_date, seat_number: target_seat },
        );
        if result.is_ok() {
            successful_bookings += 1;
        }
    }

    assert_eq!(successful_bookings, 1, "Only one seat booking should succeed");
    let seat = store
        .seats
        .iter()
        .find(|s| s.flight_id == flight_id && s.seat_number == target_seat)
        .unwrap();
    assert_eq!(seat.status, SeatStatus::Booked, "Seat should be marked as booked");
    let referencing = store
        .tickets
        .iter()
        .filter(|t| t.flight_id == flight_id && t.seat_number == Some(target_seat))
        .count();
    assert_eq!(referencing, 1, "Only one ticket should have this seat number");
}

/// Twenty ticket holders contend for five seats, four contenders per seat.
#[test]
fn test_concurrent_seat_booking5() {
    let mut store = InventoryStore::new();
    let flight_number = 25;
    let capacity = 30;
    let num_users = 20;
    let flight_date = date(2024, 12, 8);
    let target_seats = [1, 2, 3, 4, 5];
    let flight_id = setup_database(&mut store, flight_number, capacity, flight_date);

    let service = TicketService::new();
    for user_id in 1..=num_users {
        service
            .book_ticket(&mut store, user_id, single_leg(flight_number, flight_date))
            .unwrap();
    }

    let mut successful_bookings = 0;
    for user_id in 1..=num_users as usize {
        let target_seat = target_seats[(user_id - 1) % target_seats.len()];
        let result = service.book_seat_for_ticket(
            &mut store,
            user_id as i32,
            SeatBookingRequest { flight_number, flight_date, seat_number: target_seat },
        );
        if result.is_ok() {
            successful_bookings += 1;
        }
    }

    assert_eq!(successful_bookings, 5, "Only five seat bookings should succeed");
    for &seat_number in &target_seats {
        let seat = store
            .seats
            .iter()
            .find(|s| s.flight_id == flight_id && s.seat_number == seat_number)
            .unwrap();
        assert_eq!(seat.status, SeatStatus::Booked, "Seat {} should be marked as booked", seat_number);
        let referencing = store
            .tickets
            .iter()
            .filter(|t| t.flight_id == flight_id && t.seat_number == Some(seat_number))
            .count();
        assert_eq!(referencing, 1, "Seat {} should be booked exactly once", seat_number);
    }
}

#[test]
fn test_get_booking_history() {
    let mut store = InventoryStore::new();
    let user_id = 1;
    let flight_number1 = 301;
    let flight_number2 = 302;
    let capacity = 10;
    let flight_date1 = date(2024, 1, 1);
    let flight_date2 = date(2024, 1, 2);
    setup_database(&mut store, flight_number1, capacity, flight_date1);
    setup_database(&mut store, flight_number2, capacity, flight_date2);

    let service = TicketService::new();
    service
        .book_ticket(
            &mut store,
            user_id,
            TicketBookingRequest {
                flights: vec![FlightBookingRequest {
                    flight_number: flight_number1,
                    flight_date: flight_date1,
                    preferred_seat: Some(1),
                }],
            },
        )
        .unwrap();
    service
        .book_ticket(
            &mut store,
            user_id,
            TicketBookingRequest {
                flights: vec![FlightBookingRequest {
                    flight_number: flight_number2,
                    flight_date: flight_date2,
                    preferred_seat: None,
                }],
            },
        )
        .unwrap();

    let history = service.get_history(&store, user_id).unwrap();

    assert_eq!(history.flights.len(), 2, "Should have 2 flight bookings");

    let first_booking = &history.flights[0];
    let second_booking = &history.flights[1];

    assert_eq!(first_booking.flight_number, flight_number2);
    assert_eq!(first_booking.flight_date, flight_date2);
    assert_eq!(first_booking.seat_number, "Not Selected");
    assert_eq!(first_booking.departure_city, "New York");
    assert_eq!(first_booking.destination_city, "London");

    assert_eq!(second_booking.flight_number, flight_number1);
    assert_eq!(second_booking.flight_date, flight_date1);
    assert_eq!(second_booking.seat_number, "1");
    assert_eq!(second_booking.departure_city, "New York");
    assert_eq!(second_booking.destination_city, "London");
}

/// A scaled-down booking storm across several flights and dates: no flight
/// ever hands out more tickets than its quota.
#[test]
fn test_massive_concurrent_booking() {
    let mut store = InventoryStore::new();
    let flight_numbers = [100, 200, 300, 400, 500];
    let capacity = 5;
    let mut dates = Vec::new();
    for day in 1..=3 {
        dates.push(date(2024, 1, day));
    }
    for &fnum in &flight_numbers {
        for &d in &dates {
            setup_database(&mut store, fnum, capacity, d);
        }
    }

    let service = TicketService::new();
    let num_users = 120;
    let mut successes = 0;
    for user in 1..=num_users {
        // each user spreads requests over the flights of one day
        let d = dates[(user as usize) % dates.len()];
        for &fnum in &flight_numbers {
            if service.book_ticket(&mut store, user, single_leg(fnum, d)).is_ok() {
                successes += 1;
            }
        }
    }

    // every flight is exactly sold out and the ticket count matches
    for flight in &store.flights {
        assert_eq!(flight.available_tickets, 0);
    }
    let expected: usize = flight_numbers.len() * dates.len() * capacity as usize;
    assert_eq!(successes, expected);
    assert_eq!(store.tickets.len(), expected);
}
