use flight_booking::dates::{Date, Time};
use flight_booking::error::AppError;
use flight_booking::flight_service::FlightService;
use flight_booking::models::{Flight, FlightRoute, FlightSearchQuery, Seat, SeatStatus};
use flight_booking::store::InventoryStore;

fn date(y: i32, m: u32, d: u32) -> Date {
    Date { year: y, month: m, day: d }
}

fn time(h: u32, m: u32, s: u32) -> Time {
    Time { hour: h, minute: m, second: s }
}

/// A route, a dated flight with the given
/// quota, and ten available seats.
fn create_test_flight(
    store: &mut InventoryStore,
    flight_number: i32,
    departure_city: &str,
    destination_city: &str,
    flight_date: Date,
    available_tickets: u32,
) {
    let flight_id = store.flights.len() as i32 + 1;
    store.routes.push(FlightRoute {
        flight_number,
        departure_city: departure_city.to_string(),
        destination_city: destination_city.to_string(),
        departure_time: time(10, 0, 0),
        arrival_time: time(12, 0, 0),
        aircraft_id: 999,
        overbooking_hundredths: 0,
        start_date: flight_date,
        end_date: None,
    });
    store.flights.push(Flight {
        flight_id,
        flight_number,
        flight_date,
        available_tickets,
        version: 0,
    });
    for seat_number in 1..=10 {
        store.seats.push(Seat {
            flight_id,
            seat_number,
            status: SeatStatus::Available,
            version: 0,
        });
    }
}

#[test]
fn test_search_flights_single_date() {
    let mut store = InventoryStore::new();
    let departure_date = date(2024, 1, 1);
    create_test_flight(&mut store, 101, "Beijing", "Shanghai", departure_date, 100);
    create_test_flight(&mut store, 102, "Beijing", "Shanghai", departure_date, 0);
    create_test_flight(&mut store, 103, "Shanghai", "Beijing", departure_date, 100);

    let search_query = FlightSearchQuery {
        departure_city: "Beijing".to_string(),
        destination_city: "Shanghai".to_string(),
        departure_date,
        end_date: None,
    };

    let result = FlightService::new().search_flights(&store, search_query).unwrap();

    assert_eq!(result.flights.len(), 1);
    assert_eq!(result.flights[0].flight_number, 101);
    assert_eq!(result.flights[0].departure_city, "Beijing");
    assert_eq!(result.flights[0].destination_city, "Shanghai");
    assert_eq!(result.flights[0].available_tickets, 100);
}

#[test]
fn test_search_flights_date_range() {
    let mut store = InventoryStore::new();
    let start_date = date(2024, 1, 1);
    let middle_date = date(2024, 1, 2);
    let end_date = date(2024, 1, 3);
    create_test_flight(&mut store, 201, "Toronto", "Ottawa", start_date, 100);
    create_test_flight(&mut store, 202, "Toronto", "Ottawa", middle_date, 100);
    create_test_flight(&mut store, 203, "Toronto", "Ottawa", end_date, 100);
    create_test_flight(&mut store, 204, "Ottawa", "Toronto", middle_date, 100);

    let search_query = FlightSearchQuery {
        departure_city: "Toronto".to_string(),
        destination_city: "Ottawa".to_string(),
        departure_date: start_date,
        end_date: Some(end_date),
    };

    let result = FlightService::new().search_flights(&store, search_query).unwrap();

    assert_eq!(result.flights.len(), 3);
    for flight in result.flights {
        assert_eq!(flight.departure_city, "Toronto");
        assert_eq!(flight.destination_city, "Ottawa");
        assert!(flight.flight_date.year == 2024 && flight.flight_date.month == 1);
        assert!(flight.flight_date.day >= 1 && flight.flight_date.day <= 3);
        assert!(flight.available_tickets > 0);
    }
}

#[test]
fn test_get_available_seats() {
    let mut store = InventoryStore::new();
    let flight_number = 301;
    let flight_date = date(2024, 1, 1);
    create_test_flight(&mut store, flight_number, "New York", "Los Angeles", flight_date, 10);

    let result = FlightService::new()
        .get_available_seats(&store, flight_number, flight_date)
        .unwrap();

    assert_eq!(result.available_seats.len(), 10);
    for i in 1..=10 {
        assert!(result.available_seats.contains(&i));
    }
}

#[test]
fn test_get_available_seats_nonexistent_flight() {
    let store = InventoryStore::new();
    let flight_number = 302;
    let flight_date = date(2024, 1, 1);

    let result = FlightService::new().get_available_seats(&store, flight_number, flight_date);

    match result {
        Err(AppError::NotFound(msg)) => {
            assert_eq!(msg, "Flight not found");
        }
        _ => panic!("Expected NotFound error for non-existent flight"),
    }
}

#[test]
fn test_get_available_seats_with_mixed_status() {
    let mut store = InventoryStore::new();
    let flight_number = 303;
    let flight_date = date(2024, 1, 1);
    create_test_flight(&mut store, flight_number, "New York", "Los Angeles", flight_date, 10);

    for seat in store.seats.iter_mut() {
        if [2, 4, 6].contains(&seat.seat_number) {
            seat.status = SeatStatus::Booked;
        }
        if [8, 10].contains(&seat.seat_number) {
            seat.status = SeatStatus::Unavailable;
        }
    }

    let result = FlightService::new()
        .get_available_seats(&store, flight_number, flight_date)
        .unwrap();

    assert_eq!(result.available_seats.len(), 5);
    for seat_number in [1, 3, 5, 7, 9] {
        assert!(
            result.available_seats.contains(&seat_number),
            "Seat {} should be available",
            seat_number
        );
    }
    for seat_number in [2, 4, 6, 8, 10] {
        assert!(
            !result.available_seats.contains(&seat_number),
            "Seat {} should not be available",
            seat_number
        );
    }
}

#[test]
fn is_seat_available_reports_every_seat_free() {
    let result = FlightService::new().is_seat_available(1, 1);
    assert_eq!(result, Ok(true));
}
