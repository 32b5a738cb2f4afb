//! The rows and request/response shapes of the booking engine.
//!
//! `FlightRoute`, `Flight`, `Seat`, `Ticket`, `User` and `CustomerInfo` are
//! the persisted rows; the remaining types are what the request layer hands
//! the engine and what the engine hands back.

use vstd::prelude::*;

use crate::dates::{Date, Time};

verus! {

/// A static route template: identity and schedule of a flight number.
/// Immutable while the booking engine runs.
#[derive(Debug, Clone)]
pub struct FlightRoute {
    pub flight_number: i32,
    pub departure_city: String,
    pub destination_city: String,
    pub departure_time: Time,
    pub arrival_time: Time,
    pub aircraft_id: i32,
    /// Overbooking factor in hundredths, so `105` is an allowance of 5%.
    pub overbooking_hundredths: u32,
    pub start_date: Date,
    pub end_date: Option<Date>,
}

/// A dated instantiation of a route: the row whose `available_tickets`
/// quota the ticket allocator decrements, guarded by `version`.
#[derive(Debug, Clone, Copy, PartialEq, Eq, Structural)]
pub struct Flight {
    pub flight_id: i32,
    pub flight_number: i32,
    pub flight_date: Date,
    pub available_tickets: u32,
    pub version: u64,
}

/// The state of one seat row.
#[derive(Debug, Clone, Copy, PartialEq, Eq, Structural)]
pub enum SeatStatus {
    Available,
    Booked,
    Unavailable,
}

/// One row per (flight, seat number), mutated only by the seat allocator
/// through its version-gated update.
#[derive(Debug, Clone, Copy, PartialEq, Eq, Structural)]
pub struct Seat {
    pub flight_id: i32,
    pub seat_number: i32,
    pub status: SeatStatus,
    pub version: u64,
}

/// A booking record. Flight date and number are denormalized for queries.
#[derive(Debug, Clone, Copy, PartialEq)]
pub struct Ticket {
    pub id: i32,
    pub customer_id: i32,
    pub flight_id: i32,
    pub seat_number: Option<i32>,
    pub flight_date: Date,
    pub flight_number: i32,
}

/// A registered user row.
#[derive(Debug, Clone, PartialEq)]
pub struct User {
    pub id: i32,
    pub username: String,
    pub password: String,
    pub role: String,
}

/// Profile data stored beside the user row at registration.
#[derive(Debug, Clone)]
pub struct CustomerInfo {
    pub id: i32,
    pub name: String,
    pub birth_date: Date,
    pub gender: String,
}

/// The role a registration asks for.
#[derive(Debug, Clone, Copy, PartialEq, Eq, Structural)]
pub enum Role {
    User,
    Admin,
}

impl Default for Role {
    /// Registrations that name no role get the unprivileged one.
    fn default() -> (r: Role)
        ensures
            r == Role::User,
    {
        Role::User
    }
}

/// An ASCII byte with any upper-case letter folded to lower case.
pub open spec fn ascii_lower(b: u8) -> u8 {
    if 65 <= b <= 90 {
        (b + 32) as u8
    } else {
        b
    }
}

/// A byte string folded to lower case, ASCII letters only.
pub open spec fn ascii_lower_bytes(s: Seq<u8>) -> Seq<u8> {
    Seq::new(s.len(), |i: int| ascii_lower(s[i]))
}

/// The bytes of `user`.
pub open spec fn user_name_bytes() -> Seq<u8> {
    seq![117u8, 115u8, 101u8, 114u8]
}

/// The bytes of `admin`.
pub open spec fn admin_name_bytes() -> Seq<u8> {
    seq![97u8, 100u8, 109u8, 105u8, 110u8]
}

/// Folds one byte to lower case.
fn ascii_lower_byte(b: u8) -> (r: u8)
    ensures
        r == ascii_lower(b),
{
    if 65 <= b && b <= 90 {
        b + 32
    } else {
        b
    }
}

impl Role {
    /// Reads a role from its name, case-insensitively: `user` or `admin`,
    /// anything else is rejected. This is the rule the request layer's
    /// deserializer applies.
    pub fn from_name(name: &[u8]) -> (r: Option<Role>)
        ensures
            (r == Some(Role::User) <==> ascii_lower_bytes(name@) == user_name_bytes()),
            (r == Some(Role::Admin) <==> ascii_lower_bytes(name@) == admin_name_bytes()),
            r is None <==> ascii_lower_bytes(name@) != user_name_bytes() && ascii_lower_bytes(
                name@,
            ) != admin_name_bytes(),
    {
        if name.len() == 4 {
            if ascii_lower_byte(name[0]) == 117 && ascii_lower_byte(name[1]) == 115
                && ascii_lower_byte(name[2]) == 101 && ascii_lower_byte(name[3]) == 114 {
                proof {
                    assert(ascii_lower_bytes(name@) =~= user_name_bytes());
                }
                return Some(Role::User);
            }
        }
        if name.len() == 5 {
            if ascii_lower_byte(name[0]) == 97 && ascii_lower_byte(name[1]) == 100
                && ascii_lower_byte(name[2]) == 109 && ascii_lower_byte(name[3]) == 105
                && ascii_lower_byte(name[4]) == 110 {
                proof {
                    assert(ascii_lower_bytes(name@) =~= admin_name_bytes());
                }
                return Some(Role::Admin);
            }
        }
        proof {
            if ascii_lower_bytes(name@) == user_name_bytes() {
                assert(ascii_lower_bytes(name@)[0] == 117);
            }
            if ascii_lower_bytes(name@) == admin_name_bytes() {
                assert(ascii_lower_bytes(name@)[0] == 97);
            }
        }
        None
    }
}

/// A flight search: by exact date, or by date range when `end_date` is set.
#[derive(Debug, Clone)]
pub struct FlightSearchQuery {
    pub departure_city: String,
    pub destination_city: String,
    pub departure_date: Date,
    pub end_date: Option<Date>,
}

/// One matching flight in a search response.
#[derive(Debug, Clone)]
pub struct FlightDetail {
    pub flight_id: i32,
    pub flight_number: i32,
    pub departure_city: String,
    pub destination_city: String,
    pub departure_time: Time,
    pub arrival_time: Time,
    pub available_tickets: u32,
    pub flight_date: Date,
}

#[derive(Debug, Clone)]
pub struct FlightSearchResponse {
    pub flights: Vec<FlightDetail>,
}

#[derive(Debug, Clone)]
pub struct AvailableSeatsResponse {
    pub available_seats: Vec<i32>,
}

/// A multi-leg booking request: one entry per flight, in booking order.
#[derive(Debug, Clone)]
pub struct TicketBookingRequest {
    pub flights: Vec<FlightBookingRequest>,
}

/// One leg of a booking: the dated flight, and optionally a preferred seat.
#[derive(Debug, Clone, Copy, PartialEq)]
pub struct FlightBookingRequest {
    pub flight_number: i32,
    pub flight_date: Date,
    pub preferred_seat: Option<i32>,
}

#[derive(Debug, Clone)]
pub struct TicketBookingResponse {
    pub flight_bookings: Vec<FlightBookingResponse>,
    pub booking_status: String,
}

/// The outcome of one successfully ticketed leg.
#[derive(Debug, Clone)]
pub struct FlightBookingResponse {
    pub ticket_id: i32,
    pub flight_details: String,
    pub seat_number: Option<i32>,
}

/// A request to move a customer's seat on a dated flight.
#[derive(Debug, Clone, Copy, PartialEq)]
pub struct SeatBookingRequest {
    pub flight_number: i32,
    pub flight_date: Date,
    pub seat_number: i32,
}

/// One row of a customer's booking history.
#[derive(Debug, Clone)]
pub struct BookingHistoryDetail {
    pub flight_number: i32,
    pub seat_number: String,
    pub departure_city: String,
    pub destination_city: String,
    pub flight_date: Date,
    pub departure_time: Time,
    pub arrival_time: Time,
}

#[derive(Debug, Clone)]
pub struct BookingHistoryResponse {
    pub flights: Vec<BookingHistoryDetail>,
}

/// A registration request; `gender` must be `male` or `female` and the
/// username must not be taken yet.
#[derive(Debug, Clone)]
pub struct UserRegistrationRequest {
    pub username: String,
    pub password: String,
    pub name: String,
    pub birth_date: Date,
    pub gender: String,
    pub role: Role,
}

#[derive(Debug, Clone)]
pub struct UserLoginRequest {
    pub username: String,
    pub password: String,
}

#[derive(Debug, Clone)]
pub struct UserLoginResponse {
    pub token: String,
    pub user_id: i32,
}

#[derive(Debug, Clone)]
pub struct RegisterResponse {
    pub user_id: i32,
    pub status: String,
}

impl RegisterResponse {
    /// The sample shown in the API documentation.
    pub fn example() -> (r: Self)
        ensures
            r.user_id == 123,
            r.status@ == "success"@,
    {
        Self { user_id: 123, status: "success".to_owned() }
    }
}

/// The token claims the request layer issues at login: the subject user id
/// and the expiry as seconds since the epoch.
#[derive(Debug, Clone, Copy, PartialEq, Eq, Structural)]
pub struct Claims {
    pub sub: i32,
    pub exp: u64,
}

/// The identity the request layer derives from a valid token.
#[derive(Debug, Clone, Copy, PartialEq, Eq, Structural)]
pub struct AuthenticatedUser {
    pub user_id: i32,
}

} // verus!
