//! The inventory store: the single source of truth for flights, seats,
//! tickets and routes.
//!
//! Every mutation of a quota or a seat goes through one of the row-level
//! operations below. The two conditional updates, [`InventoryStore::try_claim_quota`]
//! and [`InventoryStore::try_claim_seat`], are the version-gated writes that
//! serialize concurrent allocators: an update succeeds only when the row
//! still carries the version the caller read, and every successful update
//! advances that version, so no two writers can both pass the same gate.

use vstd::prelude::*;

use crate::dates::Date;
use crate::models::{Flight, FlightRoute, Seat, SeatStatus, Ticket};

verus! {

/// The mathematical shadow of the store: plain sequences of rows.
#[verifier::ext_equal]
pub ghost struct StoreModel {
    pub flights: Seq<Flight>,
    pub seats: Seq<Seat>,
    pub tickets: Seq<Ticket>,
    pub routes: Seq<FlightRoute>,
    pub next_ticket_id: int,
}

/// The executable store. Fields are public so callers can stage data and
/// inspect outcomes; the operations demand and preserve [`StoreModel::wf`].
#[derive(Debug, Clone)]
pub struct InventoryStore {
    pub flights: Vec<Flight>,
    pub seats: Vec<Seat>,
    pub tickets: Vec<Ticket>,
    pub routes: Vec<FlightRoute>,
    pub next_ticket_id: i32,
}

impl View for InventoryStore {
    type V = StoreModel;

    open spec fn view(&self) -> StoreModel {
        StoreModel {
            flights: self.flights@,
            seats: self.seats@,
            tickets: self.tickets@,
            routes: self.routes@,
            next_ticket_id: self.next_ticket_id as int,
        }
    }
}

/// Whether flight row `f` is the dated flight `(number, date)`.
pub open spec fn flight_matches(f: Flight, number: i32, date: Date) -> bool {
    f.flight_number == number && f.flight_date == date
}

pub open spec fn has_flight(fs: Seq<Flight>, number: i32, date: Date) -> bool {
    exists|i: int| 0 <= i < fs.len() && flight_matches(fs[i], number, date)
}

/// The row index of the dated flight; meaningful only under [`has_flight`].
pub open spec fn flight_idx(fs: Seq<Flight>, number: i32, date: Date) -> int {
    choose|i: int| 0 <= i < fs.len() && flight_matches(fs[i], number, date)
}

pub open spec fn has_flight_id(fs: Seq<Flight>, id: i32) -> bool {
    exists|i: int| 0 <= i < fs.len() && fs[i].flight_id == id
}

pub open spec fn flight_id_idx(fs: Seq<Flight>, id: i32) -> int {
    choose|i: int| 0 <= i < fs.len() && fs[i].flight_id == id
}

/// Whether seat row `s` is seat `seat_number` of flight `flight_id`.
pub open spec fn seat_matches(s: Seat, flight_id: i32, seat_number: i32) -> bool {
    s.flight_id == flight_id && s.seat_number == seat_number
}

pub open spec fn has_seat(ss: Seq<Seat>, flight_id: i32, seat_number: i32) -> bool {
    exists|i: int| 0 <= i < ss.len() && seat_matches(ss[i], flight_id, seat_number)
}

pub open spec fn seat_idx(ss: Seq<Seat>, flight_id: i32, seat_number: i32) -> int {
    choose|i: int| 0 <= i < ss.len() && seat_matches(ss[i], flight_id, seat_number)
}

pub open spec fn has_ticket_id(ts: Seq<Ticket>, id: i32) -> bool {
    exists|i: int| 0 <= i < ts.len() && ts[i].id == id
}

pub open spec fn ticket_id_idx(ts: Seq<Ticket>, id: i32) -> int {
    choose|i: int| 0 <= i < ts.len() && ts[i].id == id
}

/// Whether `customer` already holds a ticket on flight row `flight_id`.
pub open spec fn has_customer_ticket(ts: Seq<Ticket>, customer: i32, flight_id: i32) -> bool {
    exists|i: int| 0 <= i < ts.len() && ts[i].customer_id == customer && ts[i].flight_id == flight_id
}

pub open spec fn customer_ticket_idx(ts: Seq<Ticket>, customer: i32, flight_id: i32) -> int {
    choose|i: int| 0 <= i < ts.len() && ts[i].customer_id == customer && ts[i].flight_id == flight_id
}

/// Whether `customer` already holds a ticket for the dated flight
/// `(number, date)`, the check that rejects rebooking.
pub open spec fn has_customer_ticket_nd(
    ts: Seq<Ticket>,
    customer: i32,
    number: i32,
    date: Date,
) -> bool {
    exists|i: int|
        0 <= i < ts.len() && ts[i].customer_id == customer && ts[i].flight_number == number
            && ts[i].flight_date == date
}

pub open spec fn has_route(rs: Seq<FlightRoute>, number: i32) -> bool {
    exists|i: int| 0 <= i < rs.len() && rs[i].flight_number == number
}

pub open spec fn route_idx(rs: Seq<FlightRoute>, number: i32) -> int {
    choose|i: int| 0 <= i < rs.len() && rs[i].flight_number == number
}

/// No two flight rows share an id, and no two share a (number, date) pair.
pub open spec fn flights_wf(fs: Seq<Flight>) -> bool {
    forall|i: int, j: int|
        #![trigger fs[i], fs[j]]
        0 <= i < j < fs.len() ==> fs[i].flight_id != fs[j].flight_id && !(fs[i].flight_number
            == fs[j].flight_number && fs[i].flight_date == fs[j].flight_date)
}

/// No two seat rows share a (flight, seat number) pair.
pub open spec fn seats_wf(ss: Seq<Seat>) -> bool {
    forall|i: int, j: int|
        #![trigger ss[i], ss[j]]
        0 <= i < j < ss.len() ==> !(ss[i].flight_id == ss[j].flight_id && ss[i].seat_number
            == ss[j].seat_number)
}

/// No two routes share a flight number.
pub open spec fn routes_wf(rs: Seq<FlightRoute>) -> bool {
    forall|i: int, j: int|
        #![trigger rs[i], rs[j]]
        0 <= i < j < rs.len() ==> rs[i].flight_number != rs[j].flight_number
}

/// The denormalized flight fields of a ticket agree with a real flight row.
pub open spec fn ticket_flight_ok(fs: Seq<Flight>, t: Ticket) -> bool {
    exists|k: int|
        0 <= k < fs.len() && fs[k].flight_id == t.flight_id && fs[k].flight_number
            == t.flight_number && fs[k].flight_date == t.flight_date
}

/// Ticket ids are unique, and a customer holds at most one ticket per
/// flight.
pub open spec fn tickets_unique(ts: Seq<Ticket>) -> bool {
    forall|i: int, j: int|
        #![trigger ts[i], ts[j]]
        0 <= i < j < ts.len() ==> ts[i].id != ts[j].id && !(ts[i].customer_id == ts[j].customer_id
            && ts[i].flight_id == ts[j].flight_id)
}

/// Ticket ids are unique and below the allocator's next id, a customer holds
/// at most one ticket per flight, and every ticket's denormalized flight
/// fields match an existing flight row.
pub open spec fn tickets_wf(m: StoreModel) -> bool {
    &&& tickets_unique(m.tickets)
    &&& forall|i: int| 0 <= i < m.tickets.len() ==> #[trigger] m.tickets[i].id < m.next_ticket_id
    &&& forall|i: int| 0 <= i < m.tickets.len() ==> ticket_flight_ok(m.flights, #[trigger] m.tickets[i])
}

/// At most one ticket references a given seat, and a referenced seat is
/// booked: the "no double seat" invariant.
pub open spec fn seat_refs_wf(m: StoreModel) -> bool {
    &&& forall|i: int, j: int|
        #![trigger m.tickets[i], m.tickets[j]]
        0 <= i < j < m.tickets.len() ==> !(m.tickets[i].seat_number is Some
            && m.tickets[j].seat_number is Some && m.tickets[i].flight_id == m.tickets[j].flight_id
            && m.tickets[i].seat_number == m.tickets[j].seat_number)
    &&& forall|i: int, k: int|
        #![trigger m.tickets[i], m.seats[k]]
        0 <= i < m.tickets.len() && 0 <= k < m.seats.len() && m.tickets[i].seat_number is Some
            && m.seats[k].flight_id == m.tickets[i].flight_id && m.seats[k].seat_number
            == m.tickets[i].seat_number->0 ==> m.seats[k].status is Booked
}

impl StoreModel {
    /// Well-formedness of the whole store.
    pub open spec fn wf(self) -> bool {
        &&& flights_wf(self.flights)
        &&& seats_wf(self.seats)
        &&& routes_wf(self.routes)
        &&& tickets_wf(self)
        &&& seat_refs_wf(self)
    }
}

/// Under uniqueness, any matching flight row index is the canonical one.
pub proof fn lemma_flight_idx_unique(fs: Seq<Flight>, number: i32, date: Date, i: int)
    requires
        flights_wf(fs),
        0 <= i < fs.len(),
        flight_matches(fs[i], number, date),
    ensures
        has_flight(fs, number, date),
        flight_idx(fs, number, date) == i,
{
    let j = flight_idx(fs, number, date);
    assert(0 <= j < fs.len() && flight_matches(fs[j], number, date));
}

pub proof fn lemma_flight_id_idx_unique(fs: Seq<Flight>, id: i32, i: int)
    requires
        flights_wf(fs),
        0 <= i < fs.len(),
        fs[i].flight_id == id,
    ensures
        has_flight_id(fs, id),
        flight_id_idx(fs, id) == i,
{
    let j = flight_id_idx(fs, id);
    assert(0 <= j < fs.len() && fs[j].flight_id == id);
}

pub proof fn lemma_seat_idx_unique(ss: Seq<Seat>, flight_id: i32, seat_number: i32, i: int)
    requires
        seats_wf(ss),
        0 <= i < ss.len(),
        seat_matches(ss[i], flight_id, seat_number),
    ensures
        has_seat(ss, flight_id, seat_number),
        seat_idx(ss, flight_id, seat_number) == i,
{
    let j = seat_idx(ss, flight_id, seat_number);
    assert(0 <= j < ss.len() && seat_matches(ss[j], flight_id, seat_number));
}

pub proof fn lemma_ticket_id_idx_unique(ts: Seq<Ticket>, id: i32, i: int)
    requires
        tickets_unique(ts),
        0 <= i < ts.len(),
        ts[i].id == id,
    ensures
        has_ticket_id(ts, id),
        ticket_id_idx(ts, id) == i,
{
    let j = ticket_id_idx(ts, id);
    assert(0 <= j < ts.len() && ts[j].id == id);
}

pub proof fn lemma_customer_ticket_idx_unique(ts: Seq<Ticket>, customer: i32, flight_id: i32, i: int)
    requires
        tickets_unique(ts),
        0 <= i < ts.len(),
        ts[i].customer_id == customer,
        ts[i].flight_id == flight_id,
    ensures
        has_customer_ticket(ts, customer, flight_id),
        customer_ticket_idx(ts, customer, flight_id) == i,
{
    let j = customer_ticket_idx(ts, customer, flight_id);
    assert(0 <= j < ts.len() && ts[j].customer_id == customer && ts[j].flight_id == flight_id);
}

pub proof fn lemma_route_idx_unique(rs: Seq<FlightRoute>, number: i32, i: int)
    requires
        routes_wf(rs),
        0 <= i < rs.len(),
        rs[i].flight_number == number,
    ensures
        has_route(rs, number),
        route_idx(rs, number) == i,
{
    let j = route_idx(rs, number);
    assert(0 <= j < rs.len() && rs[j].flight_number == number);
}

/// Whether the version-gated quota decrement would hit: some row carries
/// `flight_id`, still carries `expected_version`, and has quota left.
pub open spec fn can_claim_quota(fs: Seq<Flight>, flight_id: i32, expected_version: u64) -> bool {
    exists|i: int|
        0 <= i < fs.len() && fs[i].flight_id == flight_id && fs[i].version == expected_version
            && fs[i].available_tickets > 0
}

/// A flight row after one successful quota claim.
pub open spec fn claimed_flight(f: Flight) -> Flight {
    Flight {
        available_tickets: (f.available_tickets - 1) as u32,
        version: (f.version + 1) as u64,
        ..f
    }
}

/// The flight table after a successful claim on `flight_id`.
pub open spec fn claim_quota_spec(fs: Seq<Flight>, flight_id: i32) -> Seq<Flight> {
    fs.update(flight_id_idx(fs, flight_id), claimed_flight(fs[flight_id_idx(fs, flight_id)]))
}

/// A flight row after one quota release.
pub open spec fn released_flight(f: Flight) -> Flight {
    Flight {
        available_tickets: (f.available_tickets + 1) as u32,
        version: (f.version + 1) as u64,
        ..f
    }
}

/// The flight table after a release on `flight_id`.
pub open spec fn release_quota_spec(fs: Seq<Flight>, flight_id: i32) -> Seq<Flight> {
    fs.update(flight_id_idx(fs, flight_id), released_flight(fs[flight_id_idx(fs, flight_id)]))
}

/// The release increment must not overflow the row it would touch.
pub open spec fn release_fits(fs: Seq<Flight>, flight_id: i32) -> bool {
    has_flight_id(fs, flight_id) ==> {
        let f = fs[flight_id_idx(fs, flight_id)];
        f.available_tickets < u32::MAX && f.version < u64::MAX
    }
}

/// Whether the version-gated seat claim would hit: the seat row exists,
/// still carries `expected_version`, and is still available.
pub open spec fn can_claim_seat(
    ss: Seq<Seat>,
    flight_id: i32,
    seat_number: i32,
    expected_version: u64,
) -> bool {
    exists|i: int|
        0 <= i < ss.len() && seat_matches(ss[i], flight_id, seat_number) && ss[i].version
            == expected_version && ss[i].status is Available
}

/// The seat table after a successful claim of `(flight_id, seat_number)`.
pub open spec fn claim_seat_spec(ss: Seq<Seat>, flight_id: i32, seat_number: i32) -> Seq<Seat> {
    let k = seat_idx(ss, flight_id, seat_number);
    ss.update(k, Seat { status: SeatStatus::Booked, version: (ss[k].version + 1) as u64, ..ss[k] })
}

/// The seat table after `(flight_id, seat_number)` is reset to available.
pub open spec fn free_seat_spec(ss: Seq<Seat>, flight_id: i32, seat_number: i32) -> Seq<Seat> {
    let k = seat_idx(ss, flight_id, seat_number);
    ss.update(
        k,
        Seat { status: SeatStatus::Available, version: (ss[k].version + 1) as u64, ..ss[k] },
    )
}

/// The version bump of a free must not overflow the row it would touch.
pub open spec fn free_seat_fits(ss: Seq<Seat>, flight_id: i32, seat_number: i32) -> bool {
    has_seat(ss, flight_id, seat_number) ==> ss[seat_idx(ss, flight_id, seat_number)].version
        < u64::MAX
}

/// The ticket table after the seat field of `customer`'s ticket on
/// `flight_id` is set to `seat`.
pub open spec fn set_ticket_seat_spec(
    ts: Seq<Ticket>,
    customer: i32,
    flight_id: i32,
    seat: Option<i32>,
) -> Seq<Ticket> {
    let k = customer_ticket_idx(ts, customer, flight_id);
    ts.update(k, Ticket { seat_number: seat, ..ts[k] })
}

impl InventoryStore {
    /// An empty store.
    pub fn new() -> (r: InventoryStore)
        ensures
            r@.flights =~= Seq::<Flight>::empty(),
            r@.seats =~= Seq::<Seat>::empty(),
            r@.tickets =~= Seq::<Ticket>::empty(),
            r@.routes =~= Seq::<FlightRoute>::empty(),
            r@.next_ticket_id == 1,
            r@.wf(),
    {
        InventoryStore {
            flights: Vec::new(),
            seats: Vec::new(),
            tickets: Vec::new(),
            routes: Vec::new(),
            next_ticket_id: 1,
        }
    }

    /// Looks up the dated flight `(number, date)`.
    pub fn find_flight(&self, number: i32, date: Date) -> (r: Option<usize>)
        ensures
            match r {
                Some(i) => 0 <= i < self@.flights.len() && flight_matches(
                    self@.flights[i as int],
                    number,
                    date,
                ),
                None => !has_flight(self@.flights, number, date),
            },
    {
        let mut i: usize = 0;
        while i < self.flights.len()
            invariant
                i <= self@.flights.len(),
                forall|k: int|
                    0 <= k < i ==> !flight_matches(#[trigger] self@.flights[k], number, date),
            decreases self@.flights.len() - i,
        {
            let f = self.flights[i];
            if f.flight_number == number && f.flight_date == date {
                return Some(i);
            }
            i = i + 1;
        }
        None
    }

    /// Looks up a flight row by id.
    pub fn find_flight_by_id(&self, id: i32) -> (r: Option<usize>)
        ensures
            match r {
                Some(i) => 0 <= i < self@.flights.len() && self@.flights[i as int].flight_id == id,
                None => !has_flight_id(self@.flights, id),
            },
    {
        let mut i: usize = 0;
        while i < self.flights.len()
            invariant
                i <= self@.flights.len(),
                forall|k: int| 0 <= k < i ==> (#[trigger] self@.flights[k]).flight_id != id,
            decreases self@.flights.len() - i,
        {
            if self.flights[i].flight_id == id {
                return Some(i);
            }
            i = i + 1;
        }
        None
    }

    /// Looks up the seat row `(flight_id, seat_number)`.
    pub fn find_seat(&self, flight_id: i32, seat_number: i32) -> (r: Option<usize>)
        ensures
            match r {
                Some(i) => 0 <= i < self@.seats.len() && seat_matches(
                    self@.seats[i as int],
                    flight_id,
                    seat_number,
                ),
                None => !has_seat(self@.seats, flight_id, seat_number),
            },
    {
        let mut i: usize = 0;
        while i < self.seats.len()
            invariant
                i <= self@.seats.len(),
                forall|k: int|
                    0 <= k < i ==> !seat_matches(#[trigger] self@.seats[k], flight_id, seat_number),
            decreases self@.seats.len() - i,
        {
            let s = self.seats[i];
            if s.flight_id == flight_id && s.seat_number == seat_number {
                return Some(i);
            }
            i = i + 1;
        }
        None
    }

    /// Looks up a ticket row by ticket id.
    pub fn find_ticket(&self, ticket_id: i32) -> (r: Option<usize>)
        ensures
            match r {
                Some(i) => 0 <= i < self@.tickets.len() && self@.tickets[i as int].id == ticket_id,
                None => !has_ticket_id(self@.tickets, ticket_id),
            },
    {
        let mut i: usize = 0;
        while i < self.tickets.len()
            invariant
                i <= self@.tickets.len(),
                forall|k: int| 0 <= k < i ==> (#[trigger] self@.tickets[k]).id != ticket_id,
            decreases self@.tickets.len() - i,
        {
            if self.tickets[i].id == ticket_id {
                return Some(i);
            }
            i = i + 1;
        }
        None
    }

    /// Looks up the ticket `customer` holds on flight row `flight_id`.
    pub fn find_customer_ticket(&self, customer: i32, flight_id: i32) -> (r: Option<usize>)
        ensures
            match r {
                Some(i) => 0 <= i < self@.tickets.len() && self@.tickets[i as int].customer_id
                    == customer && self@.tickets[i as int].flight_id == flight_id,
                None => !has_customer_ticket(self@.tickets, customer, flight_id),
            },
    {
        let mut i: usize = 0;
        while i < self.tickets.len()
            invariant
                i <= self@.tickets.len(),
                forall|k: int|
                    0 <= k < i ==> !((#[trigger] self@.tickets[k]).customer_id == customer
                        && self@.tickets[k].flight_id == flight_id),
            decreases self@.tickets.len() - i,
        {
            let t = self.tickets[i];
            if t.customer_id == customer && t.flight_id == flight_id {
                return Some(i);
            }
            i = i + 1;
        }
        None
    }

    /// Looks up the ticket `customer` holds for the dated flight
    /// `(number, date)`.
    pub fn find_customer_ticket_nd(&self, customer: i32, number: i32, date: Date) -> (r: Option<
        usize,
    >)
        ensures
            match r {
                Some(i) => 0 <= i < self@.tickets.len() && self@.tickets[i as int].customer_id
                    == customer && self@.tickets[i as int].flight_number == number
                    && self@.tickets[i as int].flight_date == date,
                None => !has_customer_ticket_nd(self@.tickets, customer, number, date),
            },
    {
        let mut i: usize = 0;
        while i < self.tickets.len()
            invariant
                i <= self@.tickets.len(),
                forall|k: int|
                    0 <= k < i ==> !((#[trigger] self@.tickets[k]).customer_id == customer
                        && self@.tickets[k].flight_number == number && self@.tickets[k].flight_date
                        == date),
            decreases self@.tickets.len() - i,
        {
            let t = self.tickets[i];
            if t.customer_id == customer && t.flight_number == number && t.flight_date == date {
                return Some(i);
            }
            i = i + 1;
        }
        None
    }

    /// Looks up the route template of a flight number.
    pub fn find_route(&self, number: i32) -> (r: Option<usize>)
        ensures
            match r {
                Some(i) => 0 <= i < self@.routes.len() && self@.routes[i as int].flight_number
                    == number,
                None => !has_route(self@.routes, number),
            },
    {
        let mut i: usize = 0;
        while i < self.routes.len()
            invariant
                i <= self@.routes.len(),
                forall|k: int| 0 <= k < i ==> (#[trigger] self@.routes[k]).flight_number != number,
            decreases self@.routes.len() - i,
        {
            if self.routes[i].flight_number == number {
                return Some(i);
            }
            i = i + 1;
        }
        None
    }

    /// The version-gated quota decrement, the serialization point of ticket
    /// acquisition: `available_tickets -= 1, version += 1` on the row with
    /// `flight_id`, but only if the row still carries `expected_version`
    /// and has quota left. Returns whether a row was updated.
    pub fn try_claim_quota(&mut self, flight_id: i32, expected_version: u64) -> (r: bool)
        requires
            flights_wf(old(self)@.flights),
            expected_version < u64::MAX,
        ensures
            final(self)@.seats == old(self)@.seats,
            final(self)@.tickets == old(self)@.tickets,
            final(self)@.routes == old(self)@.routes,
            final(self)@.next_ticket_id == old(self)@.next_ticket_id,
            r == can_claim_quota(old(self)@.flights, flight_id, expected_version),
            r ==> final(self)@.flights =~= claim_quota_spec(old(self)@.flights, flight_id),
            !r ==> final(self)@.flights == old(self)@.flights,
            flights_wf(final(self)@.flights),
    {
        let found = self.find_flight_by_id(flight_id);
        match found {
            Some(i) => {
                let f = self.flights[i];
                if f.version == expected_version && f.available_tickets > 0 {
                    proof {
                        lemma_flight_id_idx_unique(self@.flights, flight_id, i as int);
                    }
                    self.flights[i] = Flight {
                        available_tickets: f.available_tickets - 1,
                        version: f.version + 1,
                        ..f
                    };
                    true
                } else {
                    proof {
                        lemma_flight_id_idx_unique(self@.flights, flight_id, i as int);
                    }
                    false
                }
            },
            None => false,
        }
    }

    /// The unconditional quota release: `available_tickets += 1,
    /// version += 1` on the row with `flight_id`, if it exists. A release
    /// only ever adds quota back, so it needs no version gate.
    pub fn release_quota(&mut self, flight_id: i32) -> (r: bool)
        requires
            flights_wf(old(self)@.flights),
            release_fits(old(self)@.flights, flight_id),
        ensures
            final(self)@.seats == old(self)@.seats,
            final(self)@.tickets == old(self)@.tickets,
            final(self)@.routes == old(self)@.routes,
            final(self)@.next_ticket_id == old(self)@.next_ticket_id,
            r == has_flight_id(old(self)@.flights, flight_id),
            r ==> final(self)@.flights =~= release_quota_spec(old(self)@.flights, flight_id),
            !r ==> final(self)@.flights == old(self)@.flights,
            flights_wf(final(self)@.flights),
    {
        let found = self.find_flight_by_id(flight_id);
        match found {
            Some(i) => {
                proof {
                    lemma_flight_id_idx_unique(self@.flights, flight_id, i as int);
                }
                let f = self.flights[i];
                self.flights[i] = Flight {
                    available_tickets: f.available_tickets + 1,
                    version: f.version + 1,
                    ..f
                };
                true
            },
            None => false,
        }
    }

    /// The version-gated seat claim, the serialization point of seat
    /// assignment: `status = Booked, version += 1` on the row
    /// `(flight_id, seat_number)`, but only if the row still carries
    /// `expected_version` and is still available.
    pub fn try_claim_seat(&mut self, flight_id: i32, seat_number: i32, expected_version: u64) -> (r:
        bool)
        requires
            seats_wf(old(self)@.seats),
            expected_version < u64::MAX,
        ensures
            final(self)@.flights == old(self)@.flights,
            final(self)@.tickets == old(self)@.tickets,
            final(self)@.routes == old(self)@.routes,
            final(self)@.next_ticket_id == old(self)@.next_ticket_id,
            r == can_claim_seat(old(self)@.seats, flight_id, seat_number, expected_version),
            r ==> final(self)@.seats =~= claim_seat_spec(
                old(self)@.seats,
                flight_id,
                seat_number,
            ),
            !r ==> final(self)@.seats == old(self)@.seats,
            seats_wf(final(self)@.seats),
    {
        let found = self.find_seat(flight_id, seat_number);
        match found {
            Some(i) => {
                proof {
                    lemma_seat_idx_unique(self@.seats, flight_id, seat_number, i as int);
                }
                let s = self.seats[i];
                if s.version == expected_version && matches!(s.status, SeatStatus::Available) {
                    self.seats[i] = Seat {
                        status: SeatStatus::Booked,
                        version: s.version + 1,
                        ..s
                    };
                    true
                } else {
                    false
                }
            },
            None => false,
        }
    }

    /// Resets a seat to available unconditionally, bumping its version:
    /// the path that frees an old seat after a move, and the compensation
    /// path that undoes a claimed seat.
    pub fn free_seat(&mut self, flight_id: i32, seat_number: i32) -> (r: bool)
        requires
            seats_wf(old(self)@.seats),
            free_seat_fits(old(self)@.seats, flight_id, seat_number),
        ensures
            final(self)@.flights == old(self)@.flights,
            final(self)@.tickets == old(self)@.tickets,
            final(self)@.routes == old(self)@.routes,
            final(self)@.next_ticket_id == old(self)@.next_ticket_id,
            r == has_seat(old(self)@.seats, flight_id, seat_number),
            r ==> final(self)@.seats =~= free_seat_spec(old(self)@.seats, flight_id, seat_number),
            !r ==> final(self)@.seats == old(self)@.seats,
            seats_wf(final(self)@.seats),
    {
        let found = self.find_seat(flight_id, seat_number);
        match found {
            Some(i) => {
                proof {
                    lemma_seat_idx_unique(self@.seats, flight_id, seat_number, i as int);
                }
                let s = self.seats[i];
                self.seats[i] = Seat { status: SeatStatus::Available, version: s.version + 1, ..s };
                true
            },
            None => false,
        }
    }

    /// Points the seat field of `customer`'s ticket on `flight_id` at
    /// `seat`. Updates nothing when the customer holds no such ticket.
    pub fn set_ticket_seat(&mut self, customer: i32, flight_id: i32, seat: Option<i32>) -> (r: bool)
        requires
            tickets_unique(old(self)@.tickets),
        ensures
            final(self)@.flights == old(self)@.flights,
            final(self)@.seats == old(self)@.seats,
            final(self)@.routes == old(self)@.routes,
            final(self)@.next_ticket_id == old(self)@.next_ticket_id,
            r == has_customer_ticket(old(self)@.tickets, customer, flight_id),
            r ==> final(self)@.tickets =~= set_ticket_seat_spec(
                old(self)@.tickets,
                customer,
                flight_id,
                seat,
            ),
            !r ==> final(self)@.tickets == old(self)@.tickets,
            tickets_unique(final(self)@.tickets),
    {
        let found = self.find_customer_ticket(customer, flight_id);
        match found {
            Some(i) => {
                proof {
                    lemma_customer_ticket_idx_unique(self@.tickets, customer, flight_id, i as int);
                }
                let t = self.tickets[i];
                self.tickets[i] = Ticket { seat_number: seat, ..t };
                true
            },
            None => false,
        }
    }

    /// Inserts a fresh ticket row, without a seat, and returns its id.
    pub fn insert_ticket(&mut self, customer: i32, flight_id: i32, flight_date: Date, flight_number: i32) -> (id: i32)
        requires
            old(self)@.next_ticket_id < i32::MAX,
        ensures
            final(self)@.flights == old(self)@.flights,
            final(self)@.seats == old(self)@.seats,
            final(self)@.routes == old(self)@.routes,
            id == old(self)@.next_ticket_id,
            final(self)@.next_ticket_id == old(self)@.next_ticket_id + 1,
            final(self)@.tickets =~= old(self)@.tickets.push(
                Ticket {
                    id,
                    customer_id: customer,
                    flight_id,
                    seat_number: None,
                    flight_date,
                    flight_number,
                },
            ),
    {
        let id = self.next_ticket_id;
        self.tickets.push(
            Ticket {
                id,
                customer_id: customer,
                flight_id,
                seat_number: None,
                flight_date,
                flight_number,
            },
        );
        self.next_ticket_id = self.next_ticket_id + 1;
        id
    }

    /// Deletes the ticket row with `ticket_id`, if it exists.
    pub fn delete_ticket(&mut self, ticket_id: i32) -> (r: bool)
        requires
            tickets_unique(old(self)@.tickets),
        ensures
            final(self)@.flights == old(self)@.flights,
            final(self)@.seats == old(self)@.seats,
            final(self)@.routes == old(self)@.routes,
            final(self)@.next_ticket_id == old(self)@.next_ticket_id,
            r == has_ticket_id(old(self)@.tickets, ticket_id),
            r ==> final(self)@.tickets =~= old(self)@.tickets.remove(
                ticket_id_idx(old(self)@.tickets, ticket_id),
            ),
            !r ==> final(self)@.tickets == old(self)@.tickets,
            tickets_unique(final(self)@.tickets),
    {
        let found = self.find_ticket(ticket_id);
        match found {
            Some(i) => {
                proof {
                    lemma_ticket_id_idx_unique(self@.tickets, ticket_id, i as int);
                }
                self.tickets.remove(i);
                true
            },
            None => false,
        }
    }
}

} // verus!
