//! The seat allocator: moving a customer's seat assignment through the
//! version-gated seat update.

use vstd::prelude::*;

use crate::error::AppError;
use crate::models::{SeatBookingRequest, SeatStatus};
use crate::retry::{backoff_millis, MAX_ATTEMPTS};
use crate::store::{
    claim_seat_spec, customer_ticket_idx, flight_idx, free_seat_spec, has_customer_ticket,
    has_flight, has_seat, lemma_customer_ticket_idx_unique, lemma_flight_idx_unique,
    lemma_seat_idx_unique, seat_idx, seat_refs_wf, seats_wf, set_ticket_seat_spec,
    ticket_flight_ok, tickets_unique, tickets_wf, InventoryStore, StoreModel,
};
use crate::ticket_service::{no_flight_msg, spec_no_flight_msg, TicketService};

verus! {

/// What one seat assignment does, before errors are rendered.
pub ghost enum AssignOutcome {
    /// The new seat was claimed, the old one freed, and the ticket updated.
    Assigned,
    /// No seat row matches (flight, seat number); nothing was mutated.
    SeatMissing,
    /// The seat is booked or unavailable, a terminal business rejection;
    /// nothing was mutated.
    SeatUnavailable,
}

/// The seat allocator's transition: what `book_seat` does to the store.
///
/// On success the new seat is booked with its version advanced, the old
/// seat (the customer's previous assignment, if any) is freed, and the
/// customer's ticket on the flight points at the new seat.
pub open spec fn spec_assign(
    m: StoreModel,
    customer: i32,
    flight_id: i32,
    new_seat: i32,
    old_seat: Option<i32>,
) -> (StoreModel, AssignOutcome) {
    if !has_seat(m.seats, flight_id, new_seat) {
        (m, AssignOutcome::SeatMissing)
    } else if !(m.seats[seat_idx(m.seats, flight_id, new_seat)].status is Available) {
        (m, AssignOutcome::SeatUnavailable)
    } else {
        let seats1 = claim_seat_spec(m.seats, flight_id, new_seat);
        let seats2 = match old_seat {
            Some(s) => if has_seat(seats1, flight_id, s) {
                free_seat_spec(seats1, flight_id, s)
            } else {
                seats1
            },
            None => seats1,
        };
        let tickets = if has_customer_ticket(m.tickets, customer, flight_id) {
            set_ticket_seat_spec(m.tickets, customer, flight_id, Some(new_seat))
        } else {
            m.tickets
        };
        (StoreModel { seats: seats2, tickets, ..m }, AssignOutcome::Assigned)
    }
}

/// Headroom the machine needs on seat rows: no version counter saturated.
pub open spec fn seat_versions_fit(m: StoreModel) -> bool {
    forall|i: int| 0 <= i < m.seats.len() ==> (#[trigger] m.seats[i]).version < u64::MAX
}

/// `old_seat` really is the customer's current assignment on the flight:
/// the frame under which freeing it is sound.
pub open spec fn old_seat_consistent(
    m: StoreModel,
    customer: i32,
    flight_id: i32,
    old_seat: Option<i32>,
) -> bool {
    old_seat matches Some(s) ==> has_customer_ticket(m.tickets, customer, flight_id)
        && m.tickets[customer_ticket_idx(m.tickets, customer, flight_id)].seat_number == Some(s)
}

impl TicketService {
    /// Moves `customer`'s seat assignment on flight `flight_id` to
    /// `new_seat`, freeing `old_seat` if one is given.
    ///
    /// The new seat must exist and be available; a booked or unavailable
    /// seat is a terminal `Conflict`, not a transient race. The claim goes
    /// through the version-gated update; a version conflict would be
    /// retried with jittered backoff up to the retry budget, and against
    /// this sequential store the first gated attempt always lands.
    pub fn book_seat(
        &self,
        store: &mut InventoryStore,
        customer_id: i32,
        flight_id: i32,
        new_seat_number: i32,
        old_seat_number: Option<i32>,
    ) -> (r: Result<bool, AppError>)
        requires
            old(store)@.wf(),
            seat_versions_fit(old(store)@),
            old_seat_consistent(old(store)@, customer_id, flight_id, old_seat_number),
            old_seat_number != Some(new_seat_number),
        ensures
            final(store)@.wf(),
            ({
                let (m2, o) = spec_assign(
                    old(store)@,
                    customer_id,
                    flight_id,
                    new_seat_number,
                    old_seat_number,
                );
                &&& final(store)@ =~= m2
                &&& match o {
                    AssignOutcome::Assigned => r matches Ok(b) && b,
                    AssignOutcome::SeatMissing => r matches Err(e) && e matches
                        AppError::ValidationError(msg) && msg@ == "The new seat is not found"@,
                    AssignOutcome::SeatUnavailable => r matches Err(e) && e matches
                        AppError::Conflict(msg) && msg@
                        == "The new seat is already booked or unavailable"@,
                }
            }),
    {
        let mut attempts: u32 = 0;
        loop
            invariant
                store@ == old(store)@,
                attempts < MAX_ATTEMPTS,
            decreases MAX_ATTEMPTS - attempts,
        {
            // read the target seat's status and version
            let si = match store.find_seat(flight_id, new_seat_number) {
                Some(i) => i,
                None => {
                    return Err(AppError::ValidationError("The new seat is not found".to_owned()));
                },
            };
            let s = store.seats[si];
            proof {
                lemma_seat_idx_unique(store@.seats, flight_id, new_seat_number, si as int);
            }
            if !matches!(s.status, SeatStatus::Available) {
                return Err(AppError::Conflict(
                    "The new seat is already booked or unavailable".to_owned(),
                ));
            }
            // the version-gated claim; it fails only if another writer
            // advanced the row since the read above
            if store.try_claim_seat(flight_id, new_seat_number, s.version) {
                if let Some(old_seat) = old_seat_number {
                    store.free_seat(flight_id, old_seat);
                }
                store.set_ticket_seat(customer_id, flight_id, Some(new_seat_number));
                proof {
                    lemma_assign_wf(
                        old(store)@,
                        customer_id,
                        flight_id,
                        new_seat_number,
                        old_seat_number,
                    );
                }
                return Ok(true);
            }
            // transient conflict: back off with jitter, then re-read
            attempts = attempts + 1;
            if attempts >= MAX_ATTEMPTS {
                return Err(AppError::Conflict(
                    "Failed to book the seat after maximum retries".to_owned(),
                ));
            }
            let _delay = backoff_millis();
        }
    }

    /// Books seat `request.seat_number` for the ticket `customer_id`
    /// already holds on the dated flight in `request`, freeing the seat
    /// the ticket held before.
    ///
    /// Rejected when the flight does not exist, when the customer holds no
    /// ticket on it, or when the requested seat is the one already held.
    pub fn book_seat_for_ticket(
        &self,
        store: &mut InventoryStore,
        customer_id: i32,
        request: SeatBookingRequest,
    ) -> (r: Result<bool, AppError>)
        requires
            old(store)@.wf(),
            seat_versions_fit(old(store)@),
        ensures
            final(store)@.wf(),
            !has_flight(old(store)@.flights, request.flight_number, request.flight_date) ==> (r
                matches Err(e) && e matches AppError::NotFound(msg) && msg@
                == spec_no_flight_msg(request.flight_number, request.flight_date) && final(store)@
                =~= old(store)@),
            ({
                let fs = old(store)@.flights;
                let k = flight_idx(fs, request.flight_number, request.flight_date);
                has_flight(fs, request.flight_number, request.flight_date) ==> {
                    let fid = fs[k].flight_id;
                    if !has_customer_ticket(old(store)@.tickets, customer_id, fid) {
                        r matches Err(e) && e matches AppError::BadRequest(msg) && msg@
                            == "Customer does not have a ticket for this flight"@ && final(store)@
                            =~= old(store)@
                    } else {
                        let t = old(store)@.tickets[customer_ticket_idx(
                            old(store)@.tickets,
                            customer_id,
                            fid,
                        )];
                        if t.seat_number == Some(request.seat_number) {
                            r matches Err(e) && e matches AppError::BadRequest(msg) && msg@
                                == "Cannot book the same seat you already have"@ && final(store)@
                                =~= old(store)@
                        } else {
                            let (m2, o) = spec_assign(
                                old(store)@,
                                customer_id,
                                fid,
                                request.seat_number,
                                t.seat_number,
                            );
                            &&& final(store)@ =~= m2
                            &&& match o {
                                AssignOutcome::Assigned => r matches Ok(b) && b,
                                AssignOutcome::SeatMissing => r matches Err(e) && e matches
                                    AppError::ValidationError(msg) && msg@
                                    == "The new seat is not found"@,
                                AssignOutcome::SeatUnavailable => r matches Err(e) && e matches
                                    AppError::Conflict(msg) && msg@
                                    == "The new seat is already booked or unavailable"@,
                            }
                        }
                    }
                }
            }),
    {
        // the flight must exist
        let fi = match store.find_flight(request.flight_number, request.flight_date) {
            Some(i) => i,
            None => {
                return Err(AppError::NotFound(no_flight_msg(
                    request.flight_number,
                    request.flight_date,
                )));
            },
        };
        let flight = store.flights[fi];
        proof {
            lemma_flight_idx_unique(
                store@.flights,
                request.flight_number,
                request.flight_date,
                fi as int,
            );
        }
        // the customer must already hold a ticket on the flight
        let ti = match store.find_customer_ticket(customer_id, flight.flight_id) {
            Some(i) => i,
            None => {
                return Err(AppError::BadRequest(
                    "Customer does not have a ticket for this flight".to_owned(),
                ));
            },
        };
        let ticket = store.tickets[ti];
        proof {
            lemma_customer_ticket_idx_unique(
                store@.tickets,
                customer_id,
                flight.flight_id,
                ti as int,
            );
        }
        // rebooking the seat already held is rejected
        if let Some(current_seat) = ticket.seat_number {
            if current_seat == request.seat_number {
                return Err(AppError::BadRequest(
                    "Cannot book the same seat you already have".to_owned(),
                ));
            }
        }
        self.book_seat(
            store,
            customer_id,
            flight.flight_id,
            request.seat_number,
            ticket.seat_number,
        )
    }
}

/// Assignment preserves the store invariant.
pub proof fn lemma_assign_wf(
    m: StoreModel,
    customer: i32,
    flight_id: i32,
    new_seat: i32,
    old_seat: Option<i32>,
)
    requires
        m.wf(),
        old_seat_consistent(m, customer, flight_id, old_seat),
        old_seat != Some(new_seat),
    ensures
        spec_assign(m, customer, flight_id, new_seat, old_seat).0.wf(),
{
    if has_seat(m.seats, flight_id, new_seat) && m.seats[seat_idx(
        m.seats,
        flight_id,
        new_seat,
    )].status is Available {
        let m2 = spec_assign(m, customer, flight_id, new_seat, old_seat).0;
        let k = seat_idx(m.seats, flight_id, new_seat);
        assert(0 <= k < m.seats.len() && m.seats[k].flight_id == flight_id
            && m.seats[k].seat_number == new_seat);
        let seats1 = claim_seat_spec(m.seats, flight_id, new_seat);
        assert(seats_wf(seats1));
        if old_seat is Some && has_seat(seats1, flight_id, old_seat->0) {
            let j = seat_idx(seats1, flight_id, old_seat->0);
            assert(0 <= j < seats1.len() && seats1[j].flight_id == flight_id
                && seats1[j].seat_number == old_seat->0);
            assert(seats_wf(m2.seats));
        }
        assert(seats_wf(m2.seats));
        // ticket rows keep their identity, so uniqueness and flight
        // consistency carry over
        assert(tickets_unique(m2.tickets));
        assert forall|i: int| 0 <= i < m2.tickets.len() implies ticket_flight_ok(
            m2.flights,
            #[trigger] m2.tickets[i],
        ) by {
            assert(ticket_flight_ok(m.flights, m.tickets[i]));
            if has_customer_ticket(m.tickets, customer, flight_id) && i == customer_ticket_idx(
                m.tickets,
                customer,
                flight_id,
            ) {
                assert(m2.tickets[i].flight_id == m.tickets[i].flight_id
                    && m2.tickets[i].flight_number == m.tickets[i].flight_number
                    && m2.tickets[i].flight_date == m.tickets[i].flight_date);
            } else {
                assert(m2.tickets[i] == m.tickets[i]);
            }
        }
        assert(tickets_wf(m2));
        // the new seat was available, so no ticket referenced it before
        assert forall|i: int|
            0 <= i < m.tickets.len() && (#[trigger] m.tickets[i]).seat_number is Some
                && m.tickets[i].flight_id == flight_id implies m.tickets[i].seat_number->0
            != new_seat by {
            if m.tickets[i].seat_number->0 == new_seat {
                assert(m.seats[k].status is Booked);
            }
        }
        assert(seat_refs_wf(m2));
    }
}

} // verus!
