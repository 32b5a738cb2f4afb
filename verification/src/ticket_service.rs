//! The ticket allocator: claiming and releasing units of a dated
//! flight's quota.
//!
//! [`TicketService::acquire`] claims one unit through the version-gated
//! update and records the ticket; [`TicketService::release_ticket`] gives a
//! unit back, deletes the ticket, and frees any attached seat. The seat
//! allocator and the multi-leg booking orchestrator extend
//! [`TicketService`] in [`crate::seat_allocation`] and [`crate::booking`].

use vstd::prelude::*;

use crate::dates::Date;
use crate::error::AppError;
use crate::models::Ticket;
use crate::retry::{backoff_millis, MAX_ATTEMPTS};
use crate::store::{
    claimed_flight, flight_idx, flight_matches, flights_wf, free_seat_fits, free_seat_spec,
    has_customer_ticket_nd, has_flight, has_flight_id, has_seat, has_ticket_id,
    lemma_flight_id_idx_unique, lemma_flight_idx_unique, lemma_ticket_id_idx_unique, release_fits,
    release_quota_spec, seat_refs_wf, ticket_flight_ok, ticket_id_idx, tickets_unique, tickets_wf,
    InventoryStore, StoreModel,
};
use crate::text::{date_string, i32_string, spec_date_str, spec_idec};

verus! {

/// What one quota acquisition does, before errors are rendered.
pub ghost enum AcquireOutcome {
    /// A ticket with this id was created and the quota decremented.
    Booked(i32),
    /// No flight row matches the requested (number, date).
    NoSuchFlight,
    /// The customer already holds a ticket for this dated flight; nothing
    /// was mutated.
    AlreadyBooked,
    /// The quota was zero; nothing was mutated.
    SoldOut,
}

/// The ticket allocator's transition: what `acquire` does to the store.
///
/// The duplicate-booking check comes before any quota mutation, so a
/// rejected rebooking leaves the store untouched.
pub open spec fn spec_acquire(m: StoreModel, customer: i32, number: i32, date: Date) -> (
    StoreModel,
    AcquireOutcome,
) {
    if !has_flight(m.flights, number, date) {
        (m, AcquireOutcome::NoSuchFlight)
    } else if has_customer_ticket_nd(m.tickets, customer, number, date) {
        (m, AcquireOutcome::AlreadyBooked)
    } else {
        let k = flight_idx(m.flights, number, date);
        let f = m.flights[k];
        if f.available_tickets == 0 {
            (m, AcquireOutcome::SoldOut)
        } else {
            let t = Ticket {
                id: m.next_ticket_id as i32,
                customer_id: customer,
                flight_id: f.flight_id,
                seat_number: None,
                flight_date: date,
                flight_number: number,
            };
            (
                StoreModel {
                    flights: m.flights.update(k, claimed_flight(f)),
                    tickets: m.tickets.push(t),
                    next_ticket_id: m.next_ticket_id + 1,
                    ..m
                },
                AcquireOutcome::Booked(m.next_ticket_id as i32),
            )
        }
    }
}

/// What one release does, before errors are rendered.
pub ghost enum ReleaseOutcome {
    /// The ticket existed: quota returned, ticket deleted, seat freed.
    Released,
    /// No such ticket; nothing was mutated.
    NoTicket,
}

/// The ticket allocator's reverse transition: what releasing a ticket does
/// to the store. The quota goes back, the ticket row disappears, and an
/// attached seat becomes available again.
pub open spec fn spec_release(m: StoreModel, ticket_id: i32) -> (StoreModel, ReleaseOutcome) {
    if !has_ticket_id(m.tickets, ticket_id) {
        (m, ReleaseOutcome::NoTicket)
    } else {
        let k = ticket_id_idx(m.tickets, ticket_id);
        let t = m.tickets[k];
        let flights = if has_flight_id(m.flights, t.flight_id) {
            release_quota_spec(m.flights, t.flight_id)
        } else {
            m.flights
        };
        let seats = match t.seat_number {
            Some(s) => if has_seat(m.seats, t.flight_id, s) {
                free_seat_spec(m.seats, t.flight_id, s)
            } else {
                m.seats
            },
            None => m.seats,
        };
        (
            StoreModel { flights, seats, tickets: m.tickets.remove(k), ..m },
            ReleaseOutcome::Released,
        )
    }
}

/// Headroom the machine needs for one acquisition: the claimed row's
/// version counter and the ticket-id counter must not be saturated.
pub open spec fn acquire_fits(m: StoreModel) -> bool {
    &&& m.next_ticket_id < i32::MAX
    &&& forall|i: int| 0 <= i < m.flights.len() ==> (#[trigger] m.flights[i]).version < u64::MAX
}

/// Headroom the machine needs for one release: the returned quota and the
/// touched version counters must not be saturated.
pub open spec fn release_ticket_fits(m: StoreModel, ticket_id: i32) -> bool {
    has_ticket_id(m.tickets, ticket_id) ==> {
        let t = m.tickets[ticket_id_idx(m.tickets, ticket_id)];
        &&& release_fits(m.flights, t.flight_id)
        &&& (t.seat_number matches Some(s) ==> free_seat_fits(m.seats, t.flight_id, s))
    }
}

/// The message used when a requested flight does not exist.
pub open spec fn spec_no_flight_msg(number: i32, date: Date) -> Seq<char> {
    "Flight "@ + spec_idec(number as int) + " does not exist on "@ + spec_date_str(date) + "\n"@
}

/// Renders [`spec_no_flight_msg`].
pub fn no_flight_msg(number: i32, date: Date) -> (r: String)
    ensures
        r@ == spec_no_flight_msg(number, date),
{
    let mut out: String = "Flight ".to_owned();
    let num = i32_string(number);
    out.append(num.as_str());
    out.append(" does not exist on ");
    let ds = date_string(&date);
    out.append(ds.as_str());
    out.append("\n");
    proof {
        assert(out@ =~= spec_no_flight_msg(number, date));
    }
    out
}

/// The ticket allocator and booking orchestrator. It owns no state: the
/// store of record is handed to each operation.
pub struct TicketService {}

impl TicketService {
    pub fn new() -> (r: TicketService)
    {
        TicketService {  }
    }

    /// Claims one unit of quota for the dated flight `(number, date)` on
    /// behalf of `customer` and records the ticket.
    ///
    /// The flight must exist and the customer must not already hold a
    /// ticket for it; both checks precede any mutation. The decrement
    /// itself goes through the version-gated update; a version conflict
    /// would be retried with jittered backoff up to the retry budget, and
    /// against this sequential store the first gated attempt always lands.
    pub fn acquire(&self, store: &mut InventoryStore, customer: i32, number: i32, date: Date) -> (r:
        Result<i32, AppError>)
        requires
            old(store)@.wf(),
            acquire_fits(old(store)@),
        ensures
            final(store)@.wf(),
            ({
                let (m2, o) = spec_acquire(old(store)@, customer, number, date);
                &&& final(store)@ =~= m2
                &&& match o {
                    AcquireOutcome::Booked(id) => r matches Ok(rid) && rid == id,
                    AcquireOutcome::NoSuchFlight => r matches Err(e) && e matches
                        AppError::NotFound(msg) && msg@ == spec_no_flight_msg(number, date),
                    AcquireOutcome::AlreadyBooked => r matches Err(e) && e matches
                        AppError::ValidationError(msg) && msg@
                        == "Cannot re-book the same flight"@,
                    AcquireOutcome::SoldOut => r matches Err(e) && e matches
                        AppError::ValidationError(msg) && msg@ == "This flight is fully booked."@,
                }
            }),
    {
        // the flight must exist
        if store.find_flight(number, date).is_none() {
            return Err(AppError::NotFound(no_flight_msg(number, date)));
        }
        // rebooking the same dated flight is rejected before any mutation
        if store.find_customer_ticket_nd(customer, number, date).is_some() {
            return Err(AppError::ValidationError("Cannot re-book the same flight".to_owned()));
        }
        let mut attempts: u32 = 0;
        loop
            invariant
                store@ == old(store)@,
                store@.wf(),
                acquire_fits(store@),
                has_flight(store@.flights, number, date),
                !has_customer_ticket_nd(store@.tickets, customer, number, date),
                attempts < MAX_ATTEMPTS,
            decreases MAX_ATTEMPTS - attempts,
        {
            let fi = match store.find_flight(number, date) {
                Some(i) => i,
                None => {
                    // the store is unchanged, so the flight is still there
                    proof {
                        assert(false);
                    }
                    return Err(AppError::NotFound("Flight not found".to_owned()));
                },
            };
            let f = store.flights[fi];
            proof {
                lemma_flight_idx_unique(store@.flights, number, date, fi as int);
                lemma_flight_id_idx_unique(store@.flights, f.flight_id, fi as int);
            }
            if f.available_tickets == 0 {
                return Err(AppError::ValidationError("This flight is fully booked.".to_owned()));
            }
            // the version-gated decrement; it fails only if another writer
            // advanced the row since the read above
            if store.try_claim_quota(f.flight_id, f.version) {
                let id = store.insert_ticket(customer, f.flight_id, date, number);
                proof {
                    lemma_acquire_wf(old(store)@, customer, number, date);
                }
                return Ok(id);
            }
            // transient conflict: back off with jitter, then re-read
            attempts = attempts + 1;
            if attempts >= MAX_ATTEMPTS {
                return Err(AppError::ValidationError(
                    "Could not book the flight after maximum retries".to_owned(),
                ));
            }
            let _delay = backoff_millis();
        }
    }

    /// Releases a booked ticket: returns the quota unit, deletes the
    /// ticket row, and frees the attached seat if there is one. Releasing
    /// a ticket that does not exist reports `NotFound` and mutates
    /// nothing, so a duplicate release never double-increments the quota.
    pub fn release_ticket(&self, store: &mut InventoryStore, ticket_id: i32) -> (r: Result<
        (),
        AppError,
    >)
        requires
            old(store)@.wf(),
            release_ticket_fits(old(store)@, ticket_id),
        ensures
            final(store)@.wf(),
            ({
                let (m2, o) = spec_release(old(store)@, ticket_id);
                &&& final(store)@ =~= m2
                &&& match o {
                    ReleaseOutcome::Released => r matches Ok(u) && u == (),
                    ReleaseOutcome::NoTicket => r matches Err(e) && e matches AppError::NotFound(
                        msg,
                    ) && msg@ == "Ticket not found"@,
                }
            }),
    {
        let ti = match store.find_ticket(ticket_id) {
            Some(i) => i,
            None => {
                return Err(AppError::NotFound("Ticket not found".to_owned()));
            },
        };
        let t = store.tickets[ti];
        proof {
            lemma_ticket_id_idx_unique(store@.tickets, ticket_id, ti as int);
        }
        store.release_quota(t.flight_id);
        store.delete_ticket(ticket_id);
        match t.seat_number {
            Some(s) => {
                store.free_seat(t.flight_id, s);
            },
            None => {},
        }
        proof {
            lemma_release_wf(old(store)@, ticket_id);
        }
        Ok(())
    }
}

/// Acquisition preserves the store invariant.
pub proof fn lemma_acquire_wf(m: StoreModel, customer: i32, number: i32, date: Date)
    requires
        m.wf(),
        i32::MIN <= m.next_ticket_id < i32::MAX,
    ensures
        spec_acquire(m, customer, number, date).0.wf(),
{
    let (m2, o) = spec_acquire(m, customer, number, date);
    if has_flight(m.flights, number, date) && !has_customer_ticket_nd(
        m.tickets,
        customer,
        number,
        date,
    ) {
        let k = flight_idx(m.flights, number, date);
        let f = m.flights[k];
        if f.available_tickets > 0 {
            let t = Ticket {
                id: m.next_ticket_id as i32,
                customer_id: customer,
                flight_id: f.flight_id,
                seat_number: None,
                flight_date: date,
                flight_number: number,
            };
            assert(0 <= k < m.flights.len() && flight_matches(f, number, date));
            // identity fields survive the quota update
            assert(flights_wf(m2.flights));
            // the new ticket's flight fields match the claimed row
            assert(m2.flights[k].flight_id == f.flight_id && m2.flights[k].flight_number == number
                && m2.flights[k].flight_date == date);
            assert(ticket_flight_ok(m2.flights, t));
            // old tickets still point at rows whose identity is unchanged
            assert forall|i: int| 0 <= i < m.tickets.len() implies ticket_flight_ok(
                m2.flights,
                #[trigger] m2.tickets[i],
            ) by {
                assert(m2.tickets[i] == m.tickets[i]);
                assert(ticket_flight_ok(m.flights, m.tickets[i]));
                let w = choose|w: int|
                    0 <= w < m.flights.len() && m.flights[w].flight_id == m.tickets[i].flight_id
                        && m.flights[w].flight_number == m.tickets[i].flight_number
                        && m.flights[w].flight_date == m.tickets[i].flight_date;
                assert(m2.flights[w].flight_id == m.flights[w].flight_id);
            }
            // no other ticket of this customer sits on this flight row: it
            // would have matched the rebooking check on (number, date)
            assert forall|i: int|
                0 <= i < m.tickets.len() && (#[trigger] m.tickets[i]).customer_id
                    == customer implies m.tickets[i].flight_id != f.flight_id by {
                if m.tickets[i].flight_id == f.flight_id {
                    assert(ticket_flight_ok(m.flights, m.tickets[i]));
                    let w = choose|w: int|
                        0 <= w < m.flights.len() && m.flights[w].flight_id == m.tickets[i].flight_id
                            && m.flights[w].flight_number == m.tickets[i].flight_number
                            && m.flights[w].flight_date == m.tickets[i].flight_date;
                    if w != k {
                        // two distinct rows cannot share a flight id
                        assert(m.flights[w].flight_id != m.flights[k].flight_id);
                    }
                    assert(m.tickets[i].flight_number == number && m.tickets[i].flight_date
                        == date);
                }
            }
            assert(tickets_unique(m2.tickets));
            assert(tickets_wf(m2));
            assert(seat_refs_wf(m2));
        }
    }
}

/// Release preserves the store invariant.
proof fn lemma_release_wf(m: StoreModel, ticket_id: i32)
    requires
        m.wf(),
    ensures
        spec_release(m, ticket_id).0.wf(),
{
    if has_ticket_id(m.tickets, ticket_id) {
        let k = ticket_id_idx(m.tickets, ticket_id);
        let t = m.tickets[k];
        assert(0 <= k < m.tickets.len() && m.tickets[k].id == ticket_id);
        let m2 = spec_release(m, ticket_id).0;
        // quota release keeps flight identity fields
        assert(flights_wf(m2.flights));
        // the remaining tickets are the old ones with `k` cut out
        assert(tickets_unique(m2.tickets));
        assert forall|i: int| 0 <= i < m2.tickets.len() implies ticket_flight_ok(
            m2.flights,
            #[trigger] m2.tickets[i],
        ) by {
            let oi = if i < k {
                i
            } else {
                i + 1
            };
            assert(m2.tickets[i] == m.tickets[oi]);
            assert(ticket_flight_ok(m.flights, m.tickets[oi]));
            let w = choose|w: int|
                0 <= w < m.flights.len() && m.flights[w].flight_id == m.tickets[oi].flight_id
                    && m.flights[w].flight_number == m.tickets[oi].flight_number
                    && m.flights[w].flight_date == m.tickets[oi].flight_date;
            assert(m2.flights[w].flight_id == m.flights[w].flight_id);
        }
        assert(tickets_wf(m2));
        // freeing the released ticket's seat cannot strand a reference:
        // only the deleted ticket referenced it
        assert forall|i: int, s: int|
            0 <= i < m2.tickets.len() && 0 <= s < m2.seats.len() && (
            #[trigger] m2.tickets[i]).seat_number is Some && m2.seats[s].flight_id
                == m2.tickets[i].flight_id && (#[trigger] m2.seats[s]).seat_number
                == m2.tickets[i].seat_number->0 implies m2.seats[s].status is Booked by {
            let oi = if i < k {
                i
            } else {
                i + 1
            };
            assert(m2.tickets[i] == m.tickets[oi]);
            if t.seat_number is Some && m.seats[s].flight_id == t.flight_id
                && m.seats[s].seat_number == t.seat_number->0 {
                // this is the freed seat; the remaining ticket `oi` cannot
                // reference it as well
                assert(oi != k);
                assert(!(m.tickets[oi].seat_number is Some && m.tickets[k].seat_number is Some
                    && m.tickets[oi].flight_id == m.tickets[k].flight_id
                    && m.tickets[oi].seat_number == m.tickets[k].seat_number));
            } else {
                assert(m2.seats[s] == m.seats[s]);
            }
        }
        assert(seat_refs_wf(m2));
    }
}

} // verus!
