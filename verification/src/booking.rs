//! The booking orchestrator: composing the ticket and seat allocators
//! over a multi-leg request, with saga-style compensation.
//!
//! Legs are booked in request order; preferred seats are best-effort. When
//! a later leg's acquisition fails, every leg already committed in the
//! request is released again in reverse order, so the booking either fully
//! succeeds or fully rolls back.

use vstd::prelude::*;

use crate::dates::Date;
use crate::error::AppError;
use crate::models::{
    FlightBookingRequest, FlightBookingResponse, Seat, SeatBookingRequest, SeatStatus, Ticket,
    TicketBookingRequest, TicketBookingResponse,
};
use crate::seat_allocation::{lemma_assign_wf, seat_versions_fit, spec_assign, AssignOutcome};
use crate::store::{
    claimed_flight, flight_idx, flight_matches, free_seat_fits, free_seat_spec,
    has_customer_ticket_nd, has_flight, has_flight_id, has_seat, has_ticket_id,
    lemma_customer_ticket_idx_unique, lemma_flight_id_idx_unique, lemma_flight_idx_unique,
    lemma_seat_idx_unique, lemma_ticket_id_idx_unique, release_fits, release_quota_spec,
    released_flight, seat_idx, seat_matches, InventoryStore, StoreModel,
};
use crate::text::{date_string, i32_string, spec_date_str, spec_idec};
use crate::ticket_service::{
    acquire_fits, lemma_acquire_wf, release_ticket_fits, spec_acquire, spec_no_flight_msg,
    spec_release, AcquireOutcome, TicketService,
};

verus! {

/// What one successfully ticketed leg granted.
pub ghost struct LegGrant {
    pub ticket_id: i32,
    pub seat: Option<i32>,
}

/// The outcome of one leg of a multi-leg booking.
pub ghost enum LegOutcome {
    /// The leg was ticketed; the seat is the preferred one when the
    /// assignment landed and `None` otherwise.
    Ticketed(LegGrant),
    /// The ticket acquisition itself failed; nothing was mutated.
    Failed(AcquireOutcome),
}

/// The flight row id the dated flight of `req` resolves to.
pub open spec fn leg_fid(m: StoreModel, req: FlightBookingRequest) -> i32 {
    m.flights[flight_idx(m.flights, req.flight_number, req.flight_date)].flight_id
}

/// One leg of a booking: acquire a ticket, then attempt the preferred
/// seat. A failed seat assignment does not fail the leg: the ticket
/// stands and the leg is granted without a seat.
pub open spec fn spec_book_leg(m: StoreModel, customer: i32, req: FlightBookingRequest) -> (
    StoreModel,
    LegOutcome,
) {
    let (m1, o) = spec_acquire(m, customer, req.flight_number, req.flight_date);
    match o {
        AcquireOutcome::Booked(id) => match req.preferred_seat {
            None => (m1, LegOutcome::Ticketed(LegGrant { ticket_id: id, seat: None })),
            Some(ps) => {
                let (m2, ao) = spec_assign(m1, customer, leg_fid(m, req), ps, None);
                match ao {
                    AssignOutcome::Assigned => (
                        m2,
                        LegOutcome::Ticketed(LegGrant { ticket_id: id, seat: Some(ps) }),
                    ),
                    _ => (m2, LegOutcome::Ticketed(LegGrant { ticket_id: id, seat: None })),
                }
            },
        },
        _ => (m1, LegOutcome::Failed(o)),
    }
}

/// The flight reference shown in a leg's response.
pub open spec fn spec_flight_details(number: i32, date: Date) -> Seq<char> {
    "Flight "@ + spec_idec(number as int) + " on "@ + spec_date_str(date)
}

/// Renders [`spec_flight_details`].
pub fn flight_details_msg(number: i32, date: Date) -> (r: String)
    ensures
        r@ == spec_flight_details(number, date),
{
    let mut out: String = "Flight ".to_owned();
    let num = i32_string(number);
    out.append(num.as_str());
    out.append(" on ");
    let ds = date_string(&date);
    out.append(ds.as_str());
    proof {
        assert(out@ =~= spec_flight_details(number, date));
    }
    out
}

impl TicketService {
    /// Books one leg: claims a ticket for the dated flight, then tries the
    /// preferred seat if one was asked for. A seat that cannot be had does
    /// not fail the leg; the response simply carries no seat.
    pub fn book_ticket_for_flight(
        &self,
        store: &mut InventoryStore,
        user_id: i32,
        request: FlightBookingRequest,
    ) -> (r: Result<FlightBookingResponse, AppError>)
        requires
            old(store)@.wf(),
            acquire_fits(old(store)@),
            seat_versions_fit(old(store)@),
        ensures
            final(store)@.wf(),
            ({
                let (m2, o) = spec_book_leg(old(store)@, user_id, request);
                &&& final(store)@ =~= m2
                &&& match o {
                    LegOutcome::Ticketed(g) => r matches Ok(resp) && resp.ticket_id == g.ticket_id
                        && resp.seat_number == g.seat && resp.flight_details@
                        == spec_flight_details(request.flight_number, request.flight_date),
                    LegOutcome::Failed(ao) => r matches Err(e) && match ao {
                        AcquireOutcome::NoSuchFlight => e matches AppError::NotFound(msg) && msg@
                            == spec_no_flight_msg(request.flight_number, request.flight_date),
                        AcquireOutcome::AlreadyBooked => e matches AppError::ValidationError(msg)
                            && msg@ == "Cannot re-book the same flight"@,
                        AcquireOutcome::SoldOut => e matches AppError::ValidationError(msg)
                            && msg@ == "This flight is fully booked."@,
                        AcquireOutcome::Booked(_) => false,
                    },
                }
            }),
    {
        let ghost m0 = store@;
        let ticket_id = match self.acquire(
            store,
            user_id,
            request.flight_number,
            request.flight_date,
        ) {
            Ok(id) => id,
            Err(e) => {
                return Err(e);
            },
        };
        let response = FlightBookingResponse {
            ticket_id,
            flight_details: flight_details_msg(request.flight_number, request.flight_date),
            seat_number: None,
        };
        let preferred = match request.preferred_seat {
            Some(ps) => ps,
            None => {
                return Ok(response);
            },
        };
        proof {
            let k = flight_idx(m0.flights, request.flight_number, request.flight_date);
            lemma_flight_idx_unique(
                store@.flights,
                request.flight_number,
                request.flight_date,
                k,
            );
            lemma_customer_ticket_idx_unique(
                store@.tickets,
                user_id,
                leg_fid(m0, request),
                store@.tickets.len() - 1,
            );
        }
        // the ticket is booked either way; the preferred seat is only an
        // attempt
        let seat_result = self.book_seat_for_ticket(
            store,
            user_id,
            SeatBookingRequest {
                flight_number: request.flight_number,
                flight_date: request.flight_date,
                seat_number: preferred,
            },
        );
        match seat_result {
            Ok(_) => Ok(FlightBookingResponse { seat_number: Some(preferred), ..response }),
            Err(_) => Ok(response),
        }
    }
}

/// Where a multi-leg booking first failed.
pub ghost struct FailInfo {
    /// The index of the failing leg; all legs before it were ticketed.
    pub at: int,
    /// The acquisition outcome of the failing leg.
    pub outcome: AcquireOutcome,
}

/// The state of a multi-leg booking after some prefix of the legs.
pub ghost struct BookProgress {
    /// The store after the legs booked so far.
    pub store: StoreModel,
    /// What each successfully booked leg granted, in request order.
    pub legs: Seq<LegGrant>,
    /// The first failure, if one happened; no later leg was attempted.
    pub failure: Option<FailInfo>,
}

/// The forward phase of a multi-leg booking: legs are booked in request
/// order until the first acquisition failure, which stops the run.
pub open spec fn spec_book_legs(
    m: StoreModel,
    customer: i32,
    reqs: Seq<FlightBookingRequest>,
) -> BookProgress
    decreases reqs.len(),
{
    if reqs.len() == 0 {
        BookProgress { store: m, legs: Seq::empty(), failure: None }
    } else {
        let p = spec_book_legs(m, customer, reqs.drop_last());
        if p.failure is Some {
            p
        } else {
            let (m1, o) = spec_book_leg(p.store, customer, reqs.last());
            match o {
                LegOutcome::Ticketed(g) => BookProgress {
                    store: m1,
                    legs: p.legs.push(g),
                    failure: None,
                },
                LegOutcome::Failed(ao) => BookProgress {
                    store: m1,
                    legs: p.legs,
                    failure: Some(FailInfo { at: reqs.len() - 1, outcome: ao }),
                },
            }
        }
    }
}

/// Whether one of the granted legs ticketed the flight row `fid`.
pub open spec fn leg_touches_flight(
    m: StoreModel,
    reqs: Seq<FlightBookingRequest>,
    legs: Seq<LegGrant>,
    fid: i32,
) -> bool {
    exists|l: int| 0 <= l < legs.len() && leg_fid(m, reqs[l]) == fid
}

/// Whether one of the granted legs claimed seat row `s`.
pub open spec fn leg_claims_seat(
    m: StoreModel,
    reqs: Seq<FlightBookingRequest>,
    legs: Seq<LegGrant>,
    s: Seat,
) -> bool {
    exists|l: int|
        0 <= l < legs.len() && legs[l].seat is Some && leg_fid(m, reqs[l]) == s.flight_id
            && legs[l].seat->0 == s.seat_number
}

/// A claimed seat row, one version later and booked.
pub open spec fn claimed_seat(s: Seat) -> Seat {
    Seat { status: SeatStatus::Booked, version: (s.version + 1) as u64, ..s }
}

/// Everything the forward phase guarantees about where it lands, row by
/// row against the starting store `m`.
pub open spec fn book_legs_props(
    m: StoreModel,
    customer: i32,
    reqs: Seq<FlightBookingRequest>,
    p: BookProgress,
) -> bool {
    &&& p.store.wf()
    &&& p.legs.len() <= reqs.len()
    &&& (p.failure is None ==> p.legs.len() == reqs.len())
    &&& (p.failure matches Some(fi) ==> 0 <= fi.at < reqs.len() && p.legs.len() == fi.at && !(
    fi.outcome is Booked))
    &&& p.store.next_ticket_id == m.next_ticket_id + p.legs.len()
    &&& p.store.routes == m.routes
    &&& p.store.tickets.len() == m.tickets.len() + p.legs.len()
    &&& forall|t: int| 0 <= t < m.tickets.len() ==> p.store.tickets[t] == #[trigger] m.tickets[t]
    &&& forall|l: int|
        0 <= l < p.legs.len() ==> p.store.tickets[m.tickets.len() + l] == (Ticket {
            id: (#[trigger] p.legs[l]).ticket_id,
            customer_id: customer,
            flight_id: leg_fid(m, reqs[l]),
            seat_number: p.legs[l].seat,
            flight_date: reqs[l].flight_date,
            flight_number: reqs[l].flight_number,
        }) && p.legs[l].ticket_id == m.next_ticket_id + l && has_flight(
            m.flights,
            reqs[l].flight_number,
            reqs[l].flight_date,
        )
    &&& forall|l: int|
        0 <= l < p.legs.len() ==> ((#[trigger] p.legs[l]).seat is Some ==> p.legs[l].seat
            == reqs[l].preferred_seat) && (reqs[l].preferred_seat is None ==> p.legs[l].seat
            is None)
    &&& forall|l1: int, l2: int|
        #![trigger p.legs[l1], p.legs[l2]]
        0 <= l1 < l2 < p.legs.len() ==> leg_fid(m, reqs[l1]) != leg_fid(m, reqs[l2])
    &&& p.store.flights.len() == m.flights.len()
    &&& forall|i: int|
        #![trigger p.store.flights[i]]
        0 <= i < m.flights.len() ==> if leg_touches_flight(m, reqs, p.legs, m.flights[i].flight_id) {
            m.flights[i].available_tickets > 0 && p.store.flights[i] == claimed_flight(
                m.flights[i],
            )
        } else {
            p.store.flights[i] == m.flights[i]
        }
    &&& p.store.seats.len() == m.seats.len()
    &&& forall|i: int|
        #![trigger p.store.seats[i]]
        0 <= i < m.seats.len() ==> if leg_claims_seat(m, reqs, p.legs, m.seats[i]) {
            m.seats[i].status is Available && p.store.seats[i] == claimed_seat(m.seats[i])
        } else {
            p.store.seats[i] == m.seats[i]
        }
}

/// The forward phase really has the row-by-row shape that
/// [`book_legs_props`] states: by induction over the legs.
proof fn lemma_book_legs_props(m: StoreModel, customer: i32, reqs: Seq<FlightBookingRequest>)
    requires
        m.wf(),
        i32::MIN <= m.next_ticket_id,
        m.next_ticket_id + reqs.len() <= i32::MAX,
    ensures
        book_legs_props(m, customer, reqs, spec_book_legs(m, customer, reqs)),
    decreases reqs.len(),
{
    let p = spec_book_legs(m, customer, reqs);
    if reqs.len() == 0 {
        assert(p.store =~= m);
    } else {
        let rp = reqs.drop_last();
        lemma_book_legs_props(m, customer, rp);
        let q = spec_book_legs(m, customer, rp);
        assert(forall|l: int| 0 <= l < rp.len() ==> rp[l] == #[trigger] reqs[l]);
        // the touched-row predicates do not care about the dropped last leg
        assert forall|fid: i32|
            leg_touches_flight(m, reqs, q.legs, fid) == leg_touches_flight(
                m,
                rp,
                q.legs,
                fid,
            ) by {
            if leg_touches_flight(m, reqs, q.legs, fid) {
                let l = choose|l: int| 0 <= l < q.legs.len() && leg_fid(m, reqs[l]) == fid;
                assert(leg_fid(m, rp[l]) == fid);
            }
            if leg_touches_flight(m, rp, q.legs, fid) {
                let l = choose|l: int| 0 <= l < q.legs.len() && leg_fid(m, rp[l]) == fid;
                assert(leg_fid(m, reqs[l]) == fid);
            }
        }
        assert forall|s: Seat|
            leg_claims_seat(m, reqs, q.legs, s) == leg_claims_seat(m, rp, q.legs, s) by {
            if leg_claims_seat(m, reqs, q.legs, s) {
                let l = choose|l: int|
                    0 <= l < q.legs.len() && q.legs[l].seat is Some && leg_fid(m, reqs[l])
                        == s.flight_id && q.legs[l].seat->0 == s.seat_number;
                assert(leg_fid(m, rp[l]) == s.flight_id);
            }
            if leg_claims_seat(m, rp, q.legs, s) {
                let l = choose|l: int|
                    0 <= l < q.legs.len() && q.legs[l].seat is Some && leg_fid(m, rp[l])
                        == s.flight_id && q.legs[l].seat->0 == s.seat_number;
                assert(leg_fid(m, reqs[l]) == s.flight_id);
            }
        }
        if q.failure is Some {
            assert(p == q);
        } else {
            let req = reqs.last();
            let number = req.flight_number;
            let date = req.flight_date;
            // identity fields of every flight row survive the prefix
            assert forall|i: int| 0 <= i < m.flights.len() implies (
            #[trigger] q.store.flights[i]).flight_id == m.flights[i].flight_id
                && q.store.flights[i].flight_number == m.flights[i].flight_number
                && q.store.flights[i].flight_date == m.flights[i].flight_date by {
                if leg_touches_flight(m, rp, q.legs, m.flights[i].flight_id) {
                    assert(q.store.flights[i] == claimed_flight(m.flights[i]));
                }
            }
            // so existence and position of the requested flight agree
            assert(has_flight(q.store.flights, number, date) == has_flight(
                m.flights,
                number,
                date,
            )) by {
                if has_flight(m.flights, number, date) {
                    let k = flight_idx(m.flights, number, date);
                    assert(flight_matches(q.store.flights[k], number, date));
                }
                if has_flight(q.store.flights, number, date) {
                    let k = flight_idx(q.store.flights, number, date);
                    assert(flight_matches(m.flights[k], number, date));
                }
            }
            let (m1, o) = spec_book_leg(q.store, customer, req);
            lemma_acquire_wf(q.store, customer, number, date);
            match o {
                LegOutcome::Failed(ao) => {
                    assert(m1 == q.store);
                    assert(p.legs == q.legs && p.store == q.store);
                    assert(p.failure matches Some(fi) && fi.at == reqs.len() - 1 && fi.outcome
                        == ao);
                    assert(book_legs_props(m, customer, reqs, p));
                },
                LegOutcome::Ticketed(g) => {
                    lemma_booked_leg_step(m, customer, reqs, q, g, m1);
                },
            }
        }
    }
}

/// The single-leg step of the induction: one more ticketed leg keeps all
/// the row-by-row facts.
proof fn lemma_booked_leg_step(
    m: StoreModel,
    customer: i32,
    reqs: Seq<FlightBookingRequest>,
    q: BookProgress,
    g: LegGrant,
    m1: StoreModel,
)
    requires
        m.wf(),
        i32::MIN <= m.next_ticket_id,
        m.next_ticket_id + reqs.len() <= i32::MAX,
        reqs.len() > 0,
        q == spec_book_legs(m, customer, reqs.drop_last()),
        q.failure is None,
        book_legs_props(m, customer, reqs.drop_last(), q),
        spec_book_leg(q.store, customer, reqs.last()) == (m1, LegOutcome::Ticketed(g)),
    ensures
        book_legs_props(
            m,
            customer,
            reqs,
            BookProgress { store: m1, legs: q.legs.push(g), failure: None },
        ),
{
    let rp = reqs.drop_last();
    let req = reqs.last();
    let number = req.flight_number;
    let date = req.flight_date;
    let p = BookProgress { store: m1, legs: q.legs.push(g), failure: None };
    assert(forall|l: int| 0 <= l < rp.len() ==> rp[l] == #[trigger] reqs[l]);
    // the acquisition succeeded, so the flight exists and the customer had
    // no ticket for it yet
    let (ma, o) = spec_acquire(q.store, customer, number, date);
    assert(o is Booked);
    assert(has_flight(q.store.flights, number, date));
    assert(!has_customer_ticket_nd(q.store.tickets, customer, number, date));
    let kq = flight_idx(q.store.flights, number, date);
    assert(0 <= kq < q.store.flights.len() && flight_matches(q.store.flights[kq], number, date));
    assert(flight_matches(m.flights[kq], number, date)) by {
        if leg_touches_flight(m, rp, q.legs, m.flights[kq].flight_id) {
            assert(q.store.flights[kq] == claimed_flight(m.flights[kq]));
        }
    }
    lemma_flight_idx_unique(m.flights, number, date, kq);
    let fid = m.flights[kq].flight_id;
    assert(leg_fid(m, req) == fid);
    assert(q.store.flights[kq].flight_id == fid) by {
        if leg_touches_flight(m, rp, q.legs, fid) {
            assert(q.store.flights[kq] == claimed_flight(m.flights[kq]));
        }
    }
    // no earlier leg touched this flight: its fresh ticket would have made
    // the rebooking check fail
    assert(!leg_touches_flight(m, rp, q.legs, fid)) by {
        if leg_touches_flight(m, rp, q.legs, fid) {
            let l = choose|l: int| 0 <= l < q.legs.len() && leg_fid(m, rp[l]) == fid;
            let gl = q.legs[l];
            let kl = flight_idx(m.flights, rp[l].flight_number, rp[l].flight_date);
            assert(has_flight(m.flights, rp[l].flight_number, rp[l].flight_date));
            assert(0 <= kl < m.flights.len() && flight_matches(
                m.flights[kl],
                rp[l].flight_number,
                rp[l].flight_date,
            ));
            assert(m.flights[kl].flight_id == fid);
            if kl != kq {
                assert(m.flights[kl].flight_id != m.flights[kq].flight_id);
            }
            assert(rp[l].flight_number == number && rp[l].flight_date == date);
            assert(q.store.tickets[m.tickets.len() + l].customer_id == customer
                && q.store.tickets[m.tickets.len() + l].flight_number == number
                && q.store.tickets[m.tickets.len() + l].flight_date == date);
            assert(has_customer_ticket_nd(q.store.tickets, customer, number, date));
        }
    }
    assert(q.store.flights[kq] == m.flights[kq]);
    assert(m.flights[kq].available_tickets > 0);
    // the acquisition's effect, seen from the starting store
    assert(ma.flights =~= q.store.flights.update(kq, claimed_flight(m.flights[kq])));
    let fresh = Ticket {
        id: q.store.next_ticket_id as i32,
        customer_id: customer,
        flight_id: fid,
        seat_number: None,
        flight_date: date,
        flight_number: number,
    };
    assert(ma.tickets =~= q.store.tickets.push(fresh));
    assert(g.ticket_id == q.store.next_ticket_id as i32);
    assert(q.store.next_ticket_id == m.next_ticket_id + q.legs.len());
    lemma_acquire_wf(q.store, customer, number, date);
    assert(ma.wf());
    let freshg = Ticket { seat_number: g.seat, ..fresh };
    // the seat phase: establish what the leg did to seats and tickets
    match req.preferred_seat {
        None => {
            assert(m1 == ma && g.seat is None);
            assert(m1.tickets =~= q.store.tickets.push(freshg));
            assert(m1.seats == q.store.seats);
            assert(m1.wf());
        },
        Some(ps) => {
            let (m2, ao) = spec_assign(ma, customer, leg_fid(q.store, req), ps, None);
            assert(leg_fid(q.store, req) == fid) by {
                lemma_flight_idx_unique(q.store.flights, number, date, kq);
            }
            lemma_assign_wf(ma, customer, fid, ps, None);
            match ao {
                AssignOutcome::Assigned => {
                    assert(g.seat == Some(ps));
                    assert(m1 == m2);
                    assert(m1.wf());
                    let sk = seat_idx(ma.seats, fid, ps);
                    assert(has_seat(ma.seats, fid, ps) && ma.seats[sk].status is Available);
                    assert(ma.seats == q.store.seats);
                    // an earlier leg cannot have claimed this seat: it
                    // would already be booked
                    assert(q.store.seats[sk] == m.seats[sk] && m.seats[sk].status
                        is Available) by {
                        if leg_claims_seat(m, rp, q.legs, m.seats[sk]) {
                            assert(q.store.seats[sk] == claimed_seat(m.seats[sk]));
                        }
                    }
                    assert(m1.seats =~= q.store.seats.update(sk, claimed_seat(m.seats[sk])));
                    // the ticket the assignment re-points is the fresh one
                    lemma_customer_ticket_idx_unique(
                        ma.tickets,
                        customer,
                        fid,
                        ma.tickets.len() - 1,
                    );
                    assert(m1.tickets =~= q.store.tickets.push(freshg));
                },
                _ => {
                    assert(g.seat is None);
                    assert(m1 == m2 && m2 =~= ma);
                    assert(m1.tickets =~= q.store.tickets.push(freshg));
                    assert(m1.seats == q.store.seats);
                    assert(m1.wf());
                },
            }
        },
    }
    // assemble the row-by-row facts for the extended run
    assert(m1.flights =~= q.store.flights.update(kq, claimed_flight(m.flights[kq])));
    assert(m1.next_ticket_id == q.store.next_ticket_id + 1 && m1.routes == q.store.routes);
    assert(p.legs[q.legs.len() as int] == g && reqs[reqs.len() - 1] == req);
    assert(leg_fid(m, reqs[reqs.len() - 1]) == fid);
    // flights row by row
    assert forall|i: int|
        #![trigger p.store.flights[i]]
        #![trigger m.flights[i]]
        0 <= i < m.flights.len() implies (
    if leg_touches_flight(m, reqs, p.legs, m.flights[i].flight_id) {
        m.flights[i].available_tickets > 0 && p.store.flights[i] == claimed_flight(m.flights[i])
    } else {
        p.store.flights[i] == m.flights[i]
    }) by {
        let fidi = m.flights[i].flight_id;
        if leg_touches_flight(m, reqs, p.legs, fidi) {
            let l = choose|l: int| 0 <= l < p.legs.len() && leg_fid(m, reqs[l]) == fidi;
            if l < q.legs.len() {
                assert(leg_fid(m, rp[l]) == fidi);
                assert(leg_touches_flight(m, rp, q.legs, fidi));
                assert(i != kq) by {
                    if i == kq {
                        assert(leg_touches_flight(m, rp, q.legs, fid));
                    }
                }
                assert(q.store.flights[i] == claimed_flight(m.flights[i]));
                assert(m.flights[i].available_tickets > 0);
                assert(p.store.flights[i] == q.store.flights[i]);
            } else {
                assert(l == q.legs.len());
                assert(leg_fid(m, reqs[l]) == fid);
                assert(fidi == fid);
                if i != kq {
                    assert(m.flights[i].flight_id != m.flights[kq].flight_id);
                }
                assert(i == kq);
                assert(m.flights[i].available_tickets > 0);
            }
        } else {
            assert(!leg_touches_flight(m, rp, q.legs, fidi)) by {
                if leg_touches_flight(m, rp, q.legs, fidi) {
                    let l = choose|l: int| 0 <= l < q.legs.len() && leg_fid(m, rp[l]) == fidi;
                    assert(leg_fid(m, reqs[l]) == fidi);
                }
            }
            assert(q.store.flights[i] == m.flights[i]);
            assert(i != kq) by {
                if i == kq {
                    assert(leg_fid(m, reqs[reqs.len() - 1]) == fidi);
                }
            }
        }
    }
    // seats row by row
    assert forall|i: int|
        #![trigger p.store.seats[i]]
        #![trigger m.seats[i]]
        0 <= i < m.seats.len() implies (
    if leg_claims_seat(m, reqs, p.legs, m.seats[i]) {
        m.seats[i].status is Available && p.store.seats[i] == claimed_seat(m.seats[i])
    } else {
        p.store.seats[i] == m.seats[i]
    }) by {
        let si = m.seats[i];
        let claimed_now = g.seat is Some && fid == si.flight_id && g.seat->0 == si.seat_number;
        if leg_claims_seat(m, reqs, p.legs, si) {
            let l = choose|l: int|
                0 <= l < p.legs.len() && p.legs[l].seat is Some && leg_fid(m, reqs[l])
                    == si.flight_id && p.legs[l].seat->0 == si.seat_number;
            if l < q.legs.len() {
                assert(p.legs[l] == q.legs[l]);
                assert(leg_fid(m, rp[l]) == si.flight_id);
                assert(leg_claims_seat(m, rp, q.legs, si));
                assert(q.store.seats[i] == claimed_seat(si) && si.status is Available);
                assert(m.seats[i].status is Available);
                // this leg cannot also claim row i: its flight was untouched
                assert(si.flight_id != fid) by {
                    if si.flight_id == fid {
                        assert(leg_touches_flight(m, rp, q.legs, fid));
                    }
                }
                assert(p.store.seats[i] == q.store.seats[i]);
            } else {
                assert(l == q.legs.len() && p.legs[l] == g);
                assert(claimed_now);
                let sk = seat_idx(q.store.seats, fid, g.seat->0);
                assert(seat_matches(q.store.seats[i], fid, g.seat->0));
                lemma_seat_idx_unique(q.store.seats, fid, g.seat->0, i);
                assert(i == sk);
                assert(p.store.seats[i] == claimed_seat(m.seats[i]) && m.seats[i].status
                    is Available);
            }
        } else {
            assert(!leg_claims_seat(m, rp, q.legs, si)) by {
                if leg_claims_seat(m, rp, q.legs, si) {
                    let l = choose|l: int|
                        0 <= l < q.legs.len() && q.legs[l].seat is Some && leg_fid(m, rp[l])
                            == si.flight_id && q.legs[l].seat->0 == si.seat_number;
                    assert(p.legs[l] == q.legs[l] && leg_fid(m, reqs[l]) == si.flight_id);
                }
            }
            assert(q.store.seats[i] == m.seats[i]);
            if g.seat is Some {
                let sk = seat_idx(q.store.seats, fid, g.seat->0);
                if i == sk && has_seat(q.store.seats, fid, g.seat->0) {
                    assert(seat_matches(q.store.seats[sk], fid, g.seat->0));
                    assert(claimed_now);
                    assert(leg_claims_seat(m, reqs, p.legs, si));
                }
                assert(p.store.seats[i] == q.store.seats[i]);
            }
        }
    }
    // tickets row by row
    assert forall|l: int| 0 <= l < p.legs.len() implies p.store.tickets[m.tickets.len() + l] == (
    Ticket {
        id: (#[trigger] p.legs[l]).ticket_id,
        customer_id: customer,
        flight_id: leg_fid(m, reqs[l]),
        seat_number: p.legs[l].seat,
        flight_date: reqs[l].flight_date,
        flight_number: reqs[l].flight_number,
    }) && p.legs[l].ticket_id == m.next_ticket_id + l && has_flight(
        m.flights,
        reqs[l].flight_number,
        reqs[l].flight_date,
    ) by {
        if l < q.legs.len() {
            assert(p.legs[l] == q.legs[l] && rp[l] == reqs[l]);
            assert(p.store.tickets[m.tickets.len() + l] == q.store.tickets[m.tickets.len() + l]);
        } else {
            assert(l == q.legs.len() && p.legs[l] == g);
            assert(p.store.tickets[m.tickets.len() + l] == freshg);
        }
    }
    // no two granted legs share a flight
    assert forall|l1: int, l2: int|
        #![trigger p.legs[l1], p.legs[l2]]
        #![trigger reqs[l1], reqs[l2]]
        0 <= l1 < l2 < p.legs.len() implies leg_fid(m, reqs[l1]) != leg_fid(m, reqs[l2]) by {
        if l2 < q.legs.len() {
            assert(q.legs[l1] == p.legs[l1] && q.legs[l2] == p.legs[l2]);
        } else {
            assert(leg_fid(m, reqs[l2]) == fid);
            if leg_fid(m, reqs[l1]) == fid {
                assert(leg_fid(m, rp[l1]) == fid);
                assert(leg_touches_flight(m, rp, q.legs, fid));
            }
        }
    }
    // the remaining bookkeeping clauses
    assert forall|t: int| 0 <= t < m.tickets.len() implies p.store.tickets[t] == #[trigger] m
        .tickets[t] by {
        assert(q.store.tickets[t] == m.tickets[t]);
    }
    assert forall|l: int|
        0 <= l < p.legs.len() implies ((#[trigger] p.legs[l]).seat is Some ==> p.legs[l].seat
            == reqs[l].preferred_seat) && (reqs[l].preferred_seat is None ==> p.legs[l].seat
            is None) by {
        if l < q.legs.len() {
            assert(p.legs[l] == q.legs[l] && rp[l] == reqs[l]);
        } else {
            assert(p.legs[l] == g && reqs[l] == req);
        }
    }
    assert(p.store.tickets.len() == m.tickets.len() + p.legs.len());
    assert(p.store.next_ticket_id == m.next_ticket_id + p.legs.len());
    assert(p.store.flights.len() == m.flights.len());
    assert(p.store.seats.len() == m.seats.len());
    assert(book_legs_props(m, customer, reqs, p));
}

/// How the store looks mid-compensation, relative to the state `base`
/// before the booking began and the forward state `target` whose pending
/// legs are still to be undone: rows `target` touched still match `target`
/// exactly; rows it did not (never touched, or already released) carry
/// `base`'s quota and status with a version at most two gates further on.
pub open spec fn compensated(base: StoreModel, target: StoreModel, cur: StoreModel) -> bool {
    &&& cur.tickets == target.tickets
    &&& cur.routes == base.routes
    &&& cur.next_ticket_id >= base.next_ticket_id
    &&& cur.flights.len() == base.flights.len()
    &&& target.flights.len() == base.flights.len()
    &&& forall|i: int|
        #![trigger cur.flights[i]]
        0 <= i < base.flights.len() ==> cur.flights[i].flight_id == base.flights[i].flight_id
            && cur.flights[i].flight_number == base.flights[i].flight_number
            && cur.flights[i].flight_date == base.flights[i].flight_date && if target.flights[i].version
            != base.flights[i].version {
            cur.flights[i] == target.flights[i]
        } else {
            cur.flights[i].available_tickets == base.flights[i].available_tickets
                && base.flights[i].version <= cur.flights[i].version <= base.flights[i].version + 2
        }
    &&& cur.seats.len() == base.seats.len()
    &&& target.seats.len() == base.seats.len()
    &&& forall|i: int|
        #![trigger cur.seats[i]]
        0 <= i < base.seats.len() ==> cur.seats[i].flight_id == base.seats[i].flight_id
            && cur.seats[i].seat_number == base.seats[i].seat_number && if target.seats[i].version
            != base.seats[i].version {
            cur.seats[i] == target.seats[i]
        } else {
            cur.seats[i].status == base.seats[i].status && base.seats[i].version
                <= cur.seats[i].version <= base.seats[i].version + 2
        }
}

/// Full rollback, as a caller sees it: the same tickets, quotas and seat
/// statuses as before the booking; only the version counters may have
/// moved on - by at most two gates per row (one claim and one release), so
/// a caller can re-establish the headroom of [`book_fits`] and book again.
pub open spec fn restores_inventory(base: StoreModel, cur: StoreModel) -> bool {
    &&& cur.tickets == base.tickets
    &&& cur.routes == base.routes
    &&& cur.next_ticket_id >= base.next_ticket_id
    &&& cur.flights.len() == base.flights.len()
    &&& forall|i: int|
        #![trigger cur.flights[i]]
        0 <= i < base.flights.len() ==> cur.flights[i].flight_id == base.flights[i].flight_id
            && cur.flights[i].flight_number == base.flights[i].flight_number
            && cur.flights[i].flight_date == base.flights[i].flight_date
            && cur.flights[i].available_tickets == base.flights[i].available_tickets
            && base.flights[i].version <= cur.flights[i].version <= base.flights[i].version + 2
    &&& cur.seats.len() == base.seats.len()
    &&& forall|i: int|
        #![trigger cur.seats[i]]
        0 <= i < base.seats.len() ==> cur.seats[i].flight_id == base.seats[i].flight_id
            && cur.seats[i].seat_number == base.seats[i].seat_number && cur.seats[i].status
            == base.seats[i].status && base.seats[i].version <= cur.seats[i].version
            <= base.seats[i].version + 2
}

/// Headroom the machine needs for a whole multi-leg booking including its
/// possible rollback: ticket ids for every leg, and two version gates on
/// every row.
pub open spec fn book_fits(m: StoreModel, n_legs: int) -> bool {
    &&& m.next_ticket_id + n_legs <= i32::MAX
    &&& forall|i: int| 0 <= i < m.flights.len() ==> (#[trigger] m.flights[i]).version + 2 < u64::MAX
    &&& forall|i: int| 0 <= i < m.seats.len() ==> (#[trigger] m.seats[i]).version + 2 < u64::MAX
}

/// Once a prefix has failed, the longer runs are the same run.
proof fn lemma_book_legs_fail_persists(
    m: StoreModel,
    customer: i32,
    reqs: Seq<FlightBookingRequest>,
    j: int,
)
    requires
        0 <= j <= reqs.len(),
        spec_book_legs(m, customer, reqs.take(j)).failure is Some,
    ensures
        spec_book_legs(m, customer, reqs) == spec_book_legs(m, customer, reqs.take(j)),
    decreases reqs.len() - j,
{
    if j < reqs.len() {
        assert(reqs.take(j + 1).drop_last() =~= reqs.take(j));
        assert(spec_book_legs(m, customer, reqs.take(j + 1)) == spec_book_legs(
            m,
            customer,
            reqs.take(j),
        ));
        lemma_book_legs_fail_persists(m, customer, reqs, j + 1);
    } else {
        assert(reqs.take(j) =~= reqs);
    }
}

/// A successful run restricted to its first `j` legs is the successful run
/// of those legs.
proof fn lemma_book_legs_prefix(
    m: StoreModel,
    customer: i32,
    reqs: Seq<FlightBookingRequest>,
    j: int,
    i: int,
)
    requires
        m.wf(),
        i32::MIN <= m.next_ticket_id,
        m.next_ticket_id + reqs.len() <= i32::MAX,
        0 <= j <= i <= reqs.len(),
        spec_book_legs(m, customer, reqs.take(i)).failure is None,
    ensures
        spec_book_legs(m, customer, reqs.take(j)).failure is None,
        spec_book_legs(m, customer, reqs.take(j)).legs =~= spec_book_legs(
            m,
            customer,
            reqs.take(i),
        ).legs.take(j),
    decreases i - j,
{
    lemma_book_legs_props(m, customer, reqs.take(i));
    let pi = spec_book_legs(m, customer, reqs.take(i));
    assert(pi.legs.len() == i);
    if j < i {
        assert(reqs.take(i).drop_last() =~= reqs.take(i - 1));
        let q = spec_book_legs(m, customer, reqs.take(i - 1));
        assert(q.failure is None);
        assert(q.legs =~= pi.legs.drop_last());
        lemma_book_legs_prefix(m, customer, reqs, j, i - 1);
        assert(spec_book_legs(m, customer, reqs.take(j)).legs =~= pi.legs.take(j)) by {
            assert(pi.legs.drop_last().take(j) =~= pi.legs.take(j));
        }
    } else {
        assert(pi.legs.take(j) =~= pi.legs);
    }
}

/// Releasing the last pending grant moves the compensation one leg back:
/// the core of rollback correctness.
proof fn lemma_release_undoes_leg(
    base: StoreModel,
    customer: i32,
    reqs: Seq<FlightBookingRequest>,
    j: int,
    cur: StoreModel,
)
    requires
        base.wf(),
        i32::MIN <= base.next_ticket_id,
        base.next_ticket_id + reqs.len() <= i32::MAX,
        forall|i: int|
            0 <= i < base.flights.len() ==> (#[trigger] base.flights[i]).version + 2 < u64::MAX,
        forall|i: int|
            0 <= i < base.seats.len() ==> (#[trigger] base.seats[i]).version + 2 < u64::MAX,
        0 < j <= reqs.len(),
        spec_book_legs(base, customer, reqs.take(j)).failure is None,
        compensated(base, spec_book_legs(base, customer, reqs.take(j)).store, cur),
        cur.wf(),
    ensures
        ({
            let pj = spec_book_legs(base, customer, reqs.take(j));
            let g = pj.legs.last();
            &&& has_ticket_id(cur.tickets, g.ticket_id)
            &&& release_ticket_fits(cur, g.ticket_id)
            &&& spec_release(cur, g.ticket_id).1 is Released
            &&& spec_book_legs(base, customer, reqs.take(j - 1)).failure is None
            &&& compensated(
                base,
                spec_book_legs(base, customer, reqs.take(j - 1)).store,
                spec_release(cur, g.ticket_id).0,
            )
        }),
{
    let tj = reqs.take(j);
    let tj1 = reqs.take(j - 1);
    assert(tj.drop_last() =~= tj1);
    assert(tj.last() == reqs[j - 1]);
    let pj = spec_book_legs(base, customer, tj);
    let q = spec_book_legs(base, customer, tj1);
    assert(q.failure is None);
    lemma_book_legs_props(base, customer, tj);
    lemma_book_legs_props(base, customer, tj1);
    assert(q.legs.len() == j - 1 && pj.legs.len() == j);
    let g = pj.legs.last();
    assert(spec_book_leg(q.store, customer, reqs[j - 1]) == (
        pj.store,
        LegOutcome::Ticketed(g),
    ));
    assert(pj.legs =~= q.legs.push(g));
    assert(forall|l: int| 0 <= l < j - 1 ==> #[trigger] pj.legs[l] == q.legs[l]);
    assert(forall|l: int| 0 <= l < j - 1 ==> #[trigger] tj1[l] == tj[l] && tj[l] == reqs[l]);
    let req = reqs[j - 1];
    let number = req.flight_number;
    let date = req.flight_date;
    // the fresh ticket of the last leg sits at the end of the table
    let last: int = base.tickets.len() + (j - 1);
    assert(cur.tickets == pj.store.tickets);
    assert(cur.tickets.len() == last + 1);
    let t = cur.tickets[last];
    assert(t.id == g.ticket_id && t.customer_id == customer && t.flight_id == leg_fid(base, tj[j
        - 1]) && t.seat_number == g.seat && t.flight_date == date && t.flight_number == number);
    assert(has_ticket_id(cur.tickets, g.ticket_id));
    lemma_ticket_id_idx_unique(cur.tickets, g.ticket_id, last);
    let fid = leg_fid(base, tj[j - 1]);
    assert(has_flight(base.flights, number, date));
    let kq = flight_idx(base.flights, number, date);
    assert(0 <= kq < base.flights.len() && flight_matches(base.flights[kq], number, date));
    assert(base.flights[kq].flight_id == fid);
    // the last leg touched its flight row, so the current row matches the
    // forward state exactly: one claim deep
    assert(leg_touches_flight(base, tj, pj.legs, fid)) by {
        assert(leg_fid(base, tj[j - 1]) == fid);
    }
    assert(pj.store.flights[kq] == claimed_flight(base.flights[kq])
        && base.flights[kq].available_tickets > 0);
    assert(cur.flights[kq] == pj.store.flights[kq]);
    assert(has_flight_id(cur.flights, fid));
    lemma_flight_id_idx_unique(cur.flights, fid, kq);
    // no earlier leg claimed the same flight
    assert(!leg_touches_flight(base, tj1, q.legs, fid)) by {
        if leg_touches_flight(base, tj1, q.legs, fid) {
            let l = choose|l: int| 0 <= l < q.legs.len() && leg_fid(base, tj1[l]) == fid;
            assert(pj.legs[l] == q.legs[l]);
            assert(leg_fid(base, tj[l]) == fid);
        }
    }
    assert(q.store.flights[kq] == base.flights[kq]);
    // headroom for the release
    assert(release_fits(cur.flights, fid));
    let cur2 = spec_release(cur, g.ticket_id).0;
    assert(spec_release(cur, g.ticket_id).1 is Released);
    assert(cur2.flights =~= release_quota_spec(cur.flights, fid));
    assert(cur2.tickets =~= cur.tickets.remove(last));
    // the remaining tickets are the forward state one leg back
    assert(cur2.tickets =~= q.store.tickets) by {
        assert(cur.tickets.remove(last).len() == q.store.tickets.len());
        assert forall|x: int| 0 <= x < q.store.tickets.len() implies cur.tickets.remove(last)[x]
            == q.store.tickets[x] by {
            assert(cur.tickets.remove(last)[x] == cur.tickets[x]);
            if x < base.tickets.len() {
                assert(q.store.tickets[x] == base.tickets[x]);
                assert(pj.store.tickets[x] == base.tickets[x]);
            } else {
                let l = x - base.tickets.len();
                assert(q.store.tickets[x] == (Ticket {
                    id: q.legs[l].ticket_id,
                    customer_id: customer,
                    flight_id: leg_fid(base, tj1[l]),
                    seat_number: q.legs[l].seat,
                    flight_date: tj1[l].flight_date,
                    flight_number: tj1[l].flight_number,
                }));
                assert(pj.store.tickets[x] == (Ticket {
                    id: pj.legs[l].ticket_id,
                    customer_id: customer,
                    flight_id: leg_fid(base, tj[l]),
                    seat_number: pj.legs[l].seat,
                    flight_date: tj[l].flight_date,
                    flight_number: tj[l].flight_number,
                }));
            }
        }
    }
    // seat bookkeeping for the released ticket
    match g.seat {
        None => {
            assert(cur2.seats == cur.seats);
        },
        Some(s) => {
            // the claimed seat row in the current state is one claim deep
            let sk = seat_idx(base.seats, fid, s);
            assert(leg_claims_seat(base, tj, pj.legs, base.seats[sk])
                <== (0 <= sk < base.seats.len() && base.seats[sk].flight_id == fid
                && base.seats[sk].seat_number == s)) by {
                assert(pj.legs[j - 1].seat is Some && leg_fid(base, tj[j - 1]) == fid);
            }
            // the forward run claimed this seat, so it exists
            assert(has_seat(pj.store.seats, fid, s) || !has_seat(base.seats, fid, s)) by {
                if has_seat(base.seats, fid, s) {
                    let w = seat_idx(base.seats, fid, s);
                    assert(0 <= w < base.seats.len() && seat_matches(base.seats[w], fid, s));
                    assert(pj.store.seats[w].flight_id == fid && pj.store.seats[w].seat_number
                        == s) by {
                        if leg_claims_seat(base, tj, pj.legs, base.seats[w]) {
                            assert(pj.store.seats[w] == claimed_seat(base.seats[w]));
                        }
                    }
                }
            }
            if has_seat(base.seats, fid, s) {
                assert(0 <= sk < base.seats.len() && seat_matches(base.seats[sk], fid, s));
                assert(leg_claims_seat(base, tj, pj.legs, base.seats[sk]));
                assert(pj.store.seats[sk] == claimed_seat(base.seats[sk]) && base.seats[sk].status
                    is Available);
                assert(cur.seats[sk] == pj.store.seats[sk]);
                assert(has_seat(cur.seats, fid, s));
                lemma_seat_idx_unique(cur.seats, fid, s, sk);
                assert(free_seat_fits(cur.seats, fid, s));
                assert(cur2.seats =~= free_seat_spec(cur.seats, fid, s));
                // one leg back, the seat is unclaimed
                assert(!leg_claims_seat(base, tj1, q.legs, base.seats[sk])) by {
                    if leg_claims_seat(base, tj1, q.legs, base.seats[sk]) {
                        let l = choose|l: int|
                            0 <= l < q.legs.len() && q.legs[l].seat is Some && leg_fid(base, tj1[l])
                                == base.seats[sk].flight_id && q.legs[l].seat->0
                                == base.seats[sk].seat_number;
                        assert(pj.legs[l] == q.legs[l]);
                        assert(leg_fid(base, tj[l]) == fid);
                        assert(leg_touches_flight(base, tj1, q.legs, fid));
                    }
                }
                assert(q.store.seats[sk] == base.seats[sk]);
            } else {
                // no such seat row anywhere: nothing to free
                assert(!has_seat(cur.seats, fid, s)) by {
                    if has_seat(cur.seats, fid, s) {
                        let w = seat_idx(cur.seats, fid, s);
                        assert(seat_matches(base.seats[w], fid, s));
                    }
                }
                assert(cur2.seats == cur.seats);
            }
        },
    }
    assert(release_ticket_fits(cur, g.ticket_id));
    // reassemble the compensation relation one leg back
    assert forall|i: int|
        #![trigger cur2.flights[i]]
        0 <= i < base.flights.len() implies cur2.flights[i].flight_id == base.flights[i].flight_id
        && cur2.flights[i].flight_number == base.flights[i].flight_number
        && cur2.flights[i].flight_date == base.flights[i].flight_date && (if q.store.flights[i].version
        != base.flights[i].version {
        cur2.flights[i] == q.store.flights[i]
    } else {
        cur2.flights[i].available_tickets == base.flights[i].available_tickets
            && base.flights[i].version <= cur2.flights[i].version <= base.flights[i].version + 2
    }) by {
        if i == kq {
            assert(cur2.flights[i] == released_flight(cur.flights[i]));
            assert(q.store.flights[i].version == base.flights[i].version);
            assert(cur2.flights[i].available_tickets == base.flights[i].available_tickets);
            assert(cur2.flights[i].version == base.flights[i].version + 2);
        } else {
            assert(cur2.flights[i] == cur.flights[i]);
            if q.store.flights[i].version != base.flights[i].version {
                // the row belongs to a still-pending leg: both runs agree
                assert(leg_touches_flight(base, tj1, q.legs, base.flights[i].flight_id)) by {
                    if !leg_touches_flight(base, tj1, q.legs, base.flights[i].flight_id) {
                        assert(q.store.flights[i] == base.flights[i]);
                    }
                }
                let l = choose|l: int|
                    0 <= l < q.legs.len() && leg_fid(base, tj1[l]) == base.flights[i].flight_id;
                assert(pj.legs[l] == q.legs[l]);
                assert(leg_fid(base, tj[l]) == base.flights[i].flight_id);
                assert(leg_touches_flight(base, tj, pj.legs, base.flights[i].flight_id));
                assert(pj.store.flights[i] == claimed_flight(base.flights[i]));
                assert(q.store.flights[i] == claimed_flight(base.flights[i]));
                assert(pj.store.flights[i].version != base.flights[i].version);
                assert(cur.flights[i] == pj.store.flights[i]);
            } else {
                // untouched or already released: carried by the old relation
                if pj.store.flights[i].version != base.flights[i].version {
                    // the forward run touched it, so some leg of tj claims it;
                    // that leg must be the last one, contradicting i != kq
                    assert(leg_touches_flight(base, tj, pj.legs, base.flights[i].flight_id)) by {
                        if !leg_touches_flight(base, tj, pj.legs, base.flights[i].flight_id) {
                            assert(pj.store.flights[i] == base.flights[i]);
                        }
                    }
                    let l = choose|l: int|
                        0 <= l < pj.legs.len() && leg_fid(base, tj[l]) == base.flights[i].flight_id;
                    if l < j - 1 {
                        assert(q.legs[l] == pj.legs[l]);
                        assert(leg_fid(base, tj1[l]) == base.flights[i].flight_id);
                        assert(leg_touches_flight(base, tj1, q.legs, base.flights[i].flight_id));
                        assert(q.store.flights[i] == claimed_flight(base.flights[i]));
                    } else {
                        assert(leg_fid(base, tj[l]) == fid);
                        assert(base.flights[i].flight_id == fid);
                        if i != kq {
                            assert(base.flights[i].flight_id != base.flights[kq].flight_id);
                        }
                    }
                }
                assert(pj.store.flights[i].version == base.flights[i].version);
                assert(cur.flights[i].available_tickets == base.flights[i].available_tickets);
            }
        }
    }
    assert forall|i: int|
        #![trigger cur2.seats[i]]
        0 <= i < base.seats.len() implies cur2.seats[i].flight_id == base.seats[i].flight_id
        && cur2.seats[i].seat_number == base.seats[i].seat_number && (if q.store.seats[i].version
        != base.seats[i].version {
        cur2.seats[i] == q.store.seats[i]
    } else {
        cur2.seats[i].status == base.seats[i].status && base.seats[i].version
            <= cur2.seats[i].version <= base.seats[i].version + 2
    }) by {
        let freed = g.seat is Some && has_seat(base.seats, fid, g.seat->0) && i == seat_idx(
            base.seats,
            fid,
            g.seat->0,
        );
        if freed {
            assert(cur2.seats[i] == Seat {
                status: SeatStatus::Available,
                version: (cur.seats[i].version + 1) as u64,
                ..cur.seats[i]
            });
            assert(q.store.seats[i].version == base.seats[i].version);
            assert(cur2.seats[i].status == base.seats[i].status);
            assert(cur2.seats[i].version == base.seats[i].version + 2);
        } else {
            assert(cur2.seats[i] == cur.seats[i]);
            if q.store.seats[i].version != base.seats[i].version {
                assert(leg_claims_seat(base, tj1, q.legs, base.seats[i])) by {
                    if !leg_claims_seat(base, tj1, q.legs, base.seats[i]) {
                        assert(q.store.seats[i] == base.seats[i]);
                    }
                }
                let l = choose|l: int|
                    0 <= l < q.legs.len() && q.legs[l].seat is Some && leg_fid(base, tj1[l])
                        == base.seats[i].flight_id && q.legs[l].seat->0
                        == base.seats[i].seat_number;
                assert(pj.legs[l] == q.legs[l]);
                assert(leg_fid(base, tj[l]) == base.seats[i].flight_id);
                assert(leg_claims_seat(base, tj, pj.legs, base.seats[i]));
                assert(q.store.seats[i] == claimed_seat(base.seats[i]));
                assert(pj.store.seats[i] == claimed_seat(base.seats[i]));
                assert(cur.seats[i] == pj.store.seats[i]);
            } else {
                if pj.store.seats[i].version != base.seats[i].version {
                    assert(leg_claims_seat(base, tj, pj.legs, base.seats[i])) by {
                        if !leg_claims_seat(base, tj, pj.legs, base.seats[i]) {
                            assert(pj.store.seats[i] == base.seats[i]);
                        }
                    }
                    let l = choose|l: int|
                        0 <= l < pj.legs.len() && pj.legs[l].seat is Some && leg_fid(base, tj[l])
                            == base.seats[i].flight_id && pj.legs[l].seat->0
                            == base.seats[i].seat_number;
                    if l < j - 1 {
                        assert(q.legs[l] == pj.legs[l]);
                        assert(leg_fid(base, tj1[l]) == base.seats[i].flight_id);
                        assert(leg_claims_seat(base, tj1, q.legs, base.seats[i]));
                        assert(q.store.seats[i] == claimed_seat(base.seats[i]));
                    } else {
                        // the last leg's seat: that is the freed row
                        assert(pj.legs[l] == g && g.seat is Some);
                        assert(base.seats[i].flight_id == fid && base.seats[i].seat_number
                            == g.seat->0);
                        assert(has_seat(base.seats, fid, g.seat->0));
                        lemma_seat_idx_unique(base.seats, fid, g.seat->0, i);
                        assert(freed);
                    }
                }
                assert(pj.store.seats[i].version == base.seats[i].version);
                assert(cur.seats[i].status == base.seats[i].status);
            }
        }
    }
    assert(cur2.routes == base.routes && cur2.next_ticket_id >= base.next_ticket_id);
    assert(compensated(base, q.store, cur2));
}

/// Whether every leg that asked for a seat got exactly that seat.
pub open spec fn all_preferred_granted(
    reqs: Seq<FlightBookingRequest>,
    legs: Seq<LegGrant>,
) -> bool {
    forall|l: int| 0 <= l < legs.len() ==> (#[trigger] legs[l]).seat == reqs[l].preferred_seat
}

/// The aggregate error a failed multi-leg booking surfaces, wrapping the
/// failing leg's own rendering.
pub open spec fn spec_book_fail_msg(o: AcquireOutcome, number: i32, date: Date) -> Seq<char> {
    "Failed to book some of your flights, please try again: "@ + (match o {
        AcquireOutcome::NoSuchFlight => "Not found: "@ + spec_no_flight_msg(number, date),
        AcquireOutcome::AlreadyBooked => "Validation error: "@ + "Cannot re-book the same flight"@,
        AcquireOutcome::SoldOut => "Validation error: "@ + "This flight is fully booked."@,
        AcquireOutcome::Booked(_) => Seq::empty(),
    })
}

impl TicketService {
    /// Books every requested leg in order, or none of them.
    ///
    /// Legs are ticketed one by one; preferred seats are best-effort and a
    /// missed seat only softens the confirmation message. If any leg's
    /// ticket acquisition fails, every leg already booked in this request
    /// is compensated in reverse order - quota returned, ticket deleted,
    /// seat freed - and the caller gets a single aggregate error, so a
    /// multi-leg booking either fully succeeds or fully rolls back (the
    /// version counters alone keep advancing, as every gated write moves
    /// them forward).
    #[verifier::rlimit(100)]
    pub fn book_ticket(
        &self,
        store: &mut InventoryStore,
        user_id: i32,
        request: TicketBookingRequest,
    ) -> (r: Result<TicketBookingResponse, AppError>)
        requires
            old(store)@.wf(),
            book_fits(old(store)@, request.flights@.len() as int),
        ensures
            final(store)@.wf(),
            ({
                let reqs = request.flights@;
                let p = spec_book_legs(old(store)@, user_id, reqs);
                match p.failure {
                    None => r matches Ok(resp) && final(store)@ =~= p.store
                        && resp.flight_bookings@.len() == p.legs.len() && (forall|l: int|
                        0 <= l < p.legs.len()
                            ==> (#[trigger] resp.flight_bookings@[l]).ticket_id
                            == p.legs[l].ticket_id && resp.flight_bookings@[l].seat_number
                            == p.legs[l].seat && resp.flight_bookings@[l].flight_details@
                            == spec_flight_details(reqs[l].flight_number, reqs[l].flight_date))
                        && resp.booking_status@ == (if all_preferred_granted(reqs, p.legs) {
                        "Confirmed"@
                    } else {
                        "Confirmed booking, however the preferred seat is currently unavaiable, please try again later."@
                    }),
                    Some(fi) => r matches Err(e) && e matches AppError::ValidationError(msg)
                        && msg@ == spec_book_fail_msg(
                        fi.outcome,
                        reqs[fi.at].flight_number,
                        reqs[fi.at].flight_date,
                    ) && restores_inventory(old(store)@, final(store)@),
                }
            }),
    {
        let ghost m0 = store@;
        let ghost reqs = request.flights@;
        let mut flight_booking_results: Vec<FlightBookingResponse> = Vec::new();
        let mut fail_to_choose_seat = false;
        let mut i: usize = 0;
        proof {
            assert(reqs.take(0) =~= Seq::<FlightBookingRequest>::empty());
        }
        while i < request.flights.len()
            invariant
                m0 == old(store)@,
                reqs == request.flights@,
                i <= reqs.len(),
                flight_booking_results@.len() == i as int,
                ({
                    let p = spec_book_legs(m0, user_id, reqs.take(i as int));
                    &&& p.failure is None
                    &&& store@ == p.store
                    &&& p.legs.len() == i as int
                    &&& forall|l: int|
                        0 <= l < i as int ==> (#[trigger] flight_booking_results@[l]).ticket_id
                            == p.legs[l].ticket_id && flight_booking_results@[l].seat_number
                            == p.legs[l].seat && flight_booking_results@[l].flight_details@
                            == spec_flight_details(reqs[l].flight_number, reqs[l].flight_date)
                    &&& fail_to_choose_seat == !all_preferred_granted(reqs.take(i as int), p.legs)
                }),
            decreases reqs.len() - i,
        {
            let ghost ti = i as int;
            let ghost p = spec_book_legs(m0, user_id, reqs.take(ti));
            proof {
                lemma_book_legs_props(m0, user_id, reqs.take(ti));
                assert(store@.wf());
                assert(acquire_fits(store@)) by {
                    assert forall|x: int|
                        0 <= x < store@.flights.len() implies (
                    #[trigger] store@.flights[x]).version < u64::MAX by {
                        assert(p.store.flights[x] == store@.flights[x]);
                        if leg_touches_flight(m0, reqs.take(ti), p.legs, m0.flights[x].flight_id) {
                            assert(p.store.flights[x] == claimed_flight(m0.flights[x]));
                        }
                    }
                }
                assert(seat_versions_fit(store@)) by {
                    assert forall|x: int|
                        0 <= x < store@.seats.len() implies (#[trigger] store@.seats[x]).version
                        < u64::MAX by {
                        assert(p.store.seats[x] == store@.seats[x]);
                        if leg_claims_seat(m0, reqs.take(ti), p.legs, m0.seats[x]) {
                            assert(p.store.seats[x] == claimed_seat(m0.seats[x]));
                        }
                    }
                }
            }
            let leg = request.flights[i];
            let leg_result = self.book_ticket_for_flight(store, user_id, leg);
            proof {
                assert(reqs.take(ti + 1).drop_last() =~= reqs.take(ti));
                assert(reqs.take(ti + 1).last() == reqs[ti]);
            }
            match leg_result {
                Ok(booked) => {
                    let has_preferred = leg.preferred_seat.is_some();
                    if has_preferred && booked.seat_number.is_none() {
                        fail_to_choose_seat = true;
                    }
                    flight_booking_results.push(booked);
                    proof {
                        let p2 = spec_book_legs(m0, user_id, reqs.take(ti + 1));
                        assert(p2.failure is None && store@ == p2.store && p2.legs.len() == ti
                            + 1);
                        assert(p2.legs[ti].seat == booked.seat_number);
                        assert forall|l: int|
                            0 <= l < ti + 1 implies (
                        #[trigger] flight_booking_results@[l]).ticket_id == p2.legs[l].ticket_id
                            && flight_booking_results@[l].seat_number == p2.legs[l].seat
                            && flight_booking_results@[l].flight_details@ == spec_flight_details(
                            reqs[l].flight_number,
                            reqs[l].flight_date,
                        ) by {
                            if l < ti {
                                assert(p2.legs[l] == p.legs[l]);
                                assert(reqs.take(ti)[l] == reqs[l]);
                            }
                        }
                        // the confirmation flag tracks exactly whether some
                        // preferred seat was missed
                        assert(fail_to_choose_seat == !all_preferred_granted(
                            reqs.take(ti + 1),
                            p2.legs,
                        )) by {
                            if fail_to_choose_seat {
                                if has_preferred && booked.seat_number is None {
                                    assert(p2.legs[ti].seat != reqs.take(ti + 1)[ti].preferred_seat);
                                } else {
                                    assert(!all_preferred_granted(reqs.take(ti), p.legs));
                                    let l = choose|l: int|
                                        0 <= l < p.legs.len() && (#[trigger] p.legs[l]).seat
                                            != reqs.take(ti)[l].preferred_seat;
                                    assert(p2.legs[l] == p.legs[l]);
                                    assert(reqs.take(ti + 1)[l] == reqs.take(ti)[l]);
                                    assert(p2.legs[l].seat != reqs.take(ti + 1)[l].preferred_seat);
                                }
                                assert(!all_preferred_granted(reqs.take(ti + 1), p2.legs));
                            } else {
                                assert forall|l: int|
                                    0 <= l < p2.legs.len() implies (#[trigger] p2.legs[l]).seat
                                    == reqs.take(ti + 1)[l].preferred_seat by {
                                    if l < ti {
                                        assert(p2.legs[l] == p.legs[l]);
                                        assert(reqs.take(ti)[l] == reqs[l]);
                                        assert(p.legs[l].seat == reqs.take(ti)[l].preferred_seat);
                                    } else {
                                        // this leg either had no preference or got it
                                        assert(p2.legs[ti].seat == booked.seat_number);
                                    }
                                }
                            }
                        }
                    }
                    i = i + 1;
                },
                Err(leg_error) => {
                    let ghost k = ti;
                    let ghost pk = p;
                    let ghost p_fail = spec_book_legs(m0, user_id, reqs.take(ti + 1));
                    proof {
                        assert(p_fail.failure matches Some(fi) && fi.at == ti && p_fail.legs
                            == pk.legs);
                        assert(p_fail.store == pk.store);
                        lemma_book_legs_fail_persists(m0, user_id, reqs, ti + 1);
                        lemma_book_legs_props(m0, user_id, reqs.take(k));
                        // entering compensation: nothing undone yet
                        assert(compensated(m0, pk.store, store@)) by {
                            assert forall|x: int|
                                #![trigger store@.flights[x]]
                                0 <= x < m0.flights.len() implies store@.flights[x].flight_id
                                == m0.flights[x].flight_id && store@.flights[x].flight_number
                                == m0.flights[x].flight_number && store@.flights[x].flight_date
                                == m0.flights[x].flight_date && (
                            if pk.store.flights[x].version != m0.flights[x].version {
                                store@.flights[x] == pk.store.flights[x]
                            } else {
                                store@.flights[x].available_tickets
                                    == m0.flights[x].available_tickets && m0.flights[x].version
                                    <= store@.flights[x].version <= m0.flights[x].version + 2
                            }) by {
                                assert(store@.flights[x] == pk.store.flights[x]);
                                if leg_touches_flight(
                                    m0,
                                    reqs.take(k),
                                    pk.legs,
                                    m0.flights[x].flight_id,
                                ) {
                                    assert(pk.store.flights[x] == claimed_flight(m0.flights[x]));
                                } else {
                                    assert(pk.store.flights[x] == m0.flights[x]);
                                }
                            }
                            assert forall|x: int|
                                #![trigger store@.seats[x]]
                                0 <= x < m0.seats.len() implies store@.seats[x].flight_id
                                == m0.seats[x].flight_id && store@.seats[x].seat_number
                                == m0.seats[x].seat_number && (
                            if pk.store.seats[x].version != m0.seats[x].version {
                                store@.seats[x] == pk.store.seats[x]
                            } else {
                                store@.seats[x].status == m0.seats[x].status && m0.seats[x].version
                                    <= store@.seats[x].version <= m0.seats[x].version + 2
                            }) by {
                                assert(store@.seats[x] == pk.store.seats[x]);
                                if leg_claims_seat(m0, reqs.take(k), pk.legs, m0.seats[x]) {
                                    assert(pk.store.seats[x] == claimed_seat(m0.seats[x]));
                                } else {
                                    assert(pk.store.seats[x] == m0.seats[x]);
                                }
                            }
                        }
                    }
                    // undo the already-booked legs, newest first
                    let mut j: usize = flight_booking_results.len();
                    while j > 0
                        invariant
                            m0 == old(store)@,
                            reqs == request.flights@,
                            j <= k,
                            k <= reqs.len(),
                            flight_booking_results@.len() == k,
                            pk == spec_book_legs(m0, user_id, reqs.take(k)),
                            pk.failure is None,
                            m0.wf(),
                            book_fits(m0, reqs.len() as int),
                            forall|l: int|
                                0 <= l < k ==> (#[trigger] flight_booking_results@[l]).ticket_id
                                    == pk.legs[l].ticket_id,
                            ({
                                let pj = spec_book_legs(m0, user_id, reqs.take(j as int));
                                &&& pj.failure is None
                                &&& compensated(m0, pj.store, store@)
                                &&& store@.wf()
                            }),
                        decreases j,
                    {
                        j = j - 1;
                        proof {
                            lemma_book_legs_prefix(m0, user_id, reqs, j as int + 1, k);
                            lemma_book_legs_props(m0, user_id, reqs.take(j as int + 1));
                            lemma_release_undoes_leg(m0, user_id, reqs, j as int + 1, store@);
                            let pj1 = spec_book_legs(m0, user_id, reqs.take(j as int + 1));
                            assert(pj1.legs =~= pk.legs.take(j as int + 1));
                            assert(pj1.legs.last() == pk.legs[j as int]);
                            assert(flight_booking_results@[j as int].ticket_id
                                == pj1.legs.last().ticket_id);
                        }
                        let tid = flight_booking_results[j].ticket_id;
                        let release_result = self.release_ticket(store, tid);
                        proof {
                            assert(release_result is Ok);
                        }
                    }
                    proof {
                        assert(reqs.take(0) =~= Seq::<FlightBookingRequest>::empty());
                        let p0 = spec_book_legs(m0, user_id, reqs.take(0));
                        assert(p0.store == m0);
                        // full rollback: the compensation relation against the
                        // untouched forward state is exactly restoration
                        assert(restores_inventory(m0, store@)) by {
                            assert forall|x: int|
                                #![trigger store@.flights[x]]
                                0 <= x < m0.flights.len() implies store@.flights[x].flight_id
                                == m0.flights[x].flight_id && store@.flights[x].flight_number
                                == m0.flights[x].flight_number && store@.flights[x].flight_date
                                == m0.flights[x].flight_date && store@.flights[x].available_tickets
                                == m0.flights[x].available_tickets && m0.flights[x].version
                                <= store@.flights[x].version <= m0.flights[x].version + 2 by {
                                assert(p0.store.flights[x] == m0.flights[x]);
                            }
                            assert forall|x: int|
                                #![trigger store@.seats[x]]
                                0 <= x < m0.seats.len() implies store@.seats[x].flight_id
                                == m0.seats[x].flight_id && store@.seats[x].seat_number
                                == m0.seats[x].seat_number && store@.seats[x].status
                                == m0.seats[x].status && m0.seats[x].version
                                <= store@.seats[x].version <= m0.seats[x].version + 2 by {
                                assert(p0.store.seats[x] == m0.seats[x]);
                            }
                        }
                    }
                    let mut msg: String =
                        "Failed to book some of your flights, please try again: ".to_owned();
                    let rendered = leg_error.display_string();
                    msg.append(rendered.as_str());
                    proof {
                        let pfull = spec_book_legs(m0, user_id, reqs);
                        assert(pfull == p_fail);
                        assert(msg@ =~= spec_book_fail_msg(
                            pfull.failure->0.outcome,
                            reqs[pfull.failure->0.at].flight_number,
                            reqs[pfull.failure->0.at].flight_date,
                        ));
                    }
                    return Err(AppError::ValidationError(msg));
                },
            }
        }
        proof {
            assert(reqs.take(reqs.len() as int) =~= reqs);
            lemma_book_legs_props(m0, user_id, reqs);
        }
        let booking_status: String = if !fail_to_choose_seat {
            "Confirmed".to_owned()
        } else {
            "Confirmed booking, however the preferred seat is currently unavaiable, please try again later.".to_owned()
        };
        Ok(TicketBookingResponse { flight_bookings: flight_booking_results, booking_status })
    }
}

} // verus!
