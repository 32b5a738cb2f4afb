//! The allocation guarantees, proved once and for all over the engine's
//! transitions.
//!
//! The store's version-gated update is the single serialization point, so
//! any set of concurrent attempts is equivalent to some sequential order of
//! the transitions below; the lemmas here quantify over that order.

use vstd::prelude::*;

use crate::dates::Date;
use crate::store::{
    customer_ticket_idx, flight_idx, flight_matches, has_customer_ticket, has_customer_ticket_nd,
    has_flight, has_seat, has_ticket_id, lemma_flight_idx_unique, lemma_seat_idx_unique, seat_idx,
    seat_matches, StoreModel,
};
use crate::seat_allocation::{lemma_assign_wf, spec_assign, AssignOutcome};
use crate::ticket_service::{
    lemma_acquire_wf, spec_acquire, spec_release, AcquireOutcome, ReleaseOutcome,
};

verus! {

/// A run of single-quota acquisitions for the same dated flight, one per
/// customer, in the order the store serialized them.
pub open spec fn acquire_all(m: StoreModel, customers: Seq<i32>, number: i32, date: Date) -> (
    StoreModel,
    Seq<AcquireOutcome>,
)
    decreases customers.len(),
{
    if customers.len() == 0 {
        (m, Seq::empty())
    } else {
        let (m1, os) = acquire_all(m, customers.drop_last(), number, date);
        let (m2, o) = spec_acquire(m1, customers.last(), number, date);
        (m2, os.push(o))
    }
}

/// A run of assignments of one seat, one attempt per customer with no
/// previous seat, in the order the store serialized them.
pub open spec fn assign_all(m: StoreModel, customers: Seq<i32>, flight_id: i32, seat: i32) -> (
    StoreModel,
    Seq<AssignOutcome>,
)
    decreases customers.len(),
{
    if customers.len() == 0 {
        (m, Seq::empty())
    } else {
        let (m1, os) = assign_all(m, customers.drop_last(), flight_id, seat);
        let (m2, o) = spec_assign(m1, customers.last(), flight_id, seat, None);
        (m2, os.push(o))
    }
}

/// No oversell: however many acquisitions contend for a flight with quota
/// `Q`, exactly the first `Q` of the serialized order succeed and the rest
/// are turned away sold out; the quota ends at zero (or `Q - n` when fewer
/// came), the version advances once per success, and no other flight or
/// any seat is touched.
pub proof fn lemma_no_oversell(m: StoreModel, customers: Seq<i32>, number: i32, date: Date)
    requires
        m.wf(),
        has_flight(m.flights, number, date),
        forall|i: int, j: int|
            #![trigger customers[i], customers[j]]
            0 <= i < j < customers.len() ==> customers[i] != customers[j],
        forall|i: int|
            0 <= i < customers.len() ==> !has_customer_ticket_nd(
                m.tickets,
                #[trigger] customers[i],
                number,
                date,
            ),
        i32::MIN <= m.next_ticket_id,
        m.next_ticket_id + customers.len() <= i32::MAX,
        m.flights[flight_idx(m.flights, number, date)].version + customers.len() <= u64::MAX,
    ensures
        ({
            let k = flight_idx(m.flights, number, date);
            let q = m.flights[k].available_tickets as int;
            let n = customers.len() as int;
            let (mf, os) = acquire_all(m, customers, number, date);
            &&& os.len() == n
            &&& forall|i: int| 0 <= i < n ==> ((#[trigger] os[i]) is Booked <==> i < q)
            &&& forall|i: int| 0 <= i < n ==> (os[i] is Booked || #[trigger] os[i] is SoldOut)
            &&& mf.flights.len() == m.flights.len()
            &&& mf.flights[k].flight_id == m.flights[k].flight_id
            &&& mf.flights[k].flight_number == number
            &&& mf.flights[k].flight_date == date
            &&& mf.flights[k].available_tickets == if n <= q {
                q - n
            } else {
                0
            }
            &&& mf.flights[k].version == m.flights[k].version + (if n <= q {
                n
            } else {
                q
            })
            &&& forall|x: int|
                0 <= x < m.flights.len() && x != k ==> #[trigger] mf.flights[x] == m.flights[x]
            &&& mf.seats == m.seats
            &&& m.next_ticket_id <= mf.next_ticket_id <= m.next_ticket_id + n
            &&& mf.wf()
        }),
    decreases customers.len(),
{
    let k = flight_idx(m.flights, number, date);
    let q = m.flights[k].available_tickets as int;
    let n = customers.len() as int;
    assert(0 <= k < m.flights.len() && flight_matches(m.flights[k], number, date));
    if n == 0 {
    } else {
        let head = customers.drop_last();
        lemma_no_oversell(m, head, number, date);
        let (m1, os1) = acquire_all(m, head, number, date);
        let c = customers.last();
        assert(forall|i: int| 0 <= i < head.len() ==> #[trigger] head[i] == customers[i]);
        // the flight row keeps its identity through the run
        assert(flight_matches(m1.flights[k], number, date));
        lemma_flight_idx_unique(m1.flights, number, date, k);
        // the last customer still holds no ticket: the run only inserted
        // tickets for the other, distinct customers
        assert(!has_customer_ticket_nd(m1.tickets, c, number, date)) by {
            lemma_acquire_all_tickets(m, head, number, date, c);
        }
        let (m2, o) = spec_acquire(m1, c, number, date);
        lemma_acquire_wf(m1, c, number, date);
        if m1.flights[k].available_tickets == 0 {
            assert(o is SoldOut && m2 == m1);
        } else {
            assert(o is Booked);
        }
        assert forall|i: int| 0 <= i < n implies ((#[trigger] acquire_all(
            m,
            customers,
            number,
            date,
        ).1[i]) is Booked <==> i < q) by {
            if i < n - 1 {
                assert(acquire_all(m, customers, number, date).1[i] == os1[i]);
            }
        }
    }
}

/// The serialized acquisitions insert tickets only for the customers in
/// the run, so an outsider's rebooking check still comes up empty.
proof fn lemma_acquire_all_tickets(
    m: StoreModel,
    customers: Seq<i32>,
    number: i32,
    date: Date,
    outsider: i32,
)
    requires
        m.wf(),
        !has_customer_ticket_nd(m.tickets, outsider, number, date),
        forall|i: int| 0 <= i < customers.len() ==> #[trigger] customers[i] != outsider,
        i32::MIN <= m.next_ticket_id,
        m.next_ticket_id + customers.len() <= i32::MAX,
    ensures
        !has_customer_ticket_nd(acquire_all(m, customers, number, date).0.tickets, outsider, number, date),
    decreases customers.len(),
{
    if customers.len() > 0 {
        let head = customers.drop_last();
        assert(forall|i: int| 0 <= i < head.len() ==> #[trigger] head[i] == customers[i]);
        lemma_acquire_all_tickets(m, head, number, date, outsider);
        let (m1, _) = acquire_all(m, head, number, date);
        let c = customers.last();
        let (m2, o) = spec_acquire(m1, c, number, date);
        if o is Booked {
            assert forall|i: int|
                0 <= i < m2.tickets.len() implies !((#[trigger] m2.tickets[i]).customer_id
                == outsider && m2.tickets[i].flight_number == number && m2.tickets[i].flight_date
                == date) by {
                if i < m1.tickets.len() {
                    assert(m2.tickets[i] == m1.tickets[i]);
                    assert(!has_customer_ticket_nd(m1.tickets, outsider, number, date));
                } else {
                    assert(m2.tickets[i].customer_id == c);
                }
            }
        }
    }
}

/// No double seat: under any number of contending assignments of one
/// available seat, exactly the first of the serialized order succeeds;
/// the seat ends booked with its version advanced once, the winner's
/// ticket - and only theirs - references it, and no other seat moves.
pub proof fn lemma_no_double_seat(m: StoreModel, customers: Seq<i32>, flight_id: i32, seat: i32)
    requires
        m.wf(),
        customers.len() > 0,
        has_seat(m.seats, flight_id, seat),
        m.seats[seat_idx(m.seats, flight_id, seat)].status is Available,
        m.seats[seat_idx(m.seats, flight_id, seat)].version < u64::MAX,
    ensures
        ({
            let sk = seat_idx(m.seats, flight_id, seat);
            let (mf, os) = assign_all(m, customers, flight_id, seat);
            &&& os.len() == customers.len()
            &&& forall|i: int| 0 <= i < os.len() ==> ((#[trigger] os[i]) is Assigned <==> i == 0)
            &&& mf.flights == m.flights
            &&& mf.seats.len() == m.seats.len()
            &&& mf.seats[sk].flight_id == flight_id
            &&& mf.seats[sk].seat_number == seat
            &&& forall|x: int|
                0 <= x < m.seats.len() && x != sk ==> #[trigger] mf.seats[x] == m.seats[x]
            &&& mf.seats[sk].status is Booked
            &&& mf.seats[sk].version == m.seats[sk].version + 1
            &&& mf.wf()
            &&& has_customer_ticket(m.tickets, customers[0], flight_id)
                ==> mf.tickets[customer_ticket_idx(m.tickets, customers[0], flight_id)].seat_number
                == Some(seat)
            &&& forall|i: int, j: int|
                #![trigger mf.tickets[i], mf.tickets[j]]
                0 <= i < j < mf.tickets.len() ==> !(mf.tickets[i].seat_number == Some(seat)
                    && mf.tickets[j].seat_number == Some(seat) && mf.tickets[i].flight_id
                    == flight_id && mf.tickets[j].flight_id == flight_id)
        }),
    decreases customers.len(),
{
    let sk = seat_idx(m.seats, flight_id, seat);
    assert(0 <= sk < m.seats.len() && seat_matches(m.seats[sk], flight_id, seat));
    let n = customers.len() as int;
    if n == 1 {
        let (m2, o) = spec_assign(m, customers.last(), flight_id, seat, None);
        lemma_assign_wf(m, customers.last(), flight_id, seat, None);
        assert(customers.drop_last().len() == 0);
        assert(assign_all(m, customers.drop_last(), flight_id, seat).0 == m);
        assert(o is Assigned);
        assert(m2.seats[sk].status is Booked && m2.seats[sk].version == m.seats[sk].version + 1);
    } else {
        let head = customers.drop_last();
        lemma_no_double_seat(m, head, flight_id, seat);
        let (m1, os1) = assign_all(m, head, flight_id, seat);
        let c = customers.last();
        assert(head[0] == customers[0]);
        // the seat is already booked, so this attempt is rejected
        assert(seat_matches(m1.seats[sk], flight_id, seat));
        lemma_seat_idx_unique(m1.seats, flight_id, seat, sk);
        let (m2, o) = spec_assign(m1, c, flight_id, seat, None);
        assert(o is SeatUnavailable && m2 == m1);
        assert forall|i: int| 0 <= i < n implies ((#[trigger] assign_all(
            m,
            customers,
            flight_id,
            seat,
        ).1[i]) is Assigned <==> i == 0) by {
            if i < n - 1 {
                assert(assign_all(m, customers, flight_id, seat).1[i] == os1[i]);
            }
        }
    }
}

/// Idempotent release: releasing a ticket a second time finds nothing,
/// reports so, and leaves the store - the quota in particular - exactly as
/// the first release left it.
pub proof fn lemma_release_idempotent(m: StoreModel, ticket_id: i32)
    requires
        m.wf(),
    ensures
        ({
            let (m1, o1) = spec_release(m, ticket_id);
            o1 is Released ==> spec_release(m1, ticket_id) == (m1, ReleaseOutcome::NoTicket)
        }),
{
    let (m1, o1) = spec_release(m, ticket_id);
    if o1 is Released {
        assert(!has_ticket_id(m1.tickets, ticket_id)) by {
            if has_ticket_id(m1.tickets, ticket_id) {
                let w = choose|w: int|
                    0 <= w < m1.tickets.len() && m1.tickets[w].id == ticket_id;
                let k = crate::store::ticket_id_idx(m.tickets, ticket_id);
                let ow = if w < k {
                    w
                } else {
                    w + 1
                };
                assert(m1.tickets[w] == m.tickets[ow]);
                assert(m.tickets[k].id == ticket_id && ow != k);
            }
        }
    }
}

/// Rebooking rejection: a customer who already holds a ticket for the
/// dated flight is turned away before any quota mutation, with the store
/// untouched.
pub proof fn lemma_rebooking_rejected(m: StoreModel, customer: i32, number: i32, date: Date)
    requires
        m.wf(),
        has_customer_ticket_nd(m.tickets, customer, number, date),
    ensures
        spec_acquire(m, customer, number, date) == (m, AcquireOutcome::AlreadyBooked),
{
    // the ticket's denormalized fields point at a real flight row, so the
    // existence check cannot be the one that fires
    let w = choose|w: int|
        0 <= w < m.tickets.len() && m.tickets[w].customer_id == customer
            && m.tickets[w].flight_number == number && m.tickets[w].flight_date == date;
    assert(crate::store::ticket_flight_ok(m.flights, m.tickets[w]));
    let f = choose|f: int|
        0 <= f < m.flights.len() && m.flights[f].flight_id == m.tickets[w].flight_id
            && m.flights[f].flight_number == m.tickets[w].flight_number
            && m.flights[f].flight_date == m.tickets[w].flight_date;
    assert(flight_matches(m.flights[f], number, date));
    assert(has_flight(m.flights, number, date));
}

} // verus!

