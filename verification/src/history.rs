//! The history reader: a customer's past bookings, joined with their
//! flight and route rows and ordered by flight date, most recent first.

use vstd::prelude::*;

use crate::dates::date_le;
use crate::error::AppError;
use crate::models::{BookingHistoryDetail, BookingHistoryResponse, Ticket};
use crate::store::{
    has_route, lemma_route_idx_unique, route_idx, InventoryStore, StoreModel,
};
use crate::text::{i32_string, spec_idec};
use crate::ticket_service::TicketService;

verus! {

/// The tickets of `customer` that have a route row to join with, in store
/// order: what the history query selects before ordering.
pub open spec fn customer_tickets(m: StoreModel, customer: i32, ts: Seq<Ticket>) -> Seq<Ticket>
    decreases ts.len(),
{
    if ts.len() == 0 {
        Seq::empty()
    } else {
        let rest = customer_tickets(m, customer, ts.drop_last());
        if ts.last().customer_id == customer && has_route(m.routes, ts.last().flight_number) {
            rest.push(ts.last())
        } else {
            rest
        }
    }
}

/// Stable insertion of a ticket into a date-descending run: the ticket
/// lands after every ticket whose date is on or after its own.
pub open spec fn insert_desc(s: Seq<Ticket>, t: Ticket) -> Seq<Ticket>
    decreases s.len(),
{
    if s.len() == 0 {
        seq![t]
    } else if date_le(t.flight_date, s.last().flight_date) {
        s.push(t)
    } else {
        insert_desc(s.drop_last(), t).push(s.last())
    }
}

/// Stable sort by flight date, most recent first: how the history is
/// ordered.
pub open spec fn sort_desc(s: Seq<Ticket>) -> Seq<Ticket>
    decreases s.len(),
{
    if s.len() == 0 {
        Seq::empty()
    } else {
        insert_desc(sort_desc(s.drop_last()), s.last())
    }
}

/// One rendered history row agrees with its ticket and the joined rows.
pub open spec fn row_matches(m: StoreModel, t: Ticket, d: BookingHistoryDetail) -> bool {
    let r = m.routes[route_idx(m.routes, t.flight_number)];
    &&& d.flight_number == t.flight_number
    &&& d.flight_date == t.flight_date
    &&& d.seat_number@ == (match t.seat_number {
        Some(s) => spec_idec(s as int),
        None => "Not Selected"@,
    })
    &&& d.departure_city@ == r.departure_city@
    &&& d.destination_city@ == r.destination_city@
    &&& d.departure_time == r.departure_time
    &&& d.arrival_time == r.arrival_time
}

/// `insert_desc` is the split at the found insertion point.
proof fn lemma_insert_desc_split(s: Seq<Ticket>, t: Ticket, pos: int)
    requires
        0 <= pos <= s.len(),
        forall|x: int| pos <= x < s.len() ==> !date_le(t.flight_date, (#[trigger] s[x]).flight_date),
        pos > 0 ==> date_le(t.flight_date, s[pos - 1].flight_date),
    ensures
        insert_desc(s, t) =~= s.take(pos).push(t) + s.skip(pos),
    decreases s.len(),
{
    if pos == s.len() {
        if s.len() == 0 {
            assert(insert_desc(s, t) =~= s.take(pos).push(t) + s.skip(pos));
        } else {
            assert(insert_desc(s, t) == s.push(t));
            assert(s.take(pos) =~= s);
            assert(insert_desc(s, t) =~= s.take(pos).push(t) + s.skip(pos));
        }
    } else {
        assert(!date_le(t.flight_date, s.last().flight_date));
        lemma_insert_desc_split(s.drop_last(), t, pos);
        assert(s.drop_last().take(pos) =~= s.take(pos));
        assert(insert_desc(s, t) == insert_desc(s.drop_last(), t).push(s.last()));
        assert(insert_desc(s, t) =~= s.take(pos).push(t) + s.skip(pos));
    }
}

impl TicketService {
    /// The customer's booking history: every ticket they hold whose flight
    /// number has a route, joined with its flight and route rows, ordered
    /// by flight date with the most recent first (ties keep store order),
    /// the seat shown as its number or as `Not Selected`.
    pub fn get_history(&self, store: &InventoryStore, user_id: i32) -> (r: Result<
        BookingHistoryResponse,
        AppError,
    >)
        requires
            store@.wf(),
        ensures
            ({
                let sorted = sort_desc(customer_tickets(store@, user_id, store@.tickets));
                &&& r matches Ok(resp)
                &&& r matches Ok(resp) ==> resp.flights@.len() == sorted.len() && (forall|l: int|
                    0 <= l < sorted.len() ==> row_matches(
                        store@,
                        sorted[l],
                        #[trigger] resp.flights@[l],
                    ))
            }),
    {
        let ghost m = store@;
        // select the customer's tickets that join with a route
        let mut selected: Vec<Ticket> = Vec::new();
        let mut i: usize = 0;
        proof {
            assert(m.tickets.take(0) =~= Seq::<Ticket>::empty());
        }
        while i < store.tickets.len()
            invariant
                m == store@,
                store@.wf(),
                i <= m.tickets.len(),
                selected@ == customer_tickets(m, user_id, m.tickets.take(i as int)),
            decreases m.tickets.len() - i,
        {
            let t = store.tickets[i];
            proof {
                assert(m.tickets.take(i as int + 1).drop_last() =~= m.tickets.take(i as int));
                assert(m.tickets.take(i as int + 1).last() == m.tickets[i as int]);
            }
            if t.customer_id == user_id {
                if store.find_route(t.flight_number).is_some() {
                    selected.push(t);
                }
            }
            i = i + 1;
        }
        proof {
            assert(m.tickets.take(m.tickets.len() as int) =~= m.tickets);
            assert(forall|l: int|
                0 <= l < selected@.len() ==> has_route(
                    m.routes,
                    (#[trigger] selected@[l]).flight_number,
                )) by {
                lemma_customer_tickets_selected(m, user_id, m.tickets);
            }
        }
        // order by date, most recent first, keeping store order on ties
        let mut sorted: Vec<Ticket> = Vec::new();
        let mut i2: usize = 0;
        proof {
            assert(selected@.take(0) =~= Seq::<Ticket>::empty());
        }
        while i2 < selected.len()
            invariant
                m == store@,
                i2 <= selected@.len(),
                sorted@ == sort_desc(selected@.take(i2 as int)),
                forall|l: int|
                    0 <= l < selected@.len() ==> has_route(
                        m.routes,
                        (#[trigger] selected@[l]).flight_number,
                    ),
                forall|l: int|
                    0 <= l < sorted@.len() ==> has_route(
                        m.routes,
                        (#[trigger] sorted@[l]).flight_number,
                    ),
            decreases selected@.len() - i2,
        {
            let t = selected[i2];
            let ghost s0 = sorted@;
            // walk back over the strictly older entries
            let mut pos: usize = sorted.len();
            while pos > 0 && !t.flight_date.is_on_or_before(&sorted[pos - 1].flight_date)
                invariant
                    pos <= sorted@.len(),
                    sorted@ == s0,
                    forall|x: int|
                        pos <= x < sorted@.len() ==> !date_le(
                            t.flight_date,
                            (#[trigger] sorted@[x]).flight_date,
                        ),
                decreases pos,
            {
                pos = pos - 1;
            }
            proof {
                lemma_insert_desc_split(sorted@, t, pos as int);
                assert(selected@.take(i2 as int + 1).drop_last() =~= selected@.take(i2 as int));
                assert(selected@.take(i2 as int + 1).last() == selected@[i2 as int]);
            }
            sorted.insert(pos, t);
            proof {
                assert(sorted@ =~= s0.take(pos as int).push(t) + s0.skip(pos as int));
                assert forall|l: int|
                    0 <= l < sorted@.len() implies has_route(
                    m.routes,
                    (#[trigger] sorted@[l]).flight_number,
                ) by {
                    if l < pos as int {
                        assert(sorted@[l] == s0[l]);
                    } else if l == pos as int {
                        assert(sorted@[l] == t);
                    } else {
                        assert(sorted@[l] == s0[l - 1]);
                    }
                }
            }
            i2 = i2 + 1;
        }
        proof {
            assert(selected@.take(selected@.len() as int) =~= selected@);
        }
        // render the rows
        let mut rows: Vec<BookingHistoryDetail> = Vec::new();
        let mut i3: usize = 0;
        while i3 < sorted.len()
            invariant
                m == store@,
                store@.wf(),
                i3 <= sorted@.len(),
                rows@.len() == i3 as int,
                forall|l: int|
                    0 <= l < sorted@.len() ==> has_route(
                        m.routes,
                        (#[trigger] sorted@[l]).flight_number,
                    ),
                forall|l: int|
                    0 <= l < i3 as int ==> row_matches(m, sorted@[l], #[trigger] rows@[l]),
            decreases sorted@.len() - i3,
        {
            let t = sorted[i3];
            let ri = match store.find_route(t.flight_number) {
                Some(x) => x,
                None => {
                    // the selection kept only tickets whose route exists
                    proof {
                        assert(false);
                    }
                    return Err(AppError::NotFound("Route not found".to_owned()));
                },
            };
            proof {
                lemma_route_idx_unique(m.routes, t.flight_number, ri as int);
            }
            let route = &store.routes[ri];
            let seat_label: String = match t.seat_number {
                Some(s) => i32_string(s),
                None => "Not Selected".to_owned(),
            };
            rows.push(
                BookingHistoryDetail {
                    flight_number: t.flight_number,
                    seat_number: seat_label,
                    departure_city: route.departure_city.clone(),
                    destination_city: route.destination_city.clone(),
                    flight_date: t.flight_date,
                    departure_time: route.departure_time,
                    arrival_time: route.arrival_time,
                },
            );
            i3 = i3 + 1;
        }
        Ok(BookingHistoryResponse { flights: rows })
    }
}

/// Every selected ticket joins with a route: that is the selection rule.
proof fn lemma_customer_tickets_selected(m: StoreModel, customer: i32, ts: Seq<Ticket>)
    ensures
        forall|l: int|
            0 <= l < customer_tickets(m, customer, ts).len() ==> has_route(
                m.routes,
                (#[trigger] customer_tickets(m, customer, ts)[l]).flight_number,
            ) && customer_tickets(m, customer, ts)[l].customer_id == customer,
    decreases ts.len(),
{
    if ts.len() > 0 {
        lemma_customer_tickets_selected(m, customer, ts.drop_last());
    }
}

} // verus!
