//! Read-only flight queries: searching flights and listing available seats.

use vstd::prelude::*;

use crate::dates::{date_le, Date};
use crate::error::AppError;
use crate::models::{AvailableSeatsResponse, Flight, FlightDetail, FlightSearchQuery,
    FlightSearchResponse, Seat, SeatStatus};
use crate::store::{
    flight_idx, flight_matches, has_flight, has_route, lemma_flight_idx_unique,
    lemma_route_idx_unique, route_idx, InventoryStore, StoreModel,
};

verus! {

/// Whether flight row `f` answers the search `q`: joined with its route,
/// matching both cities, inside the requested date or date range, and with
/// quota left.
pub open spec fn search_matches(m: StoreModel, q: FlightSearchQuery, f: Flight) -> bool {
    &&& f.available_tickets > 0
    &&& has_route(m.routes, f.flight_number)
    &&& m.routes[route_idx(m.routes, f.flight_number)].departure_city@ == q.departure_city@
    &&& m.routes[route_idx(m.routes, f.flight_number)].destination_city@ == q.destination_city@
    &&& match q.end_date {
        None => f.flight_date == q.departure_date,
        Some(end) => date_le(q.departure_date, f.flight_date) && date_le(f.flight_date, end),
    }
}

/// The matching flights in store order: what the search returns.
pub open spec fn search_selected(m: StoreModel, q: FlightSearchQuery, fs: Seq<Flight>) -> Seq<
    Flight,
>
    decreases fs.len(),
{
    if fs.len() == 0 {
        Seq::empty()
    } else {
        let rest = search_selected(m, q, fs.drop_last());
        if search_matches(m, q, fs.last()) {
            rest.push(fs.last())
        } else {
            rest
        }
    }
}

/// One search result row agrees with its flight and the joined route.
pub open spec fn detail_matches(m: StoreModel, f: Flight, d: FlightDetail) -> bool {
    let r = m.routes[route_idx(m.routes, f.flight_number)];
    &&& d.flight_id == f.flight_id
    &&& d.flight_number == f.flight_number
    &&& d.departure_city@ == r.departure_city@
    &&& d.destination_city@ == r.destination_city@
    &&& d.departure_time == r.departure_time
    &&& d.arrival_time == r.arrival_time
    &&& d.available_tickets == f.available_tickets
    &&& d.flight_date == f.flight_date
}

/// The numbers of the still-available seats of flight row `fid`, in store
/// order.
pub open spec fn available_seat_numbers(ss: Seq<Seat>, fid: i32) -> Seq<i32>
    decreases ss.len(),
{
    if ss.len() == 0 {
        Seq::empty()
    } else {
        let rest = available_seat_numbers(ss.drop_last(), fid);
        if ss.last().flight_id == fid && ss.last().status is Available {
            rest.push(ss.last().seat_number)
        } else {
            rest
        }
    }
}

/// Read-only flight queries against the inventory store.
pub struct FlightService {}

impl FlightService {
    pub fn new() -> (r: FlightService)
    {
        FlightService {  }
    }

    /// All flights between the requested cities with quota left, on the
    /// requested date, or inside the range when an end date is given.
    pub fn search_flights(&self, store: &InventoryStore, search_query: FlightSearchQuery) -> (r:
        Result<FlightSearchResponse, AppError>)
        requires
            store@.wf(),
        ensures
            ({
                let sel = search_selected(store@, search_query, store@.flights);
                &&& r matches Ok(resp)
                &&& r matches Ok(resp) ==> resp.flights@.len() == sel.len() && (forall|l: int|
                    0 <= l < sel.len() ==> detail_matches(store@, sel[l], #[trigger] resp.flights@[l]))
            }),
    {
        let ghost m = store@;
        let mut flights: Vec<FlightDetail> = Vec::new();
        let mut i: usize = 0;
        proof {
            assert(m.flights.take(0) =~= Seq::<Flight>::empty());
        }
        while i < store.flights.len()
            invariant
                m == store@,
                store@.wf(),
                i <= m.flights.len(),
                flights@.len() == search_selected(m, search_query, m.flights.take(i as int)).len(),
                forall|l: int|
                    0 <= l < flights@.len() ==> detail_matches(
                        m,
                        search_selected(m, search_query, m.flights.take(i as int))[l],
                        #[trigger] flights@[l],
                    ),
            decreases m.flights.len() - i,
        {
            let f = store.flights[i];
            proof {
                assert(m.flights.take(i as int + 1).drop_last() =~= m.flights.take(i as int));
                assert(m.flights.take(i as int + 1).last() == m.flights[i as int]);
            }
            if f.available_tickets > 0 {
                match store.find_route(f.flight_number) {
                    Some(ri) => {
                        proof {
                            lemma_route_idx_unique(m.routes, f.flight_number, ri as int);
                        }
                        let route = &store.routes[ri];
                        let date_ok: bool = match search_query.end_date {
                            None => f.flight_date == search_query.departure_date,
                            Some(end) => search_query.departure_date.is_on_or_before(
                                &f.flight_date,
                            ) && f.flight_date.is_on_or_before(&end),
                        };
                        if date_ok && route.departure_city == search_query.departure_city
                            && route.destination_city == search_query.destination_city {
                            flights.push(
                                FlightDetail {
                                    flight_id: f.flight_id,
                                    flight_number: f.flight_number,
                                    departure_city: route.departure_city.clone(),
                                    destination_city: route.destination_city.clone(),
                                    departure_time: route.departure_time,
                                    arrival_time: route.arrival_time,
                                    available_tickets: f.available_tickets,
                                    flight_date: f.flight_date,
                                },
                            );
                        }
                    },
                    None => {},
                }
            }
            i = i + 1;
        }
        proof {
            assert(m.flights.take(m.flights.len() as int) =~= m.flights);
        }
        Ok(FlightSearchResponse { flights })
    }

    /// The numbers of the seats still available on the dated flight, or
    /// `NotFound` when no such flight exists.
    pub fn get_available_seats(
        &self,
        store: &InventoryStore,
        flight_number: i32,
        flight_date: Date,
    ) -> (r: Result<AvailableSeatsResponse, AppError>)
        requires
            store@.wf(),
        ensures
            !has_flight(store@.flights, flight_number, flight_date) ==> (r matches Err(e) && e
                matches AppError::NotFound(msg) && msg@ == "Flight not found"@),
            has_flight(store@.flights, flight_number, flight_date) ==> (r matches Ok(resp)
                && resp.available_seats@ == available_seat_numbers(
                store@.seats,
                store@.flights[flight_idx(store@.flights, flight_number, flight_date)].flight_id,
            )),
    {
        let ghost m = store@;
        let fi = match store.find_flight(flight_number, flight_date) {
            Some(x) => x,
            None => {
                return Err(AppError::NotFound("Flight not found".to_owned()));
            },
        };
        proof {
            lemma_flight_idx_unique(m.flights, flight_number, flight_date, fi as int);
        }
        let fid = store.flights[fi].flight_id;
        let mut available_seats: Vec<i32> = Vec::new();
        let mut i: usize = 0;
        proof {
            assert(m.seats.take(0) =~= Seq::<Seat>::empty());
        }
        while i < store.seats.len()
            invariant
                m == store@,
                i <= m.seats.len(),
                available_seats@ == available_seat_numbers(m.seats.take(i as int), fid),
            decreases m.seats.len() - i,
        {
            let s = store.seats[i];
            proof {
                assert(m.seats.take(i as int + 1).drop_last() =~= m.seats.take(i as int));
                assert(m.seats.take(i as int + 1).last() == m.seats[i as int]);
            }
            if s.flight_id == fid && matches!(s.status, SeatStatus::Available) {
                available_seats.push(s.seat_number);
            }
            i = i + 1;
        }
        proof {
            assert(m.seats.take(m.seats.len() as int) =~= m.seats);
        }
        Ok(AvailableSeatsResponse { available_seats })
    }

    /// A placeholder the request layer keeps around: it reports every seat
    /// as available without consulting the store.
    pub fn is_seat_available(&self, _flight_id: i32, _seat_number: i32) -> (r: Result<
        bool,
        AppError,
    >)
        ensures
            r matches Ok(b) && b,
    {
        Ok(true)
    }
}

} // verus!
