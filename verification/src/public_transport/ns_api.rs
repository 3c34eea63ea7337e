//! Choosing a departure from what the schedule offers.

use crate::public_transport::{DepartureData, PublicTransportResult, Trip, TripLeg};
use crate::text::same_text;
use crate::units::SCALE;
use vstd::prelude::*;

verus! {

/// A copy of a list of names.
pub fn copy_names(names: &Vec<String>) -> (r: Vec<String>)
    ensures
        r@ == names@,
{
    let mut out: Vec<String> = Vec::new();
    let mut i: usize = 0;
    while i < names.len()
        invariant
            i <= names@.len(),
            out@ == names@.take(i as int),
        decreases names@.len() - i,
    {
        out.push(names[i].clone());
        proof {
            assert(out@ =~= names@.take(i + 1));
        }
        i += 1;
    }
    proof {
        assert(names@.take(names@.len() as int) =~= names@);
    }
    out
}

/// Position of the first departure after the instant `time`.
pub open spec fn first_usable(departures: Seq<DepartureData>, time: u64, from: int) -> Option<int>
    decreases departures.len() - from,
{
    if from < 0 || from >= departures.len() {
        None
    } else if departures[from].time > time {
        Some(from)
    } else {
        first_usable(departures, time, from + 1)
    }
}

/// The whole seconds of a duration.
pub open spec fn spec_whole_seconds(duration: u64) -> u64 {
    (duration / SCALE * SCALE) as u64
}

/// Cuts a duration down to whole seconds.
pub fn whole_seconds(duration: u64) -> (r: u64)
    ensures
        r == spec_whole_seconds(duration),
        r <= duration,
{
    assert(duration / SCALE * SCALE <= duration) by (nonlinear_arith)
        requires
            SCALE == 1_000_000_000,
    ;
    duration / SCALE * SCALE
}

/// The ride that `departure` offers to a traveller who is at the station at
/// the instant `time`. The wait is counted in whole seconds.
pub open spec fn is_ride(
    ride: PublicTransportResult,
    start_station_id: u64,
    end_station_id: u64,
    departure: DepartureData,
    time: u64,
) -> bool {
    &&& ride.start_station_id == start_station_id
    &&& ride.end_station_id == end_station_id
    &&& ride.waiting_time == spec_whole_seconds((departure.time - time) as u64)
    &&& ride.journey_duration == departure.duration
    &&& ride.direction@ == departure.direction@
    &&& ride.transfers == departure.transfers
    &&& ride.intermediate_stations@ == departure.intermediate_stations@
}

/// `ride` is what a traveller gets who is at the station at the instant
/// `time`: the first departure of the list that leaves after that instant,
/// or none if no departure does.
pub open spec fn is_next_train(
    ride: Option<PublicTransportResult>,
    start_station_id: u64,
    end_station_id: u64,
    departures: Seq<DepartureData>,
    time: u64,
) -> bool {
    match first_usable(departures, time, 0) {
        Some(at) => ride matches Some(found) && is_ride(
            found,
            start_station_id,
            end_station_id,
            departures[at],
            time,
        ),
        None => ride is None,
    }
}

/// Takes the first departure that leaves after the instant `time`. The
/// wait for it is counted in whole seconds.
pub fn get_next_train(
    start_station_id: u64,
    end_station_id: u64,
    train_departures: &Vec<DepartureData>,
    time: u64,
) -> (r: Option<PublicTransportResult>)
    ensures
        is_next_train(r, start_station_id, end_station_id, train_departures@, time),
{
    let mut i: usize = 0;
    while i < train_departures.len()
        invariant
            i <= train_departures@.len(),
            first_usable(train_departures@, time, 0) == first_usable(
                train_departures@,
                time,
                i as int,
            ),
        decreases train_departures@.len() - i,
    {
        let departure = &train_departures[i];
        if departure.time > time {
            return Some(
                PublicTransportResult::new(
                    start_station_id,
                    end_station_id,
                    departure.duration,
                    whole_seconds(departure.time - time),
                    departure.direction.clone(),
                    departure.transfers,
                    copy_names(&departure.intermediate_stations),
                ),
            );
        }
        i += 1;
    }
    None
}

/// The instant that a text writes, in billionths of a second from the
/// epoch, as `chrono` reads it into a `DateTime<Utc>`; `None` where `chrono`
/// does not read the text or the count does not hold the instant. `chrono`
/// reads a relaxed form of the notation of RFC 3339: date, time and offset,
/// with a space allowed for the `T` and an offset without its colon.
pub uninterp spec fn rfc3339_nanos(text: Seq<char>) -> Option<i64>;

/// Reads an instant with `chrono`: the text is parsed by `str::parse` into a
/// `DateTime<Utc>`, which is `chrono`'s `FromStr` for that type, and the
/// instant is counted by `DateTime::timestamp_nanos_opt`. Neither of them
/// panics. The contract only gives the result its name.
#[verifier::external_body]
fn parse_instant(text: &str) -> (r: Option<i64>)
    ensures
        r == rfc3339_nanos(text@),
{
    match text.parse::<chrono::DateTime<chrono::Utc>>() {
        Ok(instant) => instant.timestamp_nanos_opt(),
        Err(_) => None,
    }
}

/// The names of the stations where the legs after the first begin.
pub open spec fn stations_passed(legs: Seq<TripLeg>) -> Seq<Seq<char>> {
    Seq::new(
        if legs.len() > 0 {
            (legs.len() - 1) as nat
        } else {
            0
        },
        |i: int| legs[i + 1].origin_name@,
    )
}

/// The contents of a list of names.
pub open spec fn names_of(names: Seq<String>) -> Seq<Seq<char>> {
    Seq::new(names.len(), |i: int| names[i]@)
}

/// The first leg of the trip says when it leaves and where to.
pub open spec fn first_leg_is_told(trip: &Trip) -> bool {
    trip.legs@.len() > 0 && trip.legs@[0].planned_departure is Some && trip.legs@[0].direction
        is Some
}

/// `departure` is what the trip offers, where its first leg leaves at
/// `departed`. A trip whose first leg does not say when it leaves and where
/// to, or says it in a way that cannot be read, leaves at the epoch, takes no
/// time and has no direction. An instant before the epoch counts as the
/// epoch.
pub open spec fn is_departure_of(
    departure: DepartureData,
    trip: &Trip,
    departed: Option<i64>,
) -> bool {
    &&& names_of(departure.intermediate_stations@) == stations_passed(trip.legs@)
    &&& if first_leg_is_told(trip) && departed is Some {
        &&& departure.time == (if departed->0 < 0 {
            0u64
        } else {
            departed->0 as u64
        })
        &&& departure.duration == trip.duration
        &&& departure.transfers == trip.transfers
        &&& departure.direction@ == trip.legs@[0].direction->0@
    } else {
        &&& departure.time == 0
        &&& departure.duration == 0
        &&& departure.transfers == 0
        &&& departure.direction@ == Seq::<char>::empty()
    }
}

/// Makes the departure that a trip offers, where the instant at which its
/// first leg leaves was read as `departed`. A trip that does not run as
/// planned offers none.
pub fn departure_of(trip: &Trip, departed: Option<i64>) -> (r: Option<DepartureData>)
    ensures
        r is Some <==> trip.status@ == "NORMAL"@,
        r matches Some(departure) ==> is_departure_of(departure, trip, departed),
{
    if !same_text(trip.status.as_str(), "NORMAL") {
        return None;
    }
    let mut departure_data = DepartureData {
        time: 0,
        duration: 0,
        direction: String::new(),
        transfers: 0,
        intermediate_stations: Vec::new(),
    };
    if trip.legs.len() > 0 {
        if trip.legs[0].planned_departure.is_some() {
            if let Some(departure_direction) = &trip.legs[0].direction {
                if let Some(instant) = departed {
                    departure_data.duration = trip.duration;
                    departure_data.transfers = trip.transfers;
                    departure_data.time = if instant < 0 {
                        0
                    } else {
                        instant as u64
                    };
                    departure_data.direction = departure_direction.clone();
                }
            }
        }
    }
    let mut intermediate_stations: Vec<String> = Vec::new();
    let mut index: usize = 1;
    while index < trip.legs.len()
        invariant
            1 <= index,
            intermediate_stations@.len() == index - 1,
            index <= trip.legs@.len() || index == 1,
            forall|i: int|
                0 <= i < intermediate_stations@.len() ==> (#[trigger] intermediate_stations@[i])@
                    == trip.legs@[i + 1].origin_name@,
        decreases trip.legs@.len() - index,
    {
        intermediate_stations.push(trip.legs[index].origin_name.clone());
        index += 1;
    }
    departure_data.intermediate_stations = intermediate_stations;
    proof {
        let told = names_of(departure_data.intermediate_stations@);
        let wanted = stations_passed(trip.legs@);
        assert(told.len() == wanted.len());
        assert forall|i: int| 0 <= i < told.len() implies told[i] == wanted[i] by {
            assert(departure_data.intermediate_stations@[i]@ == trip.legs@[i + 1].origin_name@);
        }
        assert(names_of(departure_data.intermediate_stations@) =~= stations_passed(trip.legs@));
    }
    Some(departure_data)
}

/// The instant at which the first leg of a trip leaves, as far as the trip
/// tells it.
pub open spec fn spec_departed(trip: &Trip) -> Option<i64> {
    if trip.legs@.len() > 0 && trip.legs@[0].planned_departure is Some {
        rfc3339_nanos(trip.legs@[0].planned_departure->0@)
    } else {
        None
    }
}

/// Makes the departure that a trip offers. A trip that does not run as
/// planned offers none.
pub fn read_trip(trip: &Trip) -> (r: Option<DepartureData>)
    ensures
        r is Some <==> trip.status@ == "NORMAL"@,
        r matches Some(departure) ==> is_departure_of(departure, trip, spec_departed(trip)),
{
    let departed = if trip.legs.len() > 0 {
        match &trip.legs[0].planned_departure {
            Some(text) => parse_instant(text.as_str()),
            None => None,
        }
    } else {
        None
    };
    departure_of(trip, departed)
}

/// `departures` are what the first `read` trips offer, in their order.
pub open spec fn are_departures_of(
    departures: Seq<DepartureData>,
    trips: Seq<Trip>,
    read: int,
) -> bool
    decreases read,
{
    if read <= 0 {
        departures.len() == 0
    } else if trips[read - 1].status@ == "NORMAL"@ {
        departures.len() > 0 && is_departure_of(
            departures.last(),
            &trips[read - 1],
            spec_departed(&trips[read - 1]),
        ) && are_departures_of(departures.drop_last(), trips, read - 1)
    } else {
        are_departures_of(departures, trips, read - 1)
    }
}

/// Makes the departures that the trips offer which run as planned, in the
/// order of the trips.
pub fn read_trips(trips: &Vec<Trip>) -> (r: Vec<DepartureData>)
    ensures
        are_departures_of(r@, trips@, trips@.len() as int),
{
    let mut departures: Vec<DepartureData> = Vec::new();
    let mut i: usize = 0;
    while i < trips.len()
        invariant
            i <= trips@.len(),
            are_departures_of(departures@, trips@, i as int),
        decreases trips@.len() - i,
    {
        let ghost before = departures@;
        if let Some(departure) = read_trip(&trips[i]) {
            departures.push(departure);
            proof {
                assert(departures@.drop_last() =~= before);
            }
        }
        i += 1;
    }
    departures
}

} // verus!
