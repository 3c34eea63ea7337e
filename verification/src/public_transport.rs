//! Journeys by scheduled transport between stations.
//!
//! Instants are counted in billionths of a second from a fixed epoch, as
//! durations are.

use vstd::prelude::*;

pub mod ns_api;
pub mod public_transport;
pub mod stations;

verus! {

/// One departure that the schedule offers.
#[derive(Debug)]
pub struct DepartureData {
    /// The instant of departure.
    pub time: u64,
    /// Time spent in the vehicle.
    pub duration: u64,
    pub direction: String,
    pub transfers: i64,
    pub intermediate_stations: Vec<String>,
}

/// A ride from one station to another, with the wait before it.
#[derive(Debug, Clone)]
pub struct PublicTransportResult {
    pub start_station_id: u64,
    pub end_station_id: u64,
    pub waiting_time: u64,
    pub journey_duration: u64,
    pub direction: String,
    pub transfers: i64,
    pub intermediate_stations: Vec<String>,
}

/// One leg of a trip as the railway reports it.
#[derive(Debug)]
pub struct TripLeg {
    /// The planned instant of departure, as the railway writes it.
    pub planned_departure: Option<String>,
    pub direction: Option<String>,
    /// The name of the station where the leg begins.
    pub origin_name: String,
}

/// One trip as the railway reports it.
#[derive(Debug)]
pub struct Trip {
    /// The state of the service; `NORMAL` where the trip runs as planned.
    pub status: String,
    /// Time spent on the trip.
    pub duration: u64,
    pub transfers: i64,
    pub legs: Vec<TripLeg>,
}

/// A question to the schedule: which trains leave the one station for the
/// other from an instant on.
#[derive(Clone, Copy, Debug, PartialEq, Eq, Structural)]
pub struct TransitQuery {
    pub start_station_id: u64,
    pub end_station_id: u64,
    /// The instant at which the traveller is at the first station.
    pub earliest: u64,
}

/// The departures that the schedule offers from one station to another.
#[derive(Debug)]
pub struct StationDepartures {
    pub start_station_id: u64,
    pub end_station_id: u64,
    pub departures: Vec<DepartureData>,
}

} // verus!
