//! Transit data: stations, complexes of connected stations, routes and the
//! trips that run on them, each keyed by an opaque string identifier.

use vstd::prelude::*;
use vstd::std_specs::cmp::PartialEqSpecImpl;
use vstd::string::*;

use crate::search::{first_match, lemma_first_match_is};
use crate::shape::types::Position;

verus! {

/// The identifier of a single boarding location.
#[derive(Debug, Hash)]
pub struct StationIdentifier(String);

impl View for StationIdentifier {
    type V = Seq<char>;

    closed spec fn view(&self) -> Seq<char> {
        self.0@
    }
}

impl StationIdentifier {
    pub fn new(s: &str) -> (id: Self)
        ensures
            id@ == s@,
    {
        StationIdentifier(String::from_str(s))
    }

    pub fn as_str(&self) -> (s: &str)
        ensures
            s@ == self@,
    {
        self.0.as_str()
    }
}

impl Clone for StationIdentifier {
    fn clone(&self) -> (id: Self)
        ensures
            id@ == self@,
    {
        StationIdentifier(self.0.clone())
    }
}

impl PartialEq for StationIdentifier {
    fn eq(&self, other: &Self) -> (equal: bool) {
        self.0 == other.0
    }
}

impl Eq for StationIdentifier {

}

impl PartialEqSpecImpl for StationIdentifier {
    open spec fn obeys_eq_spec() -> bool {
        true
    }

    open spec fn eq_spec(&self, other: &Self) -> bool {
        self@ == other@
    }
}

/// The identifier of a transit route.
#[derive(Debug, Hash)]
pub struct RouteIdentifier(String);

impl View for RouteIdentifier {
    type V = Seq<char>;

    closed spec fn view(&self) -> Seq<char> {
        self.0@
    }
}

impl RouteIdentifier {
    pub fn new(s: &str) -> (id: Self)
        ensures
            id@ == s@,
    {
        RouteIdentifier(String::from_str(s))
    }

    pub fn as_str(&self) -> (s: &str)
        ensures
            s@ == self@,
    {
        self.0.as_str()
    }
}

impl Clone for RouteIdentifier {
    fn clone(&self) -> (id: Self)
        ensures
            id@ == self@,
    {
        RouteIdentifier(self.0.clone())
    }
}

impl PartialEq for RouteIdentifier {
    fn eq(&self, other: &Self) -> (equal: bool) {
        self.0 == other.0
    }
}

impl Eq for RouteIdentifier {

}

impl PartialEqSpecImpl for RouteIdentifier {
    open spec fn obeys_eq_spec() -> bool {
        true
    }

    open spec fn eq_spec(&self, other: &Self) -> bool {
        self@ == other@
    }
}

/// The identifier of a single vehicle run.
#[derive(Debug, Hash)]
pub struct TripIdentifier(String);

impl View for TripIdentifier {
    type V = Seq<char>;

    closed spec fn view(&self) -> Seq<char> {
        self.0@
    }
}

impl TripIdentifier {
    pub fn new(s: &str) -> (id: Self)
        ensures
            id@ == s@,
    {
        TripIdentifier(String::from_str(s))
    }

    pub fn as_str(&self) -> (s: &str)
        ensures
            s@ == self@,
    {
        self.0.as_str()
    }
}

impl Clone for TripIdentifier {
    fn clone(&self) -> (id: Self)
        ensures
            id@ == self@,
    {
        TripIdentifier(self.0.clone())
    }
}

impl PartialEq for TripIdentifier {
    fn eq(&self, other: &Self) -> (equal: bool) {
        self.0 == other.0
    }
}

impl Eq for TripIdentifier {

}

impl PartialEqSpecImpl for TripIdentifier {
    open spec fn obeys_eq_spec() -> bool {
        true
    }

    open spec fn eq_spec(&self, other: &Self) -> bool {
        self@ == other@
    }
}

/// The identifier of a complex of connected stations.
#[derive(Debug, Hash)]
pub struct ComplexIdentifier(String);

impl View for ComplexIdentifier {
    type V = Seq<char>;

    closed spec fn view(&self) -> Seq<char> {
        self.0@
    }
}

impl ComplexIdentifier {
    pub fn new(s: &str) -> (id: Self)
        ensures
            id@ == s@,
    {
        ComplexIdentifier(String::from_str(s))
    }

    pub fn as_str(&self) -> (s: &str)
        ensures
            s@ == self@,
    {
        self.0.as_str()
    }
}

impl Clone for ComplexIdentifier {
    fn clone(&self) -> (id: Self)
        ensures
            id@ == self@,
    {
        ComplexIdentifier(self.0.clone())
    }
}

impl PartialEq for ComplexIdentifier {
    fn eq(&self, other: &Self) -> (equal: bool) {
        self.0 == other.0
    }
}

impl Eq for ComplexIdentifier {

}

impl PartialEqSpecImpl for ComplexIdentifier {
    open spec fn obeys_eq_spec() -> bool {
        true
    }

    open spec fn eq_spec(&self, other: &Self) -> bool {
        self@ == other@
    }
}

/// The kind of vehicle that serves a route.
#[derive(Clone, Copy, Debug, PartialEq, Eq, Hash, Structural)]
pub enum RouteType {
    Tram,
    Subway,
    Rail,
    Bus,
    Ferry,
    CableTram,
    AerialLift,
    Funicular,
}

/// The direction of travel of a trip along its route.
#[derive(Clone, Copy, Debug, PartialEq, Eq, Hash, Structural)]
pub enum DirectionId {
    Outbound,
    Inbound,
}

/// One scheduled stop of a trip. Times are seconds since the start of the
/// service day.
#[derive(Debug)]
pub struct StopEvent {
    pub station_id: StationIdentifier,
    pub arrival: u32,
    pub departure: u32,
    pub stop_sequence: u32,
}

/// A single vehicle run: its stops in order.
#[derive(Debug)]
pub struct TripRecord {
    pub id: TripIdentifier,
    pub route_id: RouteIdentifier,
    pub stop_events: Vec<StopEvent>,
    pub direction_id: DirectionId,
    pub headsign: String,
}

/// A single boarding location and the complex it belongs to.
#[derive(Debug)]
pub struct StationRecord {
    pub identifier: StationIdentifier,
    pub name: String,
    pub location: Position,
    pub complex: ComplexIdentifier,
}

/// A complex of connected stations with its approximate center.
#[derive(Debug)]
pub struct ComplexRecord {
    pub identifier: ComplexIdentifier,
    pub name: String,
    pub center: Position,
}

/// Selects the complexes with identifier `id`.
pub open spec fn complex_named(id: Seq<char>) -> spec_fn(ComplexRecord) -> bool {
    |complex: ComplexRecord| complex.identifier@ == id
}

/// Selects the stations with identifier `id`.
pub open spec fn station_named(id: Seq<char>) -> spec_fn(StationRecord) -> bool {
    |station: StationRecord| station.identifier@ == id
}

/// Selects the trips with identifier `id`.
pub open spec fn trip_named(id: Seq<char>) -> spec_fn(TripRecord) -> bool {
    |trip: TripRecord| trip.id@ == id
}

/// All transit data of a map, with lookups by identifier. Where an
/// identifier occurs twice, the first record wins.
#[derive(Debug)]
pub struct TransitData {
    pub stations: Vec<StationRecord>,
    pub complexes: Vec<ComplexRecord>,
    pub trips: Vec<TripRecord>,
}

impl TransitData {
    pub fn all_stations(&self) -> (stations: &Vec<StationRecord>)
        ensures
            stations == &self.stations,
    {
        &self.stations
    }

    pub fn all_complexes(&self) -> (complexes: &Vec<ComplexRecord>)
        ensures
            complexes == &self.complexes,
    {
        &self.complexes
    }

    /// The first station with identifier `id`.
    pub fn get_station(&self, id: &StationIdentifier) -> (found: Option<&StationRecord>)
        ensures
            match found {
                Some(station) => {
                    &&& first_match(self.stations@, station_named(id@)) < self.stations@.len()
                    &&& *station == self.stations@[first_match(self.stations@, station_named(id@))]
                },
                None => first_match(self.stations@, station_named(id@)) == self.stations@.len(),
            },
    {
        let mut i: usize = 0;
        while i < self.stations.len()
            invariant
                i <= self.stations.len(),
                forall|k: int| 0 <= k < i ==> !station_named(id@)(#[trigger] self.stations@[k]),
            decreases self.stations.len() - i,
        {
            if self.stations[i].identifier == *id {
                proof {
                    lemma_first_match_is(self.stations@, station_named(id@), i as int);
                }
                return Some(&self.stations[i]);
            }
            i += 1;
        }
        proof {
            lemma_first_match_is(self.stations@, station_named(id@), i as int);
        }
        None
    }

    /// The first complex with identifier `id`.
    pub fn get_complex(&self, id: &ComplexIdentifier) -> (found: Option<&ComplexRecord>)
        ensures
            match found {
                Some(complex) => {
                    &&& first_match(self.complexes@, complex_named(id@)) < self.complexes@.len()
                    &&& *complex == self.complexes@[first_match(self.complexes@, complex_named(id@))]
                },
                None => first_match(self.complexes@, complex_named(id@)) == self.complexes@.len(),
            },
    {
        let mut i: usize = 0;
        while i < self.complexes.len()
            invariant
                i <= self.complexes.len(),
                forall|k: int| 0 <= k < i ==> !complex_named(id@)(#[trigger] self.complexes@[k]),
            decreases self.complexes.len() - i,
        {
            if self.complexes[i].identifier == *id {
                proof {
                    lemma_first_match_is(self.complexes@, complex_named(id@), i as int);
                }
                return Some(&self.complexes[i]);
            }
            i += 1;
        }
        proof {
            lemma_first_match_is(self.complexes@, complex_named(id@), i as int);
        }
        None
    }

    /// The first trip with identifier `id`.
    pub fn get_trip(&self, id: &TripIdentifier) -> (found: Option<&TripRecord>)
        ensures
            match found {
                Some(trip) => {
                    &&& first_match(self.trips@, trip_named(id@)) < self.trips@.len()
                    &&& *trip == self.trips@[first_match(self.trips@, trip_named(id@))]
                },
                None => first_match(self.trips@, trip_named(id@)) == self.trips@.len(),
            },
    {
        let mut i: usize = 0;
        while i < self.trips.len()
            invariant
                i <= self.trips.len(),
                forall|k: int| 0 <= k < i ==> !trip_named(id@)(#[trigger] self.trips@[k]),
            decreases self.trips.len() - i,
        {
            if self.trips[i].id == *id {
                proof {
                    lemma_first_match_is(self.trips@, trip_named(id@), i as int);
                }
                return Some(&self.trips[i]);
            }
            i += 1;
        }
        proof {
            lemma_first_match_is(self.trips@, trip_named(id@), i as int);
        }
        None
    }
}

} // verus!
