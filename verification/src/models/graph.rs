use crate::collections::{
    graph_add_edge, graph_edge_weight, graph_edges, graph_neighbors, graph_new, multimap_entries,
    multimap_get_vec, multimap_insert, multimap_new,
};
use crate::models::input;
use crate::types::{IntervalID, IntervalLength, StationID, Time, Track, TrainID};
use multimap::MultiMap;
use petgraph::graphmap::DiGraphMap;
use std::collections::HashMap;
use vstd::prelude::*;

verus! {

broadcast use vstd::std_specs::hash::group_hash_axioms;

/// An interval of the network: a directed edge with its length and the
/// trains that run over it, one entry for each run.
pub struct Interval {
    pub from: StationID,
    pub to: StationID,
    pub length: IntervalLength,
    pub trains: Vec<TrainID>,
}

/// A station of the network, with the trains that call at it, one entry for
/// each call.
pub struct Station {
    pub id: StationID,
    pub position: u32,
    pub tracks: Track,
    pub trains: Vec<TrainID>,
}

/// One call of a train: arrival, departure and the track used, if known.
#[derive(Debug, Clone, Copy, PartialEq, Eq, Structural)]
pub struct Schedule {
    pub arr: Time,
    pub dep: Time,
    pub track: Option<Track>,
}

/// A train: its calls in order and, for each station, the places of its
/// calls there. A train may call at one station several times.
pub struct Train {
    pub id: TrainID,
    pub entries: Vec<(StationID, Schedule)>,
    pub station_index: MultiMap<StationID, usize>,
}

/// The indexed network: stations, intervals and trains in the order they
/// were given, each list with a lookup by identifier.
pub struct Network {
    pub stations: Vec<Station>,
    pub station_lookup: HashMap<StationID, usize>,
    pub intervals: Vec<Interval>,
    pub graph: DiGraphMap<StationID, usize>,
    pub trains: Vec<Train>,
    pub train_lookup: HashMap<TrainID, usize>,
}

/// Why a network could not be built or filtered.
#[derive(Debug, Clone, Copy, PartialEq, Eq, Structural)]
pub enum NetworkError {
    /// The list of stations is empty.
    NoStations,
    /// The list of intervals is empty.
    NoIntervals,
    /// A station has no track.
    ZeroTracks(StationID),
    /// A station is listed twice.
    DuplicateStation(StationID),
    /// An interval is listed twice.
    DuplicateInterval(StationID, StationID),
    /// A train is listed twice.
    DuplicateTrain(TrainID),
    /// An interval or a schedule names a station that is not listed.
    UnknownStation(StationID),
    /// A requested interval is not in the network.
    MissingInterval(StationID, StationID),
    /// A requested station is not in the network.
    MissingStation(StationID),
}

/// The places `i < upto` at which `stations[i]` is `s`, in increasing order.
pub open spec fn positions(stations: Seq<StationID>, s: StationID, upto: int) -> Seq<usize>
    decreases upto,
{
    if upto <= 0 {
        Seq::empty()
    } else {
        let before = positions(stations, s, upto - 1);
        if stations[upto - 1] == s {
            before.push((upto - 1) as usize)
        } else {
            before
        }
    }
}

/// The stations called at, in call order.
pub open spec fn entry_stations(entries: Seq<(StationID, Schedule)>) -> Seq<StationID> {
    Seq::new(entries.len(), |i: int| entries[i].0)
}

/// The multimap holds, for every station, exactly the places of that station
/// among the first `upto` calls.
pub open spec fn index_matches(
    index: MultiMap<StationID, usize>,
    stations: Seq<StationID>,
    upto: int,
) -> bool {
    forall|s: StationID|
        {
            &&& multimap_entries(index).contains_key(s) <==> #[trigger] positions(
                stations,
                s,
                upto,
            ).len() > 0
            &&& multimap_entries(index).contains_key(s) ==> multimap_entries(index)[s]
                == positions(stations, s, upto)
        }
}

/// The identifier `id`, once for each of the first `upto` calls that is at
/// station `s`.
pub open spec fn train_visits(
    entries: Seq<(StationID, Schedule)>,
    id: TrainID,
    s: StationID,
    upto: int,
) -> Seq<TrainID>
    decreases upto,
{
    if upto <= 0 {
        Seq::empty()
    } else {
        let before = train_visits(entries, id, s, upto - 1);
        if entries[upto - 1].0 == s {
            before.push(id)
        } else {
            before
        }
    }
}

/// The identifier `id`, once for each pair of consecutive calls that starts
/// among the first `upto` calls and goes from `from` to `to`.
pub open spec fn train_runs(
    entries: Seq<(StationID, Schedule)>,
    id: TrainID,
    from: StationID,
    to: StationID,
    upto: int,
) -> Seq<TrainID>
    decreases upto,
{
    if upto <= 0 {
        Seq::empty()
    } else {
        let before = train_runs(entries, id, from, to, upto - 1);
        if upto < entries.len() && entries[upto - 1].0 == from && entries[upto].0 == to {
            before.push(id)
        } else {
            before
        }
    }
}

/// The calls at station `s` by the first `upto` trains: train by train, one
/// entry for each call.
pub open spec fn station_trains(trains: Seq<Train>, s: StationID, upto: int) -> Seq<TrainID>
    decreases upto,
{
    if upto <= 0 {
        Seq::empty()
    } else {
        let t = trains[upto - 1];
        station_trains(trains, s, upto - 1) + train_visits(
            t.entries@,
            t.id,
            s,
            t.entries@.len() as int,
        )
    }
}

/// The runs from `from` to `to` by the first `upto` trains: train by train,
/// one entry for each run.
pub open spec fn interval_trains(
    trains: Seq<Train>,
    from: StationID,
    to: StationID,
    upto: int,
) -> Seq<TrainID>
    decreases upto,
{
    if upto <= 0 {
        Seq::empty()
    } else {
        let t = trains[upto - 1];
        interval_trains(trains, from, to, upto - 1) + train_runs(
            t.entries@,
            t.id,
            from,
            to,
            t.entries@.len() as int,
        )
    }
}

/// Some listed station has the identifier `id`.
pub open spec fn has_station(stations: Seq<(StationID, input::Station)>, id: StationID) -> bool {
    exists|i: int| 0 <= i < stations.len() && (#[trigger] stations[i]).0 == id
}

/// What is wrong with the station at place `i`, if anything: it has no
/// track, or an earlier station has its identifier.
pub open spec fn station_defect(stations: Seq<(StationID, input::Station)>, i: int) -> Option<
    NetworkError,
> {
    if stations[i].1.tracks == 0 {
        Some(NetworkError::ZeroTracks(stations[i].0))
    } else if exists|j: int| 0 <= j < i && (#[trigger] stations[j]).0 == stations[i].0 {
        Some(NetworkError::DuplicateStation(stations[i].0))
    } else {
        None
    }
}

/// What is wrong with the interval at place `j`, if anything: its start is
/// no listed station, else its end is none, else an earlier interval joins
/// the same two stations.
pub open spec fn interval_defect(raw: input::Network, j: int) -> Option<NetworkError> {
    let key = raw.intervals@[j].0;
    if !has_station(raw.stations@, key.0) {
        Some(NetworkError::UnknownStation(key.0))
    } else if !has_station(raw.stations@, key.1) {
        Some(NetworkError::UnknownStation(key.1))
    } else if exists|k: int| 0 <= k < j && (#[trigger] raw.intervals@[k]).0 == key {
        Some(NetworkError::DuplicateInterval(key.0, key.1))
    } else {
        None
    }
}

/// The first call of train `t`, from place `from` on, that names a station
/// which is not listed.
pub open spec fn first_entry_defect(raw: input::Network, t: int, from: int) -> Option<
    NetworkError,
>
    decreases raw.trains@[t].1.schedule@.len() - from,
{
    let schedule = raw.trains@[t].1.schedule@;
    if from < 0 || from >= schedule.len() {
        None
    } else if !has_station(raw.stations@, schedule[from].0) {
        Some(NetworkError::UnknownStation(schedule[from].0))
    } else {
        first_entry_defect(raw, t, from + 1)
    }
}

/// What is wrong with the train at place `t`, if anything: an earlier train
/// has its identifier, or one of its calls names an unlisted station.
pub open spec fn train_defect(raw: input::Network, t: int) -> Option<NetworkError> {
    if exists|u: int| 0 <= u < t && (#[trigger] raw.trains@[u]).0 == raw.trains@[t].0 {
        Some(NetworkError::DuplicateTrain(raw.trains@[t].0))
    } else {
        first_entry_defect(raw, t, 0)
    }
}

/// The defect of the first defective station from place `from` on.
pub open spec fn first_station_defect(
    stations: Seq<(StationID, input::Station)>,
    from: int,
) -> Option<NetworkError>
    decreases stations.len() - from,
{
    if from < 0 || from >= stations.len() {
        None
    } else if station_defect(stations, from).is_some() {
        station_defect(stations, from)
    } else {
        first_station_defect(stations, from + 1)
    }
}

/// The defect of the first defective interval from place `from` on.
pub open spec fn first_interval_defect(raw: input::Network, from: int) -> Option<NetworkError>
    decreases raw.intervals@.len() - from,
{
    if from < 0 || from >= raw.intervals@.len() {
        None
    } else if interval_defect(raw, from).is_some() {
        interval_defect(raw, from)
    } else {
        first_interval_defect(raw, from + 1)
    }
}

/// The defect of the first defective train from place `from` on.
pub open spec fn first_train_defect(raw: input::Network, from: int) -> Option<NetworkError>
    decreases raw.trains@.len() - from,
{
    if from < 0 || from >= raw.trains@.len() {
        None
    } else if train_defect(raw, from).is_some() {
        train_defect(raw, from)
    } else {
        first_train_defect(raw, from + 1)
    }
}

/// Why no network can be built from the records, if so: an empty list of
/// stations, an empty list of intervals, else the first defective station,
/// else the first defective interval, else the first defective train.
/// The list of trains may be empty.
pub open spec fn build_error(raw: input::Network) -> Option<NetworkError> {
    if raw.stations@.len() == 0 {
        Some(NetworkError::NoStations)
    } else if raw.intervals@.len() == 0 {
        Some(NetworkError::NoIntervals)
    } else if first_station_defect(raw.stations@, 0).is_some() {
        first_station_defect(raw.stations@, 0)
    } else if first_interval_defect(raw, 0).is_some() {
        first_interval_defect(raw, 0)
    } else {
        first_train_defect(raw, 0)
    }
}

/// The call of the indexed network that stands for a call as it was read.
pub open spec fn schedule_of(entry: input::ScheduleEntry) -> Schedule {
    Schedule { arr: entry.arrival, dep: entry.departure, track: entry.track }
}

impl Train {
    /// The index of calls by station agrees with the calls.
    pub open spec fn wf(&self) -> bool {
        index_matches(self.station_index, entry_stations(self.entries@), self.entries@.len() as int)
    }

    /// The places of the calls at a station, in order, if the train calls
    /// there at all. A train may call at a station more than once.
    pub fn calls_at(&self, station: StationID) -> (r: Option<&Vec<usize>>)
        requires
            self.wf(),
        ensures
            r.is_some() <==> exists|k: int|
                0 <= k < self.entries@.len() && (#[trigger] self.entries@[k]).0 == station,
            r.is_some() ==> r.unwrap()@ == positions(
                entry_stations(self.entries@),
                station,
                self.entries@.len() as int,
            ),
    {
        proof {
            lemma_positions_found(
                entry_stations(self.entries@),
                station,
                self.entries@.len() as int,
            );
            if exists|k: int|
                0 <= k < self.entries@.len() && (#[trigger] self.entries@[k]).0 == station {
                let k = choose|k: int|
                    0 <= k < self.entries@.len() && (#[trigger] self.entries@[k]).0 == station;
                assert(entry_stations(self.entries@)[k] == station);
            }
            if exists|k: int|
                0 <= k < self.entries@.len() && (#[trigger] entry_stations(self.entries@)[k])
                    == station {
                let k = choose|k: int|
                    0 <= k < self.entries@.len() && (#[trigger] entry_stations(self.entries@)[k])
                        == station;
                assert(self.entries@[k].0 == station);
            }
        }
        multimap_get_vec(&self.station_index, station)
    }
}

/// A station has a place among the first `upto` calls exactly where one of
/// those calls is at it.
pub proof fn lemma_positions_found(stations: Seq<StationID>, s: StationID, upto: int)
    requires
        0 <= upto <= stations.len(),
    ensures
        positions(stations, s, upto).len() > 0 <==> exists|k: int|
            0 <= k < upto && (#[trigger] stations[k]) == s,
    decreases upto,
{
    if upto > 0 {
        lemma_positions_found(stations, s, upto - 1);
        if stations[upto - 1] == s {
            assert(0 <= upto - 1 < upto && stations[upto - 1] == s);
        } else if exists|k: int| 0 <= k < upto && (#[trigger] stations[k]) == s {
            let k = choose|k: int| 0 <= k < upto && (#[trigger] stations[k]) == s;
            assert(0 <= k < upto - 1);
        }
    }
}

impl Network {
    /// Each station is found under its identifier, and nothing else is.
    pub open spec fn stations_indexed(&self) -> bool {
        &&& forall|i: int|
            0 <= i < self.stations@.len() ==> self.station_lookup@.contains_key(
                (#[trigger] self.stations@[i]).id,
            ) && self.station_lookup@[self.stations@[i].id] == i
        &&& forall|id: StationID| #[trigger]
            self.station_lookup@.contains_key(id) ==> self.station_lookup@[id]
                < self.stations@.len() && self.stations@[self.station_lookup@[id] as int].id == id
    }

    /// Each interval is found in the graph under its two stations, and
    /// nothing else is.
    pub open spec fn intervals_indexed(&self) -> bool {
        &&& forall|j: int|
            0 <= j < self.intervals@.len() ==> graph_edges(self.graph).contains_key(
                ((#[trigger] self.intervals@[j]).from, self.intervals@[j].to),
            ) && graph_edges(self.graph)[(self.intervals@[j].from, self.intervals@[j].to)] == j
        &&& forall|key: IntervalID| #[trigger]
            graph_edges(self.graph).contains_key(key) ==> graph_edges(self.graph)[key]
                < self.intervals@.len() && self.intervals@[graph_edges(
                self.graph,
            )[key] as int].from == key.0 && self.intervals@[graph_edges(self.graph)[key] as int].to
                == key.1
    }

    /// Each train is found under its identifier, and nothing else is.
    pub open spec fn trains_indexed(&self) -> bool {
        &&& forall|t: int|
            0 <= t < self.trains@.len() ==> self.train_lookup@.contains_key(
                (#[trigger] self.trains@[t]).id,
            ) && self.train_lookup@[self.trains@[t].id] == t
        &&& forall|id: TrainID| #[trigger]
            self.train_lookup@.contains_key(id) ==> self.train_lookup@[id] < self.trains@.len()
                && self.trains@[self.train_lookup@[id] as int].id == id
    }

    /// The lookups agree with the lists, every station has a track, every
    /// interval joins two stations of the network, and every train's index
    /// agrees with its calls.
    pub open spec fn wf_index(&self) -> bool {
        &&& self.stations_indexed()
        &&& self.intervals_indexed()
        &&& self.trains_indexed()
        &&& forall|i: int| 0 <= i < self.stations@.len() ==> (#[trigger] self.stations@[i]).tracks >= 1
        &&& forall|j: int|
            0 <= j < self.intervals@.len() ==> self.station_lookup@.contains_key(
                (#[trigger] self.intervals@[j]).from,
            ) && self.station_lookup@.contains_key(self.intervals@[j].to)
        &&& forall|t: int| 0 <= t < self.trains@.len() ==> (#[trigger] self.trains@[t]).wf()
    }

    /// Every station lists the calls made at it and every interval the runs
    /// made over it, by the first `upto` trains.
    pub open spec fn occupancy_upto(&self, upto: int) -> bool {
        &&& forall|i: int|
            0 <= i < self.stations@.len() ==> (#[trigger] self.stations@[i]).trains@
                == station_trains(self.trains@, self.stations@[i].id, upto)
        &&& forall|j: int|
            0 <= j < self.intervals@.len() ==> (#[trigger] self.intervals@[j]).trains@
                == interval_trains(
                self.trains@,
                self.intervals@[j].from,
                self.intervals@[j].to,
                upto,
            )
    }

    /// The network is well formed: its lookups agree with its lists and the
    /// occupancy lists of its stations and intervals are complete.
    pub open spec fn wf(&self) -> bool {
        &&& self.wf_index()
        &&& self.occupancy_upto(self.trains@.len() as int)
    }

    /// Every call of every train is at a station of the network.
    pub open spec fn schedules_resolved(&self) -> bool {
        forall|t: int, k: int|
            0 <= t < self.trains@.len() && 0 <= k < self.trains@[t].entries@.len()
                ==> self.station_lookup@.contains_key((#[trigger] self.trains@[t].entries@[k]).0)
    }

    /// The network holds the stations, intervals and trains of the records,
    /// in their order.
    pub open spec fn represents(&self, raw: input::Network) -> bool {
        &&& self.stations@.len() == raw.stations@.len()
        &&& forall|i: int|
            0 <= i < self.stations@.len() ==> {
                &&& (#[trigger] self.stations@[i]).id == raw.stations@[i].0
                &&& self.stations@[i].position == raw.stations@[i].1.position
                &&& self.stations@[i].tracks == raw.stations@[i].1.tracks
            }
        &&& self.intervals@.len() == raw.intervals@.len()
        &&& forall|j: int|
            0 <= j < self.intervals@.len() ==> {
                &&& (#[trigger] self.intervals@[j]).from == raw.intervals@[j].0.0
                &&& self.intervals@[j].to == raw.intervals@[j].0.1
                &&& self.intervals@[j].length == raw.intervals@[j].1.length
            }
        &&& self.trains@.len() == raw.trains@.len()
        &&& forall|t: int|
            0 <= t < self.trains@.len() ==> {
                &&& (#[trigger] self.trains@[t]).id == raw.trains@[t].0
                &&& self.trains@[t].entries@ == Seq::new(
                    raw.trains@[t].1.schedule@.len(),
                    |k: int|
                        (raw.trains@[t].1.schedule@[k].0, schedule_of(raw.trains@[t].1.schedule@[k].1)),
                )
            }
    }

    /// Some interval of the network goes from `from` to `to`.
    pub open spec fn has_interval(&self, from: StationID, to: StationID) -> bool {
        exists|j: int|
            0 <= j < self.intervals@.len() && (#[trigger] self.intervals@[j]).from == from
                && self.intervals@[j].to == to
    }

    /// Builds the indexed network from the records. Fails on an empty list of
    /// stations or intervals and on the first defective record; the trains
    /// may be none.
    #[verifier::loop_isolation(false)]
    pub fn new(raw_input: &input::Network) -> (r: Result<Network, NetworkError>)
        ensures
            match r {
                Ok(net) => build_error(*raw_input).is_none() && net.wf() && net.schedules_resolved()
                    && net.represents(*raw_input),
                Err(e) => build_error(*raw_input) == Some(e),
            },
    {
        let stations = &raw_input.stations;
        let intervals = &raw_input.intervals;
        let trains = &raw_input.trains;
        if stations.len() == 0 {
            return Err(NetworkError::NoStations);
        }
        if intervals.len() == 0 {
            return Err(NetworkError::NoIntervals);
        }
        let mut station_list: Vec<Station> = Vec::new();
        let mut station_lookup: HashMap<StationID, usize> = HashMap::new();
        let mut i: usize = 0;
        while i < stations.len()
            invariant
                0 <= i <= stations.len(),
                station_list@.len() == i,
                first_station_defect(stations@, 0) == first_station_defect(stations@, i as int),
                forall|a: int|
                    #![trigger station_list@[a]]
                    #![trigger stations@[a]]
                    0 <= a < i ==> {
                        &&& station_list@[a].id == stations@[a].0
                        &&& station_list@[a].position == stations@[a].1.position
                        &&& station_list@[a].tracks == stations@[a].1.tracks
                        &&& station_list@[a].tracks >= 1
                        &&& station_list@[a].trains@.len() == 0
                        &&& station_lookup@.contains_key(stations@[a].0)
                        &&& station_lookup@[stations@[a].0] == a
                    },
                forall|id: StationID| #[trigger]
                    station_lookup@.contains_key(id) ==> station_lookup@[id] < i
                        && stations@[station_lookup@[id] as int].0 == id,
            decreases stations.len() - i,
        {
            let id: StationID = stations[i].0;
            let st = stations[i].1;
            if st.tracks == 0 {
                return Err(NetworkError::ZeroTracks(id));
            }
            if station_lookup.contains_key(&id) {
                proof {
                    let j = station_lookup@[id] as int;
                    assert(0 <= j < i && stations@[j].0 == stations@[i as int].0);
                }
                return Err(NetworkError::DuplicateStation(id));
            }
            assert(station_defect(stations@, i as int).is_none());
            station_lookup.insert(id, i);
            station_list.push(
                Station { id, position: st.position, tracks: st.tracks, trains: Vec::new() },
            );
            i += 1;
        }
        proof {
            assert forall|id: StationID|
                has_station(stations@, id) == station_lookup@.contains_key(id) by {
                if station_lookup@.contains_key(id) {
                    assert(stations@[station_lookup@[id] as int].0 == id);
                }
                if has_station(stations@, id) {
                    let a = choose|a: int| 0 <= a < stations@.len() && (#[trigger] stations@[a]).0 == id;
                    assert(station_list@[a].id == id);
                }
            }
        }
        let mut interval_list: Vec<Interval> = Vec::new();
        let mut graph: DiGraphMap<StationID, usize> = graph_new();
        let mut j: usize = 0;
        while j < intervals.len()
            invariant
                0 <= j <= intervals.len(),
                intervals == &raw_input.intervals,
                stations == &raw_input.stations,
                interval_list@.len() == j,
                first_interval_defect(*raw_input, 0) == first_interval_defect(*raw_input, j as int),
                forall|id: StationID|
                    has_station(stations@, id) == station_lookup@.contains_key(id),
                forall|a: int|
                    #![trigger interval_list@[a]]
                    #![trigger intervals@[a]]
                    0 <= a < j ==> {
                        &&& interval_list@[a].from == intervals@[a].0.0
                        &&& interval_list@[a].to == intervals@[a].0.1
                        &&& interval_list@[a].length == intervals@[a].1.length
                        &&& interval_list@[a].trains@.len() == 0
                        &&& station_lookup@.contains_key(interval_list@[a].from)
                        &&& station_lookup@.contains_key(interval_list@[a].to)
                        &&& graph_edges(graph).contains_key(intervals@[a].0)
                        &&& graph_edges(graph)[intervals@[a].0] == a
                    },
                forall|key: IntervalID| #[trigger]
                    graph_edges(graph).contains_key(key) ==> graph_edges(graph)[key] < j
                        && intervals@[graph_edges(graph)[key] as int].0 == key,
            decreases intervals.len() - j,
        {
            let from: StationID = intervals[j].0.0;
            let to: StationID = intervals[j].0.1;
            let length = intervals[j].1.length;
            if !station_lookup.contains_key(&from) {
                return Err(NetworkError::UnknownStation(from));
            }
            if !station_lookup.contains_key(&to) {
                return Err(NetworkError::UnknownStation(to));
            }
            if graph_edge_weight(&graph, from, to).is_some() {
                proof {
                    let k = graph_edges(graph)[(from, to)] as int;
                    assert(0 <= k < j && intervals@[k].0 == intervals@[j as int].0);
                }
                return Err(NetworkError::DuplicateInterval(from, to));
            }
            assert(interval_defect(*raw_input, j as int).is_none());
            graph_add_edge(&mut graph, from, to, j);
            interval_list.push(Interval { from, to, length, trains: Vec::new() });
            j += 1;
        }
        let mut train_list: Vec<Train> = Vec::new();
        let mut train_lookup: HashMap<TrainID, usize> = HashMap::new();
        let mut t: usize = 0;
        while t < trains.len()
            invariant
                0 <= t <= trains.len(),
                trains == &raw_input.trains,
                stations == &raw_input.stations,
                train_list@.len() == t,
                first_train_defect(*raw_input, 0) == first_train_defect(*raw_input, t as int),
                forall|id: StationID|
                    has_station(stations@, id) == station_lookup@.contains_key(id),
                forall|a: int|
                    #![trigger train_list@[a]]
                    #![trigger trains@[a]]
                    0 <= a < t ==> {
                        &&& train_list@[a].id == trains@[a].0
                        &&& train_list@[a].entries@ == Seq::new(
                            trains@[a].1.schedule@.len(),
                            |k: int|
                                (trains@[a].1.schedule@[k].0, schedule_of(trains@[a].1.schedule@[k].1)),
                        )
                        &&& train_list@[a].wf()
                        &&& train_lookup@.contains_key(trains@[a].0)
                        &&& train_lookup@[trains@[a].0] == a
                        &&& forall|k: int|
                            0 <= k < trains@[a].1.schedule@.len() ==> station_lookup@.contains_key(
                                (#[trigger] trains@[a].1.schedule@[k]).0,
                            )
                    },
                forall|id: TrainID| #[trigger]
                    train_lookup@.contains_key(id) ==> train_lookup@[id] < t
                        && trains@[train_lookup@[id] as int].0 == id,
            decreases trains.len() - t,
        {
            let id: TrainID = trains[t].0;
            if train_lookup.contains_key(&id) {
                proof {
                    let u = train_lookup@[id] as int;
                    assert(0 <= u < t && trains@[u].0 == trains@[t as int].0);
                }
                return Err(NetworkError::DuplicateTrain(id));
            }
            let schedule = &trains[t].1.schedule;
            let mut entries: Vec<(StationID, Schedule)> = Vec::new();
            let mut station_index: MultiMap<StationID, usize> = multimap_new();
            let mut k: usize = 0;
            assert(train_defect(*raw_input, t as int) == first_entry_defect(
                *raw_input,
                t as int,
                0,
            ));
            while k < schedule.len()
                invariant
                    0 <= k <= schedule.len(),
                    0 <= t < trains.len(),
                    trains == &raw_input.trains,
                    stations == &raw_input.stations,
                    schedule == &trains@[t as int].1.schedule,
                    entries@.len() == k,
                    train_defect(*raw_input, t as int) == first_entry_defect(
                        *raw_input,
                        t as int,
                        k as int,
                    ),
                    forall|id: StationID|
                        has_station(stations@, id) == station_lookup@.contains_key(id),
                    forall|a: int|
                        0 <= a < k ==> (#[trigger] entries@[a]) == (
                            schedule@[a].0,
                            schedule_of(schedule@[a].1),
                        ) && station_lookup@.contains_key(schedule@[a].0),
                    index_matches(station_index, entry_stations(entries@), k as int),
                decreases schedule.len() - k,
            {
                let sid: StationID = schedule[k].0;
                let entry = schedule[k].1;
                if !station_lookup.contains_key(&sid) {
                    return Err(NetworkError::UnknownStation(sid));
                }
                let ghost before = entries@;
                let ghost index_before = station_index;
                multimap_insert(&mut station_index, sid, k);
                entries.push(
                    (sid, Schedule { arr: entry.arrival, dep: entry.departure, track: entry.track }),
                );
                proof {
                    lemma_positions_prefix(
                        entry_stations(before),
                        entry_stations(entries@),
                        k as int,
                    );
                    assert forall|s: StationID|
                        {
                            &&& multimap_entries(station_index).contains_key(s)
                                <==> #[trigger] positions(
                                entry_stations(entries@),
                                s,
                                k + 1,
                            ).len() > 0
                            &&& multimap_entries(station_index).contains_key(s)
                                ==> multimap_entries(station_index)[s] == positions(
                                entry_stations(entries@),
                                s,
                                k + 1,
                            )
                        } by {
                        let old_pos = positions(entry_stations(before), s, k as int);
                        assert(positions(entry_stations(entries@), s, k as int) == old_pos);
                        assert(old_pos.len() > 0 <==> multimap_entries(index_before).contains_key(
                            s,
                        ));
                        if s == sid {
                            if !multimap_entries(index_before).contains_key(s) {
                                assert(old_pos =~= Seq::empty());
                                assert(seq![k] =~= old_pos.push(k));
                            }
                        }
                    }
                }
                k += 1;
            }
            assert(entries@ =~= Seq::new(
                schedule@.len(),
                |k: int| (schedule@[k].0, schedule_of(schedule@[k].1)),
            ));
            train_lookup.insert(id, t);
            train_list.push(Train { id, entries, station_index });
            proof {
                let a = t as int;
                assert(train_list@[a].entries@ =~= Seq::new(
                    trains@[a].1.schedule@.len(),
                    |k: int|
                        (trains@[a].1.schedule@[k].0, schedule_of(trains@[a].1.schedule@[k].1)),
                ));
                assert(train_list@[a].wf());
                assert forall|k: int|
                    0 <= k < trains@[a].1.schedule@.len() implies station_lookup@.contains_key(
                    (#[trigger] trains@[a].1.schedule@[k]).0,
                ) by {
                    assert(train_list@[a].entries@[k].0 == schedule@[k].0);
                }
            }
            t += 1;
        }
        let mut network = Network {
            stations: station_list,
            station_lookup,
            intervals: interval_list,
            graph,
            trains: train_list,
            train_lookup,
        };
        assert(network.wf_index());
        assert(network.represents(*raw_input));
        assert(network.schedules_resolved()) by {
            assert forall|t: int, k: int|
                0 <= t < network.trains@.len() && 0 <= k < network.trains@[t].entries@.len()
                    implies network.station_lookup@.contains_key(
                    (#[trigger] network.trains@[t].entries@[k]).0,
                ) by {
                assert(network.trains@[t].id == trains@[t].0);
                assert(station_lookup@.contains_key(trains@[t].1.schedule@[k].0));
            }
        }
        network.finalize_trains();
        Ok(network)
    }

    /// Fills the occupancy lists: walks every train's calls once, records
    /// each call at its station and each pair of consecutive calls on the
    /// interval between them. A call at an unknown station, or a pair with no
    /// interval between them, is passed over.
    pub(crate) fn finalize_trains(&mut self)
        requires
            old(self).wf_index(),
            forall|i: int|
                0 <= i < old(self).stations@.len() ==> (#[trigger] old(self).stations@[i]).trains@.len()
                    == 0,
            forall|j: int|
                0 <= j < old(self).intervals@.len() ==> (#[trigger] old(
                    self,
                ).intervals@[j]).trains@.len() == 0,
        ensures
            final(self).wf(),
            final(self).same_records(*old(self)),
    {
        let mut t: usize = 0;
        proof {
            assert forall|i: int| 0 <= i < self.stations@.len() implies (
            #[trigger] self.stations@[i]).trains@ == station_trains(
                self.trains@,
                self.stations@[i].id,
                0,
            ) by {
                assert(self.stations@[i].trains@ =~= Seq::empty());
            }
            assert forall|j: int| 0 <= j < self.intervals@.len() implies (
            #[trigger] self.intervals@[j]).trains@ == interval_trains(
                self.trains@,
                self.intervals@[j].from,
                self.intervals@[j].to,
                0,
            ) by {
                assert(self.intervals@[j].trains@ =~= Seq::empty());
            }
        }
        while t < self.trains.len()
            invariant
                0 <= t <= self.trains.len(),
                self.wf_index(),
                self.same_records(*old(self)),
                self.occupancy_upto(t as int),
            decreases self.trains.len() - t,
        {
            let id: TrainID = self.trains[t].id;
            let n: usize = self.trains[t].entries.len();
            let mut k: usize = 0;
            while k < n
                invariant
                    0 <= k <= n,
                    0 <= t < self.trains.len(),
                    n == self.trains@[t as int].entries@.len(),
                    id == self.trains@[t as int].id,
                    self.wf_index(),
                    self.same_records(*old(self)),
                    forall|i: int|
                        0 <= i < self.stations@.len() ==> (#[trigger] self.stations@[i]).trains@
                            == station_trains(self.trains@, self.stations@[i].id, t as int)
                            + train_visits(
                            self.trains@[t as int].entries@,
                            id,
                            self.stations@[i].id,
                            k as int,
                        ),
                    forall|j: int|
                        0 <= j < self.intervals@.len() ==> (#[trigger] self.intervals@[j]).trains@
                            == interval_trains(
                            self.trains@,
                            self.intervals@[j].from,
                            self.intervals@[j].to,
                            t as int,
                        ) + train_runs(
                            self.trains@[t as int].entries@,
                            id,
                            self.intervals@[j].from,
                            self.intervals@[j].to,
                            k as int,
                        ),
                decreases n - k,
            {
                let sid: StationID = self.trains[t].entries[k].0;
                let ghost before = *self;
                match self.station_lookup.get(&sid) {
                    Some(found) => {
                        let idx: usize = *found;
                        self.stations[idx].trains.push(id);
                        assert(self.wf_index());
                    },
                    None => {},
                }
                let ghost middle = *self;
                if k + 1 < n {
                    let next: StationID = self.trains[t].entries[k + 1].0;
                    match graph_edge_weight(&self.graph, sid, next) {
                        Some(idx) => {
                            self.intervals[idx].trains.push(id);
                            assert(self.wf_index());
                        },
                        None => {},
                    }
                }
                proof {
                    let entries = self.trains@[t as int].entries@;
                    assert forall|i: int| 0 <= i < self.stations@.len() implies (
                    #[trigger] self.stations@[i]).trains@ == station_trains(
                        self.trains@,
                        self.stations@[i].id,
                        t as int,
                    ) + train_visits(entries, id, self.stations@[i].id, k + 1) by {
                        let s = self.stations@[i].id;
                        let base = station_trains(self.trains@, s, t as int);
                        let part = train_visits(entries, id, s, k as int);
                        assert(before.stations@[i].trains@ == base + part);
                        if s == sid {
                            assert((base + part).push(id) =~= base + part.push(id));
                        }
                    }
                    assert forall|j: int| 0 <= j < self.intervals@.len() implies (
                    #[trigger] self.intervals@[j]).trains@ == interval_trains(
                        self.trains@,
                        self.intervals@[j].from,
                        self.intervals@[j].to,
                        t as int,
                    ) + train_runs(
                        entries,
                        id,
                        self.intervals@[j].from,
                        self.intervals@[j].to,
                        k + 1,
                    ) by {
                        let from = self.intervals@[j].from;
                        let to = self.intervals@[j].to;
                        let base = interval_trains(self.trains@, from, to, t as int);
                        let part = train_runs(entries, id, from, to, k as int);
                        assert(middle.intervals@[j].trains@ == base + part);
                        if k + 1 < n && from == sid && to == entries[k + 1].0 {
                            assert((base + part).push(id) =~= base + part.push(id));
                        }
                    }
                }
                k += 1;
            }
            t += 1;
        }
    }

    /// The stations, intervals and trains are those of `other`, but for the
    /// occupancy lists.
    pub open spec fn same_records(&self, other: Network) -> bool {
        &&& self.station_lookup == other.station_lookup
        &&& self.graph == other.graph
        &&& self.train_lookup == other.train_lookup
        &&& self.trains == other.trains
        &&& self.stations@.len() == other.stations@.len()
        &&& forall|i: int|
            0 <= i < self.stations@.len() ==> {
                &&& (#[trigger] self.stations@[i]).id == other.stations@[i].id
                &&& self.stations@[i].position == other.stations@[i].position
                &&& self.stations@[i].tracks == other.stations@[i].tracks
            }
        &&& self.intervals@.len() == other.intervals@.len()
        &&& forall|j: int|
            0 <= j < self.intervals@.len() ==> {
                &&& (#[trigger] self.intervals@[j]).from == other.intervals@[j].from
                &&& self.intervals@[j].to == other.intervals@[j].to
                &&& self.intervals@[j].length == other.intervals@[j].length
            }
    }

    /// An interval is in the network exactly where the graph has its edge.
    pub proof fn lemma_has_interval(&self, from: StationID, to: StationID)
        requires
            self.wf_index(),
        ensures
            self.has_interval(from, to) <==> graph_edges(self.graph).contains_key((from, to)),
    {
        if self.has_interval(from, to) {
            let j = choose|j: int|
                0 <= j < self.intervals@.len() && (#[trigger] self.intervals@[j]).from == from
                    && self.intervals@[j].to == to;
            assert(graph_edges(self.graph).contains_key(
                (self.intervals@[j].from, self.intervals@[j].to),
            ));
        }
        if graph_edges(self.graph).contains_key((from, to)) {
            let j = graph_edges(self.graph)[(from, to)] as int;
            assert(self.intervals@[j].from == from);
        }
    }

    /// The stations that an interval reaches from `station`, each once, in
    /// no stated order.
    pub fn neighbor_stations(&self, station: StationID) -> (out: Vec<StationID>)
        requires
            self.wf(),
        ensures
            out@.no_duplicates(),
            forall|to: StationID| #[trigger] out@.contains(to) <==> self.has_interval(station, to),
    {
        let out = graph_neighbors(&self.graph, station);
        proof {
            assert forall|to: StationID| #[trigger] out@.contains(to) <==> self.has_interval(
                station,
                to,
            ) by {
                self.lemma_has_interval(station, to);
            }
        }
        out
    }

    /// The length of the interval from the first station of `interval_id` to
    /// the second, if the network has that interval.
    pub fn get_interval_length(&self, interval_id: IntervalID) -> (r: Option<IntervalLength>)
        requires
            self.wf(),
        ensures
            r.is_some() == self.has_interval(interval_id.0, interval_id.1),
            r.is_some() ==> exists|j: int|
                0 <= j < self.intervals@.len() && (#[trigger] self.intervals@[j]).from
                    == interval_id.0 && self.intervals@[j].to == interval_id.1
                    && self.intervals@[j].length == r.unwrap(),
    {
        let from: StationID = interval_id.0;
        let to: StationID = interval_id.1;
        match graph_edge_weight(&self.graph, from, to) {
            Some(idx) => Some(self.intervals[idx].length),
            None => None,
        }
    }
}

/// The places of a station among the first `upto` calls do not depend on
/// later calls.
pub proof fn lemma_positions_prefix(a: Seq<StationID>, b: Seq<StationID>, upto: int)
    requires
        0 <= upto <= a.len(),
        upto <= b.len(),
        forall|i: int| 0 <= i < upto ==> a[i] == b[i],
    ensures
        forall|s: StationID| positions(a, s, upto) == positions(b, s, upto),
    decreases upto,
{
    if upto > 0 {
        lemma_positions_prefix(a, b, upto - 1);
    }
    assert forall|s: StationID| positions(a, s, upto) == positions(b, s, upto) by {
        if upto > 0 {
            assert(positions(a, s, upto - 1) == positions(b, s, upto - 1));
        }
    }
}

} // verus!
