use crate::collections::{
    graph_add_edge, graph_edge_weight, graph_edges, graph_neighbors, graph_new, multimap_entries,
    multimap_insert, multimap_new,
};
use crate::models::graph::{
    entry_stations, index_matches, lemma_positions_prefix, positions, Interval, Network,
    NetworkError, Schedule, Station, Train,
};
use crate::types::{IntervalID, IntervalLength, StationID, Track, TrainID};
use multimap::MultiMap;
use petgraph::graphmap::DiGraphMap;
use std::collections::HashMap;
use std::collections::HashSet;
use vstd::prelude::*;

verus! {

broadcast use vstd::std_specs::hash::group_hash_axioms;

/// A station as a record: what it is, without the trains that call at it.
pub struct StationRecord {
    pub id: StationID,
    pub position: u32,
    pub tracks: Track,
}

/// An interval as a record, without the trains that run over it.
pub struct IntervalRecord {
    pub from: StationID,
    pub to: StationID,
    pub length: IntervalLength,
}

/// A train as a record: its identifier and its calls.
pub struct TrainRecord {
    pub id: TrainID,
    pub entries: Seq<(StationID, Schedule)>,
}

/// The records of a network: its stations, intervals and trains in order.
/// The lookups and the occupancy lists of a well-formed network follow
/// from them.
pub struct Records {
    pub stations: Seq<StationRecord>,
    pub intervals: Seq<IntervalRecord>,
    pub trains: Seq<TrainRecord>,
}

/// The record of a station.
pub open spec fn station_record(s: Station) -> StationRecord {
    StationRecord { id: s.id, position: s.position, tracks: s.tracks }
}

/// The record of an interval.
pub open spec fn interval_record(i: Interval) -> IntervalRecord {
    IntervalRecord { from: i.from, to: i.to, length: i.length }
}

/// The record of a train.
pub open spec fn train_record(t: Train) -> TrainRecord {
    TrainRecord { id: t.id, entries: t.entries@ }
}

/// The station is requested: it is listed, or it is an end of a listed
/// interval.
pub open spec fn is_seed(ri: Seq<IntervalID>, rs: Seq<StationID>, id: StationID) -> bool {
    rs.contains(id) || exists|i: int|
        0 <= i < ri.len() && ((#[trigger] ri[i]).0 == id || ri[i].1 == id)
}

/// The station is kept: it is requested, or an interval leads to it from a
/// requested station.
pub open spec fn is_kept(rec: Records, ri: Seq<IntervalID>, rs: Seq<StationID>, id: StationID) -> bool {
    is_seed(ri, rs, id) || exists|j: int|
        0 <= j < rec.intervals.len() && is_seed(ri, rs, (#[trigger] rec.intervals[j]).from)
            && rec.intervals[j].to == id
}

/// The stations that are kept.
pub open spec fn keep_station(rec: Records, ri: Seq<IntervalID>, rs: Seq<StationID>) -> spec_fn(
    StationRecord,
) -> bool {
    |s: StationRecord| is_kept(rec, ri, rs, s.id)
}

/// The intervals that are kept: those between two kept stations.
pub open spec fn keep_interval(rec: Records, ri: Seq<IntervalID>, rs: Seq<StationID>) -> spec_fn(
    IntervalRecord,
) -> bool {
    |i: IntervalRecord| is_kept(rec, ri, rs, i.from) && is_kept(rec, ri, rs, i.to)
}

/// The train calls at a kept station.
pub open spec fn train_touches(
    rec: Records,
    ri: Seq<IntervalID>,
    rs: Seq<StationID>,
    t: TrainRecord,
) -> bool {
    exists|k: int| 0 <= k < t.entries.len() && is_kept(rec, ri, rs, (#[trigger] t.entries[k]).0)
}

/// The trains that are kept: those that call at a kept station.
pub open spec fn keep_train(rec: Records, ri: Seq<IntervalID>, rs: Seq<StationID>) -> spec_fn(
    TrainRecord,
) -> bool {
    |t: TrainRecord| train_touches(rec, ri, rs, t)
}

/// The records that are left when a network is filtered to a request: the
/// kept stations, the intervals between them and the trains that call at
/// them, each list in its order.
pub open spec fn spec_filter(rec: Records, ri: Seq<IntervalID>, rs: Seq<StationID>) -> Records {
    Records {
        stations: rec.stations.filter(keep_station(rec, ri, rs)),
        intervals: rec.intervals.filter(keep_interval(rec, ri, rs)),
        trains: rec.trains.filter(keep_train(rec, ri, rs)),
    }
}

/// The records hold an interval from `from` to `to`.
pub open spec fn records_have_interval(rec: Records, from: StationID, to: StationID) -> bool {
    exists|j: int|
        0 <= j < rec.intervals.len() && (#[trigger] rec.intervals[j]).from == from
            && rec.intervals[j].to == to
}

/// The records hold a station `id`.
pub open spec fn records_have_station(rec: Records, id: StationID) -> bool {
    exists|i: int| 0 <= i < rec.stations.len() && (#[trigger] rec.stations[i]).id == id
}

/// The first requested interval, from place `from` on, that the records do
/// not hold.
pub open spec fn first_missing_interval(rec: Records, ri: Seq<IntervalID>, from: int) -> Option<
    NetworkError,
>
    decreases ri.len() - from,
{
    if from < 0 || from >= ri.len() {
        None
    } else if !records_have_interval(rec, ri[from].0, ri[from].1) {
        Some(NetworkError::MissingInterval(ri[from].0, ri[from].1))
    } else {
        first_missing_interval(rec, ri, from + 1)
    }
}

/// The first requested station, from place `from` on, that the records do
/// not hold.
pub open spec fn first_missing_station(rec: Records, rs: Seq<StationID>, from: int) -> Option<
    NetworkError,
>
    decreases rs.len() - from,
{
    if from < 0 || from >= rs.len() {
        None
    } else if !records_have_station(rec, rs[from]) {
        Some(NetworkError::MissingStation(rs[from]))
    } else {
        first_missing_station(rec, rs, from + 1)
    }
}

/// Why the request cannot be met, if so: the first requested interval that
/// is missing, else the first requested station that is missing.
pub open spec fn filter_error(rec: Records, ri: Seq<IntervalID>, rs: Seq<StationID>) -> Option<
    NetworkError,
> {
    if first_missing_interval(rec, ri, 0).is_some() {
        first_missing_interval(rec, ri, 0)
    } else {
        first_missing_station(rec, rs, 0)
    }
}

/// The stations of a set, as a test on station records.
pub open spec fn station_in(kept: Set<StationID>) -> spec_fn(StationRecord) -> bool {
    |s: StationRecord| kept.contains(s.id)
}

/// The intervals between stations of a set, as a test on interval records.
pub open spec fn interval_in(kept: Set<StationID>) -> spec_fn(IntervalRecord) -> bool {
    |i: IntervalRecord| kept.contains(i.from) && kept.contains(i.to)
}

/// The trains that call at a station of a set, as a test on train records.
pub open spec fn train_in(kept: Set<StationID>) -> spec_fn(TrainRecord) -> bool {
    |t: TrainRecord| exists|k: int| 0 <= k < t.entries.len() && kept.contains((#[trigger] t.entries[k]).0)
}

impl Network {
    /// The records of the network.
    pub open spec fn records(&self) -> Records {
        Records {
            stations: self.stations@.map_values(|s: Station| station_record(s)),
            intervals: self.intervals@.map_values(|i: Interval| interval_record(i)),
            trains: self.trains@.map_values(|t: Train| train_record(t)),
        }
    }

    /// A station is in the records exactly where the lookup has it.
    pub proof fn lemma_has_station(&self, id: StationID)
        requires
            self.wf_index(),
        ensures
            records_have_station(self.records(), id) <==> self.station_lookup@.contains_key(id),
    {
        let rec = self.records();
        if records_have_station(rec, id) {
            let i = choose|i: int| 0 <= i < rec.stations.len() && (#[trigger] rec.stations[i]).id == id;
            assert(self.stations@[i].id == id);
        }
        if self.station_lookup@.contains_key(id) {
            let i = self.station_lookup@[id] as int;
            assert(rec.stations[i].id == id);
        }
    }

    /// An interval is in the records exactly where the graph has its edge.
    pub proof fn lemma_records_interval(&self, from: StationID, to: StationID)
        requires
            self.wf_index(),
        ensures
            records_have_interval(self.records(), from, to) <==> graph_edges(self.graph).contains_key(
                (from, to),
            ),
    {
        let rec = self.records();
        self.lemma_has_interval(from, to);
        if records_have_interval(rec, from, to) {
            let j = choose|j: int|
                0 <= j < rec.intervals.len() && (#[trigger] rec.intervals[j]).from == from
                    && rec.intervals[j].to == to;
            assert(self.intervals@[j].from == from && self.intervals@[j].to == to);
        }
        if self.has_interval(from, to) {
            let j = choose|j: int|
                0 <= j < self.intervals@.len() && (#[trigger] self.intervals@[j]).from == from
                    && self.intervals@[j].to == to;
            assert(rec.intervals[j].from == from && rec.intervals[j].to == to);
        }
    }

    /// Why the request cannot be met, if so.
    fn check_request(&self, ri: &Vec<IntervalID>, rs: &Vec<StationID>) -> (r: Option<NetworkError>)
        requires
            self.wf_index(),
        ensures
            r == filter_error(self.records(), ri@, rs@),
    {
        let mut i: usize = 0;
        while i < ri.len()
            invariant
                0 <= i <= ri@.len(),
                self.wf_index(),
                first_missing_interval(self.records(), ri@, 0) == first_missing_interval(
                    self.records(),
                    ri@,
                    i as int,
                ),
            decreases ri@.len() - i,
        {
            let from: StationID = ri[i].0;
            let to: StationID = ri[i].1;
            proof {
                self.lemma_records_interval(from, to);
            }
            if graph_edge_weight(&self.graph, from, to).is_none() {
                return Some(NetworkError::MissingInterval(from, to));
            }
            i += 1;
        }
        let mut k: usize = 0;
        while k < rs.len()
            invariant
                0 <= k <= rs@.len(),
                self.wf_index(),
                first_missing_interval(self.records(), ri@, 0).is_none(),
                first_missing_station(self.records(), rs@, 0) == first_missing_station(
                    self.records(),
                    rs@,
                    k as int,
                ),
            decreases rs@.len() - k,
        {
            let id: StationID = rs[k];
            proof {
                self.lemma_has_station(id);
            }
            if !self.station_lookup.contains_key(&id) {
                return Some(NetworkError::MissingStation(id));
            }
            k += 1;
        }
        None
    }

    /// Adds a station and the stations that an interval reaches from it.
    fn mark_seed(&self, kept: &mut HashSet<StationID>, s: StationID)
        requires
            self.wf_index(),
        ensures
            forall|id: StationID|
                #[trigger] final(kept)@.contains(id) <==> (old(kept)@.contains(id) || id == s
                    || records_have_interval(self.records(), s, id)),
    {
        kept.insert(s);
        let reached = graph_neighbors(&self.graph, s);
        let ghost start = kept@;
        let mut b: usize = 0;
        while b < reached.len()
            invariant
                0 <= b <= reached@.len(),
                forall|id: StationID|
                    #[trigger] kept@.contains(id) <==> (start.contains(id) || exists|a: int|
                        0 <= a < b && reached@[a] == id),
            decreases reached@.len() - b,
        {
            let ghost before = kept@;
            let nb: StationID = reached[b];
            kept.insert(nb);
            proof {
                assert forall|id: StationID| #[trigger]
                    kept@.contains(id) <==> (start.contains(id) || exists|a: int|
                        0 <= a < b + 1 && reached@[a] == id) by {
                    if before.contains(id) && !start.contains(id) {
                        let a = choose|a: int| 0 <= a < b && reached@[a] == id;
                        assert(0 <= a < b + 1 && reached@[a] == id);
                    }
                    if id == nb {
                        assert(0 <= b < b + 1 && reached@[b as int] == id);
                    }
                    if !start.contains(id) && exists|a: int| 0 <= a < b + 1 && reached@[a] == id {
                        let a = choose|a: int| 0 <= a < b + 1 && reached@[a] == id;
                        if a < b {
                            assert(0 <= a < b && reached@[a] == id);
                        }
                    }
                }
            }
            b += 1;
        }
        proof {
            assert forall|id: StationID|
                #[trigger] kept@.contains(id) <==> (old(kept)@.contains(id) || id == s
                    || records_have_interval(self.records(), s, id)) by {
                self.lemma_records_interval(s, id);
                if reached@.contains(id) {
                    let a = choose|a: int| 0 <= a < reached@.len() && reached@[a] == id;
                    assert(0 <= a < b && reached@[a] == id);
                }
            }
        }
    }

    /// The set of kept stations of a request.
    fn kept_set(&self, ri: &Vec<IntervalID>, rs: &Vec<StationID>) -> (kept: HashSet<StationID>)
        requires
            self.wf_index(),
        ensures
            forall|id: StationID|
                #[trigger] kept@.contains(id) <==> is_kept(self.records(), ri@, rs@, id),
    {
        let mut kept: HashSet<StationID> = HashSet::new();
        let ghost rec = self.records();
        let mut k: usize = 0;
        while k < rs.len()
            invariant
                0 <= k <= rs@.len(),
                self.wf_index(),
                rec == self.records(),
                forall|id: StationID|
                    #[trigger] kept@.contains(id) <==> exists|a: int|
                        0 <= a < k && (#[trigger] rs@[a] == id || records_have_interval(
                            rec,
                            rs@[a],
                            id,
                        )),
            decreases rs@.len() - k,
        {
            let ghost before = kept@;
            self.mark_seed(&mut kept, rs[k]);
            proof {
                assert forall|id: StationID|
                    #[trigger] kept@.contains(id) <==> exists|a: int|
                        0 <= a < k + 1 && (#[trigger] rs@[a] == id || records_have_interval(
                            rec,
                            rs@[a],
                            id,
                        )) by {
                    if before.contains(id) {
                        let a = choose|a: int|
                            0 <= a < k && (#[trigger] rs@[a] == id || records_have_interval(
                                rec,
                                rs@[a],
                                id,
                            ));
                        assert(0 <= a < k + 1);
                    }
                    if rs@[k as int] == id || records_have_interval(rec, rs@[k as int], id) {
                        assert(0 <= k < k + 1);
                    }
                }
            }
            k += 1;
        }
        let ghost listed = kept@;
        let mut i: usize = 0;
        while i < ri.len()
            invariant
                0 <= i <= ri@.len(),
                self.wf_index(),
                rec == self.records(),
                forall|id: StationID|
                    #[trigger] kept@.contains(id) <==> (listed.contains(id) || exists|a: int|
                        0 <= a < i && (#[trigger] ri@[a].0 == id || ri@[a].1 == id
                            || records_have_interval(rec, ri@[a].0, id) || records_have_interval(
                            rec,
                            ri@[a].1,
                            id,
                        ))),
            decreases ri@.len() - i,
        {
            let ghost before = kept@;
            self.mark_seed(&mut kept, ri[i].0);
            self.mark_seed(&mut kept, ri[i].1);
            proof {
                assert forall|id: StationID|
                    #[trigger] kept@.contains(id) <==> (listed.contains(id) || exists|a: int|
                        0 <= a < i + 1 && (#[trigger] ri@[a].0 == id || ri@[a].1 == id
                            || records_have_interval(rec, ri@[a].0, id) || records_have_interval(
                            rec,
                            ri@[a].1,
                            id,
                        ))) by {
                    if before.contains(id) && !listed.contains(id) {
                        let a = choose|a: int|
                            0 <= a < i && (#[trigger] ri@[a].0 == id || ri@[a].1 == id
                                || records_have_interval(rec, ri@[a].0, id)
                                || records_have_interval(rec, ri@[a].1, id));
                        assert(0 <= a < i + 1);
                    }
                    let x = ri@[i as int];
                    if x.0 == id || x.1 == id || records_have_interval(rec, x.0, id)
                        || records_have_interval(rec, x.1, id) {
                        assert(0 <= i < i + 1);
                    }
                }
            }
            i += 1;
        }
        proof {
            assert forall|id: StationID| #[trigger] kept@.contains(id) <==> is_kept(rec, ri@, rs@, id) by {
                lemma_kept_by_seeds(rec, ri@, rs@, id);
            }
        }
        kept
    }
}

/// A copy of a train, with its index of calls built anew.
fn copy_train(train: &Train) -> (copy: Train)
    ensures
        copy.id == train.id,
        copy.entries@ == train.entries@,
        copy.wf(),
{
    let mut entries: Vec<(StationID, Schedule)> = Vec::new();
    let mut station_index: MultiMap<StationID, usize> = multimap_new();
    let mut k: usize = 0;
    while k < train.entries.len()
        invariant
            0 <= k <= train.entries@.len(),
            entries@ == train.entries@.subrange(0, k as int),
            index_matches(station_index, entry_stations(entries@), k as int),
        decreases train.entries@.len() - k,
    {
        let sid: StationID = train.entries[k].0;
        let call: Schedule = train.entries[k].1;
        let ghost before = entries@;
        let ghost index_before = station_index;
        multimap_insert(&mut station_index, sid, k);
        entries.push((sid, call));
        proof {
            assert(entries@ =~= train.entries@.subrange(0, k + 1));
            lemma_positions_prefix(entry_stations(before), entry_stations(entries@), k as int);
            assert forall|s: StationID|
                {
                    &&& multimap_entries(station_index).contains_key(s) <==> #[trigger] positions(
                        entry_stations(entries@),
                        s,
                        k + 1,
                    ).len() > 0
                    &&& multimap_entries(station_index).contains_key(s) ==> multimap_entries(
                        station_index,
                    )[s] == positions(entry_stations(entries@), s, k + 1)
                } by {
                let old_pos = positions(entry_stations(before), s, k as int);
                assert(positions(entry_stations(entries@), s, k as int) == old_pos);
                assert(old_pos.len() > 0 <==> multimap_entries(index_before).contains_key(s));
                if s == sid {
                    if !multimap_entries(index_before).contains_key(s) {
                        assert(old_pos =~= Seq::empty());
                        assert(seq![k] =~= old_pos.push(k));
                    }
                }
            }
        }
        k += 1;
    }
    assert(entries@ =~= train.entries@);
    Train { id: train.id, entries, station_index }
}

/// Whether the train calls at a station of the set.
fn touches(train: &Train, kept: &HashSet<StationID>) -> (found: bool)
    ensures
        found == train_in(kept@)(train_record(*train)),
{
    let mut k: usize = 0;
    while k < train.entries.len()
        invariant
            0 <= k <= train.entries@.len(),
            forall|a: int| 0 <= a < k ==> !kept@.contains((#[trigger] train.entries@[a]).0),
        decreases train.entries@.len() - k,
    {
        if kept.contains(&train.entries[k].0) {
            assert(kept@.contains(train_record(*train).entries[k as int].0));
            return true;
        }
        k += 1;
    }
    false
}

impl Network {
    /// The stations of the set, in order, with their lookup.
    fn filter_stations(&self, kept: &HashSet<StationID>) -> (out: (
        Vec<Station>,
        HashMap<StationID, usize>,
    ))
        requires
            self.wf_index(),
        ensures
            out.0@.map_values(|s: Station| station_record(s)) == self.records().stations.filter(
                station_in(kept@),
            ),
            forall|a: int|
                0 <= a < out.0@.len() ==> {
                    &&& out.1@.contains_key((#[trigger] out.0@[a]).id)
                    &&& out.1@[out.0@[a].id] == a
                    &&& out.0@[a].tracks >= 1
                    &&& out.0@[a].trains@.len() == 0
                },
            forall|id: StationID| #[trigger]
                out.1@.contains_key(id) ==> out.1@[id] < out.0@.len() && out.0@[out.1@[id] as int].id
                    == id,
            forall|id: StationID| #[trigger]
                out.1@.contains_key(id) <==> self.station_lookup@.contains_key(id)
                    && kept@.contains(id),
    {
        let ghost rec = self.records().stations;
        let ghost pred = station_in(kept@);
        let mut list: Vec<Station> = Vec::new();
        let mut lookup: HashMap<StationID, usize> = HashMap::new();
        let mut i: usize = 0;
        assert(rec.subrange(0, 0).filter(pred) =~= Seq::empty()) by {
            rec.subrange(0, 0).lemma_filter_len(pred);
        }
        while i < self.stations.len()
            invariant
                0 <= i <= self.stations@.len(),
                self.wf_index(),
                rec == self.records().stations,
                pred == station_in(kept@),
                list@.map_values(|s: Station| station_record(s)) == rec.subrange(0, i as int).filter(
                    pred,
                ),
                forall|a: int|
                    0 <= a < list@.len() ==> {
                        &&& lookup@.contains_key((#[trigger] list@[a]).id)
                        &&& lookup@[list@[a].id] == a
                        &&& list@[a].tracks >= 1
                        &&& list@[a].trains@.len() == 0
                    },
                forall|id: StationID| #[trigger]
                    lookup@.contains_key(id) ==> lookup@[id] < list@.len() && list@[lookup@[id] as int].id
                        == id,
                forall|id: StationID| #[trigger]
                    lookup@.contains_key(id) <==> self.station_lookup@.contains_key(id)
                        && self.station_lookup@[id] < i && kept@.contains(id),
            decreases self.stations@.len() - i,
        {
            let id: StationID = self.stations[i].id;
            proof {
                assert(rec.subrange(0, i + 1) =~= rec.subrange(0, i as int).push(rec[i as int]));
                rec.subrange(0, i as int).lemma_filter_push(rec[i as int], pred);
                assert(self.stations@[i as int].id == id);
                assert(self.station_lookup@[id] == i);
            }
            if kept.contains(&id) {
                let ghost before = list@;
                let at: usize = list.len();
                lookup.insert(id, at);
                list.push(
                    Station {
                        id,
                        position: self.stations[i].position,
                        tracks: self.stations[i].tracks,
                        trains: Vec::new(),
                    },
                );
                assert(list@.map_values(|s: Station| station_record(s)) =~= before.map_values(
                    |s: Station| station_record(s),
                ).push(rec[i as int]));
            }
            i += 1;
        }
        assert(rec.subrange(0, i as int) =~= rec);
        (list, lookup)
    }

    /// The intervals between stations of the set, in order, with their
    /// graph.
    fn filter_intervals(&self, kept: &HashSet<StationID>) -> (out: (
        Vec<Interval>,
        DiGraphMap<StationID, usize>,
    ))
        requires
            self.wf_index(),
        ensures
            out.0@.map_values(|i: Interval| interval_record(i)) == self.records().intervals.filter(
                interval_in(kept@),
            ),
            forall|a: int|
                0 <= a < out.0@.len() ==> {
                    &&& graph_edges(out.1).contains_key(((#[trigger] out.0@[a]).from, out.0@[a].to))
                    &&& graph_edges(out.1)[(out.0@[a].from, out.0@[a].to)] == a
                    &&& out.0@[a].trains@.len() == 0
                    &&& kept@.contains(out.0@[a].from)
                    &&& kept@.contains(out.0@[a].to)
                    &&& self.station_lookup@.contains_key(out.0@[a].from)
                    &&& self.station_lookup@.contains_key(out.0@[a].to)
                },
            forall|key: IntervalID| #[trigger]
                graph_edges(out.1).contains_key(key) ==> graph_edges(out.1)[key] < out.0@.len()
                    && out.0@[graph_edges(out.1)[key] as int].from == key.0 && out.0@[graph_edges(
                    out.1,
                )[key] as int].to == key.1,
    {
        let ghost rec = self.records().intervals;
        let ghost pred = interval_in(kept@);
        let mut list: Vec<Interval> = Vec::new();
        let mut graph: DiGraphMap<StationID, usize> = graph_new();
        let mut j: usize = 0;
        assert(rec.subrange(0, 0).filter(pred) =~= Seq::empty()) by {
            rec.subrange(0, 0).lemma_filter_len(pred);
        }
        while j < self.intervals.len()
            invariant
                0 <= j <= self.intervals@.len(),
                self.wf_index(),
                rec == self.records().intervals,
                pred == interval_in(kept@),
                list@.map_values(|i: Interval| interval_record(i)) == rec.subrange(
                    0,
                    j as int,
                ).filter(pred),
                forall|a: int|
                    0 <= a < list@.len() ==> {
                        &&& graph_edges(graph).contains_key(((#[trigger] list@[a]).from, list@[a].to))
                        &&& graph_edges(graph)[(list@[a].from, list@[a].to)] == a
                        &&& list@[a].trains@.len() == 0
                        &&& kept@.contains(list@[a].from)
                        &&& kept@.contains(list@[a].to)
                        &&& self.station_lookup@.contains_key(list@[a].from)
                        &&& self.station_lookup@.contains_key(list@[a].to)
                    },
                forall|key: IntervalID| #[trigger]
                    graph_edges(graph).contains_key(key) ==> {
                        &&& graph_edges(graph)[key] < list@.len()
                        &&& list@[graph_edges(graph)[key] as int].from == key.0
                        &&& list@[graph_edges(graph)[key] as int].to == key.1
                        &&& graph_edges(self.graph).contains_key(key)
                        &&& graph_edges(self.graph)[key] < j
                    },
            decreases self.intervals@.len() - j,
        {
            let from: StationID = self.intervals[j].from;
            let to: StationID = self.intervals[j].to;
            proof {
                assert(rec.subrange(0, j + 1) =~= rec.subrange(0, j as int).push(rec[j as int]));
                rec.subrange(0, j as int).lemma_filter_push(rec[j as int], pred);
                assert(self.intervals@[j as int].from == from);
                assert(graph_edges(self.graph)[(from, to)] == j);
            }
            if kept.contains(&from) && kept.contains(&to) {
                let ghost before = list@;
                let at: usize = list.len();
                graph_add_edge(&mut graph, from, to, at);
                list.push(Interval { from, to, length: self.intervals[j].length, trains: Vec::new() });
                assert(list@.map_values(|i: Interval| interval_record(i)) =~= before.map_values(
                    |i: Interval| interval_record(i),
                ).push(rec[j as int]));
            }
            j += 1;
        }
        assert(rec.subrange(0, j as int) =~= rec);
        (list, graph)
    }

    /// The trains that call at a station of the set, in order, with their
    /// lookup.
    fn filter_trains(&self, kept: &HashSet<StationID>) -> (out: (
        Vec<Train>,
        HashMap<TrainID, usize>,
    ))
        requires
            self.wf_index(),
        ensures
            out.0@.map_values(|t: Train| train_record(t)) == self.records().trains.filter(
                train_in(kept@),
            ),
            forall|a: int|
                0 <= a < out.0@.len() ==> {
                    &&& out.1@.contains_key((#[trigger] out.0@[a]).id)
                    &&& out.1@[out.0@[a].id] == a
                    &&& out.0@[a].wf()
                },
            forall|id: TrainID| #[trigger]
                out.1@.contains_key(id) ==> out.1@[id] < out.0@.len() && out.0@[out.1@[id] as int].id
                    == id,
    {
        let ghost rec = self.records().trains;
        let ghost pred = train_in(kept@);
        let mut list: Vec<Train> = Vec::new();
        let mut lookup: HashMap<TrainID, usize> = HashMap::new();
        let mut t: usize = 0;
        assert(rec.subrange(0, 0).filter(pred) =~= Seq::empty()) by {
            rec.subrange(0, 0).lemma_filter_len(pred);
        }
        while t < self.trains.len()
            invariant
                0 <= t <= self.trains@.len(),
                self.wf_index(),
                rec == self.records().trains,
                pred == train_in(kept@),
                list@.map_values(|t: Train| train_record(t)) == rec.subrange(0, t as int).filter(
                    pred,
                ),
                forall|a: int|
                    0 <= a < list@.len() ==> {
                        &&& lookup@.contains_key((#[trigger] list@[a]).id)
                        &&& lookup@[list@[a].id] == a
                        &&& list@[a].wf()
                    },
                forall|id: TrainID| #[trigger]
                    lookup@.contains_key(id) ==> {
                        &&& lookup@[id] < list@.len()
                        &&& list@[lookup@[id] as int].id == id
                        &&& self.train_lookup@.contains_key(id)
                        &&& self.train_lookup@[id] < t
                    },
            decreases self.trains@.len() - t,
        {
            proof {
                assert(rec.subrange(0, t + 1) =~= rec.subrange(0, t as int).push(rec[t as int]));
                rec.subrange(0, t as int).lemma_filter_push(rec[t as int], pred);
                assert(self.train_lookup@[self.trains@[t as int].id] == t);
            }
            if touches(&self.trains[t], kept) {
                let ghost before = list@;
                let copy = copy_train(&self.trains[t]);
                let at: usize = list.len();
                lookup.insert(copy.id, at);
                list.push(copy);
                assert(list@.map_values(|t: Train| train_record(t)) =~= before.map_values(
                    |t: Train| train_record(t),
                ).push(rec[t as int]));
            }
            t += 1;
        }
        assert(rec.subrange(0, t as int) =~= rec);
        (list, lookup)
    }

    /// Filters the network to a request. The requested stations are those
    /// listed and the ends of the listed intervals; kept are the requested
    /// stations and the stations that an interval reaches from them, the
    /// intervals between kept stations, and the trains that call at a kept
    /// station. Fails where a listed interval or station is not in the
    /// network.
    pub fn filter_to(
        &self,
        requested_intervals: &Vec<IntervalID>,
        requested_stations: &Vec<StationID>,
    ) -> (r: Result<Network, NetworkError>)
        requires
            self.wf(),
        ensures
            match r {
                Ok(net) => {
                    &&& filter_error(self.records(), requested_intervals@, requested_stations@).is_none()
                    &&& net.wf()
                    &&& net.records() == spec_filter(
                        self.records(),
                        requested_intervals@,
                        requested_stations@,
                    )
                },
                Err(e) => filter_error(self.records(), requested_intervals@, requested_stations@)
                    == Some(e),
            },
    {
        match self.check_request(requested_intervals, requested_stations) {
            Some(e) => {
                return Err(e);
            },
            None => {},
        }
        let kept = self.kept_set(requested_intervals, requested_stations);
        let ghost rec = self.records();
        let ghost ri = requested_intervals@;
        let ghost rs = requested_stations@;
        proof {
            assert(station_in(kept@) =~= keep_station(rec, ri, rs));
            assert(interval_in(kept@) =~= keep_interval(rec, ri, rs));
            assert forall|t: TrainRecord|
                train_in(kept@)(t) == #[trigger] keep_train(rec, ri, rs)(t) by {
                if train_in(kept@)(t) {
                    let k = choose|k: int|
                        0 <= k < t.entries.len() && kept@.contains((#[trigger] t.entries[k]).0);
                    assert(is_kept(rec, ri, rs, t.entries[k].0));
                }
                if train_touches(rec, ri, rs, t) {
                    let k = choose|k: int|
                        0 <= k < t.entries.len() && is_kept(rec, ri, rs, (#[trigger] t.entries[k]).0);
                    assert(kept@.contains(t.entries[k].0));
                }
            }
            assert(train_in(kept@) =~= keep_train(rec, ri, rs));
        }
        let (stations, station_lookup) = self.filter_stations(&kept);
        let (intervals, graph) = self.filter_intervals(&kept);
        let (trains, train_lookup) = self.filter_trains(&kept);
        let mut network = Network { stations, station_lookup, intervals, graph, trains, train_lookup };
        let ghost built = network;
        assert(network.wf_index());
        assert(network.records() =~= spec_filter(rec, ri, rs));
        network.finalize_trains();
        proof {
            assert(network.records().stations =~= built.records().stations);
            assert(network.records().intervals =~= built.records().intervals);
            assert(network.records().trains =~= built.records().trains);
        }
        Ok(network)
    }
}

/// A station is kept exactly where it is a listed station or an end of a
/// listed interval, or an interval leads to it from one of those.
pub proof fn lemma_kept_by_seeds(rec: Records, ri: Seq<IntervalID>, rs: Seq<StationID>, id: StationID)
    ensures
        is_kept(rec, ri, rs, id) <==> ((exists|a: int|
            0 <= a < rs.len() && (#[trigger] rs[a] == id || records_have_interval(rec, rs[a], id)))
            || (exists|a: int|
            0 <= a < ri.len() && (#[trigger] ri[a].0 == id || ri[a].1 == id
                || records_have_interval(rec, ri[a].0, id) || records_have_interval(
                rec,
                ri[a].1,
                id,
            )))),
{
    let by_station = exists|a: int|
        0 <= a < rs.len() && (#[trigger] rs[a] == id || records_have_interval(rec, rs[a], id));
    let by_interval = exists|a: int|
        0 <= a < ri.len() && (#[trigger] ri[a].0 == id || ri[a].1 == id || records_have_interval(
            rec,
            ri[a].0,
            id,
        ) || records_have_interval(rec, ri[a].1, id));
    if is_kept(rec, ri, rs, id) {
        if is_seed(ri, rs, id) {
            if rs.contains(id) {
                let a = choose|a: int| 0 <= a < rs.len() && rs[a] == id;
                assert(rs[a] == id || records_have_interval(rec, rs[a], id));
            } else {
                let a = choose|a: int| 0 <= a < ri.len() && ((#[trigger] ri[a]).0 == id || ri[a].1 == id);
                assert(ri[a].0 == id || ri[a].1 == id || records_have_interval(rec, ri[a].0, id)
                    || records_have_interval(rec, ri[a].1, id));
            }
        } else {
            let j = choose|j: int|
                0 <= j < rec.intervals.len() && is_seed(ri, rs, (#[trigger] rec.intervals[j]).from)
                    && rec.intervals[j].to == id;
            let s = rec.intervals[j].from;
            assert(records_have_interval(rec, s, id));
            if rs.contains(s) {
                let a = choose|a: int| 0 <= a < rs.len() && rs[a] == s;
                assert(rs[a] == id || records_have_interval(rec, rs[a], id));
            } else {
                let a = choose|a: int| 0 <= a < ri.len() && ((#[trigger] ri[a]).0 == s || ri[a].1 == s);
                assert(ri[a].0 == id || ri[a].1 == id || records_have_interval(rec, ri[a].0, id)
                    || records_have_interval(rec, ri[a].1, id));
            }
        }
        assert(by_station || by_interval);
    }
    if by_station {
        let a = choose|a: int|
            0 <= a < rs.len() && (#[trigger] rs[a] == id || records_have_interval(rec, rs[a], id));
        assert(rs.contains(rs[a]));
        assert(is_seed(ri, rs, rs[a]));
        if rs[a] != id {
            let j = choose|j: int|
                0 <= j < rec.intervals.len() && (#[trigger] rec.intervals[j]).from == rs[a]
                    && rec.intervals[j].to == id;
            assert(is_seed(ri, rs, rec.intervals[j].from));
        }
        assert(is_kept(rec, ri, rs, id));
    }
    if by_interval {
        let a = choose|a: int|
            0 <= a < ri.len() && (#[trigger] ri[a].0 == id || ri[a].1 == id
                || records_have_interval(rec, ri[a].0, id) || records_have_interval(
                rec,
                ri[a].1,
                id,
            ));
        let x = ri[a];
        assert(is_seed(ri, rs, x.0));
        assert(is_seed(ri, rs, x.1));
        if x.0 != id && x.1 != id {
            if records_have_interval(rec, x.0, id) {
                let j = choose|j: int|
                    0 <= j < rec.intervals.len() && (#[trigger] rec.intervals[j]).from == x.0
                        && rec.intervals[j].to == id;
                assert(is_seed(ri, rs, rec.intervals[j].from));
            } else {
                let j = choose|j: int|
                    0 <= j < rec.intervals.len() && (#[trigger] rec.intervals[j]).from == x.1
                        && rec.intervals[j].to == id;
                assert(is_seed(ri, rs, rec.intervals[j].from));
            }
        }
        assert(is_kept(rec, ri, rs, id));
    }
}

/// A filter keeps a sequence whole where every element passes the test.
pub proof fn lemma_filter_keeps_all<A>(s: Seq<A>, pred: spec_fn(A) -> bool)
    requires
        forall|i: int| 0 <= i < s.len() ==> pred(#[trigger] s[i]),
    ensures
        s.filter(pred) == s,
    decreases s.len(),
{
    reveal(Seq::filter);
    if s.len() > 0 {
        assert forall|i: int| 0 <= i < s.drop_last().len() implies pred(
            #[trigger] s.drop_last()[i],
        ) by {
            assert(s.drop_last()[i] == s[i]);
        }
        lemma_filter_keeps_all(s.drop_last(), pred);
        assert(pred(s.last()));
        assert(s.drop_last().push(s.last()) =~= s);
    }
}

/// The same stations are kept in the filtered records as in the records
/// they were filtered from.
pub proof fn lemma_kept_after_filter(
    rec: Records,
    ri: Seq<IntervalID>,
    rs: Seq<StationID>,
    id: StationID,
)
    ensures
        is_kept(spec_filter(rec, ri, rs), ri, rs, id) == is_kept(rec, ri, rs, id),
{
    let f = spec_filter(rec, ri, rs);
    let pred = keep_interval(rec, ri, rs);
    if is_kept(f, ri, rs, id) && !is_seed(ri, rs, id) {
        let j = choose|j: int|
            0 <= j < f.intervals.len() && is_seed(ri, rs, (#[trigger] f.intervals[j]).from)
                && f.intervals[j].to == id;
        assert(f.intervals.contains(f.intervals[j]));
        rec.intervals.lemma_filter_contains_rev(pred, f.intervals[j]);
        let k = choose|k: int| 0 <= k < rec.intervals.len() && rec.intervals[k] == f.intervals[j];
        assert(is_seed(ri, rs, rec.intervals[k].from) && rec.intervals[k].to == id);
    }
    if is_kept(rec, ri, rs, id) && !is_seed(ri, rs, id) {
        let k = choose|k: int|
            0 <= k < rec.intervals.len() && is_seed(ri, rs, (#[trigger] rec.intervals[k]).from)
                && rec.intervals[k].to == id;
        assert(is_kept(rec, ri, rs, rec.intervals[k].from));
        assert(pred(rec.intervals[k]));
        rec.intervals.lemma_filter_contains(pred, k);
        let j = choose|j: int| 0 <= j < f.intervals.len() && f.intervals[j] == rec.intervals[k];
        assert(is_seed(ri, rs, f.intervals[j].from) && f.intervals[j].to == id);
    }
}

/// Filtering is idempotent: a network that was filtered to a request is
/// left as it is when it is filtered to the same request again, and the
/// second filtering does not fail where the first did not.
pub proof fn lemma_filter_idempotent(rec: Records, ri: Seq<IntervalID>, rs: Seq<StationID>)
    ensures
        spec_filter(spec_filter(rec, ri, rs), ri, rs) == spec_filter(rec, ri, rs),
        filter_error(rec, ri, rs).is_none() ==> filter_error(
            spec_filter(rec, ri, rs),
            ri,
            rs,
        ).is_none(),
{
    let f = spec_filter(rec, ri, rs);
    let ff = spec_filter(f, ri, rs);
    assert forall|i: int| 0 <= i < f.stations.len() implies keep_station(f, ri, rs)(
        #[trigger] f.stations[i],
    ) by {
        rec.stations.lemma_filter_pred(keep_station(rec, ri, rs), i);
        lemma_kept_after_filter(rec, ri, rs, f.stations[i].id);
    }
    lemma_filter_keeps_all(f.stations, keep_station(f, ri, rs));
    assert forall|i: int| 0 <= i < f.intervals.len() implies keep_interval(f, ri, rs)(
        #[trigger] f.intervals[i],
    ) by {
        rec.intervals.lemma_filter_pred(keep_interval(rec, ri, rs), i);
        lemma_kept_after_filter(rec, ri, rs, f.intervals[i].from);
        lemma_kept_after_filter(rec, ri, rs, f.intervals[i].to);
    }
    lemma_filter_keeps_all(f.intervals, keep_interval(f, ri, rs));
    assert forall|i: int| 0 <= i < f.trains.len() implies keep_train(f, ri, rs)(
        #[trigger] f.trains[i],
    ) by {
        rec.trains.lemma_filter_pred(keep_train(rec, ri, rs), i);
        let t = f.trains[i];
        let k = choose|k: int|
            0 <= k < t.entries.len() && is_kept(rec, ri, rs, (#[trigger] t.entries[k]).0);
        lemma_kept_after_filter(rec, ri, rs, t.entries[k].0);
    }
    lemma_filter_keeps_all(f.trains, keep_train(f, ri, rs));
    if filter_error(rec, ri, rs).is_none() {
        lemma_request_still_met_intervals(rec, ri, rs, 0);
        lemma_request_still_met_stations(rec, ri, rs, 0);
    }
}

/// A requested interval that the records hold is still held after the
/// records were filtered to the request.
pub proof fn lemma_request_still_met_intervals(
    rec: Records,
    ri: Seq<IntervalID>,
    rs: Seq<StationID>,
    from: int,
)
    requires
        0 <= from,
        first_missing_interval(rec, ri, from).is_none(),
    ensures
        first_missing_interval(spec_filter(rec, ri, rs), ri, from).is_none(),
    decreases ri.len() - from,
{
    if from < ri.len() {
        let f = spec_filter(rec, ri, rs);
        let pred = keep_interval(rec, ri, rs);
        let k = choose|k: int|
            0 <= k < rec.intervals.len() && (#[trigger] rec.intervals[k]).from == ri[from].0
                && rec.intervals[k].to == ri[from].1;
        assert(is_seed(ri, rs, ri[from].0) && is_seed(ri, rs, ri[from].1));
        assert(pred(rec.intervals[k]));
        rec.intervals.lemma_filter_contains(pred, k);
        let j = choose|j: int| 0 <= j < f.intervals.len() && f.intervals[j] == rec.intervals[k];
        assert(f.intervals[j].from == ri[from].0 && f.intervals[j].to == ri[from].1);
        lemma_request_still_met_intervals(rec, ri, rs, from + 1);
    }
}

/// A requested station that the records hold is still held after the
/// records were filtered to the request.
pub proof fn lemma_request_still_met_stations(
    rec: Records,
    ri: Seq<IntervalID>,
    rs: Seq<StationID>,
    from: int,
)
    requires
        0 <= from,
        first_missing_station(rec, rs, from).is_none(),
    ensures
        first_missing_station(spec_filter(rec, ri, rs), rs, from).is_none(),
    decreases rs.len() - from,
{
    if from < rs.len() {
        let f = spec_filter(rec, ri, rs);
        let pred = keep_station(rec, ri, rs);
        let k = choose|k: int| 0 <= k < rec.stations.len() && (#[trigger] rec.stations[k]).id == rs[from];
        assert(rs.contains(rs[from]));
        assert(pred(rec.stations[k]));
        rec.stations.lemma_filter_contains(pred, k);
        let j = choose|j: int| 0 <= j < f.stations.len() && f.stations[j] == rec.stations[k];
        assert(f.stations[j].id == rs[from]);
        lemma_request_still_met_stations(rec, ri, rs, from + 1);
    }
}

} // verus!
