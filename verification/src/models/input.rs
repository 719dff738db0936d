use crate::types::{
    GraphLength, IntervalID, IntervalLength, ScaleMode, StationID, Time, Track, TrainID,
};
use crate::collections::{
    graph_add_edge, graph_edge_weight, graph_edges, graph_new, multimap_entries, multimap_insert,
    multimap_new,
};
use crate::models::graph::{index_matches, positions};
use multimap::MultiMap;
use petgraph::graphmap::DiGraphMap;
use vstd::prelude::*;

verus! {

/// A station as it is read: its number of tracks and its position along the
/// line, in metres.
#[derive(Debug, Clone, Copy, PartialEq, Eq, Structural)]
pub struct Station {
    pub tracks: Track,
    pub position: u32,
}

/// An interval as it is read, with the trains that run over it once the
/// network has been completed.
#[derive(Debug)]
pub struct Interval {
    pub length: IntervalLength,
    pub trains: Vec<TrainID>,
}

/// One visit of a train to a station.
#[derive(Debug, Clone, Copy, PartialEq, Eq, Structural)]
pub struct ScheduleEntry {
    pub arrival: Time,
    pub departure: Time,
    pub track: Option<Track>,
}

/// A train as it is read: its visits in order, and, once the network has
/// been completed, the places of each station among them.
pub struct Train {
    pub schedule: Vec<(StationID, ScheduleEntry)>,
    pub indices: MultiMap<StationID, usize>,
}

/// The records of a network, each list in the order it was read.
pub struct Network {
    pub stations: Vec<(StationID, Station)>,
    pub intervals: Vec<(IntervalID, Interval)>,
    pub trains: Vec<(TrainID, Train)>,
}

/// The records of a network as they arrive, before the trains of the
/// intervals and the indices of the trains have been filled in.
pub struct NetworkInput {
    pub stations: Vec<(StationID, Station)>,
    pub intervals: Vec<(IntervalID, Interval)>,
    pub trains: Vec<(TrainID, Train)>,
}

/// The stations visited by a schedule, in visit order.
pub open spec fn schedule_stations(schedule: Seq<(StationID, ScheduleEntry)>) -> Seq<StationID> {
    Seq::new(schedule.len(), |i: int| schedule[i].0)
}

/// The size of the label of a station, in drawing units.
#[derive(Debug, Clone, Copy, PartialEq, Eq, Structural)]
pub struct Label {
    pub station: StationID,
    pub width: u32,
    pub height: u32,
}

/// What is to be drawn, and how.
pub struct NetworkConfig {
    /// The intervals to draw; with the flag unset an interval stands for
    /// both of its directions.
    pub intervals_to_draw: Vec<(IntervalID, bool)>,
    /// Stations to draw besides the ends of those intervals.
    pub stations_to_draw: Vec<StationID>,
    /// The start of the visible window, in seconds of the day.
    pub begin: Time,
    /// The end of the visible window, in seconds of the day; at or before
    /// `begin` where the window runs over midnight.
    pub end: Time,
    pub position_scale_mode: ScaleMode,
    pub time_scale_mode: ScaleMode,
    pub position_axis_scale: u32,
    pub time_axis_scale: u32,
    /// The drawing length of one hour, and of one unit of interval length.
    pub unit_length: GraphLength,
    /// The distance between two tracks of one station.
    pub track_spacing: u32,
    /// The sizes of the station labels.
    pub labels: Vec<Label>,
    /// How many drawing units make one unit of the page; the fixed
    /// paddings and heights of the drawing are so many times as large.
    pub resolution: u32,
    /// Whether the collision rectangles are wanted.
    pub collisions: bool,
    /// Whether the occupancy of stations and intervals is wanted.
    pub occupancy: bool,
    /// Whether the traffic of each station by ten-minute slot is wanted.
    pub heatmap: bool,
}

/// The interval `x` is to be drawn: it is listed, or it is the reverse of a
/// listed interval whose flag is unset.
pub open spec fn draws_interval(items: Seq<(IntervalID, bool)>, x: IntervalID) -> bool {
    exists|i: int|
        0 <= i < items.len() && ((#[trigger] items[i]).0 == x || (!items[i].1 && items[i].0.1
            == x.0 && items[i].0.0 == x.1))
}

/// The station `s` is an end of a listed interval.
pub open spec fn draws_station(items: Seq<(IntervalID, bool)>, s: StationID) -> bool {
    exists|i: int|
        0 <= i < items.len() && ((#[trigger] items[i]).0.0 == s || items[i].0.1 == s)
}

/// Whether `x` is among `list`.
pub fn contains_interval(list: &Vec<IntervalID>, x: IntervalID) -> (found: bool)
    ensures
        found == list@.contains(x),
{
    let mut i: usize = 0;
    while i < list.len()
        invariant
            0 <= i <= list.len(),
            forall|j: int| 0 <= j < i ==> list@[j] != x,
        decreases list.len() - i,
    {
        if list[i].0 == x.0 && list[i].1 == x.1 {
            return true;
        }
        i += 1;
    }
    false
}

/// Whether `x` is among `list`.
pub fn contains_station(list: &Vec<StationID>, x: StationID) -> (found: bool)
    ensures
        found == list@.contains(x),
{
    let mut i: usize = 0;
    while i < list.len()
        invariant
            0 <= i <= list.len(),
            forall|j: int| 0 <= j < i ==> list@[j] != x,
        decreases list.len() - i,
    {
        if list[i] == x {
            return true;
        }
        i += 1;
    }
    false
}

impl NetworkConfig {
    /// The set of directed intervals to draw, each once: every listed
    /// interval, and the reverse of each whose flag is unset.
    pub fn intervals(&self) -> (out: Vec<IntervalID>)
        ensures
            out@.no_duplicates(),
            forall|x: IntervalID| out@.contains(x) <==> draws_interval(self.intervals_to_draw@, x),
    {
        let items = &self.intervals_to_draw;
        let mut out: Vec<IntervalID> = Vec::new();
        let mut i: usize = 0;
        while i < items.len()
            invariant
                0 <= i <= items.len(),
                out@.no_duplicates(),
                forall|x: IntervalID|
                    out@.contains(x) <==> draws_interval(items@.subrange(0, i as int), x),
            decreases items.len() - i,
        {
            let id: IntervalID = items[i].0;
            let reverse: bool = items[i].1;
            let ghost before = out@;
            if !contains_interval(&out, id) {
                out.push(id);
            }
            let ghost middle = out@;
            let back: IntervalID = (id.1, id.0);
            if !reverse && !contains_interval(&out, back) {
                out.push(back);
            }
            proof {
                let prev = items@.subrange(0, i as int);
                let next = items@.subrange(0, i + 1);
                assert forall|x: IntervalID| out@.contains(x) <==> draws_interval(next, x) by {
                    let listed = x == id || (!reverse && x == back);
                    assert(middle.contains(x) <==> before.contains(x) || x == id) by {
                        if middle.len() > before.len() {
                            assert(middle =~= before.push(id));
                            assert(middle[before.len() as int] == id);
                            if before.contains(x) {
                                let j = choose|j: int| 0 <= j < before.len() && before[j] == x;
                                assert(middle[j] == x);
                            }
                        }
                    }
                    assert(out@.contains(x) <==> middle.contains(x) || (!reverse && x == back)) by {
                        if out@.len() > middle.len() {
                            assert(out@ =~= middle.push(back));
                            assert(out@[middle.len() as int] == back);
                            if middle.contains(x) {
                                let j = choose|j: int| 0 <= j < middle.len() && middle[j] == x;
                                assert(out@[j] == x);
                            }
                        }
                    }
                    assert(draws_interval(next, x) <==> draws_interval(prev, x) || listed) by {
                        if draws_interval(prev, x) {
                            let j = choose|j: int|
                                0 <= j < prev.len() && ((#[trigger] prev[j]).0 == x || (!prev[j].1
                                    && prev[j].0.1 == x.0 && prev[j].0.0 == x.1));
                            assert(next[j] == prev[j]);
                        }
                        if listed {
                            assert(next[i as int] == items@[i as int]);
                        }
                        if draws_interval(next, x) {
                            let j = choose|j: int|
                                0 <= j < next.len() && ((#[trigger] next[j]).0 == x || (!next[j].1
                                    && next[j].0.1 == x.0 && next[j].0.0 == x.1));
                            if j < i {
                                assert(prev[j] == next[j]);
                            }
                        }
                    }
                }
            }
            i += 1;
        }
        assert(items@.subrange(0, i as int) =~= items@);
        out
    }

    /// The set of stations that are an end of a listed interval, each once.
    pub fn stations(&self) -> (out: Vec<StationID>)
        ensures
            out@.no_duplicates(),
            forall|s: StationID| out@.contains(s) <==> draws_station(self.intervals_to_draw@, s),
    {
        let items = &self.intervals_to_draw;
        let mut out: Vec<StationID> = Vec::new();
        let mut i: usize = 0;
        while i < items.len()
            invariant
                0 <= i <= items.len(),
                out@.no_duplicates(),
                forall|s: StationID|
                    out@.contains(s) <==> draws_station(items@.subrange(0, i as int), s),
            decreases items.len() - i,
        {
            let from: StationID = items[i].0.0;
            let to: StationID = items[i].0.1;
            let ghost before = out@;
            if !contains_station(&out, from) {
                out.push(from);
            }
            let ghost middle = out@;
            if !contains_station(&out, to) {
                out.push(to);
            }
            proof {
                let prev = items@.subrange(0, i as int);
                let next = items@.subrange(0, i + 1);
                assert forall|s: StationID| out@.contains(s) <==> draws_station(next, s) by {
                    assert(middle.contains(s) <==> before.contains(s) || s == from) by {
                        if middle.len() > before.len() {
                            assert(middle =~= before.push(from));
                            assert(middle[before.len() as int] == from);
                            if before.contains(s) {
                                let j = choose|j: int| 0 <= j < before.len() && before[j] == s;
                                assert(middle[j] == s);
                            }
                        }
                    }
                    assert(out@.contains(s) <==> middle.contains(s) || s == to) by {
                        if out@.len() > middle.len() {
                            assert(out@ =~= middle.push(to));
                            assert(out@[middle.len() as int] == to);
                            if middle.contains(s) {
                                let j = choose|j: int| 0 <= j < middle.len() && middle[j] == s;
                                assert(out@[j] == s);
                            }
                        }
                    }
                    assert(draws_station(next, s) <==> draws_station(prev, s) || s == from || s
                        == to) by {
                        if draws_station(prev, s) {
                            let j = choose|j: int|
                                0 <= j < prev.len() && ((#[trigger] prev[j]).0.0 == s
                                    || prev[j].0.1 == s);
                            assert(next[j] == prev[j]);
                        }
                        if s == from || s == to {
                            assert(next[i as int] == items@[i as int]);
                        }
                        if draws_station(next, s) {
                            let j = choose|j: int|
                                0 <= j < next.len() && ((#[trigger] next[j]).0.0 == s
                                    || next[j].0.1 == s);
                            if j < i {
                                assert(prev[j] == next[j]);
                            }
                        }
                    }
                }
            }
            i += 1;
        }
        assert(items@.subrange(0, i as int) =~= items@);
        out
    }
}

/// Among the first `upto` pairs of consecutive visits of a schedule, one
/// goes from the first station of `key` to the second.
pub open spec fn runs_over(schedule: Seq<(StationID, ScheduleEntry)>, key: IntervalID, upto: int) -> bool {
    exists|a: int|
        0 <= a < upto && a + 1 < schedule.len() && (#[trigger] schedule[a]).0 == key.0 && schedule[a
            + 1].0 == key.1
}

/// The first `upto` trains that run over the interval `key`, in order, each
/// once.
pub open spec fn runners(trains: Seq<(TrainID, Train)>, key: IntervalID, upto: int) -> Seq<TrainID>
    decreases upto,
{
    if upto <= 0 {
        Seq::empty()
    } else {
        let before = runners(trains, key, upto - 1);
        let train = trains[upto - 1];
        if runs_over(train.1.schedule@, key, train.1.schedule@.len() as int) {
            before.push(train.0)
        } else {
            before
        }
    }
}

/// A later interval of the list joins the same two stations as the
/// interval at place `j`, and stands for it.
pub open spec fn is_shadowed(intervals: Seq<(IntervalID, Interval)>, j: int) -> bool {
    exists|a: int| j < a < intervals.len() && (#[trigger] intervals[a]).0 == intervals[j].0
}

/// The trains that run over an interval depend on the identifiers and the
/// schedules of the trains alone.
pub proof fn lemma_runners_same(
    a: Seq<(TrainID, Train)>,
    b: Seq<(TrainID, Train)>,
    key: IntervalID,
    upto: int,
)
    requires
        0 <= upto <= a.len(),
        upto <= b.len(),
        forall|i: int|
            0 <= i < upto ==> (#[trigger] a[i]).0 == b[i].0 && a[i].1.schedule@ == b[i].1.schedule@,
    ensures
        runners(a, key, upto) == runners(b, key, upto),
    decreases upto,
{
    if upto > 0 {
        lemma_runners_same(a, b, key, upto - 1);
        assert(a[upto - 1].0 == b[upto - 1].0);
    }
}

impl Train {
    /// A train with the given visits, its index not yet filled in.
    pub fn new(schedule: Vec<(StationID, ScheduleEntry)>) -> (train: Train)
        ensures
            train.schedule@ == schedule@,
            forall|s: StationID| !multimap_entries(train.indices).contains_key(s),
    {
        Train { schedule, indices: multimap_new() }
    }
}

impl Interval {
    /// An interval of the given length, with no trains yet.
    pub fn new(length: IntervalLength) -> (interval: Interval)
        ensures
            interval.length == length,
            interval.trains@.len() == 0,
    {
        Interval { length, trains: Vec::new() }
    }
}

impl Network {
    /// The network is complete: every interval that no later one shadows
    /// lists the trains that run over it, a shadowed one lists none, and
    /// every train has the index of its visits.
    pub open spec fn wf(&self) -> bool {
        &&& forall|j: int|
            0 <= j < self.intervals@.len() ==> (#[trigger] self.intervals@[j]).1.trains@ == (
            if is_shadowed(self.intervals@, j) {
                Seq::empty()
            } else {
                runners(self.trains@, self.intervals@[j].0, self.trains@.len() as int)
            })
        &&& forall|t: int|
            0 <= t < self.trains@.len() ==> index_matches(
                (#[trigger] self.trains@[t]).1.indices,
                schedule_stations(self.trains@[t].1.schedule@),
                self.trains@[t].1.schedule@.len() as int,
            )
    }

    /// Completes the records that arrived: lists on every interval the
    /// trains that run over it, and gives every train the index of its
    /// visits. Where two intervals join the same two stations, the later
    /// one stands for both.
    pub fn from(input: NetworkInput) -> (net: Network)
        ensures
            net.wf(),
            net.stations@ == input.stations@,
            net.intervals@.len() == input.intervals@.len(),
            forall|j: int|
                0 <= j < net.intervals@.len() ==> (#[trigger] net.intervals@[j]).0
                    == input.intervals@[j].0 && net.intervals@[j].1.length
                    == input.intervals@[j].1.length,
            net.trains@.len() == input.trains@.len(),
            forall|t: int|
                0 <= t < net.trains@.len() ==> (#[trigger] net.trains@[t]).0 == input.trains@[t].0
                    && net.trains@[t].1.schedule@ == input.trains@[t].1.schedule@,
    {
        let stations = input.stations;
        let mut intervals = input.intervals;
        let mut trains = input.trains;
        let mut graph: DiGraphMap<StationID, usize> = graph_new();
        let mut marked: Vec<Option<usize>> = Vec::new();
        let mut j: usize = 0;
        while j < intervals.len()
            invariant
                0 <= j <= intervals@.len(),
                intervals@.len() == input.intervals@.len(),
                marked@.len() == j,
                forall|a: int| 0 <= a < j ==> (#[trigger] marked@[a]).is_none(),
                forall|a: int|
                    0 <= a < intervals@.len() ==> (#[trigger] intervals@[a]).0
                        == input.intervals@[a].0 && intervals@[a].1.length
                        == input.intervals@[a].1.length,
                forall|a: int| 0 <= a < j ==> (#[trigger] intervals@[a]).1.trains@.len() == 0,
                forall|a: int|
                    0 <= a < j ==> graph_edges(graph).contains_key((#[trigger] intervals@[a]).0),
                forall|key: IntervalID| #[trigger]
                    graph_edges(graph).contains_key(key) ==> {
                        &&& graph_edges(graph)[key] < j
                        &&& intervals@[graph_edges(graph)[key] as int].0 == key
                        &&& forall|a: int|
                            graph_edges(graph)[key] < a < j ==> (#[trigger] intervals@[a]).0 != key
                    },
            decreases intervals@.len() - j,
        {
            let key: IntervalID = intervals[j].0;
            intervals[j].1.trains = Vec::new();
            graph_add_edge(&mut graph, key.0, key.1, j);
            marked.push(None);
            j += 1;
        }
        let mut t: usize = 0;
        while t < trains.len()
            invariant
                0 <= t <= trains@.len(),
                trains@.len() == input.trains@.len(),
                intervals@.len() == input.intervals@.len(),
                marked@.len() == intervals@.len(),
                forall|a: int|
                    0 <= a < trains@.len() ==> (#[trigger] trains@[a]).0 == input.trains@[a].0
                        && trains@[a].1.schedule@ == input.trains@[a].1.schedule@,
                forall|a: int|
                    0 <= a < t ==> index_matches(
                        (#[trigger] trains@[a]).1.indices,
                        schedule_stations(trains@[a].1.schedule@),
                        trains@[a].1.schedule@.len() as int,
                    ),
                forall|a: int|
                    0 <= a < intervals@.len() ==> (#[trigger] intervals@[a]).0
                        == input.intervals@[a].0 && intervals@[a].1.length
                        == input.intervals@[a].1.length,
                forall|a: int|
                    0 <= a < intervals@.len() ==> graph_edges(graph).contains_key(
                        (#[trigger] intervals@[a]).0,
                    ),
                forall|key: IntervalID| #[trigger]
                    graph_edges(graph).contains_key(key) ==> {
                        &&& graph_edges(graph)[key] < intervals@.len()
                        &&& intervals@[graph_edges(graph)[key] as int].0 == key
                        &&& forall|a: int|
                            graph_edges(graph)[key] < a < intervals@.len() ==> (
                            #[trigger] intervals@[a]).0 != key
                    },
                forall|a: int|
                    0 <= a < intervals@.len() ==> (#[trigger] marked@[a]).is_some()
                        ==> marked@[a].unwrap() < t,
                forall|a: int|
                    0 <= a < intervals@.len() ==> (#[trigger] intervals@[a]).1.trains@ == (
                    if is_shadowed(intervals@, a) {
                        Seq::empty()
                    } else {
                        runners(trains@, intervals@[a].0, t as int)
                    }),
            decreases trains@.len() - t,
        {
            let id: TrainID = trains[t].0;
            let n: usize = trains[t].1.schedule.len();
            let mut index: MultiMap<StationID, usize> = multimap_new();
            let ghost schedule = trains@[t as int].1.schedule@;
            let ghost visited = schedule_stations(schedule);
            let mut k: usize = 0;
            while k < n
                invariant
                    0 <= k <= n,
                    0 <= t < trains@.len(),
                    n == schedule.len(),
                    id == trains@[t as int].0,
                    schedule == trains@[t as int].1.schedule@,
                    visited == schedule_stations(schedule),
                    trains@.len() == input.trains@.len(),
                    intervals@.len() == input.intervals@.len(),
                    marked@.len() == intervals@.len(),
                    index_matches(index, visited, k as int),
                    forall|a: int|
                        0 <= a < intervals@.len() ==> (#[trigger] intervals@[a]).0
                            == input.intervals@[a].0 && intervals@[a].1.length
                            == input.intervals@[a].1.length,
                    forall|a: int|
                        0 <= a < intervals@.len() ==> graph_edges(graph).contains_key(
                            (#[trigger] intervals@[a]).0,
                        ),
                    forall|key: IntervalID| #[trigger]
                        graph_edges(graph).contains_key(key) ==> {
                            &&& graph_edges(graph)[key] < intervals@.len()
                            &&& intervals@[graph_edges(graph)[key] as int].0 == key
                            &&& forall|a: int|
                                graph_edges(graph)[key] < a < intervals@.len() ==> (
                                #[trigger] intervals@[a]).0 != key
                        },
                    forall|a: int|
                        0 <= a < intervals@.len() ==> (#[trigger] marked@[a]).is_some()
                            ==> marked@[a].unwrap() <= t,
                    forall|a: int|
                        0 <= a < intervals@.len() && !is_shadowed(intervals@, a) ==> ((
                        #[trigger] marked@[a]) == Some(t) <==> runs_over(
                            schedule,
                            intervals@[a].0,
                            k as int,
                        )),
                    forall|a: int|
                        0 <= a < intervals@.len() ==> (#[trigger] intervals@[a]).1.trains@ == (
                        if is_shadowed(intervals@, a) {
                            Seq::empty()
                        } else if runs_over(schedule, intervals@[a].0, k as int) {
                            runners(trains@, intervals@[a].0, t as int).push(id)
                        } else {
                            runners(trains@, intervals@[a].0, t as int)
                        }),
                decreases n - k,
            {
                let sid: StationID = trains[t].1.schedule[k].0;
                let ghost index_before = index;
                multimap_insert(&mut index, sid, k);
                proof {
                    assert forall|s: StationID|
                        {
                            &&& multimap_entries(index).contains_key(s) <==> #[trigger] positions(
                                visited,
                                s,
                                k + 1,
                            ).len() > 0
                            &&& multimap_entries(index).contains_key(s) ==> multimap_entries(
                                index,
                            )[s] == positions(visited, s, k + 1)
                        } by {
                        let old_pos = positions(visited, s, k as int);
                        assert(old_pos.len() > 0 <==> multimap_entries(index_before).contains_key(
                            s,
                        ));
                        if s == sid {
                            if !multimap_entries(index_before).contains_key(s) {
                                assert(old_pos =~= Seq::empty());
                                assert(seq![k] =~= old_pos.push(k));
                            }
                        }
                    }
                }
                let ghost intervals_before = intervals@;
                let ghost marked_before = marked@;
                let ghost key: IntervalID = (0, 0);
                let ghost hit: int = -1;
                if k + 1 < n {
                    let next: StationID = trains[t].1.schedule[k + 1].0;
                    proof {
                        key = (sid, next);
                    }
                    match graph_edge_weight(&graph, sid, next) {
                        Some(at) => {
                            proof {
                                hit = at as int;
                            }
                            let fresh: bool = match marked[at] {
                                Some(last) => last != t,
                                None => true,
                            };
                            if fresh {
                                intervals[at].1.trains.push(id);
                                marked[at] = Some(t);
                            }
                        },
                        None => {},
                    }
                }
                proof {
                    assert forall|a: int| 0 <= a < intervals@.len() implies (
                    #[trigger] intervals@[a]).0 == intervals_before[a].0 by {}
                    assert forall|a: int| 0 <= a < intervals@.len() implies (is_shadowed(
                        intervals@,
                        a,
                    ) == is_shadowed(intervals_before, a)) by {
                        if is_shadowed(intervals_before, a) {
                            let b = choose|b: int|
                                a < b < intervals_before.len() && (
                                #[trigger] intervals_before[b]).0 == intervals_before[a].0;
                            assert(intervals@[b].0 == intervals@[a].0);
                        }
                        if is_shadowed(intervals@, a) {
                            let b = choose|b: int|
                                a < b < intervals@.len() && (#[trigger] intervals@[b]).0
                                    == intervals@[a].0;
                            assert(intervals_before[b].0 == intervals_before[a].0);
                        }
                    }
                    assert forall|a: int|
                        0 <= a < intervals@.len() && !is_shadowed(
                            intervals@,
                            a,
                        ) implies runs_over(schedule, intervals@[a].0, k + 1) == (runs_over(
                        schedule,
                        intervals@[a].0,
                        k as int,
                    ) || a == hit) by {
                        let want = intervals@[a].0;
                        if runs_over(schedule, want, k as int) {
                            let b = choose|b: int|
                                0 <= b < k && b + 1 < schedule.len() && (#[trigger] schedule[b]).0
                                    == want.0 && schedule[b + 1].0 == want.1;
                            assert(0 <= b < k + 1);
                        }
                        if a == hit {
                            assert(want == key);
                            assert(schedule[k as int].0 == want.0 && schedule[k + 1].0 == want.1);
                        }
                        if runs_over(schedule, want, k + 1) && !runs_over(schedule, want, k as int) {
                            let b = choose|b: int|
                                0 <= b < k + 1 && b + 1 < schedule.len() && (
                                #[trigger] schedule[b]).0 == want.0 && schedule[b + 1].0 == want.1;
                            assert(b == k);
                            assert(want == key);
                            assert(graph_edges(graph).contains_key(want));
                            assert(!is_shadowed(intervals_before, a));
                            let at = graph_edges(graph)[want] as int;
                            if at < a {
                                assert(intervals_before[a].0 != want);
                            }
                            if a < at {
                                assert(intervals_before[at].0 == intervals_before[a].0);
                            }
                        }
                    }
                    if hit >= 0 {
                        assert(intervals_before[hit].0 == key);
                        assert(!is_shadowed(intervals_before, hit)) by {
                            if is_shadowed(intervals_before, hit) {
                                let b = choose|b: int|
                                    hit < b < intervals_before.len() && (
                                    #[trigger] intervals_before[b]).0 == intervals_before[hit].0;
                                assert(intervals_before[b].0 != key);
                            }
                        }
                    }
                }
                k += 1;
            }
            let ghost trains_before = trains@;
            trains[t].1.indices = index;
            proof {
                assert(trains@[t as int].1.schedule@ == schedule);
                assert forall|a: int| 0 <= a < intervals@.len() implies (
                #[trigger] intervals@[a]).1.trains@ == (if is_shadowed(intervals@, a) {
                    Seq::empty()
                } else {
                    runners(trains@, intervals@[a].0, t + 1)
                }) by {
                    lemma_runners_same(trains_before, trains@, intervals@[a].0, t as int);
                }
            }
            t += 1;
        }
        Network { stations, intervals, trains }
    }
}

} // verus!
