use crate::models::axis::{axis_position, window_duration, TimeAxis};
use crate::models::collision::{build_collision, is_bounding_box, spec_rectangles, Collision};
use crate::models::density::{
    is_station_table, spec_time_factors, station_slot_counts, time_factors,
};
use crate::models::filter::{
    filter_error, first_missing_interval, records_have_interval, spec_filter, Records,
};
use crate::models::graph::{build_error, Network, NetworkError};
use crate::models::input;
use crate::models::input::NetworkConfig;
use crate::models::ladder::{ladder_extent, Ladder, Rung, MAX_EXTENT};
use crate::models::path::{process_single_train, spec_train_polylines};
use crate::types::{
    capped_length, GraphLength, IntervalID, IntervalLength, Node, StationID, TrainID,
};
use crate::utils::{scaled_length, spec_train_tag, train_tag};
use vstd::prelude::*;

verus! {

/// Why no drawing could be made.
#[derive(Debug, Clone, Copy, PartialEq, Eq, Structural)]
pub enum DiagramError {
    /// The network could not be built, or does not hold what is requested.
    Network(NetworkError),
    /// The drawing would reach beyond the largest coordinate, or the unit
    /// length is negative.
    OutOfRange,
}

/// The drawing of one train: its identifier, its tag and its polylines.
pub struct TrainOutput {
    pub id: TrainID,
    pub tag: u32,
    pub polylines: Vec<Vec<Node>>,
}

/// How many calls each station and how many runs each interval of the
/// drawing has.
pub struct Occupancy {
    pub stations: Vec<(StationID, usize)>,
    pub intervals: Vec<(IntervalID, usize)>,
}

/// The traffic of each station of the drawing by ten-minute slot of the
/// day: the stations, and for each a row of 144 counters of the runs that
/// leave it.
pub struct Heatmap {
    pub stations: Vec<StationID>,
    pub counts: Vec<Vec<u64>>,
}

/// The drawing: the trains with their polylines, the drawing length of each
/// requested interval, the rungs of the station ladder, and where they were
/// asked for the collision rectangles, the occupancy and the heatmap.
pub struct Output {
    pub trains: Vec<TrainOutput>,
    pub grid_intervals: Vec<GraphLength>,
    pub stations: Vec<Rung>,
    pub collision: Option<Collision>,
    pub occupancy: Option<Occupancy>,
    pub heatmap: Option<Heatmap>,
}

/// The intervals that a request lists.
pub open spec fn requested_intervals(config: NetworkConfig) -> Seq<IntervalID> {
    Seq::new(config.intervals_to_draw@.len(), |i: int| config.intervals_to_draw@[i].0)
}

/// The drawing length of an interval of the given length.
pub open spec fn spec_draw_length(length: IntervalLength, config: NetworkConfig) -> i64 {
    capped_length(
        scaled_length(config.position_scale_mode, length.0 as nat, config.unit_length.0 as nat) as int,
    )
}

/// `drawn_length` is the drawing length of the interval `id` of the
/// network.
pub open spec fn is_draw_length(
    net: Network,
    config: NetworkConfig,
    id: IntervalID,
    drawn_length: GraphLength,
) -> bool {
    exists|j: int|
        0 <= j < net.intervals@.len() && (#[trigger] net.intervals@[j]).from == id.0
            && net.intervals@[j].to == id.1 && drawn_length.0 == spec_draw_length(
            net.intervals@[j].length,
            config,
        )
}

/// The polylines of a drawn train, as values.
pub open spec fn polylines_of(train: TrainOutput) -> Seq<Seq<Node>> {
    Seq::new(train.polylines@.len(), |i: int| train.polylines@[i]@)
}

/// `out` is the drawing of `net` under `config`, made with the filtered
/// network `filtered`, the ladder `ladder` and the time axis `axis`.
pub open spec fn drawn(
    net: Network,
    config: NetworkConfig,
    filtered: Network,
    ladder: Ladder,
    axis: TimeAxis,
    out: Output,
) -> bool {
    &&& config.unit_length.0 >= 0
    &&& filtered.wf()
    &&& filtered.records() == spec_filter(
        net.records(),
        requested_intervals(config),
        config.stations_to_draw@,
    )
    &&& ladder.wf(
        filtered.stations@,
        config.position_scale_mode,
        config.position_axis_scale,
        config.track_spacing,
    )
    &&& axis.wf()
    &&& axis.begin == config.begin.0 % 86400
    &&& axis.duration == window_duration(
        (config.begin.0 % 86400) as int,
        (config.end.0 % 86400) as int,
    )
    &&& axis.factors@ == spec_time_factors(filtered, config.time_scale_mode, config.time_axis_scale)
    &&& axis.unit_length == config.unit_length.0
    &&& out.stations@ == ladder.rungs@
    &&& out.grid_intervals@.len() == config.intervals_to_draw@.len()
    &&& forall|i: int|
        0 <= i < out.grid_intervals@.len() ==> is_draw_length(
            net,
            config,
            config.intervals_to_draw@[i].0,
            #[trigger] out.grid_intervals@[i],
        )
    &&& out.trains@.len() == filtered.trains@.len()
    &&& forall|t: int|
        0 <= t < out.trains@.len() ==> {
            &&& (#[trigger] out.trains@[t]).id == filtered.trains@[t].id
            &&& out.trains@[t].tag == spec_train_tag(filtered.trains@[t].id)
            &&& polylines_of(out.trains@[t]) == spec_train_polylines(
                filtered,
                ladder,
                axis,
                filtered.trains@[t].entries@,
            )
        }
    &&& out.collision.is_some() == config.collisions
    &&& out.collision.is_some() ==> {
        &&& out.collision.unwrap().rectangles@ == spec_rectangles(
            filtered,
            ladder,
            axis,
            config.labels@,
            config.resolution as int,
        )
        &&& is_bounding_box(out.collision.unwrap().rectangles@, out.collision.unwrap().bounds)
    }
    &&& out.occupancy.is_some() == config.occupancy
    &&& out.occupancy.is_some() ==> is_occupancy(filtered, out.occupancy.unwrap())
    &&& out.heatmap.is_some() == config.heatmap
    &&& out.heatmap.is_some() ==> is_heatmap(filtered, out.heatmap.unwrap())
}

/// The heatmap lists every station of the network, and for each the runs
/// that leave it during each slot of the day.
pub open spec fn is_heatmap(net: Network, h: Heatmap) -> bool {
    &&& h.stations@.len() == net.stations@.len()
    &&& forall|i: int| 0 <= i < h.stations@.len() ==> #[trigger] h.stations@[i] == net.stations@[i].id
    &&& is_station_table(net, h.counts@, net.trains@.len() as int, Seq::empty(), 0)
}

/// The occupancy lists every station with the number of calls at it and
/// every interval with the number of runs over it.
pub open spec fn is_occupancy(net: Network, o: Occupancy) -> bool {
    &&& o.stations@.len() == net.stations@.len()
    &&& forall|i: int|
        0 <= i < o.stations@.len() ==> #[trigger] o.stations@[i] == (
            net.stations@[i].id,
            net.stations@[i].trains@.len() as usize,
        )
    &&& o.intervals@.len() == net.intervals@.len()
    &&& forall|j: int|
        0 <= j < o.intervals@.len() ==> #[trigger] o.intervals@[j] == (
            (net.intervals@[j].from, net.intervals@[j].to),
            net.intervals@[j].trains@.len() as usize,
        )
}

/// The drawing of the filtered network would reach beyond the largest
/// coordinate, along the ladder or along the time axis, or the unit length
/// is negative.
pub open spec fn too_large(filtered: Network, config: NetworkConfig) -> bool {
    ||| config.unit_length.0 < 0
    ||| ladder_extent(
        filtered.stations@,
        config.position_scale_mode,
        config.position_axis_scale,
        config.track_spacing,
    ) > MAX_EXTENT
    ||| axis_position(
        (config.begin.0 % 86400) as int,
        spec_time_factors(filtered, config.time_scale_mode, config.time_axis_scale),
        config.unit_length.0 as int,
        window_duration((config.begin.0 % 86400) as int, (config.end.0 % 86400) as int),
    ) > MAX_EXTENT
}

/// What drawing a network under a request comes to: the drawing that some
/// filtered network, ladder and time axis give; or the first requested
/// interval or station that the network lacks; or that the drawing is too
/// large.
pub open spec fn draw_result(net: Network, config: NetworkConfig, r: Result<Output, DiagramError>) -> bool {
    let missing = filter_error(net.records(), requested_intervals(config), config.stations_to_draw@);
    match r {
        Ok(out) => missing.is_none() && exists|filtered: Network, ladder: Ladder, axis: TimeAxis|
            drawn(net, config, filtered, ladder, axis, out),
        Err(DiagramError::Network(e)) => missing == Some(e),
        Err(DiagramError::OutOfRange) => missing.is_none() && exists|filtered: Network|
            {
                &&& filtered.wf()
                &&& filtered.records() == spec_filter(
                    net.records(),
                    requested_intervals(config),
                    config.stations_to_draw@,
                )
                &&& too_large(filtered, config)
            },
    }
}

/// Every requested interval from place `from` on is in the records where
/// none is missing.
pub proof fn lemma_requested_present(rec: Records, ri: Seq<IntervalID>, from: int, i: int)
    requires
        0 <= from <= i < ri.len(),
        first_missing_interval(rec, ri, from).is_none(),
    ensures
        records_have_interval(rec, ri[i].0, ri[i].1),
    decreases i - from,
{
    if from < i {
        lemma_requested_present(rec, ri, from + 1, i);
    }
}

impl Output {
    /// Draws the network of the records under the request: builds the
    /// network, then draws it.
    pub fn new(network: &input::Network, config: &NetworkConfig) -> (r: Result<Output, DiagramError>)
        ensures
            match build_error(*network) {
                Some(e) => r == Err::<Output, DiagramError>(DiagramError::Network(e)),
                None => exists|net: Network|
                    net.wf() && net.represents(*network) && draw_result(net, *config, r),
            },
    {
        match Network::new(network) {
            Err(e) => Err(DiagramError::Network(e)),
            Ok(net) => {
                let r = Output::draw(&net, config);
                assert(net.wf() && net.represents(*network) && draw_result(net, *config, r));
                r
            },
        }
    }

    /// The length of a requested interval, if the network has it.
    fn get_interval(network: &Network, beg_stat_id: StationID, end_stat_id: StationID) -> (r:
        Option<IntervalLength>)
        requires
            network.wf(),
        ensures
            r.is_some() == network.has_interval(beg_stat_id, end_stat_id),
            r.is_some() ==> exists|j: int|
                0 <= j < network.intervals@.len() && (#[trigger] network.intervals@[j]).from
                    == beg_stat_id && network.intervals@[j].to == end_stat_id
                    && network.intervals@[j].length == r.unwrap(),
    {
        network.get_interval_length((beg_stat_id, end_stat_id))
    }

    /// The drawing length of an interval of the given length.
    fn calculate_draw_length(length: IntervalLength, config: &NetworkConfig) -> (r: GraphLength)
        requires
            config.unit_length.0 >= 0,
        ensures
            r.0 == spec_draw_length(length, *config),
    {
        length.to_graph_length(config.unit_length, config.position_scale_mode)
    }

    /// Draws every train of the filtered network.
    fn process_interval_trains(filtered: &Network, ladder: &Ladder, axis: &TimeAxis) -> (trains:
        Vec<TrainOutput>)
        requires
            filtered.wf(),
            crate::models::path::ladder_fits(*filtered, *ladder),
            axis.wf(),
        ensures
            trains@.len() == filtered.trains@.len(),
            forall|t: int|
                0 <= t < trains@.len() ==> {
                    &&& (#[trigger] trains@[t]).id == filtered.trains@[t].id
                    &&& trains@[t].tag == spec_train_tag(filtered.trains@[t].id)
                    &&& polylines_of(trains@[t]) == spec_train_polylines(
                        *filtered,
                        *ladder,
                        *axis,
                        filtered.trains@[t].entries@,
                    )
                },
    {
        let mut trains: Vec<TrainOutput> = Vec::new();
        let mut t: usize = 0;
        while t < filtered.trains.len()
            invariant
                0 <= t <= filtered.trains@.len(),
                filtered.wf(),
                crate::models::path::ladder_fits(*filtered, *ladder),
                axis.wf(),
                trains@.len() == t,
                forall|a: int|
                    0 <= a < t ==> {
                        &&& (#[trigger] trains@[a]).id == filtered.trains@[a].id
                        &&& trains@[a].tag == spec_train_tag(filtered.trains@[a].id)
                        &&& polylines_of(trains@[a]) == spec_train_polylines(
                            *filtered,
                            *ladder,
                            *axis,
                            filtered.trains@[a].entries@,
                        )
                    },
            decreases filtered.trains@.len() - t,
        {
            let train = &filtered.trains[t];
            let polylines = process_single_train(filtered, ladder, axis, train);
            let tag: u32 = train_tag(train.id);
            trains.push(TrainOutput { id: train.id, tag, polylines });
            t += 1;
        }
        trains
    }

    /// Counts the calls at every station and the runs over every interval.
    fn count_occupancy(filtered: &Network) -> (o: Occupancy)
        ensures
            is_occupancy(*filtered, o),
    {
        let mut stations: Vec<(StationID, usize)> = Vec::new();
        let mut i: usize = 0;
        while i < filtered.stations.len()
            invariant
                0 <= i <= filtered.stations@.len(),
                stations@.len() == i,
                forall|a: int|
                    0 <= a < i ==> #[trigger] stations@[a] == (
                        filtered.stations@[a].id,
                        filtered.stations@[a].trains@.len() as usize,
                    ),
            decreases filtered.stations@.len() - i,
        {
            stations.push((filtered.stations[i].id, filtered.stations[i].trains.len()));
            i += 1;
        }
        let mut intervals: Vec<(IntervalID, usize)> = Vec::new();
        let mut j: usize = 0;
        while j < filtered.intervals.len()
            invariant
                0 <= j <= filtered.intervals@.len(),
                intervals@.len() == j,
                forall|a: int|
                    0 <= a < j ==> #[trigger] intervals@[a] == (
                        (filtered.intervals@[a].from, filtered.intervals@[a].to),
                        filtered.intervals@[a].trains@.len() as usize,
                    ),
            decreases filtered.intervals@.len() - j,
        {
            intervals.push(
                (
                    (filtered.intervals[j].from, filtered.intervals[j].to),
                    filtered.intervals[j].trains.len(),
                ),
            );
            j += 1;
        }
        Occupancy { stations, intervals }
    }

    /// Counts the traffic of every station by slot of the day.
    fn count_heatmap(filtered: &Network) -> (h: Heatmap)
        requires
            filtered.wf(),
        ensures
            is_heatmap(*filtered, h),
    {
        let mut stations: Vec<StationID> = Vec::new();
        let mut i: usize = 0;
        while i < filtered.stations.len()
            invariant
                0 <= i <= filtered.stations@.len(),
                stations@.len() == i,
                forall|a: int| 0 <= a < i ==> #[trigger] stations@[a] == filtered.stations@[a].id,
            decreases filtered.stations@.len() - i,
        {
            stations.push(filtered.stations[i].id);
            i += 1;
        }
        Heatmap { stations, counts: station_slot_counts(filtered) }
    }

    /// Draws a network under a request: filters it to what is requested,
    /// lays out the station ladder and the time axis, draws every train
    /// that is left, and adds what else is asked for.
    pub fn draw(network: &Network, config: &NetworkConfig) -> (r: Result<Output, DiagramError>)
        requires
            network.wf(),
        ensures
            draw_result(*network, *config, r),
    {
        let mut requested: Vec<IntervalID> = Vec::new();
        let mut i: usize = 0;
        while i < config.intervals_to_draw.len()
            invariant
                0 <= i <= config.intervals_to_draw@.len(),
                requested@ == requested_intervals(*config).subrange(0, i as int),
            decreases config.intervals_to_draw@.len() - i,
        {
            requested.push(config.intervals_to_draw[i].0);
            assert(requested@ =~= requested_intervals(*config).subrange(0, i + 1));
            i += 1;
        }
        assert(requested@ =~= requested_intervals(*config));
        let filtered = match network.filter_to(&requested, &config.stations_to_draw) {
            Ok(filtered) => filtered,
            Err(e) => {
                return Err(DiagramError::Network(e));
            },
        };
        if config.unit_length.0 < 0 {
            assert(too_large(filtered, *config));
            return Err(DiagramError::OutOfRange);
        }
        let ladder = match Ladder::build(
            &filtered.stations,
            config.position_scale_mode,
            config.position_axis_scale,
            config.track_spacing,
        ) {
            Some(ladder) => ladder,
            None => {
                assert(too_large(filtered, *config));
                return Err(DiagramError::OutOfRange);
            },
        };
        let factors = time_factors(&filtered, config.time_scale_mode, config.time_axis_scale);
        let axis = match TimeAxis::new(
            config.begin,
            config.end,
            factors,
            config.unit_length.0 as u64,
        ) {
            Some(axis) => axis,
            None => {
                assert(too_large(filtered, *config));
                return Err(DiagramError::OutOfRange);
            },
        };
        let mut grid_intervals: Vec<GraphLength> = Vec::new();
        let mut g: usize = 0;
        while g < config.intervals_to_draw.len()
            invariant
                0 <= g <= config.intervals_to_draw@.len(),
                network.wf(),
                config.unit_length.0 >= 0,
                first_missing_interval(network.records(), requested_intervals(*config), 0).is_none(),
                grid_intervals@.len() == g,
                forall|a: int|
                    0 <= a < g ==> is_draw_length(
                        *network,
                        *config,
                        config.intervals_to_draw@[a].0,
                        #[trigger] grid_intervals@[a],
                    ),
            decreases config.intervals_to_draw@.len() - g,
        {
            let id: IntervalID = config.intervals_to_draw[g].0;
            proof {
                lemma_requested_present(
                    network.records(),
                    requested_intervals(*config),
                    0,
                    g as int,
                );
                network.lemma_records_interval(id.0, id.1);
                network.lemma_has_interval(id.0, id.1);
            }
            let length = match Output::get_interval(network, id.0, id.1) {
                Some(length) => length,
                None => IntervalLength(0),
            };
            let ghost before = grid_intervals@;
            grid_intervals.push(Output::calculate_draw_length(length, config));
            proof {
                assert forall|a: int| 0 <= a < g + 1 implies is_draw_length(
                    *network,
                    *config,
                    config.intervals_to_draw@[a].0,
                    #[trigger] grid_intervals@[a],
                ) by {
                    if a < g {
                        assert(grid_intervals@[a] == before[a]);
                    }
                }
            }
            g += 1;
        }
        proof {
            if ladder.rungs@.len() > 0 {
                assert(ladder.rungs@[ladder.rungs@.len() - 1].draw_height <= MAX_EXTENT);
            }
        }
        let trains = Output::process_interval_trains(&filtered, &ladder, &axis);
        let collision = if config.collisions {
            Some(build_collision(&filtered, &ladder, &axis, &config.labels, config.resolution))
        } else {
            None
        };
        let occupancy = if config.occupancy {
            Some(Output::count_occupancy(&filtered))
        } else {
            None
        };
        let heatmap = if config.heatmap {
            Some(Output::count_heatmap(&filtered))
        } else {
            None
        };
        let ghost whole = ladder;
        let out = Output {
            trains,
            grid_intervals,
            stations: ladder.rungs,
            collision,
            occupancy,
            heatmap,
        };
        assert(drawn(*network, *config, filtered, whole, axis, out));
        Ok(out)
    }
}

} // verus!
