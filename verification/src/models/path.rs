use crate::collections::{graph_edge_weight, graph_edges};
use crate::models::axis::{lemma_position_monotonic, TimeAxis};
use crate::models::graph::{Network, Schedule, Train};
use crate::models::ladder::{track_room, Ladder, MAX_EXTENT};
use crate::types::{GraphLength, Node, StationID, Track};
use vstd::prelude::*;

verus! {

broadcast use vstd::std_specs::hash::group_hash_axioms;

/// Where an instant lies with respect to the visible window.
#[derive(Debug, Clone, Copy, PartialEq, Eq, Structural)]
pub enum Position {
    Before,
    Inside,
    After,
}

/// What one end of a segment adds to the line: nothing, its own point, or
/// the point where the segment crosses the edge of the window.
#[derive(Debug, Clone, Copy, PartialEq, Eq, Structural)]
pub enum Mark {
    Skip,
    Raw,
    Edge,
}

/// How a segment is drawn, by where its two ends lie: whether the line is
/// broken before it, what each end adds, and whether the line is broken
/// after it.
#[derive(Debug, Clone, Copy, PartialEq, Eq, Structural)]
pub struct Policy {
    pub break_before: bool,
    pub first: Mark,
    pub second: Mark,
    pub break_after: bool,
}

/// An end of a segment before clipping: a time of the day in seconds and a
/// height on the ladder.
#[derive(Debug, Clone, Copy, PartialEq, Eq, Structural)]
pub struct Stop {
    pub time: u32,
    pub height: u64,
}

/// The lines drawn so far, as values: the finished polylines and the one
/// in progress.
pub struct Trace {
    pub done: Seq<Seq<Node>>,
    pub current: Seq<Node>,
}

/// The lines of one train while they are drawn.
pub struct Pen {
    pub done: Vec<Vec<Node>>,
    pub current: Vec<Node>,
}

/// Where the instant at offset `u` from the start of the window lies.
pub open spec fn spec_classify(u: int, duration: int) -> Position {
    if u < 0 {
        Position::Before
    } else if u < duration {
        Position::Inside
    } else {
        Position::After
    }
}

/// The policy for each of the nine pairs of positions. A segment that
/// enters the window starts a new line at the start edge; one that leaves
/// it ends the line at the end edge; one that lies outside, or whose end
/// would lie before its start, adds nothing.
pub open spec fn spec_policy(start: Position, end: Position) -> Policy {
    match (start, end) {
        (Position::Before, Position::Inside) => Policy {
            break_before: true,
            first: Mark::Edge,
            second: Mark::Raw,
            break_after: false,
        },
        (Position::Before, Position::After) => Policy {
            break_before: true,
            first: Mark::Edge,
            second: Mark::Edge,
            break_after: true,
        },
        (Position::Inside, Position::Inside) => Policy {
            break_before: false,
            first: Mark::Raw,
            second: Mark::Raw,
            break_after: false,
        },
        (Position::Inside, Position::After) => Policy {
            break_before: false,
            first: Mark::Raw,
            second: Mark::Edge,
            break_after: true,
        },
        (Position::Before, Position::Before) => spec_idle(),
        (Position::After, Position::After) => spec_idle(),
        (Position::Inside, Position::Before) => spec_idle(),
        (Position::After, Position::Before) => spec_idle(),
        (Position::After, Position::Inside) => spec_idle(),
    }
}

/// The policy that adds nothing and breaks nothing.
pub open spec fn spec_idle() -> Policy {
    Policy { break_before: false, first: Mark::Skip, second: Mark::Skip, break_after: false }
}

/// The height at offset `at` of the straight line from `(u0, y0)` to
/// `(u1, y1)`, the change in height rounded towards `y0`. A line whose ends
/// share one instant has the height of its first end.
pub open spec fn spec_interpolate(u0: int, y0: int, u1: int, y1: int, at: int) -> int {
    if u1 == u0 {
        y0
    } else if y1 >= y0 {
        y0 + ((y1 - y0) * (at - u0)) / (u1 - u0)
    } else {
        y0 - ((y0 - y1) * (at - u0)) / (u1 - u0)
    }
}

/// The point of the drawing at `elapsed` seconds into the window and at
/// height `y`.
pub open spec fn spec_node(axis: TimeAxis, elapsed: int, y: int) -> Node {
    Node(GraphLength(axis.spec_position(elapsed) as i64), GraphLength(y as i64))
}

/// The trace with one more point on the line in progress; a point equal to
/// the last one is not repeated.
pub open spec fn spec_add(trace: Trace, node: Node) -> Trace {
    if trace.current.len() > 0 && trace.current.last() == node {
        trace
    } else {
        Trace { done: trace.done, current: trace.current.push(node) }
    }
}

/// The trace with the line in progress ended: it is kept if it has two
/// points or more, and dropped otherwise.
pub open spec fn spec_break(trace: Trace) -> Trace {
    if trace.current.len() >= 2 {
        Trace { done: trace.done.push(trace.current), current: Seq::empty() }
    } else {
        Trace { done: trace.done, current: Seq::empty() }
    }
}

/// The trace after one occurrence of a segment, from offset `start` at
/// height `y0` to offset `end` at height `y1`, has been drawn under the
/// policy of its two positions.
pub open spec fn spec_draw_candidate(
    trace: Trace,
    axis: TimeAxis,
    start: int,
    y0: int,
    end: int,
    y1: int,
) -> Trace {
    let d = axis.duration as int;
    let policy = spec_policy(spec_classify(start, d), spec_classify(end, d));
    let t1 = if policy.break_before {
        spec_break(trace)
    } else {
        trace
    };
    let t2 = match policy.first {
        Mark::Skip => t1,
        Mark::Raw => spec_add(t1, spec_node(axis, start, y0)),
        Mark::Edge => spec_add(t1, spec_node(axis, 0, spec_interpolate(start, y0, end, y1, 0))),
    };
    let t3 = match policy.second {
        Mark::Skip => t2,
        Mark::Raw => spec_add(t2, spec_node(axis, end, y1)),
        Mark::Edge => spec_add(t2, spec_node(axis, d, spec_interpolate(start, y0, end, y1, d))),
    };
    if policy.break_after {
        spec_break(t3)
    } else {
        t3
    }
}

/// The offset of a time of the day from the start of the window, counted
/// forward round the day.
pub open spec fn spec_offset(axis: TimeAxis, time: int) -> int {
    (time % 86400 + 86400 - axis.begin) % 86400
}

/// The duration of a segment between two times of the day, counted forward
/// round the day.
pub open spec fn spec_span(from: int, to: int) -> int {
    (to % 86400 + 86400 - from % 86400) % 86400
}

/// The trace after a segment has been drawn: first its occurrence that
/// starts on the day of the window, then the occurrence of the day before,
/// which is the one that may enter the window through its start edge.
pub open spec fn spec_draw_segment(trace: Trace, axis: TimeAxis, from: Stop, to: Stop) -> Trace {
    let start = spec_offset(axis, from.time as int);
    let end = start + spec_span(from.time as int, to.time as int);
    spec_draw_candidate(
        spec_draw_candidate(trace, axis, start, from.height as int, end, to.height as int),
        axis,
        start - 86400,
        from.height as int,
        end - 86400,
        to.height as int,
    )
}

/// The track a call is drawn on: the track it names, the first where it
/// names none, and the last where it names one the station has not.
pub open spec fn spec_track(track: Option<Track>, tracks: Track) -> Track {
    match track {
        Some(t) => if t < tracks {
            t
        } else {
            (tracks - 1) as Track
        },
        None => 0,
    }
}

/// The height of the rule of a track of the station at place `i`.
pub open spec fn spec_track_rule(net: Network, ladder: Ladder, i: int, track: Option<Track>) -> int {
    ladder.heights@[i] - spec_track(track, net.stations@[i].tracks) * ladder.track_spacing
}

/// The height at which a call at station `sid` is drawn: the rule of its
/// track on the rung of the station, if the network has the station.
pub open spec fn spec_entry_height(
    net: Network,
    ladder: Ladder,
    sid: StationID,
    track: Option<Track>,
) -> Option<int> {
    if net.station_lookup@.contains_key(sid) {
        Some(spec_track_rule(net, ladder, net.station_lookup@[sid] as int, track))
    } else {
        None
    }
}

/// The rule of the station at place `i` that faces a station at height
/// `other`: its lowest rule where the other station lies below it, its
/// highest where the other lies above, and `own` where the two lie at one
/// height.
pub open spec fn spec_facing_rule(net: Network, ladder: Ladder, i: int, other: int, own: int) -> int {
    if other > ladder.heights@[i] {
        ladder.heights@[i] as int
    } else if other < ladder.heights@[i] {
        ladder.heights@[i] - (net.stations@[i].tracks - 1) * ladder.track_spacing
    } else {
        own
    }
}

/// The two ends of the stay of a call drawn at height `y`.
pub open spec fn spec_station_nodes(entry: Schedule, y: int) -> (Stop, Stop) {
    (Stop { time: entry.arr.0, height: y as u64 }, Stop { time: entry.dep.0, height: y as u64 })
}

/// The two ends of the travel from a call, leaving at height `y`, to the
/// next call, reached at height `next_y`.
pub open spec fn spec_connection_nodes(cur: Schedule, next: Schedule, y: int, next_y: int) -> (
    Stop,
    Stop,
) {
    (
        Stop { time: cur.dep.0, height: y as u64 },
        Stop { time: next.arr.0, height: next_y as u64 },
    )
}

/// The trace after the travel from call `k` to the next call has been
/// drawn, the call itself drawn at height `y`. The travel runs between the
/// rules of the two stations that face each other, so that it crosses no
/// other track of either station: a train that stands on another track is
/// first led, at its departure, to the facing rule of its station, and at
/// its arrival from the facing rule of the next station to the rule of its
/// track there. A train that stands on the facing rule already adds no
/// point for it.
pub open spec fn spec_draw_connection(
    trace: Trace,
    net: Network,
    ladder: Ladder,
    axis: TimeAxis,
    entries: Seq<(StationID, Schedule)>,
    k: int,
    y: int,
) -> Trace {
    let i = net.station_lookup@[entries[k].0] as int;
    let next_i = net.station_lookup@[entries[k + 1].0] as int;
    let next_y = spec_track_rule(net, ladder, next_i, entries[k + 1].1.track);
    let out = spec_facing_rule(net, ladder, i, ladder.heights@[next_i] as int, y);
    let into = spec_facing_rule(net, ladder, next_i, ladder.heights@[i] as int, next_y);
    let travel = spec_connection_nodes(entries[k].1, entries[k + 1].1, out, into);
    let left = spec_draw_segment(
        trace,
        axis,
        Stop { time: entries[k].1.dep.0, height: y as u64 },
        travel.0,
    );
    let travelled = spec_draw_segment(left, axis, travel.0, travel.1);
    spec_draw_segment(
        travelled,
        axis,
        travel.1,
        Stop { time: entries[k + 1].1.arr.0, height: next_y as u64 },
    )
}

/// The trace after call `k` of a train has been drawn: its stay, then the
/// travel to the next call where an interval of the network joins the two
/// stations. A call at a station that the network has not adds nothing and
/// breaks the line, and so does a travel that no interval carries.
pub open spec fn spec_draw_entry(
    trace: Trace,
    net: Network,
    ladder: Ladder,
    axis: TimeAxis,
    entries: Seq<(StationID, Schedule)>,
    k: int,
) -> Trace {
    match spec_entry_height(net, ladder, entries[k].0, entries[k].1.track) {
        None => spec_break(trace),
        Some(y) => {
            let stay = spec_station_nodes(entries[k].1, y);
            let stayed = spec_draw_segment(trace, axis, stay.0, stay.1);
            if k + 1 < entries.len() && net.has_interval(entries[k].0, entries[k + 1].0) {
                spec_draw_connection(stayed, net, ladder, axis, entries, k, y)
            } else {
                spec_break(stayed)
            }
        },
    }
}

/// The trace after the first `upto` calls of a train have been drawn.
pub open spec fn spec_draw_entries(
    trace: Trace,
    net: Network,
    ladder: Ladder,
    axis: TimeAxis,
    entries: Seq<(StationID, Schedule)>,
    upto: int,
) -> Trace
    decreases upto,
{
    if upto <= 0 {
        trace
    } else {
        spec_draw_entry(
            spec_draw_entries(trace, net, ladder, axis, entries, upto - 1),
            net,
            ladder,
            axis,
            entries,
            upto - 1,
        )
    }
}

/// The empty trace.
pub open spec fn spec_blank() -> Trace {
    Trace { done: Seq::empty(), current: Seq::empty() }
}

/// The polylines of a train: its calls drawn in order from an empty trace,
/// and the last line ended.
pub open spec fn spec_train_polylines(
    net: Network,
    ladder: Ladder,
    axis: TimeAxis,
    entries: Seq<(StationID, Schedule)>,
) -> Seq<Seq<Node>> {
    spec_break(
        spec_draw_entries(spec_blank(), net, ladder, axis, entries, entries.len() as int),
    ).done
}

/// The ladder has a height for every station of the network, none beyond
/// the largest coordinate and each with room for the tracks of its station.
pub open spec fn ladder_fits(net: Network, ladder: Ladder) -> bool {
    &&& ladder.heights@.len() == net.stations@.len()
    &&& forall|i: int|
        0 <= i < net.stations@.len() ==> (#[trigger] ladder.heights@[i]) <= MAX_EXTENT
            && ladder.heights@[i] >= track_room(net.stations@[i].tracks, ladder.track_spacing)
}

/// Where the instant at offset `u` from the start of the window lies.
pub fn classify(u: i64, duration: u32) -> (p: Position)
    ensures
        p == spec_classify(u as int, duration as int),
{
    if u < 0 {
        Position::Before
    } else if u < duration as i64 {
        Position::Inside
    } else {
        Position::After
    }
}

/// The policy for a segment whose ends lie at `start` and `end`.
pub fn policy(start: Position, end: Position) -> (p: Policy)
    ensures
        p == spec_policy(start, end),
{
    let idle = Policy {
        break_before: false,
        first: Mark::Skip,
        second: Mark::Skip,
        break_after: false,
    };
    match start {
        Position::Before => match end {
            Position::Before => idle,
            Position::Inside => Policy {
                break_before: true,
                first: Mark::Edge,
                second: Mark::Raw,
                break_after: false,
            },
            Position::After => Policy {
                break_before: true,
                first: Mark::Edge,
                second: Mark::Edge,
                break_after: true,
            },
        },
        Position::Inside => match end {
            Position::Before => idle,
            Position::Inside => Policy {
                break_before: false,
                first: Mark::Raw,
                second: Mark::Raw,
                break_after: false,
            },
            Position::After => Policy {
                break_before: false,
                first: Mark::Raw,
                second: Mark::Edge,
                break_after: true,
            },
        },
        Position::After => idle,
    }
}

/// The height at offset `at` of the straight line from `(u0, y0)` to
/// `(u1, y1)`.
pub fn interpolate(u0: i64, y0: u64, u1: i64, y1: u64, at: i64) -> (y: u64)
    requires
        -86400 <= u0 <= at <= u1 <= 2 * 86400,
        y0 <= MAX_EXTENT,
        y1 <= MAX_EXTENT,
    ensures
        y == spec_interpolate(u0 as int, y0 as int, u1 as int, y1 as int, at as int),
        y0 <= y <= y1 || y1 <= y <= y0,
{
    if u1 == u0 {
        return y0;
    }
    let run: u128 = (u1 - u0) as u128;
    let part: u128 = (at - u0) as u128;
    if y1 >= y0 {
        let rise: u128 = (y1 - y0) as u128;
        assert(0 <= rise * part <= rise * run && rise * run <= MAX_EXTENT * (3 * 86400))
            by (nonlinear_arith)
            requires
                0 <= part <= run <= 3 * 86400,
                0 <= rise <= MAX_EXTENT,
        ;
        assert((rise * part) / (run as int) <= rise) by (nonlinear_arith)
            requires
                0 <= rise * part <= rise * run,
                run > 0,
                rise >= 0,
        ;
        y0 + ((rise * part) / run) as u64
    } else {
        let fall: u128 = (y0 - y1) as u128;
        assert(0 <= fall * part <= fall * run && fall * run <= MAX_EXTENT * (3 * 86400))
            by (nonlinear_arith)
            requires
                0 <= part <= run <= 3 * 86400,
                0 <= fall <= MAX_EXTENT,
        ;
        assert((fall * part) / (run as int) <= fall) by (nonlinear_arith)
            requires
                0 <= fall * part <= fall * run,
                run > 0,
                fall >= 0,
        ;
        y0 - ((fall * part) / run) as u64
    }
}

impl Pen {
    /// The lines drawn so far, as values.
    pub open spec fn view(&self) -> Trace {
        Trace {
            done: Seq::new(self.done@.len(), |i: int| self.done@[i]@),
            current: self.current@,
        }
    }

    /// A pen that has drawn nothing.
    pub fn new() -> (pen: Pen)
        ensures
            pen@ == spec_blank(),
    {
        let pen = Pen { done: Vec::new(), current: Vec::new() };
        assert(pen@.done =~= Seq::empty());
        pen
    }

    /// Adds a point to the line in progress, unless it is the last point
    /// again.
    pub fn add_point(&mut self, node: Node)
        ensures
            final(self)@ == spec_add(old(self)@, node),
    {
        let n: usize = self.current.len();
        if n > 0 && self.current[n - 1] == node {
            return ;
        }
        self.current.push(node);
        assert(self@.done =~= old(self)@.done);
    }

    /// Ends the line in progress: it is kept if it has two points or more.
    pub fn break_line(&mut self)
        ensures
            final(self)@ == spec_break(old(self)@),
    {
        let mut line: Vec<Node> = Vec::new();
        std::mem::swap(&mut self.current, &mut line);
        if line.len() >= 2 {
            self.done.push(line);
            assert(self@.done =~= old(self)@.done.push(old(self)@.current));
        } else {
            assert(self@.done =~= old(self)@.done);
        }
        assert(self@.current =~= Seq::empty());
    }
}

/// The point of the drawing at `elapsed` seconds into the window and at
/// height `y`.
pub fn node_at(axis: &TimeAxis, elapsed: u32, y: u64) -> (node: Node)
    requires
        axis.wf(),
        elapsed <= axis.duration,
        y <= MAX_EXTENT,
    ensures
        node == spec_node(*axis, elapsed as int, y as int),
{
    let x: u64 = axis.position(elapsed);
    Node(GraphLength(x as i64), GraphLength(y as i64))
}

/// Draws one occurrence of a segment under the policy of its positions.
pub fn draw_candidate(pen: &mut Pen, axis: &TimeAxis, start: i64, y0: u64, end: i64, y1: u64)
    requires
        axis.wf(),
        -86400 <= start <= end < 2 * 86400,
        y0 <= MAX_EXTENT,
        y1 <= MAX_EXTENT,
    ensures
        final(pen)@ == spec_draw_candidate(
            old(pen)@,
            *axis,
            start as int,
            y0 as int,
            end as int,
            y1 as int,
        ),
{
    let rule = policy(classify(start, axis.duration), classify(end, axis.duration));
    if rule.break_before {
        pen.break_line();
    }
    match rule.first {
        Mark::Skip => {},
        Mark::Raw => {
            pen.add_point(node_at(axis, start as u32, y0));
        },
        Mark::Edge => {
            let y: u64 = interpolate(start, y0, end, y1, 0);
            pen.add_point(node_at(axis, 0, y));
        },
    }
    match rule.second {
        Mark::Skip => {},
        Mark::Raw => {
            pen.add_point(node_at(axis, end as u32, y1));
        },
        Mark::Edge => {
            let y: u64 = interpolate(start, y0, end, y1, axis.duration as i64);
            pen.add_point(node_at(axis, axis.duration, y));
        },
    }
    if rule.break_after {
        pen.break_line();
    }
}

/// Draws a segment between two stops: its occurrence on the day of the
/// window, then that of the day before.
pub fn draw_segment(pen: &mut Pen, axis: &TimeAxis, from: Stop, to: Stop)
    requires
        axis.wf(),
        from.height <= MAX_EXTENT,
        to.height <= MAX_EXTENT,
    ensures
        final(pen)@ == spec_draw_segment(old(pen)@, *axis, from, to),
{
    let t0: u32 = from.time % 86400;
    let t1: u32 = to.time % 86400;
    let start: u32 = (t0 + 86400 - axis.begin) % 86400;
    let span: u32 = (t1 + 86400 - t0) % 86400;
    let end: u32 = start + span;
    draw_candidate(pen, axis, start as i64, from.height, end as i64, to.height);
    draw_candidate(
        pen,
        axis,
        start as i64 - 86400,
        from.height,
        end as i64 - 86400,
        to.height,
    );
}

/// The height of the rule of a track of the station at place `i`.
pub fn track_rule(network: &Network, ladder: &Ladder, i: usize, track: Option<Track>) -> (y: u64)
    requires
        network.wf_index(),
        ladder_fits(*network, *ladder),
        i < network.stations@.len(),
    ensures
        y == spec_track_rule(*network, *ladder, i as int, track),
        y <= MAX_EXTENT,
{
    let tracks: Track = network.stations[i].tracks;
    let chosen: Track = match track {
        Some(t) => if t < tracks {
            t
        } else {
            tracks - 1
        },
        None => 0,
    };
    assert(0 <= chosen * ladder.track_spacing <= (tracks - 1) * ladder.track_spacing)
        by (nonlinear_arith)
        requires
            0 <= chosen <= tracks - 1,
            0 <= ladder.track_spacing,
    ;
    assert(ladder.heights@[i as int] >= track_room(tracks, ladder.track_spacing));
    ladder.heights[i] - (chosen as u64) * (ladder.track_spacing as u64)
}

/// The rule of the station at place `i` that faces a station at height
/// `other`; `own` where the two lie at one height.
pub fn facing_rule(network: &Network, ladder: &Ladder, i: usize, other: u64, own: u64) -> (y: u64)
    requires
        network.wf_index(),
        ladder_fits(*network, *ladder),
        i < network.stations@.len(),
        own <= MAX_EXTENT,
    ensures
        y == spec_facing_rule(*network, *ladder, i as int, other as int, own as int),
        y <= MAX_EXTENT,
{
    let height: u64 = ladder.heights[i];
    if other > height {
        height
    } else if other < height {
        let tracks: Track = network.stations[i].tracks;
        assert(0 <= (tracks - 1) * ladder.track_spacing <= 0xFFFF_FFFF * 0xFFFF_FFFF)
            by (nonlinear_arith)
            requires
                1 <= tracks <= 0xFFFF_FFFF,
                0 <= ladder.track_spacing <= 0xFFFF_FFFF,
        ;
        assert(ladder.heights@[i as int] >= track_room(tracks, ladder.track_spacing));
        height - ((tracks - 1) as u64) * (ladder.track_spacing as u64)
    } else {
        own
    }
}

/// The height at which a call at station `sid` is drawn, if the network
/// has the station.
pub fn entry_height(network: &Network, ladder: &Ladder, sid: StationID, track: Option<Track>) -> (r:
    Option<u64>)
    requires
        network.wf_index(),
        ladder_fits(*network, *ladder),
    ensures
        r.is_some() == spec_entry_height(*network, *ladder, sid, track).is_some(),
        r.is_some() ==> r.unwrap() == spec_entry_height(*network, *ladder, sid, track).unwrap()
            && r.unwrap() <= MAX_EXTENT,
{
    match network.station_lookup.get(&sid) {
        Some(found) => Some(track_rule(network, ladder, *found, track)),
        None => None,
    }
}

/// The two ends of the stay of a call drawn at height `y`.
pub fn create_station_nodes(entry: &Schedule, y: u64) -> (nodes: (Stop, Stop))
    ensures
        nodes == spec_station_nodes(*entry, y as int),
{
    (Stop { time: entry.arr.0, height: y }, Stop { time: entry.dep.0, height: y })
}

/// The two ends of the travel from a call, leaving at height `y`, to the
/// next call, reached at height `next_y`.
pub fn create_connection_nodes(cur: &Schedule, next: &Schedule, y: u64, next_y: u64) -> (nodes: (
    Stop,
    Stop,
))
    ensures
        nodes == spec_connection_nodes(*cur, *next, y as int, next_y as int),
{
    (Stop { time: cur.dep.0, height: y }, Stop { time: next.arr.0, height: next_y })
}

/// Draws the travel from call `k` of a train, itself drawn at height `y`,
/// to the next call, where an interval of the network joins the two
/// stations; breaks the line otherwise.
pub fn process_next_station_connection(
    pen: &mut Pen,
    network: &Network,
    ladder: &Ladder,
    axis: &TimeAxis,
    train: &Train,
    k: usize,
    y: u64,
)
    requires
        network.wf_index(),
        ladder_fits(*network, *ladder),
        axis.wf(),
        k < train.entries@.len(),
        y <= MAX_EXTENT,
    ensures
        final(pen)@ == (if k + 1 < train.entries@.len() && network.has_interval(
            train.entries@[k as int].0,
            train.entries@[k + 1].0,
        ) {
            spec_draw_connection(
                old(pen)@,
                *network,
                *ladder,
                *axis,
                train.entries@,
                k as int,
                y as int,
            )
        } else {
            spec_break(old(pen)@)
        }),
{
    if k < train.entries.len() - 1 {
        let from: StationID = train.entries[k].0;
        let to: StationID = train.entries[k + 1].0;
        proof {
            network.lemma_has_interval(from, to);
        }
        if graph_edge_weight(&network.graph, from, to).is_some() {
            proof {
                let j = graph_edges(network.graph)[(from, to)] as int;
                assert(network.station_lookup@.contains_key(network.intervals@[j].from));
                assert(network.station_lookup@.contains_key(network.intervals@[j].to));
            }
            let here = network.station_lookup.get(&from);
            let there = network.station_lookup.get(&to);
            match (here, there) {
                (Some(i), Some(next_i)) => {
                    let cur = &train.entries[k].1;
                    let next = &train.entries[k + 1].1;
                    let next_y: u64 = track_rule(network, ladder, *next_i, next.track);
                    let out: u64 = facing_rule(network, ladder, *i, ladder.heights[*next_i], y);
                    let into: u64 = facing_rule(
                        network,
                        ladder,
                        *next_i,
                        ladder.heights[*i],
                        next_y,
                    );
                    let travel = create_connection_nodes(cur, next, out, into);
                    draw_segment(pen, axis, Stop { time: cur.dep.0, height: y }, travel.0);
                    draw_segment(pen, axis, travel.0, travel.1);
                    draw_segment(pen, axis, travel.1, Stop { time: next.arr.0, height: next_y });
                    return ;
                },
                _ => {},
            }
        }
    }
    pen.break_line();
}

/// Draws call `k` of a train: its stay, then the travel to the next call.
pub fn process_schedule_point(
    pen: &mut Pen,
    network: &Network,
    ladder: &Ladder,
    axis: &TimeAxis,
    train: &Train,
    k: usize,
)
    requires
        network.wf_index(),
        ladder_fits(*network, *ladder),
        axis.wf(),
        k < train.entries@.len(),
    ensures
        final(pen)@ == spec_draw_entry(
            old(pen)@,
            *network,
            *ladder,
            *axis,
            train.entries@,
            k as int,
        ),
{
    let sid: StationID = train.entries[k].0;
    match entry_height(network, ladder, sid, train.entries[k].1.track) {
        None => {
            pen.break_line();
        },
        Some(y) => {
            let stay = create_station_nodes(&train.entries[k].1, y);
            draw_segment(pen, axis, stay.0, stay.1);
            process_next_station_connection(pen, network, ladder, axis, train, k, y);
        },
    }
}

/// Every finished polyline of the trace has two points or more.
pub open spec fn lines_drawable(lines: Seq<Seq<Node>>) -> bool {
    forall|i: int| 0 <= i < lines.len() ==> (#[trigger] lines[i]).len() >= 2
}

/// Draws one train: walks its calls in order and returns its polylines,
/// clipped to the window. No polyline has fewer than two points.
pub fn process_single_train(
    network: &Network,
    ladder: &Ladder,
    axis: &TimeAxis,
    train: &Train,
) -> (lines: Vec<Vec<Node>>)
    requires
        network.wf_index(),
        ladder_fits(*network, *ladder),
        axis.wf(),
    ensures
        Seq::new(lines@.len(), |i: int| lines@[i]@) == spec_train_polylines(
            *network,
            *ladder,
            *axis,
            train.entries@,
        ),
        forall|i: int| 0 <= i < lines@.len() ==> (#[trigger] lines@[i])@.len() >= 2,
{
    let mut pen = Pen::new();
    let mut k: usize = 0;
    while k < train.entries.len()
        invariant
            0 <= k <= train.entries@.len(),
            network.wf_index(),
            ladder_fits(*network, *ladder),
            axis.wf(),
            pen@ == spec_draw_entries(
                spec_blank(),
                *network,
                *ladder,
                *axis,
                train.entries@,
                k as int,
            ),
        decreases train.entries@.len() - k,
    {
        process_schedule_point(&mut pen, network, ladder, axis, train, k);
        k += 1;
    }
    pen.break_line();
    proof {
        lemma_train_lines_drawable(*network, *ladder, *axis, train.entries@);
        assert forall|i: int| 0 <= i < pen.done@.len() implies (#[trigger] pen.done@[i])@.len()
            >= 2 by {
            assert(pen@.done[i] == pen.done@[i]@);
        }
    }
    pen.done
}

/// Adding a point leaves the finished polylines as they are.
pub proof fn lemma_candidate_keeps_drawable(
    trace: Trace,
    axis: TimeAxis,
    start: int,
    y0: int,
    end: int,
    y1: int,
)
    requires
        lines_drawable(trace.done),
    ensures
        lines_drawable(spec_draw_candidate(trace, axis, start, y0, end, y1).done),
{
}

/// Drawing a call leaves every finished polyline with two points or more.
pub proof fn lemma_entry_keeps_drawable(
    trace: Trace,
    net: Network,
    ladder: Ladder,
    axis: TimeAxis,
    entries: Seq<(StationID, Schedule)>,
    k: int,
)
    requires
        lines_drawable(trace.done),
    ensures
        lines_drawable(spec_draw_entry(trace, net, ladder, axis, entries, k).done),
{
    match spec_entry_height(net, ladder, entries[k].0, entries[k].1.track) {
        None => {},
        Some(y) => {
            let stay = spec_station_nodes(entries[k].1, y);
            lemma_segment_keeps_drawable(trace, axis, stay.0, stay.1);
            let stayed = spec_draw_segment(trace, axis, stay.0, stay.1);
            if k + 1 < entries.len() && net.has_interval(entries[k].0, entries[k + 1].0) {
                let i = net.station_lookup@[entries[k].0] as int;
                let next_i = net.station_lookup@[entries[k + 1].0] as int;
                let next_y = spec_track_rule(net, ladder, next_i, entries[k + 1].1.track);
                let out = spec_facing_rule(net, ladder, i, ladder.heights@[next_i] as int, y);
                let into = spec_facing_rule(net, ladder, next_i, ladder.heights@[i] as int, next_y);
                let travel = spec_connection_nodes(entries[k].1, entries[k + 1].1, out, into);
                let first = Stop { time: entries[k].1.dep.0, height: y as u64 };
                let last = Stop { time: entries[k + 1].1.arr.0, height: next_y as u64 };
                lemma_segment_keeps_drawable(stayed, axis, first, travel.0);
                let left = spec_draw_segment(stayed, axis, first, travel.0);
                lemma_segment_keeps_drawable(left, axis, travel.0, travel.1);
                let travelled = spec_draw_segment(left, axis, travel.0, travel.1);
                lemma_segment_keeps_drawable(travelled, axis, travel.1, last);
            }
        },
    }
}

/// Drawing a segment leaves every finished polyline with two points or
/// more.
pub proof fn lemma_segment_keeps_drawable(trace: Trace, axis: TimeAxis, from: Stop, to: Stop)
    requires
        lines_drawable(trace.done),
    ensures
        lines_drawable(spec_draw_segment(trace, axis, from, to).done),
{
    let start = spec_offset(axis, from.time as int);
    let end = start + spec_span(from.time as int, to.time as int);
    lemma_candidate_keeps_drawable(trace, axis, start, from.height as int, end, to.height as int);
    lemma_candidate_keeps_drawable(
        spec_draw_candidate(trace, axis, start, from.height as int, end, to.height as int),
        axis,
        start - 86400,
        from.height as int,
        end - 86400,
        to.height as int,
    );
}

/// Drawing calls leaves every finished polyline with two points or more.
pub proof fn lemma_entries_keep_drawable(
    net: Network,
    ladder: Ladder,
    axis: TimeAxis,
    entries: Seq<(StationID, Schedule)>,
    upto: int,
)
    ensures
        lines_drawable(spec_draw_entries(spec_blank(), net, ladder, axis, entries, upto).done),
    decreases upto,
{
    if upto > 0 {
        lemma_entries_keep_drawable(net, ladder, axis, entries, upto - 1);
        lemma_entry_keeps_drawable(
            spec_draw_entries(spec_blank(), net, ladder, axis, entries, upto - 1),
            net,
            ladder,
            axis,
            entries,
            upto - 1,
        );
    }
}

/// No polyline of a train has fewer than two points: a line that ends with
/// a single point is dropped.
pub proof fn lemma_train_lines_drawable(
    net: Network,
    ladder: Ladder,
    axis: TimeAxis,
    entries: Seq<(StationID, Schedule)>,
)
    ensures
        lines_drawable(spec_train_polylines(net, ladder, axis, entries)),
{
    lemma_entries_keep_drawable(net, ladder, axis, entries, entries.len() as int);
}

/// The segment between two times of the day lies outside the window: it
/// starts at or after the end of the window and ends before the window
/// starts again.
pub open spec fn segment_outside(axis: TimeAxis, from: int, to: int) -> bool {
    spec_offset(axis, from) >= axis.duration && spec_offset(axis, from) + spec_span(from, to)
        < 86400
}

/// The whole schedule lies outside the window: every stay does, and every
/// travel from one call to the next.
pub open spec fn schedule_outside(axis: TimeAxis, entries: Seq<(StationID, Schedule)>) -> bool {
    &&& forall|k: int|
        0 <= k < entries.len() ==> segment_outside(
            axis,
            (#[trigger] entries[k]).1.arr.0 as int,
            entries[k].1.dep.0 as int,
        )
    &&& forall|k: int|
        0 <= k && k + 1 < entries.len() ==> segment_outside(
            axis,
            (#[trigger] entries[k]).1.dep.0 as int,
            entries[k + 1].1.arr.0 as int,
        )
}

/// A segment that lies outside the window adds nothing and breaks nothing.
pub proof fn lemma_outside_segment_is_idle(trace: Trace, axis: TimeAxis, from: Stop, to: Stop)
    requires
        axis.wf(),
        segment_outside(axis, from.time as int, to.time as int),
    ensures
        spec_draw_segment(trace, axis, from, to) == trace,
{
}

/// An instant outside the window is a segment outside the window.
pub proof fn lemma_outside_instant(axis: TimeAxis, from: int, to: int)
    requires
        axis.wf(),
        0 <= from,
        0 <= to,
        segment_outside(axis, from, to),
    ensures
        segment_outside(axis, from, from),
        segment_outside(axis, to, to),
{
}

/// Calls that lie outside the window leave an empty trace empty.
pub proof fn lemma_outside_entries_draw_nothing(
    net: Network,
    ladder: Ladder,
    axis: TimeAxis,
    entries: Seq<(StationID, Schedule)>,
    upto: int,
)
    requires
        axis.wf(),
        schedule_outside(axis, entries),
        0 <= upto <= entries.len(),
    ensures
        spec_draw_entries(spec_blank(), net, ladder, axis, entries, upto) == spec_blank(),
    decreases upto,
{
    if upto > 0 {
        lemma_outside_entries_draw_nothing(net, ladder, axis, entries, upto - 1);
        let k = upto - 1;
        let blank = spec_blank();
        assert(spec_break(blank) == blank);
        match spec_entry_height(net, ladder, entries[k].0, entries[k].1.track) {
            None => {},
            Some(y) => {
                let stay = spec_station_nodes(entries[k].1, y);
                assert(segment_outside(axis, entries[k].1.arr.0 as int, entries[k].1.dep.0 as int));
                lemma_outside_segment_is_idle(blank, axis, stay.0, stay.1);
                if k + 1 < entries.len() && net.has_interval(entries[k].0, entries[k + 1].0) {
                    let i = net.station_lookup@[entries[k].0] as int;
                    let next_i = net.station_lookup@[entries[k + 1].0] as int;
                    let next_y = spec_track_rule(net, ladder, next_i, entries[k + 1].1.track);
                    let out = spec_facing_rule(net, ladder, i, ladder.heights@[next_i] as int, y);
                    let into = spec_facing_rule(
                        net,
                        ladder,
                        next_i,
                        ladder.heights@[i] as int,
                        next_y,
                    );
                    let travel = spec_connection_nodes(entries[k].1, entries[k + 1].1, out, into);
                    let first = Stop { time: entries[k].1.dep.0, height: y as u64 };
                    let last = Stop { time: entries[k + 1].1.arr.0, height: next_y as u64 };
                    assert(segment_outside(
                        axis,
                        entries[k].1.dep.0 as int,
                        entries[k + 1].1.arr.0 as int,
                    ));
                    lemma_outside_instant(
                        axis,
                        entries[k].1.dep.0 as int,
                        entries[k + 1].1.arr.0 as int,
                    );
                    lemma_outside_segment_is_idle(blank, axis, first, travel.0);
                    lemma_outside_segment_is_idle(blank, axis, travel.0, travel.1);
                    lemma_outside_segment_is_idle(blank, axis, travel.1, last);
                }
            },
        }
    }
}

/// A train whose whole schedule lies outside the window has no polyline.
pub proof fn lemma_outside_train_draws_nothing(
    net: Network,
    ladder: Ladder,
    axis: TimeAxis,
    entries: Seq<(StationID, Schedule)>,
)
    requires
        axis.wf(),
        schedule_outside(axis, entries),
    ensures
        spec_train_polylines(net, ladder, axis, entries) == Seq::<Seq<Node>>::empty(),
{
    lemma_outside_entries_draw_nothing(net, ladder, axis, entries, entries.len() as int);
}

/// A train with a single call that arrives and departs at one instant has
/// no polyline: the call is a single point, and a line of one point is
/// dropped.
pub proof fn lemma_single_instant_draws_nothing(
    net: Network,
    ladder: Ladder,
    axis: TimeAxis,
    entries: Seq<(StationID, Schedule)>,
)
    requires
        axis.wf(),
        entries.len() == 1,
        spec_span(entries[0].1.arr.0 as int, entries[0].1.dep.0 as int) == 0,
    ensures
        spec_train_polylines(net, ladder, axis, entries) == Seq::<Seq<Node>>::empty(),
{
    let blank = spec_blank();
    assert(spec_draw_entries(blank, net, ladder, axis, entries, 0) == blank);
    assert(spec_draw_entries(blank, net, ladder, axis, entries, 1) == spec_draw_entry(
        blank,
        net,
        ladder,
        axis,
        entries,
        0,
    ));
    match spec_entry_height(net, ladder, entries[0].0, entries[0].1.track) {
        None => {},
        Some(y) => {
            let stay = spec_station_nodes(entries[0].1, y);
            let stayed = spec_draw_segment(blank, axis, stay.0, stay.1);
            assert(stayed.done == blank.done);
            assert(stayed.current.len() <= 1);
        },
    }
}

/// The point lies within the window along the time axis and within the
/// largest coordinate along the distance axis.
pub open spec fn node_in_window(axis: TimeAxis, node: Node) -> bool {
    &&& 0 <= node.0.0 <= axis.spec_position(axis.duration as int)
    &&& 0 <= node.1.0 <= MAX_EXTENT
}

/// Every point of the trace lies within the window.
pub open spec fn trace_in_window(axis: TimeAxis, trace: Trace) -> bool {
    &&& forall|i: int, j: int|
        0 <= i < trace.done.len() && 0 <= j < trace.done[i].len() ==> node_in_window(
            axis,
            #[trigger] trace.done[i][j],
        )
    &&& forall|j: int|
        0 <= j < trace.current.len() ==> node_in_window(axis, #[trigger] trace.current[j])
}

/// A point at an instant of the window and at a height of the ladder lies
/// within the window.
pub proof fn lemma_node_in_window(axis: TimeAxis, elapsed: int, y: int)
    requires
        axis.wf(),
        0 <= elapsed <= axis.duration,
        0 <= y <= MAX_EXTENT,
    ensures
        node_in_window(axis, spec_node(axis, elapsed, y)),
{
    lemma_position_monotonic(
        axis.begin as int,
        axis.factors@,
        axis.unit_length as int,
        elapsed,
        axis.duration as int,
    );
}

/// A height between two heights of the ladder is a height of the ladder.
pub proof fn lemma_interpolate_between(u0: int, y0: int, u1: int, y1: int, at: int)
    requires
        u0 <= at <= u1,
        0 <= y0 <= MAX_EXTENT,
        0 <= y1 <= MAX_EXTENT,
    ensures
        0 <= spec_interpolate(u0, y0, u1, y1, at) <= MAX_EXTENT,
{
    if u1 != u0 {
        let run = u1 - u0;
        let part = at - u0;
        if y1 >= y0 {
            let rise = y1 - y0;
            assert(0 <= (rise * part) / run <= rise) by (nonlinear_arith)
                requires
                    0 <= part <= run,
                    run > 0,
                    rise >= 0,
            ;
        } else {
            let fall = y0 - y1;
            assert(0 <= (fall * part) / run <= fall) by (nonlinear_arith)
                requires
                    0 <= part <= run,
                    run > 0,
                    fall >= 0,
            ;
        }
    }
}

/// Keeping, adding to or ending a trace within the window leaves it within
/// the window.
pub proof fn lemma_steps_stay_in_window(axis: TimeAxis, trace: Trace, node: Node)
    requires
        trace_in_window(axis, trace),
    ensures
        trace_in_window(axis, spec_break(trace)),
        node_in_window(axis, node) ==> trace_in_window(axis, spec_add(trace, node)),
{
    let broken = spec_break(trace);
    assert forall|i: int, j: int|
        0 <= i < broken.done.len() && 0 <= j < broken.done[i].len() implies node_in_window(
        axis,
        #[trigger] broken.done[i][j],
    ) by {
        if i < trace.done.len() {
            assert(broken.done[i] == trace.done[i]);
        } else {
            assert(broken.done[i] == trace.current);
        }
    }
    if node_in_window(axis, node) {
        let added = spec_add(trace, node);
        assert forall|j: int| 0 <= j < added.current.len() implies node_in_window(
            axis,
            #[trigger] added.current[j],
        ) by {
            if j < trace.current.len() {
                assert(added.current[j] == trace.current[j]);
            }
        }
    }
}

/// One occurrence of a segment between heights of the ladder leaves a
/// trace within the window within the window.
pub proof fn lemma_candidate_stays_in_window(
    trace: Trace,
    axis: TimeAxis,
    start: int,
    y0: int,
    end: int,
    y1: int,
)
    requires
        axis.wf(),
        trace_in_window(axis, trace),
        start <= end,
        0 <= y0 <= MAX_EXTENT,
        0 <= y1 <= MAX_EXTENT,
    ensures
        trace_in_window(axis, spec_draw_candidate(trace, axis, start, y0, end, y1)),
{
    let d = axis.duration as int;
    let policy = spec_policy(spec_classify(start, d), spec_classify(end, d));
    let t1 = if policy.break_before {
        spec_break(trace)
    } else {
        trace
    };
    let first = match policy.first {
        Mark::Skip => spec_node(axis, 0, 0),
        Mark::Raw => spec_node(axis, start, y0),
        Mark::Edge => spec_node(axis, 0, spec_interpolate(start, y0, end, y1, 0)),
    };
    let t2 = if policy.first == Mark::Skip {
        t1
    } else {
        spec_add(t1, first)
    };
    let second = match policy.second {
        Mark::Skip => spec_node(axis, 0, 0),
        Mark::Raw => spec_node(axis, end, y1),
        Mark::Edge => spec_node(axis, d, spec_interpolate(start, y0, end, y1, d)),
    };
    let t3 = if policy.second == Mark::Skip {
        t2
    } else {
        spec_add(t2, second)
    };
    lemma_steps_stay_in_window(axis, trace, first);
    if policy.first == Mark::Raw {
        lemma_node_in_window(axis, start, y0);
    }
    if policy.first == Mark::Edge {
        lemma_interpolate_between(start, y0, end, y1, 0);
        lemma_node_in_window(axis, 0, spec_interpolate(start, y0, end, y1, 0));
    }
    lemma_steps_stay_in_window(axis, t1, first);
    if policy.second == Mark::Raw {
        lemma_node_in_window(axis, end, y1);
    }
    if policy.second == Mark::Edge {
        lemma_interpolate_between(start, y0, end, y1, d);
        lemma_node_in_window(axis, d, spec_interpolate(start, y0, end, y1, d));
    }
    lemma_steps_stay_in_window(axis, t2, second);
    lemma_steps_stay_in_window(axis, t3, second);
}

/// A segment between heights of the ladder leaves a trace within the
/// window within the window.
pub proof fn lemma_segment_stays_in_window(trace: Trace, axis: TimeAxis, from: Stop, to: Stop)
    requires
        axis.wf(),
        trace_in_window(axis, trace),
        from.height <= MAX_EXTENT,
        to.height <= MAX_EXTENT,
    ensures
        trace_in_window(axis, spec_draw_segment(trace, axis, from, to)),
{
    let start = spec_offset(axis, from.time as int);
    let end = start + spec_span(from.time as int, to.time as int);
    lemma_candidate_stays_in_window(trace, axis, start, from.height as int, end, to.height as int);
    lemma_candidate_stays_in_window(
        spec_draw_candidate(trace, axis, start, from.height as int, end, to.height as int),
        axis,
        start - 86400,
        from.height as int,
        end - 86400,
        to.height as int,
    );
}

/// The rules of a station of a fitting ladder are heights of the ladder.
pub proof fn lemma_rules_on_ladder(net: Network, ladder: Ladder, i: int, track: Option<Track>, other: int)
    requires
        net.wf_index(),
        ladder_fits(net, ladder),
        0 <= i < net.stations@.len(),
    ensures
        0 <= spec_track_rule(net, ladder, i, track) <= MAX_EXTENT,
        0 <= spec_facing_rule(net, ladder, i, other, spec_track_rule(net, ladder, i, track))
            <= MAX_EXTENT,
{
    let tracks = net.stations@[i].tracks;
    let chosen = spec_track(track, tracks);
    let spacing = ladder.track_spacing;
    assert(ladder.heights@[i] >= track_room(tracks, spacing));
    assert(0 <= chosen * spacing <= (tracks - 1) * spacing) by (nonlinear_arith)
        requires
            0 <= chosen <= tracks - 1,
            0 <= spacing,
    ;
}

/// Drawing a call leaves a trace within the window within the window.
pub proof fn lemma_entry_stays_in_window(
    trace: Trace,
    net: Network,
    ladder: Ladder,
    axis: TimeAxis,
    entries: Seq<(StationID, Schedule)>,
    k: int,
)
    requires
        net.wf_index(),
        ladder_fits(net, ladder),
        axis.wf(),
        0 <= k < entries.len(),
        trace_in_window(axis, trace),
    ensures
        trace_in_window(axis, spec_draw_entry(trace, net, ladder, axis, entries, k)),
{
    let filler = spec_node(axis, 0, 0);
    lemma_steps_stay_in_window(axis, trace, filler);
    if net.station_lookup@.contains_key(entries[k].0) {
        let i = net.station_lookup@[entries[k].0] as int;
        let y = spec_track_rule(net, ladder, i, entries[k].1.track);
        lemma_rules_on_ladder(net, ladder, i, entries[k].1.track, 0);
        let stay = spec_station_nodes(entries[k].1, y);
        lemma_segment_stays_in_window(trace, axis, stay.0, stay.1);
        let stayed = spec_draw_segment(trace, axis, stay.0, stay.1);
        lemma_steps_stay_in_window(axis, stayed, filler);
        if k + 1 < entries.len() && net.has_interval(entries[k].0, entries[k + 1].0) {
            net.lemma_has_interval(entries[k].0, entries[k + 1].0);
            let j = graph_edges(net.graph)[(entries[k].0, entries[k + 1].0)] as int;
            assert(net.station_lookup@.contains_key(net.intervals@[j].to));
            let next_i = net.station_lookup@[entries[k + 1].0] as int;
            let next_y = spec_track_rule(net, ladder, next_i, entries[k + 1].1.track);
            let out = spec_facing_rule(net, ladder, i, ladder.heights@[next_i] as int, y);
            let into = spec_facing_rule(net, ladder, next_i, ladder.heights@[i] as int, next_y);
            lemma_rules_on_ladder(net, ladder, i, entries[k].1.track, ladder.heights@[next_i] as int);
            lemma_rules_on_ladder(
                net,
                ladder,
                next_i,
                entries[k + 1].1.track,
                ladder.heights@[i] as int,
            );
            let travel = spec_connection_nodes(entries[k].1, entries[k + 1].1, out, into);
            let first = Stop { time: entries[k].1.dep.0, height: y as u64 };
            let last = Stop { time: entries[k + 1].1.arr.0, height: next_y as u64 };
            lemma_segment_stays_in_window(stayed, axis, first, travel.0);
            let left = spec_draw_segment(stayed, axis, first, travel.0);
            lemma_segment_stays_in_window(left, axis, travel.0, travel.1);
            let travelled = spec_draw_segment(left, axis, travel.0, travel.1);
            lemma_segment_stays_in_window(travelled, axis, travel.1, last);
        }
    }
}

/// Drawing calls from an empty trace gives a trace within the window.
pub proof fn lemma_entries_stay_in_window(
    net: Network,
    ladder: Ladder,
    axis: TimeAxis,
    entries: Seq<(StationID, Schedule)>,
    upto: int,
)
    requires
        net.wf_index(),
        ladder_fits(net, ladder),
        axis.wf(),
        0 <= upto <= entries.len(),
    ensures
        trace_in_window(axis, spec_draw_entries(spec_blank(), net, ladder, axis, entries, upto)),
    decreases upto,
{
    if upto > 0 {
        lemma_entries_stay_in_window(net, ladder, axis, entries, upto - 1);
        lemma_entry_stays_in_window(
            spec_draw_entries(spec_blank(), net, ladder, axis, entries, upto - 1),
            net,
            ladder,
            axis,
            entries,
            upto - 1,
        );
    }
}

/// Every point of every polyline of a train lies within the window: the
/// lines are clipped at its edges.
pub proof fn lemma_train_lines_in_window(
    net: Network,
    ladder: Ladder,
    axis: TimeAxis,
    entries: Seq<(StationID, Schedule)>,
)
    requires
        net.wf_index(),
        ladder_fits(net, ladder),
        axis.wf(),
    ensures
        forall|i: int, j: int|
            0 <= i < spec_train_polylines(net, ladder, axis, entries).len() && 0 <= j
                < spec_train_polylines(net, ladder, axis, entries)[i].len() ==> node_in_window(
                axis,
                #[trigger] spec_train_polylines(net, ladder, axis, entries)[i][j],
            ),
{
    lemma_entries_stay_in_window(net, ladder, axis, entries, entries.len() as int);
    lemma_steps_stay_in_window(
        axis,
        spec_draw_entries(spec_blank(), net, ladder, axis, entries, entries.len() as int),
        spec_node(axis, 0, 0),
    );
}

} // verus!
