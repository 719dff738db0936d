use train_diagram::models::axis::TimeAxis;
use train_diagram::models::graph::Station;
use train_diagram::models::input::NetworkConfig;
use train_diagram::models::ladder::{sort_by_position, Ladder, MAX_EXTENT};
use train_diagram::models::path::{
    classify, interpolate, policy, Mark, Pen, Policy, Position,
};
use train_diagram::types::{GraphLength, IntervalLength, Node, ScaleMode, Time};
use train_diagram::utils::{shift_register_mix, tag_of_bytes, train_tag};

fn station(id: u64, position: u32, tracks: u32) -> Station {
    Station { id, position, tracks, trains: vec![] }
}

#[test]
fn stations_are_sorted_by_position() {
    let stations = vec![
        station(1, 500, 1),
        station(2, 0, 1),
        station(3, 500, 1),
        station(4, 100, 1),
        station(5, 0, 1),
    ];
    assert_eq!(sort_by_position(&stations), vec![1, 4, 3, 0, 2]);
    assert_eq!(sort_by_position(&vec![]), Vec::<usize>::new());
}

#[test]
fn ladder_heights() {
    let stations = vec![station(1, 30, 2), station(2, 0, 3), station(3, 10, 1)];
    let ladder = Ladder::build(&stations, ScaleMode::Linear, 2, 5).unwrap();
    // station 2 first: room for two more tracks
    assert_eq!(ladder.rungs[0].station, 2);
    assert_eq!(ladder.rungs[0].index, 1);
    assert_eq!(ladder.rungs[0].draw_height, 10);
    // station 3: 10 units further at scale 2, no more tracks
    assert_eq!(ladder.rungs[1].station, 3);
    assert_eq!(ladder.rungs[1].draw_height, 30);
    // station 1: 20 units further at scale 2, one more track
    assert_eq!(ladder.rungs[2].station, 1);
    assert_eq!(ladder.rungs[2].draw_height, 75);
    assert_eq!(ladder.heights, vec![75, 10, 30]);
    assert_eq!(ladder.total_height(), 75);
    assert_eq!(ladder.rungs[0].rule(0, 5), 10);
    assert_eq!(ladder.rungs[0].rule(2, 5), 0);
    assert_eq!(ladder.rungs[2].rule(1, 5), 70);
}

#[test]
fn ladder_heights_increase() {
    let stations = vec![station(1, 7, 1), station(2, 7, 1), station(3, 7, 1)];
    let ladder = Ladder::build(&stations, ScaleMode::Linear, 1, 0).unwrap();
    // a distance of zero still takes the scale of the axis
    assert_eq!(ladder.heights, vec![0, 1, 2]);
    let uniform = Ladder::build(&stations, ScaleMode::Uniform, 4, 0).unwrap();
    assert_eq!(uniform.heights, vec![0, 4, 8]);
}

#[test]
fn ladder_under_each_mode() {
    let stations = vec![station(1, 0, 1), station(2, 100, 1)];
    let height = |mode| Ladder::build(&stations, mode, 3, 0).unwrap().heights[1];
    assert_eq!(height(ScaleMode::Linear), 300);
    assert_eq!(height(ScaleMode::Auto), 300);
    assert_eq!(height(ScaleMode::Square), 30000);
    assert_eq!(height(ScaleMode::SquareRoot), 30);
    assert_eq!(height(ScaleMode::Logarithmic), 12);
    assert_eq!(height(ScaleMode::Uniform), 3);
}

#[test]
fn ladder_beyond_the_largest_coordinate() {
    let stations = vec![station(1, 0, 1), station(2, u32::MAX, 1)];
    assert!(Ladder::build(&stations, ScaleMode::Square, 1, 0).is_none());
    assert!(Ladder::build(&stations, ScaleMode::Linear, (1 << 28) + 1, 0).is_none());
    let ladder = Ladder::build(&stations, ScaleMode::Linear, 1 << 28, 0).unwrap();
    assert!(ladder.total_height() <= MAX_EXTENT);
    assert!(Ladder::build(&vec![], ScaleMode::Linear, 1, 0).unwrap().rungs.is_empty());
}

#[test]
fn time_axis_positions() {
    let mut factors = vec![1u64; 24];
    factors[1] = 3;
    let axis = TimeAxis::new(Time::new(1800), Time::new(9000), factors, 3600).unwrap();
    assert_eq!(axis.begin, 1800);
    assert_eq!(axis.duration, 7200);
    assert_eq!(axis.position(0), 0);
    assert_eq!(axis.position(900), 900);
    assert_eq!(axis.position(1800), 1800);
    assert_eq!(axis.position(1801), 1803);
    assert_eq!(axis.position(5400), 1800 + 3 * 3600);
    assert_eq!(axis.position(7200), 1800 + 3 * 3600 + 1800);
    assert_eq!(axis.width(), 14400);
}

#[test]
fn time_axis_rounds_down() {
    let axis = TimeAxis::new(Time::new(0), Time::new(3600), vec![1u64; 24], 1).unwrap();
    assert_eq!(axis.position(3599), 0);
    assert_eq!(axis.position(3600), 1);
    let axis = TimeAxis::new(Time::new(0), Time::new(3600), vec![1u64; 24], 7).unwrap();
    assert_eq!(axis.position(1800), 3);
}

#[test]
fn time_axis_windows() {
    let over_midnight = TimeAxis::new(Time::new(82800), Time::new(3600), vec![1u64; 24], 3600)
        .unwrap();
    assert_eq!(over_midnight.duration, 7200);
    let whole_day = TimeAxis::new(Time::new(3600), Time::new(3600), vec![1u64; 24], 3600).unwrap();
    assert_eq!(whole_day.duration, 86400);
    assert_eq!(whole_day.width(), 86400);
    let next_day = TimeAxis::new(Time::new(86400 + 60), Time::new(86400 + 120), vec![1u64; 24], 3600)
        .unwrap();
    assert_eq!(next_day.begin, 60);
    assert_eq!(next_day.duration, 60);
    let mut factors = vec![1u64; 24];
    factors[23] = 2;
    factors[0] = 5;
    let axis = TimeAxis::new(Time::new(82800), Time::new(3600), factors, 3600).unwrap();
    assert_eq!(axis.position(3600), 7200);
    assert_eq!(axis.position(7200), 7200 + 18000);
}

#[test]
fn time_axis_beyond_the_largest_coordinate() {
    assert!(TimeAxis::new(Time::new(0), Time::new(0), vec![u64::MAX; 24], 1).is_none());
    assert!(TimeAxis::new(Time::new(0), Time::new(3600), vec![1u64; 24], MAX_EXTENT).is_some());
    assert!(TimeAxis::new(Time::new(0), Time::new(3600), vec![1u64; 24], MAX_EXTENT + 1).is_none());
    assert!(TimeAxis::new(Time::new(0), Time::new(3600), vec![0u64; 24], u64::MAX).is_some());
}

#[test]
fn positions_about_the_window() {
    assert_eq!(classify(-1, 100), Position::Before);
    assert_eq!(classify(0, 100), Position::Inside);
    assert_eq!(classify(99, 100), Position::Inside);
    assert_eq!(classify(100, 100), Position::After);
}

#[test]
fn the_nine_policies() {
    let idle = Policy { break_before: false, first: Mark::Skip, second: Mark::Skip, break_after: false };
    let (before, inside, after) = (Position::Before, Position::Inside, Position::After);
    assert_eq!(policy(before, before), idle);
    assert_eq!(
        policy(before, inside),
        Policy { break_before: true, first: Mark::Edge, second: Mark::Raw, break_after: false }
    );
    assert_eq!(
        policy(before, after),
        Policy { break_before: true, first: Mark::Edge, second: Mark::Edge, break_after: true }
    );
    assert_eq!(policy(inside, before), idle);
    assert_eq!(
        policy(inside, inside),
        Policy { break_before: false, first: Mark::Raw, second: Mark::Raw, break_after: false }
    );
    assert_eq!(
        policy(inside, after),
        Policy { break_before: false, first: Mark::Raw, second: Mark::Edge, break_after: true }
    );
    assert_eq!(policy(after, before), idle);
    assert_eq!(policy(after, inside), idle);
    assert_eq!(policy(after, after), idle);
}

#[test]
fn interpolation() {
    assert_eq!(interpolate(-1800, 0, 1800, 10, 0), 5);
    assert_eq!(interpolate(0, 0, 3600, 10, 900), 2);
    assert_eq!(interpolate(0, 10, 3600, 0, 900), 8);
    assert_eq!(interpolate(0, 10, 3600, 0, 3600), 0);
    assert_eq!(interpolate(0, 3, 3600, 3, 1234), 3);
    // both ends at one instant: the height of the first end
    assert_eq!(interpolate(50, 7, 50, 90, 50), 7);
    assert_eq!(interpolate(0, 0, 172800, MAX_EXTENT, 86400), MAX_EXTENT / 2);
}

#[test]
fn pen_drops_short_lines() {
    let p = |x: i64, y: i64| Node(GraphLength(x), GraphLength(y));
    let mut pen = Pen::new();
    pen.add_point(p(1, 1));
    pen.add_point(p(1, 1));
    pen.break_line();
    assert!(pen.done.is_empty());
    pen.add_point(p(1, 1));
    pen.add_point(p(2, 1));
    pen.add_point(p(2, 1));
    pen.add_point(p(1, 1));
    pen.break_line();
    pen.break_line();
    assert_eq!(pen.done, vec![vec![p(1, 1), p(2, 1), p(1, 1)]]);
    assert!(pen.current.is_empty());
}

#[test]
fn drawing_lengths() {
    let unit = GraphLength(4);
    assert_eq!(Time::new(3600).to_graph_length(unit, ScaleMode::Linear), GraphLength(4));
    assert_eq!(Time::new(5400).to_graph_length(unit, ScaleMode::Linear), GraphLength(6));
    assert_eq!(Time::new(1000).to_graph_length(unit, ScaleMode::Square), GraphLength(1));
    assert_eq!(
        Time::new(u32::MAX).to_graph_length(GraphLength(i64::MAX), ScaleMode::Linear),
        GraphLength(i64::MAX)
    );
    let length = IntervalLength(2500);
    assert_eq!(length.kilometers(), 2);
    assert_eq!(length.to_graph_length(unit, ScaleMode::Linear), GraphLength(10000));
    assert_eq!(length.to_graph_length(unit, ScaleMode::SquareRoot), GraphLength(200));
    assert_eq!(length.to_graph_length(unit, ScaleMode::Uniform), GraphLength(4));
    assert_eq!(IntervalLength(0).to_graph_length(unit, ScaleMode::Linear), GraphLength(4));
    assert_eq!(
        IntervalLength(u32::MAX).to_graph_length(GraphLength(i64::MAX), ScaleMode::Square),
        GraphLength(i64::MAX)
    );
}

fn reference_mix(s: u32) -> u32 {
    let round = |mask: u32, d: u32, a: u32, b: u32| ((s & mask) << d) ^ (((s << a) ^ s) >> b);
    round(0xFFFF_FFFE, 12, 13, 19) ^ round(0xFFFF_FFF8, 4, 2, 25) ^ round(0xFFFF_FFF0, 17, 3, 11)
}

fn reference_seed(bytes: &[u8]) -> u32 {
    bytes.iter().fold(0u32, |acc, b| acc.rotate_left(5).wrapping_add(*b as u32))
}

#[test]
fn tags() {
    assert_eq!(shift_register_mix(0), 0);
    assert_eq!(shift_register_mix(0x0000_0010), (0x10 << 12) ^ (0x10 << 4) ^ (0x10 << 17));
    for s in [1u32, 2, 0xDEAD_BEEF, u32::MAX, 0x8000_0000] {
        assert_eq!(shift_register_mix(s), reference_mix(s));
    }
    assert_eq!(tag_of_bytes(&[]), 0);
    assert_eq!(tag_of_bytes(b"G1234"), reference_mix(reference_seed(b"G1234")));
    assert_eq!(tag_of_bytes(&[1]), reference_mix(1));
    assert_eq!(tag_of_bytes(&[1, 0]), reference_mix(32));
    assert_ne!(tag_of_bytes(b"G1234"), tag_of_bytes(b"G1243"));
    for id in [0u64, 1, 100, 0x0102_0304_0506_0708, u64::MAX] {
        assert_eq!(train_tag(id), tag_of_bytes(&id.to_le_bytes()));
        assert_eq!(train_tag(id), train_tag(id));
    }
}

#[test]
fn requested_sets() {
    let config = NetworkConfig {
        intervals_to_draw: vec![((1, 2), true), ((2, 3), false), ((1, 2), false), ((4, 4), false)],
        stations_to_draw: vec![],
        begin: Time::new(0),
        end: Time::new(0),
        position_scale_mode: ScaleMode::Linear,
        time_scale_mode: ScaleMode::Linear,
        position_axis_scale: 1,
        time_axis_scale: 1,
        unit_length: GraphLength(1),
        track_spacing: 0,
        labels: vec![],
        resolution: 1,
        collisions: false,
        occupancy: false,
        heatmap: false,
    };
    let mut intervals = config.intervals();
    intervals.sort();
    assert_eq!(intervals, vec![(1, 2), (2, 1), (2, 3), (3, 2), (4, 4)]);
    let mut stations = config.stations();
    stations.sort();
    assert_eq!(stations, vec![1, 2, 3, 4]);
}
