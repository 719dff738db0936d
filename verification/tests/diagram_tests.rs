use train_diagram::models::density::{hour_factors, slot_counts, time_factors};
use train_diagram::models::graph::{Network, NetworkError};
use train_diagram::models::input;
use train_diagram::models::input::{Label, NetworkConfig, ScheduleEntry};
use train_diagram::models::output::{DiagramError, Output};
use train_diagram::types::{GraphLength, IntervalLength, Node, ScaleMode, Time};
use train_diagram::utils::train_tag;

const A: u64 = 1;
const B: u64 = 2;
const C: u64 = 3;
const T1: u64 = 100;
const T2: u64 = 101;

fn call(arrival: u32, departure: u32) -> ScheduleEntry {
    ScheduleEntry { arrival: Time::new(arrival), departure: Time::new(departure), track: None }
}

fn station(position: u32, tracks: u32) -> input::Station {
    input::Station { tracks, position }
}

fn two_station_network(trains: Vec<(u64, Vec<(u64, ScheduleEntry)>)>) -> input::Network {
    input::Network {
        stations: vec![(A, station(0, 1)), (B, station(10, 1))],
        intervals: vec![((A, B), input::Interval::new(IntervalLength(10)))],
        trains: trains.into_iter().map(|(id, s)| (id, input::Train::new(s))).collect(),
    }
}

fn config(begin: u32, end: u32, unit: i64) -> NetworkConfig {
    NetworkConfig {
        intervals_to_draw: vec![((A, B), true)],
        stations_to_draw: vec![],
        begin: Time::new(begin),
        end: Time::new(end),
        position_scale_mode: ScaleMode::Linear,
        time_scale_mode: ScaleMode::Linear,
        position_axis_scale: 1,
        time_axis_scale: 1,
        unit_length: GraphLength(unit),
        track_spacing: 0,
        labels: vec![],
        resolution: 1,
        collisions: false,
        occupancy: false,
        heatmap: false,
    }
}

fn node(x: i64, y: i64) -> Node {
    Node(GraphLength(x), GraphLength(y))
}

fn draw(network: &input::Network, config: &NetworkConfig) -> Output {
    match Output::new(network, config) {
        Ok(out) => out,
        Err(e) => panic!("no drawing: {:?}", e),
    }
}

#[test]
fn end_to_end_travel_inside_window() {
    let network = two_station_network(vec![(T1, vec![(A, call(0, 0)), (B, call(3600, 3600))])]);
    let out = draw(&network, &config(0, 7200, 1));
    assert_eq!(out.stations.len(), 2);
    assert_eq!(out.stations[0].station, A);
    assert_eq!(out.stations[0].draw_height, 0);
    assert_eq!(out.stations[1].station, B);
    assert_eq!(out.stations[1].draw_height, 10);
    assert_eq!(out.trains.len(), 1);
    assert_eq!(out.trains[0].id, T1);
    assert_eq!(out.trains[0].polylines, vec![vec![node(0, 0), node(1, 10)]]);
    assert_eq!(out.grid_intervals, vec![GraphLength(10)]);
}

#[test]
fn end_to_end_travel_in_seconds() {
    let network = two_station_network(vec![(T1, vec![(A, call(0, 0)), (B, call(3600, 3600))])]);
    let out = draw(&network, &config(0, 7200, 3600));
    assert_eq!(out.trains[0].polylines, vec![vec![node(0, 0), node(3600, 10)]]);
}

#[test]
fn end_to_end_travel_clipped_at_window_start() {
    let network = two_station_network(vec![(T1, vec![(A, call(0, 0)), (B, call(3600, 3600))])]);
    let out = draw(&network, &config(1800, 5400, 3600));
    assert_eq!(out.trains[0].polylines, vec![vec![node(0, 5), node(1800, 10)]]);
}

#[test]
fn travel_clipped_at_window_end() {
    let network = two_station_network(vec![(T1, vec![(A, call(0, 0)), (B, call(3600, 3600))])]);
    let out = draw(&network, &config(0, 900, 3600));
    assert_eq!(out.trains[0].polylines, vec![vec![node(0, 0), node(900, 2)]]);
}

#[test]
fn travel_clipped_at_both_edges() {
    let network = two_station_network(vec![(T1, vec![(A, call(0, 0)), (B, call(3600, 3600))])]);
    let out = draw(&network, &config(900, 2700, 3600));
    assert_eq!(out.trains[0].polylines, vec![vec![node(0, 2), node(1800, 7)]]);
}

#[test]
fn stay_and_travel_make_one_line() {
    let network = two_station_network(
        vec![(T1, vec![(A, call(600, 1200)), (B, call(3600, 4200))])],
    );
    let out = draw(&network, &config(0, 7200, 3600));
    assert_eq!(
        out.trains[0].polylines,
        vec![vec![node(600, 0), node(1200, 0), node(3600, 10), node(4200, 10)]]
    );
}

#[test]
fn train_outside_window_draws_nothing() {
    let network = two_station_network(
        vec![(T1, vec![(A, call(10000, 10060)), (B, call(13000, 13100))])],
    );
    let out = draw(&network, &config(0, 7200, 3600));
    assert_eq!(out.trains.len(), 1);
    assert!(out.trains[0].polylines.is_empty());
}

#[test]
fn single_point_is_dropped() {
    let network = two_station_network(vec![(T1, vec![(A, call(600, 600))])]);
    let out = draw(&network, &config(0, 7200, 3600));
    assert_eq!(out.trains.len(), 1);
    assert!(out.trains[0].polylines.is_empty());
}

#[test]
fn single_stay_is_a_line() {
    let network = two_station_network(vec![(T1, vec![(A, call(600, 900))])]);
    let out = draw(&network, &config(0, 7200, 3600));
    assert_eq!(out.trains[0].polylines, vec![vec![node(600, 0), node(900, 0)]]);
}

#[test]
fn window_over_midnight() {
    // 23:30 to 00:30; the train leaves A at 23:45 and reaches B at 00:15.
    let network = two_station_network(
        vec![(T1, vec![(A, call(85500, 85500)), (B, call(900, 900))])],
    );
    let out = draw(&network, &config(84600, 1800, 3600));
    assert_eq!(out.trains[0].polylines, vec![vec![node(900, 0), node(2700, 10)]]);
}

#[test]
fn whole_day_window_wraps_a_late_run() {
    // The run from 23:30 to 00:30 shows at the end of the day and again at
    // its start.
    let network = two_station_network(
        vec![(T1, vec![(A, call(84600, 84600)), (B, call(1800, 1800))])],
    );
    let out = draw(&network, &config(0, 0, 3600));
    assert_eq!(
        out.trains[0].polylines,
        vec![vec![node(84600, 0), node(86400, 5)], vec![node(0, 5), node(1800, 10)]]
    );
}

#[test]
fn travel_without_interval_breaks_the_line() {
    let network = two_station_network(
        vec![(T1, vec![(B, call(600, 1200)), (A, call(3600, 4200))])],
    );
    let out = draw(&network, &config(0, 7200, 3600));
    assert_eq!(
        out.trains[0].polylines,
        vec![vec![node(600, 10), node(1200, 10)], vec![node(3600, 0), node(4200, 0)]]
    );
}

#[test]
fn tag_is_stable() {
    let network = two_station_network(vec![(T1, vec![(A, call(0, 0)), (B, call(3600, 3600))])]);
    let first = draw(&network, &config(0, 7200, 1));
    let second = draw(&network, &config(0, 7200, 1));
    assert_eq!(first.trains[0].tag, second.trains[0].tag);
    assert_eq!(first.trains[0].tag, train_tag(T1));
    assert_ne!(train_tag(T1), train_tag(T2));
}

#[test]
fn missing_interval_is_reported() {
    let network = two_station_network(vec![]);
    let mut request = config(0, 7200, 1);
    request.intervals_to_draw = vec![((B, A), true)];
    assert_eq!(
        Output::new(&network, &request).err(),
        Some(DiagramError::Network(NetworkError::MissingInterval(B, A)))
    );
    request.intervals_to_draw = vec![((A, B), true)];
    request.stations_to_draw = vec![C];
    assert_eq!(
        Output::new(&network, &request).err(),
        Some(DiagramError::Network(NetworkError::MissingStation(C)))
    );
}

#[test]
fn negative_unit_is_out_of_range() {
    let network = two_station_network(vec![]);
    assert_eq!(Output::new(&network, &config(0, 7200, -1)).err(), Some(DiagramError::OutOfRange));
}

#[test]
fn too_wide_is_out_of_range() {
    let network = two_station_network(vec![]);
    assert_eq!(
        Output::new(&network, &config(0, 0, i64::MAX)).err(),
        Some(DiagramError::OutOfRange)
    );
}

#[test]
fn too_tall_is_out_of_range() {
    let mut network = two_station_network(vec![]);
    network.stations[1].1.position = u32::MAX;
    let mut request = config(0, 7200, 1);
    request.position_scale_mode = ScaleMode::Square;
    request.position_axis_scale = u32::MAX;
    assert_eq!(Output::new(&network, &request).err(), Some(DiagramError::OutOfRange));
}

#[test]
fn build_errors_pass_through() {
    let mut network = two_station_network(vec![]);
    network.stations.clear();
    assert_eq!(
        Output::new(&network, &config(0, 7200, 1)).err(),
        Some(DiagramError::Network(NetworkError::NoStations))
    );
}

#[test]
fn collisions_and_occupancy_on_request() {
    let network = two_station_network(vec![(T1, vec![(A, call(0, 0)), (B, call(3600, 3600))])]);
    let mut request = config(0, 7200, 3600);
    let plain = draw(&network, &request);
    assert!(plain.collision.is_none());
    assert!(plain.occupancy.is_none());
    request.collisions = true;
    request.occupancy = true;
    request.labels = vec![Label { station: B, width: 30, height: 8 }, Label {
        station: C,
        width: 1,
        height: 1,
    }];
    let out = draw(&network, &request);
    let collision = out.collision.unwrap();
    assert_eq!(collision.rectangles.len(), 3);
    let header = collision.rectangles[0];
    assert_eq!(header.top_left, node(0, -15));
    assert_eq!(header.top_right, node(7200, -15));
    assert_eq!(header.bottom_right, node(7200, -5));
    assert_eq!(header.bottom_left, node(0, -5));
    let footer = collision.rectangles[1];
    assert_eq!(footer.top_left, node(0, 15));
    assert_eq!(footer.bottom_right, node(7200, 25));
    let label = collision.rectangles[2];
    assert_eq!(label.top_left, node(-35, 6));
    assert_eq!(label.top_right, node(-5, 6));
    assert_eq!(label.bottom_right, node(-5, 14));
    assert_eq!(label.bottom_left, node(-35, 14));
    assert_eq!(collision.bounds.min_x, -35);
    assert_eq!(collision.bounds.max_x, 7200);
    assert_eq!(collision.bounds.min_y, -15);
    assert_eq!(collision.bounds.max_y, 25);
    let occupancy = out.occupancy.unwrap();
    assert_eq!(occupancy.stations, vec![(A, 1), (B, 1)]);
    assert_eq!(occupancy.intervals, vec![((A, B), 1)]);
}

#[test]
fn auto_scale_grows_with_traffic() {
    let run = vec![(A, call(0, 0)), (B, call(3600, 3600))];
    let one = Network::new(&two_station_network(vec![(T1, run.clone())])).ok().unwrap();
    let two = Network::new(&two_station_network(vec![(T1, run.clone()), (T2, run.clone())]))
        .ok()
        .unwrap();
    let counts_one = slot_counts(&one);
    let counts_two = slot_counts(&two);
    assert_eq!(counts_one.len(), 144);
    assert_eq!(&counts_one[0..8], &[0, 1, 1, 1, 1, 1, 0, 0]);
    assert_eq!(&counts_two[0..8], &[0, 2, 2, 2, 2, 2, 0, 0]);
    let factors_one = time_factors(&one, ScaleMode::Auto, 1);
    let factors_two = time_factors(&two, ScaleMode::Auto, 1);
    assert_eq!(factors_one.len(), 24);
    // round(sqrt(5)) = 2 and round(sqrt(10)) = 3
    assert_eq!(factors_one[0], 2);
    assert_eq!(factors_two[0], 3);
    assert!(factors_two[0] > factors_one[0]);
    assert_eq!(factors_one[1], 1);
    assert_eq!(time_factors(&two, ScaleMode::Auto, 4)[0], 12);
    assert_eq!(time_factors(&two, ScaleMode::Auto, 4)[5], 4);
    assert_eq!(time_factors(&two, ScaleMode::Linear, 4), vec![4u64; 24]);
    assert_eq!(hour_factors(&counts_two, 1), factors_two);
}

#[test]
fn auto_scale_widens_busy_hours() {
    let run = vec![(A, call(0, 0)), (B, call(3600, 3600))];
    let network = two_station_network(vec![(T1, run.clone()), (T2, run)]);
    let mut request = config(0, 7200, 3600);
    request.time_scale_mode = ScaleMode::Auto;
    let out = draw(&network, &request);
    // The first hour is drawn at factor 3, the second at factor 1.
    assert_eq!(out.trains[0].polylines, vec![vec![node(0, 0), node(10800, 10)]]);
    request.collisions = true;
    let wide = draw(&network, &request);
    assert_eq!(wide.collision.unwrap().bounds.max_x, 14400);
}

#[test]
fn slots_go_round_midnight() {
    let run = vec![(A, call(0, 85800)), (B, call(1800, 1800))];
    let net = Network::new(&two_station_network(vec![(T1, run)])).ok().unwrap();
    let counts = slot_counts(&net);
    // departure in slot 143, arrival in slot 3: slots 0, 1 and 2 lie between
    assert_eq!(&counts[0..4], &[1, 1, 1, 0]);
    assert_eq!(counts[143], 0);
}

#[test]
fn travel_runs_between_facing_rules() {
    // A has three tracks and B two, 5 apart; A lies above B.
    let mut network = two_station_network(vec![(
        T1,
        vec![
            (A, ScheduleEntry { arrival: Time::new(0), departure: Time::new(600), track: Some(2) }),
            (B, ScheduleEntry {
                arrival: Time::new(3600),
                departure: Time::new(4200),
                track: Some(0),
            }),
        ],
    )]);
    network.stations[0].1.tracks = 3;
    network.stations[1].1.tracks = 2;
    let mut request = config(0, 7200, 3600);
    request.track_spacing = 5;
    let out = draw(&network, &request);
    // A: height 10, rules at 10, 5, 0; B: height 10 + 10 + 5 = 25, rules at 25, 20
    assert_eq!(out.stations[0].draw_height, 10);
    assert_eq!(out.stations[1].draw_height, 25);
    assert_eq!(
        out.trains[0].polylines,
        vec![vec![
            node(0, 0),
            node(600, 0),
            node(600, 10),
            node(3600, 20),
            node(3600, 25),
            node(4200, 25),
        ]]
    );
}

#[test]
fn a_train_on_the_facing_rule_adds_no_point() {
    let mut network = two_station_network(vec![(
        T1,
        vec![
            (A, ScheduleEntry { arrival: Time::new(0), departure: Time::new(600), track: Some(0) }),
            (B, ScheduleEntry {
                arrival: Time::new(3600),
                departure: Time::new(4200),
                track: Some(7),
            }),
        ],
    )]);
    network.stations[0].1.tracks = 3;
    network.stations[1].1.tracks = 2;
    let mut request = config(0, 7200, 3600);
    request.track_spacing = 5;
    let out = draw(&network, &request);
    // a track the station has not is taken as its last
    assert_eq!(
        out.trains[0].polylines,
        vec![vec![node(0, 10), node(600, 10), node(3600, 20), node(4200, 20)]]
    );
}

#[test]
fn heatmap_counts_by_departure_station() {
    let mut network = two_station_network(vec![
        (T1, vec![(A, call(0, 0)), (B, call(3600, 3600))]),
        (T2, vec![(B, call(0, 600)), (A, call(3000, 3000))]),
    ]);
    network.intervals.push(((B, A), input::Interval::new(IntervalLength(10))));
    let mut request = config(0, 7200, 3600);
    assert!(draw(&network, &request).heatmap.is_none());
    request.heatmap = true;
    let heatmap = draw(&network, &request).heatmap.unwrap();
    assert_eq!(heatmap.stations, vec![A, B]);
    assert_eq!(heatmap.counts.len(), 2);
    assert_eq!(heatmap.counts[0].len(), 144);
    // from A: slots 1 to 5; from B: departure in slot 1, arrival in slot 5
    assert_eq!(&heatmap.counts[0][0..7], &[0, 1, 1, 1, 1, 1, 0]);
    assert_eq!(&heatmap.counts[1][0..7], &[0, 0, 1, 1, 1, 0, 0]);
    let net = Network::new(&network).ok().unwrap();
    assert_eq!(&slot_counts(&net)[0..7], &[0, 1, 2, 2, 2, 1, 0]);
}

#[test]
fn paddings_follow_the_resolution() {
    let network = two_station_network(vec![]);
    let mut request = config(0, 7200, 3600);
    request.collisions = true;
    request.resolution = 100;
    request.labels = vec![Label { station: A, width: 300, height: 80 }];
    let collision = draw(&network, &request).collision.unwrap();
    assert_eq!(collision.rectangles[0].top_left, node(0, -1500));
    assert_eq!(collision.rectangles[0].bottom_right, node(7200, -500));
    assert_eq!(collision.rectangles[1].top_left, node(0, 510));
    assert_eq!(collision.rectangles[1].bottom_right, node(7200, 1510));
    assert_eq!(collision.rectangles[2].top_left, node(-800, -40));
    assert_eq!(collision.rectangles[2].bottom_right, node(-500, 40));
}
