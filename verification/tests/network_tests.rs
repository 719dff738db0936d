use train_diagram::models::graph::{Network, NetworkError};
use train_diagram::models::input;
use train_diagram::models::input::{NetworkInput, ScheduleEntry};
use train_diagram::types::{IntervalLength, Time};

fn call(arrival: u32, departure: u32) -> ScheduleEntry {
    ScheduleEntry { arrival: Time::new(arrival), departure: Time::new(departure), track: None }
}

fn station(position: u32, tracks: u32) -> input::Station {
    input::Station { tracks, position }
}

fn records(
    stations: Vec<(u64, input::Station)>,
    intervals: Vec<(u64, u64, u32)>,
    trains: Vec<(u64, Vec<u64>)>,
) -> input::Network {
    input::Network {
        stations,
        intervals: intervals
            .into_iter()
            .map(|(a, b, l)| ((a, b), input::Interval::new(IntervalLength(l))))
            .collect(),
        trains: trains
            .into_iter()
            .map(|(id, stops)| {
                let schedule = stops
                    .into_iter()
                    .enumerate()
                    .map(|(i, s)| (s, call(600 * i as u32, 600 * i as u32 + 60)))
                    .collect();
                (id, input::Train::new(schedule))
            })
            .collect(),
    }
}

/// A line 1 - 2 - 3 - 4 with intervals in both directions, and a branch
/// 2 -> 5.
fn line() -> input::Network {
    records(
        vec![
            (1, station(0, 1)),
            (2, station(1000, 2)),
            (3, station(2500, 1)),
            (4, station(4000, 3)),
            (5, station(1200, 1)),
        ],
        vec![
            (1, 2, 1000),
            (2, 1, 1000),
            (2, 3, 1500),
            (3, 2, 1500),
            (3, 4, 1500),
            (4, 3, 1500),
            (2, 5, 200),
        ],
        vec![(10, vec![1, 2, 3, 4]), (11, vec![4, 3, 2, 1]), (12, vec![1, 2, 1, 2]), (13, vec![5])],
    )
}

fn build(raw: &input::Network) -> Network {
    match Network::new(raw) {
        Ok(net) => net,
        Err(e) => panic!("no network: {:?}", e),
    }
}

#[test]
fn empty_lists_are_rejected() {
    let none = records(vec![], vec![(1, 2, 5)], vec![]);
    assert_eq!(Network::new(&none).err(), Some(NetworkError::NoStations));
    let lonely = records(vec![(1, station(0, 1))], vec![], vec![]);
    assert_eq!(Network::new(&lonely).err(), Some(NetworkError::NoIntervals));
    let both = records(vec![], vec![], vec![]);
    assert_eq!(Network::new(&both).err(), Some(NetworkError::NoStations));
}

#[test]
fn trains_may_be_none() {
    let raw = records(vec![(1, station(0, 1)), (2, station(5, 1))], vec![(1, 2, 5)], vec![]);
    let net = build(&raw);
    assert!(net.trains.is_empty());
    assert!(net.stations[0].trains.is_empty());
}

#[test]
fn defective_stations_are_rejected() {
    let raw = records(vec![(1, station(0, 1)), (2, station(5, 0))], vec![(1, 2, 5)], vec![]);
    assert_eq!(Network::new(&raw).err(), Some(NetworkError::ZeroTracks(2)));
    let raw = records(vec![(1, station(0, 1)), (1, station(5, 1))], vec![(1, 1, 5)], vec![]);
    assert_eq!(Network::new(&raw).err(), Some(NetworkError::DuplicateStation(1)));
    // the first defective station is the one reported
    let raw = records(
        vec![(1, station(0, 1)), (1, station(5, 1)), (3, station(5, 0))],
        vec![(1, 3, 5)],
        vec![],
    );
    assert_eq!(Network::new(&raw).err(), Some(NetworkError::DuplicateStation(1)));
    let raw = records(
        vec![(1, station(0, 1)), (3, station(5, 0)), (1, station(5, 1))],
        vec![(1, 3, 5)],
        vec![],
    );
    assert_eq!(Network::new(&raw).err(), Some(NetworkError::ZeroTracks(3)));
}

#[test]
fn defective_intervals_are_rejected() {
    let stations = vec![(1, station(0, 1)), (2, station(5, 1))];
    let raw = records(stations.clone(), vec![(7, 2, 5)], vec![]);
    assert_eq!(Network::new(&raw).err(), Some(NetworkError::UnknownStation(7)));
    let raw = records(stations.clone(), vec![(1, 8, 5)], vec![]);
    assert_eq!(Network::new(&raw).err(), Some(NetworkError::UnknownStation(8)));
    let raw = records(stations.clone(), vec![(7, 8, 5)], vec![]);
    assert_eq!(Network::new(&raw).err(), Some(NetworkError::UnknownStation(7)));
    let raw = records(stations.clone(), vec![(1, 2, 5), (2, 1, 5), (1, 2, 6)], vec![]);
    assert_eq!(Network::new(&raw).err(), Some(NetworkError::DuplicateInterval(1, 2)));
    // stations are looked at before intervals
    let raw = records(vec![(1, station(0, 1)), (2, station(5, 0))], vec![(7, 8, 5)], vec![]);
    assert_eq!(Network::new(&raw).err(), Some(NetworkError::ZeroTracks(2)));
}

#[test]
fn defective_trains_are_rejected() {
    let stations = vec![(1, station(0, 1)), (2, station(5, 1))];
    let raw = records(stations.clone(), vec![(1, 2, 5)], vec![(10, vec![1, 2]), (10, vec![2])]);
    assert_eq!(Network::new(&raw).err(), Some(NetworkError::DuplicateTrain(10)));
    let raw = records(stations.clone(), vec![(1, 2, 5)], vec![(10, vec![1, 9, 8])]);
    assert_eq!(Network::new(&raw).err(), Some(NetworkError::UnknownStation(9)));
    let raw = records(
        stations.clone(),
        vec![(1, 2, 5)],
        vec![(10, vec![1, 2]), (11, vec![1, 8]), (10, vec![9])],
    );
    assert_eq!(Network::new(&raw).err(), Some(NetworkError::UnknownStation(8)));
}

#[test]
fn network_keeps_the_records() {
    let raw = line();
    let net = build(&raw);
    assert_eq!(net.stations.len(), 5);
    assert_eq!(net.stations.iter().map(|s| s.id).collect::<Vec<_>>(), vec![1, 2, 3, 4, 5]);
    assert_eq!(net.stations[3].tracks, 3);
    assert_eq!(net.stations[3].position, 4000);
    assert_eq!(net.intervals.len(), 7);
    assert_eq!(net.intervals[2].from, 2);
    assert_eq!(net.intervals[2].to, 3);
    assert_eq!(net.intervals[2].length, IntervalLength(1500));
    assert_eq!(net.trains.len(), 4);
    assert_eq!(net.trains[1].id, 11);
    assert_eq!(net.trains[1].entries.len(), 4);
    assert_eq!(net.trains[1].entries[0].0, 4);
    assert_eq!(net.trains[0].entries[1].1.arr, Time::new(600));
    assert_eq!(net.trains[0].entries[1].1.dep, Time::new(660));
    assert_eq!(net.station_lookup.get(&4), Some(&3));
    assert_eq!(net.train_lookup.get(&12), Some(&2));
}

#[test]
fn occupancy_lists_every_call_and_run() {
    let net = build(&line());
    // station 1: train 10 once, train 11 once, train 12 twice
    assert_eq!(net.stations[0].trains, vec![10, 11, 12, 12]);
    assert_eq!(net.stations[1].trains, vec![10, 11, 12, 12]);
    assert_eq!(net.stations[2].trains, vec![10, 11]);
    assert_eq!(net.stations[4].trains, vec![13]);
    // interval 1 -> 2: train 10 once, train 12 twice
    assert_eq!(net.intervals[0].trains, vec![10, 12, 12]);
    // interval 2 -> 1: train 11 once, train 12 once
    assert_eq!(net.intervals[1].trains, vec![11, 12]);
    assert_eq!(net.intervals[6].trains, Vec::<u64>::new());
}

#[test]
fn a_station_may_be_called_at_twice() {
    let net = build(&line());
    let train = &net.trains[2];
    assert_eq!(train.calls_at(1), Some(&vec![0, 2]));
    assert_eq!(train.calls_at(2), Some(&vec![1, 3]));
    assert_eq!(train.calls_at(3), None);
    assert_eq!(net.trains[0].calls_at(4), Some(&vec![3]));
}

#[test]
fn interval_length_lookup() {
    let net = build(&line());
    assert_eq!(net.get_interval_length((2, 3)), Some(IntervalLength(1500)));
    assert_eq!(net.get_interval_length((2, 5)), Some(IntervalLength(200)));
    assert_eq!(net.get_interval_length((5, 2)), None);
    assert_eq!(net.get_interval_length((1, 3)), None);
    assert_eq!(net.get_interval_length((9, 9)), None);
}

fn summary(net: &Network) -> (Vec<u64>, Vec<(u64, u64)>, Vec<u64>) {
    (
        net.stations.iter().map(|s| s.id).collect(),
        net.intervals.iter().map(|i| (i.from, i.to)).collect(),
        net.trains.iter().map(|t| t.id).collect(),
    )
}

#[test]
fn filter_keeps_one_hop() {
    let net = build(&line());
    let filtered = net.filter_to(&vec![(3, 4)], &vec![]).ok().unwrap();
    // requested: 3 and 4; reached from them: 2 (from 3) and 3 (from 4)
    assert_eq!(
        summary(&filtered),
        (vec![2, 3, 4], vec![(2, 3), (3, 2), (3, 4), (4, 3)], vec![10, 11, 12])
    );
    assert_eq!(filtered.stations[0].trains, vec![10, 11, 12, 12]);
    assert_eq!(filtered.intervals[0].trains, vec![10]);
    assert_eq!(filtered.get_interval_length((3, 4)), Some(IntervalLength(1500)));
    assert_eq!(filtered.get_interval_length((1, 2)), None);
    assert_eq!(filtered.trains[2].calls_at(2), Some(&vec![1, 3]));
}

#[test]
fn filter_by_station() {
    let net = build(&line());
    let filtered = net.filter_to(&vec![], &vec![5]).ok().unwrap();
    // nothing leaves station 5
    assert_eq!(summary(&filtered), (vec![5], vec![], vec![13]));
    let filtered = net.filter_to(&vec![], &vec![2]).ok().unwrap();
    assert_eq!(
        summary(&filtered),
        (
            vec![1, 2, 3, 5],
            vec![(1, 2), (2, 1), (2, 3), (3, 2), (2, 5)],
            vec![10, 11, 12, 13]
        )
    );
}

#[test]
fn filter_reports_what_is_missing() {
    let net = build(&line());
    assert_eq!(
        net.filter_to(&vec![(1, 2), (5, 2), (9, 9)], &vec![77]).err(),
        Some(NetworkError::MissingInterval(5, 2))
    );
    assert_eq!(
        net.filter_to(&vec![(1, 2)], &vec![3, 77, 78]).err(),
        Some(NetworkError::MissingStation(77))
    );
}

#[test]
fn filter_is_idempotent() {
    let net = build(&line());
    let intervals = vec![(3, 4)];
    let stations = vec![5];
    let once = net.filter_to(&intervals, &stations).ok().unwrap();
    let twice = once.filter_to(&intervals, &stations).ok().unwrap();
    assert_eq!(summary(&once), summary(&twice));
    for (a, b) in once.stations.iter().zip(twice.stations.iter()) {
        assert_eq!((a.position, a.tracks, &a.trains), (b.position, b.tracks, &b.trains));
    }
    for (a, b) in once.intervals.iter().zip(twice.intervals.iter()) {
        assert_eq!((a.length, &a.trains), (b.length, &b.trains));
    }
    for (a, b) in once.trains.iter().zip(twice.trains.iter()) {
        assert_eq!(a.entries, b.entries);
    }
}

#[test]
fn completing_the_records() {
    let raw = line();
    let input = NetworkInput { stations: raw.stations, intervals: raw.intervals, trains: raw.trains };
    let net = input::Network::from(input);
    assert_eq!(net.stations.len(), 5);
    assert_eq!(net.intervals.len(), 7);
    // each train once, however often it runs over the interval
    assert_eq!(net.intervals[0].1.trains, vec![10, 12]);
    assert_eq!(net.intervals[1].1.trains, vec![11, 12]);
    assert_eq!(net.intervals[2].1.trains, vec![10]);
    assert_eq!(net.intervals[6].1.trains, Vec::<u64>::new());
    assert_eq!(net.trains[2].1.indices.get_vec(&1), Some(&vec![0, 2]));
    assert_eq!(net.trains[2].1.indices.get_vec(&2), Some(&vec![1, 3]));
    assert_eq!(net.trains[2].1.indices.get_vec(&3), None);
    assert_eq!(net.trains[3].1.indices.get_vec(&5), Some(&vec![0]));
}

#[test]
fn a_later_interval_shadows_an_earlier_one() {
    let raw = records(
        vec![(1, station(0, 1)), (2, station(5, 1))],
        vec![(1, 2, 5), (2, 1, 5), (1, 2, 7)],
        vec![(10, vec![1, 2, 1])],
    );
    let input = NetworkInput { stations: raw.stations, intervals: raw.intervals, trains: raw.trains };
    let net = input::Network::from(input);
    assert_eq!(net.intervals[0].1.trains, Vec::<u64>::new());
    assert_eq!(net.intervals[1].1.trains, vec![10]);
    assert_eq!(net.intervals[2].1.trains, vec![10]);
    assert_eq!(net.intervals[2].1.length, IntervalLength(7));
}

#[test]
fn neighbours_follow_the_intervals() {
    let net = build(&line());
    let mut from_two = net.neighbor_stations(2);
    from_two.sort();
    assert_eq!(from_two, vec![1, 3, 5]);
    assert_eq!(net.neighbor_stations(5), Vec::<u64>::new());
    assert_eq!(net.neighbor_stations(99), Vec::<u64>::new());
}
