use crate::collections::{graph_edge_weight, graph_edges};
use crate::models::graph::{Network, Schedule};
use crate::types::{ScaleMode, StationID, Time};
use crate::utils::{isqrt_round, sqrt_round};
use vstd::prelude::*;

verus! {

/// The ten-minute slots of a day.
pub const SLOTS_PER_DAY: usize = 144;

/// The ten-minute slot of the day in which a time lies.
pub open spec fn slot_of(t: Time) -> int {
    ((t.0 % 86400) / 600) as int
}

/// The slot `s` lies strictly between the slot of a departure and the slot
/// of the arrival that follows it, going round the day.
pub open spec fn slot_between(dep: int, arr: int, s: int) -> bool {
    1 <= (s - dep + 144) % 144 < (arr - dep + 144) % 144
}

/// The run from call `k` to the next call is over an interval of the
/// network and is under way during slot `s`.
pub open spec fn run_occupies(
    net: Network,
    entries: Seq<(StationID, Schedule)>,
    k: int,
    s: int,
) -> bool {
    &&& 0 <= k
    &&& k + 1 < entries.len()
    &&& net.has_interval(entries[k].0, entries[k + 1].0)
    &&& slot_between(slot_of(entries[k].1.dep), slot_of(entries[k + 1].1.arr), s)
}

/// The runs of one train, among those that start at its first `upto`
/// calls, that are under way during slot `s`.
pub open spec fn train_slot_count(
    net: Network,
    entries: Seq<(StationID, Schedule)>,
    s: int,
    upto: int,
) -> nat
    decreases upto,
{
    if upto <= 0 {
        0
    } else {
        train_slot_count(net, entries, s, upto - 1) + if run_occupies(net, entries, upto - 1, s) {
            1nat
        } else {
            0nat
        }
    }
}

/// The runs of the first `upto` trains that are under way during slot `s`.
pub open spec fn slot_count(net: Network, s: int, upto: int) -> nat
    decreases upto,
{
    if upto <= 0 {
        0
    } else {
        slot_count(net, s, upto - 1) + train_slot_count(
            net,
            net.trains@[upto - 1].entries@,
            s,
            net.trains@[upto - 1].entries@.len() as int,
        )
    }
}

/// A count as a counter holds it: the count itself, or the largest number
/// the counter can hold.
pub open spec fn capped(n: nat) -> u64 {
    if n <= u64::MAX {
        n as u64
    } else {
        u64::MAX
    }
}

/// The occupancy of hour `h`: the sum of the counters of its six slots.
pub open spec fn hour_sum(counts: Seq<u64>, h: int) -> nat {
    (counts[6 * h] + counts[6 * h + 1] + counts[6 * h + 2] + counts[6 * h + 3] + counts[6 * h + 4]
        + counts[6 * h + 5]) as nat
}

/// The scale factor of an hour with the given occupancy: the square root of
/// the occupancy, rounded to the nearest whole number and at least 1, times
/// the scale of the time axis.
pub open spec fn hour_factor(total: nat, scale: u32) -> nat {
    let root = sqrt_round(capped(total) as nat);
    (if root >= 1 {
        root
    } else {
        1
    }) * (scale as nat)
}

/// A counter after one more count: it stays where it can hold no more.
pub open spec fn bumped(c: u64) -> u64 {
    if c < u64::MAX {
        (c + 1) as u64
    } else {
        c
    }
}

/// Counts one run in every slot strictly between the slot `d` of its
/// departure and the slot `a` of its arrival.
fn mark_between(counts: &mut Vec<u64>, d: u32, a: u32)
    requires
        old(counts)@.len() == 144,
        d < 144,
        a < 144,
    ensures
        final(counts)@.len() == 144,
        forall|s: int|
            0 <= s < 144 ==> #[trigger] final(counts)@[s] == if slot_between(
                d as int,
                a as int,
                s,
            ) {
                bumped(old(counts)@[s])
            } else {
                old(counts)@[s]
            },
{
    let span: u32 = (a + 144 - d) % 144;
    let mut j: u32 = 1;
    while j < span
        invariant
            1 <= j,
            j <= span || (span == 0 && j == 1),
            span == (a + 144 - d) % 144,
            d < 144,
            a < 144,
            counts@.len() == 144,
            old(counts)@.len() == 144,
            forall|s: int|
                0 <= s < 144 ==> #[trigger] counts@[s] == if 1 <= (s - d + 144) % 144 < j {
                    bumped(old(counts)@[s])
                } else {
                    old(counts)@[s]
                },
        decreases span - j,
    {
        let idx: usize = ((d + j) % 144) as usize;
        let c: u64 = counts[idx];
        assert((idx - d + 144) % 144 == j);
        if c < u64::MAX {
            counts[idx] = c + 1;
        }
        j += 1;
    }
    proof {
        assert(span as int == (a as int - d as int + 144) % 144);
        assert forall|s: int| 0 <= s < 144 implies #[trigger] counts@[s] == if slot_between(
            d as int,
            a as int,
            s,
        ) {
            bumped(old(counts)@[s])
        } else {
            old(counts)@[s]
        } by {
            assert(slot_between(d as int, a as int, s) == (1 <= (s - d + 144) % 144 < j));
        }
    }
}

/// Counts, for each ten-minute slot of the day, the runs over intervals of
/// the network that are under way during it: for each pair of consecutive
/// calls of a train that an interval joins, the slots strictly between the
/// departure and the arrival.
pub fn slot_counts(network: &Network) -> (counts: Vec<u64>)
    requires
        network.wf(),
    ensures
        counts@.len() == 144,
        forall|s: int|
            0 <= s < 144 ==> #[trigger] counts@[s] == capped(
                slot_count(*network, s, network.trains@.len() as int),
            ),
{
    let mut counts: Vec<u64> = Vec::new();
    let mut i: usize = 0;
    while i < SLOTS_PER_DAY
        invariant
            0 <= i <= 144,
            counts@.len() == i,
            forall|s: int| 0 <= s < i ==> counts@[s] == 0,
        decreases 144 - i,
    {
        counts.push(0);
        i += 1;
    }
    let mut t: usize = 0;
    while t < network.trains.len()
        invariant
            0 <= t <= network.trains@.len(),
            network.wf(),
            counts@.len() == 144,
            forall|s: int|
                0 <= s < 144 ==> #[trigger] counts@[s] == capped(slot_count(*network, s, t as int)),
        decreases network.trains@.len() - t,
    {
        let entries = &network.trains[t].entries;
        let n: usize = entries.len();
        let mut k: usize = 0;
        while k < n
            invariant
                0 <= k <= n,
                0 <= t < network.trains@.len(),
                network.wf(),
                entries == &network.trains@[t as int].entries,
                n == entries@.len(),
                counts@.len() == 144,
                forall|s: int|
                    0 <= s < 144 ==> #[trigger] counts@[s] == capped(
                        slot_count(*network, s, t as int) + train_slot_count(
                            *network,
                            entries@,
                            s,
                            k as int,
                        ),
                    ),
            decreases n - k,
        {
            let ghost before = counts@;
            let ghost base = |s: int|
                slot_count(*network, s, t as int) + train_slot_count(
                    *network,
                    entries@,
                    s,
                    k as int,
                );
            if k + 1 < n {
                let from: StationID = entries[k].0;
                let to: StationID = entries[k + 1].0;
                proof {
                    network.lemma_has_interval(from, to);
                }
                if graph_edge_weight(&network.graph, from, to).is_some() {
                    let d: u32 = (entries[k].1.dep.0 % 86400) / 600;
                    let a: u32 = (entries[k + 1].1.arr.0 % 86400) / 600;
                    mark_between(&mut counts, d, a);
                }
            }
            proof {
                assert forall|s: int| 0 <= s < 144 implies #[trigger] counts@[s] == capped(
                    slot_count(*network, s, t as int) + train_slot_count(
                        *network,
                        entries@,
                        s,
                        k + 1,
                    ),
                ) by {
                    assert(before[s] == capped(base(s)));
                    if run_occupies(*network, entries@, k as int, s) {
                        assert(counts@[s] == bumped(before[s]));
                    } else {
                        assert(counts@[s] == before[s]);
                    }
                }
            }
            k += 1;
        }
        t += 1;
    }
    counts
}

/// The runs of one train, among those that start at its first `upto`
/// calls, that leave station `station` and are under way during slot `s`.
pub open spec fn train_station_slot_count(
    net: Network,
    entries: Seq<(StationID, Schedule)>,
    station: StationID,
    s: int,
    upto: int,
) -> nat
    decreases upto,
{
    if upto <= 0 {
        0
    } else {
        train_station_slot_count(net, entries, station, s, upto - 1) + if run_occupies(
            net,
            entries,
            upto - 1,
            s,
        ) && entries[upto - 1].0 == station {
            1nat
        } else {
            0nat
        }
    }
}

/// The runs of the first `upto` trains that leave station `station` and
/// are under way during slot `s`: each run counts for the station it
/// departs from.
pub open spec fn station_slot_count(net: Network, station: StationID, s: int, upto: int) -> nat
    decreases upto,
{
    if upto <= 0 {
        0
    } else {
        station_slot_count(net, station, s, upto - 1) + train_station_slot_count(
            net,
            net.trains@[upto - 1].entries@,
            station,
            s,
            net.trains@[upto - 1].entries@.len() as int,
        )
    }
}

/// The table has a row of 144 counters for every station, each counter
/// holding the runs that leave the station of its row during the slot of
/// its column, among the first `trains` trains and the first `calls` calls
/// of the next.
pub open spec fn is_station_table(
    net: Network,
    table: Seq<Vec<u64>>,
    trains: int,
    entries: Seq<(StationID, Schedule)>,
    calls: int,
) -> bool {
    &&& table.len() == net.stations@.len()
    &&& forall|i: int| 0 <= i < table.len() ==> (#[trigger] table[i])@.len() == 144
    &&& forall|i: int, s: int|
        0 <= i < table.len() && 0 <= s < 144 ==> #[trigger] table[i]@[s] == capped(
            station_slot_count(net, net.stations@[i].id, s, trains) + train_station_slot_count(
                net,
                entries,
                net.stations@[i].id,
                s,
                calls,
            ),
        )
}

/// Counts, for each station and each ten-minute slot of the day, the runs
/// that leave the station and are under way during the slot.
pub fn station_slot_counts(network: &Network) -> (table: Vec<Vec<u64>>)
    requires
        network.wf(),
    ensures
        is_station_table(*network, table@, network.trains@.len() as int, Seq::empty(), 0),
{
    let mut table: Vec<Vec<u64>> = Vec::new();
    let mut i: usize = 0;
    while i < network.stations.len()
        invariant
            0 <= i <= network.stations@.len(),
            table@.len() == i,
            forall|a: int| 0 <= a < i ==> (#[trigger] table@[a])@.len() == 144,
            forall|a: int, s: int| 0 <= a < i && 0 <= s < 144 ==> #[trigger] table@[a]@[s] == 0,
        decreases network.stations@.len() - i,
    {
        let mut row: Vec<u64> = Vec::new();
        let mut s: usize = 0;
        while s < SLOTS_PER_DAY
            invariant
                0 <= s <= 144,
                row@.len() == s,
                forall|c: int| 0 <= c < s ==> row@[c] == 0,
            decreases 144 - s,
        {
            row.push(0);
            s += 1;
        }
        table.push(row);
        i += 1;
    }
    let mut t: usize = 0;
    while t < network.trains.len()
        invariant
            0 <= t <= network.trains@.len(),
            network.wf(),
            is_station_table(*network, table@, t as int, Seq::empty(), 0),
        decreases network.trains@.len() - t,
    {
        let entries = &network.trains[t].entries;
        let n: usize = entries.len();
        let mut k: usize = 0;
        while k < n
            invariant
                0 <= k <= n,
                0 <= t < network.trains@.len(),
                network.wf(),
                entries == &network.trains@[t as int].entries,
                n == entries@.len(),
                is_station_table(*network, table@, t as int, entries@, k as int),
            decreases n - k,
        {
            let ghost before = table@;
            if k + 1 < n {
                let from: StationID = entries[k].0;
                let to: StationID = entries[k + 1].0;
                proof {
                    network.lemma_has_interval(from, to);
                }
                if graph_edge_weight(&network.graph, from, to).is_some() {
                    proof {
                        let j = graph_edges(network.graph)[(from, to)] as int;
                        assert(network.station_lookup@.contains_key(network.intervals@[j].from));
                    }
                    match network.station_lookup.get(&from) {
                        Some(found) => {
                            let row: usize = *found;
                            let d: u32 = (entries[k].1.dep.0 % 86400) / 600;
                            let a: u32 = (entries[k + 1].1.arr.0 % 86400) / 600;
                            mark_between(&mut table[row], d, a);
                        },
                        None => {},
                    }
                }
            }
            proof {
                assert forall|i: int, s: int|
                    0 <= i < table@.len() && 0 <= s < 144 implies #[trigger] table@[i]@[s]
                    == capped(
                    station_slot_count(*network, network.stations@[i].id, s, t as int)
                        + train_station_slot_count(
                        *network,
                        entries@,
                        network.stations@[i].id,
                        s,
                        k + 1,
                    ),
                ) by {
                    let station = network.stations@[i].id;
                    assert(network.station_lookup@[station] == i);
                    assert(before[i]@[s] == capped(
                        station_slot_count(*network, station, s, t as int)
                            + train_station_slot_count(*network, entries@, station, s, k as int),
                    ));
                    if run_occupies(*network, entries@, k as int, s) && entries@[k as int].0
                        == station {
                        assert(table@[i]@[s] == bumped(before[i]@[s]));
                    } else {
                        assert(table@[i]@[s] == before[i]@[s]);
                    }
                }
            }
            k += 1;
        }
        t += 1;
    }
    table
}

/// The scale factor of each hour of the day from the counters of the
/// slots.
pub fn hour_factors(counts: &Vec<u64>, time_axis_scale: u32) -> (factors: Vec<u64>)
    requires
        counts@.len() == 144,
    ensures
        factors@.len() == 24,
        forall|h: int|
            0 <= h < 24 ==> #[trigger] factors@[h] == hour_factor(
                hour_sum(counts@, h),
                time_axis_scale,
            ),
{
    let mut factors: Vec<u64> = Vec::new();
    let mut h: usize = 0;
    while h < 24
        invariant
            0 <= h <= 24,
            counts@.len() == 144,
            factors@.len() == h,
            forall|g: int|
                0 <= g < h ==> #[trigger] factors@[g] == hour_factor(
                    hour_sum(counts@, g),
                    time_axis_scale,
                ),
        decreases 24 - h,
    {
        let total: u128 = (counts[6 * h] as u128) + (counts[6 * h + 1] as u128) + (counts[6 * h
            + 2] as u128) + (counts[6 * h + 3] as u128) + (counts[6 * h + 4] as u128) + (counts[6
            * h + 5] as u128);
        let held: u64 = if total <= u64::MAX as u128 {
            total as u64
        } else {
            u64::MAX
        };
        let root: u64 = isqrt_round(held);
        let floored: u64 = if root >= 1 {
            root
        } else {
            1
        };
        assert(floored * time_axis_scale <= 0x1_0000_0000 * 0xFFFF_FFFF) by (nonlinear_arith)
            requires
                0 <= floored <= 0x1_0000_0000,
                0 <= time_axis_scale <= 0xFFFF_FFFF,
        ;
        factors.push(floored * (time_axis_scale as u64));
        h += 1;
    }
    factors
}

/// The counters of the 144 slots of a day for a network.
pub open spec fn spec_slot_counts(net: Network) -> Seq<u64> {
    Seq::new(144, |s: int| capped(slot_count(net, s, net.trains@.len() as int)))
}

/// The factors of the 24 hours under a mode: from the traffic of the
/// network under the automatic mode, and the scale of the axis alone under
/// every other mode.
pub open spec fn spec_time_factors(net: Network, mode: ScaleMode, scale: u32) -> Seq<u64> {
    Seq::new(
        24,
        |h: int|
            if mode == ScaleMode::Auto {
                hour_factor(hour_sum(spec_slot_counts(net), h), scale) as u64
            } else {
                scale as u64
            },
    )
}

/// The scale factors of the 24 hours for the time axis of a network.
pub fn time_factors(network: &Network, mode: ScaleMode, time_axis_scale: u32) -> (factors: Vec<
    u64,
>)
    requires
        network.wf(),
    ensures
        factors@ == spec_time_factors(*network, mode, time_axis_scale),
{
    match mode {
        ScaleMode::Auto => {
            let counts = slot_counts(network);
            assert(counts@ =~= spec_slot_counts(*network));
            let factors = hour_factors(&counts, time_axis_scale);
            assert(factors@ =~= spec_time_factors(*network, mode, time_axis_scale));
            factors
        },
        _ => {
            let mut factors: Vec<u64> = Vec::new();
            let mut h: usize = 0;
            while h < 24
                invariant
                    0 <= h <= 24,
                    factors@.len() == h,
                    forall|g: int| 0 <= g < h ==> #[trigger] factors@[g] == time_axis_scale,
                decreases 24 - h,
            {
                factors.push(time_axis_scale as u64);
                h += 1;
            }
            assert(factors@ =~= spec_time_factors(*network, mode, time_axis_scale));
            factors
        },
    }
}

} // verus!
