use crate::models::graph::Station;
use crate::types::{ScaleMode, StationID, Track};
use crate::utils::{lemma_scaled_at_least_axis_scale, match_and_scale, scaled_length};
use vstd::prelude::*;

verus! {

/// The largest coordinate of a drawing, along either axis.
pub const MAX_EXTENT: u64 = 0x0FFF_FFFF_FFFF_FFFF;

/// A station on the ladder: where it stands among the stations of the
/// network, its tracks, and its height on the distance axis.
#[derive(Debug, Clone, Copy, PartialEq, Eq, Structural)]
pub struct Rung {
    pub station: StationID,
    pub index: usize,
    pub tracks: Track,
    pub draw_height: u64,
}

/// The station ladder: the stations by position, each with its height, and
/// the heights once more by place in the network.
pub struct Ladder {
    pub rungs: Vec<Rung>,
    pub heights: Vec<u64>,
    pub track_spacing: u32,
}

/// Station `i` comes before station `j`: it lies at a smaller position, or
/// at the same position and earlier in the list.
pub open spec fn comes_before(stations: Seq<Station>, i: int, j: int) -> bool {
    stations[i].position < stations[j].position || (stations[i].position == stations[j].position
        && i < j)
}

/// `order` lists the places of all stations by position, stations at one
/// position in the order of the list.
pub open spec fn is_position_order(stations: Seq<Station>, order: Seq<usize>) -> bool {
    &&& order.len() == stations.len()
    &&& forall|a: int| 0 <= a < order.len() ==> (#[trigger] order[a]) < stations.len()
    &&& forall|a: int, b: int|
        0 <= a < b < order.len() ==> comes_before(
            stations,
            (#[trigger] order[a]) as int,
            (#[trigger] order[b]) as int,
        )
    &&& forall|i: usize| i < stations.len() ==> #[trigger] order.contains(i)
}

/// The places of all stations by position; there is exactly one such
/// order.
pub open spec fn position_order(stations: Seq<Station>) -> Seq<usize> {
    choose|order: Seq<usize>| is_position_order(stations, order)
}

/// The stations have but one order by position.
pub proof fn lemma_position_order_unique(stations: Seq<Station>, a: Seq<usize>, b: Seq<usize>)
    requires
        is_position_order(stations, a),
        is_position_order(stations, b),
    ensures
        a == b,
{
    assert forall|k: int| 0 <= k < a.len() implies a[k] == b[k] by {
        lemma_same_place(stations, a, b, k);
    }
    assert(a =~= b);
}

/// An order by position is the order by position.
pub proof fn lemma_position_order_is(stations: Seq<Station>, order: Seq<usize>)
    requires
        is_position_order(stations, order),
    ensures
        position_order(stations) == order,
{
    let chosen = choose|o: Seq<usize>| is_position_order(stations, o);
    assert(is_position_order(stations, chosen));
    lemma_position_order_unique(stations, order, chosen);
}

/// Two orders by position agree at every place.
pub proof fn lemma_same_place(stations: Seq<Station>, a: Seq<usize>, b: Seq<usize>, k: int)
    requires
        is_position_order(stations, a),
        is_position_order(stations, b),
        0 <= k < a.len(),
    ensures
        a[k] == b[k],
    decreases k,
{
    let x = a[k];
    let y = b[k];
    if x != y {
        assert(b.contains(x));
        let m = choose|m: int| 0 <= m < b.len() && b[m] == x;
        assert(a.contains(y));
        let l = choose|l: int| 0 <= l < a.len() && a[l] == y;
        if m < k {
            lemma_same_place(stations, a, b, m);
            assert(comes_before(stations, a[m] as int, a[k] as int));
        } else if l < k {
            lemma_same_place(stations, a, b, l);
            assert(comes_before(stations, b[l] as int, b[k] as int));
        } else {
            assert(comes_before(stations, b[k] as int, b[m] as int));
            assert(comes_before(stations, a[k] as int, a[l] as int));
        }
    }
}

/// The height of the last rung of the ladder of the stations, 0 where
/// there is no station.
pub open spec fn ladder_extent(
    stations: Seq<Station>,
    mode: ScaleMode,
    axis_scale: u32,
    spacing: u32,
) -> nat {
    if stations.len() == 0 {
        0
    } else {
        rung_height(
            stations,
            position_order(stations),
            mode,
            axis_scale,
            spacing,
            stations.len() - 1,
        )
    }
}

/// The room a station takes above its height: one spacing for each track
/// but the first.
pub open spec fn track_room(tracks: Track, spacing: u32) -> nat {
    ((tracks - 1) * spacing) as nat
}

/// The height of the rung at place `k` of the ladder. The first rung lies
/// at its own track room; each further rung lies below the one before by
/// the scaled distance between the two stations and by its own track room.
pub open spec fn rung_height(
    stations: Seq<Station>,
    order: Seq<usize>,
    mode: ScaleMode,
    axis_scale: u32,
    spacing: u32,
    k: int,
) -> nat
    decreases k,
{
    let here = stations[order[k] as int];
    if k <= 0 {
        track_room(here.tracks, spacing)
    } else {
        let above = stations[order[k - 1] as int];
        rung_height(stations, order, mode, axis_scale, spacing, k - 1) + scaled_length(
            mode,
            (here.position - above.position) as nat,
            axis_scale as nat,
        ) + track_room(here.tracks, spacing)
    }
}

/// The places of the stations by position; stations at one position keep
/// the order of the list.
pub fn sort_by_position(stations: &Vec<Station>) -> (order: Vec<usize>)
    ensures
        is_position_order(stations@, order@),
        order@ == position_order(stations@),
{
    let mut order: Vec<usize> = Vec::new();
    let mut i: usize = 0;
    while i < stations.len()
        invariant
            0 <= i <= stations.len(),
            order@.len() == i,
            forall|a: int| 0 <= a < order@.len() ==> (#[trigger] order@[a]) < i,
            forall|a: int, b: int|
                0 <= a < b < order@.len() ==> comes_before(
                    stations@,
                    (#[trigger] order@[a]) as int,
                    (#[trigger] order@[b]) as int,
                ),
            forall|x: usize| x < i ==> #[trigger] order@.contains(x),
        decreases stations.len() - i,
    {
        let position: u32 = stations[i].position;
        let mut p: usize = i;
        while p > 0 && stations[order[p - 1]].position > position
            invariant
                0 <= p <= i,
                i < stations.len(),
                order@.len() == i,
                position == stations@[i as int].position,
                forall|a: int| 0 <= a < order@.len() ==> (#[trigger] order@[a]) < i,
                forall|a: int|
                    p <= a < i ==> stations@[(#[trigger] order@[a]) as int].position > position,
            decreases p,
        {
            p -= 1;
        }
        let ghost before = order@;
        order.insert(p, i);
        proof {
            assert(order@ == before.insert(p as int, i));
            assert forall|a: int| 0 <= a < order@.len() implies (#[trigger] order@[a]) < i + 1 by {
                if a < p {
                    assert(order@[a] == before[a]);
                } else if a > p {
                    assert(order@[a] == before[a - 1]);
                }
            }
            assert forall|a: int, b: int| 0 <= a < b < order@.len() implies comes_before(
                stations@,
                (#[trigger] order@[a]) as int,
                (#[trigger] order@[b]) as int,
            ) by {
                let ea = if a < p {
                    before[a]
                } else if a == p {
                    i
                } else {
                    before[a - 1]
                };
                let eb = if b < p {
                    before[b]
                } else if b == p {
                    i
                } else {
                    before[b - 1]
                };
                assert(order@[a] == ea);
                assert(order@[b] == eb);
                if b == p {
                    if p > 0 {
                        assert(stations@[before[p - 1] as int].position <= position);
                        if a < p - 1 {
                            assert(comes_before(stations@, before[a] as int, before[p - 1] as int));
                        }
                    }
                }
            }
            assert forall|x: usize| x < i + 1 implies #[trigger] order@.contains(x) by {
                if x == i {
                    assert(order@[p as int] == i);
                } else {
                    assert(before.contains(x));
                    let a = choose|a: int| 0 <= a < before.len() && before[a] == x;
                    if a < p {
                        assert(order@[a] == before[a]);
                    } else {
                        assert(order@[a + 1] == before[a]);
                    }
                }
            }
        }
        i += 1;
    }
    proof {
        lemma_position_order_is(stations@, order@);
    }
    order
}

/// The heights of the rungs do not decrease down the ladder.
pub proof fn lemma_rung_height_monotonic(
    stations: Seq<Station>,
    order: Seq<usize>,
    mode: ScaleMode,
    axis_scale: u32,
    spacing: u32,
    a: int,
    b: int,
)
    requires
        0 <= a <= b,
    ensures
        rung_height(stations, order, mode, axis_scale, spacing, a) <= rung_height(
            stations,
            order,
            mode,
            axis_scale,
            spacing,
            b,
        ),
    decreases b - a,
{
    if a < b {
        lemma_rung_height_monotonic(stations, order, mode, axis_scale, spacing, a, b - 1);
    }
}

impl Rung {
    /// The height of the rule of track `track`: one spacing above the
    /// station's height for each track before it.
    pub open spec fn spec_rule(&self, track: Track, spacing: u32) -> int {
        self.draw_height - track * spacing
    }

    /// The height at which the rule of track `track` is drawn.
    pub fn rule(&self, track: Track, spacing: u32) -> (y: u64)
        requires
            track < self.tracks,
            self.draw_height >= track_room(self.tracks, spacing),
        ensures
            y == self.spec_rule(track, spacing),
    {
        assert(track * spacing <= (self.tracks - 1) * spacing) by (nonlinear_arith)
            requires
                track <= self.tracks - 1,
                spacing >= 0,
        ;
        self.draw_height - (track as u64) * (spacing as u64)
    }
}

impl Ladder {
    /// The places of the stations in the order of the ladder.
    pub open spec fn order(&self) -> Seq<usize> {
        Seq::new(self.rungs@.len(), |k: int| self.rungs@[k].index)
    }

    /// The ladder is the ladder of these stations under this scale: the
    /// rungs are the stations by position, each at its height, no height
    /// beyond the largest coordinate, and `heights` holds the same heights
    /// by place in the network.
    pub open spec fn wf(
        &self,
        stations: Seq<Station>,
        mode: ScaleMode,
        axis_scale: u32,
        spacing: u32,
    ) -> bool {
        &&& self.track_spacing == spacing
        &&& is_position_order(stations, self.order())
        &&& self.heights@.len() == stations.len()
        &&& forall|k: int|
            0 <= k < self.rungs@.len() ==> {
                let rung = #[trigger] self.rungs@[k];
                &&& rung.station == stations[rung.index as int].id
                &&& rung.tracks == stations[rung.index as int].tracks
                &&& rung.draw_height == rung_height(
                    stations,
                    self.order(),
                    mode,
                    axis_scale,
                    spacing,
                    k,
                )
                &&& rung.draw_height <= MAX_EXTENT
                &&& rung.draw_height >= track_room(rung.tracks, spacing)
                &&& self.heights@[rung.index as int] == rung.draw_height
            }
        &&& forall|i: int|
            0 <= i < stations.len() ==> (#[trigger] self.heights@[i]) <= MAX_EXTENT
                && self.heights@[i] >= track_room(stations[i].tracks, spacing)
    }

    /// The height of the whole ladder: that of its last rung, 0 without
    /// rungs.
    pub open spec fn spec_total_height(&self) -> nat {
        if self.rungs@.len() == 0 {
            0
        } else {
            self.rungs@[self.rungs@.len() - 1].draw_height as nat
        }
    }

    /// Builds the ladder of the stations. There is none where the last
    /// rung would lie beyond the largest coordinate.
    pub fn build(stations: &Vec<Station>, mode: ScaleMode, axis_scale: u32, spacing: u32) -> (r:
        Option<Ladder>)
        requires
            forall|i: int| 0 <= i < stations@.len() ==> (#[trigger] stations@[i]).tracks >= 1,
        ensures
            r.is_some() <==> ladder_extent(stations@, mode, axis_scale, spacing) <= MAX_EXTENT,
            r.is_some() ==> r.unwrap().wf(stations@, mode, axis_scale, spacing) && r.unwrap().order()
                == position_order(stations@),
    {
        let order = sort_by_position(stations);
        let n: usize = stations.len();
        let mut rungs: Vec<Rung> = Vec::new();
        let mut heights: Vec<u64> = Vec::new();
        let mut i: usize = 0;
        while i < n
            invariant
                0 <= i <= n,
                heights@.len() == i,
                forall|j: int| 0 <= j < i ==> heights@[j] == 0,
            decreases n - i,
        {
            heights.push(0);
            i += 1;
        }
        let mut height: u64 = 0;
        let mut k: usize = 0;
        while k < n
            invariant
                0 <= k <= n,
                n == stations@.len(),
                is_position_order(stations@, order@),
                order@ == position_order(stations@),
                forall|i: int| 0 <= i < stations@.len() ==> (#[trigger] stations@[i]).tracks >= 1,
                heights@.len() == n,
                rungs@.len() == k,
                k > 0 ==> height == rungs@[k - 1].draw_height,
                k == 0 ==> height == 0,
                forall|a: int|
                    0 <= a < k ==> {
                        let rung = #[trigger] rungs@[a];
                        &&& rung.index == order@[a]
                        &&& rung.station == stations@[rung.index as int].id
                        &&& rung.tracks == stations@[rung.index as int].tracks
                        &&& rung.draw_height == rung_height(
                            stations@,
                            order@,
                            mode,
                            axis_scale,
                            spacing,
                            a,
                        )
                        &&& rung.draw_height <= MAX_EXTENT
                        &&& rung.draw_height >= track_room(rung.tracks, spacing)
                        &&& heights@[rung.index as int] == rung.draw_height
                    },
                forall|i: int|
                    0 <= i < n ==> (#[trigger] heights@[i]) <= MAX_EXTENT && (heights@[i] == 0 || (
                    exists|a: int| 0 <= a < k && order@[a] == i)),
            decreases n - k,
        {
            let index: usize = order[k];
            let tracks: Track = stations[index].tracks;
            assert(0 <= (tracks - 1) * spacing <= 0xFFFF_FFFF * 0xFFFF_FFFF) by (nonlinear_arith)
                requires
                    1 <= tracks <= 0xFFFF_FFFF,
                    0 <= spacing <= 0xFFFF_FFFF,
            ;
            let room: u64 = ((tracks - 1) as u64) * (spacing as u64);
            let gap: u64 = if k == 0 {
                0
            } else {
                let above: usize = order[k - 1];
                assert(comes_before(stations@, order@[k - 1] as int, order@[k as int] as int));
                let distance: u32 = stations[index].position - stations[above].position;
                match_and_scale(&mode, distance as u64, axis_scale as u64)
            };
            let next: u128 = (height as u128) + (gap as u128) + (room as u128);
            let ghost exact = rung_height(stations@, order@, mode, axis_scale, spacing, k as int);
            proof {
                if k > 0 {
                    assert(height == rungs@[k - 1].draw_height);
                    assert(height == rung_height(
                        stations@,
                        order@,
                        mode,
                        axis_scale,
                        spacing,
                        k - 1,
                    ));
                }
            }
            assert(next > MAX_EXTENT <==> exact > MAX_EXTENT);
            assert(next <= MAX_EXTENT ==> next == exact);
            if next > MAX_EXTENT as u128 {
                proof {
                    lemma_rung_height_monotonic(
                        stations@,
                        order@,
                        mode,
                        axis_scale,
                        spacing,
                        k as int,
                        n - 1,
                    );
                }
                return None;
            }
            height = next as u64;
            let ghost heights_before = heights@;
            heights[index] = height;
            rungs.push(Rung { station: stations[index].id, index, tracks, draw_height: height });
            proof {
                assert forall|a: int| 0 <= a < k + 1 implies {
                    let rung = #[trigger] rungs@[a];
                    heights@[rung.index as int] == rung.draw_height
                } by {
                    if a < k {
                        assert(comes_before(stations@, order@[a] as int, order@[k as int] as int));
                        assert(order@[a] != order@[k as int]);
                    }
                }
                assert forall|i: int| 0 <= i < n implies (#[trigger] heights@[i]) <= MAX_EXTENT && (
                heights@[i] == 0 || (exists|a: int| 0 <= a < k + 1 && order@[a] == i)) by {
                    if i == index {
                        assert(order@[k as int] == i);
                    } else {
                        assert(heights@[i] == heights_before[i]);
                        if heights_before[i] != 0 {
                            let a = choose|a: int| 0 <= a < k && order@[a] == i;
                            assert(0 <= a < k + 1 && order@[a] == i);
                        }
                    }
                }
            }
            k += 1;
        }
        let ladder = Ladder { rungs, heights, track_spacing: spacing };
        proof {
            assert(ladder.order() =~= order@);
            if n > 0 {
                assert(ladder.rungs@[n - 1].draw_height <= MAX_EXTENT);
            }
            assert forall|i: int| 0 <= i < stations@.len() implies (#[trigger] ladder.heights@[i])
                <= MAX_EXTENT && ladder.heights@[i] >= track_room(stations@[i].tracks, spacing) by {
                assert(order@.contains(i as usize));
                let a = choose|a: int| 0 <= a < order@.len() && order@[a] == i as usize;
                assert(ladder.rungs@[a].index == i);
            }
        }
        Some(ladder)
    }

    /// The height of the whole ladder.
    pub fn total_height(&self) -> (h: u64)
        ensures
            h == self.spec_total_height(),
    {
        if self.rungs.len() == 0 {
            0
        } else {
            self.rungs[self.rungs.len() - 1].draw_height
        }
    }
}

/// With a scale of the axis of at least 1, the heights of the rungs
/// strictly increase down the ladder.
pub proof fn lemma_rung_heights_increase(
    stations: Seq<Station>,
    order: Seq<usize>,
    mode: ScaleMode,
    axis_scale: u32,
    spacing: u32,
    a: int,
    b: int,
)
    requires
        0 <= a < b,
        axis_scale >= 1,
    ensures
        rung_height(stations, order, mode, axis_scale, spacing, a) < rung_height(
            stations,
            order,
            mode,
            axis_scale,
            spacing,
            b,
        ),
    decreases b - a,
{
    let here = stations[order[b] as int];
    let above = stations[order[b - 1] as int];
    lemma_scaled_at_least_axis_scale(
        mode,
        (here.position - above.position) as nat,
        axis_scale as nat,
    );
    if a < b - 1 {
        lemma_rung_heights_increase(stations, order, mode, axis_scale, spacing, a, b - 1);
    }
}

/// A rung lies below the rung before it by the scaled distance between the
/// two stations and by its own track room; where its station has no fewer
/// tracks than the one before, that is at least the scaled distance and
/// the track room of the station before.
pub proof fn lemma_rung_gap(
    stations: Seq<Station>,
    order: Seq<usize>,
    mode: ScaleMode,
    axis_scale: u32,
    spacing: u32,
    k: int,
)
    requires
        1 <= k,
    ensures
        rung_height(stations, order, mode, axis_scale, spacing, k) - rung_height(
            stations,
            order,
            mode,
            axis_scale,
            spacing,
            k - 1,
        ) == scaled_length(
            mode,
            (stations[order[k] as int].position - stations[order[k - 1] as int].position) as nat,
            axis_scale as nat,
        ) + track_room(stations[order[k] as int].tracks, spacing),
        1 <= stations[order[k - 1] as int].tracks <= stations[order[k] as int].tracks
            ==> rung_height(stations, order, mode, axis_scale, spacing, k) - rung_height(
            stations,
            order,
            mode,
            axis_scale,
            spacing,
            k - 1,
        ) >= scaled_length(
            mode,
            (stations[order[k] as int].position - stations[order[k - 1] as int].position) as nat,
            axis_scale as nat,
        ) + track_room(stations[order[k - 1] as int].tracks, spacing),
{
    let later = stations[order[k] as int].tracks;
    let earlier = stations[order[k - 1] as int].tracks;
    if 1 <= earlier <= later {
        assert((earlier - 1) * spacing <= (later - 1) * spacing) by (nonlinear_arith)
            requires
                1 <= earlier <= later,
                0 <= spacing,
        ;
    }
}

} // verus!
