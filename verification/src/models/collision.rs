use crate::models::axis::TimeAxis;
use crate::models::graph::Network;
use crate::models::input::Label;
use crate::models::ladder::{Ladder, MAX_EXTENT};
use crate::models::path::ladder_fits;
use crate::types::{GraphLength, Node};
use vstd::prelude::*;

verus! {

broadcast use vstd::std_specs::hash::group_hash_axioms;

/// The gap between the origin of the time axis and the right side of a
/// station label, in units of the page.
pub const LABEL_PADDING: i64 = 5;

/// The gap between the ladder and the bands above and below it, in units
/// of the page.
pub const BAND_PADDING: i64 = 5;

/// The height of the bands above and below the ladder, in units of the
/// page.
pub const BAND_HEIGHT: i64 = 10;

/// A rectangle with sides along the axes, by its four corners.
#[derive(Debug, Clone, Copy, PartialEq, Eq, Structural)]
pub struct Rect {
    pub top_left: Node,
    pub top_right: Node,
    pub bottom_right: Node,
    pub bottom_left: Node,
}

/// The smallest and largest coordinates of a set of rectangles.
#[derive(Debug, Clone, Copy, PartialEq, Eq, Structural)]
pub struct BoundingBox {
    pub min_x: i64,
    pub max_x: i64,
    pub min_y: i64,
    pub max_y: i64,
}

/// The rectangles that labels may not overlap, and the box around them.
pub struct Collision {
    pub rectangles: Vec<Rect>,
    pub bounds: BoundingBox,
}

/// The rectangle with the given sides.
pub open spec fn spec_rect(left: int, top: int, right: int, bottom: int) -> Rect {
    Rect {
        top_left: Node(GraphLength(left as i64), GraphLength(top as i64)),
        top_right: Node(GraphLength(right as i64), GraphLength(top as i64)),
        bottom_right: Node(GraphLength(right as i64), GraphLength(bottom as i64)),
        bottom_left: Node(GraphLength(left as i64), GraphLength(bottom as i64)),
    }
}

/// The rectangle of a label at a station of height `height`: to the left of
/// the origin by the padding, as wide and as high as the label, with the
/// station's height at its middle.
pub open spec fn label_rect(label: Label, height: int, resolution: int) -> Rect {
    let top = height - label.height / 2;
    spec_rect(
        -LABEL_PADDING * resolution - label.width,
        top,
        -LABEL_PADDING * resolution,
        top + label.height,
    )
}

/// The band above the ladder, over the whole width of the window.
pub open spec fn header_rect(width: int, resolution: int) -> Rect {
    spec_rect(0, -(BAND_PADDING + BAND_HEIGHT) * resolution, width, -BAND_PADDING * resolution)
}

/// The band below the ladder, over the whole width of the window.
pub open spec fn footer_rect(width: int, total_height: int, resolution: int) -> Rect {
    spec_rect(
        0,
        total_height + BAND_PADDING * resolution,
        width,
        total_height + (BAND_PADDING + BAND_HEIGHT) * resolution,
    )
}

/// The rectangles of the first `upto` labels, in their order; a label of a
/// station that the network has not gets none.
pub open spec fn label_rects(
    net: Network,
    ladder: Ladder,
    labels: Seq<Label>,
    resolution: int,
    upto: int,
) -> Seq<Rect>
    decreases upto,
{
    if upto <= 0 {
        Seq::empty()
    } else {
        let before = label_rects(net, ladder, labels, resolution, upto - 1);
        let label = labels[upto - 1];
        if net.station_lookup@.contains_key(label.station) {
            before.push(
                label_rect(
                    label,
                    ladder.heights@[net.station_lookup@[label.station] as int] as int,
                    resolution,
                ),
            )
        } else {
            before
        }
    }
}

/// All rectangles of a drawing: the two bands, then the labels.
pub open spec fn spec_rectangles(
    net: Network,
    ladder: Ladder,
    axis: TimeAxis,
    labels: Seq<Label>,
    resolution: int,
) -> Seq<Rect> {
    seq![
        header_rect(axis.spec_position(axis.duration as int), resolution),
        footer_rect(
            axis.spec_position(axis.duration as int),
            ladder.spec_total_height() as int,
            resolution,
        ),
    ] + label_rects(net, ladder, labels, resolution, labels.len() as int)
}

/// The box bounds every rectangle, and each of its sides touches one.
pub open spec fn is_bounding_box(rects: Seq<Rect>, b: BoundingBox) -> bool {
    &&& forall|i: int|
        0 <= i < rects.len() ==> {
            let r = #[trigger] rects[i];
            &&& b.min_x <= r.top_left.0.0
            &&& r.bottom_right.0.0 <= b.max_x
            &&& b.min_y <= r.top_left.1.0
            &&& r.bottom_right.1.0 <= b.max_y
        }
    &&& exists|i: int| 0 <= i < rects.len() && (#[trigger] rects[i]).top_left.0.0 == b.min_x
    &&& exists|i: int| 0 <= i < rects.len() && (#[trigger] rects[i]).bottom_right.0.0 == b.max_x
    &&& exists|i: int| 0 <= i < rects.len() && (#[trigger] rects[i]).top_left.1.0 == b.min_y
    &&& exists|i: int| 0 <= i < rects.len() && (#[trigger] rects[i]).bottom_right.1.0 == b.max_y
}

/// The rectangle with the given sides.
pub fn rect(left: i64, top: i64, right: i64, bottom: i64) -> (r: Rect)
    ensures
        r == spec_rect(left as int, top as int, right as int, bottom as int),
{
    Rect {
        top_left: Node(GraphLength(left), GraphLength(top)),
        top_right: Node(GraphLength(right), GraphLength(top)),
        bottom_right: Node(GraphLength(right), GraphLength(bottom)),
        bottom_left: Node(GraphLength(left), GraphLength(bottom)),
    }
}

/// The box around the rectangles, of which there is at least one.
pub fn bounding_box(rects: &Vec<Rect>) -> (b: BoundingBox)
    requires
        rects@.len() > 0,
    ensures
        is_bounding_box(rects@, b),
{
    let first = rects[0];
    let mut b = BoundingBox {
        min_x: first.top_left.0.0,
        max_x: first.bottom_right.0.0,
        min_y: first.top_left.1.0,
        max_y: first.bottom_right.1.0,
    };
    let mut i: usize = 1;
    assert(rects@.subrange(0, 1)[0] == rects@[0]);
    while i < rects.len()
        invariant
            1 <= i <= rects@.len(),
            is_bounding_box(rects@.subrange(0, i as int), b),
        decreases rects@.len() - i,
    {
        let r = rects[i];
        let ghost old_b = b;
        let ghost prev = rects@.subrange(0, i as int);
        let ghost next = rects@.subrange(0, i + 1);
        if r.top_left.0.0 < b.min_x {
            b.min_x = r.top_left.0.0;
        }
        if r.bottom_right.0.0 > b.max_x {
            b.max_x = r.bottom_right.0.0;
        }
        if r.top_left.1.0 < b.min_y {
            b.min_y = r.top_left.1.0;
        }
        if r.bottom_right.1.0 > b.max_y {
            b.max_y = r.bottom_right.1.0;
        }
        proof {
            assert(next[i as int] == r);
            assert forall|j: int| 0 <= j < i implies next[j] == prev[j] by {}
            let ax = choose|j: int| 0 <= j < prev.len() && (#[trigger] prev[j]).top_left.0.0
                == old_b.min_x;
            let bx = choose|j: int| 0 <= j < prev.len() && (#[trigger] prev[j]).bottom_right.0.0
                == old_b.max_x;
            let ay = choose|j: int| 0 <= j < prev.len() && (#[trigger] prev[j]).top_left.1.0
                == old_b.min_y;
            let by = choose|j: int| 0 <= j < prev.len() && (#[trigger] prev[j]).bottom_right.1.0
                == old_b.max_y;
            assert(next[ax] == prev[ax] && next[bx] == prev[bx] && next[ay] == prev[ay] && next[by]
                == prev[by]);
            assert(next[if b.min_x == old_b.min_x {
                ax
            } else {
                i as int
            }].top_left.0.0 == b.min_x);
            assert(next[if b.max_x == old_b.max_x {
                bx
            } else {
                i as int
            }].bottom_right.0.0 == b.max_x);
            assert(next[if b.min_y == old_b.min_y {
                ay
            } else {
                i as int
            }].top_left.1.0 == b.min_y);
            assert(next[if b.max_y == old_b.max_y {
                by
            } else {
                i as int
            }].bottom_right.1.0 == b.max_y);
            assert forall|j: int| 0 <= j < next.len() implies {
                let r = #[trigger] next[j];
                &&& b.min_x <= r.top_left.0.0
                &&& r.bottom_right.0.0 <= b.max_x
                &&& b.min_y <= r.top_left.1.0
                &&& r.bottom_right.1.0 <= b.max_y
            } by {
                if j < i {
                    assert(next[j] == prev[j]);
                }
            }
        }
        i += 1;
    }
    assert(rects@.subrange(0, i as int) =~= rects@);
    b
}

/// Builds the rectangles that labels may not overlap: a band above and a
/// band below the ladder, and one rectangle for the label of each station
/// of the network; with the box around them all.
pub fn build_collision(
    network: &Network,
    ladder: &Ladder,
    axis: &TimeAxis,
    labels: &Vec<Label>,
    resolution: u32,
) -> (c: Collision)
    requires
        network.wf_index(),
        ladder_fits(*network, *ladder),
        ladder.spec_total_height() <= MAX_EXTENT,
        axis.wf(),
    ensures
        c.rectangles@ == spec_rectangles(*network, *ladder, *axis, labels@, resolution as int),
        is_bounding_box(c.rectangles@, c.bounds),
{
    let width: i64 = axis.width() as i64;
    let total: i64 = ladder.total_height() as i64;
    let scale: i64 = resolution as i64;
    assert(BAND_PADDING * scale == 5 * scale && (BAND_PADDING + BAND_HEIGHT) * scale == 15 * scale
        && LABEL_PADDING * scale == 5 * scale) by (nonlinear_arith)
        requires
            BAND_PADDING == 5,
            BAND_HEIGHT == 10,
            LABEL_PADDING == 5,
    ;
    let band_near: i64 = BAND_PADDING * scale;
    let band_far: i64 = (BAND_PADDING + BAND_HEIGHT) * scale;
    let label_gap: i64 = LABEL_PADDING * scale;
    let mut rectangles: Vec<Rect> = Vec::new();
    rectangles.push(rect(0, -band_far, width, -band_near));
    rectangles.push(rect(0, total + band_near, width, total + band_far));
    let ghost bands = rectangles@;
    let mut i: usize = 0;
    while i < labels.len()
        invariant
            0 <= i <= labels@.len(),
            network.wf_index(),
            ladder_fits(*network, *ladder),
            label_gap == LABEL_PADDING * resolution,
            0 <= label_gap <= 5 * 0xFFFF_FFFF,
            rectangles@ == bands + label_rects(
                *network,
                *ladder,
                labels@,
                resolution as int,
                i as int,
            ),
        decreases labels@.len() - i,
    {
        let label = labels[i];
        match network.station_lookup.get(&label.station) {
            Some(found) => {
                let height: i64 = ladder.heights[*found] as i64;
                let top: i64 = height - (label.height / 2) as i64;
                let ghost before = rectangles@;
                rectangles.push(
                    rect(-label_gap - label.width as i64, top, -label_gap, top + label.height as i64),
                );
                assert(rectangles@ =~= bands + label_rects(
                    *network,
                    *ladder,
                    labels@,
                    resolution as int,
                    i + 1,
                ));
            },
            None => {},
        }
        i += 1;
    }
    assert(bands =~= seq![
        header_rect(axis.spec_position(axis.duration as int), resolution as int),
        footer_rect(
            axis.spec_position(axis.duration as int),
            ladder.spec_total_height() as int,
            resolution as int,
        ),
    ]);
    let bounds = bounding_box(&rectangles);
    Collision { rectangles, bounds }
}

} // verus!
