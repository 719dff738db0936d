use crate::utils::{match_and_scale, scaled_length};
use vstd::prelude::*;

verus! {

/// Identifier of a station, unique within a network.
pub type StationID = u64;

/// Identifier of a train, unique within a network.
pub type TrainID = u64;

/// A directed interval, named by the stations it leaves and reaches.
pub type IntervalID = (StationID, StationID);

/// Number or index of a track within a station.
pub type Track = u32;

/// A time, in seconds.
#[derive(Debug, Clone, Copy, PartialEq, Eq, Structural)]
pub struct Time(pub u32);

impl Time {
    /// The time of so many seconds.
    pub fn new(seconds: u32) -> (t: Self)
        ensures
            t.0 == seconds,
    {
        Time(seconds)
    }

    /// The whole time in seconds.
    pub fn seconds(&self) -> (s: u32)
        ensures
            s == self.0,
    {
        self.0
    }

    /// The seconds past the minute.
    pub fn second(&self) -> (s: u32)
        ensures
            s == self.0 % 60,
    {
        self.0 % 60
    }

    /// The whole time in minutes, rounded down.
    pub fn minutes(&self) -> (m: u32)
        ensures
            m == self.0 / 60,
    {
        self.0 / 60
    }

    /// The minutes past the hour.
    pub fn minute(&self) -> (m: u32)
        ensures
            m == (self.0 / 60) % 60,
    {
        (self.0 / 60) % 60
    }

    /// The whole time in hours, rounded down.
    pub fn hours(&self) -> (h: u32)
        ensures
            h == self.0 / 3600,
    {
        self.0 / 3600
    }

    /// The hour of the day.
    pub fn hour(&self) -> (h: u32)
        ensures
            h == (self.0 / 3600) % 24,
            h < 24,
    {
        (self.0 / 3600) % 24
    }
}

/// The length of an interval, in metres.
#[derive(Debug, Clone, Copy, PartialEq, Eq, Structural)]
pub struct IntervalLength(pub u32);

/// A length or coordinate of the drawing, in whole drawing units.
#[derive(Debug, Clone, Copy, PartialEq, Eq, Structural)]
pub struct GraphLength(pub i64);

/// A point of the drawing: the coordinate along the time axis, then the
/// coordinate along the distance axis.
#[derive(Debug, Clone, Copy, PartialEq, Eq, Structural)]
pub struct Node(pub GraphLength, pub GraphLength);

/// A drawing length as a coordinate holds it: the length itself, or the
/// largest coordinate there is.
pub open spec fn capped_length(n: int) -> i64 {
    if n <= i64::MAX {
        n as i64
    } else {
        i64::MAX
    }
}

impl Time {
    /// The drawing length of the time at `unit_length` for an hour, rounded
    /// down. The time axis is linear under every mode.
    pub open spec fn spec_to_graph_length(&self, unit_length: GraphLength) -> int {
        (unit_length.0 * self.0) / 3600
    }

    /// The drawing length of the time at `unit_length` for an hour; the
    /// largest coordinate where the length no longer fits.
    pub fn to_graph_length(&self, unit_length: GraphLength, scale_mode: ScaleMode) -> (r:
        GraphLength)
        requires
            unit_length.0 >= 0,
        ensures
            r.0 == capped_length(self.spec_to_graph_length(unit_length)),
    {
        assert(0 <= unit_length.0 * self.0 <= 0x7FFF_FFFF_FFFF_FFFF * 0xFFFF_FFFF)
            by (nonlinear_arith)
            requires
                0 <= unit_length.0 <= 0x7FFF_FFFF_FFFF_FFFF,
                0 <= self.0 <= 0xFFFF_FFFF,
        ;
        let product: u128 = (unit_length.0 as u128) * (self.0 as u128);
        let length: u128 = product / 3600;
        if length > 0x7FFF_FFFF_FFFF_FFFF {
            GraphLength(0x7FFF_FFFF_FFFF_FFFF)
        } else {
            GraphLength(length as i64)
        }
    }
}

impl IntervalLength {
    /// The length in whole kilometres.
    pub fn kilometers(&self) -> (km: u32)
        ensures
            km == self.0 / 1000,
    {
        self.0 / 1000
    }

    /// The drawing length of the interval under a scale mode, `unit_length`
    /// being the scale of the axis; the largest coordinate where the length
    /// no longer fits.
    pub fn to_graph_length(&self, unit_length: GraphLength, scale_mode: ScaleMode) -> (r:
        GraphLength)
        requires
            unit_length.0 >= 0,
        ensures
            r.0 == capped_length(
                scaled_length(scale_mode, self.0 as nat, unit_length.0 as nat) as int,
            ),
    {
        let scaled: u64 = match_and_scale(&scale_mode, self.0 as u64, unit_length.0 as u64);
        if scaled > 0x7FFF_FFFF_FFFF_FFFF {
            GraphLength(0x7FFF_FFFF_FFFF_FFFF)
        } else {
            GraphLength(scaled as i64)
        }
    }
}

/// The six ways a raw magnitude is turned into a drawing length.
#[derive(Debug, Clone, Copy, PartialEq, Eq, Structural)]
pub enum ScaleMode {
    Linear,
    Logarithmic,
    Square,
    SquareRoot,
    Uniform,
    Auto,
}

} // verus!
