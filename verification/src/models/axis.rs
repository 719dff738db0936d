use crate::models::ladder::MAX_EXTENT;
use crate::types::Time;
use vstd::prelude::*;

verus! {

/// The time axis of a drawing: the visible window and, for each hour of the
/// day, how wide a second of that hour is drawn.
pub struct TimeAxis {
    /// The start of the window, in seconds of the day.
    pub begin: u32,
    /// The length of the window in seconds, from 1 to a whole day.
    pub duration: u32,
    /// The scale factor of each of the 24 hours of the day.
    pub factors: Vec<u64>,
    /// The drawing length of one hour at factor 1.
    pub unit_length: u64,
}

/// The hour of the day in which the second `t` lies, `t` counted from
/// midnight and possibly past the end of the day.
pub open spec fn hour_of(t: int) -> int {
    (t / 3600) % 24
}

/// The length of the window from `begin` to `end`, both seconds of the
/// day: a window whose end is not after its start runs over midnight, and
/// one that ends where it starts is a whole day.
pub open spec fn window_duration(begin: int, end: int) -> int {
    if end > begin {
        end - begin
    } else {
        end + 86400 - begin
    }
}

/// The first `elapsed` seconds of the window, each weighted by the factor of
/// its hour.
pub open spec fn weighted_seconds(begin: int, factors: Seq<u64>, elapsed: int) -> nat
    decreases elapsed,
{
    if elapsed <= 0 {
        0
    } else {
        weighted_seconds(begin, factors, elapsed - 1) + factors[hour_of(begin + elapsed - 1)] as nat
    }
}

/// Where the instant `elapsed` seconds into the window lies on the axis: the
/// weighted seconds up to it, at `unit` for 3600 of them, rounded down.
pub open spec fn axis_position(begin: int, factors: Seq<u64>, unit: int, elapsed: int) -> int {
    (unit * weighted_seconds(begin, factors, elapsed)) / 3600
}

/// Over a run of seconds that lie in one hour the weight grows by the
/// factor of that hour for each second.
pub proof fn lemma_weight_of_run(begin: int, factors: Seq<u64>, elapsed: int, n: int, h: int)
    requires
        0 <= begin,
        0 <= elapsed,
        0 <= n,
        (begin + elapsed) % 3600 + n <= 3600,
        h == hour_of(begin + elapsed),
    ensures
        weighted_seconds(begin, factors, elapsed + n) == weighted_seconds(begin, factors, elapsed)
            + n * factors[h],
    decreases n,
{
    if n > 0 {
        lemma_weight_of_run(begin, factors, elapsed, n - 1, h);
        assert((begin + elapsed + (n - 1)) / 3600 == (begin + elapsed) / 3600);
        assert(n * factors[h] == (n - 1) * factors[h] + factors[h]) by (nonlinear_arith);
    } else {
        assert(0 * factors[h] == 0);
    }
}

/// The weight does not decrease with the time elapsed.
pub proof fn lemma_weight_monotonic(begin: int, factors: Seq<u64>, a: int, b: int)
    requires
        a <= b,
    ensures
        weighted_seconds(begin, factors, a) <= weighted_seconds(begin, factors, b),
    decreases b - a,
{
    if a < b {
        lemma_weight_monotonic(begin, factors, a, b - 1);
        if b <= 0 {
        }
    }
}

/// The position on the axis does not decrease with the time elapsed.
pub proof fn lemma_position_monotonic(begin: int, factors: Seq<u64>, unit: int, a: int, b: int)
    requires
        a <= b,
        0 <= unit,
    ensures
        0 <= axis_position(begin, factors, unit, a) <= axis_position(begin, factors, unit, b),
{
    lemma_weight_monotonic(begin, factors, a, b);
    let wa = weighted_seconds(begin, factors, a);
    let wb = weighted_seconds(begin, factors, b);
    assert(0 <= unit * wa <= unit * wb) by (nonlinear_arith)
        requires
            0 <= unit,
            0 <= wa <= wb,
    ;
}

/// The weighted seconds of the first `elapsed` seconds of a window that
/// starts at `begin`.
fn weight(begin: u32, factors: &Vec<u64>, elapsed: u32) -> (w: u128)
    requires
        begin < 86400,
        elapsed <= 86400,
        factors@.len() == 24,
    ensures
        w == weighted_seconds(begin as int, factors@, elapsed as int),
        w <= elapsed * 0xFFFF_FFFF_FFFF_FFFF,
{
    let mut acc: u128 = 0;
    let mut done: u32 = 0;
    assert(0 * 0xFFFF_FFFF_FFFF_FFFF == 0);
    while done < elapsed
        invariant
            begin < 86400,
            done <= elapsed <= 86400,
            factors@.len() == 24,
            acc == weighted_seconds(begin as int, factors@, done as int),
            acc <= done * 0xFFFF_FFFF_FFFF_FFFF,
        decreases elapsed - done,
    {
        let cur: u32 = begin + done;
        let hour: u32 = (cur / 3600) % 24;
        let to_boundary: u32 = 3600 - cur % 3600;
        let left: u32 = elapsed - done;
        let step: u32 = if left < to_boundary {
            left
        } else {
            to_boundary
        };
        let factor: u64 = factors[hour as usize];
        proof {
            lemma_weight_of_run(begin as int, factors@, done as int, step as int, hour as int);
            assert(step * factor <= step * 0xFFFF_FFFF_FFFF_FFFF) by (nonlinear_arith)
                requires
                    0 <= step,
                    0 <= factor <= 0xFFFF_FFFF_FFFF_FFFF,
            ;
            assert((done + step) * 0xFFFF_FFFF_FFFF_FFFF == done * 0xFFFF_FFFF_FFFF_FFFF + step
                * 0xFFFF_FFFF_FFFF_FFFF) by (nonlinear_arith);
            assert((done + step) * 0xFFFF_FFFF_FFFF_FFFF <= 86400 * 0xFFFF_FFFF_FFFF_FFFF)
                by (nonlinear_arith)
                requires
                    done + step <= 86400,
            ;
        }
        acc = acc + (step as u128) * (factor as u128);
        done = done + step;
    }
    acc
}

impl TimeAxis {
    /// The axis has a window of 1 second to a whole day that starts within
    /// the day, a factor for each hour, and no position beyond the largest
    /// coordinate.
    pub open spec fn wf(&self) -> bool {
        &&& self.begin < 86400
        &&& 1 <= self.duration <= 86400
        &&& self.factors@.len() == 24
        &&& self.spec_position(self.duration as int) <= MAX_EXTENT
    }

    /// Where the instant `elapsed` seconds into the window lies on the axis.
    pub open spec fn spec_position(&self, elapsed: int) -> int {
        axis_position(self.begin as int, self.factors@, self.unit_length as int, elapsed)
    }

    /// The axis of the window from `begin` to `end`, both taken as times of
    /// the day, under the given factors. There is none where the end of the
    /// window would lie beyond the largest coordinate.
    pub fn new(begin: Time, end: Time, factors: Vec<u64>, unit_length: u64) -> (r: Option<
        TimeAxis,
    >)
        requires
            factors@.len() == 24,
        ensures
            r.is_some() <==> axis_position(
                (begin.0 % 86400) as int,
                factors@,
                unit_length as int,
                window_duration((begin.0 % 86400) as int, (end.0 % 86400) as int),
            ) <= MAX_EXTENT,
            match r {
                Some(axis) => {
                    &&& axis.wf()
                    &&& axis.begin == begin.0 % 86400
                    &&& axis.duration == window_duration(
                        (begin.0 % 86400) as int,
                        (end.0 % 86400) as int,
                    )
                    &&& axis.factors == factors
                    &&& axis.unit_length == unit_length
                },
                None => true,
            },
    {
        let b: u32 = begin.seconds() % 86400;
        let e: u32 = end.seconds() % 86400;
        let duration: u32 = if e > b {
            e - b
        } else {
            e + 86400 - b
        };
        let total: u128 = weight(b, &factors, duration);
        assert(duration * 0xFFFF_FFFF_FFFF_FFFF <= 86400 * 0xFFFF_FFFF_FFFF_FFFF)
            by (nonlinear_arith)
            requires
                duration <= 86400,
        ;
        let limit: u128 = (MAX_EXTENT as u128) * 3600 + 3599;
        let fits: bool = if total == 0 {
            assert(unit_length * 0 == 0);
            true
        } else {
            let q: u128 = limit / total;
            if unit_length as u128 > q {
                assert(unit_length * total > limit) by (nonlinear_arith)
                    requires
                        unit_length >= q + 1,
                        q == limit / total,
                        total > 0,
                ;
                false
            } else {
                assert(unit_length * total <= limit) by (nonlinear_arith)
                    requires
                        0 <= unit_length <= q,
                        q == limit / total,
                        total > 0,
                ;
                true
            }
        };
        assert(fits <==> (unit_length * total) / 3600 <= MAX_EXTENT);
        if fits {
            Some(TimeAxis { begin: b, duration, factors, unit_length })
        } else {
            None
        }
    }

    /// Where the instant `elapsed` seconds into the window lies on the axis.
    pub fn position(&self, elapsed: u32) -> (x: u64)
        requires
            self.wf(),
            elapsed <= self.duration,
        ensures
            x == self.spec_position(elapsed as int),
            x <= MAX_EXTENT,
    {
        let w: u128 = weight(self.begin, &self.factors, elapsed);
        proof {
            lemma_weight_monotonic(
                self.begin as int,
                self.factors@,
                elapsed as int,
                self.duration as int,
            );
            lemma_position_monotonic(
                self.begin as int,
                self.factors@,
                self.unit_length as int,
                elapsed as int,
                self.duration as int,
            );
            let total = weighted_seconds(self.begin as int, self.factors@, self.duration as int);
            assert(self.unit_length * w <= self.unit_length * total) by (nonlinear_arith)
                requires
                    0 <= self.unit_length,
                    0 <= w <= total,
            ;
            assert(self.unit_length * total < (MAX_EXTENT + 1) * 3600);
        }
        (((self.unit_length as u128) * w) / 3600) as u64
    }

    /// The width of the whole window on the axis.
    pub fn width(&self) -> (x: u64)
        requires
            self.wf(),
        ensures
            x == self.spec_position(self.duration as int),
            x <= MAX_EXTENT,
    {
        self.position(self.duration)
    }
}

} // verus!
