//! The telemetry window: a capacity-bounded FIFO history of timestamped
//! readings, with the derived queries the predictor needs.  Capture times are
//! milliseconds of a monotonic clock since the window's own epoch, fixed when
//! the window is created.

use vstd::prelude::*;

verus! {

use std::collections::VecDeque;
use std::time::Instant;
use crate::util::EnvData;
use crate::stats::{
    STAT_LEN_MAX,
    REG_VAL_MAX,
    mean_of,
    variance_of,
    reg_den_of,
    extrapolate_at,
    mean,
    std_dev,
    sum_exact,
    sum_products_exact,
    div_trunc,
    lemma_mean_of_bounds,
    lemma_mean_of_constant,
    lemma_sq_dev_sum_of_bounds,
    lemma_sq_dev_sum_of_constant,
    lemma_div_toward_zero_bound,
    lemma_extrapolate_constant,
    lemma_reg_sums_bounds,
    sq_dev_sum_of,
};
use vstd::arithmetic::div_mod::lemma_div_of0;
use vstd::math::abs;

/// Declares `std::time::Instant` as an opaque type, so a window can hold
/// its epoch; nothing is assumed about the values.
#[verifier::external_type_specification]
#[verifier::external_body]
pub struct ExInstant(Instant);

/// Relies on `std::time::Instant::now`: an opaque reading of the monotonic
/// clock, taken once as a new window's epoch.
#[verifier::external_body]
fn instant_now() -> Instant {
    Instant::now()
}

/// Relies on `std::time::Instant::elapsed` and `Duration::as_millis`: how
/// many milliseconds the monotonic clock has advanced past `epoch`.  The
/// value depends on the time of the call, so nothing is promised of it.
#[verifier::external_body]
fn elapsed_millis(epoch: &Instant) -> u64 {
    let ms = epoch.elapsed().as_millis();
    if ms > u64::MAX as u128 {
        u64::MAX
    } else {
        ms as u64
    }
}

/// Largest capacity a window can be created with; one more element (the
/// tolerated transient overshoot) still fits what the statistics accept.
pub const LIM_MAX: usize = 0x3FF;

/// Floor for the temperature sample variance (tenths of a degree) before it
/// is scaled into a tolerance, so a temporarily flat signal cannot make the
/// admission gate unusably tight.
pub const TEMP_DEV_FLOOR: i64 = 10;

/// Floor for the humidity sample variance (tenths of a percent) before it is
/// scaled into a tolerance.
pub const HUMI_DEV_FLOOR: i64 = 20;

/// Largest accepted deviation sensitivity factor.
pub const FACTOR_MAX: i64 = 0x10_0000;

/// The temperatures of the stored readings, oldest first.
pub open spec fn temps_of(s: Seq<(u64, EnvData)>) -> Seq<i64> {
    s.map_values(|p: (u64, EnvData)| p.1.temperature as i64)
}

/// The humidities of the stored readings, oldest first.
pub open spec fn humis_of(s: Seq<(u64, EnvData)>) -> Seq<i64> {
    s.map_values(|p: (u64, EnvData)| p.1.humidity as i64)
}

/// Sample variance of the stored temperatures around their mean.
pub open spec fn temp_variance_of(s: Seq<(u64, EnvData)>) -> int {
    variance_of(temps_of(s), mean_of(temps_of(s)) as i64)
}

/// Sample variance of the stored humidities around their mean.
pub open spec fn humi_variance_of(s: Seq<(u64, EnvData)>) -> int {
    variance_of(humis_of(s), mean_of(humis_of(s)) as i64)
}

/// The temperature admission tolerance: the temperature sample variance,
/// floored at `TEMP_DEV_FLOOR`, scaled by the sensitivity factor.
pub open spec fn temp_tolerance_of(s: Seq<(u64, EnvData)>, factor: i64) -> int {
    (if temp_variance_of(s) < TEMP_DEV_FLOOR {
        TEMP_DEV_FLOOR as int
    } else {
        temp_variance_of(s)
    }) * factor
}

/// The humidity admission tolerance: the humidity sample variance, floored
/// at `HUMI_DEV_FLOOR`, scaled by the sensitivity factor.
pub open spec fn humi_tolerance_of(s: Seq<(u64, EnvData)>, factor: i64) -> int {
    (if humi_variance_of(s) < HUMI_DEV_FLOOR {
        HUMI_DEV_FLOOR as int
    } else {
        humi_variance_of(s)
    }) * factor
}

/// Largest capture-time spread (milliseconds past the oldest stored capture
/// time) and prediction horizon the regression accepts: about twelve days,
/// far beyond any live window.  Beyond it the window is degenerate and no
/// prediction is offered.
pub const TIME_SPAN_MAX: u64 = 0x4000_0000;

/// Every capture time, and the query time, lies at or after the oldest
/// capture time and within `TIME_SPAN_MAX` of it.
pub open spec fn span_ok(s: Seq<(u64, EnvData)>, timestamp: u64) -> bool {
    &&& forall|i: int|
        0 <= i < s.len() ==> s[0].0 <= (#[trigger] s[i]).0 && s[i].0 - s[0].0 <= TIME_SPAN_MAX
    &&& s[0].0 <= timestamp
    &&& timestamp - s[0].0 <= TIME_SPAN_MAX
}

/// Capture times rebased to the oldest stored capture time.
pub open spec fn rel_times_of(s: Seq<(u64, EnvData)>) -> Seq<i64> {
    Seq::new(s.len(), |i: int| (s[i].0 - s[0].0) as i64)
}

/// An extrapolated temperature, saturated into the representable range.
pub open spec fn clamp_temperature(v: int) -> i16 {
    if v < -32768 {
        (-32768) as i16
    } else if v > 32767 {
        32767 as i16
    } else {
        v as i16
    }
}

/// An extrapolated humidity, saturated into the representable range.
pub open spec fn clamp_humidity(v: int) -> u16 {
    if v < 0 {
        0 as u16
    } else if v > 65535 {
        65535 as u16
    } else {
        v as u16
    }
}

/// The sample `predict` extrapolates at `timestamp`: temperature and
/// humidity each follow their own least-squares line over the rebased
/// capture times, evaluated exactly at the rebased query time with one
/// final truncation, under the room label of the oldest stored reading.
/// No value when the window is not warmed up (or over-long), the capture
/// times or the query time fall outside the representable span, or the
/// regression is degenerate (zero denominator, e.g. all capture times
/// identical).
pub open spec fn predict_spec(s: Seq<(u64, EnvData)>, lim: usize, timestamp: u64) -> Option<
    EnvData,
> {
    if s.len() < lim || s.len() > STAT_LEN_MAX || !span_ok(s, timestamp) {
        None
    } else if reg_den_of(rel_times_of(s)) == 0 {
        None
    } else {
        let t_rel = timestamp - s[0].0;
        Some(
            EnvData {
                room: s[0].1.room,
                temperature: clamp_temperature(
                    extrapolate_at(rel_times_of(s), temps_of(s), t_rel),
                ),
                humidity: clamp_humidity(extrapolate_at(rel_times_of(s), humis_of(s), t_rel)),
            },
        )
    }
}

/// The stored history after a committed reading: the new sample appended at
/// the tail, then the oldest reading evicted when the length now exceeds the
/// capacity.
pub open spec fn commit_seq(s: Seq<(u64, EnvData)>, lim: usize, t: u64, data: EnvData) -> Seq<
    (u64, EnvData),
> {
    let s2 = s.push((t, data));
    if s2.len() > lim {
        s2.subrange(1, s2.len() as int)
    } else {
        s2
    }
}

/// Capacity-bounded FIFO history of timestamped readings, oldest first.
/// `add` itself does not enforce the capacity: the caller appends and then
/// evicts the oldest element when the length exceeds the limit, so a reader
/// between the two steps may observe one element too many.
pub struct StoredData {
    s_data: VecDeque<(u64, EnvData)>,
    lim: usize,
    p_start: Instant,
}

impl View for StoredData {
    type V = Seq<(u64, EnvData)>;

    closed spec fn view(&self) -> Seq<(u64, EnvData)> {
        self.s_data@
    }
}

impl StoredData {
    /// The configured capacity.
    pub closed spec fn lim(&self) -> usize {
        self.lim
    }

    /// The epoch instant fixed at creation.
    pub closed spec fn epoch(&self) -> Instant {
        self.p_start
    }

    /// A window as `new` builds it: capacity at least one and small enough
    /// that the statistics accept a full window plus the transient overshoot.
    pub open spec fn wf(&self) -> bool {
        1 <= self.lim() <= LIM_MAX
    }

    /// An empty window with the given capacity, its epoch fixed now.
    pub fn new(lim: usize) -> (r: Self)
        requires
            1 <= lim <= LIM_MAX,
        ensures
            r@ == Seq::<(u64, EnvData)>::empty(),
            r.lim() == lim,
            r.wf(),
    {
        StoredData { s_data: VecDeque::new(), lim, p_start: instant_now() }
    }

    /// Milliseconds elapsed since this window's epoch.  The value depends on
    /// the time of the call, so nothing is promised of it.
    pub fn get_timestamp(&self) -> u64 {
        elapsed_millis(&self.p_start)
    }

    /// Append a reading carrying the given capture time.  No capacity
    /// enforcement happens here: that is the caller's add-then-evict
    /// protocol.
    pub fn add_at(&mut self, timestamp: u64, data: EnvData)
        ensures
            final(self)@ == old(self)@.push((timestamp, data)),
            final(self).lim() == old(self).lim(),
            final(self).epoch() == old(self).epoch(),
    {
        self.s_data.push_back((timestamp, data));
    }

    /// Append a reading stamped with the current elapsed time.
    pub fn add(&mut self, data: EnvData)
        ensures
            exists|t: u64| final(self)@ == old(self)@.push((t, data)),
            final(self)@.len() == old(self)@.len() + 1,
            final(self).lim() == old(self).lim(),
            final(self).epoch() == old(self).epoch(),
    {
        let t = self.get_timestamp();
        self.add_at(t, data);
    }

    /// Pop and return the oldest timestamped reading, or no value when the
    /// window is empty.
    pub fn remove(&mut self) -> (r: Option<(u64, EnvData)>)
        ensures
            old(self)@.len() == 0 ==> r is None && final(self)@ == old(self)@,
            old(self)@.len() > 0 ==> r == Some(old(self)@[0]) && final(self)@ == old(self)@
                .subrange(1, old(self)@.len() as int),
            final(self).lim() == old(self).lim(),
            final(self).epoch() == old(self).epoch(),
    {
        self.s_data.pop_front()
    }

    /// How many readings the window currently holds.
    pub fn len(&self) -> (r: usize)
        ensures
            r == self@.len(),
    {
        self.s_data.len()
    }

    /// The configured capacity.
    pub fn get_lim(&self) -> (r: usize)
        ensures
            r == self.lim(),
    {
        self.lim
    }

    /// The admission envelope: sample variance of the stored temperatures
    /// and humidities, each floored at its configured minimum, scaled by the
    /// sensitivity factor.  No value until the window is warmed up (holds at
    /// least its capacity) with at least two readings, or for a history
    /// longer than the statistics accept — unreachable under the
    /// append-then-evict protocol, which keeps the length within the
    /// capacity.
    pub fn get_expected_deviation(&self, factor: i64) -> (r: Option<(i64, i64)>)
        requires
            0 <= factor <= FACTOR_MAX,
        ensures
            r is Some <==> (self.lim() <= self@.len() && 2 <= self@.len() && self@.len()
                <= STAT_LEN_MAX),
            r is Some ==> (r->0).0 == temp_tolerance_of(self@, factor),
            r is Some ==> (r->0).1 == humi_tolerance_of(self@, factor),
    {
        let n: usize = self.s_data.len();
        if n < self.lim {
            return None;
        }
        if n > STAT_LEN_MAX {
            return None;
        }
        let mut temps: Vec<i64> = Vec::new();
        let mut humis: Vec<i64> = Vec::new();
        let mut i: usize = 0;
        while i < n
            invariant
                n == self@.len() <= STAT_LEN_MAX,
                i <= n,
                temps@.len() == i,
                humis@.len() == i,
                forall|j: int| 0 <= j < i ==> #[trigger] temps@[j] == self@[j].1.temperature
                    as i64,
                forall|j: int| 0 <= j < i ==> #[trigger] humis@[j] == self@[j].1.humidity as i64,
            decreases n - i,
        {
            temps.push(self.s_data[i].1.temperature as i64);
            humis.push(self.s_data[i].1.humidity as i64);
            i = i + 1;
        }
        proof {
            assert(temps@ =~= temps_of(self@));
            assert(humis@ =~= humis_of(self@));
            assert forall|j: int| 0 <= j < temps@.len() implies -0x8000 <= #[trigger] temps@[j]
                <= 0x8000 by {
                assert(temps@[j] == self@[j].1.temperature as i64);
            }
            assert forall|j: int| 0 <= j < humis@.len() implies -0x1_0000 <= #[trigger] humis@[j]
                <= 0x1_0000 by {
                assert(humis@[j] == self@[j].1.humidity as i64);
            }
        }
        let t_mean: i64 = match mean(temps.as_slice()) {
            Some(v) => v,
            None => {
                return None;
            },
        };
        let h_mean: i64 = match mean(humis.as_slice()) {
            Some(v) => v,
            None => {
                return None;
            },
        };
        proof {
            lemma_mean_of_bounds(temps@, 0x8000);
            lemma_mean_of_bounds(humis@, 0x1_0000);
        }
        let t_var: i64 = match std_dev(temps.as_slice(), t_mean) {
            Some(v) => v,
            None => {
                return None;
            },
        };
        let h_var: i64 = match std_dev(humis.as_slice(), h_mean) {
            Some(v) => v,
            None => {
                return None;
            },
        };
        let t_dev: i64 = if t_var < TEMP_DEV_FLOOR {
            TEMP_DEV_FLOOR
        } else {
            t_var
        };
        let h_dev: i64 = if h_var < HUMI_DEV_FLOOR {
            HUMI_DEV_FLOOR
        } else {
            h_var
        };
        proof {
            let nn = temps@.len() as int;
            lemma_sq_dev_sum_of_bounds(temps@, t_mean, 0x8000);
            lemma_sq_dev_sum_of_bounds(humis@, h_mean, 0x1_0000);
            assert(abs(nn - 1) as int == nn - 1);
            assert(0 <= sq_dev_sum_of(temps@, t_mean) <= nn * 0x1_0000_0000);
            assert(0 <= sq_dev_sum_of(humis@, h_mean) <= nn * 0x4_0000_0000);
            lemma_div_toward_zero_bound(sq_dev_sum_of(temps@, t_mean), nn - 1, 0x2_0000_0000);
            lemma_div_toward_zero_bound(sq_dev_sum_of(humis@, h_mean), nn - 1, 0x8_0000_0000);
            assert(0 <= t_dev * factor <= 0x20_0000_0000_0000) by (nonlinear_arith)
                requires
                    0 <= t_dev <= 0x2_0000_0000,
                    0 <= factor <= 0x10_0000,
            ;
            assert(0 <= h_dev * factor <= 0x80_0000_0000_0000) by (nonlinear_arith)
                requires
                    0 <= h_dev <= 0x8_0000_0000,
                    0 <= factor <= 0x10_0000,
            ;
        }
        Some((t_dev * factor, h_dev * factor))
    }

    /// Extrapolate temperature and humidity at `timestamp` by least-squares
    /// regression over the stored history, as `predict_spec` states.
    pub fn predict(&self, timestamp: u64) -> (r: Option<EnvData>)
        requires
            self.wf(),
        ensures
            r == predict_spec(self@, self.lim(), timestamp),
    {
        let n: usize = self.s_data.len();
        if n < self.lim {
            return None;
        }
        if n > STAT_LEN_MAX {
            return None;
        }
        let t0: u64 = self.s_data[0].0;
        if timestamp < t0 {
            proof {
                assert(!span_ok(self@, timestamp));
            }
            return None;
        }
        if timestamp - t0 > TIME_SPAN_MAX {
            proof {
                assert(!span_ok(self@, timestamp));
            }
            return None;
        }
        let mut xs: Vec<i64> = Vec::new();
        let mut temps: Vec<i64> = Vec::new();
        let mut humis: Vec<i64> = Vec::new();
        let mut i: usize = 0;
        while i < n
            invariant
                1 <= n == self@.len() <= STAT_LEN_MAX,
                i <= n,
                t0 == self@[0].0,
                xs@.len() == i,
                temps@.len() == i,
                humis@.len() == i,
                forall|j: int|
                    0 <= j < i ==> self@[0].0 <= (#[trigger] self@[j]).0 && self@[j].0
                        - self@[0].0 <= TIME_SPAN_MAX,
                forall|j: int| 0 <= j < i ==> #[trigger] xs@[j] == (self@[j].0 - self@[0].0)
                    as i64,
                forall|j: int| 0 <= j < i ==> #[trigger] temps@[j] == self@[j].1.temperature
                    as i64,
                forall|j: int| 0 <= j < i ==> #[trigger] humis@[j] == self@[j].1.humidity as i64,
            decreases n - i,
        {
            let ti: u64 = self.s_data[i].0;
            if ti < t0 {
                proof {
                    assert(!(self@[0].0 <= self@[i as int].0));
                    assert(!span_ok(self@, timestamp));
                }
                return None;
            }
            let d: u64 = ti - t0;
            if d > TIME_SPAN_MAX {
                proof {
                    assert(self@[i as int].0 - self@[0].0 > TIME_SPAN_MAX);
                    assert(!span_ok(self@, timestamp));
                }
                return None;
            }
            xs.push(d as i64);
            temps.push(self.s_data[i].1.temperature as i64);
            humis.push(self.s_data[i].1.humidity as i64);
            i = i + 1;
        }
        proof {
            assert(span_ok(self@, timestamp));
            assert(xs@ =~= rel_times_of(self@));
            assert(temps@ =~= temps_of(self@));
            assert(humis@ =~= humis_of(self@));
            assert forall|j: int| 0 <= j < xs@.len() implies -REG_VAL_MAX <= #[trigger] xs@[j]
                <= REG_VAL_MAX by {
                assert(self@[0].0 <= self@[j].0 && self@[j].0 - self@[0].0 <= TIME_SPAN_MAX);
            }
            assert forall|j: int| 0 <= j < temps@.len() implies -REG_VAL_MAX
                <= #[trigger] temps@[j] <= REG_VAL_MAX by {
                assert(temps@[j] == self@[j].1.temperature as i64);
            }
            assert forall|j: int| 0 <= j < humis@.len() implies -REG_VAL_MAX
                <= #[trigger] humis@[j] <= REG_VAL_MAX by {
                assert(humis@[j] == self@[j].1.humidity as i64);
            }
        }
        let sx: i128 = sum_exact(xs.as_slice());
        let sxx: i128 = sum_products_exact(xs.as_slice(), xs.as_slice());
        let nn: i128 = n as i128;
        proof {
            lemma_reg_sums_bounds(xs@, xs@);
            assert(-0x1_0000_0000_0000_0000_0000 <= nn * sxx <= 0x1_0000_0000_0000_0000_0000
                && -0x1_0000_0000_0000_0000_0000 <= sx * sx <= 0x1_0000_0000_0000_0000_0000)
                by (nonlinear_arith)
                requires
                    0 < nn <= 0x400,
                    -0x40_0000_0000_0000_0000 <= sxx <= 0x40_0000_0000_0000_0000,
                    -0x100_0000_0000 <= sx <= 0x100_0000_0000,
            ;
        }
        let den: i128 = nn * sxx - sx * sx;
        if den == 0 {
            return None;
        }
        let sy_t: i128 = sum_exact(temps.as_slice());
        let sxy_t: i128 = sum_products_exact(xs.as_slice(), temps.as_slice());
        let sy_h: i128 = sum_exact(humis.as_slice());
        let sxy_h: i128 = sum_products_exact(xs.as_slice(), humis.as_slice());
        let t_rel: i128 = (timestamp - t0) as i128;
        proof {
            lemma_reg_sums_bounds(xs@, temps@);
            lemma_reg_sums_bounds(xs@, humis@);
            assert(-0x1_0000_0000_0000_0000_0000 <= nn * sxy_t <= 0x1_0000_0000_0000_0000_0000
                && -0x1_0000_0000_0000_0000_0000 <= sx * sy_t <= 0x1_0000_0000_0000_0000_0000
                && -0x1_0000_0000_0000_0000_0000 <= nn * sxy_h <= 0x1_0000_0000_0000_0000_0000
                && -0x1_0000_0000_0000_0000_0000 <= sx * sy_h <= 0x1_0000_0000_0000_0000_0000
                && -0x800_0000_0000_0000_0000_0000 <= nn * den <= 0x800_0000_0000_0000_0000_0000
                && nn * den != 0
                && 0 <= nn * t_rel <= 0x100_0000_0000) by (nonlinear_arith)
                requires
                    0 < nn <= 0x400,
                    den != 0,
                    0 <= t_rel <= 0x4000_0000,
                    -0x2_0000_0000_0000_0000_0000 <= den <= 0x2_0000_0000_0000_0000_0000,
                    -0x40_0000_0000_0000_0000 <= sxy_t <= 0x40_0000_0000_0000_0000,
                    -0x40_0000_0000_0000_0000 <= sxy_h <= 0x40_0000_0000_0000_0000,
                    -0x100_0000_0000 <= sx <= 0x100_0000_0000,
                    -0x100_0000_0000 <= sy_t <= 0x100_0000_0000,
                    -0x100_0000_0000 <= sy_h <= 0x100_0000_0000,
            ;
        }
        let num_t: i128 = nn * sxy_t - sx * sy_t;
        let num_h: i128 = nn * sxy_h - sx * sy_h;
        let pden: i128 = nn * den;
        let shift: i128 = nn * t_rel - sx;
        proof {
            assert(-0x400_0000_0000_0000_0000_0000_0000_0000 <= sy_t * den
                <= 0x400_0000_0000_0000_0000_0000_0000_0000
                && -0x400_0000_0000_0000_0000_0000_0000_0000 <= num_t * shift
                <= 0x400_0000_0000_0000_0000_0000_0000_0000
                && -0x400_0000_0000_0000_0000_0000_0000_0000 <= sy_h * den
                <= 0x400_0000_0000_0000_0000_0000_0000_0000
                && -0x400_0000_0000_0000_0000_0000_0000_0000 <= num_h * shift
                <= 0x400_0000_0000_0000_0000_0000_0000_0000) by (nonlinear_arith)
                requires
                    -0x2_0000_0000_0000_0000_0000 <= den <= 0x2_0000_0000_0000_0000_0000,
                    -0x2_0000_0000_0000_0000_0000 <= num_t <= 0x2_0000_0000_0000_0000_0000,
                    -0x2_0000_0000_0000_0000_0000 <= num_h <= 0x2_0000_0000_0000_0000_0000,
                    -0x200_0000_0000 <= shift <= 0x200_0000_0000,
                    -0x100_0000_0000 <= sy_t <= 0x100_0000_0000,
                    -0x100_0000_0000 <= sy_h <= 0x100_0000_0000,
            ;
        }
        let pt: i128 = div_trunc(sy_t * den + num_t * shift, pden);
        let ph: i128 = div_trunc(sy_h * den + num_h * shift, pden);
        let temperature: i16 = if pt < -32768 {
            -32768
        } else if pt > 32767 {
            32767
        } else {
            pt as i16
        };
        let humidity: u16 = if ph < 0 {
            0
        } else if ph > 65535 {
            65535
        } else {
            ph as u16
        };
        let room: String = self.s_data[0].1.room.clone();
        Some(EnvData::new(room, temperature, humidity))
    }
}

/// A window of identical readings has zero sample dispersion, so the
/// admission envelope is exactly the configured floors scaled by the
/// sensitivity factor, whatever the capture times.
pub proof fn lemma_deviation_floors_for_constant(s: Seq<(u64, EnvData)>, factor: i64)
    requires
        2 <= s.len(),
        forall|i: int| 0 <= i < s.len() ==> (#[trigger] s[i]).1 == s[0].1,
    ensures
        temp_tolerance_of(s, factor) == TEMP_DEV_FLOOR * factor,
        humi_tolerance_of(s, factor) == HUMI_DEV_FLOOR * factor,
{
    let ts = temps_of(s);
    let hs = humis_of(s);
    let ct: i64 = s[0].1.temperature as i64;
    let ch: i64 = s[0].1.humidity as i64;
    assert forall|i: int| 0 <= i < ts.len() implies #[trigger] ts[i] == ct by {
        assert(s[i].1 == s[0].1);
        assert(ts[i] == s[i].1.temperature as i64);
    }
    assert forall|i: int| 0 <= i < hs.len() implies #[trigger] hs[i] == ch by {
        assert(s[i].1 == s[0].1);
        assert(hs[i] == s[i].1.humidity as i64);
    }
    lemma_mean_of_constant(ts, ct);
    lemma_mean_of_constant(hs, ch);
    lemma_sq_dev_sum_of_constant(ts, ct);
    lemma_sq_dev_sum_of_constant(hs, ch);
    lemma_div_of0(abs(ts.len() as int - 1) as int);
    lemma_div_of0(abs(hs.len() as int - 1) as int);
    assert(temp_variance_of(s) == 0);
    assert(humi_variance_of(s) == 0);
}

/// A window of identical readings predicts exactly that reading at every
/// query time inside the representable span, whenever the capture times are
/// not degenerate.
pub proof fn lemma_predict_constant_window(s: Seq<(u64, EnvData)>, lim: usize, timestamp: u64)
    requires
        lim <= s.len() <= STAT_LEN_MAX,
        1 <= s.len(),
        span_ok(s, timestamp),
        reg_den_of(rel_times_of(s)) != 0,
        forall|i: int| 0 <= i < s.len() ==> (#[trigger] s[i]).1 == s[0].1,
    ensures
        predict_spec(s, lim, timestamp) == Some(s[0].1),
{
    let xs = rel_times_of(s);
    let ts = temps_of(s);
    let hs = humis_of(s);
    let ct: i64 = s[0].1.temperature as i64;
    let ch: i64 = s[0].1.humidity as i64;
    assert forall|i: int| 0 <= i < xs.len() implies -REG_VAL_MAX <= #[trigger] xs[i]
        <= REG_VAL_MAX by {
        assert(s[0].0 <= s[i].0 && s[i].0 - s[0].0 <= TIME_SPAN_MAX);
        assert(xs[i] == (s[i].0 - s[0].0) as i64);
    }
    assert forall|i: int| 0 <= i < ts.len() implies #[trigger] ts[i] == ct by {
        assert(s[i].1 == s[0].1);
        assert(ts[i] == s[i].1.temperature as i64);
    }
    assert forall|i: int| 0 <= i < hs.len() implies #[trigger] hs[i] == ch by {
        assert(s[i].1 == s[0].1);
        assert(hs[i] == s[i].1.humidity as i64);
    }
    lemma_extrapolate_constant(xs, ts, ct, timestamp - s[0].0);
    lemma_extrapolate_constant(xs, hs, ch, timestamp - s[0].0);
    assert(clamp_temperature(ct as int) == s[0].1.temperature);
    assert(clamp_humidity(ch as int) == s[0].1.humidity);
    assert((EnvData {
        room: s[0].1.room,
        temperature: s[0].1.temperature,
        humidity: s[0].1.humidity,
    }) == s[0].1);
}

} // verus!
