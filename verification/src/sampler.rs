//! Admission control for freshly read samples: the decision and commit
//! steps of the acquisition loop.  The service layer snapshots the
//! prediction and the envelope, reads the raw sensor, asks `sampler_step`
//! whether to accept the reading, and repeats with an increased attempt
//! count while readings are rejected.

use vstd::prelude::*;

verus! {

use vstd::math::abs;
use crate::util::EnvData;
use crate::window::{StoredData, commit_seq};

/// Number of rejected readings after which the sampler stops filtering and
/// admits the next reading as it is, so persistent sensor drift cannot block
/// the read endpoint forever.
pub const RETRY_LIMIT: u32 = 16;

/// Whether a raw reading lies within the admission envelope around the
/// expected sample.
pub open spec fn within_envelope_spec(
    expected: EnvData,
    dev_temp: i64,
    dev_humi: i64,
    temperature: i16,
    humidity: u16,
) -> bool {
    abs(expected.temperature - temperature) <= dev_temp && abs(expected.humidity - humidity)
        <= dev_humi
}

/// Whether a raw reading lies within the admission envelope.
pub fn within_envelope(
    expected: &EnvData,
    dev_temp: i64,
    dev_humi: i64,
    temperature: i16,
    humidity: u16,
) -> (r: bool)
    ensures
        r == within_envelope_spec(*expected, dev_temp, dev_humi, temperature, humidity),
{
    let dt: i64 = expected.temperature as i64 - temperature as i64;
    let dh: i64 = expected.humidity as i64 - humidity as i64;
    let adt: i64 = if dt < 0 {
        -dt
    } else {
        dt
    };
    let adh: i64 = if dh < 0 {
        -dh
    } else {
        dh
    };
    adt <= dev_temp && adh <= dev_humi
}

/// Whether a reading is admitted: always, when the prediction or the
/// envelope is unavailable (filtering disabled until the window warms up);
/// otherwise when the reading is within the envelope, or the retry budget is
/// spent.
pub open spec fn admit_spec(
    expected: Option<EnvData>,
    envelope: Option<(i64, i64)>,
    temperature: i16,
    humidity: u16,
    tries: u32,
) -> bool {
    match (expected, envelope) {
        (Some(e), Some(d)) => within_envelope_spec(e, d.0, d.1, temperature, humidity) || tries
            >= RETRY_LIMIT,
        _ => true,
    }
}

/// The admission decision for one raw reading.
pub fn admit_reading(
    expected: &Option<EnvData>,
    envelope: &Option<(i64, i64)>,
    temperature: i16,
    humidity: u16,
    tries: u32,
) -> (r: bool)
    ensures
        r == admit_spec(*expected, *envelope, temperature, humidity, tries),
{
    match (expected, envelope) {
        (Some(e), Some(d)) => within_envelope(e, d.0, d.1, temperature, humidity) || tries
            >= RETRY_LIMIT,
        _ => true,
    }
}

/// Store an accepted reading: append it stamped with the current elapsed
/// time, then evict the oldest reading once the window exceeds its capacity,
/// and hand the stored sample back.
pub fn commit_reading(window: &mut StoredData, room: String, temperature: i16, humidity: u16) -> (r:
    EnvData)
    ensures
        r == (EnvData { room, temperature, humidity }),
        exists|t: u64| final(window)@ == commit_seq(old(window)@, old(window).lim(), t, r),
        old(window)@.len() <= old(window).lim() ==> final(window)@.len() <= old(window).lim(),
        final(window).lim() == old(window).lim(),
        final(window).epoch() == old(window).epoch(),
{
    let data = EnvData::new(room, temperature, humidity);
    let stored = data.duplicate();
    window.add(stored);
    let ghost mid = *window;
    if window.len() > window.get_lim() {
        let _evicted = window.remove();
    }
    proof {
        let t = choose|t: u64| mid@ == old(window)@.push((t, data));
        assert(window@ == commit_seq(old(window)@, old(window).lim(), t, data));
    }
    data
}

/// One acquisition attempt: admit the raw reading against the snapshot and,
/// when admitted, commit it to the window.  Hands back the stored sample on
/// acceptance, and no value when the reading is rejected — the caller then
/// reads the sensor again with an increased attempt count.
pub fn sampler_step(
    window: &mut StoredData,
    expected: &Option<EnvData>,
    envelope: &Option<(i64, i64)>,
    room: &String,
    temperature: i16,
    humidity: u16,
    tries: u32,
) -> (r: Option<EnvData>)
    ensures
        r is Some <==> admit_spec(*expected, *envelope, temperature, humidity, tries),
        r is Some ==> r->0 == (EnvData { room: *room, temperature, humidity }),
        r is Some ==> exists|t: u64|
            final(window)@ == commit_seq(old(window)@, old(window).lim(), t, r->0),
        r is None ==> *final(window) == *old(window),
        old(window)@.len() <= old(window).lim() ==> final(window)@.len() <= old(window).lim(),
        final(window).lim() == old(window).lim(),
        final(window).epoch() == old(window).epoch(),
{
    if admit_reading(expected, envelope, temperature, humidity, tries) {
        Some(commit_reading(window, room.clone(), temperature, humidity))
    } else {
        None
    }
}

/// Capacity invariant: the append-then-evict step of a committed reading
/// leaves a window that held at most its capacity again at most at its
/// capacity, whatever sample arrives and whenever it was captured.  The only
/// longer state is the transient one inside the step itself, between the
/// append and the evict.
pub proof fn lemma_commit_preserves_capacity(
    s: Seq<(u64, EnvData)>,
    lim: usize,
    t: u64,
    data: EnvData,
)
    requires
        s.len() <= lim,
    ensures
        commit_seq(s, lim, t, data).len() <= lim,
{
}

/// The stored history after a whole sequence of committed readings, each
/// applied with the append-then-evict step.
pub open spec fn commit_all(
    s: Seq<(u64, EnvData)>,
    lim: usize,
    ops: Seq<(u64, EnvData)>,
) -> Seq<(u64, EnvData)>
    decreases ops.len(),
{
    if ops.len() == 0 {
        s
    } else {
        commit_seq(commit_all(s, lim, ops.drop_last()), lim, ops.last().0, ops.last().1)
    }
}

/// Capacity invariant over whole histories: after any sequence of committed
/// readings, a window that began within its capacity still holds at most its
/// capacity.
pub proof fn lemma_commit_all_preserves_capacity(
    s: Seq<(u64, EnvData)>,
    lim: usize,
    ops: Seq<(u64, EnvData)>,
)
    requires
        s.len() <= lim,
    ensures
        commit_all(s, lim, ops).len() <= lim,
    decreases ops.len(),
{
    if ops.len() > 0 {
        lemma_commit_all_preserves_capacity(s, lim, ops.drop_last());
        lemma_commit_preserves_capacity(
            commit_all(s, lim, ops.drop_last()),
            lim,
            ops.last().0,
            ops.last().1,
        );
    }
}

/// Admission control: with prediction and envelope present, a reading within
/// tolerance is admitted at any attempt (the first in particular), a reading
/// outside tolerance is rejected while retry budget remains, and once the
/// budget is spent every reading is admitted; without a prediction or an
/// envelope (the window not yet warmed up) every reading is admitted.
pub proof fn lemma_admission_control(
    expected: EnvData,
    dev_temp: i64,
    dev_humi: i64,
    temperature: i16,
    humidity: u16,
    tries: u32,
)
    ensures
        within_envelope_spec(expected, dev_temp, dev_humi, temperature, humidity) ==> admit_spec(
            Some(expected),
            Some((dev_temp, dev_humi)),
            temperature,
            humidity,
            tries,
        ),
        !within_envelope_spec(expected, dev_temp, dev_humi, temperature, humidity) && tries
            < RETRY_LIMIT ==> !admit_spec(
            Some(expected),
            Some((dev_temp, dev_humi)),
            temperature,
            humidity,
            tries,
        ),
        tries >= RETRY_LIMIT ==> admit_spec(
            Some(expected),
            Some((dev_temp, dev_humi)),
            temperature,
            humidity,
            tries,
        ),
        admit_spec(None, Some((dev_temp, dev_humi)), temperature, humidity, tries),
        admit_spec(Some(expected), None, temperature, humidity, tries),
        admit_spec(None, None, temperature, humidity, tries),
{
}

} // verus!
