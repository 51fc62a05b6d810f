//! Telemetry window tests: FIFO behaviour, warm-up gating, prediction and
//! the deviation envelope.

use hevn::window::TIME_SPAN_MAX;
use hevn::{EnvData, StoredData};

fn reading(temperature: i16, humidity: u16) -> EnvData {
    EnvData::new("office".to_string(), temperature, humidity)
}

#[test]
fn add_then_remove_round_trips() {
    let mut w = StoredData::new(5);
    let sample = reading(215, 401);
    w.add_at(0, sample.clone());
    assert_eq!(w.len(), 1);
    assert_eq!(w.remove(), Some((0, sample)));
    assert_eq!(w.len(), 0);
}

#[test]
fn add_with_clock_round_trips() {
    let mut w = StoredData::new(5);
    let sample = reading(-37, 555);
    w.add(sample.clone());
    assert_eq!(w.len(), 1);
    let (_, stored) = w.remove().unwrap();
    assert_eq!(stored, sample);
    assert_eq!(w.remove(), None);
}

#[test]
fn remove_pops_oldest_first() {
    let mut w = StoredData::new(5);
    w.add_at(0, reading(1, 1));
    w.add_at(1, reading(2, 2));
    assert_eq!(w.remove(), Some((0, reading(1, 1))));
    assert_eq!(w.remove(), Some((1, reading(2, 2))));
}

#[test]
fn capacity_getter() {
    let w = StoredData::new(7);
    assert_eq!(w.get_lim(), 7);
    assert_eq!(w.len(), 0);
}

#[test]
fn predict_absent_when_not_warmed_up() {
    let mut w = StoredData::new(5);
    w.add_at(0, reading(100, 200));
    assert_eq!(w.predict(1), None);
}

#[test]
fn deviation_absent_when_not_warmed_up() {
    let mut w = StoredData::new(5);
    w.add_at(0, reading(100, 200));
    assert_eq!(w.get_expected_deviation(2), None);
}

#[test]
fn deviation_absent_with_single_slot_window() {
    // warmed up, but one reading has no sample variance.
    let mut w = StoredData::new(1);
    w.add_at(0, reading(5, 5));
    assert_eq!(w.get_expected_deviation(2), None);
}

#[test]
fn predict_extrapolates_linear_trend() {
    let mut w = StoredData::new(5);
    let temps: [i16; 5] = [0, 2, 4, 6, 8];
    let humis: [u16; 5] = [0, 1, 2, 3, 4];
    for i in 0..5u64 {
        w.add_at(i, reading(temps[i as usize], humis[i as usize]));
    }
    let p = w.predict(5).unwrap();
    assert_eq!(p.temperature, 10);
    assert_eq!(p.humidity, 5);
    assert_eq!(p.room, "office");
}

#[test]
fn predict_extrapolates_decreasing_trend() {
    let mut w = StoredData::new(5);
    let temps: [i16; 5] = [9, 8, 7, 6, 5];
    for i in 0..5u64 {
        w.add_at(i, reading(temps[i as usize], 5));
    }
    let p = w.predict(5).unwrap();
    assert_eq!(p.temperature, 4);
    assert_eq!(p.humidity, 5);
}

#[test]
fn predict_constant_window_returns_constant() {
    let mut w = StoredData::new(5);
    for i in 0..5u64 {
        w.add_at(i, reading(230, 370));
    }
    let p = w.predict(9).unwrap();
    assert_eq!(p.temperature, 230);
    assert_eq!(p.humidity, 370);
}

#[test]
fn predict_constant_window_at_irregular_times() {
    // identical readings at uneven capture times still extrapolate to the
    // constant exactly.
    let mut w = StoredData::new(5);
    for t in [0u64, 1, 2, 3, 5] {
        w.add_at(t, reading(1000, 500));
    }
    let p = w.predict(4).unwrap();
    assert_eq!(p.temperature, 1000);
    assert_eq!(p.humidity, 500);
}

#[test]
fn predict_extrapolates_at_second_cadence() {
    // samples a full second (1000 ms) apart, the pipeline's real pace.
    let mut w = StoredData::new(5);
    let temps: [i16; 5] = [0, 2, 4, 6, 8];
    let humis: [u16; 5] = [0, 1, 2, 3, 4];
    for i in 0..5u64 {
        w.add_at(i * 1000, reading(temps[i as usize], humis[i as usize]));
    }
    let p = w.predict(5000).unwrap();
    assert_eq!(p.temperature, 10);
    assert_eq!(p.humidity, 5);
    // and a falling trend at the same cadence.
    let mut v = StoredData::new(5);
    let falling: [i16; 5] = [9, 8, 7, 6, 5];
    for i in 0..5u64 {
        v.add_at(i * 1000, reading(falling[i as usize], 7));
    }
    let q = v.predict(5000).unwrap();
    assert_eq!(q.temperature, 4);
    assert_eq!(q.humidity, 7);
}

#[test]
fn deviation_floors_for_constant_window() {
    let mut w = StoredData::new(5);
    for i in 0..5u64 {
        w.add_at(i, reading(230, 370));
    }
    // zero variance on both series: the floors 10 and 20, scaled by 2.
    assert_eq!(w.get_expected_deviation(2), Some((20, 40)));
}

#[test]
fn deviation_exact_values() {
    let mut w = StoredData::new(5);
    let temps: [i16; 5] = [0, 2, 4, 6, 8];
    let humis: [u16; 5] = [0, 1, 2, 3, 4];
    for i in 0..5u64 {
        w.add_at(i, reading(temps[i as usize], humis[i as usize]));
    }
    // temperature variance 10 (at the floor already), humidity variance 2
    // floored to 20; both scaled by 2.
    assert_eq!(w.get_expected_deviation(2), Some((20, 40)));
}

#[test]
fn predict_absent_outside_time_span() {
    let mut w = StoredData::new(2);
    w.add_at(0, reading(1, 1));
    w.add_at(TIME_SPAN_MAX + 1, reading(2, 2));
    assert_eq!(w.predict(TIME_SPAN_MAX + 2), None);
}

#[test]
fn predict_absent_for_faraway_timestamp() {
    let mut w = StoredData::new(2);
    w.add_at(0, reading(1, 1));
    w.add_at(1, reading(2, 2));
    assert_eq!(w.predict(TIME_SPAN_MAX + 1), None);
}

#[test]
fn predict_absent_when_capture_times_identical() {
    // all samples at the same capture time: degenerate regression.
    let mut w = StoredData::new(3);
    for _ in 0..3 {
        w.add_at(4, reading(10, 10));
    }
    assert_eq!(w.predict(4), None);
}

#[test]
fn predict_saturates_extreme_trends() {
    // temperature climbs 10000 tenths per tick: the extrapolation leaves
    // the representable range and saturates at the top.
    let mut w = StoredData::new(4);
    let temps: [i16; 4] = [0, 10000, 20000, 30000];
    for i in 0..4u64 {
        w.add_at(i, reading(temps[i as usize], 5));
    }
    let p = w.predict(4).unwrap();
    assert_eq!(p.temperature, 32767);
    assert_eq!(p.humidity, 5);
    // humidity falls steeply: far enough out the extrapolation drops below
    // zero and saturates there.
    let mut v = StoredData::new(4);
    let humis: [u16; 4] = [30000, 20000, 10000, 0];
    for i in 0..4u64 {
        v.add_at(i, reading(5, humis[i as usize]));
    }
    let q = v.predict(8).unwrap();
    assert_eq!(q.temperature, 5);
    assert_eq!(q.humidity, 0);
}
