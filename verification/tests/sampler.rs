//! Admission-control tests: the acceptance decision, the retry fallback and
//! the append-then-evict commit step.

use hevn::sampler::{admit_reading, commit_reading, sampler_step, within_envelope, RETRY_LIMIT};
use hevn::{EnvData, StoredData};

fn reading(temperature: i16, humidity: u16) -> EnvData {
    EnvData::new("cellar".to_string(), temperature, humidity)
}

#[test]
fn envelope_accepts_within_tolerance() {
    let expected = reading(200, 400);
    assert!(within_envelope(&expected, 20, 40, 215, 435));
    assert!(within_envelope(&expected, 20, 40, 185, 365));
    // at the boundary the reading still passes.
    assert!(within_envelope(&expected, 20, 40, 220, 440));
}

#[test]
fn envelope_rejects_outside_tolerance() {
    let expected = reading(200, 400);
    assert!(!within_envelope(&expected, 20, 40, 221, 400));
    assert!(!within_envelope(&expected, 20, 40, 200, 441));
    assert!(!within_envelope(&expected, 20, 40, 179, 400));
}

#[test]
fn admission_disabled_without_snapshot() {
    // no prediction or no envelope: every reading is accepted.
    assert!(admit_reading(&None, &None, 999, 999, 0));
    assert!(admit_reading(&Some(reading(0, 0)), &None, 999, 999, 0));
    assert!(admit_reading(&None, &Some((1, 1)), 999, 999, 0));
}

#[test]
fn admission_filters_with_snapshot() {
    let expected = Some(reading(200, 400));
    let envelope = Some((20i64, 40i64));
    // within tolerance: accepted on the first attempt.
    assert!(admit_reading(&expected, &envelope, 210, 410, 0));
    // outside tolerance: rejected while retry budget remains.
    assert!(!admit_reading(&expected, &envelope, 300, 410, 0));
    assert!(!admit_reading(&expected, &envelope, 300, 410, RETRY_LIMIT - 1));
    // budget spent: admitted as-is.
    assert!(admit_reading(&expected, &envelope, 300, 410, RETRY_LIMIT));
}

#[test]
fn commit_appends_and_returns_sample() {
    let mut w = StoredData::new(5);
    let stored = commit_reading(&mut w, "cellar".to_string(), 123, 456);
    assert_eq!(stored, reading(123, 456));
    assert_eq!(w.len(), 1);
}

#[test]
fn commit_evicts_oldest_over_capacity() {
    let mut w = StoredData::new(1);
    commit_reading(&mut w, "cellar".to_string(), 1, 1);
    commit_reading(&mut w, "cellar".to_string(), 2, 2);
    assert_eq!(w.len(), 1);
    let (_, survivor) = w.remove().unwrap();
    assert_eq!(survivor, reading(2, 2));
}

#[test]
fn capacity_never_exceeded_by_commits() {
    let mut w = StoredData::new(3);
    for k in 0..10i16 {
        commit_reading(&mut w, "cellar".to_string(), k, k as u16);
        assert!(w.len() <= 3);
    }
}

#[test]
fn sampler_step_accepts_first_good_reading() {
    let mut w = StoredData::new(5);
    for i in 0..5u64 {
        w.add_at(i, reading(100, 200));
    }
    let expected = w.predict(5);
    let envelope = w.get_expected_deviation(2);
    assert!(expected.is_some() && envelope.is_some());
    // constant window predicts (100, 200) with tolerances (20, 40).
    let room = "cellar".to_string();
    let got = sampler_step(&mut w, &expected, &envelope, &room, 110, 220, 0);
    assert_eq!(got, Some(reading(110, 220)));
    assert_eq!(w.len(), 5);
}

#[test]
fn sampler_step_rejects_then_falls_through() {
    let mut w = StoredData::new(5);
    for i in 0..5u64 {
        w.add_at(i, reading(100, 200));
    }
    let expected = w.predict(5);
    let envelope = w.get_expected_deviation(2);
    let room = "cellar".to_string();
    // implausible reading: rejected, window untouched.
    let rejected = sampler_step(&mut w, &expected, &envelope, &room, 999, 999, 0);
    assert_eq!(rejected, None);
    assert_eq!(w.len(), 5);
    // the retry loop keeps rejecting it until the budget is spent.
    let mut tries = 0u32;
    let accepted = loop {
        match sampler_step(&mut w, &expected, &envelope, &room, 999, 999, tries) {
            Some(data) => break data,
            None => tries += 1,
        }
    };
    assert_eq!(tries, RETRY_LIMIT);
    assert_eq!(accepted, reading(999, 999));
    assert_eq!(w.len(), 5);
}

#[test]
fn sampler_step_unfiltered_before_warm_up() {
    let mut w = StoredData::new(5);
    let room = "cellar".to_string();
    let got = sampler_step(&mut w, &None, &None, &room, 42, 84, 0);
    assert_eq!(got, Some(reading(42, 84)));
    assert_eq!(w.len(), 1);
}
