//! Shared data types of the telemetry pipeline.

use vstd::prelude::*;

verus! {

/// The kinds of appliance the pipeline currently speaks to.
pub enum Appliences {
    ShellyS1,
    Collector,
}

/// Identification that every smart appliance offers.
pub trait SmartInfo {
    fn app_type(&self) -> Appliences;
}

/// One immutable environmental reading: the room it was taken in, the
/// temperature in tenths of a degree and the relative humidity in tenths of
/// a percent.  Equality is structural.
#[derive(Debug, Clone, PartialEq, Eq)]
pub struct EnvData {
    pub room: String,
    pub temperature: i16,
    pub humidity: u16,
}

impl EnvData {
    pub fn new(room: String, temperature: i16, humidity: u16) -> (r: Self)
        ensures
            r == (EnvData { room, temperature, humidity }),
    {
        EnvData { room, temperature, humidity }
    }

    /// A field-for-field copy whose value contracts can speak about.
    pub fn duplicate(&self) -> (r: Self)
        ensures
            r == *self,
    {
        EnvData { room: self.room.clone(), temperature: self.temperature, humidity: self.humidity }
    }
}

} // verus!
