//! Environmental-telemetry core: a bounded sliding window of timestamped
//! sensor samples, integer least-squares trend fitting over that window, and
//! admission control that gates freshly read samples against the fitted
//! trend's deviation envelope.

pub mod appliance;
pub mod sampler;
pub mod stats;
pub mod util;
pub mod window;

pub use crate::appliance::MyCollector;
pub use crate::stats::{linear_regression, mean, std_dev};
pub use crate::util::{Appliences, EnvData, SmartInfo};
pub use crate::window::StoredData;
