//! Verified core of the rocust load-testing library: result aggregation,
//! per-user statistics, the user spawn schedule, and the decision taken on
//! every event that the running users report.

pub mod controller;
pub mod events;
pub mod logging;
pub mod messages;
pub mod results;
pub mod runtime;
pub mod spawn_coordinator;
pub mod test_state;
pub mod traits;
pub mod user;
pub mod utils;

pub use controller::Context;
