//! Differential correctness testing for filesystem implementations.
//!
//! The library generates bounded random file operations, applies each
//! operation to a twin pair of files, and checks that both sides are
//! observationally equivalent: same success or failure classification,
//! same returned values, same bytes. A verified in-memory file model
//! gives the operations their exact meaning; the comparator, the
//! sequence runner, the shrinking machinery and the regression
//! replayer are specified and proved against that model.

pub mod bounded;
pub mod commands;
pub mod driver;
pub mod model;
pub mod outcome;
pub mod session;
pub mod test_path;
mod rng;
