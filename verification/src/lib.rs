//! A status-line generator core: a fixed, ordered set of polled modules
//! (a clock and a battery gauge), a change-detection pass, and a render
//! pass that joins every module's cached text into one output line.

pub mod battery;
pub mod clock;
pub mod driver;
