//! Broker statement reading driven by a declarative section registry, and portfolio
//! performance measured by deposit emulation.
pub mod emulator;
pub mod registry;
pub mod performance;
pub mod statement;
pub mod bcs;
pub mod report;
