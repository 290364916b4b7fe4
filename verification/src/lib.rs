//! Native backend core of a desktop application that launches and supervises
//! external simulation processes: a "world" simulator and a configurable
//! number of agent processes.
//!
//! The crate verifies the supervision core: building the command line for each
//! process kind, deriving string identifiers from operating-system process
//! ids, the registry that tracks running processes, and the relay state
//! machine that turns a child's stdio stream into presentation-layer events.
//! The surrounding shell performs the actual process and file I/O and feeds
//! plain values into these functions.

pub mod decimal;
pub mod launcher;
pub mod listing;
pub mod paths;
pub mod registry;
pub mod relay;
