//! Availability tracking for a fixed set of game servers: the registry of
//! known servers, the interpretation of each probe's outcome, and the
//! probing schedule as a state machine driven from outside.

pub mod wire;
pub mod registry;
pub mod probe;
pub mod prober;
pub mod coordinator;

pub use coordinator::Coordinator;
pub use probe::{classify, report, Finding, ProbeOutcome};
pub use prober::{Action, Event, Prober, CHECK_INTERVAL_SECS};
pub use registry::Registry;
pub use wire::{Content, Message, Phase, ServerAddress};
