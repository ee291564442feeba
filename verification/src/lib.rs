//! A cycle-accurate simulator of Tomasulo's algorithm: a small register
//! machine whose instructions flow through issue, execute and write-back
//! stages across reservation stations, load buffers and shared function
//! units, with data hazards resolved by tag-based renaming over a common
//! data bus.

pub mod inst;
pub mod parse;
pub mod laws;
pub mod model;
pub mod sim;
pub mod snap;
pub mod station;

pub use inst::BinOp;
pub use inst::Inst;
pub use sim::Tomasulo;
pub use snap::Snapshot;
pub use station::Slot;
