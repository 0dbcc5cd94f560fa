//! A shared injector queue exercised by producers and consumers, with the
//! per-item stamping, the completion rule and a post-run delivery audit
//! stated and proved.

pub mod item;
pub mod clock;
pub mod queue;
pub mod harness;
pub mod audit;
