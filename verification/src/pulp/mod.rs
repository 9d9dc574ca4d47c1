//! An earlier, event-driven iteration of the pipeline: two byte-level
//! scanning passes and a paragraph-grouping pass over their events.

pub mod first_pass;
pub mod pass_1;
pub mod pass_2;

pub use first_pass::FirstPassNode;
pub use first_pass::PulpFirstPass;
pub use pass_1::FirstPass;
pub use pass_1::FirstPassEvent;
pub use pass_2::SecondPass;
pub use pass_2::SecondPassEvent;
