//! What holds of the crate as a whole.
pub mod choices;
pub mod eggs;
pub mod fields;
pub mod layout;
pub mod members;
pub mod metadata;
pub mod names;
pub mod payloads;
pub mod reading;
pub mod runs;
pub mod stamping;
pub mod stamps;
pub mod steps;
pub mod texts;
pub mod wheels;
