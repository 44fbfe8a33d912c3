//! What holds of the library as a whole.
//!
//! Every function here states a law over the models that the contracts of the
//! executable functions speak of, and proves it.

pub mod clusters;
pub mod drawings;
pub mod forms;
pub mod graph;
pub mod reading;
pub mod surroundings;
pub mod texts;
pub mod units;
pub mod values;
pub mod watches;
