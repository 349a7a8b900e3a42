//! What holds of every conversion.

pub mod assignments;
pub mod meaning;
pub mod path;
pub mod reads;
pub mod spelling;
pub mod steps;
pub mod temporaries;
pub mod texts;
pub mod types;
