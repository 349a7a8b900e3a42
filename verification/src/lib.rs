//! Conversions between the CUDA minifloat types and everything else, as CUDA source text.
//!
//! [`convert::special_cast`] emits the statements that convert one kernel variable into another
//! when an fp4, fp6 or fp8 type is involved on either side.

pub mod convert;
pub mod element;
pub mod item;
pub mod laws;
pub mod plan;
pub mod text;
pub mod variable;
