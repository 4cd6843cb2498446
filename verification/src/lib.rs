//! An interpreter core for arithmetic over the integers modulo 11 and over
//! pairs of such integers that multiply like complex numbers.

pub mod error;
pub mod ev_num;
pub mod ev_vec;
pub mod evaluator;
pub mod expr;
pub mod parser;
pub mod text;

pub use error::Error;
pub use ev_num::EvNum;
pub use ev_vec::EvVec;
pub use evaluator::evaluate;
pub use expr::{EValue, Expr};
pub use parser::{parse, ParseError};
