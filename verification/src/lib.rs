//! Unit algebra: reading unit expressions such as `kg^1*m^1*s^-2`,
//! resolving their atoms against a catalog of units, folding the dimensions
//! of the atoms into a vector of seven exponents, and converting a value
//! between two units of one dimension.
//!
//! Every number is an exact decimal number. A conversion multiplies by
//! powers with real exponents, which have no exact value: the magnitude of a
//! converted value therefore holds the powers themselves, and rounding is
//! left to whoever evaluates them.

pub mod converter;
pub mod datatypes;
pub mod decimal;
pub mod error;
pub mod factory;
pub mod laws;
pub mod parser;
pub mod safety;
pub mod text;
pub mod unitquery;

pub use converter::{MainConverter, UnitConverter, UnitMatch};
pub use datatypes::{Dimension, ElementUnit, Magnitude, Power, Unit, Value};
pub use decimal::Decimal;
pub use error::UnitError;
pub use factory::{MainUnitFactory, UnitFactory};
pub use parser::{InlineUnitParser, UnitParser};
