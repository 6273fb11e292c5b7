//! The failures that parsing, lookup and conversion report.

use crate::datatypes::Dimension;
use vstd::prelude::*;

verus! {

/// What went wrong.
#[derive(Debug)]
pub enum UnitError {
    /// The lookup store answered with something other than what was asked.
    Query(String),
    /// The catalog holds no unit of this name.
    BadUnit(String),
    /// Two units do not measure the same thing; holds the dimension of each.
    BadDimension(Dimension, Dimension),
    /// A unit expression that cannot be read: one that holds an unsafe
    /// character, one with the exponent symbol missing or repeated or with
    /// no name before it, or one whose exponent is no number.
    ParseError(String),
    /// Anything else.
    Custom(String),
}

/// A failure as a plain value.
pub enum UnitErrorView {
    Query(Seq<char>),
    BadUnit(Seq<char>),
    BadDimension(Seq<int>, Seq<int>),
    ParseError(Seq<char>),
    Custom(Seq<char>),
}

impl View for UnitError {
    type V = UnitErrorView;

    open spec fn view(&self) -> UnitErrorView {
        match self {
            UnitError::Query(s) => UnitErrorView::Query(s@),
            UnitError::BadUnit(s) => UnitErrorView::BadUnit(s@),
            UnitError::BadDimension(a, b) => UnitErrorView::BadDimension(a@, b@),
            UnitError::ParseError(s) => UnitErrorView::ParseError(s@),
            UnitError::Custom(s) => UnitErrorView::Custom(s@),
        }
    }
}

impl UnitError {
    /// The text of the failure.
    pub open spec fn message_spec(self) -> Seq<char> {
        match self {
            UnitError::Query(s) => "Error in query: "@ + s@,
            UnitError::BadUnit(s) => "Unit doesn´t exist : "@ + s@,
            UnitError::BadDimension(_, _) => "Dimensions mismtach"@,
            UnitError::ParseError(s) => "Impossible to parse "@ + s@,
            UnitError::Custom(s) => s@,
        }
    }

    /// The text of the failure.
    pub fn message(&self) -> (r: String)
        ensures
            r@ == self.message_spec(),
    {
        match self {
            UnitError::Query(s) => String::from_str("Error in query: ").concat(s.as_str()),
            UnitError::BadUnit(s) => String::from_str("Unit doesn´t exist : ").concat(s.as_str()),
            UnitError::BadDimension(_, _) => String::from_str("Dimensions mismtach"),
            UnitError::ParseError(s) => String::from_str("Impossible to parse ").concat(s.as_str()),
            UnitError::Custom(s) => s.clone(),
        }
    }
}

impl Clone for UnitError {
    fn clone(&self) -> (r: Self)
        ensures
            r@ == self@,
    {
        match self {
            UnitError::Query(s) => UnitError::Query(s.clone()),
            UnitError::BadUnit(s) => UnitError::BadUnit(s.clone()),
            UnitError::BadDimension(a, b) => UnitError::BadDimension(*a, *b),
            UnitError::ParseError(s) => UnitError::ParseError(s.clone()),
            UnitError::Custom(s) => UnitError::Custom(s.clone()),
        }
    }
}

} // verus!
