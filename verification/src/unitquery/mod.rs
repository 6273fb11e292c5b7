//! The catalog of units: what the factory and the converter ask of it.

use crate::datatypes::{Dimension, ElementUnit};
use crate::decimal::Decimal;
use crate::error::{UnitError, UnitErrorView};
use vstd::prelude::*;

pub mod sql;
pub mod table;

pub use table::{DimensionRow, TableUnitQuery, UnitRow};

verus! {

/// The texts of `names` as plain values.
pub open spec fn names_view(names: Seq<String>) -> Seq<Seq<char>> {
    Seq::new(names.len(), |i: int| names[i]@)
}

/// A catalog of units, asked by name.
///
/// A catalog does not change while it is borrowed: what one of its methods
/// answers is fixed by the catalog and the name of the unit, and is what the
/// spec function beside it says. Each catalog says in these spec functions
/// what it holds; what is proved of the factory and the converter is proved
/// of every catalog.
pub trait UnitQuery {
    /// The factor by which a magnitude in the unit `name` is multiplied to
    /// express it in the reference unit of its dimension.
    spec fn conversion_factor_of(&self, name: Seq<char>) -> Result<Decimal, UnitErrorView>;

    /// The names of all units of the catalog, in its order.
    spec fn unit_list(&self) -> Result<Seq<Seq<char>>, UnitErrorView>;

    /// The name and the vector of the dimension of the unit `name`.
    spec fn dimension_of(&self, name: Seq<char>) -> Result<(Seq<char>, Seq<int>), UnitErrorView>;

    /// The name of the dimension of the unit `name`.
    spec fn dimension_name_of(&self, name: Seq<char>) -> Result<Seq<char>, UnitErrorView>;

    /// The conversion factor of a unit, found by the unit's name.
    fn get_conversion_factor(&self, unit: &ElementUnit) -> (r: Result<Decimal, UnitError>)
        ensures
            match r {
                Ok(factor) => self.conversion_factor_of(unit@.name) == Ok::<Decimal, UnitErrorView>(
                    factor,
                ),
                Err(e) => self.conversion_factor_of(unit@.name) == Err::<Decimal, UnitErrorView>(
                    e@,
                ),
            },
    ;

    /// The names of all units. A catalog without units answers with a
    /// failure.
    fn get_unit_list(&self) -> (r: Result<Vec<String>, UnitError>)
        ensures
            match r {
                Ok(names) => names@.len() > 0 && self.unit_list() == Ok::<
                    Seq<Seq<char>>,
                    UnitErrorView,
                >(names_view(names@)),
                Err(e) => self.unit_list() == Err::<Seq<Seq<char>>, UnitErrorView>(e@),
            },
    ;

    /// The dimension of a unit, found by the unit's name alone.
    fn get_dimension(&self, unit: &ElementUnit) -> (r: Result<(String, Dimension), UnitError>)
        ensures
            match r {
                Ok((name, dimension)) => self.dimension_of(unit@.name) == Ok::<
                    (Seq<char>, Seq<int>),
                    UnitErrorView,
                >((name@, dimension@)),
                Err(e) => self.dimension_of(unit@.name) == Err::<
                    (Seq<char>, Seq<int>),
                    UnitErrorView,
                >(e@),
            },
    ;

    /// The name of the dimension of a unit, found by the unit's name.
    fn get_dimension_name(&self, p_unit: &ElementUnit) -> (r: Result<String, UnitError>)
        ensures
            match r {
                Ok(name) => self.dimension_name_of(p_unit@.name) == Ok::<Seq<char>, UnitErrorView>(
                    name@,
                ),
                Err(e) => self.dimension_name_of(p_unit@.name) == Err::<Seq<char>, UnitErrorView>(
                    e@,
                ),
            },
    ;
}

} // verus!
