//! A catalog held in memory.

use crate::datatypes::{Dimension, ElementUnit};
use crate::decimal::Decimal;
use crate::error::{UnitError, UnitErrorView};
use crate::unitquery::{names_view, UnitQuery};
use vstd::prelude::*;

verus! {

/// One unit of a catalog: its name, the name of its dimension, and its
/// conversion factor.
pub struct UnitRow {
    pub name: String,
    pub dimension: String,
    pub factor: Decimal,
}

/// One dimension of a catalog: its name and its vector.
pub struct DimensionRow {
    pub name: String,
    pub vector: Dimension,
}

/// A catalog held in memory, as two tables. Where a name stands in several
/// rows of a table, the first of them counts.
pub struct TableUnitQuery {
    pub units: Vec<UnitRow>,
    pub dimensions: Vec<DimensionRow>,
}

/// The first row from `from` on that holds the unit `name`.
pub open spec fn first_unit_row(units: Seq<UnitRow>, name: Seq<char>, from: int) -> Option<int>
    decreases units.len() - from,
{
    if from < 0 || from >= units.len() {
        None
    } else if units[from].name@ == name {
        Some(from)
    } else {
        first_unit_row(units, name, from + 1)
    }
}

/// The first row from `from` on that holds the dimension `name`.
pub open spec fn first_dimension_row(
    dimensions: Seq<DimensionRow>,
    name: Seq<char>,
    from: int,
) -> Option<int>
    decreases dimensions.len() - from,
{
    if from < 0 || from >= dimensions.len() {
        None
    } else if dimensions[from].name@ == name {
        Some(from)
    } else {
        first_dimension_row(dimensions, name, from + 1)
    }
}

impl TableUnitQuery {
    /// A catalog of the given rows.
    pub fn new(units: Vec<UnitRow>, dimensions: Vec<DimensionRow>) -> (r: Self)
        ensures
            r.units == units,
            r.dimensions == dimensions,
    {
        Self { units, dimensions }
    }

    /// The index of the first row that holds the unit `name`.
    pub fn find_unit(&self, name: &String) -> (r: Option<usize>)
        ensures
            match r {
                Some(i) => first_unit_row(self.units@, name@, 0) == Some(i as int) && i
                    < self.units.len(),
                None => first_unit_row(self.units@, name@, 0).is_none(),
            },
    {
        let mut i: usize = 0;
        while i < self.units.len()
            invariant
                i <= self.units.len(),
                first_unit_row(self.units@, name@, 0) == first_unit_row(
                    self.units@,
                    name@,
                    i as int,
                ),
            decreases self.units.len() - i,
        {
            if self.units[i].name == *name {
                return Some(i);
            }
            i = i + 1;
        }
        None
    }

    /// The index of the first row that holds the dimension `name`.
    pub fn find_dimension(&self, name: &String) -> (r: Option<usize>)
        ensures
            match r {
                Some(i) => first_dimension_row(self.dimensions@, name@, 0) == Some(i as int) && i
                    < self.dimensions.len(),
                None => first_dimension_row(self.dimensions@, name@, 0).is_none(),
            },
    {
        let mut i: usize = 0;
        while i < self.dimensions.len()
            invariant
                i <= self.dimensions.len(),
                first_dimension_row(self.dimensions@, name@, 0) == first_dimension_row(
                    self.dimensions@,
                    name@,
                    i as int,
                ),
            decreases self.dimensions.len() - i,
        {
            if self.dimensions[i].name == *name {
                return Some(i);
            }
            i = i + 1;
        }
        None
    }
}

impl UnitQuery for TableUnitQuery {
    open spec fn conversion_factor_of(&self, name: Seq<char>) -> Result<Decimal, UnitErrorView> {
        match first_unit_row(self.units@, name, 0) {
            Some(i) => Ok(self.units@[i].factor),
            None => Err(UnitErrorView::BadUnit(name)),
        }
    }

    open spec fn unit_list(&self) -> Result<Seq<Seq<char>>, UnitErrorView> {
        if self.units@.len() == 0 {
            Err(UnitErrorView::Custom("Empty databse"@))
        } else {
            Ok(Seq::new(self.units@.len(), |i: int| self.units@[i].name@))
        }
    }

    open spec fn dimension_of(&self, name: Seq<char>) -> Result<
        (Seq<char>, Seq<int>),
        UnitErrorView,
    > {
        match first_unit_row(self.units@, name, 0) {
            Some(i) => match first_dimension_row(self.dimensions@, self.units@[i].dimension@, 0) {
                Some(j) => Ok((self.dimensions@[j].name@, self.dimensions@[j].vector@)),
                None => Err(UnitErrorView::Query(self.units@[i].dimension@)),
            },
            None => Err(UnitErrorView::BadUnit(name)),
        }
    }

    open spec fn dimension_name_of(&self, name: Seq<char>) -> Result<Seq<char>, UnitErrorView> {
        match first_unit_row(self.units@, name, 0) {
            Some(i) => Ok(self.units@[i].dimension@),
            None => Err(UnitErrorView::BadUnit(name)),
        }
    }

    fn get_conversion_factor(&self, unit: &ElementUnit) -> (r: Result<Decimal, UnitError>) {
        match self.find_unit(&unit.name) {
            Some(i) => Ok(self.units[i].factor),
            None => Err(UnitError::BadUnit(unit.name.clone())),
        }
    }

    fn get_unit_list(&self) -> (r: Result<Vec<String>, UnitError>) {
        if self.units.len() == 0 {
            return Err(UnitError::Custom("Empty databse".to_owned()));
        }
        let mut names: Vec<String> = Vec::new();
        let mut i: usize = 0;
        while i < self.units.len()
            invariant
                i <= self.units.len(),
                names@.len() == i,
                forall|j: int| 0 <= j < i ==> (#[trigger] names@[j])@ == self.units@[j].name@,
            decreases self.units.len() - i,
        {
            names.push(self.units[i].name.clone());
            i = i + 1;
        }
        assert(names_view(names@) =~= Seq::new(self.units@.len(), |i: int| self.units@[i].name@));
        Ok(names)
    }

    fn get_dimension(&self, unit: &ElementUnit) -> (r: Result<(String, Dimension), UnitError>) {
        match self.find_unit(&unit.name) {
            Some(i) => match self.find_dimension(&self.units[i].dimension) {
                Some(j) => Ok((self.dimensions[j].name.clone(), self.dimensions[j].vector)),
                None => Err(UnitError::Query(self.units[i].dimension.clone())),
            },
            None => Err(UnitError::BadUnit(unit.name.clone())),
        }
    }

    fn get_dimension_name(&self, p_unit: &ElementUnit) -> (r: Result<String, UnitError>) {
        match self.find_unit(&p_unit.name) {
            Some(i) => Ok(self.units[i].dimension.clone()),
            None => Err(UnitError::BadUnit(p_unit.name.clone())),
        }
    }
}

} // verus!
