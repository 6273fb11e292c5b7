//! Resolving atomic units against a catalog.

use crate::datatypes::{units_view, ElementUnit, ElementUnitView, Unit};
use crate::decimal::Decimal;
use crate::error::{UnitError, UnitErrorView};
use crate::parser::{parse_compound_spec, UnitParser};
use crate::unitquery::UnitQuery;
use std::rc::Rc;
use vstd::prelude::*;

verus! {

/// The atom with the name of its dimension and its conversion factor as
/// the catalog gives them for the atom's name; the name of the dimension is
/// asked first.
pub open spec fn fill_spec<Q: UnitQuery>(q: Q, atom: ElementUnitView) -> Result<
    ElementUnitView,
    UnitErrorView,
> {
    match q.dimension_name_of(atom.name) {
        Err(e) => Err(e),
        Ok(dim) => match q.conversion_factor_of(atom.name) {
            Err(e) => Err(e),
            Ok(factor) => Ok(ElementUnitView { dim: Some(dim), factor, ..atom }),
        },
    }
}

/// Every atom resolved, or the failure of the first that cannot be.
pub open spec fn fill_all_spec<Q: UnitQuery>(q: Q, units: Seq<ElementUnitView>) -> Result<
    Seq<ElementUnitView>,
    UnitErrorView,
>
    decreases units.len(),
{
    if units.len() == 0 {
        Ok(Seq::empty())
    } else {
        match fill_all_spec(q, units.drop_last()) {
            Err(e) => Err(e),
            Ok(filled) => match fill_spec(q, units.last()) {
                Err(e) => Err(e),
                Ok(atom) => Ok(filled.push(atom)),
            },
        }
    }
}

/// The compound expression `text` read and every atom of it resolved.
pub open spec fn parse_fill_spec<Q: UnitQuery>(
    q: Q,
    text: Seq<char>,
    delimiter: Seq<char>,
    symbol: Seq<char>,
) -> Result<Seq<ElementUnitView>, UnitErrorView> {
    match parse_compound_spec(text, delimiter, symbol) {
        Err(e) => Err(e),
        Ok(units) => fill_all_spec(q, units),
    }
}

/// A failure among the first atoms is the failure of the whole.
pub proof fn lemma_fill_prefix_error<Q: UnitQuery>(q: Q, units: Seq<ElementUnitView>, k: int)
    requires
        0 <= k <= units.len(),
        fill_all_spec(q, units.take(k)) is Err,
    ensures
        fill_all_spec(q, units) == fill_all_spec(q, units.take(k)),
    decreases units.len() - k,
{
    if k == units.len() {
        assert(units.take(k) =~= units);
    } else {
        assert(units.take(k + 1).drop_last() =~= units.take(k));
        lemma_fill_prefix_error(q, units, k + 1);
    }
}

/// What a factory offers, over the catalog that it asks.
pub trait UnitFactory {
    /// The kind of catalog that this factory asks.
    type Catalog: UnitQuery;

    /// The catalog that this factory asks.
    spec fn catalog(&self) -> Self::Catalog;

    /// A new atomic unit, resolved.
    fn construct_unit(&self, name: &str, exp: Decimal) -> (r: Result<ElementUnit, UnitError>)
        ensures
            match r {
                Ok(unit) => fill_spec(self.catalog(), ElementUnit::unresolved(name@, exp)) == Ok::<
                    ElementUnitView,
                    UnitErrorView,
                >(unit@),
                Err(e) => fill_spec(self.catalog(), ElementUnit::unresolved(name@, exp)) == Err::<
                    ElementUnitView,
                    UnitErrorView,
                >(e@),
            },
    ;

    /// Writes onto `unit` the name of its dimension and its conversion
    /// factor, both asked of the catalog anew. Where the factor cannot be
    /// found, the name of the dimension has been written already.
    fn fill(&self, unit: &mut ElementUnit) -> (r: Result<(), UnitError>)
        ensures
            match r {
                Ok(()) => fill_spec(self.catalog(), old(unit)@) == Ok::<
                    ElementUnitView,
                    UnitErrorView,
                >(final(unit)@),
                Err(e) => {
                    &&& fill_spec(self.catalog(), old(unit)@) == Err::<
                        ElementUnitView,
                        UnitErrorView,
                    >(e@)
                    &&& match self.catalog().dimension_name_of(old(unit)@.name) {
                        Ok(dim) => final(unit)@ == (ElementUnitView {
                            dim: Some(dim),
                            ..old(unit)@
                        }),
                        Err(_) => final(unit)@ == old(unit)@,
                    }
                },
            },
    ;

    /// Reads a compound expression and resolves each of its atoms.
    fn parse_fill<G: UnitParser>(&self, parser: &G, text: &str) -> (r: Result<Unit, UnitError>)
        ensures
            match r {
                Ok(unit) => parse_fill_spec(
                    self.catalog(),
                    text@,
                    parser.delimiter(),
                    parser.exp_symbol(),
                ) == Ok::<Seq<ElementUnitView>, UnitErrorView>(unit@),
                Err(e) => parse_fill_spec(
                    self.catalog(),
                    text@,
                    parser.delimiter(),
                    parser.exp_symbol(),
                ) == Err::<Seq<ElementUnitView>, UnitErrorView>(e@),
            },
    ;
}

/// The factory over a catalog.
pub struct MainUnitFactory<T: UnitQuery> {
    query: Rc<T>,
}

impl<T: UnitQuery> MainUnitFactory<T> {
    /// A factory over the catalog `query`.
    pub fn new(query: Rc<T>) -> (r: Self)
        ensures
            r.catalog() == *query,
    {
        Self { query }
    }
}

impl<T: UnitQuery> UnitFactory for MainUnitFactory<T> {
    type Catalog = T;

    closed spec fn catalog(&self) -> T {
        *self.query
    }

    fn construct_unit(&self, name: &str, exp: Decimal) -> (r: Result<ElementUnit, UnitError>) {
        let mut unit = ElementUnit::new(name, exp);
        match self.fill(&mut unit) {
            Ok(()) => Ok(unit),
            Err(e) => Err(e),
        }
    }

    fn fill(&self, unit: &mut ElementUnit) -> (r: Result<(), UnitError>) {
        let dim = match self.query.get_dimension_name(unit) {
            Ok(dim) => dim,
            Err(e) => {
                return Err(e);
            },
        };
        unit.set_dim(dim.as_str());
        let factor = match self.query.get_conversion_factor(unit) {
            Ok(factor) => factor,
            Err(e) => {
                return Err(e);
            },
        };
        unit.set_factor(factor);
        Ok(())
    }

    fn parse_fill<G: UnitParser>(&self, parser: &G, text: &str) -> (r: Result<Unit, UnitError>) {
        let unit = match parser.parse_unit(text) {
            Ok(unit) => unit,
            Err(e) => {
                return Err(e);
            },
        };
        let ghost units = unit@;
        let ghost mut filled: Seq<ElementUnitView> = Seq::empty();
        let mut partials: Vec<ElementUnit> = Vec::new();
        let mut i: usize = 0;
        proof {
            assert(units.take(0) =~= Seq::<ElementUnitView>::empty());
            assert(filled =~= units_view(partials@));
        }
        while i < unit.partials.len()
            invariant
                i <= unit.partials.len(),
                units == unit@,
                parse_compound_spec(text@, parser.delimiter(), parser.exp_symbol()) == Ok::<
                    Seq<ElementUnitView>,
                    UnitErrorView,
                >(units),
                filled == units_view(partials@),
                fill_all_spec(self.catalog(), units.take(i as int)) == Ok::<
                    Seq<ElementUnitView>,
                    UnitErrorView,
                >(filled),
            decreases unit.partials.len() - i,
        {
            let mut pu = unit.partials[i].clone();
            proof {
                assert(units.take(i + 1).drop_last() =~= units.take(i as int));
                assert(units.take(i + 1).last() == pu@);
            }
            match self.fill(&mut pu) {
                Ok(()) => {},
                Err(e) => {
                    proof {
                        lemma_fill_prefix_error(self.catalog(), units, i + 1);
                    }
                    return Err(e);
                },
            }
            partials.push(pu);
            proof {
                assert(units_view(partials@) =~= filled.push(pu@));
                filled = filled.push(pu@);
            }
            i = i + 1;
        }
        proof {
            assert(units.take(i as int) =~= units);
        }
        Ok(Unit::from_vec(partials))
    }
}

} // verus!
