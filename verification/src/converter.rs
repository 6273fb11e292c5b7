//! Dimensions of compound units, and conversion between units of one
//! dimension.

use crate::datatypes::{
    dot_spec, fits_dimension, units_view, Dimension, ElementUnit, ElementUnitView, Magnitude,
    MagnitudeView, Power, Unit, Value, ValueView,
};
use crate::error::{UnitError, UnitErrorView};
use crate::unitquery::{names_view, UnitQuery};
use std::rc::Rc;
use vstd::prelude::*;

verus! {

/// How two units relate.
pub enum UnitMatch {
    /// They measure different things.
    Different,
    /// They measure the same thing.
    Same,
    /// They are the same unit.
    Equal,
}

/// The dimension `acc` with the dimension of `atom` added, scaled by the
/// exponent of `atom`. The dimension of the atom is looked up by its name.
pub open spec fn add_atom_spec<Q: UnitQuery>(q: Q, acc: Seq<int>, atom: ElementUnitView) -> Result<
    Seq<int>,
    UnitErrorView,
> {
    match q.dimension_of(atom.name) {
        Err(e) => Err(e),
        Ok((_, dim)) => if fits_dimension(dot_spec(acc, dim, atom.exp)) {
            Ok(dot_spec(acc, dim, atom.exp))
        } else {
            Err(UnitErrorView::Custom("Dimension out of range"@))
        },
    }
}

/// The dimension of a compound unit: the dimensions of its atoms, each
/// scaled by its exponent, added from left to right; or the failure of the
/// first atom whose dimension cannot be found or added.
pub open spec fn dimension_spec<Q: UnitQuery>(q: Q, units: Seq<ElementUnitView>) -> Result<
    Seq<int>,
    UnitErrorView,
>
    decreases units.len(),
{
    if units.len() == 0 {
        Ok(Dimension::zero())
    } else {
        match dimension_spec(q, units.drop_last()) {
            Err(e) => Err(e),
            Ok(acc) => add_atom_spec(q, acc, units.last()),
        }
    }
}

/// The name of the dimension of each atom, as the catalog gives it.
pub open spec fn dimension_names_spec<Q: UnitQuery>(
    q: Q,
    units: Seq<ElementUnitView>,
) -> Seq<Seq<char>> {
    Seq::new(units.len(), |i: int| q.dimension_of(units[i].name)->Ok_0.0)
}

/// The atoms with the given names of dimensions written onto them.
pub open spec fn with_dimension_names(
    units: Seq<ElementUnitView>,
    names: Seq<Seq<char>>,
) -> Seq<ElementUnitView> {
    Seq::new(units.len(), |i: int| ElementUnitView { dim: Some(names[i]), ..units[i] })
}

/// The conversion factor of a compound unit, as the powers whose product it
/// is: for each atom the factor that the catalog holds for its name, raised
/// to the exponent of the atom; or the failure of the first atom whose
/// factor cannot be found.
pub open spec fn factor_spec<Q: UnitQuery>(q: Q, units: Seq<ElementUnitView>) -> Result<
    Seq<Power>,
    UnitErrorView,
>
    decreases units.len(),
{
    if units.len() == 0 {
        Ok(Seq::empty())
    } else {
        match factor_spec(q, units.drop_last()) {
            Err(e) => Err(e),
            Ok(powers) => match q.conversion_factor_of(units.last().name) {
                Err(e) => Err(e),
                Ok(base) => Ok(powers.push(Power { base, exponent: units.last().exp })),
            },
        }
    }
}

/// Whether two units have the same dimension, with the dimension of each;
/// or the failure of the first unit whose dimension cannot be found.
pub open spec fn same_dimension_spec<Q: UnitQuery>(
    q: Q,
    unit1: Seq<ElementUnitView>,
    unit2: Seq<ElementUnitView>,
) -> Result<(bool, Seq<int>, Seq<int>), UnitErrorView> {
    match dimension_spec(q, unit1) {
        Err(e) => Err(e),
        Ok(d1) => match dimension_spec(q, unit2) {
            Err(e) => Err(e),
            Ok(d2) => Ok((d1 == d2, d1, d2)),
        },
    }
}

/// The value `val` expressed in the unit `target`: its magnitude times the
/// conversion factor of its own unit, divided by that of `target`. Units of
/// different dimensions give a failure that holds both dimensions.
pub open spec fn convert_spec<Q: UnitQuery>(
    q: Q,
    val: ValueView,
    target: Seq<ElementUnitView>,
) -> Result<ValueView, UnitErrorView> {
    match same_dimension_spec(q, val.unit, target) {
        Err(e) => Err(e),
        Ok((same, d1, d2)) => if !same {
            Err(UnitErrorView::BadDimension(d1, d2))
        } else {
            match factor_spec(q, val.unit) {
                Err(e) => Err(e),
                Ok(source) => match factor_spec(q, target) {
                    Err(e) => Err(e),
                    Ok(dest) => Ok(
                        ValueView {
                            unit: target,
                            value: MagnitudeView {
                                coefficient: val.value.coefficient,
                                numerator: val.value.numerator + source,
                                denominator: val.value.denominator + dest,
                            },
                        },
                    ),
                },
            }
        },
    }
}

/// Whether the name of every atom stands in `names`.
pub open spec fn all_known(units: Seq<ElementUnitView>, names: Seq<Seq<char>>) -> bool {
    forall|i: int| 0 <= i < units.len() ==> names.contains(#[trigger] units[i].name)
}

/// A failure among the first atoms is the failure of the whole.
pub proof fn lemma_dimension_prefix_error<Q: UnitQuery>(q: Q, units: Seq<ElementUnitView>, k: int)
    requires
        0 <= k <= units.len(),
        dimension_spec(q, units.take(k)) is Err,
    ensures
        dimension_spec(q, units) == dimension_spec(q, units.take(k)),
    decreases units.len() - k,
{
    if k == units.len() {
        assert(units.take(k) =~= units);
    } else {
        assert(units.take(k + 1).drop_last() =~= units.take(k));
        lemma_dimension_prefix_error(q, units, k + 1);
    }
}

/// A failure among the first atoms is the failure of the whole.
pub proof fn lemma_factor_prefix_error<Q: UnitQuery>(q: Q, units: Seq<ElementUnitView>, k: int)
    requires
        0 <= k <= units.len(),
        factor_spec(q, units.take(k)) is Err,
    ensures
        factor_spec(q, units) == factor_spec(q, units.take(k)),
    decreases units.len() - k,
{
    if k == units.len() {
        assert(units.take(k) =~= units);
    } else {
        assert(units.take(k + 1).drop_last() =~= units.take(k));
        lemma_factor_prefix_error(q, units, k + 1);
    }
}

/// What a converter offers, over the catalog that it asks.
pub trait UnitConverter {
    /// The kind of catalog that this converter asks.
    type Catalog: UnitQuery;

    /// The catalog that this converter asks.
    spec fn catalog(&self) -> Self::Catalog;

    /// Whether the list of unit names has been fetched.
    spec fn has_list(&self) -> bool;

    /// Whether the catalog knows every atom of `unit` by name. The first
    /// call fetches the list of names; a catalog that cannot give it makes
    /// the call fail.
    fn is_valid_unit(&mut self, unit: &Unit) -> (r: Result<bool, UnitError>)
        ensures
            final(self).catalog() == old(self).catalog(),
            match r {
                Ok(valid) => {
                    &&& final(self).has_list()
                    &&& old(self).catalog().unit_list() is Ok
                    &&& valid == all_known(unit@, old(self).catalog().unit_list()->Ok_0)
                },
                Err(e) => {
                    &&& !old(self).has_list()
                    &&& !final(self).has_list()
                    &&& old(self).catalog().unit_list() == Err::<Seq<Seq<char>>, UnitErrorView>(
                        e@,
                    )
                },
            },
    ;

    /// Whether the two units have the same dimension, and the dimension of
    /// each.
    fn are_same_dimension(&self, unit1: &Unit, unit2: &Unit) -> (r: Result<
        (bool, Dimension, Dimension),
        UnitError,
    >)
        ensures
            match r {
                Ok((same, d1, d2)) => same_dimension_spec(self.catalog(), unit1@, unit2@) == Ok::<
                    (bool, Seq<int>, Seq<int>),
                    UnitErrorView,
                >((same, d1@, d2@)),
                Err(e) => same_dimension_spec(self.catalog(), unit1@, unit2@) == Err::<
                    (bool, Seq<int>, Seq<int>),
                    UnitErrorView,
                >(e@),
            },
    ;

    /// The dimension of `unit`. The dimension of each atom is looked up by
    /// the atom's name, whatever dimension the atom already names.
    fn get_dimension(&self, unit: &Unit) -> (r: Result<Dimension, UnitError>)
        ensures
            match r {
                Ok(dimension) => dimension_spec(self.catalog(), unit@) == Ok::<
                    Seq<int>,
                    UnitErrorView,
                >(dimension@),
                Err(e) => dimension_spec(self.catalog(), unit@) == Err::<Seq<int>, UnitErrorView>(
                    e@,
                ),
            },
    ;

    /// The dimension of `unit`; on success the name of its dimension is
    /// written onto each atom. On failure `unit` is left as it was.
    fn get_dimension_mut(&self, unit: &mut Unit) -> (r: Result<Dimension, UnitError>)
        ensures
            match r {
                Ok(dimension) => {
                    &&& dimension_spec(self.catalog(), old(unit)@) == Ok::<
                        Seq<int>,
                        UnitErrorView,
                    >(dimension@)
                    &&& final(unit)@ == with_dimension_names(
                        old(unit)@,
                        dimension_names_spec(self.catalog(), old(unit)@),
                    )
                },
                Err(e) => {
                    &&& dimension_spec(self.catalog(), old(unit)@) == Err::<
                        Seq<int>,
                        UnitErrorView,
                    >(e@)
                    &&& final(unit)@ == old(unit)@
                },
            },
    ;

    /// Expresses `val` in the unit `unit`. Nothing is rounded: the magnitude
    /// of the result holds the two conversion factors as powers.
    fn convert(&self, val: &Value, unit: &Unit) -> (r: Result<Value, UnitError>)
        ensures
            match r {
                Ok(value) => convert_spec(self.catalog(), val@, unit@) == Ok::<
                    ValueView,
                    UnitErrorView,
                >(value@),
                Err(e) => convert_spec(self.catalog(), val@, unit@) == Err::<
                    ValueView,
                    UnitErrorView,
                >(e@),
            },
    ;

    /// The conversion factor of `unit`, as the powers whose product it is.
    fn get_conversion_factor(&self, unit: &Unit) -> (r: Result<Vec<Power>, UnitError>)
        ensures
            match r {
                Ok(powers) => factor_spec(self.catalog(), unit@) == Ok::<Seq<Power>, UnitErrorView>(
                    powers@,
                ),
                Err(e) => factor_spec(self.catalog(), unit@) == Err::<Seq<Power>, UnitErrorView>(
                    e@,
                ),
            },
    ;
}

/// The converter over a catalog. It keeps the list of the catalog's unit
/// names once it has asked for it.
pub struct MainConverter<T: UnitQuery> {
    query: Rc<T>,
    ulist: Option<Vec<String>>,
}

/// Whether `name` stands in `names`.
pub fn contains_name(names: &Vec<String>, name: &String) -> (r: bool)
    ensures
        r == names_view(names@).contains(name@),
{
    let mut i: usize = 0;
    while i < names.len()
        invariant
            i <= names.len(),
            forall|j: int| 0 <= j < i ==> names_view(names@)[j] != name@,
        decreases names.len() - i,
    {
        if names[i] == *name {
            assert(names_view(names@)[i as int] == name@);
            return true;
        }
        i = i + 1;
    }
    false
}

impl<T: UnitQuery> MainConverter<T> {
    #[verifier::type_invariant]
    spec fn list_is_of_catalog(self) -> bool {
        match self.ulist {
            Some(names) => self.query.unit_list() == Ok::<Seq<Seq<char>>, UnitErrorView>(
                names_view(names@),
            ),
            None => true,
        }
    }

    /// A converter over the catalog `query`, which it has not asked yet.
    pub fn new(query: Rc<T>) -> (r: Self)
        ensures
            r.catalog() == *query,
            !r.has_list(),
    {
        Self { query, ulist: None }
    }

    /// Folds the dimensions of the atoms from left to right, and keeps the
    /// name of the dimension of each.
    fn fold_dimension(&self, partials: &Vec<ElementUnit>) -> (r: Result<
        (Dimension, Vec<String>),
        UnitError,
    >)
        ensures
            match r {
                Ok((dimension, names)) => {
                    &&& dimension_spec(self.catalog(), units_view(partials@)) == Ok::<
                        Seq<int>,
                        UnitErrorView,
                    >(dimension@)
                    &&& names_view(names@) == dimension_names_spec(
                        self.catalog(),
                        units_view(partials@),
                    )
                },
                Err(e) => dimension_spec(self.catalog(), units_view(partials@)) == Err::<
                    Seq<int>,
                    UnitErrorView,
                >(e@),
            },
    {
        let ghost units = units_view(partials@);
        let mut dimension = Dimension::default();
        let mut names: Vec<String> = Vec::new();
        let mut i: usize = 0;
        proof {
            assert(units.take(0) =~= Seq::<ElementUnitView>::empty());
        }
        while i < partials.len()
            invariant
                i <= partials.len(),
                units == units_view(partials@),
                names@.len() == i,
                dimension_spec(self.catalog(), units.take(i as int)) == Ok::<
                    Seq<int>,
                    UnitErrorView,
                >(dimension@),
                forall|j: int|
                    0 <= j < i ==> (#[trigger] names@[j])@ == dimension_names_spec(
                        self.catalog(),
                        units,
                    )[j],
            decreases partials.len() - i,
        {
            let partial = &partials[i];
            proof {
                assert(units.take(i + 1).drop_last() =~= units.take(i as int));
                assert(units.take(i + 1).last() == partial@);
            }
            let (name, dim) = match self.query.get_dimension(partial) {
                Ok(found) => found,
                Err(e) => {
                    proof {
                        lemma_dimension_prefix_error(self.catalog(), units, i + 1);
                    }
                    return Err(e);
                },
            };
            dimension = match dimension.checked_dot(&dim, partial.exp()) {
                Some(next) => next,
                None => {
                    proof {
                        lemma_dimension_prefix_error(self.catalog(), units, i + 1);
                    }
                    return Err(UnitError::Custom("Dimension out of range".to_owned()));
                },
            };
            names.push(name);
            i = i + 1;
        }
        proof {
            assert(units.take(i as int) =~= units);
            assert(names_view(names@) =~= dimension_names_spec(self.catalog(), units));
        }
        Ok((dimension, names))
    }
}

impl<T: UnitQuery> UnitConverter for MainConverter<T> {
    type Catalog = T;

    closed spec fn catalog(&self) -> T {
        *self.query
    }

    closed spec fn has_list(&self) -> bool {
        self.ulist is Some
    }

    fn is_valid_unit(&mut self, unit: &Unit) -> (r: Result<bool, UnitError>) {
        proof {
            use_type_invariant(&*self);
        }
        if self.ulist.is_none() {
            match self.query.get_unit_list() {
                Ok(names) => {
                    self.ulist = Some(names);
                },
                Err(e) => {
                    return Err(e);
                },
            }
        }
        let names = self.ulist.as_ref().unwrap();
        let mut i: usize = 0;
        while i < unit.partials.len()
            invariant
                i <= unit.partials.len(),
                self.catalog() == old(self).catalog(),
                self.has_list(),
                self.catalog().unit_list() == Ok::<Seq<Seq<char>>, UnitErrorView>(
                    names_view(names@),
                ),
                forall|j: int| 0 <= j < i ==> names_view(names@).contains(#[trigger] unit@[j].name),
            decreases unit.partials.len() - i,
        {
            if !contains_name(names, &unit.partials[i].name) {
                assert(!names_view(names@).contains(unit@[i as int].name));
                return Ok(false);
            }
            i = i + 1;
        }
        Ok(true)
    }

    fn are_same_dimension(&self, unit1: &Unit, unit2: &Unit) -> (r: Result<
        (bool, Dimension, Dimension),
        UnitError,
    >) {
        let d1 = match self.get_dimension(unit1) {
            Ok(d) => d,
            Err(e) => {
                return Err(e);
            },
        };
        let d2 = match self.get_dimension(unit2) {
            Ok(d) => d,
            Err(e) => {
                return Err(e);
            },
        };
        Ok((d1 == d2, d1, d2))
    }

    fn get_dimension(&self, unit: &Unit) -> (r: Result<Dimension, UnitError>) {
        match self.fold_dimension(&unit.partials) {
            Ok((dimension, _)) => Ok(dimension),
            Err(e) => Err(e),
        }
    }

    fn get_dimension_mut(&self, unit: &mut Unit) -> (r: Result<Dimension, UnitError>) {
        let (dimension, names) = match self.fold_dimension(&unit.partials) {
            Ok(found) => found,
            Err(e) => {
                return Err(e);
            },
        };
        let ghost before = unit@;
        assert(names_view(names@).len() == names@.len());
        let mut partials: Vec<ElementUnit> = Vec::new();
        let mut i: usize = 0;
        while i < unit.partials.len()
            invariant
                i <= unit.partials.len(),
                before == unit@,
                names@.len() == unit.partials.len(),
                partials@.len() == i,
                forall|j: int|
                    0 <= j < i ==> (#[trigger] partials@[j])@ == (ElementUnitView {
                        dim: Some(names@[j]@),
                        ..before[j]
                    }),
            decreases unit.partials.len() - i,
        {
            let mut partial = unit.partials[i].clone();
            partial.set_dim(names[i].as_str());
            partials.push(partial);
            i = i + 1;
        }
        unit.partials = partials;
        proof {
            assert(unit@ =~= with_dimension_names(before, names_view(names@)));
        }
        Ok(dimension)
    }

    fn convert(&self, val: &Value, unit: &Unit) -> (r: Result<Value, UnitError>) {
        let (same, d1, d2) = match self.are_same_dimension(&val.unit, unit) {
            Ok(found) => found,
            Err(e) => {
                return Err(e);
            },
        };
        if !same {
            return Err(UnitError::BadDimension(d1, d2));
        }
        let source = match self.get_conversion_factor(&val.unit) {
            Ok(powers) => powers,
            Err(e) => {
                return Err(e);
            },
        };
        let dest = match self.get_conversion_factor(unit) {
            Ok(powers) => powers,
            Err(e) => {
                return Err(e);
            },
        };
        let mut numerator = val.value.numerator.clone();
        let mut denominator = val.value.denominator.clone();
        let mut source = source;
        let mut dest = dest;
        numerator.append(&mut source);
        denominator.append(&mut dest);
        Ok(
            Value {
                unit: unit.clone(),
                value: Magnitude { coefficient: val.value.coefficient, numerator, denominator },
            },
        )
    }

    fn get_conversion_factor(&self, unit: &Unit) -> (r: Result<Vec<Power>, UnitError>) {
        let ghost units = unit@;
        let mut powers: Vec<Power> = Vec::new();
        let mut i: usize = 0;
        proof {
            assert(units.take(0) =~= Seq::<ElementUnitView>::empty());
        }
        while i < unit.partials.len()
            invariant
                i <= unit.partials.len(),
                units == unit@,
                factor_spec(self.catalog(), units.take(i as int)) == Ok::<
                    Seq<Power>,
                    UnitErrorView,
                >(powers@),
            decreases unit.partials.len() - i,
        {
            let partial = &unit.partials[i];
            proof {
                assert(units.take(i + 1).drop_last() =~= units.take(i as int));
                assert(units.take(i + 1).last() == partial@);
            }
            let base = match self.query.get_conversion_factor(partial) {
                Ok(found) => found,
                Err(e) => {
                    proof {
                        lemma_factor_prefix_error(self.catalog(), units, i + 1);
                    }
                    return Err(e);
                },
            };
            powers.push(Power { base, exponent: partial.exp() });
            i = i + 1;
        }
        proof {
            assert(units.take(i as int) =~= units);
        }
        Ok(powers)
    }
}

} // verus!
