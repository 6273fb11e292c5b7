//! Dimension vectors, atomic and compound units, and values.

use crate::decimal::{fits_i32, Decimal};
use vstd::prelude::*;

verus! {

/// The exponents of the seven base dimensions, in the order mass,
/// duration, length, current, amount, temperature, luminosity: a speed is
/// `[0, -1, 1, 0, 0, 0, 0]`. The order is that in which a catalog hands the
/// axes over; the library itself treats all axes alike.
#[derive(Clone, Copy, Debug)]
pub struct Dimension(pub [i32; 7]);

impl View for Dimension {
    type V = Seq<int>;

    open spec fn view(&self) -> Seq<int> {
        Seq::new(7, |i: int| self.0@[i] as int)
    }
}

/// The vector `acc + trunc(dim * exp)`, axis by axis.
pub open spec fn dot_spec(acc: Seq<int>, dim: Seq<int>, exp: Decimal) -> Seq<int> {
    Seq::new(7, |i: int| acc[i] + exp.scale(dim[i]))
}

/// Whether every axis of `v` can be held in an `i32`.
pub open spec fn fits_dimension(v: Seq<int>) -> bool {
    forall|i: int| 0 <= i < 7 ==> fits_i32(#[trigger] v[i])
}

impl Dimension {
    /// The dimensionless vector.
    pub open spec fn zero() -> Seq<int> {
        Seq::new(7, |i: int| 0int)
    }

    /// Adds to this vector the vector `val` scaled by `exp`, each axis
    /// rounded toward zero. `None` exactly when an axis of the sum cannot be
    /// held.
    pub fn checked_dot(&self, val: &Self, exp: Decimal) -> (r: Option<Self>)
        ensures
            fits_dimension(dot_spec(self@, val@, exp)) ==> r.is_some() && r.unwrap()@ == dot_spec(
                self@,
                val@,
                exp,
            ),
            !fits_dimension(dot_spec(self@, val@, exp)) ==> r.is_none(),
    {
        let mut e: [i32; 7] = [0, 0, 0, 0, 0, 0, 0];
        let mut i: usize = 0;
        while i < 7
            invariant
                i <= 7,
                forall|j: int| 0 <= j < i ==> e@[j] == #[trigger] dot_spec(self@, val@, exp)[j],
            decreases 7 - i,
        {
            let scaled: i64 = match exp.checked_scale(val.0[i]) {
                Some(s) => s,
                None => {
                    assert(!fits_i32(dot_spec(self@, val@, exp)[i as int]));
                    return None;
                },
            };
            let sum: i64 = self.0[i] as i64 + scaled;
            if sum < i32::MIN as i64 || sum > i32::MAX as i64 {
                assert(!fits_i32(dot_spec(self@, val@, exp)[i as int]));
                return None;
            }
            e[i] = sum as i32;
            i = i + 1;
        }
        let r = Dimension(e);
        assert(r@ =~= dot_spec(self@, val@, exp));
        Some(r)
    }

    /// Adds to this vector the vector `val` scaled by `exp`, each axis
    /// rounded toward zero.
    pub fn dot(&self, val: &Self, exp: Decimal) -> (r: Self)
        requires
            fits_dimension(dot_spec(self@, val@, exp)),
        ensures
            r@ == dot_spec(self@, val@, exp),
    {
        match self.checked_dot(val, exp) {
            Some(r) => r,
            None => *self,
        }
    }
}

impl Default for Dimension {
    fn default() -> (r: Self)
        ensures
            r@ == Dimension::zero(),
    {
        let r = Dimension([0, 0, 0, 0, 0, 0, 0]);
        assert(r@ =~= Dimension::zero());
        r
    }
}

impl PartialEq for Dimension {
    fn eq(&self, other: &Self) -> (r: bool) {
        let mut i: usize = 0;
        while i < 7
            invariant
                i <= 7,
                forall|j: int| 0 <= j < i ==> self.0@[j] == other.0@[j],
            decreases 7 - i,
        {
            if self.0[i] != other.0[i] {
                assert(self@[i as int] != other@[i as int]);
                return false;
            }
            i = i + 1;
        }
        assert(self@ =~= other@);
        true
    }
}

impl Eq for Dimension {

}

impl vstd::std_specs::cmp::PartialEqSpecImpl for Dimension {
    open spec fn obeys_eq_spec() -> bool {
        true
    }

    open spec fn eq_spec(&self, other: &Self) -> bool {
        self@ == other@
    }
}

/// An atomic unit as a plain value.
pub struct ElementUnitView {
    pub name: Seq<char>,
    pub exp: Decimal,
    pub dim: Option<Seq<char>>,
    pub factor: Decimal,
}

/// A named unit raised to an exponent, with the name of its dimension and
/// its conversion factor once they have been resolved.
pub struct ElementUnit {
    pub name: String,
    pub exp: Decimal,
    pub dim: Option<String>,
    pub conversionfactor: Decimal,
}

impl View for ElementUnit {
    type V = ElementUnitView;

    open spec fn view(&self) -> ElementUnitView {
        ElementUnitView {
            name: self.name@,
            exp: self.exp,
            dim: match self.dim {
                Some(d) => Some(d@),
                None => None,
            },
            factor: self.conversionfactor,
        }
    }
}

impl ElementUnit {
    /// An atomic unit as the parser leaves it: no dimension, and zero in
    /// place of the conversion factor.
    pub open spec fn unresolved(name: Seq<char>, exp: Decimal) -> ElementUnitView {
        ElementUnitView { name, exp, dim: None, factor: Decimal { digits: 0, power: 0 } }
    }

    /// The unit `name` raised to `exp`, not resolved yet.
    pub fn new(name: &str, exp: Decimal) -> (r: Self)
        ensures
            r@ == ElementUnit::unresolved(name@, exp),
    {
        Self {
            name: name.to_owned(),
            exp,
            dim: None,
            conversionfactor: Decimal { digits: 0, power: 0 },
        }
    }

    /// Sets the conversion factor, and nothing else.
    pub fn set_factor(&mut self, cf: Decimal)
        ensures
            final(self)@ == (ElementUnitView { factor: cf, ..old(self)@ }),
    {
        self.conversionfactor = cf;
    }

    /// The conversion factor; zero until the unit has been resolved.
    pub fn get_factor(&self) -> (r: Decimal)
        ensures
            r == self@.factor,
    {
        self.conversionfactor
    }

    /// The exponent.
    pub fn exp(&self) -> (r: Decimal)
        ensures
            r == self@.exp,
    {
        self.exp
    }

    /// Sets the exponent, and nothing else.
    pub fn set_exp(&mut self, exp: Decimal)
        ensures
            final(self)@ == (ElementUnitView { exp, ..old(self)@ }),
    {
        self.exp = exp;
    }

    /// Sets the name of the dimension, and nothing else.
    pub fn set_dim(&mut self, dim: &str)
        ensures
            final(self)@ == (ElementUnitView { dim: Some(dim@), ..old(self)@ }),
    {
        self.dim = Some(dim.to_owned());
    }
}

impl Clone for ElementUnit {
    fn clone(&self) -> (r: Self)
        ensures
            r@ == self@,
    {
        Self {
            name: self.name.clone(),
            exp: self.exp,
            dim: match &self.dim {
                Some(d) => Some(d.clone()),
                None => None,
            },
            conversionfactor: self.conversionfactor,
        }
    }
}

/// The atomic units of `v` as plain values.
pub open spec fn units_view(v: Seq<ElementUnit>) -> Seq<ElementUnitView> {
    Seq::new(v.len(), |i: int| v[i]@)
}

/// A product of atomic units, in the order in which they were given.
pub struct Unit {
    pub partials: Vec<ElementUnit>,
}

impl View for Unit {
    type V = Seq<ElementUnitView>;

    open spec fn view(&self) -> Seq<ElementUnitView> {
        units_view(self.partials@)
    }
}

impl Unit {
    /// The product of the given atomic units, in their order.
    pub fn from_vec(partials: Vec<ElementUnit>) -> (r: Self)
        ensures
            r.partials == partials,
    {
        Self { partials }
    }
}

impl Clone for Unit {
    fn clone(&self) -> (r: Self)
        ensures
            r@ == self@,
    {
        let mut partials: Vec<ElementUnit> = Vec::new();
        let mut i: usize = 0;
        while i < self.partials.len()
            invariant
                i <= self.partials.len(),
                partials@.len() == i,
                forall|j: int| 0 <= j < i ==> (#[trigger] partials@[j])@ == self.partials@[j]@,
            decreases self.partials.len() - i,
        {
            partials.push(self.partials[i].clone());
            i = i + 1;
        }
        let r = Self { partials };
        assert(r@ =~= self@);
        r
    }
}

impl From<ElementUnit> for Unit {
    /// The compound unit of one atom.
    fn from(val: ElementUnit) -> (r: Self)
        ensures
            r.partials@ == seq![val],
    {
        let mut partials: Vec<ElementUnit> = Vec::new();
        partials.push(val);
        assert(partials@ =~= seq![val]);
        Unit { partials }
    }
}

impl vstd::std_specs::convert::FromSpecImpl<ElementUnit> for Unit {
    open spec fn obeys_from_spec() -> bool {
        false
    }

    open spec fn from_spec(val: ElementUnit) -> Self {
        arbitrary()
    }
}

/// The power `base^exponent`.
#[derive(Clone, Copy, Debug, PartialEq, Eq, Structural)]
pub struct Power {
    pub base: Decimal,
    pub exponent: Decimal,
}

/// A magnitude in exact form: `coefficient` times the powers of
/// `numerator`, divided by the powers of `denominator`. Nothing is rounded
/// until a caller evaluates the product.
pub struct Magnitude {
    pub coefficient: Decimal,
    pub numerator: Vec<Power>,
    pub denominator: Vec<Power>,
}

/// A magnitude as a plain value.
pub struct MagnitudeView {
    pub coefficient: Decimal,
    pub numerator: Seq<Power>,
    pub denominator: Seq<Power>,
}

impl View for Magnitude {
    type V = MagnitudeView;

    open spec fn view(&self) -> MagnitudeView {
        MagnitudeView {
            coefficient: self.coefficient,
            numerator: self.numerator@,
            denominator: self.denominator@,
        }
    }
}

impl Magnitude {
    /// The magnitude `coefficient`, with no power beside it.
    pub open spec fn plain(coefficient: Decimal) -> MagnitudeView {
        MagnitudeView { coefficient, numerator: Seq::empty(), denominator: Seq::empty() }
    }

    /// The magnitude `coefficient`, with no power beside it.
    pub fn from_decimal(coefficient: Decimal) -> (r: Self)
        ensures
            r@ == Magnitude::plain(coefficient),
    {
        Magnitude { coefficient, numerator: Vec::new(), denominator: Vec::new() }
    }
}

/// A value as a plain value.
pub struct ValueView {
    pub unit: Seq<ElementUnitView>,
    pub value: MagnitudeView,
}

/// A magnitude together with the unit in which it is expressed.
pub struct Value {
    pub unit: Unit,
    pub value: Magnitude,
}

impl View for Value {
    type V = ValueView;

    open spec fn view(&self) -> ValueView {
        ValueView { unit: self.unit@, value: self.value@ }
    }
}

impl Value {
    /// The magnitude `value` in the unit `unit`.
    pub fn from_value(unit: Unit, value: Decimal) -> (r: Self)
        ensures
            r@ == (ValueView { unit: unit@, value: Magnitude::plain(value) }),
    {
        Self { unit, value: Magnitude::from_decimal(value) }
    }
}

} // verus!
