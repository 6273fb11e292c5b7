//! What holds of reading, of dimensions and of conversion, whatever the
//! inputs.

use crate::converter::{
    add_atom_spec, convert_spec, dimension_spec, factor_spec, same_dimension_spec,
};
use crate::datatypes::{dot_spec, Dimension, ElementUnit, ElementUnitView, ValueView};
use crate::decimal::{
    is_written_char, law_text_round_trip, lemma_text_chars, pow10, trunc_div, Decimal,
};
use crate::error::UnitErrorView;
use crate::parser::{parse_atomic_spec, parse_compound_spec, parse_pieces_spec};
use crate::safety::{is_safe_text, is_unsafe_char};
use crate::text::{
    ends_at, free_of, join_spec, joinable, law_split_of_join, lemma_without_first_char,
};
use crate::unitquery::UnitQuery;
use vstd::prelude::*;

verus! {

/// An atomic expression written as a name, the exponent symbol and a
/// decimal literal that can be held is read as that name with the number
/// of the literal.
pub proof fn law_parse_atomic_round_trip(name: Seq<char>, symbol: Seq<char>, token: Seq<char>)
    requires
        symbol.len() > 0,
        name.len() > 0,
        ends_at(name, symbol),
        free_of(token, symbol),
        is_safe_text(name + symbol + token),
        Decimal::of_text(token) is Some,
    ensures
        parse_atomic_spec(name + symbol + token, symbol) == Ok::<ElementUnitView, UnitErrorView>(
            ElementUnit::unresolved(name, Decimal::of_text(token)->0),
        ),
{
    let pieces = seq![name, token];
    assert(joinable(pieces, symbol));
    law_split_of_join(pieces, symbol);
    assert(pieces.drop_first() =~= seq![token]);
    assert(join_spec(pieces, symbol) == name + symbol + join_spec(seq![token], symbol));
    assert(join_spec(seq![token], symbol) == token);
}

/// An atomic expression written as a name, the exponent symbol and a
/// number is read as that name with that number, whatever the number.
pub proof fn law_parse_atomic_of_written(name: Seq<char>, symbol: Seq<char>, exp: Decimal)
    requires
        symbol.len() > 0,
        !is_written_char(symbol[0]),
        name.len() > 0,
        ends_at(name, symbol),
        is_safe_text(name),
        is_safe_text(symbol),
    ensures
        parse_atomic_spec(name + symbol + exp.text_spec(), symbol) == Ok::<
            ElementUnitView,
            UnitErrorView,
        >(ElementUnit::unresolved(name, exp)),
{
    let token = exp.text_spec();
    lemma_text_chars(exp);
    law_text_round_trip(exp);
    assert(!token.contains(symbol[0])) by {
        if token.contains(symbol[0]) {
            let i = choose|i: int| 0 <= i < token.len() && token[i] == symbol[0];
            assert(is_written_char(token[i]));
        }
    }
    lemma_without_first_char(token, symbol);
    let text = name + symbol + token;
    assert forall|i: int| 0 <= i < text.len() implies !is_unsafe_char(#[trigger] text[i]) by {
        if i < name.len() {
            assert(text[i] == name[i]);
        } else if i < name.len() + symbol.len() {
            assert(text[i] == symbol[i - name.len()]);
        } else {
            assert(text[i] == token[i - name.len() - symbol.len()]);
            assert(is_written_char(token[i - name.len() - symbol.len()]));
        }
    }
    law_parse_atomic_round_trip(name, symbol, token);
}

/// Where every piece can be read, reading them gives one atomic unit for
/// each piece, in the order of the pieces.
pub proof fn law_parse_pieces_in_order(pieces: Seq<Seq<char>>, symbol: Seq<char>)
    requires
        forall|k: int| 0 <= k < pieces.len() ==> parse_atomic_spec(#[trigger] pieces[k], symbol) is Ok,
    ensures
        parse_pieces_spec(pieces, symbol) == Ok::<Seq<ElementUnitView>, UnitErrorView>(
            Seq::new(pieces.len(), |k: int| parse_atomic_spec(pieces[k], symbol)->Ok_0),
        ),
    decreases pieces.len(),
{
    let want = Seq::new(pieces.len(), |k: int| parse_atomic_spec(pieces[k], symbol)->Ok_0);
    if pieces.len() == 0 {
        assert(want =~= Seq::<ElementUnitView>::empty());
    } else {
        let front = pieces.drop_last();
        assert forall|k: int| 0 <= k < front.len() implies parse_atomic_spec(
            #[trigger] front[k],
            symbol,
        ) is Ok by {
            assert(front[k] == pieces[k]);
        }
        law_parse_pieces_in_order(front, symbol);
        let head = Seq::new(front.len(), |k: int| parse_atomic_spec(front[k], symbol)->Ok_0);
        assert(head.push(parse_atomic_spec(pieces.last(), symbol)->Ok_0) =~= want);
    }
}

/// A compound expression made of `N` atomic expressions with a safe
/// delimiter between them is read as `N` atomic units, in the order in
/// which they were written, each as its own expression is read.
pub proof fn law_parse_compound_of_join(
    pieces: Seq<Seq<char>>,
    delimiter: Seq<char>,
    symbol: Seq<char>,
)
    requires
        delimiter.len() > 0,
        is_safe_text(delimiter),
        pieces.len() > 0,
        joinable(pieces, delimiter),
        forall|k: int| 0 <= k < pieces.len() ==> parse_atomic_spec(#[trigger] pieces[k], symbol) is Ok,
    ensures
        parse_compound_spec(join_spec(pieces, delimiter), delimiter, symbol) == Ok::<
            Seq<ElementUnitView>,
            UnitErrorView,
        >(Seq::new(pieces.len(), |k: int| parse_atomic_spec(pieces[k], symbol)->Ok_0)),
{
    law_split_of_join(pieces, delimiter);
    law_parse_pieces_in_order(pieces, symbol);
    assert forall|k: int| 0 <= k < pieces.len() implies is_safe_text(#[trigger] pieces[k]) by {
        assert(parse_atomic_spec(pieces[k], symbol) is Ok);
    }
    lemma_join_is_safe(pieces, delimiter);
}

/// An atomic expression that holds an unsafe character is refused as a
/// text that cannot be parsed, whatever else it holds.
pub proof fn law_unsafe_atomic_fails(text: Seq<char>, symbol: Seq<char>)
    requires
        !is_safe_text(text),
    ensures
        parse_atomic_spec(text, symbol) == Err::<ElementUnitView, UnitErrorView>(
            UnitErrorView::ParseError(text),
        ),
{
}

/// A compound expression that holds an unsafe character is refused as a
/// text that cannot be parsed, however well it is formed otherwise and
/// whatever stands before the character.
pub proof fn law_unsafe_compound_fails(text: Seq<char>, delimiter: Seq<char>, symbol: Seq<char>)
    requires
        !is_safe_text(text),
    ensures
        parse_compound_spec(text, delimiter, symbol) == Err::<
            Seq<ElementUnitView>,
            UnitErrorView,
        >(UnitErrorView::ParseError(text)),
{
}

/// Safe pieces joined with a safe separator make a safe text.
pub proof fn lemma_join_is_safe(pieces: Seq<Seq<char>>, sep: Seq<char>)
    requires
        is_safe_text(sep),
        forall|k: int| 0 <= k < pieces.len() ==> is_safe_text(#[trigger] pieces[k]),
    ensures
        is_safe_text(join_spec(pieces, sep)),
    decreases pieces.len(),
{
    if pieces.len() > 1 {
        let rest = pieces.drop_first();
        assert forall|k: int| 0 <= k < rest.len() implies is_safe_text(#[trigger] rest[k]) by {
            assert(rest[k] == pieces[k + 1]);
        }
        lemma_join_is_safe(rest, sep);
        let first = pieces[0];
        let tail = join_spec(rest, sep);
        let s = first + sep + tail;
        assert forall|i: int| 0 <= i < s.len() implies !is_unsafe_char(#[trigger] s[i]) by {
            if i < first.len() {
                assert(s[i] == first[i]);
            } else if i < first.len() + sep.len() {
                assert(s[i] == sep[i - first.len()]);
            } else {
                assert(s[i] == tail[i - first.len() - sep.len()]);
            }
        }
    }
}

/// Scaling by a number that is an integer is multiplying by that integer:
/// nothing is rounded away.
pub proof fn law_scale_by_integer(exp: Decimal, b: int)
    requires
        exp.is_integer(),
    ensures
        exp.scale(b) == b * exp.integer_part(),
{
    if exp.power >= 0 {
        let p = pow10(exp.power as nat) as int;
        let d = exp.digits as int;
        assert(b * d * p == b * (1 * d * p)) by (nonlinear_arith);
    } else {
        let p = pow10((-exp.power) as nat) as int;
        crate::decimal::lemma_pow10_positive((-exp.power) as nat);
        let d = exp.digits as int;
        let q = d / p;
        assert(d == q * p) by (nonlinear_arith)
            requires
                d % p == 0,
                q == d / p,
                p > 0,
        ;
        lemma_trunc_div_exact(q, p);
        assert(1 * d == d);
        assert(b * d == (b * q) * p) by (nonlinear_arith)
            requires
                d == q * p,
        ;
        lemma_trunc_div_exact(b * q, p);
    }
}

/// A multiple of `p` divided by `p`, with nothing to round.
pub proof fn lemma_trunc_div_exact(q: int, p: int)
    requires
        p > 0,
    ensures
        trunc_div(q * p, p) == q,
{
    if q * p >= 0 {
        assert((q * p) / p == q) by (nonlinear_arith)
            requires
                p > 0,
        ;
    } else {
        assert((-(q * p)) / p == -q) by (nonlinear_arith)
            requires
                p > 0,
        ;
    }
}

/// The dimension is linear in an integer exponent: a vector added with the
/// exponent `k` is the vector added with the exponent 1, times `k`.
pub proof fn law_dot_linear_in_exponent(dim: Seq<int>, exp: Decimal)
    requires
        exp.is_integer(),
    ensures
        forall|i: int|
            0 <= i < 7 ==> #[trigger] dot_spec(Dimension::zero(), dim, exp)[i] == exp.integer_part()
                * dot_spec(Dimension::zero(), dim, Decimal { digits: 1, power: 0 })[i],
{
    let unit = Decimal { digits: 1, power: 0 };
    assert forall|i: int| 0 <= i < 7 implies #[trigger] dot_spec(Dimension::zero(), dim, exp)[i]
        == exp.integer_part() * dot_spec(Dimension::zero(), dim, unit)[i] by {
        law_scale_by_integer(exp, dim[i]);
        assert(pow10(0) == 1);
        assert(unit.scale(dim[i]) == dim[i]) by (nonlinear_arith)
            requires
                unit.scale(dim[i]) == dim[i] * 1 * 1,
        ;
        assert(dim[i] * exp.integer_part() == exp.integer_part() * dim[i]) by (nonlinear_arith);
    }
}

/// The dimension of one atom is linear in an integer exponent: with the
/// exponent `k` it is the dimension with the exponent 1, times `k`.
pub proof fn law_dimension_linear_in_exponent<Q: UnitQuery>(q: Q, name: Seq<char>, exp: Decimal)
    requires
        exp.is_integer(),
        dimension_spec(q, seq![ElementUnit::unresolved(name, exp)]) is Ok,
        dimension_spec(q, seq![ElementUnit::unresolved(name, Decimal { digits: 1, power: 0 })]) is Ok,
    ensures
        forall|i: int|
            0 <= i < 7 ==> #[trigger] dimension_spec(
                q,
                seq![ElementUnit::unresolved(name, exp)],
            )->Ok_0[i] == exp.integer_part() * dimension_spec(
                q,
                seq![ElementUnit::unresolved(name, Decimal { digits: 1, power: 0 })],
            )->Ok_0[i],
{
    let unit = Decimal { digits: 1, power: 0 };
    let a = seq![ElementUnit::unresolved(name, exp)];
    let b = seq![ElementUnit::unresolved(name, unit)];
    assert(a.drop_last() =~= Seq::<ElementUnitView>::empty());
    assert(b.drop_last() =~= Seq::<ElementUnitView>::empty());
    assert(dimension_spec(q, Seq::<ElementUnitView>::empty()) == Ok::<Seq<int>, UnitErrorView>(
        Dimension::zero(),
    ));
    assert(dimension_spec(q, a) == add_atom_spec(q, Dimension::zero(), a.last()));
    assert(dimension_spec(q, b) == add_atom_spec(q, Dimension::zero(), b.last()));
    let dim = q.dimension_of(name)->Ok_0.1;
    law_dot_linear_in_exponent(dim, exp);
}

/// A unit whose dimension can be found has the same dimension as itself.
pub proof fn law_same_dimension_reflexive<Q: UnitQuery>(q: Q, unit: Seq<ElementUnitView>)
    requires
        dimension_spec(q, unit) is Ok,
    ensures
        same_dimension_spec(q, unit, unit) == Ok::<(bool, Seq<int>, Seq<int>), UnitErrorView>(
            (true, dimension_spec(q, unit)->Ok_0, dimension_spec(q, unit)->Ok_0),
        ),
{
}

/// Whether two units have the same dimension does not depend on the order
/// in which they are given.
pub proof fn law_same_dimension_symmetric<Q: UnitQuery>(
    q: Q,
    unit1: Seq<ElementUnitView>,
    unit2: Seq<ElementUnitView>,
)
    requires
        same_dimension_spec(q, unit1, unit2) is Ok,
    ensures
        same_dimension_spec(q, unit2, unit1) is Ok,
        same_dimension_spec(q, unit2, unit1)->Ok_0.0 == same_dimension_spec(q, unit1, unit2)->Ok_0.0,
        same_dimension_spec(q, unit2, unit1)->Ok_0.1 == same_dimension_spec(q, unit1, unit2)->Ok_0.2,
        same_dimension_spec(q, unit2, unit1)->Ok_0.2 == same_dimension_spec(q, unit1, unit2)->Ok_0.1,
{
}

/// Between units of different dimensions nothing is converted: the result
/// is the failure that holds both dimensions, never a value.
pub proof fn law_convert_mismatch_fails<Q: UnitQuery>(
    q: Q,
    val: ValueView,
    target: Seq<ElementUnitView>,
)
    requires
        dimension_spec(q, val.unit) is Ok,
        dimension_spec(q, target) is Ok,
        dimension_spec(q, val.unit)->Ok_0 != dimension_spec(q, target)->Ok_0,
    ensures
        convert_spec(q, val, target) == Err::<ValueView, UnitErrorView>(
            UnitErrorView::BadDimension(
                dimension_spec(q, val.unit)->Ok_0,
                dimension_spec(q, target)->Ok_0,
            ),
        ),
{
}

/// A value converted to another unit and back is expressed in its first
/// unit again, with the same coefficient, and with the same powers added
/// above and below the line: the two conversion factors, once in each
/// order. The product of what was added is 1.
pub proof fn law_convert_there_and_back<Q: UnitQuery>(
    q: Q,
    val: ValueView,
    target: Seq<ElementUnitView>,
)
    requires
        convert_spec(q, val, target) is Ok,
    ensures
        convert_spec(q, convert_spec(q, val, target)->Ok_0, val.unit) is Ok,
        ({
            let back = convert_spec(q, convert_spec(q, val, target)->Ok_0, val.unit)->Ok_0;
            let source = factor_spec(q, val.unit)->Ok_0;
            let dest = factor_spec(q, target)->Ok_0;
            &&& back.unit == val.unit
            &&& back.value.coefficient == val.value.coefficient
            &&& back.value.numerator == val.value.numerator + source + dest
            &&& back.value.denominator == val.value.denominator + dest + source
        }),
{
}

} // verus!
