//! Reading unit expressions such as `kg^1*s^-2`.

use crate::datatypes::{units_view, ElementUnit, ElementUnitView, Unit};
use crate::decimal::Decimal;
use crate::error::{UnitError, UnitErrorView};
use crate::safety::{is_safe, is_safe_text};
use crate::text::{chars_of, pieces_of, split, split_spec};
use vstd::prelude::*;

verus! {

/// What reading the atomic expression `text` gives, with `symbol` between
/// the name and the exponent.
///
/// A text with an unsafe character is refused before anything is read, as
/// a text that cannot be parsed. The symbol must occur exactly once, with a
/// name before it; the text behind it must be a decimal literal that can be
/// held (see [`Decimal::of_text`]).
pub open spec fn parse_atomic_spec(text: Seq<char>, symbol: Seq<char>) -> Result<
    ElementUnitView,
    UnitErrorView,
> {
    let pieces = split_spec(text, symbol);
    if !is_safe_text(text) {
        Err(UnitErrorView::ParseError(text))
    } else if pieces.len() != 2 || pieces[0].len() == 0 {
        Err(UnitErrorView::ParseError(text))
    } else {
        match Decimal::of_text(pieces[1]) {
            Some(exp) => Ok(ElementUnit::unresolved(pieces[0], exp)),
            None => Err(UnitErrorView::ParseError("Bad exponential"@)),
        }
    }
}

/// What reading each of `pieces` as an atomic expression gives: the atomic
/// units in the order of the pieces, or the failure of the first piece that
/// cannot be read.
pub open spec fn parse_pieces_spec(pieces: Seq<Seq<char>>, symbol: Seq<char>) -> Result<
    Seq<ElementUnitView>,
    UnitErrorView,
>
    decreases pieces.len(),
{
    if pieces.len() == 0 {
        Ok(Seq::empty())
    } else {
        match parse_pieces_spec(pieces.drop_last(), symbol) {
            Err(e) => Err(e),
            Ok(units) => match parse_atomic_spec(pieces.last(), symbol) {
                Err(e) => Err(e),
                Ok(unit) => Ok(units.push(unit)),
            },
        }
    }
}

/// What reading the compound expression `text` gives. A text with an unsafe
/// character is refused before it is cut, as a text that cannot be parsed.
/// Any other text is cut at each `delimiter`, and each piece is read as an
/// atomic expression.
pub open spec fn parse_compound_spec(
    text: Seq<char>,
    delimiter: Seq<char>,
    symbol: Seq<char>,
) -> Result<Seq<ElementUnitView>, UnitErrorView> {
    if !is_safe_text(text) {
        Err(UnitErrorView::ParseError(text))
    } else {
        parse_pieces_spec(split_spec(text, delimiter), symbol)
    }
}

/// A failure among the first pieces is the failure of the whole.
pub proof fn lemma_parse_pieces_prefix_error(pieces: Seq<Seq<char>>, symbol: Seq<char>, k: int)
    requires
        0 <= k <= pieces.len(),
        parse_pieces_spec(pieces.take(k), symbol) is Err,
    ensures
        parse_pieces_spec(pieces, symbol) == parse_pieces_spec(pieces.take(k), symbol),
    decreases pieces.len() - k,
{
    if k == pieces.len() {
        assert(pieces.take(k) =~= pieces);
    } else {
        assert(pieces.take(k + 1).drop_last() =~= pieces.take(k));
        lemma_parse_pieces_prefix_error(pieces, symbol, k + 1);
    }
}

/// A reader of unit expressions whose two symbols can be set.
pub trait UnitParser {
    /// The text that stands between the atomic units of a compound one.
    spec fn delimiter(&self) -> Seq<char>;

    /// The text that stands between a name and its exponent.
    spec fn exp_symbol(&self) -> Seq<char>;

    /// Sets the delimiter, unless it holds an unsafe character.
    fn set_delimiter(&mut self, delimiter: &str) -> (r: bool)
        ensures
            r == is_safe_text(delimiter@),
            r ==> final(self).delimiter() == delimiter@,
            !r ==> final(self).delimiter() == old(self).delimiter(),
            final(self).exp_symbol() == old(self).exp_symbol(),
    ;

    /// Sets the exponent symbol, unless it holds an unsafe character.
    fn set_exp_symbol(&mut self, symbol: &str) -> (r: bool)
        ensures
            r == is_safe_text(symbol@),
            r ==> final(self).exp_symbol() == symbol@,
            !r ==> final(self).exp_symbol() == old(self).exp_symbol(),
            final(self).delimiter() == old(self).delimiter(),
    ;

    /// The delimiter, which never holds an unsafe character.
    fn get_delimiter(&self) -> (r: &String)
        ensures
            r@ == self.delimiter(),
            is_safe_text(r@),
    ;

    /// The exponent symbol, which never holds an unsafe character.
    fn get_exp_symbol(&self) -> (r: &String)
        ensures
            r@ == self.exp_symbol(),
            is_safe_text(r@),
    ;

    /// Reads an atomic expression: a name, the exponent symbol, an exponent.
    /// A text with an unsafe character is never read: it is a parse error
    /// that holds the text.
    fn parse_element_unit(&self, text: &str) -> (r: Result<ElementUnit, UnitError>)
        ensures
            !is_safe_text(text@) ==> (r matches Err(UnitError::ParseError(t)) && t@ == text@),
            match r {
                Ok(unit) => parse_atomic_spec(text@, self.exp_symbol()) == Ok::<
                    ElementUnitView,
                    UnitErrorView,
                >(unit@),
                Err(e) => parse_atomic_spec(text@, self.exp_symbol()) == Err::<
                    ElementUnitView,
                    UnitErrorView,
                >(e@),
            },
    ;

    /// Reads a compound expression: atomic ones with the delimiter between.
    /// A text with an unsafe character is never read, nor cut: it is a
    /// parse error that holds the text.
    fn parse_unit(&self, text: &str) -> (r: Result<Unit, UnitError>)
        ensures
            !is_safe_text(text@) ==> (r matches Err(UnitError::ParseError(t)) && t@ == text@),
            match r {
                Ok(unit) => parse_compound_spec(text@, self.delimiter(), self.exp_symbol()) == Ok::<
                    Seq<ElementUnitView>,
                    UnitErrorView,
                >(unit@),
                Err(e) => parse_compound_spec(text@, self.delimiter(), self.exp_symbol()) == Err::<
                    Seq<ElementUnitView>,
                    UnitErrorView,
                >(e@),
            },
    ;
}

/// The reader for expressions written on one line, `*` between atomic units
/// and `^` before an exponent unless set otherwise.
pub struct InlineUnitParser {
    delimiter: String,
    exp_symbol: String,
}

impl InlineUnitParser {
    #[verifier::type_invariant]
    spec fn symbols_safe(self) -> bool {
        is_safe_text(self.delimiter@) && is_safe_text(self.exp_symbol@)
    }
}

impl Default for InlineUnitParser {
    fn default() -> (r: Self)
        ensures
            r.delimiter() == "*"@,
            r.exp_symbol() == "^"@,
    {
        proof {
            reveal_strlit("*");
            reveal_strlit("^");
        }
        Self { delimiter: String::from_str("*"), exp_symbol: String::from_str("^") }
    }
}

impl UnitParser for InlineUnitParser {
    closed spec fn delimiter(&self) -> Seq<char> {
        self.delimiter@
    }

    closed spec fn exp_symbol(&self) -> Seq<char> {
        self.exp_symbol@
    }

    fn set_delimiter(&mut self, delimiter: &str) -> (r: bool) {
        proof {
            use_type_invariant(&*self);
        }
        if !is_safe(delimiter) {
            return false;
        }
        self.delimiter = delimiter.to_owned();
        true
    }

    fn set_exp_symbol(&mut self, symbol: &str) -> (r: bool) {
        proof {
            use_type_invariant(&*self);
        }
        if !is_safe(symbol) {
            return false;
        }
        self.exp_symbol = symbol.to_owned();
        true
    }

    fn get_delimiter(&self) -> (r: &String) {
        proof {
            use_type_invariant(self);
        }
        &self.delimiter
    }

    fn get_exp_symbol(&self) -> (r: &String) {
        proof {
            use_type_invariant(self);
        }
        &self.exp_symbol
    }

    fn parse_element_unit(&self, text: &str) -> (r: Result<ElementUnit, UnitError>) {
        if !is_safe(text) {
            return Err(UnitError::ParseError(text.to_owned()));
        }
        let chars = chars_of(text);
        let symbol = chars_of(self.exp_symbol.as_str());
        let ranges = split(&chars, &symbol);
        proof {
            assert(pieces_of(chars@, ranges@).len() == ranges@.len());
        }
        if ranges.len() != 2 {
            return Err(UnitError::ParseError(text.to_owned()));
        }
        let (name_start, name_end) = ranges[0];
        let (exp_start, exp_end) = ranges[1];
        proof {
            assert(pieces_of(chars@, ranges@)[0] == chars@.subrange(
                name_start as int,
                name_end as int,
            ));
            assert(pieces_of(chars@, ranges@)[1] == chars@.subrange(
                exp_start as int,
                exp_end as int,
            ));
        }
        if name_start == name_end {
            return Err(UnitError::ParseError(text.to_owned()));
        }
        let name = text.substring_char(name_start, name_end);
        let token = text.substring_char(exp_start, exp_end);
        match Decimal::parse(token) {
            Some(exp) => Ok(ElementUnit::new(name, exp)),
            None => Err(UnitError::ParseError("Bad exponential".to_owned())),
        }
    }

    fn parse_unit(&self, text: &str) -> (r: Result<Unit, UnitError>) {
        if !is_safe(text) {
            return Err(UnitError::ParseError(text.to_owned()));
        }
        let chars = chars_of(text);
        let delimiter = chars_of(self.delimiter.as_str());
        let ranges = split(&chars, &delimiter);
        let ghost pieces = split_spec(text@, self.delimiter());
        let ghost symbol = self.exp_symbol();
        let ghost mut units: Seq<ElementUnitView> = Seq::empty();
        let mut partials: Vec<ElementUnit> = Vec::new();
        let mut k: usize = 0;
        proof {
            assert(pieces.len() == ranges@.len());
            assert(pieces.take(0) =~= Seq::<Seq<char>>::empty());
            assert(units =~= units_view(partials@));
        }
        while k < ranges.len()
            invariant
                k <= ranges.len(),
                chars@ == text@,
                is_safe_text(text@),
                symbol == self.exp_symbol(),
                pieces == pieces_of(chars@, ranges@),
                pieces == split_spec(text@, self.delimiter()),
                crate::text::ranges_within(ranges@, chars@.len() as int),
                units == units_view(partials@),
                parse_pieces_spec(pieces.take(k as int), symbol) == Ok::<
                    Seq<ElementUnitView>,
                    UnitErrorView,
                >(units),
            decreases ranges.len() - k,
        {
            let (from, to) = ranges[k];
            assert(pieces[k as int] == chars@.subrange(from as int, to as int));
            let piece = text.substring_char(from, to);
            proof {
                assert(pieces.take(k + 1).drop_last() =~= pieces.take(k as int));
                assert(pieces.take(k + 1).last() == pieces[k as int]);
            }
            match self.parse_element_unit(piece) {
                Ok(unit) => {
                    partials.push(unit);
                    proof {
                        assert(units_view(partials@) =~= units.push(unit@));
                        units = units.push(unit@);
                    }
                },
                Err(e) => {
                    proof {
                        lemma_parse_pieces_prefix_error(pieces, symbol, k + 1);
                    }
                    return Err(e);
                },
            }
            k = k + 1;
        }
        proof {
            assert(pieces.take(k as int) =~= pieces);
        }
        Ok(Unit::from_vec(partials))
    }
}

} // verus!
