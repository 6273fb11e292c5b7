//! A catalog kept in two relational tables: the queries that ask it, and
//! what their answers mean. Sending a query and fetching its rows is left to
//! the caller.
//!
//! The table `conversiontable` holds one row for each unit: `unit_name`,
//! `dimension_name`, `conversionfactor`. The table `dimension` holds one row
//! for each dimension: `dimension_name` and one column for each of the seven
//! base dimensions.

use crate::datatypes::Dimension;
use crate::error::{UnitError, UnitErrorView};
use crate::text::{chars_of, pieces_of, ranges_within, split, split_spec, trim_range, trim_spec};
use crate::unitquery::names_view;
use vstd::prelude::*;

verus! {

/// The query for the names of all units.
pub open spec fn unit_list_query_spec() -> Seq<char> {
    "SELECT unit_name, dimension_name FROM conversiontable;"@
}

/// The query for the name of the dimension of the unit `unit_name`.
pub open spec fn dimension_name_query_spec(unit_name: Seq<char>) -> Seq<char> {
    "SELECT dimension_name FROM conversiontable WHERE unit_name = '"@ + unit_name + "'"@
}

/// The query for the row of the dimension `dimension_name`. The base
/// dimensions are asked in the order of the axes of a dimension vector.
pub open spec fn dimension_query_spec(dimension_name: Seq<char>) -> Seq<char> {
    "SELECT dimension_name, mass, duration, length, current, amount, temperature, luminosity FROM dimension WHERE dimension_name = '"@
        + dimension_name + "'"@
}

/// The query for the conversion factor of the unit `unit_name`.
pub open spec fn conversion_factor_query_spec(unit_name: Seq<char>) -> Seq<char> {
    "SELECT conversionfactor FROM conversiontable WHERE unit_name = '"@ + unit_name + "'"@
}

/// The query for the names of all units.
pub fn unit_list_query() -> (r: String)
    ensures
        r@ == unit_list_query_spec(),
{
    String::from_str("SELECT unit_name, dimension_name FROM conversiontable;")
}

/// The query for the name of the dimension of a unit.
pub fn dimension_name_query(unit_name: &str) -> (r: String)
    ensures
        r@ == dimension_name_query_spec(unit_name@),
{
    String::from_str("SELECT dimension_name FROM conversiontable WHERE unit_name = '").concat(
        unit_name,
    ).concat("'")
}

/// The query for the row of a dimension.
pub fn dimension_query(dimension_name: &str) -> (r: String)
    ensures
        r@ == dimension_query_spec(dimension_name@),
{
    String::from_str(
        "SELECT dimension_name, mass, duration, length, current, amount, temperature, luminosity FROM dimension WHERE dimension_name = '",
    ).concat(dimension_name).concat("'")
}

/// The query for the conversion factor of a unit.
pub fn conversion_factor_query(unit_name: &str) -> (r: String)
    ensures
        r@ == conversion_factor_query_spec(unit_name@),
{
    String::from_str("SELECT conversionfactor FROM conversiontable WHERE unit_name = '").concat(
        unit_name,
    ).concat("'")
}

/// The failure of a query that did not answer with one row.
pub open spec fn not_one_result() -> UnitErrorView {
    UnitErrorView::Query("SqlQuery: should have exactly one result"@)
}

/// The names of the units as the catalog lists them. A catalog without
/// units is a failure.
pub fn unit_list_of_rows(names: Vec<String>) -> (r: Result<Vec<String>, UnitError>)
    ensures
        names@.len() == 0 ==> (r matches Err(e) && e@ == UnitErrorView::Custom(
            "Empty databse"@,
        )),
        names@.len() > 0 ==> r == Ok::<Vec<String>, UnitError>(names),
{
    if names.len() == 0 {
        Err(UnitError::Custom("Empty databse".to_owned()))
    } else {
        Ok(names)
    }
}

/// The one row that a query for a single unit or dimension answers with.
/// No row, or more than one, is a failure.
pub fn single_row<T>(rows: Vec<T>) -> (r: Result<T, UnitError>)
    ensures
        rows@.len() == 1 ==> r == Ok::<T, UnitError>(rows@[0]),
        rows@.len() != 1 ==> (r matches Err(e) && e@ == not_one_result()),
{
    let mut rows = rows;
    if rows.len() != 1 {
        return Err(UnitError::Query("SqlQuery: should have exactly one result".to_owned()));
    }
    match rows.pop() {
        Some(row) => Ok(row),
        None => Err(UnitError::Query("SqlQuery: should have exactly one result".to_owned())),
    }
}

/// The dimension that a row of the table `dimension` holds: its name, and
/// the seven columns as the axes of the vector. A row with another number
/// of columns is a failure.
pub fn dimension_of_row(name: String, columns: &Vec<i32>) -> (r: Result<
    (String, Dimension),
    UnitError,
>)
    ensures
        columns@.len() == 7 ==> (r matches Ok((n, d)) && n == name && d@ == Seq::new(
            7,
            |i: int| columns@[i] as int,
        )),
        columns@.len() != 7 ==> (r matches Err(e) && e@ == UnitErrorView::Query(
            "SqlQuery: malformed dimension row"@,
        )),
{
    if columns.len() != 7 {
        return Err(UnitError::Query("SqlQuery: malformed dimension row".to_owned()));
    }
    let dimension = Dimension(
        [
            columns[0],
            columns[1],
            columns[2],
            columns[3],
            columns[4],
            columns[5],
            columns[6],
        ],
    );
    assert(dimension@ =~= Seq::new(7, |i: int| columns@[i] as int));
    Ok((name, dimension))
}

/// Whether the table `dimension` has the shape that the queries expect: at
/// least one row, of nine columns.
pub fn dimension_table_is_sound(column_count: Option<usize>) -> (r: bool)
    ensures
        r == (column_count == Some(9usize)),
{
    match column_count {
        Some(n) => n == 9,
        None => false,
    }
}

/// The pieces without the blanks around them, those left out of which
/// nothing remains.
pub open spec fn statements_of_pieces(pieces: Seq<Seq<char>>) -> Seq<Seq<char>>
    decreases pieces.len(),
{
    if pieces.len() == 0 {
        Seq::empty()
    } else if trim_spec(pieces.last()).len() == 0 {
        statements_of_pieces(pieces.drop_last())
    } else {
        statements_of_pieces(pieces.drop_last()).push(trim_spec(pieces.last()))
    }
}

/// The statements of a script: what stands between its semicolons, without
/// the blanks around it, and without what is empty then.
pub open spec fn statements_spec(script: Seq<char>) -> Seq<Seq<char>> {
    statements_of_pieces(split_spec(script, seq![';']))
}

/// The statements of a script that fills the tables, in their order.
pub fn statements(script: &str) -> (r: Vec<String>)
    ensures
        names_view(r@) == statements_spec(script@),
{
    let chars = chars_of(script);
    let mut semicolon: Vec<char> = Vec::new();
    semicolon.push(';');
    assert(semicolon@ =~= seq![';']);
    let ranges = split(&chars, &semicolon);
    let ghost pieces = split_spec(script@, seq![';']);
    let mut found: Vec<String> = Vec::new();
    let mut k: usize = 0;
    proof {
        assert(pieces.len() == ranges@.len());
        assert(pieces.take(0) =~= Seq::<Seq<char>>::empty());
        assert(names_view(found@) =~= Seq::<Seq<char>>::empty());
    }
    while k < ranges.len()
        invariant
            k <= ranges.len(),
            chars@ == script@,
            pieces == pieces_of(chars@, ranges@),
            ranges_within(ranges@, chars@.len() as int),
            names_view(found@) == statements_of_pieces(pieces.take(k as int)),
        decreases ranges.len() - k,
    {
        let (from, to) = ranges[k];
        proof {
            assert(pieces[k as int] == chars@.subrange(from as int, to as int));
            assert(pieces.take(k + 1).drop_last() =~= pieces.take(k as int));
            assert(pieces.take(k + 1).last() == pieces[k as int]);
        }
        let (a, b) = trim_range(&chars, from, to);
        if a < b {
            let ghost before = names_view(found@);
            found.push(script.substring_char(a, b).to_owned());
            assert(names_view(found@) =~= before.push(chars@.subrange(a as int, b as int)));
        }
        k = k + 1;
    }
    proof {
        assert(pieces.take(k as int) =~= pieces);
    }
    found
}

} // verus!
