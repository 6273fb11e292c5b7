use libunits_converter::decimal::Decimal;
use libunits_converter::parser::{InlineUnitParser, UnitParser};

fn to_float(d: Decimal) -> f64 {
    d.to_text().parse::<f64>().unwrap()
}

#[test]
fn t_simple_parse_element_unit() {
    let input = "kg^1";
    let parser = InlineUnitParser::default();
    let unit = parser.parse_element_unit(input).unwrap();
    assert!(unit.name == *"kg");
    assert!(to_float(unit.exp()) == 1.);
}

#[test]
fn t_simple_parse_element_unit_2() {
    let input = "Pa^-5";
    let parser = InlineUnitParser::default();
    let unit = parser.parse_element_unit(input).unwrap();
    assert!(unit.name == *"Pa");
    assert!(to_float(unit.exp()) == -5.);
}

#[test]
fn t_simple_parse_unit() {
    let input = "kg^1";
    let parser = InlineUnitParser::default();
    let unit = parser.parse_unit(input).unwrap();
    assert!(unit.partials.len() == 1);

    assert!(unit.partials[0].name == *"kg");
    assert!(to_float(unit.partials[0].exp()) == 1.);
}

#[test]
fn t_parse_unit() {
    let input = "kg^1*Pa^-6";
    let parser = InlineUnitParser::default();
    let unit = parser.parse_unit(input).unwrap();
    assert!(unit.partials.len() == 2);

    assert!(unit.partials[0].name == *"kg");
    assert!(to_float(unit.partials[0].exp()) == 1.);

    assert!(unit.partials[1].name == *"Pa");
    assert!(to_float(unit.partials[1].exp()) == -6.);
}

#[test]
fn t_setter_getter_parse() {
    let mut parser = InlineUnitParser::default();
    assert!(parser.get_delimiter() == "*");
    assert!(parser.get_exp_symbol() == "^");
    parser.set_delimiter("**");
    parser.set_exp_symbol("^^");
    assert!(parser.get_delimiter() == "**");
    assert!(parser.get_exp_symbol() == "^^");
}
