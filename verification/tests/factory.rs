use libunits_converter::unitquery::{DimensionRow, TableUnitQuery, UnitQuery, UnitRow};
use libunits_converter::{
    Decimal, Dimension, ElementUnit, InlineUnitParser, MainConverter, MainUnitFactory, Unit,
    UnitConverter, UnitError, UnitFactory, Value,
};
use std::rc::Rc;

fn unit_row(name: &str, dimension: &str, digits: i64, power: i32) -> UnitRow {
    UnitRow {
        name: name.to_owned(),
        dimension: dimension.to_owned(),
        factor: Decimal::new(digits, power),
    }
}

fn small_catalog() -> TableUnitQuery {
    TableUnitQuery::new(
        vec![
            unit_row("kg", "mass", 1, 0),
            unit_row("g", "mass", 1, -3),
            unit_row("h", "duration", 3600, 0),
            unit_row("ghost", "nowhere", 7, 0),
            unit_row("g", "length", 5, 0),
        ],
        vec![
            DimensionRow { name: "mass".to_owned(), vector: Dimension([1, 0, 0, 0, 0, 0, 0]) },
            DimensionRow { name: "duration".to_owned(), vector: Dimension([0, 1, 0, 0, 0, 0, 0]) },
            DimensionRow { name: "mass".to_owned(), vector: Dimension([9, 9, 9, 9, 9, 9, 9]) },
        ],
    )
}

#[test]
fn fill_writes_dimension_and_factor() {
    let factory = MainUnitFactory::new(Rc::new(small_catalog()));
    let mut unit = ElementUnit::new("g", Decimal::from_int(2));
    unit.set_dim("stale");
    unit.set_factor(Decimal::from_int(99));
    factory.fill(&mut unit).unwrap();
    assert_eq!(unit.name, "g");
    assert_eq!(unit.exp(), Decimal::from_int(2));
    assert_eq!(unit.dim, Some("mass".to_owned()));
    assert_eq!(unit.get_factor(), Decimal::new(1, -3));
}

#[test]
fn fill_of_an_unknown_unit_fails_and_leaves_it() {
    let factory = MainUnitFactory::new(Rc::new(small_catalog()));
    let mut unit = ElementUnit::new("furlong", Decimal::from_int(1));
    match factory.fill(&mut unit) {
        Err(UnitError::BadUnit(name)) => assert_eq!(name, "furlong"),
        _ => panic!("expected an unknown unit"),
    }
    assert_eq!(unit.dim, None);
    assert_eq!(unit.get_factor(), Decimal::new(0, 0));
    assert!(factory.construct_unit("furlong", Decimal::from_int(1)).is_err());
}

#[test]
fn parse_fill_resolves_every_atom() {
    let factory = MainUnitFactory::new(Rc::new(small_catalog()));
    let parser = InlineUnitParser::default();
    let unit = factory.parse_fill(&parser, "g^1*h^-1").unwrap();
    assert_eq!(unit.partials.len(), 2);
    assert_eq!(unit.partials[0].dim, Some("mass".to_owned()));
    assert_eq!(unit.partials[0].get_factor(), Decimal::new(1, -3));
    assert_eq!(unit.partials[1].dim, Some("duration".to_owned()));
    assert_eq!(unit.partials[1].get_factor(), Decimal::new(3600, 0));
    assert_eq!(unit.partials[1].exp(), Decimal::from_int(-1));
}

#[test]
fn parse_fill_reports_the_first_failure() {
    let factory = MainUnitFactory::new(Rc::new(small_catalog()));
    let parser = InlineUnitParser::default();
    assert!(matches!(factory.parse_fill(&parser, "g^1*h"), Err(UnitError::ParseError(_))));
    match factory.parse_fill(&parser, "g;^1") {
        Err(UnitError::ParseError(text)) => assert_eq!(text, "g;^1"),
        _ => panic!("expected a refusal"),
    }
    match factory.parse_fill(&parser, "g^1*yd^2*ft^1") {
        Err(UnitError::BadUnit(name)) => assert_eq!(name, "yd"),
        _ => panic!("expected an unknown unit"),
    }
}

#[test]
fn the_first_row_of_a_name_counts() {
    let catalog = small_catalog();
    let g = ElementUnit::new("g", Decimal::from_int(1));
    assert_eq!(catalog.get_dimension_name(&g).unwrap(), "mass");
    assert_eq!(catalog.get_conversion_factor(&g).unwrap(), Decimal::new(1, -3));
    let (name, dimension) = catalog.get_dimension(&g).unwrap();
    assert_eq!(name, "mass");
    assert_eq!(dimension.0, [1, 0, 0, 0, 0, 0, 0]);
    assert_eq!(catalog.find_unit(&"g".to_owned()), Some(1));
    assert_eq!(catalog.find_unit(&"G".to_owned()), None);
    assert_eq!(catalog.find_dimension(&"duration".to_owned()), Some(1));
    assert_eq!(catalog.find_dimension(&"length".to_owned()), None);
}

#[test]
fn the_dimension_is_found_by_name_whatever_the_atom_holds() {
    let catalog = small_catalog();
    let mut g = ElementUnit::new("g", Decimal::from_int(1));
    g.set_dim("duration");
    assert_eq!(catalog.get_dimension(&g).unwrap().0, "mass");
    let converter = MainConverter::new(Rc::new(small_catalog()));
    assert_eq!(converter.get_dimension(&g.into()).unwrap().0, [1, 0, 0, 0, 0, 0, 0]);
}

#[test]
fn a_unit_of_a_missing_dimension_has_a_name_and_a_factor_only() {
    let catalog = small_catalog();
    let ghost = ElementUnit::new("ghost", Decimal::from_int(1));
    assert_eq!(catalog.get_dimension_name(&ghost).unwrap(), "nowhere");
    match catalog.get_dimension(&ghost) {
        Err(UnitError::Query(name)) => assert_eq!(name, "nowhere"),
        _ => panic!("expected a query failure"),
    }
}

#[test]
fn the_list_of_units_is_in_the_order_of_the_rows() {
    assert_eq!(small_catalog().get_unit_list().unwrap(), ["kg", "g", "h", "ghost", "g"]);
    match TableUnitQuery::new(vec![], vec![]).get_unit_list() {
        Err(UnitError::Custom(text)) => assert_eq!(text, "Empty databse"),
        _ => panic!("expected an empty catalog"),
    }
}

#[test]
fn an_empty_catalog_makes_validity_fail_each_time() {
    let mut converter = MainConverter::new(Rc::new(TableUnitQuery::new(vec![], vec![])));
    let unit: Unit = ElementUnit::new("kg", Decimal::from_int(1)).into();
    assert!(matches!(converter.is_valid_unit(&unit), Err(UnitError::Custom(_))));
    assert!(matches!(converter.is_valid_unit(&unit), Err(UnitError::Custom(_))));
}

#[test]
fn validity_asks_for_every_atom() {
    let mut converter = MainConverter::new(Rc::new(small_catalog()));
    let known =
        Unit::from_vec(vec![ElementUnit::new("kg", Decimal::from_int(1)), ElementUnit::new("h", Decimal::from_int(-1))]);
    let mixed =
        Unit::from_vec(vec![ElementUnit::new("kg", Decimal::from_int(1)), ElementUnit::new("H", Decimal::from_int(-1))]);
    assert!(converter.is_valid_unit(&known).unwrap());
    assert!(!converter.is_valid_unit(&mixed).unwrap());
    assert!(converter.is_valid_unit(&Unit::from_vec(vec![])).unwrap());
    assert!(converter.is_valid_unit(&known).unwrap());
}

#[test]
fn get_dimension_mut_writes_the_names() {
    let converter = MainConverter::new(Rc::new(small_catalog()));
    let mut unit =
        Unit::from_vec(vec![ElementUnit::new("kg", Decimal::from_int(2)), ElementUnit::new("h", Decimal::from_int(-1))]);
    let dimension = converter.get_dimension_mut(&mut unit).unwrap();
    assert_eq!(dimension.0, [2, -1, 0, 0, 0, 0, 0]);
    assert_eq!(unit.partials[0].dim, Some("mass".to_owned()));
    assert_eq!(unit.partials[1].dim, Some("duration".to_owned()));
    assert_eq!(unit.partials[0].name, "kg");
    assert_eq!(unit.partials[1].exp(), Decimal::from_int(-1));

    let mut broken =
        Unit::from_vec(vec![ElementUnit::new("kg", Decimal::from_int(2)), ElementUnit::new("yd", Decimal::from_int(-1))]);
    assert!(converter.get_dimension_mut(&mut broken).is_err());
    assert_eq!(broken.partials[0].dim, None);
    assert_eq!(broken.partials[1].dim, None);
}

#[test]
fn a_dimension_beyond_what_an_axis_holds_is_a_failure() {
    let converter = MainConverter::new(Rc::new(small_catalog()));
    let unit: Unit = ElementUnit::new("kg", Decimal::new(1, 10)).into();
    match converter.get_dimension(&unit) {
        Err(UnitError::Custom(text)) => assert_eq!(text, "Dimension out of range"),
        _ => panic!("expected a failure"),
    }
    let fine: Unit = ElementUnit::new("kg", Decimal::from_int(i32::MAX as i64)).into();
    assert_eq!(converter.get_dimension(&fine).unwrap().0[0], i32::MAX);
}

#[test]
fn fractional_exponents_round_each_atom_toward_zero() {
    let converter = MainConverter::new(Rc::new(small_catalog()));
    let unit = Unit::from_vec(vec![
        ElementUnit::new("kg", Decimal::new(5, -1)),
        ElementUnit::new("kg", Decimal::new(5, -1)),
        ElementUnit::new("h", Decimal::new(-25, -1)),
    ]);
    assert_eq!(converter.get_dimension(&unit).unwrap().0, [0, -2, 0, 0, 0, 0, 0]);
    assert_eq!(converter.get_dimension(&Unit::from_vec(vec![])).unwrap().0, [0; 7]);
}

#[test]
fn same_dimension_is_reflexive_and_symmetric() {
    let converter = MainConverter::new(Rc::new(small_catalog()));
    let a = Unit::from_vec(vec![ElementUnit::new("kg", Decimal::from_int(1)), ElementUnit::new("h", Decimal::from_int(-1))]);
    let b: Unit = ElementUnit::new("g", Decimal::from_int(1)).into();
    assert!(converter.are_same_dimension(&a, &a).unwrap().0);
    assert!(converter.are_same_dimension(&b, &b).unwrap().0);
    let (ab, d1, d2) = converter.are_same_dimension(&a, &b).unwrap();
    let (ba, e1, e2) = converter.are_same_dimension(&b, &a).unwrap();
    assert!(!ab && !ba);
    assert!(d1 == e2 && d2 == e1);
    assert_eq!(d1.0, [1, -1, 0, 0, 0, 0, 0]);
    assert_eq!(d2.0, [1, 0, 0, 0, 0, 0, 0]);
    let unknown: Unit = ElementUnit::new("yd", Decimal::from_int(1)).into();
    assert!(converter.are_same_dimension(&a, &unknown).is_err());
    assert!(converter.are_same_dimension(&unknown, &a).is_err());
}

#[test]
fn convert_keeps_the_factors_as_powers() {
    let converter = MainConverter::new(Rc::new(small_catalog()));
    let source = Unit::from_vec(vec![ElementUnit::new("g", Decimal::from_int(2)), ElementUnit::new("h", Decimal::from_int(-1))]);
    let target = Unit::from_vec(vec![ElementUnit::new("kg", Decimal::from_int(2)), ElementUnit::new("h", Decimal::from_int(-1))]);
    let value = Value::from_value(source.clone(), Decimal::from_int(5));
    let there = converter.convert(&value, &target).unwrap();
    assert_eq!(there.value.coefficient, Decimal::from_int(5));
    let bases = |powers: &Vec<libunits_converter::Power>| -> Vec<(Decimal, Decimal)> {
        powers.iter().map(|p| (p.base, p.exponent)).collect()
    };
    let from_g = vec![(Decimal::new(1, -3), Decimal::from_int(2)), (Decimal::new(3600, 0), Decimal::from_int(-1))];
    let from_kg = vec![(Decimal::new(1, 0), Decimal::from_int(2)), (Decimal::new(3600, 0), Decimal::from_int(-1))];
    assert_eq!(bases(&there.value.numerator), from_g);
    assert_eq!(bases(&there.value.denominator), from_kg);
    assert_eq!(there.unit.partials.len(), 2);
    assert_eq!(there.unit.partials[0].name, "kg");

    let back = converter.convert(&there, &source).unwrap();
    assert_eq!(back.value.coefficient, Decimal::from_int(5));
    assert_eq!(bases(&back.value.numerator), [from_g.clone(), from_kg.clone()].concat());
    assert_eq!(bases(&back.value.denominator), [from_kg, from_g].concat());
    assert_eq!(back.unit.partials[0].name, "g");
}

#[test]
fn convert_fails_where_a_factor_is_unknown() {
    let catalog = TableUnitQuery::new(vec![], vec![]);
    let converter = MainConverter::new(Rc::new(catalog));
    let empty = Unit::from_vec(vec![]);
    let value = Value::from_value(Unit::from_vec(vec![]), Decimal::from_int(3));
    let same = converter.convert(&value, &empty).unwrap();
    assert!(same.value.numerator.is_empty() && same.value.denominator.is_empty());
    let kg: Unit = ElementUnit::new("kg", Decimal::from_int(1)).into();
    assert!(matches!(converter.convert(&value, &kg), Err(UnitError::BadUnit(_))));
    assert!(matches!(converter.get_conversion_factor(&kg), Err(UnitError::BadUnit(_))));
}

#[test]
fn factory_test_construct() {
    let c = Rc::new(TableUnitQuery::new(
        vec![
            unit_row("g", "mass", 1, -3),
            unit_row("kg", "mass", 1, 0),
            unit_row("m", "length", 1, 0),
        ],
        vec![],
    ));
    let converter = MainUnitFactory::new(c);
    let pu = converter.construct_unit("g", Decimal::from_int(1)).unwrap();
    let pu2 = converter.construct_unit("kg", Decimal::from_int(1)).unwrap();
    let pu3 = converter.construct_unit("m", Decimal::from_int(1)).unwrap();

    assert!(pu.dim == Some("mass".to_owned()));
    assert!(pu2.dim == Some("mass".to_owned()));
    assert!(pu3.dim == Some("length".to_owned()));
    assert!(pu.get_factor().to_text().parse::<f64>().unwrap() == 1e-3);
}
