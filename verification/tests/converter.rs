use libunits_converter::unitquery::{DimensionRow, TableUnitQuery, UnitQuery, UnitRow};
use libunits_converter::{
    Decimal, Dimension, ElementUnit, Magnitude, MainConverter, MainUnitFactory, Unit,
    UnitConverter, UnitError, UnitFactory, Value,
};
use std::rc::Rc;

fn float_of(d: Decimal) -> f64 {
    d.to_text().parse::<f64>().unwrap()
}

fn product(powers: &[libunits_converter::Power]) -> f64 {
    let mut cf = 1.;
    for p in powers {
        cf *= float_of(p.base).powf(float_of(p.exponent));
    }
    cf
}

fn evaluate(m: &Magnitude) -> f64 {
    float_of(m.coefficient) * product(&m.numerator) / product(&m.denominator)
}

fn unit_row(name: &str, dimension: &str, digits: i64, power: i32) -> UnitRow {
    UnitRow {
        name: name.to_owned(),
        dimension: dimension.to_owned(),
        factor: Decimal::new(digits, power),
    }
}

fn dimension_row(name: &str, vector: [i32; 7]) -> DimensionRow {
    DimensionRow { name: name.to_owned(), vector: Dimension(vector) }
}

fn catalog() -> TableUnitQuery {
    TableUnitQuery::new(
        vec![
            unit_row("kg", "mass", 1, 0),
            unit_row("g", "mass", 1, -3),
            unit_row("s", "duration", 1, 0),
            unit_row("h", "duration", 3600, 0),
            unit_row("m", "length", 1, 0),
            unit_row("km", "length", 1, 3),
        ],
        vec![
            dimension_row("mass", [1, 0, 0, 0, 0, 0, 0]),
            dimension_row("duration", [0, 1, 0, 0, 0, 0, 0]),
            dimension_row("length", [0, 0, 1, 0, 0, 0, 0]),
        ],
    )
}

fn one(n: i64) -> Decimal {
    Decimal::from_int(n)
}

#[test]
fn lib_test_valid_unit() {
    let c = Rc::new(catalog());
    let mut converter = MainConverter::new(c);

    let pu = ElementUnit::new("kg", one(1));
    assert!(converter.is_valid_unit(&pu.into()).unwrap());

    let pu = ElementUnit::new("kg1", one(1));
    assert!(!converter.is_valid_unit(&pu.into()).unwrap());
}

#[test]
fn lib_test_same_dimension() {
    let c = Rc::new(catalog());
    let converter = MainConverter::new(c);
    let pu = ElementUnit::new("kg", one(1));
    let pu2 = ElementUnit::new("g", one(1));

    assert!(converter.are_same_dimension(&pu.into(), &pu2.into()).unwrap().0);

    let full_unit =
        Unit::from_vec(vec![ElementUnit::new("kg", one(1)), ElementUnit::new("s", one(-1))]);
    let full_unit2 =
        Unit::from_vec(vec![ElementUnit::new("g", one(1)), ElementUnit::new("h", one(-1))]);

    let (same, d1, d2) = converter.are_same_dimension(&full_unit, &full_unit2).unwrap();
    assert!(same);
    assert!(d1 == Dimension([1, -1, 0, 0, 0, 0, 0]));
    assert!(d2 == Dimension([1, -1, 0, 0, 0, 0, 0]));
}

#[test]
fn lib_test_get_dimension() {
    let c = Rc::new(catalog());
    let converter = MainConverter::new(c);
    let pu = ElementUnit::new("kg", one(1));

    assert!(converter.get_dimension(&pu.into()).unwrap() == Dimension([1, 0, 0, 0, 0, 0, 0]));

    let full_unit =
        Unit::from_vec(vec![ElementUnit::new("kg", one(1)), ElementUnit::new("s", one(-1))]);
    assert!(converter.get_dimension(&full_unit).unwrap() == Dimension([1, -1, 0, 0, 0, 0, 0]));
}

#[test]
fn lib_test_get_coefficient_factor() {
    let c = Rc::new(catalog());
    let converter = MainConverter::new(c);
    let pu = ElementUnit::new("g", one(1));
    let full_unit =
        Unit::from_vec(vec![ElementUnit::new("g", one(1)), ElementUnit::new("h", one(-1))]);

    assert!(product(&converter.get_conversion_factor(&pu.into()).unwrap()) == 1e-3);
    assert!(product(&converter.get_conversion_factor(&full_unit).unwrap()) == 1e-3 / 3600.);
}

#[test]
fn lib_test_convert() {
    let c = Rc::new(catalog());
    let converter = MainConverter::new(c);
    let pu = ElementUnit::new("g", one(1));
    let pu2 = ElementUnit::new("kg", one(1));
    let pu_wrong = ElementUnit::new("m", one(1));

    let value = Value::from_value(pu.into(), one(5));

    assert!(evaluate(&converter.convert(&value, &pu2.into()).unwrap().value) == 5e-3);

    assert!(converter.convert(&value, &pu_wrong.into()).is_err());

    let full_unit =
        Unit::from_vec(vec![ElementUnit::new("g", one(2)), ElementUnit::new("h", one(-1))]);
    let full_unit2 =
        Unit::from_vec(vec![ElementUnit::new("kg", one(2)), ElementUnit::new("h", one(-1))]);

    let value = Value::from_value(full_unit, one(5));

    assert!(evaluate(&converter.convert(&value, &full_unit2).unwrap().value) == 5. * 1e-6);
}

#[test]
fn lib_test_construct() {
    let c = Rc::new(catalog());
    let converter = MainUnitFactory::new(c);
    let pu = converter.construct_unit("g", one(1)).unwrap();
    let pu2 = converter.construct_unit("kg", one(1)).unwrap();
    let pu3 = converter.construct_unit("m", one(1)).unwrap();

    assert!(pu.dim == Some("mass".to_owned()));
    assert!(pu2.dim == Some("mass".to_owned()));
    assert!(pu3.dim == Some("length".to_owned()));
    assert!(float_of(pu.get_factor()) == 1e-3);
}

#[test]
fn mod_test_dimension_name() {
    let c = catalog();
    let pu = ElementUnit::new("kg", one(1));
    let name = c.get_dimension_name(&pu).unwrap();
    assert!(name == *"mass");
    let pu = ElementUnit::new("s", one(1));
    let name = c.get_dimension_name(&pu).unwrap();
    assert!(name == *"duration");

    let pu = ElementUnit::new("FALSEUNIT", one(99));
    assert!(c.get_dimension_name(&pu).is_err());
}

#[test]
fn mod_test_conversion_factor() {
    let c = catalog();
    let pu = ElementUnit::new("kg", one(1));
    let cv = c.get_conversion_factor(&pu).unwrap();
    assert!(float_of(cv) == 1.);
    let pu = ElementUnit::new("g", one(1));
    let cv = c.get_conversion_factor(&pu).unwrap();
    assert!(float_of(cv) == 1e-3);

    let pu = ElementUnit::new("FALSEUNIT", one(99));
    assert!(c.get_conversion_factor(&pu).is_err());
}

#[test]
fn convert_mismatch_holds_both_dimensions() {
    let converter = MainConverter::new(Rc::new(catalog()));
    let value = Value::from_value(ElementUnit::new("g", one(1)).into(), one(5));
    let target: Unit = ElementUnit::new("m", one(1)).into();
    match converter.convert(&value, &target) {
        Err(UnitError::BadDimension(d1, d2)) => {
            assert_eq!(d1.0, [1, 0, 0, 0, 0, 0, 0]);
            assert_eq!(d2.0, [0, 0, 1, 0, 0, 0, 0]);
        }
        _ => panic!("expected a dimension mismatch"),
    }
}
