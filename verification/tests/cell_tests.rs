use coldb::cell::{FloatReadings, FloatValue, Key};
use coldb::parser::select::Binary;

fn float(v: f32) -> FloatValue {
    FloatValue {
        bits: v.to_bits(),
        text: v.to_string(),
    }
}

#[test]
fn floats_compare_as_their_numbers_do() {
    let samples = [
        0.0f32,
        -0.0,
        1.0,
        -1.0,
        1.5,
        -1.5,
        f32::MIN_POSITIVE,
        -f32::MIN_POSITIVE,
        1.0e-45,
        -1.0e-45,
        f32::MAX,
        f32::MIN,
        f32::INFINITY,
        f32::NEG_INFINITY,
        f32::NAN,
        -f32::NAN,
        f32::from_bits(0x7F80_0001),
        f32::from_bits(0xFFFF_FFFF),
        3.25,
        16777216.0,
    ];
    for a in samples {
        for b in samples {
            let x = float(a);
            let y = float(b);
            assert_eq!(x.satisfies(Binary::Eq, &y), a == b, "{} == {}", a, b);
            assert_eq!(x.satisfies(Binary::NotEq, &y), a != b, "{} != {}", a, b);
            assert_eq!(x.satisfies(Binary::Lt, &y), a < b, "{} < {}", a, b);
            assert_eq!(x.satisfies(Binary::LtEq, &y), a <= b, "{} <= {}", a, b);
            assert_eq!(x.satisfies(Binary::Gt, &y), a > b, "{} > {}", a, b);
            assert_eq!(x.satisfies(Binary::GtEq, &y), a >= b, "{} >= {}", a, b);
        }
        assert_eq!(float(a).is_nan(), a.is_nan());
    }
}

#[test]
fn a_float_value_is_copied_whole() {
    let x = float(2.5);
    let y = x.duplicate();
    assert_eq!(y.bits, 2.5f32.to_bits());
    assert_eq!(y.text, "2.5");
    assert_eq!(x, y);
}

#[test]
fn the_first_reading_of_a_literal_stays() {
    let mut floats = FloatReadings::new();
    assert!(floats.find("1.5").is_none());
    floats.add("1.5".to_string(), float(1.5));
    floats.add("2".to_string(), float(2.0));
    floats.add("1.5".to_string(), float(9.0));
    assert_eq!(floats.entries.len(), 3);
    assert_eq!(floats.find("1.5"), Some(&float(1.5)));
    assert_eq!(floats.find("2"), Some(&float(2.0)));
    assert!(floats.find("2.0").is_none());
    assert!(floats.find("").is_none());
}

#[test]
fn keys_are_ordered_within_their_kind_and_by_kind() {
    assert!(Key::Int(-5).less(&Key::Int(3)));
    assert!(!Key::Int(3).less(&Key::Int(3)));
    assert!(!Key::Int(4).less(&Key::Int(3)));
    assert!(Key::Bool(false).less(&Key::Bool(true)));
    assert!(!Key::Bool(true).less(&Key::Bool(false)));
    assert!(!Key::Bool(true).less(&Key::Bool(true)));
    assert!(Key::Str("a".to_string()).less(&Key::Str("ab".to_string())));
    assert!(!Key::Str("b".to_string()).less(&Key::Str("ab".to_string())));
    assert!(Key::Int(9).less(&Key::Str("".to_string())));
    assert!(Key::Str("z".to_string()).less(&Key::Bool(false)));
    assert!(Key::Int(9).less(&Key::Bool(false)));
    assert!(!Key::Bool(false).less(&Key::Int(9)));
    assert!(!Key::Str("".to_string()).less(&Key::Int(9)));
}

#[test]
fn keys_are_the_same_by_kind_and_value() {
    assert!(Key::Int(3).same(&Key::Int(3)));
    assert!(!Key::Int(3).same(&Key::Int(4)));
    assert!(Key::Str("x".to_string()).same(&Key::Str("x".to_string())));
    assert!(!Key::Str("x".to_string()).same(&Key::Str("y".to_string())));
    assert!(Key::Bool(true).same(&Key::Bool(true)));
    assert!(!Key::Bool(true).same(&Key::Bool(false)));
    assert!(!Key::Int(1).same(&Key::Bool(true)));
    assert_eq!(Key::Str("x".to_string()).duplicate(), Key::Str("x".to_string()));
    assert_eq!(Key::Int(-7).to_text(), "-7");
    assert_eq!(Key::Bool(false).to_text(), "false");
    assert_eq!(Key::Str("it".to_string()).to_text(), "it");
}
