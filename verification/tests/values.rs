use fascript::convert::GetAstTypeTrait;
use fascript::float::{ratio_to_bits, FasFloat};
use fascript::syntax::parse_float;
use fascript::func::{AstFunc, AstFuncExpr, NativeFunc};
use fascript::task::TaskValue;
use fascript::types::{AstArrayType, AstFuncType, AstMapType, AstType};
use fascript::value::{ConversionError, FasValue};

fn float(x: f64) -> FasFloat {
    FasFloat { bits: x.to_bits() }
}

fn text(v: &FasValue) -> String {
    v.as_str()
}

#[test]
fn int_converts_to_the_float_of_the_same_value() {
    match FasValue::Int(5).try_as_type(AstType::Float) {
        Ok(FasValue::Float(f)) => assert_eq!(f.bits, 5.0f64.to_bits()),
        other => panic!("unexpected {:?}", other),
    }
}

#[test]
fn float_converts_to_int_by_rounding() {
    match FasValue::Float(float(5.0)).try_as_type(AstType::Int) {
        Ok(FasValue::Int(i)) => assert_eq!(i, 5),
        other => panic!("unexpected {:?}", other),
    }
    assert_eq!(FasValue::Float(float(2.5)).as_int(), 3);
    assert_eq!(FasValue::Float(float(-2.5)).as_int(), -3);
    assert_eq!(FasValue::Float(float(2.4999)).as_int(), 2);
    assert_eq!(FasValue::Float(float(0.5)).as_int(), 1);
    assert_eq!(FasValue::Float(float(0.49999999999999994)).as_int(), 0);
}

#[test]
fn array_of_ints_converts_to_array_of_their_decimal_texts() {
    let arr = FasValue::Array(vec![FasValue::Int(1), FasValue::Int(-20), FasValue::Int(300)]);
    let out = arr.as_array(AstType::String);
    assert!(arr.try_as_array(AstType::String).is_ok());
    assert_eq!(out.len(), 3);
    assert!(out[0] == FasValue::String("1".to_string()));
    assert!(out[1] == FasValue::String("-20".to_string()));
    assert!(out[2] == FasValue::String("300".to_string()));
    let typed = arr.try_as_type(AstArrayType::new(AstType::String)).unwrap();
    assert_eq!(text(&typed), "[ 1, -20, 300 ]");
}

#[test]
fn float_text_has_four_decimals_as_std_prints_them() {
    let samples: &[f64] = &[
        0.0, -0.0, 1.0, -1.0, 5.0, 0.1, 0.00005, 0.00015, 0.00025, 1.23456789, 2.5, 1e-7, -1e-7,
        123456.78905, 1e15, 9007199254740993.0, 1e22, 1.7976931348623157e308, 5e-324,
        0.99995, 0.99994999, 3.14159, -2.71828, 1e100, 4503599627370496.5, 0.125, 0.0625,
        0.00003125, 1.00005, 2.00015,
    ];
    for &x in samples.iter() {
        assert_eq!(float(x).to_text(), format!("{:.4}", x), "for {:e}", x);
    }
    assert_eq!(float(f64::NAN).to_text(), format!("{:.4}", f64::NAN));
    assert_eq!(float(f64::INFINITY).to_text(), format!("{:.4}", f64::INFINITY));
    assert_eq!(float(f64::NEG_INFINITY).to_text(), format!("{:.4}", f64::NEG_INFINITY));
}

#[test]
fn nearest_float_of_an_integer_is_what_a_cast_gives() {
    let samples: [i64; 14] = [
        0, 1, -1, 5, 1 << 52, (1 << 53) - 1, 1 << 53, (1 << 53) + 1, (1 << 53) + 3,
        (1 << 54) + 2, i64::MAX, i64::MIN, i64::MAX - 511, -((1 << 60) + 129),
    ];
    for &i in samples.iter() {
        assert_eq!(FasFloat::from_int(i).bits, (i as f64).to_bits(), "for {}", i);
    }
}

#[test]
fn rounding_a_float_is_what_round_and_cast_give() {
    let samples: &[f64] = &[
        0.0, -0.0, 0.4, 0.5, 0.6, 1.5, -1.5, -0.5, 1e10, -1e10, 9.2e18, 9.3e18, -9.3e18, 1e300,
        -1e300, 4503599627370495.5, 4503599627370496.0, 5e-324, f64::NAN, f64::INFINITY,
        f64::NEG_INFINITY, 123456789.5,
    ];
    for &x in samples.iter() {
        assert_eq!(float(x).to_int(), x.round() as i64, "for {:e}", x);
    }
}

#[test]
fn floats_within_a_millionth_are_equal() {
    assert!(FasValue::Float(float(1.0)) == FasValue::Float(float(1.0000005)));
    assert!(FasValue::Float(float(1.0)) != FasValue::Float(float(1.000002)));
    assert!(FasValue::Float(float(0.0)) == FasValue::Float(float(-0.0)));
    assert!(FasValue::Float(float(0.0)) == FasValue::Float(float(1e-6)));
    assert!(FasValue::Float(float(0.0)) != FasValue::Float(float(1.0000001e-6)));
    assert!(FasValue::Float(float(-5e-7)) == FasValue::Float(float(5e-7)));
    assert!(FasValue::Float(float(-6e-7)) != FasValue::Float(float(6e-7)));
    assert!(FasValue::Float(float(1e300)) != FasValue::Float(float(1e-300)));
    assert!(FasValue::Float(float(1e300)) == FasValue::Float(float(1e300)));
    assert!(FasValue::Float(float(1e-300)) == FasValue::Float(float(-1e-320)));
    assert!(FasValue::Float(float(f64::NAN)) != FasValue::Float(float(f64::NAN)));
    assert!(FasValue::Float(float(f64::INFINITY)) != FasValue::Float(float(f64::INFINITY)));
    let pairs: [(f64, f64); 4] = [(3.5, 3.5000009), (3.5, 3.5000011), (1e6, 1e6 + 1e-6), (1e-3, 1.0005e-3)];
    for (a, b) in pairs {
        let exact = (a - b).abs() <= 0.000001;
        assert_eq!(float(a).close_to(&float(b)), exact, "for {} and {}", a, b);
        assert_eq!(float(b).close_to(&float(a)), exact, "for {} and {}", b, a);
    }
}

#[test]
fn scalars_of_one_kind_are_equal_when_they_hold_the_same() {
    assert!(FasValue::Null == FasValue::Null);
    assert!(FasValue::Bool(true) == FasValue::Bool(true));
    assert!(FasValue::Bool(true) != FasValue::Bool(false));
    assert!(FasValue::Int(7) == FasValue::Int(7));
    assert!(FasValue::Int(7) != FasValue::Int(8));
    assert!(FasValue::String("a".to_string()) == FasValue::String("a".to_string()));
    assert!(FasValue::String("a".to_string()) != FasValue::String("b".to_string()));
    assert!(FasValue::Int(1) != FasValue::Bool(true));
    assert!(FasValue::Int(1) != FasValue::Float(float(1.0)));
}

#[test]
fn containers_are_equal_by_their_contents() {
    let a = FasValue::Array(vec![FasValue::Int(1), FasValue::Float(float(2.0))]);
    let b = FasValue::Array(vec![FasValue::Int(1), FasValue::Float(float(2.0000001))]);
    let c = FasValue::Array(vec![FasValue::Int(1)]);
    assert!(a == b);
    assert!(a != c);
    let m1 = FasValue::IMap(vec![(1, FasValue::Int(10)), (2, FasValue::Int(20))]);
    let m2 = FasValue::IMap(vec![(2, FasValue::Int(20)), (1, FasValue::Int(10))]);
    let m3 = FasValue::IMap(vec![(2, FasValue::Int(20)), (1, FasValue::Int(11))]);
    assert!(m1 == m2);
    assert!(m1 != m3);
    let s1 = FasValue::SMap(vec![("x".to_string(), FasValue::Null)]);
    let s2 = FasValue::SMap(vec![("x".to_string(), FasValue::Null)]);
    let s3 = FasValue::SMap(vec![("y".to_string(), FasValue::Null)]);
    assert!(s1 == s2);
    assert!(s1 != s3);
}

#[test]
fn values_print_in_their_canonical_form() {
    assert_eq!(text(&FasValue::Null), "(null)");
    assert_eq!(text(&FasValue::Bool(true)), "true");
    assert_eq!(text(&FasValue::Bool(false)), "false");
    assert_eq!(text(&FasValue::Int(-42)), "-42");
    assert_eq!(text(&FasValue::Int(i64::MIN)), "-9223372036854775808");
    assert_eq!(text(&FasValue::Int(i64::MAX)), "9223372036854775807");
    assert_eq!(text(&FasValue::Float(float(3.14159))), "3.1416");
    assert_eq!(text(&FasValue::String("hi".to_string())), "hi");
    assert_eq!(text(&FasValue::Array(vec![])), "[  ]");
    assert_eq!(
        text(&FasValue::Array(vec![FasValue::Int(1), FasValue::Float(float(0.5))])),
        "[ 1, 0.5000 ]"
    );
    assert_eq!(
        text(&FasValue::IMap(vec![(1, FasValue::Bool(true)), (-2, FasValue::Null)])),
        "{ 1: true, -2: (null) }"
    );
    assert_eq!(
        text(&FasValue::SMap(vec![("k".to_string(), FasValue::Int(3))])),
        "{ k: 3 }"
    );
}

#[test]
fn types_follow_the_shape_of_the_value() {
    assert!(FasValue::Null.get_type() == AstType::Void);
    assert!(FasValue::Int(1).get_type() == AstType::Int);
    assert!(FasValue::Float(float(1.0)).get_type() == AstType::Float);
    assert!(FasValue::Array(vec![]).get_type() == AstArrayType::new(AstType::Unknown));
    assert!(
        FasValue::Array(vec![FasValue::Int(1), FasValue::Null]).get_type()
            == AstArrayType::new(AstType::Int)
    );
    assert!(
        FasValue::IMap(vec![(1, FasValue::Int(1)), (2, FasValue::Bool(true))]).get_type()
            == AstMapType::new(AstType::Int, AstType::Bool)
    );
    assert!(
        FasValue::SMap(vec![]).get_type() == AstMapType::new(AstType::String, AstType::Unknown)
    );
}

#[test]
fn conversions_that_do_not_exist_are_errors() {
    let func = FasValue::Func(Box::new(AstFuncExpr {
        func: AstFunc::NativeFunc(NativeFunc { slot: 0, arg_count: 0 }),
    }));
    let (task, _) = TaskValue::create(0);
    let unsupported: Vec<(FasValue, AstType)> = vec![
        (FasValue::Int(1), AstType::Task),
        (FasValue::Int(1), AstType::Index),
        (FasValue::Int(1), AstType::Tuple(2)),
        (FasValue::Int(1), AstFuncType::new(1)),
        (FasValue::Int(1), AstArrayType::new(AstType::Int)),
        (FasValue::Int(1), AstMapType::new(AstType::Int, AstType::Int)),
        (FasValue::Array(vec![FasValue::Int(1)]), AstMapType::new(AstType::Int, AstType::Int)),
        (FasValue::Array(vec![FasValue::Int(1)]), AstType::Int),
        (FasValue::Array(vec![FasValue::Int(1)]), AstType::Bool),
        (FasValue::IMap(vec![(1, FasValue::Int(1))]), AstType::Float),
        (
            FasValue::IMap(vec![(1, FasValue::Int(1))]),
            AstMapType::new(AstType::String, AstType::Int),
        ),
        (
            FasValue::SMap(vec![("a".to_string(), FasValue::Int(1))]),
            AstMapType::new(AstType::Int, AstType::Int),
        ),
        (FasValue::IMap(vec![(1, FasValue::Int(1))]), AstArrayType::new(AstType::Int)),
        (func, AstType::Bool),
        (FasValue::Task(task), AstType::Int),
        (FasValue::String("x".to_string()), AstType::Int),
        (FasValue::String("1.5".to_string()), AstType::Int),
        (FasValue::String("yes".to_string()), AstType::Bool),
        (FasValue::String("one".to_string()), AstType::Float),
        (FasValue::String("9223372036854775808".to_string()), AstType::Int),
        (
            FasValue::Array(vec![FasValue::String("x".to_string())]),
            AstArrayType::new(AstType::Int),
        ),
    ];
    for (value, dest) in unsupported {
        let shown = format!("{:?} as {:?}", value, dest);
        assert!(
            matches!(value.try_as_type(dest), Err(ConversionError::Unsupported)),
            "for {}",
            shown
        );
    }
}

#[test]
fn a_scalar_becomes_a_boolean() {
    let cases: Vec<(FasValue, bool)> = vec![
        (FasValue::Null, false),
        (FasValue::Bool(true), true),
        (FasValue::Int(0), false),
        (FasValue::Int(5), true),
        (FasValue::Int(-1), true),
        (FasValue::Float(float(0.0)), false),
        (FasValue::Float(float(-0.0)), false),
        (FasValue::Float(float(0.25)), true),
        (FasValue::Float(float(f64::NAN)), true),
        (FasValue::String("true".to_string()), true),
        (FasValue::String("false".to_string()), false),
    ];
    for (value, expected) in cases {
        assert!(value.try_as_bool() == Some(expected), "for {:?}", value);
        assert!(value.try_as_type(AstType::Bool).unwrap() == FasValue::Bool(expected));
        assert!(value.as_type(AstType::Bool) == FasValue::Bool(expected));
    }
}

#[test]
fn a_scalar_becomes_an_integer() {
    let cases: Vec<(FasValue, i64)> = vec![
        (FasValue::Null, 0),
        (FasValue::Bool(true), 1),
        (FasValue::Bool(false), 0),
        (FasValue::Int(-7), -7),
        (FasValue::Float(float(2.5)), 3),
        (FasValue::Float(float(-2.4)), -2),
        (FasValue::String("42".to_string()), 42),
        (FasValue::String("-9223372036854775808".to_string()), i64::MIN),
    ];
    for (value, expected) in cases {
        assert!(value.try_as_int() == Some(expected), "for {:?}", value);
        assert!(value.try_as_type(AstType::Int).unwrap() == FasValue::Int(expected));
        assert!(value.as_type(AstType::Int) == FasValue::Int(expected));
    }
}

#[test]
fn a_scalar_becomes_a_float() {
    let cases: Vec<(FasValue, f64)> = vec![
        (FasValue::Null, 0.0),
        (FasValue::Bool(true), 1.0),
        (FasValue::Bool(false), 0.0),
        (FasValue::Int(-7), -7.0),
        (FasValue::Float(float(2.5)), 2.5),
        (FasValue::String("42".to_string()), 42.0),
        (FasValue::String("-3".to_string()), -3.0),
        (FasValue::String("inf".to_string()), f64::INFINITY),
        (FasValue::String("-inf".to_string()), f64::NEG_INFINITY),
    ];
    for (value, expected) in cases {
        let shown = format!("{:?}", value);
        match value.try_as_type(AstType::Float) {
            Ok(FasValue::Float(f)) => assert_eq!(f.bits, expected.to_bits(), "for {}", shown),
            other => panic!("unexpected {:?} for {}", other, shown),
        }
    }
    match FasValue::String("NaN".to_string()).try_as_float() {
        Some(f) => assert!(f64::from_bits(f.bits).is_nan()),
        None => panic!("NaN does not read"),
    }
}

#[test]
fn a_map_with_a_key_twice_equals_no_map_with_other_keys() {
    let twice = FasValue::IMap(vec![(1, FasValue::Null), (1, FasValue::Null)]);
    let other = FasValue::IMap(vec![(1, FasValue::Null), (2, FasValue::Null)]);
    assert!(twice != other);
    assert!(other != twice);
    assert!(twice == twice.clone());
    let twice = FasValue::SMap(vec![
        ("a".to_string(), FasValue::Int(1)),
        ("a".to_string(), FasValue::Int(1)),
    ]);
    let other = FasValue::SMap(vec![
        ("a".to_string(), FasValue::Int(1)),
        ("b".to_string(), FasValue::Int(1)),
    ]);
    assert!(twice != other);
    assert!(other != twice);
}

#[test]
fn conversions_keep_or_rebuild_the_value() {
    assert!(FasValue::Int(3).try_as_type(AstType::Int).unwrap() == FasValue::Int(3));
    assert!(FasValue::Int(3).try_as_type(AstType::Dynamic).unwrap() == FasValue::Int(3));
    assert!(FasValue::Int(3).try_as_type(AstType::Void).unwrap() == FasValue::Null);
    assert!(FasValue::Int(3).try_as_type(AstType::Unknown).unwrap() == FasValue::Null);
    assert!(
        FasValue::Float(float(2.5)).try_as_type(AstType::String).unwrap()
            == FasValue::String("2.5000".to_string())
    );
    let map = FasValue::IMap(vec![(1, FasValue::Int(10)), (2, FasValue::Int(20))]);
    let out = map.try_as_type(AstMapType::new(AstType::Int, AstType::String)).unwrap();
    assert_eq!(text(&out), "{ 1: 10, 2: 20 }");
    assert!(out.get_type() == AstMapType::new(AstType::Int, AstType::String));
    let smap = FasValue::SMap(vec![("a".to_string(), FasValue::Float(float(1.5)))]);
    let out = smap.try_as_type(AstMapType::new(AstType::String, AstType::Int)).unwrap();
    assert!(out.as_smap()[0].1 == FasValue::Int(2));
}

#[test]
fn a_map_with_a_key_twice_is_not_well_formed() {
    assert!(FasValue::Int(1).is_well_formed());
    assert!(FasValue::Array(vec![]).is_well_formed());
    let good = FasValue::IMap(vec![(1, FasValue::Null), (2, FasValue::Null)]);
    let twice = FasValue::IMap(vec![(1, FasValue::Null), (2, FasValue::Null), (1, FasValue::Int(0))]);
    assert!(good.is_well_formed());
    assert!(!twice.is_well_formed());
    let named = FasValue::SMap(vec![("a".to_string(), good), ("b".to_string(), FasValue::Null)]);
    assert!(named.is_well_formed());
    let deep = FasValue::Array(vec![FasValue::SMap(vec![("a".to_string(), twice)])]);
    assert!(!deep.is_well_formed());
    let same = FasValue::SMap(vec![("a".to_string(), FasValue::Null), ("a".to_string(), FasValue::Null)]);
    assert!(!same.is_well_formed());
    let out = FasValue::IMap(vec![(1, FasValue::Int(1)), (2, FasValue::Int(2))])
        .try_as_type(AstMapType::new(AstType::Int, AstType::Float))
        .unwrap();
    assert!(out.is_well_formed());
}

#[test]
fn the_difference_of_two_floats_is_taken_exactly() {
    let millionth = 0.000001f64;
    let a = float(millionth);
    let b = float(-6e-23);
    assert!(!a.close_to(&b));
    assert!(a.close_to(&float(0.0)));
    assert!(a.close_to(&float(-4e-23)));
}

#[test]
fn an_integer_survives_the_way_to_a_float_and_back() {
    let samples: &[i64] = &[0, 1, -1, 5, 4096, -123456789, (1 << 53) - 1, -((1 << 53) - 1)];
    for &i in samples.iter() {
        let f = FasValue::Int(i).try_as_type(AstType::Float).unwrap();
        assert!(f.try_as_type(AstType::Int).unwrap() == FasValue::Int(i), "for {}", i);
    }
}

#[test]
fn values_of_the_host_become_values_of_the_script() {
    assert!(FasValue::from(true) == FasValue::Bool(true));
    assert!(FasValue::from(7i64) == FasValue::Int(7));
    assert!(FasValue::from("s".to_string()) == FasValue::String("s".to_string()));
    assert!(FasValue::from(float(1.5)) == FasValue::Float(float(1.5)));
    assert!(FasValue::from(()) == FasValue::Null);
    assert!(FasValue::from("s") == FasValue::String("s".to_string()));
    let nothing: () = FasValue::Int(1).into();
    assert_eq!(nothing, ());
    assert!(<bool as GetAstTypeTrait>::get_ast_type() == AstType::Bool);
    assert!(<i64 as GetAstTypeTrait>::get_ast_type() == AstType::Int);
    assert!(<FasFloat as GetAstTypeTrait>::get_ast_type() == AstType::Float);
    assert!(<String as GetAstTypeTrait>::get_ast_type() == AstType::String);
    assert!(<&str as GetAstTypeTrait>::get_ast_type() == AstType::String);
    assert!(<() as GetAstTypeTrait>::get_ast_type() == AstType::Unknown);
}

#[test]
fn functions_and_tasks_equal_nothing() {
    let (a, _) = TaskValue::create(1);
    let (b, _) = TaskValue::create(1);
    assert!(FasValue::Task(a.clone()) != FasValue::Task(a));
    assert!(FasValue::Task(b.clone()) != FasValue::Int(1));
    let f = FasValue::Func(Box::new(AstFuncExpr {
        func: AstFunc::NativeFunc(NativeFunc { slot: 0, arg_count: 2 }),
    }));
    assert!(f.clone() != f);
    assert_eq!(text(&f), "(func)");
    assert_eq!(text(&FasValue::Task(b)), "(task)");
    assert!(f.get_type() == AstFuncType::new(2));
    assert!(f.try_as_type(AstFuncType::new(2)).is_ok());
    assert!(matches!(f.try_as_type(AstFuncType::new(3)), Err(ConversionError::Unsupported)));
}

#[test]
fn a_decimal_numeral_reads_as_the_nearest_float() {
    let samples = [
        "0", "-0", "0.0", "-0.0", "1", "-1", "2.5", "0.1", "0.2", "0.3", "4.35", "3.14159",
        "-2.71828", "0.0001", "0.00015", "123456789.1234", "1000000", "9007199254740992",
        "9007199254740993", "9007199254740994", "9007199254740995", "18446744073709551615",
        "18446744073709551614", "9223372036854775807", "00012.5000", "1.0000000000000002",
        "1.0000000000000001", "1.000000000000000111", "0.0000000000000000001",
        "0.9999999999999999999", "1844674407370955.1615", "184467440737.09551615",
        "0.5", "0.25", "0.125", "1.7976931348623157", "4503599627370496.5",
        "4503599627370497.5", "1.9999999999999998", "1.9999999999999999",
        "-18446744073709551615", "72057594037927945", "72057594037927944",
        "0.3333333333333333", "2.2250738585072014", "123.456", "1.5", "1e1",
    ];
    for text in samples {
        let expected = match text.parse::<f64>() {
            Ok(x) if !text.contains('e') => Some(x.to_bits()),
            _ => None,
        };
        let found = parse_float(text).map(|f| f.bits);
        assert_eq!(found, expected, "for {}", text);
    }
    for text in ["", "-", ".", ".5", "5.", "1.2.3", "1,5", " 1", "1 ", "+1", "--1", "0x10", "nan",
        "18446744073709551616", "1.00000000000000000000", "1.00000000000000011102",
        "infinity"] {
        assert!(parse_float(text).is_none(), "for {:?}", text);
    }
}

#[test]
fn the_float_nearest_to_a_ratio_is_what_division_gives() {
    let samples: &[(u64, u64)] = &[
        (0, 1), (1, 1), (1, 3), (2, 3), (1, 10), (3, 10), (7, 1000), (1, u64::MAX),
        (u64::MAX, 1), (u64::MAX, u64::MAX), (u64::MAX - 1, u64::MAX), (u64::MAX, 3),
        (1 << 53, 1), ((1 << 53) + 1, 1), ((1 << 53) + 1, 2), ((1 << 54) + 2, 4),
        (1, 1 << 63), (3, 1 << 63), (12345, 10000), (10_000_000_000_000_000_000, 7),
    ];
    for &(p, q) in samples.iter() {
        let found = f64::from_bits(ratio_to_bits(p, q));
        let low = f64::from_bits(found.to_bits().saturating_sub(1));
        let high = f64::from_bits(found.to_bits() + 1);
        // The float found is no farther from the ratio than its neighbours.
        let exact = |x: f64| -> bool {
            // x * q compared with p, with 128 bits where x is an integer.
            x.fract() == 0.0 && x < 1.8e19
        };
        if exact(found) && exact(low) && exact(high) {
            let takes = |x: f64| ((x as u128) * (q as u128)).abs_diff(p as u128);
            assert!(takes(found) <= takes(low), "for {}/{}", p, q);
            assert!(takes(found) <= takes(high), "for {}/{}", p, q);
        }
        if q == 1 {
            assert_eq!(found.to_bits(), (p as f64).to_bits(), "for {}", p);
        }
        if p < (1 << 53) && q < (1 << 53) {
            assert_eq!(found.to_bits(), (p as f64 / q as f64).to_bits(), "for {}/{}", p, q);
        }
    }
}
