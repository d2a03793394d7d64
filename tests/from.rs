use std::collections::HashMap;
use gon_rs::from::{FromGon, FromGonError};
use gon_rs::{Gon, GonGetError};

#[test]
fn err_conversions() -> Result<(), FromGonError> {
    let gon = Gon::parse(r#"
            list [1 2 3]
            map {
                a 1
                b hello
                c 12.5
            }
        "#)?;

    let list_gon: [i32; 3] = <[i32; 3]>::from_gon(gon.index_key("list"))?;

    assert_eq!(list_gon, [1, 2, 3]);

    Ok(())
}

#[test]
fn short_array_into_fixed_array() {
    let g = Gon::parse("[1 2]").unwrap();
    let r = <[i32; 3]>::from_gon(&g);
    assert!(matches!(r, Err(FromGonError::InvalidLength { expected: 3, found: 2 })));
}

#[test]
fn integers_convert() {
    assert_eq!(i32::from_gon(&Gon::parse("-42").unwrap()).unwrap(), -42);
    assert_eq!(u8::from_gon(&Gon::parse("+255").unwrap()).unwrap(), 255);
    assert_eq!(i128::from_gon(&Gon::parse("170141183460469231731687303715884105727").unwrap()).unwrap(), i128::MAX);
    assert!(matches!(u8::from_gon(&Gon::parse("256").unwrap()), Err(FromGonError::ParseInt(_))));
    assert!(matches!(u32::from_gon(&Gon::parse("-1").unwrap()), Err(FromGonError::ParseInt(_))));
    assert!(matches!(i64::from_gon(&Gon::parse("1.5").unwrap()), Err(FromGonError::ParseInt(_))));
    assert!(matches!(i16::from_gon(&Gon::parse("[1]").unwrap()), Err(FromGonError::ExpectedValue)));
    assert_eq!(u16::from_gon(&Gon::parse("65535").unwrap()).unwrap(), 65535);
    assert_eq!(i8::from_gon(&Gon::parse("-128").unwrap()).unwrap(), -128);
    assert_eq!(u64::from_gon(&Gon::parse("18446744073709551615").unwrap()).unwrap(), u64::MAX);
    assert_eq!(u128::from_gon(&Gon::parse("7").unwrap()).unwrap(), 7);
    assert_eq!(i16::from_gon(&Gon::parse("-300").unwrap()).unwrap(), -300);
    assert!(matches!(i8::from_gon(&Gon::parse("- 1").unwrap()), Err(FromGonError::ExpectedValue)));
    assert!(matches!(i8::from_gon(&Gon::parse("\" 1\"").unwrap()), Err(FromGonError::ParseInt(_))));
}

#[test]
fn strings_and_vectors_convert() {
    assert_eq!(String::from_gon(&Gon::parse("\"a b\"").unwrap()).unwrap(), "a b");
    assert!(matches!(String::from_gon(&Gon::parse("[a]").unwrap()), Err(FromGonError::ExpectedValue)));
    assert_eq!(Vec::<i32>::from_gon(&Gon::parse("[3 1 2]").unwrap()).unwrap(), vec![3, 1, 2]);
    assert!(matches!(Vec::<i32>::from_gon(&Gon::parse("k v").unwrap()), Err(FromGonError::ExpectedArray)));
    assert!(matches!(Vec::<u8>::from_gon(&Gon::parse("[1 x 300]").unwrap()), Err(FromGonError::ParseInt(_))));
    assert!(matches!(<[i32; 2]>::from_gon(&Gon::parse("\"x\"").unwrap()), Err(FromGonError::ExpectedArray)));
    let nested = Vec::<Vec<String>>::from_gon(&Gon::parse("[[a b] [] [c]]").unwrap()).unwrap();
    assert_eq!(nested, vec![vec!["a".to_string(), "b".to_string()], vec![], vec!["c".to_string()]]);
}

#[test]
fn gon_converts_to_a_copy() {
    let g = Gon::parse("a [1 2]").unwrap();
    let c = Gon::from_gon(&g).unwrap();
    assert_eq!(c.index_key("a").index_at(0).str(), "1");
}

#[test]
fn try_get_reports_shape() {
    let g = Gon::parse("a [1 2] b 7 c x").unwrap();
    assert!(matches!(g.try_get::<i32>(), Err(GonGetError::UnexpectedObject)));
    assert!(matches!(g.index_key("a").try_get::<i32>(), Err(GonGetError::UnexpectedArray)));
    assert_eq!(g.index_key("b").try_get::<i32>().unwrap(), 7);
    assert!(matches!(g.index_key("c").try_get::<i32>(), Err(GonGetError::ConversionFailed(FromGonError::ParseInt(_)))));
}

#[test]
fn parse_error_converts() {
    let e: FromGonError = gon_rs::GonError::QuoteExpected.into();
    assert!(matches!(e, FromGonError::Gon(gon_rs::GonError::QuoteExpected)));
}

#[test]
fn string_keyed_maps_convert() {
    let g = Gon::parse("a 1 b 2 c 30").unwrap();
    let m = HashMap::<String, u8>::from_gon(&g).unwrap();
    assert_eq!(m.len(), 3);
    assert_eq!(m["a"], 1);
    assert_eq!(m["c"], 30);
    assert!(matches!(HashMap::<String, u8>::from_gon(&Gon::parse("a 1 b x").unwrap()), Err(FromGonError::ParseInt(_))));
    assert!(matches!(HashMap::<String, u8>::from_gon(&Gon::parse("[1]").unwrap()), Err(FromGonError::ExpectedObject)));
}

#[test]
fn lookups_report_what_is_missing() {
    let g = Gon::parse("a [x y] b z").unwrap();
    assert_eq!(g.try_index_key("b").unwrap().str(), "z");
    assert!(matches!(g.try_index_key("q"), Err(GonGetError::MissingKey(k)) if k == "q"));
    let a = g.try_index_key("a").unwrap();
    assert_eq!(a.try_index_at(1).unwrap().str(), "y");
    assert!(matches!(a.try_index_at(2), Err(GonGetError::IndexOutOfBounds(2))));
    assert!(matches!(a.try_index_key("x"), Err(GonGetError::UnexpectedArray)));
    assert!(matches!(g.try_index_at(0), Err(GonGetError::UnexpectedObject)));
    assert!(matches!(g.try_index_key("b").unwrap().try_index_at(0), Err(GonGetError::UnexpectedValue)));
}

#[test]
fn get_errors_convert() {
    let e: FromGonError = GonGetError::IndexOutOfBounds(4).into();
    assert!(matches!(e, FromGonError::IndexOutOfBounds(4)));
    let e: FromGonError = GonGetError::MissingKey("k".to_string()).into();
    assert!(matches!(e, FromGonError::Missing(k) if k == "k"));
    let e: FromGonError = GonGetError::ConversionFailed(FromGonError::ExpectedArray).into();
    assert!(matches!(e, FromGonError::ExpectedArray));
    let e: FromGonError = GonGetError::<FromGonError>::UnexpectedObject.into();
    assert!(matches!(e, FromGonError::UnexpectedObject));
}
