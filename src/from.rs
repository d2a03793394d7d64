//! Conversion of parsed trees into typed values.
use vstd::prelude::*;
use std::collections::HashMap;
use vstd::std_specs::hash::obeys_key_model;
use crate::gon::{
    entries_model, items_model, lemma_entries_model, lemma_items_model, Gon, GonError, GonGetError,
    GonModel,
};

verus! {

#[verifier::external_type_specification]
#[verifier::external_body]
pub struct ExParseIntError(std::num::ParseIntError);

/// Why a tree could not be converted into a typed value.
#[derive(Debug)]
pub enum FromGonError {
    Gon(GonError),
    ParseInt(std::num::ParseIntError),
    Missing(String),
    ExpectedValue,
    ExpectedArray,
    ExpectedObject,
    InvalidVariant(String),
    InvalidLength { expected: usize, found: usize },
    IndexOutOfBounds(usize),
    UnexpectedValue,
    UnexpectedArray,
    UnexpectedObject,
    UnexpectedVariant(String),
    Unknown,
}

impl From<GonError> for FromGonError {
    fn from(err: GonError) -> (r: Self)
        ensures
            r == FromGonError::Gon(err),
    {
        FromGonError::Gon(err)
    }
}

impl vstd::std_specs::convert::FromSpecImpl<GonError> for FromGonError {
    open spec fn obeys_from_spec() -> bool {
        true
    }

    open spec fn from_spec(err: GonError) -> FromGonError {
        FromGonError::Gon(err)
    }
}

impl From<GonGetError<FromGonError>> for FromGonError {
    fn from(err: GonGetError<FromGonError>) -> (r: Self)
        ensures
            r == from_get_error(err),
    {
        match err {
            GonGetError::UnexpectedValue => FromGonError::UnexpectedValue,
            GonGetError::UnexpectedArray => FromGonError::UnexpectedArray,
            GonGetError::UnexpectedObject => FromGonError::UnexpectedObject,
            GonGetError::IndexOutOfBounds(index) => FromGonError::IndexOutOfBounds(index),
            GonGetError::MissingKey(key) => FromGonError::Missing(key),
            GonGetError::ConversionFailed(e) => e,
        }
    }
}

/// The conversion error that a failed typed read stands for.
pub open spec fn from_get_error(err: GonGetError<FromGonError>) -> FromGonError {
    match err {
        GonGetError::UnexpectedValue => FromGonError::UnexpectedValue,
        GonGetError::UnexpectedArray => FromGonError::UnexpectedArray,
        GonGetError::UnexpectedObject => FromGonError::UnexpectedObject,
        GonGetError::IndexOutOfBounds(index) => FromGonError::IndexOutOfBounds(index),
        GonGetError::MissingKey(key) => FromGonError::Missing(key),
        GonGetError::ConversionFailed(e) => e,
    }
}

impl vstd::std_specs::convert::FromSpecImpl<GonGetError<FromGonError>> for FromGonError {
    open spec fn obeys_from_spec() -> bool {
        true
    }

    open spec fn from_spec(err: GonGetError<FromGonError>) -> FromGonError {
        from_get_error(err)
    }
}

/// A type that can be read from a parsed tree.
pub trait FromGon: Sized {
    /// Whether `g` can be converted.
    spec fn convertible(g: GonModel) -> bool;

    /// Whether `v` is the conversion of `g`.
    spec fn converts_to(g: GonModel, v: Self) -> bool;

    /// Whether `e` is the error that converting `g` reports.
    spec fn fails_with(g: GonModel, e: FromGonError) -> bool;

    fn from_gon(gon: &Gon) -> (r: Result<Self, FromGonError>)
        ensures
            match r {
                Ok(v) => Self::convertible(gon@) && Self::converts_to(gon@, v),
                Err(e) => !Self::convertible(gon@) && Self::fails_with(gon@, e),
            },
    ;
}

/// All characters are decimal digits, and there is at least one.
pub open spec fn all_digits(d: Seq<char>) -> bool {
    d.len() > 0 && forall|i: int| 0 <= i < d.len() ==> '0' <= #[trigger] d[i] <= '9'
}

/// The number that a run of decimal digits writes.
pub open spec fn digits_value(d: Seq<char>) -> int
    decreases d.len(),
{
    if d.len() == 0 {
        0
    } else {
        digits_value(d.drop_last()) * 10 + (d.last() as int - '0' as int)
    }
}

/// The integer that `s` writes in decimal: an optional `+` (or, where
/// `signed`, `-`) followed by digits only.
pub open spec fn decimal_of(s: Seq<char>, signed: bool) -> Option<int> {
    if s.len() > 0 && s[0] == '+' {
        if all_digits(s.drop_first()) {
            Some(digits_value(s.drop_first()))
        } else {
            None
        }
    } else if signed && s.len() > 0 && s[0] == '-' {
        if all_digits(s.drop_first()) {
            Some(-digits_value(s.drop_first()))
        } else {
            None
        }
    } else if all_digits(s) {
        Some(digits_value(s))
    } else {
        None
    }
}

/// `s` writes an integer in decimal that lies in `lo ..= hi`.
pub open spec fn decimal_in(s: Seq<char>, signed: bool, lo: int, hi: int) -> bool {
    decimal_of(s, signed) matches Some(n) && lo <= n <= hi
}

/// An integer type converts from a value whose text writes it in decimal.
pub open spec fn int_convertible(g: GonModel, signed: bool, lo: int, hi: int) -> bool {
    g is Value && decimal_in(g->Value_0, signed, lo, hi)
}

/// The error of converting `g` into an integer type.
pub open spec fn int_fails_with(g: GonModel, e: FromGonError) -> bool {
    if g is Value {
        e is ParseInt
    } else {
        e is ExpectedValue
    }
}

/// Relies on `str::parse::<u8>`, which reads an optional sign and decimal
/// digits and fails on anything else or on a number out of range.
#[verifier::external_body]
fn parse_u8(s: &str) -> (r: Result<u8, std::num::ParseIntError>)
    ensures
        r is Ok <==> decimal_in(s@, false, u8::MIN as int, u8::MAX as int),
        r is Ok ==> decimal_of(s@, false) == Some(r->Ok_0 as int),
{
    s.parse::<u8>()
}

impl FromGon for u8 {
    open spec fn convertible(g: GonModel) -> bool {
        int_convertible(g, false, u8::MIN as int, u8::MAX as int)
    }

    open spec fn converts_to(g: GonModel, v: u8) -> bool {
        g is Value && decimal_of(g->Value_0, false) == Some(v as int)
    }

    open spec fn fails_with(g: GonModel, e: FromGonError) -> bool {
        int_fails_with(g, e)
    }

    fn from_gon(gon: &Gon) -> (r: Result<Self, FromGonError>) {
        match gon {
            Gon::Value(val) => match parse_u8(val.as_str()) {
                Ok(v) => Ok(v),
                Err(e) => Err(FromGonError::ParseInt(e)),
            },
            Gon::Object(_) | Gon::Array(_) => Err(FromGonError::ExpectedValue),
        }
    }
}

/// Relies on `str::parse::<u16>`, which reads an optional sign and decimal
/// digits and fails on anything else or on a number out of range.
#[verifier::external_body]
fn parse_u16(s: &str) -> (r: Result<u16, std::num::ParseIntError>)
    ensures
        r is Ok <==> decimal_in(s@, false, u16::MIN as int, u16::MAX as int),
        r is Ok ==> decimal_of(s@, false) == Some(r->Ok_0 as int),
{
    s.parse::<u16>()
}

impl FromGon for u16 {
    open spec fn convertible(g: GonModel) -> bool {
        int_convertible(g, false, u16::MIN as int, u16::MAX as int)
    }

    open spec fn converts_to(g: GonModel, v: u16) -> bool {
        g is Value && decimal_of(g->Value_0, false) == Some(v as int)
    }

    open spec fn fails_with(g: GonModel, e: FromGonError) -> bool {
        int_fails_with(g, e)
    }

    fn from_gon(gon: &Gon) -> (r: Result<Self, FromGonError>) {
        match gon {
            Gon::Value(val) => match parse_u16(val.as_str()) {
                Ok(v) => Ok(v),
                Err(e) => Err(FromGonError::ParseInt(e)),
            },
            Gon::Object(_) | Gon::Array(_) => Err(FromGonError::ExpectedValue),
        }
    }
}

/// Relies on `str::parse::<u32>`, which reads an optional sign and decimal
/// digits and fails on anything else or on a number out of range.
#[verifier::external_body]
fn parse_u32(s: &str) -> (r: Result<u32, std::num::ParseIntError>)
    ensures
        r is Ok <==> decimal_in(s@, false, u32::MIN as int, u32::MAX as int),
        r is Ok ==> decimal_of(s@, false) == Some(r->Ok_0 as int),
{
    s.parse::<u32>()
}

impl FromGon for u32 {
    open spec fn convertible(g: GonModel) -> bool {
        int_convertible(g, false, u32::MIN as int, u32::MAX as int)
    }

    open spec fn converts_to(g: GonModel, v: u32) -> bool {
        g is Value && decimal_of(g->Value_0, false) == Some(v as int)
    }

    open spec fn fails_with(g: GonModel, e: FromGonError) -> bool {
        int_fails_with(g, e)
    }

    fn from_gon(gon: &Gon) -> (r: Result<Self, FromGonError>) {
        match gon {
            Gon::Value(val) => match parse_u32(val.as_str()) {
                Ok(v) => Ok(v),
                Err(e) => Err(FromGonError::ParseInt(e)),
            },
            Gon::Object(_) | Gon::Array(_) => Err(FromGonError::ExpectedValue),
        }
    }
}

/// Relies on `str::parse::<u64>`, which reads an optional sign and decimal
/// digits and fails on anything else or on a number out of range.
#[verifier::external_body]
fn parse_u64(s: &str) -> (r: Result<u64, std::num::ParseIntError>)
    ensures
        r is Ok <==> decimal_in(s@, false, u64::MIN as int, u64::MAX as int),
        r is Ok ==> decimal_of(s@, false) == Some(r->Ok_0 as int),
{
    s.parse::<u64>()
}

impl FromGon for u64 {
    open spec fn convertible(g: GonModel) -> bool {
        int_convertible(g, false, u64::MIN as int, u64::MAX as int)
    }

    open spec fn converts_to(g: GonModel, v: u64) -> bool {
        g is Value && decimal_of(g->Value_0, false) == Some(v as int)
    }

    open spec fn fails_with(g: GonModel, e: FromGonError) -> bool {
        int_fails_with(g, e)
    }

    fn from_gon(gon: &Gon) -> (r: Result<Self, FromGonError>) {
        match gon {
            Gon::Value(val) => match parse_u64(val.as_str()) {
                Ok(v) => Ok(v),
                Err(e) => Err(FromGonError::ParseInt(e)),
            },
            Gon::Object(_) | Gon::Array(_) => Err(FromGonError::ExpectedValue),
        }
    }
}

/// Relies on `str::parse::<u128>`, which reads an optional sign and decimal
/// digits and fails on anything else or on a number out of range.
#[verifier::external_body]
fn parse_u128(s: &str) -> (r: Result<u128, std::num::ParseIntError>)
    ensures
        r is Ok <==> decimal_in(s@, false, u128::MIN as int, u128::MAX as int),
        r is Ok ==> decimal_of(s@, false) == Some(r->Ok_0 as int),
{
    s.parse::<u128>()
}

impl FromGon for u128 {
    open spec fn convertible(g: GonModel) -> bool {
        int_convertible(g, false, u128::MIN as int, u128::MAX as int)
    }

    open spec fn converts_to(g: GonModel, v: u128) -> bool {
        g is Value && decimal_of(g->Value_0, false) == Some(v as int)
    }

    open spec fn fails_with(g: GonModel, e: FromGonError) -> bool {
        int_fails_with(g, e)
    }

    fn from_gon(gon: &Gon) -> (r: Result<Self, FromGonError>) {
        match gon {
            Gon::Value(val) => match parse_u128(val.as_str()) {
                Ok(v) => Ok(v),
                Err(e) => Err(FromGonError::ParseInt(e)),
            },
            Gon::Object(_) | Gon::Array(_) => Err(FromGonError::ExpectedValue),
        }
    }
}

/// Relies on `str::parse::<i8>`, which reads an optional sign and decimal
/// digits and fails on anything else or on a number out of range.
#[verifier::external_body]
fn parse_i8(s: &str) -> (r: Result<i8, std::num::ParseIntError>)
    ensures
        r is Ok <==> decimal_in(s@, true, i8::MIN as int, i8::MAX as int),
        r is Ok ==> decimal_of(s@, true) == Some(r->Ok_0 as int),
{
    s.parse::<i8>()
}

impl FromGon for i8 {
    open spec fn convertible(g: GonModel) -> bool {
        int_convertible(g, true, i8::MIN as int, i8::MAX as int)
    }

    open spec fn converts_to(g: GonModel, v: i8) -> bool {
        g is Value && decimal_of(g->Value_0, true) == Some(v as int)
    }

    open spec fn fails_with(g: GonModel, e: FromGonError) -> bool {
        int_fails_with(g, e)
    }

    fn from_gon(gon: &Gon) -> (r: Result<Self, FromGonError>) {
        match gon {
            Gon::Value(val) => match parse_i8(val.as_str()) {
                Ok(v) => Ok(v),
                Err(e) => Err(FromGonError::ParseInt(e)),
            },
            Gon::Object(_) | Gon::Array(_) => Err(FromGonError::ExpectedValue),
        }
    }
}

/// Relies on `str::parse::<i16>`, which reads an optional sign and decimal
/// digits and fails on anything else or on a number out of range.
#[verifier::external_body]
fn parse_i16(s: &str) -> (r: Result<i16, std::num::ParseIntError>)
    ensures
        r is Ok <==> decimal_in(s@, true, i16::MIN as int, i16::MAX as int),
        r is Ok ==> decimal_of(s@, true) == Some(r->Ok_0 as int),
{
    s.parse::<i16>()
}

impl FromGon for i16 {
    open spec fn convertible(g: GonModel) -> bool {
        int_convertible(g, true, i16::MIN as int, i16::MAX as int)
    }

    open spec fn converts_to(g: GonModel, v: i16) -> bool {
        g is Value && decimal_of(g->Value_0, true) == Some(v as int)
    }

    open spec fn fails_with(g: GonModel, e: FromGonError) -> bool {
        int_fails_with(g, e)
    }

    fn from_gon(gon: &Gon) -> (r: Result<Self, FromGonError>) {
        match gon {
            Gon::Value(val) => match parse_i16(val.as_str()) {
                Ok(v) => Ok(v),
                Err(e) => Err(FromGonError::ParseInt(e)),
            },
            Gon::Object(_) | Gon::Array(_) => Err(FromGonError::ExpectedValue),
        }
    }
}

/// Relies on `str::parse::<i32>`, which reads an optional sign and decimal
/// digits and fails on anything else or on a number out of range.
#[verifier::external_body]
fn parse_i32(s: &str) -> (r: Result<i32, std::num::ParseIntError>)
    ensures
        r is Ok <==> decimal_in(s@, true, i32::MIN as int, i32::MAX as int),
        r is Ok ==> decimal_of(s@, true) == Some(r->Ok_0 as int),
{
    s.parse::<i32>()
}

impl FromGon for i32 {
    open spec fn convertible(g: GonModel) -> bool {
        int_convertible(g, true, i32::MIN as int, i32::MAX as int)
    }

    open spec fn converts_to(g: GonModel, v: i32) -> bool {
        g is Value && decimal_of(g->Value_0, true) == Some(v as int)
    }

    open spec fn fails_with(g: GonModel, e: FromGonError) -> bool {
        int_fails_with(g, e)
    }

    fn from_gon(gon: &Gon) -> (r: Result<Self, FromGonError>) {
        match gon {
            Gon::Value(val) => match parse_i32(val.as_str()) {
                Ok(v) => Ok(v),
                Err(e) => Err(FromGonError::ParseInt(e)),
            },
            Gon::Object(_) | Gon::Array(_) => Err(FromGonError::ExpectedValue),
        }
    }
}

/// Relies on `str::parse::<i64>`, which reads an optional sign and decimal
/// digits and fails on anything else or on a number out of range.
#[verifier::external_body]
fn parse_i64(s: &str) -> (r: Result<i64, std::num::ParseIntError>)
    ensures
        r is Ok <==> decimal_in(s@, true, i64::MIN as int, i64::MAX as int),
        r is Ok ==> decimal_of(s@, true) == Some(r->Ok_0 as int),
{
    s.parse::<i64>()
}

impl FromGon for i64 {
    open spec fn convertible(g: GonModel) -> bool {
        int_convertible(g, true, i64::MIN as int, i64::MAX as int)
    }

    open spec fn converts_to(g: GonModel, v: i64) -> bool {
        g is Value && decimal_of(g->Value_0, true) == Some(v as int)
    }

    open spec fn fails_with(g: GonModel, e: FromGonError) -> bool {
        int_fails_with(g, e)
    }

    fn from_gon(gon: &Gon) -> (r: Result<Self, FromGonError>) {
        match gon {
            Gon::Value(val) => match parse_i64(val.as_str()) {
                Ok(v) => Ok(v),
                Err(e) => Err(FromGonError::ParseInt(e)),
            },
            Gon::Object(_) | Gon::Array(_) => Err(FromGonError::ExpectedValue),
        }
    }
}

/// Relies on `str::parse::<i128>`, which reads an optional sign and decimal
/// digits and fails on anything else or on a number out of range.
#[verifier::external_body]
fn parse_i128(s: &str) -> (r: Result<i128, std::num::ParseIntError>)
    ensures
        r is Ok <==> decimal_in(s@, true, i128::MIN as int, i128::MAX as int),
        r is Ok ==> decimal_of(s@, true) == Some(r->Ok_0 as int),
{
    s.parse::<i128>()
}

impl FromGon for i128 {
    open spec fn convertible(g: GonModel) -> bool {
        int_convertible(g, true, i128::MIN as int, i128::MAX as int)
    }

    open spec fn converts_to(g: GonModel, v: i128) -> bool {
        g is Value && decimal_of(g->Value_0, true) == Some(v as int)
    }

    open spec fn fails_with(g: GonModel, e: FromGonError) -> bool {
        int_fails_with(g, e)
    }

    fn from_gon(gon: &Gon) -> (r: Result<Self, FromGonError>) {
        match gon {
            Gon::Value(val) => match parse_i128(val.as_str()) {
                Ok(v) => Ok(v),
                Err(e) => Err(FromGonError::ParseInt(e)),
            },
            Gon::Object(_) | Gon::Array(_) => Err(FromGonError::ExpectedValue),
        }
    }
}

impl FromGon for String {
    open spec fn convertible(g: GonModel) -> bool {
        g is Value
    }

    open spec fn converts_to(g: GonModel, v: String) -> bool {
        g is Value && v@ == g->Value_0
    }

    open spec fn fails_with(g: GonModel, e: FromGonError) -> bool {
        e is ExpectedValue
    }

    fn from_gon(gon: &Gon) -> (r: Result<Self, FromGonError>) {
        match gon {
            Gon::Value(val) => Ok(val.clone()),
            Gon::Object(_) | Gon::Array(_) => Err(FromGonError::ExpectedValue),
        }
    }
}

impl FromGon for Gon {
    open spec fn convertible(g: GonModel) -> bool {
        true
    }

    open spec fn converts_to(g: GonModel, v: Gon) -> bool {
        v@ == g
    }

    open spec fn fails_with(g: GonModel, e: FromGonError) -> bool {
        false
    }

    fn from_gon(gon: &Gon) -> (r: Result<Self, FromGonError>) {
        Ok(gon.deep_clone())
    }
}

/// `e` is the error of the first element of `items` that does not convert
/// into `T`, and all elements before it do.
pub open spec fn first_failure<T: FromGon>(items: Seq<GonModel>, e: FromGonError) -> bool {
    exists|i: int|
        0 <= i < items.len() && (forall|j: int| 0 <= j < i ==> T::convertible(#[trigger] items[j]))
            && !T::convertible(#[trigger] items[i]) && T::fails_with(items[i], e)
}

/// Every element of `items` converts into `T`.
pub open spec fn all_convertible<T: FromGon>(items: Seq<GonModel>) -> bool {
    forall|i: int| 0 <= i < items.len() ==> T::convertible(#[trigger] items[i])
}

/// `v` holds the conversions of `items`, in order.
pub open spec fn all_convert_to<T: FromGon>(items: Seq<GonModel>, v: Seq<T>) -> bool {
    v.len() == items.len() && forall|i: int|
        0 <= i < items.len() ==> T::converts_to(#[trigger] items[i], v[i])
}

/// Converts the elements of an array in order, stopping at the first failure.
fn convert_items<T: FromGon>(arr: &Vec<Gon>) -> (r: Result<Vec<T>, FromGonError>)
    ensures
        match r {
            Ok(v) => all_convertible::<T>(items_model(arr@)) && all_convert_to(items_model(arr@), v@),
            Err(e) => !all_convertible::<T>(items_model(arr@)) && first_failure::<T>(
                items_model(arr@),
                e,
            ),
        },
{
    proof {
        lemma_items_model(arr@);
    }
    let ghost items = items_model(arr@);
    let mut out: Vec<T> = Vec::new();
    let mut i: usize = 0;
    while i < arr.len()
        invariant
            i <= arr@.len(),
            items == items_model(arr@),
            items.len() == arr@.len(),
            forall|j: int| 0 <= j < arr@.len() ==> #[trigger] items[j] == arr@[j]@,
            out@.len() == i,
            forall|j: int| 0 <= j < i ==> T::convertible(#[trigger] items[j]),
            forall|j: int| 0 <= j < i ==> T::converts_to(#[trigger] items[j], out@[j]),
        decreases arr@.len() - i,
    {
        match T::from_gon(&arr[i]) {
            Ok(v) => {
                out.push(v);
            },
            Err(e) => {
                assert(items[i as int] == arr@[i as int]@);
                return Err(e);
            },
        }
        i = i + 1;
    }
    Ok(out)
}

impl<T: FromGon> FromGon for Vec<T> {
    open spec fn convertible(g: GonModel) -> bool {
        g is Array && all_convertible::<T>(g->Array_0)
    }

    open spec fn converts_to(g: GonModel, v: Vec<T>) -> bool {
        g is Array && all_convert_to(g->Array_0, v@)
    }

    open spec fn fails_with(g: GonModel, e: FromGonError) -> bool {
        if g is Array {
            first_failure::<T>(g->Array_0, e)
        } else {
            e is ExpectedArray
        }
    }

    fn from_gon(gon: &Gon) -> (r: Result<Self, FromGonError>) {
        match gon {
            Gon::Array(arr) => convert_items::<T>(arr),
            Gon::Object(_) | Gon::Value(_) => Err(FromGonError::ExpectedArray),
        }
    }
}

/// The largest capacity that arrayvec's `ArrayVec` accepts; `ArrayVec::new`
/// panics above it.
pub const ARRAY_CAPACITY_LIMIT: usize = 4294967295;

/// Relies on arrayvec's `ArrayVec`: for a capacity `N` up to `u32::MAX`,
/// collecting at most `N` items keeps them in order, and `into_inner` hands
/// back the array once all `N` places are filled.
#[verifier::external_body]
fn array_from_vec<T, const N: usize>(items: Vec<T>) -> (r: Option<[T; N]>)
    requires
        N <= ARRAY_CAPACITY_LIMIT,
        items@.len() <= N,
    ensures
        items@.len() == N ==> r is Some,
        r is Some ==> r->Some_0@ == items@,
{
    let filled: arrayvec::ArrayVec<T, N> = items.into_iter().collect();
    filled.into_inner().ok()
}

impl<T: FromGon, const N: usize> FromGon for [T; N] {
    open spec fn convertible(g: GonModel) -> bool {
        g is Array && g->Array_0.len() == N && N <= ARRAY_CAPACITY_LIMIT && all_convertible::<T>(
            g->Array_0,
        )
    }

    open spec fn converts_to(g: GonModel, v: [T; N]) -> bool {
        g is Array && all_convert_to(g->Array_0, v@)
    }

    open spec fn fails_with(g: GonModel, e: FromGonError) -> bool {
        if !(g is Array) {
            e is ExpectedArray
        } else if g->Array_0.len() != N {
            e == FromGonError::InvalidLength { expected: N, found: g->Array_0.len() as usize }
        } else if N > ARRAY_CAPACITY_LIMIT {
            e is Unknown
        } else {
            first_failure::<T>(g->Array_0, e)
        }
    }

    fn from_gon(gon: &Gon) -> (r: Result<Self, FromGonError>) {
        match gon {
            Gon::Array(arr) => {
                proof {
                    lemma_items_model(arr@);
                }
                if arr.len() != N {
                    return Err(FromGonError::InvalidLength { expected: N, found: arr.len() });
                }
                if N > ARRAY_CAPACITY_LIMIT {
                    return Err(FromGonError::Unknown);
                }
                match convert_items::<T>(arr) {
                    Ok(v) => match array_from_vec::<T, N>(v) {
                        Some(a) => Ok(a),
                        None => vstd::pervasive::unreached(),
                    },
                    Err(e) => Err(e),
                }
            },
            Gon::Object(_) | Gon::Value(_) => Err(FromGonError::ExpectedArray),
        }
    }
}

/// The values of an object's entries, in order.
pub open spec fn values_of(entries: Seq<(Seq<char>, GonModel)>) -> Seq<GonModel> {
    entries.map_values(|e: (Seq<char>, GonModel)| e.1)
}

/// `m` holds, for each key of the entries, the conversion of a value stored
/// under that key, and nothing else. (Maps keyed by `String` are described
/// by vstd only where `String` obeys its key model.)
pub open spec fn map_converts_to<T: FromGon>(
    entries: Seq<(Seq<char>, GonModel)>,
    m: Map<String, T>,
) -> bool {
    obeys_key_model::<String>() ==> {
        &&& forall|k: String|
            #[trigger] m.contains_key(k) ==> exists|j: int|
                0 <= j < entries.len() && (#[trigger] entries[j]).0 == k@ && T::converts_to(
                    entries[j].1,
                    m[k],
                )
        &&& forall|j: int|
            0 <= j < entries.len() ==> exists|k: String|
                #[trigger] m.contains_key(k) && k@ == (#[trigger] entries[j]).0
    }
}

/// Converts the values of an object in order, stopping at the first failure,
/// into a map from key to converted value.
fn convert_entries<T: FromGon>(entries: &Vec<(String, Gon)>) -> (r: Result<
    HashMap<String, T>,
    FromGonError,
>)
    ensures
        match r {
            Ok(m) => all_convertible::<T>(values_of(entries_model(entries@))) && map_converts_to(
                entries_model(entries@),
                m@,
            ),
            Err(e) => !all_convertible::<T>(values_of(entries_model(entries@))) && first_failure::<
                T,
            >(values_of(entries_model(entries@)), e),
        },
{
    broadcast use vstd::std_specs::hash::group_hash_axioms;

    proof {
        lemma_entries_model(entries@);
    }
    let ghost es = entries_model(entries@);
    let ghost vals = values_of(es);
    let mut out: HashMap<String, T> = HashMap::new();
    let mut i: usize = 0;
    while i < entries.len()
        invariant
            i <= entries@.len(),
            es == entries_model(entries@),
            vals == values_of(es),
            es.len() == entries@.len(),
            vals.len() == es.len(),
            forall|j: int| 0 <= j < es.len() ==> #[trigger] es[j] == (entries@[j].0@, entries@[j].1@),
            forall|j: int| 0 <= j < es.len() ==> #[trigger] vals[j] == es[j].1,
            forall|j: int| 0 <= j < i ==> T::convertible(#[trigger] vals[j]),
            map_converts_to(es.take(i as int), out@),
        decreases entries@.len() - i,
    {
        match T::from_gon(&entries[i].1) {
            Ok(v) => {
                let key = entries[i].0.clone();
                let ghost before = out@;
                out.insert(key, v);
                proof {
                    let done = es.take(i + 1);
                    assert(done[i as int] == es[i as int]);
                    if obeys_key_model::<String>() {
                        assert forall|k: String| #[trigger] out@.contains_key(k) implies exists|j: int|
                            0 <= j < done.len() && (#[trigger] done[j]).0 == k@ && T::converts_to(
                                done[j].1,
                                out@[k],
                            ) by {
                            if k == key {
                                assert(done[i as int].0 == k@);
                            } else {
                                assert(before.contains_key(k));
                                let j = choose|j: int|
                                    0 <= j < i && (#[trigger] es.take(i as int)[j]).0 == k@
                                        && T::converts_to(es.take(i as int)[j].1, before[k]);
                                assert(done[j] == es.take(i as int)[j]);
                            }
                        }
                        assert forall|j: int| 0 <= j < done.len() implies exists|k: String|
                            #[trigger] out@.contains_key(k) && k@ == (#[trigger] done[j]).0 by {
                            if j == i {
                                assert(out@.contains_key(key));
                            } else {
                                assert(es.take(i as int)[j] == done[j]);
                                let k = choose|k: String|
                                    #[trigger] before.contains_key(k) && k@ == (
                                    #[trigger] es.take(i as int)[j]).0;
                                assert(out@.contains_key(k));
                            }
                        }
                    }
                }
            },
            Err(e) => {
                assert(vals[i as int] == entries@[i as int].1@);
                return Err(e);
            },
        }
        i = i + 1;
    }
    proof {
        assert(es.take(i as int) =~= es);
    }
    Ok(out)
}

impl<T: FromGon> FromGon for HashMap<String, T> {
    open spec fn convertible(g: GonModel) -> bool {
        g is Object && all_convertible::<T>(values_of(g->Object_0))
    }

    open spec fn converts_to(g: GonModel, v: HashMap<String, T>) -> bool {
        g is Object && map_converts_to(g->Object_0, v@)
    }

    open spec fn fails_with(g: GonModel, e: FromGonError) -> bool {
        if g is Object {
            first_failure::<T>(values_of(g->Object_0), e)
        } else {
            e is ExpectedObject
        }
    }

    fn from_gon(gon: &Gon) -> (r: Result<Self, FromGonError>) {
        match gon {
            Gon::Object(entries) => convert_entries::<T>(entries),
            Gon::Array(_) | Gon::Value(_) => Err(FromGonError::ExpectedObject),
        }
    }
}

} // verus!
