use arrow2::array::Array;
use arrow2::compute::{can_lower, can_upper, lower, upper};
use arrow2::datatypes::DataType;
use arrow2::error::Error;

fn strings(vals: &[&str]) -> Vec<String> {
    vals.iter().map(|s| s.to_string()).collect()
}

fn text_of(a: &Array) -> Vec<String> {
    match a {
        Array::Utf8(v) => v.clone(),
        Array::LargeUtf8(v) => v.clone(),
        other => panic!("not a text array: {:?}", other.len()),
    }
}

#[test]
fn upper_maps_each_value() {
    let a = Array::Utf8(strings(&["hello", "Mixed", "ÄÖÜ", ""]));
    let out = upper(&a).unwrap();
    assert_eq!(text_of(&out), strings(&["HELLO", "MIXED", "ÄÖÜ", ""]));
    assert_eq!(out.data_type(), DataType::Utf8);
}

#[test]
fn upper_keeps_large_utf8_kind() {
    let a = Array::LargeUtf8(strings(&["straße"]));
    let out = upper(&a).unwrap();
    assert_eq!(out.data_type(), DataType::LargeUtf8);
    assert_eq!(text_of(&out), strings(&["STRASSE"]));
}

#[test]
fn lower_maps_each_value() {
    let a = Array::Utf8(strings(&["HeLLo", "WORLD"]));
    let out = lower(&a).unwrap();
    assert_eq!(text_of(&out), strings(&["hello", "world"]));
}

#[test]
fn case_kernels_reject_non_text() {
    assert_eq!(upper(&Array::Int32(vec![1])).err(), Some(Error::InvalidArgument));
    assert_eq!(lower(&Array::Null(2)).err(), Some(Error::InvalidArgument));
}

#[test]
fn can_upper_matches_supported_types() {
    assert!(can_upper(&DataType::Utf8));
    assert!(can_upper(&DataType::LargeUtf8));
    assert!(!can_upper(&DataType::Null));
    assert!(!can_upper(&DataType::Int32));
    assert!(!can_upper(&DataType::Dictionary));
}

#[test]
fn can_lower_matches_supported_types() {
    assert!(can_lower(&DataType::Utf8));
    assert!(can_lower(&DataType::LargeUtf8));
    assert!(!can_lower(&DataType::Null));
    assert!(!can_lower(&DataType::Int32));
}
