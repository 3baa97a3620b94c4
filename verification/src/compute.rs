//! Case-mapping kernels over text columns.

use vstd::prelude::*;

use crate::array::Array;
use crate::datatypes::DataType;
use crate::error::Error;

verus! {

/// The uppercase mapping of a text value, as Unicode defines it.
pub uninterp spec fn upper_of(s: Seq<char>) -> Seq<char>;

/// The lowercase mapping of a text value, as Unicode defines it.
pub uninterp spec fn lower_of(s: Seq<char>) -> Seq<char>;

/// Relies on str::to_uppercase: the result depends on the characters alone.
#[verifier::external_body]
fn to_upper(s: &String) -> (r: String)
    ensures
        r@ == upper_of(s@),
        s@.len() == 0 ==> r@.len() == 0,
{
    s.to_uppercase()
}

/// Relies on str::to_lowercase: the result depends on the characters alone.
#[verifier::external_body]
fn to_lower(s: &String) -> (r: String)
    ensures
        r@ == lower_of(s@),
        s@.len() == 0 ==> r@.len() == 0,
{
    s.to_lowercase()
}

/// The types the case-mapping kernels accept.
pub open spec fn spec_can_case(dt: DataType) -> bool {
    dt is Utf8 || dt is LargeUtf8
}

/// Checks if an array of type `data_type` can perform the upper operation.
pub fn can_upper(data_type: &DataType) -> (r: bool)
    ensures
        r == spec_can_case(*data_type),
{
    match data_type {
        DataType::Utf8 => true,
        DataType::LargeUtf8 => true,
        _ => false,
    }
}

/// Checks if an array of type `data_type` can perform the lower operation.
pub fn can_lower(data_type: &DataType) -> (r: bool)
    ensures
        r == spec_can_case(*data_type),
{
    match data_type {
        DataType::Utf8 => true,
        DataType::LargeUtf8 => true,
        _ => false,
    }
}

fn map_strings_upper(v: &Vec<String>) -> (r: Vec<String>)
    ensures
        r.deep_view().len() == v.deep_view().len(),
        forall|i: int|
            0 <= i < v.deep_view().len() ==> #[trigger] r.deep_view()[i] == upper_of(
                v.deep_view()[i],
            ),
{
    let mut r: Vec<String> = Vec::new();
    let n = v.len();
    for i in 0..n
        invariant
            n == v@.len(),
            r@.len() == i,
            forall|k: int| 0 <= k < i ==> #[trigger] r@[k]@ == upper_of(v@[k]@),
    {
        r.push(to_upper(&v[i]));
    }
    assert forall|i: int| 0 <= i < v.deep_view().len() implies #[trigger] r.deep_view()[i]
        == upper_of(v.deep_view()[i]) by {
        assert(r.deep_view()[i] == r@[i]@);
        assert(v.deep_view()[i] == v@[i]@);
    }
    r
}

fn map_strings_lower(v: &Vec<String>) -> (r: Vec<String>)
    ensures
        r.deep_view().len() == v.deep_view().len(),
        forall|i: int|
            0 <= i < v.deep_view().len() ==> #[trigger] r.deep_view()[i] == lower_of(
                v.deep_view()[i],
            ),
{
    let mut r: Vec<String> = Vec::new();
    let n = v.len();
    for i in 0..n
        invariant
            n == v@.len(),
            r@.len() == i,
            forall|k: int| 0 <= k < i ==> #[trigger] r@[k]@ == lower_of(v@[k]@),
    {
        r.push(to_lower(&v[i]));
    }
    assert forall|i: int| 0 <= i < v.deep_view().len() implies #[trigger] r.deep_view()[i]
        == lower_of(v.deep_view()[i]) by {
        assert(r.deep_view()[i] == r@[i]@);
        assert(v.deep_view()[i] == v@[i]@);
    }
    r
}

/// Returns a new array where each element is upper-cased; errors when the
/// passed array is not a text array.
pub fn upper(array: &Array) -> (r: Result<Array, Error>)
    ensures
        match r {
            Ok(out) => {
                &&& spec_can_case(array.spec_data_type())
                &&& out.spec_data_type() == array.spec_data_type()
                &&& out.spec_strings().len() == array.spec_strings().len()
                &&& forall|i: int|
                    0 <= i < array.spec_strings().len() ==> #[trigger] out.spec_strings()[i]
                        == upper_of(array.spec_strings()[i])
            },
            Err(e) => e == Error::InvalidArgument && !spec_can_case(array.spec_data_type()),
        },
{
    match array {
        Array::Utf8(v) => Ok(Array::Utf8(map_strings_upper(v))),
        Array::LargeUtf8(v) => Ok(Array::LargeUtf8(map_strings_upper(v))),
        _ => Err(Error::InvalidArgument),
    }
}

/// Returns a new array where each element is lower-cased; errors when the
/// passed array is not a text array.
pub fn lower(array: &Array) -> (r: Result<Array, Error>)
    ensures
        match r {
            Ok(out) => {
                &&& spec_can_case(array.spec_data_type())
                &&& out.spec_data_type() == array.spec_data_type()
                &&& out.spec_strings().len() == array.spec_strings().len()
                &&& forall|i: int|
                    0 <= i < array.spec_strings().len() ==> #[trigger] out.spec_strings()[i]
                        == lower_of(array.spec_strings()[i])
            },
            Err(e) => e == Error::InvalidArgument && !spec_can_case(array.spec_data_type()),
        },
{
    match array {
        Array::Utf8(v) => Ok(Array::Utf8(map_strings_lower(v))),
        Array::LargeUtf8(v) => Ok(Array::LargeUtf8(map_strings_lower(v))),
        _ => Err(Error::InvalidArgument),
    }
}

} // verus!
