//! Schema-side data model: logical column types, fields, and the per-field
//! metadata the binary encoding needs (dictionary ids).

use vstd::prelude::*;

verus! {

/// Logical type of one column. A closed set: anything the encoder does not
/// support is rejected with `Error::InvalidArgument` instead of being written
/// in a lossy way.
#[derive(Clone, Copy, Debug, PartialEq, Eq, Structural)]
pub enum DataType {
    Null,
    Int32,
    Utf8,
    LargeUtf8,
    Dictionary,
}

/// One column definition: name, logical type, nullability.
pub struct Field {
    pub name: String,
    pub data_type: DataType,
    pub nullable: bool,
}

/// Ordered column definitions for the whole file; fixed for the lifetime of
/// one file and written exactly once, before any data.
pub struct Schema {
    pub fields: Vec<Field>,
}

/// Per-field metadata needed for binary encoding, order-matched with the
/// schema fields: dictionary-encoded fields carry the id under which their
/// dictionary is transmitted.
#[derive(Clone, Copy, Debug)]
pub struct IpcField {
    pub dictionary_id: Option<i64>,
}

/// The largest number of fields a schema may carry; keeps default dictionary
/// ids inside `i64`.
pub const MAX_FIELDS: usize = 0x7fff_ffff;

/// The ipc fields line up with the schema fields: same length, a dictionary
/// id exactly for dictionary-typed fields, and no id used twice.
pub open spec fn fields_compatible(fields: Seq<Field>, ipc: Seq<IpcField>) -> bool {
    &&& ipc.len() == fields.len()
    &&& forall|i: int|
        0 <= i < fields.len() ==> ((fields[i].data_type is Dictionary) <==> (
        #[trigger] ipc[i].dictionary_id) is Some)
    &&& forall|i: int, j: int|
        0 <= i < j < ipc.len() && (#[trigger] ipc[i].dictionary_id) is Some ==> ipc[i].dictionary_id
            != #[trigger] ipc[j].dictionary_id
}

/// The default per-field encoding metadata: each dictionary-typed field
/// carries its field index as dictionary id, every other field none.
pub open spec fn spec_default_ipc_fields(fields: Seq<Field>) -> Seq<IpcField> {
    Seq::new(
        fields.len(),
        |i: int|
            IpcField {
                dictionary_id: if fields[i].data_type is Dictionary {
                    Some(i as i64)
                } else {
                    None
                },
            },
    )
}

/// Default per-field encoding metadata: each dictionary-typed field gets its
/// field index as dictionary id, every other field gets none.
pub fn default_ipc_fields(fields: &Vec<Field>) -> (r: Vec<IpcField>)
    requires
        fields@.len() <= MAX_FIELDS,
    ensures
        r@ == spec_default_ipc_fields(fields@),
        fields_compatible(fields@, r@),
{
    let mut r: Vec<IpcField> = Vec::new();
    let n = fields.len();
    for i in 0..n
        invariant
            n == fields@.len() <= MAX_FIELDS,
            r@.len() == i,
            forall|k: int|
                0 <= k < i ==> (#[trigger] r@[k]).dictionary_id == (
                if fields@[k].data_type is Dictionary {
                    Some(k as i64)
                } else {
                    None::<i64>
                }),
    {
        let id = match fields[i].data_type {
            DataType::Dictionary => Some(i as i64),
            _ => None,
        };
        r.push(IpcField { dictionary_id: id });
    }
    assert(r@ =~= spec_default_ipc_fields(fields@));
    r
}

} // verus!
