//! Trusted boundary to the `arrow_format` crate: flatbuffer serialization of
//! schema messages, record-batch and dictionary message headers, and the
//! footer.
//!
//! Each serialization is deterministic — planus builds the same bytes from
//! the same input — so every wrapper's result is given a name, and the
//! writer's contracts speak of the bytes through those names.

use arrow_format::ipc as fb;
use arrow_format::ipc::Block as FbBlock;
use arrow_format::ipc::Buffer as FbBuffer;
use arrow_format::ipc::Field as FbField;
use arrow_format::ipc::FieldNode as FbFieldNode;
use vstd::prelude::*;

use crate::datatypes::{IpcField, Schema};
use crate::message::Block;

verus! {

#[verifier::external_type_specification]
#[verifier::external_body]
pub struct ExIpcType(fb::Type);

#[verifier::external_type_specification]
#[verifier::external_body]
pub struct ExIpcField(FbField);

#[verifier::external_type_specification]
#[verifier::external_body]
pub struct ExIpcBlock(FbBlock);

#[verifier::external_type_specification]
#[verifier::external_body]
pub struct ExIpcFieldNode(FbFieldNode);

#[verifier::external_type_specification]
#[verifier::external_body]
pub struct ExIpcBuffer(FbBuffer);

/// A field node of a record batch header: row count and null count of one
/// column.
#[derive(Clone, Copy, Debug, PartialEq, Eq, Structural)]
pub struct FieldNode {
    pub length: i64,
    pub null_count: i64,
}

/// One buffer of a record batch body: offset within the body and unpadded
/// byte length.
#[derive(Clone, Copy, Debug, PartialEq, Eq, Structural)]
pub struct BufferRef {
    pub offset: i64,
    pub length: i64,
}

/// The serialized schema message for these fields: a function of the
/// schema and the per-field encoding metadata alone.
pub uninterp spec fn schema_msg_of(fields: Seq<crate::datatypes::Field>, ipc: Seq<IpcField>) -> Seq<
    u8,
>;

/// The serialized record-batch message header: a function of the row
/// count, the field nodes, the buffer table and the body length alone.
pub uninterp spec fn record_meta_of(
    rows: i64,
    nodes: Seq<FieldNode>,
    buffers: Seq<BufferRef>,
    body_len: i64,
) -> Seq<u8>;

/// The serialized dictionary message header: a function of the dictionary
/// id, the row count, the field nodes, the buffer table and the body
/// length alone.
pub uninterp spec fn dict_meta_of(
    id: i64,
    rows: i64,
    nodes: Seq<FieldNode>,
    buffers: Seq<BufferRef>,
    body_len: i64,
) -> Seq<u8>;

/// The serialized footer: a function of the schema, the per-field encoding
/// metadata and the two block lists alone.
pub uninterp spec fn footer_bytes_of(
    fields: Seq<crate::datatypes::Field>,
    ipc: Seq<IpcField>,
    dictionary_blocks: Seq<Block>,
    record_blocks: Seq<Block>,
) -> Seq<u8>;

/// Relies on the `arrow_format::ipc::Type` constructors: maps one logical
/// type tag onto the flatbuffer type union, arm by arm. Dictionary-encoded
/// columns carry text values, so their value type is `Utf8`.
#[verifier::external_body]
fn ipc_type_of(f: &crate::datatypes::Field) -> fb::Type {
    match f.data_type {
        crate::datatypes::DataType::Null => fb::Type::Null(Box::new(fb::Null {})),
        crate::datatypes::DataType::Int32 => fb::Type::Int(
            Box::new(fb::Int { bit_width: 32, is_signed: true }),
        ),
        crate::datatypes::DataType::Utf8 => fb::Type::Utf8(Box::new(fb::Utf8 {})),
        crate::datatypes::DataType::LargeUtf8 => fb::Type::LargeUtf8(Box::new(fb::LargeUtf8 {})),
        crate::datatypes::DataType::Dictionary => fb::Type::Utf8(Box::new(fb::Utf8 {})),
    }
}

/// Relies on `arrow_format::ipc::Field` and `DictionaryEncoding`: moves
/// name, nullability, type and dictionary id into the flatbuffer field,
/// one for one.
#[verifier::external_body]
fn ipc_field_of(f: &crate::datatypes::Field, d: &IpcField, t: fb::Type) -> FbField {
    let dictionary = d.dictionary_id.map(|id| Box::new(fb::DictionaryEncoding {
        id,
        index_type: Some(Box::new(fb::Int { bit_width: 32, is_signed: true })),
        is_ordered: false,
        dictionary_kind: fb::DictionaryKind::DenseArray,
    }));
    FbField {
        name: Some(f.name.clone()),
        nullable: f.nullable,
        type_: Some(t),
        dictionary,
        children: Some(vec![]),
        custom_metadata: None,
    }
}

/// Relies on `arrow_format::ipc::Block`: moves the three fields, one for
/// one.
#[verifier::external_body]
fn ipc_block_of(b: &Block) -> FbBlock {
    FbBlock { offset: b.offset, meta_data_length: b.meta_data_length, body_length: b.body_length }
}

/// Relies on `arrow_format::ipc::FieldNode`: moves the two fields, one for
/// one.
#[verifier::external_body]
fn ipc_node_of(n: &FieldNode) -> FbFieldNode {
    FbFieldNode { length: n.length, null_count: n.null_count }
}

/// Relies on `arrow_format::ipc::Buffer`: moves the two fields, one for
/// one.
#[verifier::external_body]
fn ipc_buffer_of(b: &BufferRef) -> FbBuffer {
    FbBuffer { offset: b.offset, length: b.length }
}

/// Relies on `arrow_format::ipc::Message`, `Schema` and
/// `planus::Builder::finish`: serializes a schema message carrying the
/// given fields, converted one for one.
#[verifier::external_body]
pub fn schema_message_data(schema: &Schema, ipc_fields: &Vec<IpcField>) -> (r: Vec<u8>)
    requires
        ipc_fields@.len() == schema.fields@.len(),
    ensures
        r@ == schema_msg_of(schema.fields@, ipc_fields@),
{
    let fields: Vec<FbField> = schema.fields.iter().zip(ipc_fields.iter()).map(|(f, d)| ipc_field_of(f, d, ipc_type_of(f))).collect();
    let schema_fb = fb::Schema { endianness: fb::Endianness::Little, fields: Some(fields), custom_metadata: None, features: None };
    let header = Some(fb::MessageHeader::Schema(Box::new(schema_fb)));
    let message = fb::Message { version: fb::MetadataVersion::V5, header, body_length: 0, custom_metadata: None };
    let mut builder = fb::planus::Builder::new();
    builder.finish(&message, None).to_vec()
}

/// Relies on `arrow_format::ipc::RecordBatch`, `Message` and
/// `planus::Builder::finish`: serializes a record-batch message header
/// with the given nodes and buffers, converted one for one.
#[verifier::external_body]
pub fn record_batch_data(rows: i64, nodes: &Vec<FieldNode>, buffers: &Vec<BufferRef>, body_len: i64) -> (r: Vec<u8>)
    ensures
        r@ == record_meta_of(rows, nodes@, buffers@, body_len),
{
    let batch = fb::RecordBatch { length: rows, nodes: Some(nodes.iter().map(ipc_node_of).collect()), buffers: Some(buffers.iter().map(ipc_buffer_of).collect()), compression: None };
    let header = Some(fb::MessageHeader::RecordBatch(Box::new(batch)));
    let message = fb::Message { version: fb::MetadataVersion::V5, header, body_length: body_len, custom_metadata: None };
    let mut builder = fb::planus::Builder::new();
    builder.finish(&message, None).to_vec()
}

/// Relies on `arrow_format::ipc::DictionaryBatch`, `Message` and
/// `planus::Builder::finish`: serializes a dictionary message header for
/// the given id, with the dictionary's values described by nodes and
/// buffers, converted one for one.
#[verifier::external_body]
pub fn dictionary_data(id: i64, rows: i64, nodes: &Vec<FieldNode>, buffers: &Vec<BufferRef>, body_len: i64) -> (r: Vec<u8>)
    ensures
        r@ == dict_meta_of(id, rows, nodes@, buffers@, body_len),
{
    let data = fb::RecordBatch { length: rows, nodes: Some(nodes.iter().map(ipc_node_of).collect()), buffers: Some(buffers.iter().map(ipc_buffer_of).collect()), compression: None };
    let batch = fb::DictionaryBatch { id, data: Some(Box::new(data)), is_delta: false };
    let header = Some(fb::MessageHeader::DictionaryBatch(Box::new(batch)));
    let message = fb::Message { version: fb::MetadataVersion::V5, header, body_length: body_len, custom_metadata: None };
    let mut builder = fb::planus::Builder::new();
    builder.finish(&message, None).to_vec()
}

/// Relies on `arrow_format::ipc::Footer`, `Schema`, `Block` and
/// `planus::Builder::finish`: serializes the footer at metadata version V5
/// with the schema fields and the two block lists, converted one for one.
#[verifier::external_body]
pub fn footer_data(
    schema: &Schema,
    ipc_fields: &Vec<IpcField>,
    dictionary_blocks: &Vec<Block>,
    record_blocks: &Vec<Block>,
) -> (r: Vec<u8>)
    requires
        ipc_fields@.len() == schema.fields@.len(),
    ensures
        r@ == footer_bytes_of(schema.fields@, ipc_fields@, dictionary_blocks@, record_blocks@),
{
    let fields: Vec<FbField> = schema.fields.iter().zip(ipc_fields.iter()).map(|(f, d)| ipc_field_of(f, d, ipc_type_of(f))).collect();
    let schema_fb = fb::Schema { endianness: fb::Endianness::Little, fields: Some(fields), custom_metadata: None, features: None };
    let dictionaries = Some(dictionary_blocks.iter().map(ipc_block_of).collect());
    let record_batches = Some(record_blocks.iter().map(ipc_block_of).collect());
    let footer = fb::Footer { version: fb::MetadataVersion::V5, schema: Some(Box::new(schema_fb)), dictionaries, record_batches, custom_metadata: None };
    let mut builder = fb::planus::Builder::new();
    builder.finish(&footer, None).to_vec()
}

} // verus!
