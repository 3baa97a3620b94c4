//! Chunk encoding: turns one chunk into zero or more dictionary messages
//! plus exactly one record-batch message, consulting the dictionary tracker
//! in field order.

use vstd::bytes::{spec_u32_to_le_bytes, u32_to_le_bytes};
use vstd::prelude::*;
use vstd::utf8::encode_utf8;

use crate::array::{Array, Chunk};
use crate::datatypes::{fields_compatible, Field, IpcField};
use crate::dictionary::{dict_fingerprint, fingerprint_values, DictAction, DictionaryTracker};
use crate::error::Error;
use crate::flat::{BufferRef, FieldNode};
use crate::message::{pad_len8, padded8, zero_bytes, EncodedData, WriteOptions, MAX_PART};

verus! {

/// Most rows a single column may carry: keeps every buffer length and
/// offset inside what the block index and the buffer table can address.
pub const MAX_VALUES: usize = 0x1fff_bfff;

/// The unsigned 32-bit pattern of a signed 32-bit value.
pub open spec fn u32_of_i32(x: i32) -> u32 {
    if x >= 0 {
        x as u32
    } else {
        ((x as int) + 0x1_0000_0000) as u32
    }
}

/// Little-endian bytes of a sequence of 32-bit integers.
pub open spec fn int32_le_data(vals: Seq<i32>) -> Seq<u8>
    decreases vals.len(),
{
    if vals.len() == 0 {
        Seq::empty()
    } else {
        int32_le_data(vals.drop_last()) + spec_u32_to_le_bytes(u32_of_i32(vals.last()))
    }
}

pub proof fn lemma_int32_le_data_len(vals: Seq<i32>)
    ensures
        int32_le_data(vals).len() == 4 * vals.len(),
    decreases vals.len(),
{
    if vals.len() != 0 {
        lemma_int32_le_data_len(vals.drop_last());
        vstd::bytes::lemma_auto_spec_u32_to_from_le_bytes();
    }
}

/// UTF-8 bytes of all text values, concatenated in order.
pub open spec fn utf8_concat(vals: Seq<Seq<char>>) -> Seq<u8>
    decreases vals.len(),
{
    if vals.len() == 0 {
        Seq::empty()
    } else {
        utf8_concat(vals.drop_last()) + encode_utf8(vals.last())
    }
}

/// Total UTF-8 byte length of all text values.
pub open spec fn utf8_total(vals: Seq<Seq<char>>) -> int {
    utf8_concat(vals).len() as int
}

/// The offsets buffer of a text column: little-endian cumulative UTF-8 byte
/// lengths, starting at zero — one entry more than there are values.
pub open spec fn offsets32_data(vals: Seq<Seq<char>>) -> Seq<u8>
    decreases vals.len(),
{
    if vals.len() == 0 {
        spec_u32_to_le_bytes(0u32)
    } else {
        offsets32_data(vals.drop_last()) + spec_u32_to_le_bytes(utf8_total(vals) as u32)
    }
}

pub proof fn lemma_offsets32_len(vals: Seq<Seq<char>>)
    ensures
        offsets32_data(vals).len() == 4 * vals.len() + 4,
    decreases vals.len(),
{
    vstd::bytes::lemma_auto_spec_u32_to_from_le_bytes();
    if vals.len() != 0 {
        lemma_offsets32_len(vals.drop_last());
    }
}

pub proof fn lemma_utf8_total_prefix(vals: Seq<Seq<char>>, i: int)
    requires
        0 <= i <= vals.len(),
    ensures
        utf8_total(vals.subrange(0, i)) <= utf8_total(vals),
    decreases vals.len() - i,
{
    if i < vals.len() {
        assert(vals.subrange(0, i + 1).drop_last() =~= vals.subrange(0, i));
        assert(vals.subrange(0, i + 1).last() == vals[i]);
        lemma_utf8_total_prefix(vals, i + 1);
    } else {
        assert(vals.subrange(0, i) =~= vals);
    }
}

/// Body bytes of one column inside a record batch: each buffer zero-padded
/// to an 8-byte boundary.
pub open spec fn utf8_segment(vals: Seq<Seq<char>>) -> Seq<u8> {
    offsets32_data(vals) + zero_bytes(pad_len8(4 * vals.len() as int + 4)) + utf8_concat(vals)
        + zero_bytes(pad_len8(utf8_total(vals)))
}

pub open spec fn int32_segment(vals: Seq<i32>) -> Seq<u8> {
    int32_le_data(vals) + zero_bytes(pad_len8(4 * vals.len() as int))
}

/// The two buffers of a text column's body, as the record batch header
/// lists them: the offsets buffer, then the data buffer.
pub open spec fn utf8_col_buffers(vals: Seq<Seq<char>>, start: int) -> Seq<BufferRef> {
    seq![
        BufferRef { offset: start as i64, length: (4 * vals.len() + 4) as i64 },
        BufferRef {
            offset: (start + padded8(4 * vals.len() as int + 4)) as i64,
            length: utf8_total(vals) as i64,
        },
    ]
}

/// The field node of one column: its row count, no nulls.
pub open spec fn col_node(a: Array) -> FieldNode {
    FieldNode { length: a.spec_len() as i64, null_count: 0 }
}

/// The buffers of one column, starting at `start` within the body.
pub open spec fn col_buffers(a: Array, start: int) -> Seq<BufferRef> {
    match a {
        Array::Int32(v) => seq![BufferRef { offset: start as i64, length: (4 * v@.len()) as i64 }],
        Array::Utf8(v) => utf8_col_buffers(v.deep_view(), start),
        Array::Dictionary { keys, values } => seq![
            BufferRef { offset: start as i64, length: (4 * keys@.len()) as i64 },
        ],
        _ => Seq::empty(),
    }
}

pub open spec fn column_body_bytes(a: Array) -> Seq<u8> {
    match a {
        Array::Int32(v) => int32_segment(v@),
        Array::Utf8(v) => utf8_segment(v.deep_view()),
        Array::Dictionary { keys, values } => int32_segment(keys@),
        _ => Seq::empty(),
    }
}

/// The record-batch body of a whole chunk: the columns' bodies in order.
pub open spec fn chunk_body_bytes(arrays: Seq<Array>) -> Seq<u8>
    decreases arrays.len(),
{
    if arrays.len() == 0 {
        Seq::empty()
    } else {
        chunk_body_bytes(arrays.drop_last()) + column_body_bytes(arrays.last())
    }
}

pub proof fn lemma_chunk_body_prefix(arrays: Seq<Array>, i: int)
    requires
        0 <= i <= arrays.len(),
    ensures
        chunk_body_bytes(arrays.subrange(0, i)).len() <= chunk_body_bytes(arrays).len(),
    decreases arrays.len() - i,
{
    if i < arrays.len() {
        assert(arrays.subrange(0, i + 1).drop_last() =~= arrays.subrange(0, i));
        assert(arrays.subrange(0, i + 1).last() == arrays[i]);
        lemma_chunk_body_prefix(arrays, i + 1);
    } else {
        assert(arrays.subrange(0, i) =~= arrays);
    }
}

/// The field nodes of a chunk's record batch header, in column order.
pub open spec fn chunk_nodes(arrays: Seq<Array>) -> Seq<FieldNode> {
    Seq::new(arrays.len(), |i: int| col_node(arrays[i]))
}

/// The buffer table of a chunk's record batch header: each column's
/// buffers, at their positions within the body.
pub open spec fn chunk_buffers(arrays: Seq<Array>) -> Seq<BufferRef>
    decreases arrays.len(),
{
    if arrays.len() == 0 {
        Seq::empty()
    } else {
        chunk_buffers(arrays.drop_last()) + col_buffers(
            arrays.last(),
            chunk_body_bytes(arrays.drop_last()).len() as int,
        )
    }
}

/// The shared row count of a chunk's columns.
pub open spec fn rows_of(arrays: Seq<Array>) -> nat {
    if arrays.len() == 0 {
        0
    } else {
        arrays[0].spec_len()
    }
}

/// The record-batch message header of a chunk, through the serializer's
/// name: fully determined by the columns.
pub open spec fn record_header_bytes(arrays: Seq<Array>) -> Seq<u8> {
    crate::flat::record_meta_of(
        rows_of(arrays) as i64,
        chunk_nodes(arrays),
        chunk_buffers(arrays),
        chunk_body_bytes(arrays).len() as i64,
    )
}

/// The dictionary message header for values written under `id`, through
/// the serializer's name: fully determined by the id and the values.
pub open spec fn dict_header_bytes(id: i64, values: Seq<Seq<char>>) -> Seq<u8> {
    crate::flat::dict_meta_of(
        id,
        values.len() as i64,
        seq![FieldNode { length: values.len() as i64, null_count: 0 }],
        utf8_col_buffers(values, 0),
        utf8_segment(values).len() as i64,
    )
}

/// Every key points into the dictionary's values.
pub open spec fn spec_keys_ok(keys: Seq<i32>, n_values: int) -> bool {
    forall|k: int| 0 <= k < keys.len() ==> 0 <= #[trigger] keys[k] < n_values
}

/// The encoder can write this column: a supported kind, within size limits,
/// and (for dictionary columns) keys that resolve inside the values.
pub open spec fn column_encodable(a: Array) -> bool {
    match a {
        Array::Int32(v) => v@.len() <= MAX_VALUES,
        Array::Utf8(v) => v@.len() <= MAX_VALUES && utf8_total(v.deep_view()) <= MAX_PART,
        Array::Dictionary { keys, values } => {
            &&& keys@.len() <= MAX_VALUES
            &&& values@.len() <= MAX_VALUES
            &&& utf8_total(values.deep_view()) <= MAX_PART
            &&& spec_keys_ok(keys@, values@.len() as int)
        },
        _ => false,
    }
}

/// Column count and per-column types agree with the declared fields.
pub open spec fn chunk_types_ok(arrays: Seq<Array>, fields: Seq<Field>) -> bool {
    &&& arrays.len() == fields.len()
    &&& forall|i: int|
        0 <= i < arrays.len() ==> (#[trigger] arrays[i]).spec_data_type() == fields[i].data_type
}

/// The whole chunk can be encoded: every column, and a body the block index
/// can address.
pub open spec fn chunk_encodable(arrays: Seq<Array>) -> bool {
    &&& forall|i: int| 0 <= i < arrays.len() ==> column_encodable(#[trigger] arrays[i])
    &&& chunk_body_bytes(arrays).len() <= MAX_PART
}

/// The values of a dictionary column; empty for any other column.
pub open spec fn dict_values_of(a: Array) -> Seq<Seq<char>> {
    match a {
        Array::Dictionary { keys, values } => values.deep_view(),
        _ => Seq::empty(),
    }
}

/// Fingerprint of a dictionary column's current values.
pub open spec fn col_dict_fp(a: Array) -> u64 {
    dict_fingerprint(dict_values_of(a))
}

/// The dictionary id an ipc field declares (0 when it declares none).
pub open spec fn spec_dict_id(d: IpcField) -> i64 {
    match d.dictionary_id {
        Some(id) => id,
        None => 0,
    }
}

/// Some dictionary column's values changed under a policy that forbids
/// replacement.
pub open spec fn has_dict_mismatch(
    arrays: Seq<Array>,
    ipc: Seq<IpcField>,
    tracker: DictionaryTracker,
) -> bool {
    exists|i: int|
        0 <= i < arrays.len() && (#[trigger] ipc[i].dictionary_id) is Some && tracker.spec_mismatch(
            spec_dict_id(ipc[i]),
            col_dict_fp(arrays[i]),
        )
}

/// Column `i` carries a dictionary the tracker classifies as to-be-written.
pub open spec fn is_written_col(
    arrays: Seq<Array>,
    ipc: Seq<IpcField>,
    m: Map<i64, u64>,
    i: int,
) -> bool {
    &&& ipc[i].dictionary_id is Some
    &&& DictionaryTracker::spec_decide(m, spec_dict_id(ipc[i]), col_dict_fp(arrays[i]))
        != DictAction::Skip
}

/// Indices (ascending) of the first `n` columns whose dictionaries must be
/// written, judged against the tracker state `m`.
pub open spec fn written_dict_idxs_upto(
    arrays: Seq<Array>,
    ipc: Seq<IpcField>,
    m: Map<i64, u64>,
    n: int,
) -> Seq<int>
    decreases n,
{
    if n <= 0 {
        Seq::empty()
    } else {
        let rest = written_dict_idxs_upto(arrays, ipc, m, n - 1);
        if is_written_col(arrays, ipc, m, n - 1) {
            rest.push(n - 1)
        } else {
            rest
        }
    }
}

/// Indices, in field order, of the columns whose dictionaries this chunk
/// must emit.
pub open spec fn written_dict_idxs(arrays: Seq<Array>, ipc: Seq<IpcField>, m: Map<i64, u64>) -> Seq<
    int,
> {
    written_dict_idxs_upto(arrays, ipc, m, arrays.len() as int)
}

fn i32_le(x: i32) -> (r: Vec<u8>)
    ensures
        r@ == spec_u32_to_le_bytes(u32_of_i32(x)),
{
    let u: u32 = if x >= 0 {
        x as u32
    } else {
        ((x as i64) + 0x1_0000_0000i64) as u32
    };
    u32_to_le_bytes(u)
}

fn push_int32_data(out: &mut Vec<u8>, vals: &Vec<i32>)
    ensures
        final(out)@ == old(out)@ + int32_le_data(vals@),
{
    let n = vals.len();
    for i in 0..n
        invariant
            n == vals@.len(),
            out@ == old(out)@ + int32_le_data(vals@.subrange(0, i as int)),
    {
        let ghost pre = vals@.subrange(0, i as int);
        let b = i32_le(vals[i]);
        crate::message::push_bytes(out, &b);
        proof {
            let cur = vals@.subrange(0, i + 1);
            assert(cur.drop_last() =~= pre);
            assert(cur.last() == vals@[i as int]);
            assert(out@ =~= old(out)@ + int32_le_data(cur));
        }
    }
    assert(vals@.subrange(0, n as int) =~= vals@);
}

fn utf8_total_checked(vals: &Vec<String>) -> (r: Result<usize, Error>)
    ensures
        match r {
            Ok(t) => t == utf8_total(vals.deep_view()) && t <= MAX_PART,
            Err(e) => e == Error::InvalidArgument && utf8_total(vals.deep_view()) > MAX_PART,
        },
{
    let ghost dv = vals.deep_view();
    let mut acc: usize = 0;
    let n = vals.len();
    assert(dv.len() == n);
    for i in 0..n
        invariant
            n == vals@.len(),
            dv == vals.deep_view(),
            dv.len() == n,
            acc == utf8_total(dv.subrange(0, i as int)),
            acc <= MAX_PART,
    {
        let ghost pre = dv.subrange(0, i as int);
        let bv = vstd::slice::slice_to_vec(vals[i].as_str().as_bytes());
        let l = bv.len();
        proof {
            let cur = dv.subrange(0, i + 1);
            assert(cur.drop_last() =~= pre);
            assert(cur.last() == dv[i as int]);
            assert(dv[i as int] == vals@[i as int]@);
            assert(bv@ == encode_utf8(dv[i as int]));
            assert(utf8_total(cur) == acc + l);
        }
        if l > MAX_PART - acc {
            proof {
                lemma_utf8_total_prefix(dv, i + 1);
            }
            return Err(Error::InvalidArgument);
        }
        acc = acc + l;
    }
    assert(dv.subrange(0, n as int) =~= dv);
    Ok(acc)
}

fn push_offsets(out: &mut Vec<u8>, vals: &Vec<String>)
    requires
        utf8_total(vals.deep_view()) <= MAX_PART,
    ensures
        final(out)@ == old(out)@ + offsets32_data(vals.deep_view()),
{
    let ghost dv = vals.deep_view();
    let mut acc: usize = 0;
    let z = u32_to_le_bytes(0u32);
    crate::message::push_bytes(out, &z);
    assert(dv.subrange(0, 0) =~= Seq::<Seq<char>>::empty());
    let n = vals.len();
    assert(dv.len() == n);
    for i in 0..n
        invariant
            n == vals@.len(),
            dv == vals.deep_view(),
            dv.len() == n,
            utf8_total(dv) <= MAX_PART,
            acc == utf8_total(dv.subrange(0, i as int)),
            acc <= MAX_PART,
            out@ == old(out)@ + offsets32_data(dv.subrange(0, i as int)),
    {
        let ghost pre = dv.subrange(0, i as int);
        let bv = vstd::slice::slice_to_vec(vals[i].as_str().as_bytes());
        let l = bv.len();
        proof {
            let cur = dv.subrange(0, i + 1);
            assert(cur.drop_last() =~= pre);
            assert(cur.last() == dv[i as int]);
            assert(dv[i as int] == vals@[i as int]@);
            assert(bv@ == encode_utf8(dv[i as int]));
            assert(utf8_total(cur) == acc + l);
            lemma_utf8_total_prefix(dv, i + 1);
        }
        acc = acc + l;
        let lb = u32_to_le_bytes(acc as u32);
        crate::message::push_bytes(out, &lb);
        proof {
            let cur = dv.subrange(0, i + 1);
            assert(out@ =~= old(out)@ + offsets32_data(cur));
        }
    }
    assert(dv.subrange(0, n as int) =~= dv);
}

fn push_utf8_data(out: &mut Vec<u8>, vals: &Vec<String>)
    ensures
        final(out)@ == old(out)@ + utf8_concat(vals.deep_view()),
{
    let ghost dv = vals.deep_view();
    let n = vals.len();
    assert(dv.len() == n);
    for i in 0..n
        invariant
            n == vals@.len(),
            dv == vals.deep_view(),
            dv.len() == n,
            out@ == old(out)@ + utf8_concat(dv.subrange(0, i as int)),
    {
        let ghost pre = dv.subrange(0, i as int);
        let b = vstd::slice::slice_to_vec(vals[i].as_str().as_bytes());
        proof {
            assert(dv[i as int] == vals@[i as int]@);
            assert(b@ == encode_utf8(dv[i as int]));
        }
        crate::message::push_bytes(out, &b);
        proof {
            let cur = dv.subrange(0, i + 1);
            assert(cur.drop_last() =~= pre);
            assert(cur.last() == dv[i as int]);
            assert(out@ =~= old(out)@ + utf8_concat(cur));
        }
    }
    assert(dv.subrange(0, n as int) =~= dv);
}

/// Appends the full body segment of a text column (offsets and data, each
/// padded) and records its two buffers.
fn push_utf8_segment(
    out: &mut Vec<u8>,
    buffers: &mut Vec<BufferRef>,
    vals: &Vec<String>,
)
    requires
        vals@.len() <= MAX_VALUES,
        utf8_total(vals.deep_view()) <= MAX_PART,
        old(out)@.len() <= MAX_PART,
    ensures
        final(out)@ == old(out)@ + utf8_segment(vals.deep_view()),
        final(out)@.len() <= old(out)@.len() + 2 * (MAX_PART as int) + 16,
        final(buffers)@ == old(buffers)@ + utf8_col_buffers(
            vals.deep_view(),
            old(out)@.len() as int,
        ),
{
    let ghost dv = vals.deep_view();
    let n = vals.len();
    assert(dv.len() == n);
    let total = match utf8_total_checked(vals) {
        Ok(t) => t,
        Err(_) => {
            proof {
                assert(false);
            }
            0
        },
    };
    buffers.push(BufferRef { offset: out.len() as i64, length: (4 * n + 4) as i64 });
    let ghost mid0 = out@;
    push_offsets(out, vals);
    proof {
        lemma_offsets32_len(dv);
    }
    let opad = crate::message::pad_amount(4 * n + 4);
    crate::message::push_zero_bytes(out, opad);
    buffers.push(BufferRef { offset: out.len() as i64, length: total as i64 });
    push_utf8_data(out, vals);
    let dpad = crate::message::pad_amount(total);
    crate::message::push_zero_bytes(out, dpad);
    assert(final(out)@ =~= old(out)@ + utf8_segment(dv));
    assert(final(buffers)@ =~= old(buffers)@ + utf8_col_buffers(dv, old(out)@.len() as int));
}

/// Appends one column's body to the record-batch body, recording its field
/// node and buffers; rejects columns the encoder does not support.
fn push_column(
    out: &mut Vec<u8>,
    nodes: &mut Vec<FieldNode>,
    buffers: &mut Vec<BufferRef>,
    a: &Array,
) -> (r: Result<(), Error>)
    requires
        old(out)@.len() <= MAX_PART,
    ensures
        match r {
            Ok(()) => {
                &&& final(out)@ == old(out)@ + column_body_bytes(*a)
                &&& final(nodes)@ == old(nodes)@.push(col_node(*a))
                &&& final(buffers)@ == old(buffers)@ + col_buffers(*a, old(out)@.len() as int)
                &&& column_encodable(*a)
                &&& a.spec_len() <= MAX_VALUES
            },
            Err(e) => e == Error::InvalidArgument && !column_encodable(*a),
        },
{
    match a {
        Array::Int32(v) => {
            let n = v.len();
            if n > MAX_VALUES {
                return Err(Error::InvalidArgument);
            }
            nodes.push(FieldNode { length: n as i64, null_count: 0 });
            buffers.push(BufferRef { offset: out.len() as i64, length: (4 * n) as i64 });
            push_int32_data(out, v);
            proof {
                lemma_int32_le_data_len(v@);
            }
            let pad = crate::message::pad_amount(4 * n);
            crate::message::push_zero_bytes(out, pad);
            assert(final(out)@ =~= old(out)@ + column_body_bytes(*a));
            assert(final(buffers)@ =~= old(buffers)@ + col_buffers(*a, old(out)@.len() as int));
            Ok(())
        },
        Array::Utf8(v) => {
            let n = v.len();
            if n > MAX_VALUES {
                return Err(Error::InvalidArgument);
            }
            match utf8_total_checked(v) {
                Ok(_) => {},
                Err(e) => {
                    return Err(e);
                },
            }
            nodes.push(FieldNode { length: n as i64, null_count: 0 });
            push_utf8_segment(out, buffers, v);
            assert(final(buffers)@ =~= old(buffers)@ + col_buffers(*a, old(out)@.len() as int));
            Ok(())
        },
        Array::Dictionary { keys, values } => {
            let n = keys.len();
            if n > MAX_VALUES || values.len() > MAX_VALUES {
                return Err(Error::InvalidArgument);
            }
            match utf8_total_checked(values) {
                Ok(_) => {},
                Err(e) => {
                    return Err(e);
                },
            }
            let nv = values.len();
            for k in 0..n
                invariant
                    n == keys@.len(),
                    nv == values@.len(),
                    *a == (Array::Dictionary { keys: *keys, values: *values }),
                    forall|t: int| 0 <= t < k ==> 0 <= #[trigger] keys@[t] < nv,
            {
                if keys[k] < 0 || keys[k] as usize >= nv {
                    proof {
                        assert(!(0 <= keys@[k as int] < values@.len() as int));
                        assert(!spec_keys_ok(keys@, values@.len() as int));
                        assert(!column_encodable(*a));
                    }
                    return Err(Error::InvalidArgument);
                }
            }
            nodes.push(FieldNode { length: n as i64, null_count: 0 });
            buffers.push(BufferRef { offset: out.len() as i64, length: (4 * n) as i64 });
            push_int32_data(out, keys);
            proof {
                lemma_int32_le_data_len(keys@);
            }
            let pad = crate::message::pad_amount(4 * n);
            crate::message::push_zero_bytes(out, pad);
            assert(final(out)@ =~= old(out)@ + column_body_bytes(*a));
            assert(final(buffers)@ =~= old(buffers)@ + col_buffers(*a, old(out)@.len() as int));
            Ok(())
        },
        _ => Err(Error::InvalidArgument),
    }
}


/// After a successful encode, the tracker holds the fingerprint of every
/// dictionary column of the chunk and nothing else changed.
pub open spec fn tracker_committed(
    arrays: Seq<Array>,
    ipc: Seq<IpcField>,
    m0: Map<i64, u64>,
    mf: Map<i64, u64>,
) -> bool {
    &&& forall|i: int|
        0 <= i < arrays.len() && (#[trigger] ipc[i].dictionary_id) is Some ==> mf.contains_key(
            spec_dict_id(ipc[i]),
        ) && mf[spec_dict_id(ipc[i])] == col_dict_fp(arrays[i])
    &&& forall|k: i64|
        (forall|i: int| 0 <= i < arrays.len() ==> (#[trigger] ipc[i].dictionary_id) != Some(k))
            ==> (#[trigger] mf.contains_key(k)) == m0.contains_key(k) && (m0.contains_key(k)
            ==> mf[k] == m0[k])
}

/// The dictionary messages are exactly the to-be-written dictionary
/// columns, in field order, each carrying its values' body bytes.
pub open spec fn dict_messages_ok(
    arrays: Seq<Array>,
    ipc: Seq<IpcField>,
    m0: Map<i64, u64>,
    dicts: Seq<EncodedData>,
) -> bool {
    let idxs = written_dict_idxs(arrays, ipc, m0);
    &&& dicts.len() == idxs.len()
    &&& forall|j: int|
        0 <= j < idxs.len() ==> (#[trigger] dicts[j]).arrow_data@ == utf8_segment(
            dict_values_of(arrays[idxs[j]]),
        )
    &&& forall|j: int|
        0 <= j < idxs.len() ==> (#[trigger] dicts[j]).ipc_message@ == dict_header_bytes(
            spec_dict_id(ipc[idxs[j]]),
            dict_values_of(arrays[idxs[j]]),
        )
}

/// The classification pass over the first `upto` columns produced exactly
/// this pending list: one entry per to-be-written dictionary column, in
/// ascending field order, carrying the column's id and fingerprint.
pub open spec fn pending_ok(
    pending: Seq<(usize, i64, u64)>,
    arrays: Seq<Array>,
    ipc: Seq<IpcField>,
    m0: Map<i64, u64>,
    upto: int,
) -> bool {
    &&& pending.len() == written_dict_idxs_upto(arrays, ipc, m0, upto).len()
    &&& forall|t: int|
        0 <= t < pending.len() ==> (#[trigger] pending[t]).0 as int == written_dict_idxs_upto(
            arrays,
            ipc,
            m0,
            upto,
        )[t]
    &&& forall|t: int|
        0 <= t < pending.len() ==> ({
            let c = (#[trigger] pending[t]).0 as int;
            &&& 0 <= c < upto
            &&& ipc[c].dictionary_id is Some
            &&& pending[t].1 == spec_dict_id(ipc[c])
            &&& pending[t].2 == col_dict_fp(arrays[c])
            &&& is_written_col(arrays, ipc, m0, c)
        })
    &&& forall|t1: int, t2: int|
        0 <= t1 < t2 < pending.len() ==> (#[trigger] pending[t1]).0 < (#[trigger] pending[t2]).0
}

/// No dictionary column among the first `upto` conflicts with the tracker.
pub open spec fn no_mismatch_upto(
    arrays: Seq<Array>,
    ipc: Seq<IpcField>,
    tracker: DictionaryTracker,
    upto: int,
) -> bool {
    forall|t: int|
        0 <= t < upto ==> !((#[trigger] ipc[t].dictionary_id) is Some && tracker.spec_mismatch(
            spec_dict_id(ipc[t]),
            col_dict_fp(arrays[t]),
        ))
}

/// What the read-only encode stage guarantees, by outcome: exact success
/// and error conditions, the record body, the dictionary message list,
/// and the pending fingerprint recordings (nothing recorded yet).
pub open spec fn encode_pending_post(
    arrays: Seq<Array>,
    fields: Seq<Field>,
    ipc: Seq<IpcField>,
    t0: DictionaryTracker,
    r: Result<(Vec<EncodedData>, EncodedData, Vec<(usize, i64, u64)>), Error>,
) -> bool {
    match r {
        Ok(out) => {
            &&& chunk_types_ok(arrays, fields)
            &&& chunk_encodable(arrays)
            &&& !has_dict_mismatch(arrays, ipc, t0)
            &&& out.1.arrow_data@ == chunk_body_bytes(arrays)
            &&& out.1.ipc_message@ == record_header_bytes(arrays)
            &&& dict_messages_ok(arrays, ipc, t0.written@, out.0@)
            &&& pending_ok(out.2@, arrays, ipc, t0.written@, arrays.len() as int)
        },
        Err(e) => match e {
            Error::InvalidArgument => !(chunk_types_ok(arrays, fields) && chunk_encodable(arrays))
                && !(chunk_types_ok(arrays, fields) && has_dict_mismatch(arrays, ipc, t0)),
            Error::DictionaryMismatch => chunk_types_ok(arrays, fields) && has_dict_mismatch(
                arrays,
                ipc,
                t0,
            ),
            _ => false,
        },
    }
}

/// What `encode_chunk` guarantees, by outcome: exact success and error
/// conditions, the record body, the dictionary message list, and the
/// tracker transition.
pub open spec fn encode_chunk_post(
    arrays: Seq<Array>,
    fields: Seq<Field>,
    ipc: Seq<IpcField>,
    t0: DictionaryTracker,
    t1: DictionaryTracker,
    r: Result<(Vec<EncodedData>, EncodedData), Error>,
) -> bool {
    match r {
        Ok(out) => {
            &&& chunk_types_ok(arrays, fields)
            &&& chunk_encodable(arrays)
            &&& !has_dict_mismatch(arrays, ipc, t0)
            &&& out.1.arrow_data@ == chunk_body_bytes(arrays)
            &&& dict_messages_ok(arrays, ipc, t0.written@, out.0@)
            &&& tracker_committed(arrays, ipc, t0.written@, t1.written@)
        },
        Err(e) => {
            &&& t1 == t0
            &&& match e {
                Error::InvalidArgument => !(chunk_types_ok(arrays, fields) && chunk_encodable(
                    arrays,
                )) && !(chunk_types_ok(arrays, fields) && has_dict_mismatch(arrays, ipc, t0)),
                Error::DictionaryMismatch => chunk_types_ok(arrays, fields) && has_dict_mismatch(
                    arrays,
                    ipc,
                    t0,
                ),
                _ => false,
            }
        },
    }
}

/// Relates the written-column index list for `i + 1` columns to the list
/// for `i` columns.
pub proof fn lemma_upto_contains(
    arrays: Seq<Array>,
    ipc: Seq<IpcField>,
    m: Map<i64, u64>,
    j: int,
    i: int,
)
    requires
        0 <= i < j,
        is_written_col(arrays, ipc, m, i),
    ensures
        written_dict_idxs_upto(arrays, ipc, m, j).contains(i),
    decreases j,
{
    if j == i + 1 {
        assert(written_dict_idxs_upto(arrays, ipc, m, j).last() == i);
    } else {
        lemma_upto_contains(arrays, ipc, m, j - 1, i);
        let rest = written_dict_idxs_upto(arrays, ipc, m, j - 1);
        let t = choose|t: int| 0 <= t < rest.len() && rest[t] == i;
        assert(written_dict_idxs_upto(arrays, ipc, m, j)[t] == i);
    }
}

/// The read-only encode stage: classifies every dictionary column against
/// the tracker and builds all message bodies and headers, recording
/// nothing. Returns the dictionary messages, the record message, and the
/// fingerprints to commit once the caller is certain the write will be
/// scheduled.
pub fn encode_chunk_pending(
    chunk: &Chunk,
    fields: &Vec<Field>,
    ipc_fields: &Vec<IpcField>,
    tracker: &DictionaryTracker,
    options: &WriteOptions,
) -> (r: Result<(Vec<EncodedData>, EncodedData, Vec<(usize, i64, u64)>), Error>)
    requires
        chunk.wf(),
        fields_compatible(fields@, ipc_fields@),
    ensures
        encode_pending_post(chunk.arrays@, fields@, ipc_fields@, *tracker, r),
{
    let ghost arrays = chunk.arrays@;
    let ghost ipc = ipc_fields@;
    let ghost m0 = tracker.written@;
    let ghost strict0 = tracker.error_on_replacement;
    let n = chunk.arrays.len();
    if n != fields.len() {
        return Err(Error::InvalidArgument);
    }
    // column types must agree with the declared fields
    for i in 0..n
        invariant
            n == arrays.len(),
            n == fields@.len(),
            arrays == chunk.arrays@,
            forall|t: int|
                0 <= t < i ==> (#[trigger] arrays[t]).spec_data_type() == fields@[t].data_type,
    {
        let dt = chunk.arrays[i].data_type();
        if dt != fields[i].data_type {
            return Err(Error::InvalidArgument);
        }
    }
    assert(chunk_types_ok(arrays, fields@));
    // classify every dictionary column against the tracker, changing nothing
    let mut pending: Vec<(usize, i64, u64)> = Vec::new();
    for i in 0..n
        invariant
            n == arrays.len(),
            n == ipc.len(),
            arrays == chunk.arrays@,
            ipc == ipc_fields@,
            m0 == tracker.written@,
            strict0 == tracker.error_on_replacement,
            chunk_types_ok(arrays, fields@),
            fields_compatible(fields@, ipc),
            pending_ok(pending@, arrays, ipc, m0, i as int),
            no_mismatch_upto(arrays, ipc, *tracker, i as int),
    {
        let ghost idxs_pre = written_dict_idxs_upto(arrays, ipc, m0, i as int);
        if let Some(id) = ipc_fields[i].dictionary_id {
            match &chunk.arrays[i] {
                Array::Dictionary { keys: _, values } => {
                    let fp = fingerprint_values(values);
                    proof {
                        assert(dict_values_of(arrays[i as int]) == values.deep_view());
                        assert(fp == col_dict_fp(arrays[i as int]));
                        assert(spec_dict_id(ipc[i as int]) == id);
                    }
                    match tracker.decide(id, fp) {
                        Ok(act) => {
                            if act != DictAction::Skip {
                                pending.push((i, id, fp));
                                proof {
                                    assert(is_written_col(arrays, ipc, m0, i as int));
                                    assert(written_dict_idxs_upto(arrays, ipc, m0, i + 1)
                                        =~= idxs_pre.push(i as int));
                                }
                            } else {
                                proof {
                                    assert(!is_written_col(arrays, ipc, m0, i as int));
                                    assert(written_dict_idxs_upto(arrays, ipc, m0, i + 1)
                                        =~= idxs_pre);
                                }
                            }
                        },
                        Err(e) => {
                            proof {
                                assert(tracker.spec_mismatch(
                                    spec_dict_id(ipc[i as int]),
                                    col_dict_fp(arrays[i as int]),
                                ));
                                assert(has_dict_mismatch(arrays, ipc, *tracker));
                            }
                            return Err(e);
                        },
                    }
                },
                _ => {
                    proof {
                        assert(arrays[i as int].spec_data_type() is Dictionary);
                        assert(false);
                    }
                    return Err(Error::InvalidArgument);
                },
            }
        } else {
            proof {
                assert(!is_written_col(arrays, ipc, m0, i as int));
                assert(written_dict_idxs_upto(arrays, ipc, m0, i + 1) =~= idxs_pre);
            }
        }
    }
    let ghost idxs = written_dict_idxs(arrays, ipc, m0);
    assert(idxs == written_dict_idxs_upto(arrays, ipc, m0, n as int));
    assert(!has_dict_mismatch(arrays, ipc, *tracker));
    // assemble the record-batch body, column by column
    let mut body: Vec<u8> = Vec::new();
    let mut nodes: Vec<FieldNode> = Vec::new();
    let mut buffers: Vec<BufferRef> = Vec::new();
    for i in 0..n
        invariant
            n == arrays.len(),
            arrays == chunk.arrays@,
            m0 == tracker.written@,
            ipc == ipc_fields@,
            chunk_types_ok(arrays, fields@),
            !has_dict_mismatch(arrays, ipc, *tracker),
            body@ == chunk_body_bytes(arrays.subrange(0, i as int)),
            nodes@ == chunk_nodes(arrays.subrange(0, i as int)),
            buffers@ == chunk_buffers(arrays.subrange(0, i as int)),
            forall|t: int|
                0 <= t < i ==> column_encodable(#[trigger] arrays[t]) && arrays[t].spec_len()
                    <= MAX_VALUES,
    {
        let ghost pre = arrays.subrange(0, i as int);
        if body.len() > MAX_PART {
            proof {
                lemma_chunk_body_prefix(arrays, i as int);
            }
            return Err(Error::InvalidArgument);
        }
        match push_column(&mut body, &mut nodes, &mut buffers, &chunk.arrays[i]) {
            Ok(()) => {
                proof {
                    let cur = arrays.subrange(0, i + 1);
                    assert(cur.drop_last() =~= pre);
                    assert(cur.last() == arrays[i as int]);
                    assert(body@ =~= chunk_body_bytes(cur));
                    assert(nodes@ =~= chunk_nodes(cur));
                    assert(buffers@ =~= chunk_buffers(cur));
                }
            },
            Err(e) => {
                return Err(e);
            },
        }
    }
    assert(arrays.subrange(0, n as int) =~= arrays);
    if body.len() > MAX_PART {
        return Err(Error::InvalidArgument);
    }
    assert(chunk_encodable(arrays));
    let rows = chunk.num_rows();
    proof {
        if n > 0 {
            assert(arrays[0].spec_len() <= MAX_VALUES);
        }
    }
    let meta = crate::flat::record_batch_data(rows as i64, &nodes, &buffers, body.len() as i64);
    proof {
        assert(rows == rows_of(arrays));
        assert(meta@ == record_header_bytes(arrays));
    }
    let record = EncodedData { ipc_message: meta, arrow_data: body };
    // build the dictionary messages, in field order
    let mut dicts: Vec<EncodedData> = Vec::new();
    let np = pending.len();
    for j in 0..np
        invariant
            np == pending@.len(),
            n == arrays.len(),
            n == ipc.len(),
            arrays == chunk.arrays@,
            ipc == ipc_fields@,
            m0 == tracker.written@,
            chunk_types_ok(arrays, fields@),
            fields_compatible(fields@, ipc),
            forall|t: int| 0 <= t < n ==> column_encodable(#[trigger] arrays[t]),
            pending_ok(pending@, arrays, ipc, m0, n as int),
            dicts@.len() == j,
            forall|t: int|
                0 <= t < j ==> (#[trigger] dicts@[t]).arrow_data@ == utf8_segment(
                    dict_values_of(arrays[pending@[t].0 as int]),
                ),
            forall|t: int|
                0 <= t < j ==> (#[trigger] dicts@[t]).ipc_message@ == dict_header_bytes(
                    pending@[t].1,
                    dict_values_of(arrays[pending@[t].0 as int]),
                ),
    {
        let (ci, id, _fp) = pending[j];
        match &chunk.arrays[ci] {
            Array::Dictionary { keys: _, values } => {
                proof {
                    assert(column_encodable(arrays[ci as int]));
                }
                let mut dbody: Vec<u8> = Vec::new();
                let mut dnodes: Vec<FieldNode> = Vec::new();
                let mut dbuffers: Vec<BufferRef> = Vec::new();
                dnodes.push(FieldNode { length: values.len() as i64, null_count: 0 });
                push_utf8_segment(&mut dbody, &mut dbuffers, values);
                let dmeta = crate::flat::dictionary_data(
                    id,
                    values.len() as i64,
                    &dnodes,
                    &dbuffers,
                    dbody.len() as i64,
                );
                dicts.push(EncodedData { ipc_message: dmeta, arrow_data: dbody });
                proof {
                    assert(dict_values_of(arrays[ci as int]) == values.deep_view());
                    assert(dnodes@ =~= seq![
                        FieldNode { length: values.deep_view().len() as i64, null_count: 0 },
                    ]);
                    assert(dbuffers@ =~= utf8_col_buffers(values.deep_view(), 0));
                    assert(dbody@.len() == utf8_segment(values.deep_view()).len());
                    assert(dmeta@ == dict_header_bytes(id, values.deep_view()));
                }
            },
            _ => {
                proof {
                    assert(arrays[ci as int].spec_data_type() is Dictionary);
                    assert(false);
                }
                return Err(Error::InvalidArgument);
            },
        }
    }
    Ok((dicts, record, pending))
}

/// Records the pending fingerprints in the tracker, in order. Called once
/// the caller is certain the chunk's write will be scheduled, so that an
/// earlier failure leaves the tracker untouched.
#[verifier::rlimit(100)]
#[verifier::spinoff_prover]
pub fn commit_dictionaries(
    tracker: &mut DictionaryTracker,
    pending: &Vec<(usize, i64, u64)>,
    Ghost(arrays): Ghost<Seq<Array>>,
    Ghost(fieldsv): Ghost<Seq<Field>>,
    Ghost(ipc): Ghost<Seq<IpcField>>,
)
    requires
        fields_compatible(fieldsv, ipc),
        ipc.len() == arrays.len(),
        pending_ok(pending@, arrays, ipc, old(tracker).written@, arrays.len() as int),
    ensures
        final(tracker).error_on_replacement == old(tracker).error_on_replacement,
        tracker_committed(arrays, ipc, old(tracker).written@, final(tracker).written@),
{
    let ghost m0 = tracker.written@;
    let ghost idxs = written_dict_idxs(arrays, ipc, m0);
    assert(idxs == written_dict_idxs_upto(arrays, ipc, m0, arrays.len() as int));
    let np = pending.len();
    for j in 0..np
        invariant
            np == pending@.len(),
            ipc.len() == arrays.len(),
            m0 == old(tracker).written@,
            fields_compatible(fieldsv, ipc),
            tracker.error_on_replacement == old(tracker).error_on_replacement,
            pending_ok(pending@, arrays, ipc, m0, arrays.len() as int),
            forall|t: int|
                0 <= t < j ==> tracker.written@.contains_key((#[trigger] pending@[t]).1)
                    && tracker.written@[pending@[t].1] == pending@[t].2,
            forall|k: i64|
                (forall|t: int| 0 <= t < np ==> (#[trigger] pending@[t]).1 != k)
                    ==> #[trigger] tracker.written@.contains_key(k) == m0.contains_key(k) && (
                m0.contains_key(k) ==> tracker.written@[k] == m0[k]),
    {
        let (ci, id, fp) = pending[j];
        proof {
            assert forall|t: int| 0 <= t < j implies (#[trigger] pending@[t]).1 != id by {
                let ct = pending@[t].0 as int;
                let cj = pending@[j as int].0 as int;
                assert(pending@[t].0 < pending@[j as int].0);
                assert(ipc[ct].dictionary_id != ipc[cj].dictionary_id);
            }
        }
        let ghost mpre = tracker.written@;
        tracker.record(id, fp);
        proof {
            assert(tracker.written@ == mpre.insert(id, fp));
            assert forall|k: i64|
                (forall|t: int| 0 <= t < np ==> (#[trigger] pending@[t]).1 != k) implies ({
                &&& (#[trigger] tracker.written@.contains_key(k)) == m0.contains_key(k)
                &&& (m0.contains_key(k) ==> tracker.written@[k] == m0[k])
            }) by {
                assert(pending@[j as int].1 != k);
                assert(mpre.contains_key(k) == m0.contains_key(k));
                assert(m0.contains_key(k) ==> mpre[k] == m0[k]);
            }
        }
    }
    proof {
        let mf = tracker.written@;
        assert forall|i: int|
            0 <= i < arrays.len() && ((#[trigger] ipc[i].dictionary_id) is Some) implies ({
            &&& mf.contains_key(spec_dict_id(ipc[i]))
            &&& mf[spec_dict_id(ipc[i])] == col_dict_fp(arrays[i])
        }) by {
            let id = spec_dict_id(ipc[i]);
            let fp = col_dict_fp(arrays[i]);
            if is_written_col(arrays, ipc, m0, i) {
                lemma_upto_contains(arrays, ipc, m0, arrays.len() as int, i);
                let t = choose|t: int| 0 <= t < idxs.len() && idxs[t] == i;
                assert(pending@[t].0 as int == i);
                assert(pending@[t].1 == id && pending@[t].2 == fp);
                assert(mf.contains_key(id) && mf[id] == fp);
            } else {
                assert(DictionaryTracker::spec_decide(m0, id, fp) == DictAction::Skip);
                assert(m0.contains_key(id) && m0[id] == fp);
                assert forall|t: int| 0 <= t < np implies (#[trigger] pending@[t]).1 != id by {
                    let c = pending@[t].0 as int;
                    assert(is_written_col(arrays, ipc, m0, c));
                    assert(c != i);
                    assert(ipc[c].dictionary_id != ipc[i].dictionary_id);
                }
                assert(mf.contains_key(id) == m0.contains_key(id));
                assert(mf[id] == m0[id]);
            }
        }
        assert forall|k: i64|
            (forall|i: int|
                0 <= i < arrays.len() ==> (#[trigger] ipc[i].dictionary_id) != Some(k)) implies ({
            &&& (#[trigger] mf.contains_key(k)) == m0.contains_key(k)
            &&& (m0.contains_key(k) ==> mf[k] == m0[k])
        }) by {
            assert forall|t: int| 0 <= t < np implies (#[trigger] pending@[t]).1 != k by {
                let c = pending@[t].0 as int;
                assert(ipc[c].dictionary_id != Some(k));
                assert(pending@[t].1 == spec_dict_id(ipc[c]));
                assert(ipc[c].dictionary_id == Some(pending@[t].1));
            }
            assert(tracker.written@.contains_key(k) == m0.contains_key(k));
            assert(m0.contains_key(k) ==> tracker.written@[k] == m0[k]);
        }
        assert(tracker_committed(arrays, ipc, m0, mf));
    }
}

/// Encodes one chunk: for every dictionary-typed column, in field order,
/// consults the tracker; the dictionaries classified as new or replacement
/// become dictionary messages, in field order, and the record-batch message
/// always carries the current contents of every column. On success the
/// tracker holds the fingerprints of all the chunk's dictionaries; on any
/// error it is unchanged.
pub fn encode_chunk(
    chunk: &Chunk,
    fields: &Vec<Field>,
    ipc_fields: &Vec<IpcField>,
    tracker: &mut DictionaryTracker,
    options: &WriteOptions,
) -> (r: Result<(Vec<EncodedData>, EncodedData), Error>)
    requires
        chunk.wf(),
        fields_compatible(fields@, ipc_fields@),
    ensures
        final(tracker).error_on_replacement == old(tracker).error_on_replacement,
        encode_chunk_post(chunk.arrays@, fields@, ipc_fields@, *old(tracker), *final(tracker), r),
{
    let (dicts, record, pending) = match encode_chunk_pending(
        chunk,
        fields,
        ipc_fields,
        tracker,
        options,
    ) {
        Ok(out) => out,
        Err(e) => {
            return Err(e);
        },
    };
    commit_dictionaries(
        tracker,
        &pending,
        Ghost(chunk.arrays@),
        Ghost(fields@),
        Ghost(ipc_fields@),
    );
    Ok((dicts, record))
}

/// Every index in the written-column list denotes a column the tracker
/// classifies as to-be-written.
pub proof fn lemma_upto_only_written(arrays: Seq<Array>, ipc: Seq<IpcField>, m: Map<i64, u64>, n: int)
    ensures
        forall|t: int|
            0 <= t < written_dict_idxs_upto(arrays, ipc, m, n).len() ==> is_written_col(
                arrays,
                ipc,
                m,
                written_dict_idxs_upto(arrays, ipc, m, n)[t],
            ),
    decreases n,
{
    if n > 0 {
        lemma_upto_only_written(arrays, ipc, m, n - 1);
        let rest = written_dict_idxs_upto(arrays, ipc, m, n - 1);
        let cur = written_dict_idxs_upto(arrays, ipc, m, n);
        assert forall|t: int|
            0 <= t < cur.len() implies is_written_col(arrays, ipc, m, cur[t]) by {
            if t < rest.len() {
                assert(cur[t] == rest[t]);
            }
        }
    }
}

/// Law: a dictionary id submitted again with an identical fingerprint is
/// skipped — its column appears nowhere in the list of dictionaries to
/// write, so no second dictionary message is emitted for it.
pub proof fn lemma_identical_dictionary_not_resent(
    arrays: Seq<Array>,
    ipc: Seq<IpcField>,
    m: Map<i64, u64>,
    i: int,
)
    requires
        0 <= i < arrays.len(),
        ipc[i].dictionary_id is Some,
        m.contains_key(spec_dict_id(ipc[i])),
        m[spec_dict_id(ipc[i])] == col_dict_fp(arrays[i]),
    ensures
        forall|t: int|
            0 <= t < written_dict_idxs(arrays, ipc, m).len() ==> written_dict_idxs(
                arrays,
                ipc,
                m,
            )[t] != i,
{
    lemma_upto_only_written(arrays, ipc, m, arrays.len() as int);
    assert(!is_written_col(arrays, ipc, m, i));
}

} // verus!
