//! Message framing: how a fully-serialized logical message (metadata bytes
//! plus body bytes) is laid out on the wire, and the block records that
//! index the framed messages.

use vstd::bytes::{spec_u32_to_le_bytes, u32_to_le_bytes};
use vstd::prelude::*;

use crate::error::Error;

verus! {

/// Options of the write process; the writer emits uncompressed bodies.
#[derive(Clone, Copy, Debug)]
pub struct WriteOptions {}

/// A fully-serialized logical message, not yet on the wire.
pub struct EncodedData {
    /// Serialized message header (schema, dictionary batch or record batch).
    pub ipc_message: Vec<u8>,
    /// The message body: the raw column buffers.
    pub arrow_data: Vec<u8>,
}

/// Physical location of one written message in the output stream:
/// `offset + meta_data_length + body_length` is the offset of the next
/// written message.
#[derive(Clone, Copy, Debug, PartialEq, Eq, Structural)]
pub struct Block {
    pub offset: i64,
    pub meta_data_length: i32,
    pub body_length: i64,
}

impl Block {
    /// The stream offset at which the message after this one begins.
    pub open spec fn spec_end(&self) -> int {
        self.offset + self.meta_data_length + self.body_length
    }
}

/// Bytes a section of length `n` needs to reach the next 8-byte boundary.
pub open spec fn pad_len8(n: int) -> int {
    if n % 8 == 0 {
        0
    } else {
        8 - n % 8
    }
}

/// `n` rounded up to a multiple of 8.
pub open spec fn padded8(n: int) -> int {
    n + pad_len8(n)
}

/// `n` zero bytes.
pub open spec fn zero_bytes(n: int) -> Seq<u8> {
    Seq::new(n as nat, |i: int| 0u8)
}

/// The 4-byte marker that introduces each framed message.
pub open spec fn continuation_marker() -> Seq<u8> {
    seq![0xffu8, 0xffu8, 0xffu8, 0xffu8]
}

/// Metadata section of a framed message: marker, little-endian length of the
/// padded metadata, the metadata itself, zero padding to an 8-byte boundary.
pub open spec fn framed_meta_bytes(msg: Seq<u8>) -> Seq<u8> {
    continuation_marker() + spec_u32_to_le_bytes(padded8(msg.len() as int) as u32) + msg
        + zero_bytes(pad_len8(msg.len() as int))
}

/// Body section of a framed message: the body, zero-padded to an 8-byte
/// boundary.
pub open spec fn framed_body_bytes(body: Seq<u8>) -> Seq<u8> {
    body + zero_bytes(pad_len8(body.len() as int))
}

/// Length of the metadata section once framed.
pub open spec fn spec_meta_len(msg: Seq<u8>) -> int {
    8 + padded8(msg.len() as int)
}

/// Length of the body section once framed.
pub open spec fn spec_body_len(body: Seq<u8>) -> int {
    padded8(body.len() as int)
}

/// Everything a framed message puts on the wire.
pub open spec fn framed_message_bytes(msg: Seq<u8>, body: Seq<u8>) -> Seq<u8> {
    framed_meta_bytes(msg) + framed_body_bytes(body)
}

/// Largest metadata or body section the container indexes: the block index
/// stores metadata lengths as `i32`.
pub const MAX_PART: usize = 0x7fff_0000;

/// A framed message with the two lengths the block index records.
pub struct FramedMessage {
    pub bytes: Vec<u8>,
    pub meta_len: usize,
    pub body_len: usize,
}

/// Appends a copy of `src` to `dst`.
pub fn push_bytes(dst: &mut Vec<u8>, src: &Vec<u8>)
    ensures
        final(dst)@ == old(dst)@ + src@,
{
    let n = src.len();
    for i in 0..n
        invariant
            n == src@.len(),
            dst@ == old(dst)@ + src@.subrange(0, i as int),
    {
        dst.push(src[i]);
        proof {
            assert(src@.subrange(0, i + 1) =~= src@.subrange(0, i as int).push(src@[i as int]));
            assert(dst@ =~= old(dst)@ + src@.subrange(0, i + 1));
        }
    }
    assert(src@.subrange(0, n as int) =~= src@);
}

/// Appends `n` zero bytes to `dst`.
pub fn push_zero_bytes(dst: &mut Vec<u8>, n: usize)
    ensures
        final(dst)@ == old(dst)@ + zero_bytes(n as int),
{
    for i in 0..n
        invariant
            dst@ == old(dst)@ + zero_bytes(i as int),
    {
        dst.push(0u8);
        proof {
            assert(zero_bytes(i + 1) =~= zero_bytes(i as int).push(0u8));
            assert(dst@ =~= old(dst)@ + zero_bytes(i + 1));
        }
    }
}

/// Padding needed after `n` bytes.
pub fn pad_amount(n: usize) -> (r: usize)
    requires
        n <= MAX_PART,
    ensures
        r == pad_len8(n as int),
        n + r == padded8(n as int),
        r < 8,
{
    if n % 8 == 0 {
        0
    } else {
        8 - n % 8
    }
}

/// Turns a logical message into its on-wire frame, returning the metadata
/// and body lengths the block index records. Rejects messages whose
/// metadata or body exceeds what the index can address.
pub fn frame_message(msg: &EncodedData) -> (r: Result<FramedMessage, Error>)
    ensures
        match r {
            Ok(f) => {
                &&& msg.ipc_message@.len() <= MAX_PART
                &&& msg.arrow_data@.len() <= MAX_PART
                &&& f.bytes@ == framed_message_bytes(msg.ipc_message@, msg.arrow_data@)
                &&& f.meta_len == spec_meta_len(msg.ipc_message@)
                &&& f.body_len == spec_body_len(msg.arrow_data@)
                &&& f.bytes@.len() == f.meta_len + f.body_len
                &&& f.meta_len % 8 == 0
                &&& f.body_len % 8 == 0
                &&& f.meta_len <= MAX_PART + 8
                &&& f.body_len <= MAX_PART + 8
            },
            Err(e) => {
                &&& e == Error::InvalidArgument
                &&& (msg.ipc_message@.len() > MAX_PART || msg.arrow_data@.len() > MAX_PART)
            },
        },
{
    let m = msg.ipc_message.len();
    let b = msg.arrow_data.len();
    if m > MAX_PART || b > MAX_PART {
        return Err(Error::InvalidArgument);
    }
    let mp = pad_amount(m);
    let bp = pad_amount(b);
    let mut bytes: Vec<u8> = Vec::new();
    bytes.push(0xffu8);
    bytes.push(0xffu8);
    bytes.push(0xffu8);
    bytes.push(0xffu8);
    assert(bytes@ =~= continuation_marker());
    let lenb = u32_to_le_bytes((m + mp) as u32);
    push_bytes(&mut bytes, &lenb);
    push_bytes(&mut bytes, &msg.ipc_message);
    push_zero_bytes(&mut bytes, mp);
    assert(bytes@ =~= framed_meta_bytes(msg.ipc_message@));
    push_bytes(&mut bytes, &msg.arrow_data);
    push_zero_bytes(&mut bytes, bp);
    assert(bytes@ =~= framed_message_bytes(msg.ipc_message@, msg.arrow_data@));
    Ok(FramedMessage { bytes, meta_len: 8 + m + mp, body_len: b + bp })
}

} // verus!
