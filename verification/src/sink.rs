//! The asynchronous file-writer state machine.
//!
//! The writer owns no transport: it is driven from outside. It is `Writing`
//! while one scheduled write is in flight (the bytes stand in the pending
//! task), `Idle` between writes, and `Closed` after the trailer is written
//! or after an I/O failure poisons it. The caller takes the pending bytes,
//! writes them through its transport, and reports back with `drive_ok` or
//! `drive_err`; ledger updates are applied atomically when a task settles.

use vstd::bytes::{spec_u32_to_le_bytes, u32_to_le_bytes};
use vstd::prelude::*;

use crate::array::Chunk;
use crate::datatypes::{
    default_ipc_fields, fields_compatible, spec_default_ipc_fields, DataType, IpcField, Schema,
    MAX_FIELDS,
};
use crate::dictionary::DictionaryTracker;
use crate::array::Array;
use crate::encode::{
    chunk_body_bytes, chunk_encodable, chunk_types_ok, commit_dictionaries, dict_header_bytes,
    dict_messages_ok, dict_values_of, encode_chunk_pending, has_dict_mismatch,
    record_header_bytes, spec_dict_id, tracker_committed, utf8_segment, written_dict_idxs,
};
use crate::error::Error;
use crate::flat::{footer_bytes_of, schema_msg_of};
use crate::message::{
    frame_message, framed_message_bytes, spec_body_len, spec_meta_len, Block, EncodedData,
    WriteOptions, MAX_PART,
};

verus! {

/// The six magic bytes that open the file and close it after the footer.
pub open spec fn magic_bytes() -> Seq<u8> {
    seq![65u8, 82u8, 82u8, 79u8, 87u8, 49u8]
}

/// The zero-valued continuation marker that ends the data section.
pub open spec fn eos_bytes() -> Seq<u8> {
    seq![0u8, 0u8, 0u8, 0u8]
}

/// Largest stream offset the block index can address.
pub const MAX_OFFSET: u64 = 0x7fff_ffff_ffff_ffff;

fn push_magic(out: &mut Vec<u8>)
    ensures
        final(out)@ == old(out)@ + magic_bytes(),
{
    out.push(65u8);
    out.push(82u8);
    out.push(82u8);
    out.push(79u8);
    out.push(87u8);
    out.push(49u8);
    assert(out@ =~= old(out)@ + magic_bytes());
}

/// What the in-flight write will mean once it settles.
pub enum TaskKind {
    /// The opening write: magic preamble, two pad bytes, schema message.
    Start,
    /// One chunk's messages; these blocks are recorded when it settles.
    Write { dicts: Vec<Block>, record: Block },
    /// The closing write: continuation marker, footer, footer length,
    /// trailing magic.
    Finish { footer_len: usize },
}

/// One scheduled write: the bytes the transport must put on the wire, and
/// what settles when it does.
pub struct PendingTask {
    pub bytes: Vec<u8>,
    pub kind: TaskKind,
}

/// The writer's three states.
pub enum SinkState {
    Writing(PendingTask),
    Idle,
    Closed,
}

/// The bytes of the in-flight write; empty when none is in flight.
pub open spec fn spec_pending(st: SinkState) -> Seq<u8> {
    match st {
        SinkState::Writing(t) => t.bytes@,
        _ => Seq::empty(),
    }
}

/// All lengths of a block index entry are non-negative.
pub open spec fn block_ok(b: Block) -> bool {
    b.offset >= 0 && b.meta_data_length >= 0 && b.body_length >= 0
}

/// The blocks tile the stream without gap or overlap: the first begins at
/// `base`, each ends where the next begins, and the last ends at `end`.
pub open spec fn blocks_adjacent(bs: Seq<Block>, base: int, end: int) -> bool {
    &&& forall|i: int| 0 <= i < bs.len() ==> block_ok(#[trigger] bs[i])
    &&& forall|i: int|
        0 <= i < bs.len() ==> (#[trigger] bs[i]).spec_end() == (if i + 1 < bs.len() {
            bs[i + 1].offset as int
        } else {
            end
        })
    &&& (bs.len() > 0 ==> bs[0].offset == base)
    &&& (bs.len() == 0 ==> base == end)
}

pub proof fn lemma_adjacent_end(bs: Seq<Block>, base: int, end: int, i: int)
    requires
        blocks_adjacent(bs, base, end),
        0 <= i < bs.len(),
    ensures
        bs[i].spec_end() <= end,
    decreases bs.len() - i,
{
    if i + 1 < bs.len() {
        lemma_adjacent_end(bs, base, end, i + 1);
    }
}

pub proof fn lemma_adjacent_start(bs: Seq<Block>, base: int, end: int, i: int)
    requires
        blocks_adjacent(bs, base, end),
        0 <= i < bs.len(),
    ensures
        bs[i].offset >= base,
    decreases i,
{
    if i > 0 {
        lemma_adjacent_start(bs, base, end, i - 1);
    }
}

#[verifier::rlimit(100)]
pub proof fn lemma_adjacent_append(a: Seq<Block>, b: Seq<Block>, base: int, mid: int, end: int)
    requires
        blocks_adjacent(a, base, mid),
        blocks_adjacent(b, mid, end),
    ensures
        blocks_adjacent(a + b, base, end),
{
    let c = a + b;
    assert forall|i: int| 0 <= i < c.len() implies block_ok(#[trigger] c[i]) by {
        if i < a.len() {
            assert(c[i] == a[i]);
        } else {
            assert(c[i] == b[i - a.len()]);
        }
    }
    assert forall|i: int|
        0 <= i < c.len() implies (#[trigger] c[i]).spec_end() == (if i + 1 < c.len() {
        c[i + 1].offset as int
    } else {
        end
    }) by {
        if i + 1 < a.len() {
            assert(c[i] == a[i] && c[i + 1] == a[i + 1]);
        } else if i < a.len() {
            assert(c[i] == a[i]);
            assert(a[i].spec_end() == mid);
            if b.len() > 0 {
                assert(c[i + 1] == b[0]);
            }
        } else {
            assert(c[i] == b[i - a.len()]);
            if i + 1 < c.len() {
                assert(c[i + 1] == b[i + 1 - a.len()]);
            }
        }
    }
    if c.len() > 0 {
        if a.len() > 0 {
            assert(c[0] == a[0]);
        } else {
            assert(c[0] == b[0]);
        }
    }
}

/// Async file writer: sequences header, schema, data messages, footer and
/// trailing magic over a transport the caller drives.
pub struct FileSink {
    pub state: SinkState,
    pub schema: Schema,
    pub fields: Vec<IpcField>,
    pub options: WriteOptions,
    /// Keeps track of dictionaries that have been written.
    pub dictionary_tracker: DictionaryTracker,
    /// Stream position right after everything already flushed.
    pub offset: u64,
    pub record_blocks: Vec<Block>,
    pub dictionary_blocks: Vec<Block>,
    /// Every recorded block, in the order it was written.
    pub written: Ghost<Seq<Block>>,
    /// The bytes the transport has confirmed, from the start of the file.
    pub flushed: Ghost<Seq<u8>>,
    /// Stream position right after the schema message.
    pub base: Ghost<u64>,
    /// Whether the opening write has settled.
    pub started: Ghost<bool>,
}

impl FileSink {
    /// The pending task is consistent with the writer it is scheduled on.
    pub open spec fn task_wf(&self, t: PendingTask) -> bool {
        &&& self.offset + t.bytes@.len() <= MAX_OFFSET
        &&& match t.kind {
            TaskKind::Start => {
                &&& self.offset == 0
                &&& self.flushed@.len() == 0
                &&& self.written@.len() == 0
                &&& t.bytes@.len() == self.base@
                &&& t.bytes@.len() >= 8
                &&& t.bytes@ == magic_bytes() + seq![0u8, 0u8] + framed_message_bytes(
                    schema_msg_of(self.schema.fields@, self.fields@),
                    Seq::empty(),
                )
            },
            TaskKind::Write { dicts, record } => blocks_adjacent(
                dicts@ + seq![record],
                self.offset as int,
                self.offset + t.bytes@.len(),
            ),
            TaskKind::Finish { footer_len } => {
                &&& t.bytes@.len() == footer_len + 14
                &&& t.bytes@.subrange(0, 4) == eos_bytes()
                &&& t.bytes@.subrange(4, 4 + footer_len) == footer_bytes_of(
                    self.schema.fields@,
                    self.fields@,
                    self.dictionary_blocks@,
                    self.record_blocks@,
                )
                &&& t.bytes@.subrange(4 + footer_len, 8 + footer_len) == spec_u32_to_le_bytes(
                    footer_len as u32,
                )
                &&& t.bytes@.subrange(8 + footer_len, footer_len + 14) == magic_bytes()
                &&& footer_len <= 0x7fff_ffff
            },
        }
    }

    /// Well-formedness of the writer: the ledger chains seamlessly from the
    /// end of the schema message to the current offset, every recorded
    /// block appears in the write-order ledger, and the flushed bytes reach
    /// exactly the current offset (further, once the trailer is down).
    pub open spec fn inv(&self) -> bool {
        &&& self.fields@.len() == self.schema.fields@.len()
        &&& fields_compatible(self.schema.fields@, self.fields@)
        &&& (!self.started@ ==> self.written@.len() == 0)
        &&& (self.state is Idle ==> self.started@)
        &&& (match self.state {
            SinkState::Writing(t) => !(t.kind is Start) ==> self.started@,
            _ => true,
        })
        &&& (self.started@ ==> blocks_adjacent(
            self.written@,
            self.base@ as int,
            self.offset as int,
        ) && self.base@ <= self.offset)
        &&& self.offset <= self.flushed@.len()
        &&& ((self.state is Closed) || self.offset == self.flushed@.len())
        &&& self.offset <= MAX_OFFSET
        &&& forall|i: int|
            0 <= i < self.record_blocks@.len() ==> self.written@.contains(
                #[trigger] self.record_blocks@[i],
            )
        &&& forall|i: int|
            0 <= i < self.dictionary_blocks@.len() ==> self.written@.contains(
                #[trigger] self.dictionary_blocks@[i],
            )
        &&& match self.state {
            SinkState::Writing(t) => self.task_wf(t),
            _ => true,
        }
    }
}

/// Schema, ipc fields, options and the post-schema base offset are fixed
/// for the lifetime of one file.
pub open spec fn unchanged_core(s0: FileSink, s1: FileSink) -> bool {
    &&& s1.schema == s0.schema
    &&& s1.fields == s0.fields
    &&& s1.options == s0.options
    &&& s1.base == s0.base
}

/// Nothing reached the stream and no block was recorded.
pub open spec fn unchanged_stream(s0: FileSink, s1: FileSink) -> bool {
    &&& s1.started == s0.started
    &&& s1.offset == s0.offset
    &&& s1.flushed == s0.flushed
    &&& s1.record_blocks == s0.record_blocks
    &&& s1.dictionary_blocks == s0.dictionary_blocks
    &&& s1.written == s0.written
}

/// What settles when the in-flight write completes: the stream offset
/// advances by exactly the bytes written, the blocks scheduled with the
/// task are appended to the ledger in write order, and nothing else moves.
pub open spec fn drive_ok_post(s0: FileSink, s1: FileSink) -> bool {
    match s0.state {
        SinkState::Writing(t) => {
            &&& unchanged_core(s0, s1)
            &&& s1.dictionary_tracker == s0.dictionary_tracker
            &&& s1.flushed@ == s0.flushed@ + t.bytes@
            &&& (match t.kind {
                TaskKind::Start => {
                    &&& s1.state is Idle
                    &&& s1.started@ == true
                    &&& s1.offset == s0.offset + t.bytes@.len()
                    &&& s1.record_blocks == s0.record_blocks
                    &&& s1.dictionary_blocks == s0.dictionary_blocks
                    &&& s1.written == s0.written
                },
                TaskKind::Write { dicts, record } => {
                    &&& s1.state is Idle
                    &&& s1.started == s0.started
                    &&& s1.offset == s0.offset + t.bytes@.len()
                    &&& s1.record_blocks@ == s0.record_blocks@.push(record)
                    &&& s1.dictionary_blocks@ == s0.dictionary_blocks@ + dicts@
                    &&& s1.written@ == s0.written@ + dicts@ + seq![record]
                },
                TaskKind::Finish { footer_len } => {
                    &&& s1.state is Closed
                    &&& s1.started == s0.started
                    &&& s1.offset == s0.offset
                    &&& s1.record_blocks == s0.record_blocks
                    &&& s1.dictionary_blocks == s0.dictionary_blocks
                    &&& s1.written == s0.written
                },
            })
        },
        _ => s1 == s0,
    }
}

/// The on-wire length of one framed message: metadata section plus body
/// section.
pub open spec fn framed_len_of(header: Seq<u8>, body: Seq<u8>) -> int {
    spec_meta_len(header) + spec_body_len(body)
}

/// Both sections of a message fit what the block index can address.
pub open spec fn msg_fits(header: Seq<u8>, body: Seq<u8>) -> bool {
    header.len() <= MAX_PART && body.len() <= MAX_PART
}

/// From stream position `cur`, the chunk's dictionary messages from the
/// `j`-th onward fit the index limits and the stream headroom.
pub open spec fn dict_frames_ok(
    arrays: Seq<Array>,
    ipc: Seq<IpcField>,
    m0: Map<i64, u64>,
    j: int,
    cur: int,
) -> bool
    decreases written_dict_idxs(arrays, ipc, m0).len() - j,
{
    let idxs = written_dict_idxs(arrays, ipc, m0);
    if j >= idxs.len() {
        true
    } else {
        let vals = dict_values_of(arrays[idxs[j]]);
        let hdr = dict_header_bytes(spec_dict_id(ipc[idxs[j]]), vals);
        let body = utf8_segment(vals);
        &&& msg_fits(hdr, body)
        &&& cur + framed_len_of(hdr, body) <= MAX_OFFSET
        &&& dict_frames_ok(arrays, ipc, m0, j + 1, cur + framed_len_of(hdr, body))
    }
}

/// The stream position after the chunk's dictionary messages from the
/// `j`-th onward, starting at `cur`.
pub open spec fn dicts_end(
    arrays: Seq<Array>,
    ipc: Seq<IpcField>,
    m0: Map<i64, u64>,
    j: int,
    cur: int,
) -> int
    decreases written_dict_idxs(arrays, ipc, m0).len() - j,
{
    let idxs = written_dict_idxs(arrays, ipc, m0);
    if j >= idxs.len() {
        cur
    } else {
        let vals = dict_values_of(arrays[idxs[j]]);
        let hdr = dict_header_bytes(spec_dict_id(ipc[idxs[j]]), vals);
        let body = utf8_segment(vals);
        dicts_end(arrays, ipc, m0, j + 1, cur + framed_len_of(hdr, body))
    }
}

/// Every message a submit of this chunk would write — the dictionary
/// messages to be emitted, then the record-batch message — fits the index
/// limits and the stream headroom from `offset`. This is exactly when an
/// idle writer accepts a well-typed, encodable, mismatch-free chunk.
pub open spec fn submit_frames_ok(
    arrays: Seq<Array>,
    ipc: Seq<IpcField>,
    m0: Map<i64, u64>,
    offset: int,
) -> bool {
    let rh = record_header_bytes(arrays);
    let rb = chunk_body_bytes(arrays);
    &&& dict_frames_ok(arrays, ipc, m0, 0, offset)
    &&& msg_fits(rh, rb)
    &&& dicts_end(arrays, ipc, m0, 0, offset) + framed_len_of(rh, rb) <= MAX_OFFSET
}

/// The bytes a submit of this chunk schedules, from the `j`-th dictionary
/// message onward: each framed dictionary message in field order, then the
/// framed record-batch message.
pub open spec fn chunk_task_bytes(
    arrays: Seq<Array>,
    ipc: Seq<IpcField>,
    m0: Map<i64, u64>,
    j: int,
) -> Seq<u8>
    decreases written_dict_idxs(arrays, ipc, m0).len() - j,
{
    let idxs = written_dict_idxs(arrays, ipc, m0);
    if j >= idxs.len() {
        framed_message_bytes(record_header_bytes(arrays), chunk_body_bytes(arrays))
    } else {
        let vals = dict_values_of(arrays[idxs[j]]);
        framed_message_bytes(dict_header_bytes(spec_dict_id(ipc[idxs[j]]), vals), utf8_segment(vals))
            + chunk_task_bytes(arrays, ipc, m0, j + 1)
    }
}

/// What `submit` guarantees when the writer was idle: exact error
/// classification (nothing changed on any error), and — for a well-typed,
/// encodable, mismatch-free chunk — acceptance exactly when every framed
/// message fits the index limits and the stream headroom, with the task
/// bytes pinned to the framed dictionary messages in field order followed
/// by the framed record-batch message.
pub open spec fn submit_post_idle(s0: FileSink, s1: FileSink, chunk: Chunk, r: Result<
    (),
    Error,
>) -> bool {
    let arrays = chunk.arrays@;
    let ipc = s0.fields@;
    let m0 = s0.dictionary_tracker.written@;
    &&& (!(chunk_types_ok(arrays, s0.schema.fields@) && chunk_encodable(arrays)) ==> r is Err)
    &&& (!(chunk_types_ok(arrays, s0.schema.fields@) && chunk_encodable(arrays)) && !(
    chunk_types_ok(arrays, s0.schema.fields@) && has_dict_mismatch(
        arrays,
        ipc,
        s0.dictionary_tracker,
    )) ==> r == Err::<(), Error>(Error::InvalidArgument))
    &&& ((chunk_types_ok(arrays, s0.schema.fields@) && has_dict_mismatch(
        arrays,
        ipc,
        s0.dictionary_tracker,
    )) <==> r == Err::<(), Error>(Error::DictionaryMismatch))
    &&& (r is Err ==> s1 == s0)
    &&& ((chunk_types_ok(arrays, s0.schema.fields@) && chunk_encodable(arrays)
        && !has_dict_mismatch(arrays, ipc, s0.dictionary_tracker)) ==> ((r is Ok)
        <==> submit_frames_ok(arrays, ipc, m0, s0.offset as int)))
    &&& (r is Ok ==> ({
        &&& tracker_committed(arrays, ipc, m0, s1.dictionary_tracker.written@)
        &&& (match s1.state {
            SinkState::Writing(t) => (match t.kind {
                TaskKind::Write { dicts, record } => {
                    &&& dicts@.len() == written_dict_idxs(arrays, ipc, m0).len()
                    &&& record.body_length == spec_body_len(chunk_body_bytes(arrays))
                    &&& t.bytes@ == chunk_task_bytes(arrays, ipc, m0, 0)
                },
                _ => false,
            }),
            _ => false,
        })
    }))
}

/// What `submit` guarantees: a writer that is not idle rejects the chunk
/// with `SinkClosed` untouched; an idle writer either schedules the
/// chunk's messages or reports exactly why it cannot. It never writes.
pub open spec fn submit_post(s0: FileSink, s1: FileSink, chunk: Chunk, r: Result<(), Error>) -> bool {
    &&& unchanged_core(s0, s1)
    &&& unchanged_stream(s0, s1)
    &&& s1.dictionary_tracker.error_on_replacement == s0.dictionary_tracker.error_on_replacement
    &&& (match s0.state {
        SinkState::Idle => submit_post_idle(s0, s1, chunk, r),
        _ => r == Err::<(), Error>(Error::SinkClosed) && s1 == s0,
    })
}

/// What `close` guarantees: only an idle writer schedules the closing
/// write; a writer with a task in flight reports `SinkClosed`; closing a
/// closed writer is a no-op.
pub open spec fn close_post(s0: FileSink, s1: FileSink, r: Result<(), Error>) -> bool {
    match s0.state {
        SinkState::Idle => ({
            let fb = footer_bytes_of(
                s0.schema.fields@,
                s0.fields@,
                s0.dictionary_blocks@,
                s0.record_blocks@,
            );
            &&& ((r is Ok) <==> (fb.len() <= 0x7fff_ffff && s0.offset + fb.len() + 14
                <= MAX_OFFSET))
            &&& match r {
                Ok(()) => {
                    &&& unchanged_core(s0, s1)
                    &&& unchanged_stream(s0, s1)
                    &&& s1.dictionary_tracker == s0.dictionary_tracker
                    &&& (match s1.state {
                        SinkState::Writing(t) => (match t.kind {
                            TaskKind::Finish { footer_len } => footer_len == fb.len(),
                            _ => false,
                        }),
                        _ => false,
                    })
                },
                Err(e) => e == Error::InvalidArgument && s1 == s0,
            }
        }),
        SinkState::Writing(t) => r == Err::<(), Error>(Error::SinkClosed) && s1 == s0,
        SinkState::Closed => r is Ok && s1 == s0,
    }
}

pub proof fn lemma_contains_append(a: Seq<Block>, b: Seq<Block>)
    ensures
        forall|x: Block| a.contains(x) ==> #[trigger] (a + b).contains(x),
        forall|i: int| 0 <= i < b.len() ==> (a + b).contains(#[trigger] b[i]),
{
    assert forall|x: Block| a.contains(x) implies #[trigger] (a + b).contains(x) by {
        let t = choose|t: int| 0 <= t < a.len() && a[t] == x;
        assert((a + b)[t] == x);
    }
    assert forall|i: int| 0 <= i < b.len() implies (a + b).contains(#[trigger] b[i]) by {
        assert((a + b)[a.len() + i] == b[i]);
    }
}

/// Checks that the per-field encoding metadata lines up with the schema.
fn check_ipc_fields(fields: &Vec<crate::datatypes::Field>, ipc: &Vec<IpcField>) -> (r: bool)
    ensures
        r == fields_compatible(fields@, ipc@),
{
    let n = fields.len();
    if ipc.len() != n {
        return false;
    }
    for i in 0..n
        invariant
            n == fields@.len(),
            n == ipc@.len(),
            forall|t: int|
                0 <= t < i ==> ((fields@[t].data_type is Dictionary) <==> (
                #[trigger] ipc@[t].dictionary_id) is Some),
            forall|t1: int, t2: int|
                0 <= t1 < t2 < i && (#[trigger] ipc@[t1].dictionary_id) is Some ==> ipc@[t1].dictionary_id != #[trigger] ipc@[t2].dictionary_id,
    {
        let is_dict = match fields[i].data_type {
            DataType::Dictionary => true,
            _ => false,
        };
        if is_dict != ipc[i].dictionary_id.is_some() {
            return false;
        }
        if let Some(a) = ipc[i].dictionary_id {
            for j in 0..i
                invariant
                    n == ipc@.len(),
                    i < n,
                    ipc@[i as int].dictionary_id == Some(a),
                    forall|t: int| 0 <= t < j ==> (#[trigger] ipc@[t]).dictionary_id != Some(a),
            {
                if let Some(b) = ipc[j].dictionary_id {
                    if a == b {
                        proof {
                            assert(ipc@[j as int].dictionary_id == ipc@[i as int].dictionary_id);
                        }
                        return false;
                    }
                }
            }
            proof {
                assert forall|t1: int, t2: int|
                    0 <= t1 < t2 < i + 1 && ((#[trigger] ipc@[t1].dictionary_id) is Some) implies ipc@[t1].dictionary_id != #[trigger] ipc@[t2].dictionary_id by {
                    if t2 == i {
                        assert(ipc@[t1].dictionary_id != Some(a));
                    }
                }
            }
        } else {
            proof {
                assert forall|t1: int, t2: int|
                    0 <= t1 < t2 < i + 1 && ((#[trigger] ipc@[t1].dictionary_id) is Some) implies ipc@[t1].dictionary_id != #[trigger] ipc@[t2].dictionary_id by {
                    if t2 == i {
                        assert(ipc@[i as int].dictionary_id is None);
                    }
                }
            }
        }
    }
    true
}

impl FileSink {
    /// Creates a new file writer: validates the field metadata, then
    /// schedules the opening write (magic preamble, two pad bytes, schema
    /// message) as the first task. No block is recorded for the schema
    /// message. Fails with `InvalidArgument` exactly when the ipc fields do
    /// not line up with the schema, the schema has too many fields, or the
    /// schema message is too large to frame.
    pub fn new(schema: Schema, ipc_fields: Option<Vec<IpcField>>, options: WriteOptions) -> (r:
        Result<FileSink, Error>)
        ensures
            ({
                let ipcv = (match ipc_fields {
                    Some(f) => f@,
                    None => spec_default_ipc_fields(schema.fields@),
                });
                let smsg = schema_msg_of(schema.fields@, ipcv);
                &&& ((r is Ok) <==> (schema.fields@.len() <= MAX_FIELDS && fields_compatible(
                    schema.fields@,
                    ipcv,
                ) && smsg.len() <= MAX_PART))
                &&& match r {
                    Ok(s) => {
                        &&& s.inv()
                        &&& (match s.state {
                            SinkState::Writing(t) => t.kind is Start,
                            _ => false,
                        })
                        &&& s.schema == schema
                        &&& s.fields@ == ipcv
                        &&& (ipc_fields matches Some(f) ==> s.fields == f)
                        &&& spec_pending(s.state) == magic_bytes() + seq![0u8, 0u8]
                            + framed_message_bytes(smsg, Seq::empty())
                        &&& s.dictionary_tracker.written@ == Map::<i64, u64>::empty()
                        &&& s.dictionary_tracker.error_on_replacement == true
                        &&& s.offset == 0
                        &&& s.record_blocks@.len() == 0
                        &&& s.dictionary_blocks@.len() == 0
                        &&& s.flushed@.len() == 0
                        &&& s.written@.len() == 0
                        &&& s.started@ == false
                    },
                    Err(e) => e == Error::InvalidArgument,
                }
            }),
    {
        if schema.fields.len() > MAX_FIELDS {
            return Err(Error::InvalidArgument);
        }
        let fields = match ipc_fields {
            Some(f) => {
                if !check_ipc_fields(&schema.fields, &f) {
                    return Err(Error::InvalidArgument);
                }
                f
            },
            None => default_ipc_fields(&schema.fields),
        };
        let smsg = crate::flat::schema_message_data(&schema, &fields);
        let encoded = EncodedData { ipc_message: smsg, arrow_data: Vec::new() };
        let framed = match crate::message::frame_message(&encoded) {
            Ok(f) => f,
            Err(e) => {
                return Err(e);
            },
        };
        let mut bytes: Vec<u8> = Vec::new();
        push_magic(&mut bytes);
        bytes.push(0u8);
        bytes.push(0u8);
        crate::message::push_bytes(&mut bytes, &framed.bytes);
        let blen = bytes.len();
        let ghost bseq = bytes@;
        proof {
            assert(bseq =~= magic_bytes() + seq![0u8, 0u8] + framed.bytes@);
        }
        let sink = FileSink {
            state: SinkState::Writing(PendingTask { bytes, kind: TaskKind::Start }),
            schema,
            fields,
            options,
            dictionary_tracker: DictionaryTracker::new(true),
            offset: 0,
            record_blocks: Vec::new(),
            dictionary_blocks: Vec::new(),
            written: Ghost(Seq::empty()),
            flushed: Ghost(Seq::empty()),
            base: Ghost(blen as u64),
            started: Ghost(false),
        };
        proof {
            assert(spec_pending(sink.state) == bseq);
            assert(bseq.len() == blen);
        }
        Ok(sink)
    }

    /// The bytes of the in-flight write, for the caller to put on the
    /// wire; nothing when no write is in flight.
    pub fn pending_bytes(&self) -> (r: Option<Vec<u8>>)
        ensures
            (match self.state {
                SinkState::Writing(t) => (match r {
                    Some(b) => b@ == t.bytes@,
                    None => false,
                }),
                _ => r is None,
            }),
    {
        match &self.state {
            SinkState::Writing(t) => {
                let mut v: Vec<u8> = Vec::new();
                crate::message::push_bytes(&mut v, &t.bytes);
                Some(v)
            },
            _ => None,
        }
    }

    /// The caller reports that the in-flight write completed: the writer
    /// returns to `Idle` (or reaches `Closed` after the trailer), records
    /// the task's blocks, and advances the stream offset. A no-op when no
    /// write was in flight.
    pub fn drive_ok(&mut self)
        requires
            old(self).inv(),
        ensures
            final(self).inv(),
            drive_ok_post(*old(self), *final(self)),
    {
        let ghost pre = *self;
        let mut st = SinkState::Idle;
        core::mem::swap(&mut st, &mut self.state);
        match st {
            SinkState::Writing(t) => {
                let PendingTask { bytes, kind } = t;
                let blen = bytes.len();
                match kind {
                    TaskKind::Start => {
                        self.offset = self.offset + blen as u64;
                        self.flushed = Ghost(self.flushed@ + bytes@);
                        self.started = Ghost(true);
                    },
                    TaskKind::Write { dicts, record } => {
                        let ghost dseq = dicts@;
                        let mut d = dicts;
                        self.dictionary_blocks.append(&mut d);
                        self.record_blocks.push(record);
                        proof {
                            lemma_adjacent_append(
                                pre.written@,
                                dseq + seq![record],
                                pre.base@ as int,
                                pre.offset as int,
                                pre.offset + blen,
                            );
                            lemma_contains_append(pre.written@, dseq + seq![record]);
                        }
                        self.written = Ghost(pre.written@ + (dseq + seq![record]));
                        self.offset = self.offset + blen as u64;
                        self.flushed = Ghost(self.flushed@ + bytes@);
                        proof {
                            assert(self.written@ =~= pre.written@ + dseq + seq![record]);
                            assert forall|i: int|
                                0 <= i < self.record_blocks@.len() implies self.written@.contains(
                                #[trigger] self.record_blocks@[i],
                            ) by {
                                if i < pre.record_blocks@.len() {
                                    assert(self.record_blocks@[i] == pre.record_blocks@[i]);
                                } else {
                                    assert(self.record_blocks@[i] == record);
                                    assert((dseq + seq![record])[dseq.len() as int] == record);
                                }
                            }
                            assert forall|i: int|
                                0 <= i < self.dictionary_blocks@.len() implies self.written@.contains(
                                #[trigger] self.dictionary_blocks@[i],
                            ) by {
                                if i < pre.dictionary_blocks@.len() {
                                    assert(self.dictionary_blocks@[i] == pre.dictionary_blocks@[i]);
                                } else {
                                    assert(self.dictionary_blocks@[i] == dseq[i - pre.dictionary_blocks@.len()]);
                                    assert((dseq + seq![record])[i - pre.dictionary_blocks@.len()] == dseq[i - pre.dictionary_blocks@.len()]);
                                }
                            }
                        }
                    },
                    TaskKind::Finish { footer_len } => {
                        self.state = SinkState::Closed;
                        self.flushed = Ghost(self.flushed@ + bytes@);
                    },
                }
            },
            SinkState::Idle => {},
            SinkState::Closed => {
                self.state = SinkState::Closed;
            },
        }
    }

    /// The caller reports that the in-flight write failed: the sink is not
    /// recovered, the writer is left poisoned, and every further `submit`
    /// fails with `SinkClosed`. The ledger is untouched.
    pub fn drive_err(&mut self)
        requires
            old(self).inv(),
        ensures
            final(self).inv(),
            final(self).state is Closed,
            unchanged_core(*old(self), *final(self)),
            unchanged_stream(*old(self), *final(self)),
            final(self).dictionary_tracker == old(self).dictionary_tracker,
    {
        self.state = SinkState::Closed;
    }

    /// Submits one chunk: valid only while idle (fails with `SinkClosed`
    /// otherwise). On success, encodes the chunk, records the fingerprints
    /// of its dictionaries, and schedules one task that writes each pending
    /// dictionary message and then the record-batch message, carrying the
    /// blocks to record; the offsets chain from the current stream offset.
    /// On any error the writer is left exactly as it was.
    pub fn submit(&mut self, chunk: &Chunk) -> (r: Result<(), Error>)
        requires
            old(self).inv(),
            chunk.wf(),
        ensures
            final(self).inv(),
            submit_post(*old(self), *final(self), *chunk, r),
    {
        match &self.state {
            SinkState::Idle => {},
            _ => {
                return Err(Error::SinkClosed);
            },
        }
        let (dict_msgs, record_msg, pending) = match encode_chunk_pending(
            chunk,
            &self.schema.fields,
            &self.fields,
            &self.dictionary_tracker,
            &self.options,
        ) {
            Ok(out) => out,
            Err(e) => {
                return Err(e);
            },
        };
        let ghost arrays = chunk.arrays@;
        let ghost ipcv = self.fields@;
        let ghost m0v = self.dictionary_tracker.written@;
        let ghost idxs = written_dict_idxs(arrays, ipcv, m0v);
        let off0 = self.offset;
        let mut bytes: Vec<u8> = Vec::new();
        let mut dblocks: Vec<Block> = Vec::new();
        let mut cur: u64 = off0;
        let nd = dict_msgs.len();
        for di in 0..nd
            invariant
                nd == dict_msgs@.len(),
                off0 <= cur <= MAX_OFFSET,
                cur == off0 + bytes@.len(),
                blocks_adjacent(dblocks@, off0 as int, cur as int),
                dblocks@.len() == di,
                (*self == *old(self)),
                old(self).inv(),
                old(self).state is Idle,
                arrays == chunk.arrays@,
                ipcv == old(self).fields@,
                m0v == old(self).dictionary_tracker.written@,
                idxs == written_dict_idxs(arrays, ipcv, m0v),
                nd == idxs.len(),
                off0 == old(self).offset,
                chunk_types_ok(arrays, old(self).schema.fields@),
                chunk_encodable(arrays),
                !has_dict_mismatch(arrays, ipcv, old(self).dictionary_tracker),
                dict_messages_ok(arrays, ipcv, m0v, dict_msgs@),
                record_msg.ipc_message@ == record_header_bytes(arrays),
                record_msg.arrow_data@ == chunk_body_bytes(arrays),
                dict_frames_ok(arrays, ipcv, m0v, 0, off0 as int) == dict_frames_ok(
                    arrays,
                    ipcv,
                    m0v,
                    di as int,
                    cur as int,
                ),
                dicts_end(arrays, ipcv, m0v, 0, off0 as int) == dicts_end(
                    arrays,
                    ipcv,
                    m0v,
                    di as int,
                    cur as int,
                ),
                chunk_task_bytes(arrays, ipcv, m0v, 0) == bytes@ + chunk_task_bytes(
                    arrays,
                    ipcv,
                    m0v,
                    di as int,
                ),
        {
            let ghost vals = dict_values_of(arrays[idxs[di as int]]);
            let ghost hdr = dict_header_bytes(spec_dict_id(ipcv[idxs[di as int]]), vals);
            proof {
                assert(dict_msgs@[di as int].ipc_message@ == hdr);
                assert(dict_msgs@[di as int].arrow_data@ == utf8_segment(vals));
            }
            let framed = match crate::message::frame_message(&dict_msgs[di]) {
                Ok(f) => f,
                Err(e) => {
                    proof {
                        assert(!msg_fits(hdr, utf8_segment(vals)));
                        assert(!dict_frames_ok(arrays, ipcv, m0v, di as int, cur as int));
                        assert(!submit_frames_ok(arrays, ipcv, m0v, off0 as int));
                    }
                    return Err(e);
                },
            };
            let flen = framed.bytes.len();
            proof {
                assert(flen == framed_len_of(hdr, utf8_segment(vals)));
            }
            if (flen as u64) > MAX_OFFSET - cur {
                proof {
                    assert(!dict_frames_ok(arrays, ipcv, m0v, di as int, cur as int));
                    assert(!submit_frames_ok(arrays, ipcv, m0v, off0 as int));
                }
                return Err(Error::InvalidArgument);
            }
            let blk = Block {
                offset: cur as i64,
                meta_data_length: framed.meta_len as i32,
                body_length: framed.body_len as i64,
            };
            let ghost dpre = dblocks@;
            let ghost cur_pre = cur as int;
            proof {
                assert(blocks_adjacent(seq![blk], cur as int, cur + flen));
                lemma_adjacent_append(dblocks@, seq![blk], off0 as int, cur as int, cur + flen);
            }
            dblocks.push(blk);
            crate::message::push_bytes(&mut bytes, &framed.bytes);
            cur = cur + flen as u64;
            proof {
                assert(dblocks@ =~= dpre + seq![blk]);
                assert(chunk_task_bytes(arrays, ipcv, m0v, di as int) == framed.bytes@
                    + chunk_task_bytes(arrays, ipcv, m0v, di + 1));
                assert(chunk_task_bytes(arrays, ipcv, m0v, 0) =~= bytes@ + chunk_task_bytes(
                    arrays,
                    ipcv,
                    m0v,
                    di + 1,
                ));
                assert(dict_frames_ok(arrays, ipcv, m0v, di as int, cur_pre) == dict_frames_ok(
                    arrays,
                    ipcv,
                    m0v,
                    di + 1,
                    cur as int,
                ));
                assert(dicts_end(arrays, ipcv, m0v, di as int, cur_pre) == dicts_end(
                    arrays,
                    ipcv,
                    m0v,
                    di + 1,
                    cur as int,
                ));
            }
        }
        proof {
            assert(dict_frames_ok(arrays, ipcv, m0v, nd as int, cur as int));
            assert(dicts_end(arrays, ipcv, m0v, nd as int, cur as int) == cur as int);
        }
        let ghost rh = record_header_bytes(arrays);
        let ghost rb = chunk_body_bytes(arrays);
        let framed = match crate::message::frame_message(&record_msg) {
            Ok(f) => f,
            Err(e) => {
                proof {
                    assert(!msg_fits(rh, rb));
                    assert(!submit_frames_ok(arrays, ipcv, m0v, off0 as int));
                }
                return Err(e);
            },
        };
        let flen = framed.bytes.len();
        proof {
            assert(flen == framed_len_of(rh, rb));
        }
        if (flen as u64) > MAX_OFFSET - cur {
            proof {
                assert(!submit_frames_ok(arrays, ipcv, m0v, off0 as int));
            }
            return Err(Error::InvalidArgument);
        }
        proof {
            assert(submit_frames_ok(arrays, ipcv, m0v, off0 as int));
        }
        let rblock = Block {
            offset: cur as i64,
            meta_data_length: framed.meta_len as i32,
            body_length: framed.body_len as i64,
        };
        proof {
            assert(blocks_adjacent(seq![rblock], cur as int, cur + flen));
            lemma_adjacent_append(dblocks@, seq![rblock], off0 as int, cur as int, cur + flen);
        }
        crate::message::push_bytes(&mut bytes, &framed.bytes);
        proof {
            assert(chunk_task_bytes(arrays, ipcv, m0v, nd as int) == framed_message_bytes(rh, rb));
            assert(bytes@ =~= chunk_task_bytes(arrays, ipcv, m0v, 0));
        }
        commit_dictionaries(
            &mut self.dictionary_tracker,
            &pending,
            Ghost(chunk.arrays@),
            Ghost(self.schema.fields@),
            Ghost(self.fields@),
        );
        self.state = SinkState::Writing(
            PendingTask { bytes, kind: TaskKind::Write { dicts: dblocks, record: rblock } },
        );
        Ok(())
    }

    /// Assembles the footer from the schema, the field metadata and the
    /// block ledger, and schedules the closing write: a zero-valued
    /// continuation marker, the footer, its 4-byte little-endian length,
    /// and the trailing magic. Valid only while no task is in flight;
    /// closing an already-closed writer is a no-op.
    #[verifier::rlimit(100)]
    pub fn close(&mut self) -> (r: Result<(), Error>)
        requires
            old(self).inv(),
        ensures
            final(self).inv(),
            close_post(*old(self), *final(self), r),
    {
        match &self.state {
            SinkState::Idle => {},
            SinkState::Writing(_) => {
                return Err(Error::SinkClosed);
            },
            SinkState::Closed => {
                return Ok(());
            },
        }
        let fb = match assemble_footer(
            &self.schema,
            &self.fields,
            &self.dictionary_blocks,
            &self.record_blocks,
        ) {
            Ok(fb) => fb,
            Err(_) => {
                proof {
                    assert(false);
                }
                return Err(Error::InvalidArgument);
            },
        };
        let flen = fb.len();
        if flen > 0x7fff_ffff {
            return Err(Error::InvalidArgument);
        }
        if self.offset > MAX_OFFSET - 14 || (flen as u64) > MAX_OFFSET - 14 - self.offset {
            return Err(Error::InvalidArgument);
        }
        let mut bytes: Vec<u8> = Vec::new();
        bytes.push(0u8);
        bytes.push(0u8);
        bytes.push(0u8);
        bytes.push(0u8);
        assert(bytes@ =~= eos_bytes());
        crate::message::push_bytes(&mut bytes, &fb);
        let lb = u32_to_le_bytes(flen as u32);
        crate::message::push_bytes(&mut bytes, &lb);
        push_magic(&mut bytes);
        proof {
            vstd::bytes::lemma_auto_spec_u32_to_from_le_bytes();
            assert(bytes@.subrange(0, 4) =~= eos_bytes());
            assert(bytes@.subrange(4, 4 + flen as int) =~= fb@);
            assert(bytes@.subrange(4 + flen as int, 8 + flen as int) =~= spec_u32_to_le_bytes(
                flen as u32,
            ));
            assert(bytes@.subrange(8 + flen as int, flen as int + 14) =~= magic_bytes());
        }
        self.state = SinkState::Writing(
            PendingTask { bytes, kind: TaskKind::Finish { footer_len: flen } },
        );
        Ok(())
    }

    pub fn record_blocks(&self) -> (r: &Vec<Block>)
        ensures
            r@ == self.record_blocks@,
    {
        &self.record_blocks
    }

    pub fn dictionary_blocks(&self) -> (r: &Vec<Block>)
        ensures
            r@ == self.dictionary_blocks@,
    {
        &self.dictionary_blocks
    }

    pub fn stream_offset(&self) -> (r: u64)
        ensures
            r == self.offset,
    {
        self.offset
    }

    pub fn is_idle(&self) -> (r: bool)
        ensures
            r == (self.state is Idle),
    {
        match &self.state {
            SinkState::Idle => true,
            _ => false,
        }
    }

    pub fn is_writing(&self) -> (r: bool)
        ensures
            r == (self.state is Writing),
    {
        match &self.state {
            SinkState::Writing(_) => true,
            _ => false,
        }
    }

    pub fn is_closed(&self) -> (r: bool)
        ensures
            r == (self.state is Closed),
    {
        match &self.state {
            SinkState::Closed => true,
            _ => false,
        }
    }
}

/// Assembles the end-of-file index: format version, schema, and the
/// ordered dictionary and record-batch block lists, serialized to the
/// footer's bytes. A pure function of its arguments; it fails only when
/// the field metadata does not line up with the schema.
pub fn assemble_footer(
    schema: &Schema,
    ipc_fields: &Vec<IpcField>,
    dictionary_blocks: &Vec<Block>,
    record_blocks: &Vec<Block>,
) -> (r: Result<Vec<u8>, Error>)
    ensures
        (r is Ok) == (ipc_fields@.len() == schema.fields@.len()),
        (match r {
            Ok(b) => b@ == footer_bytes_of(
                schema.fields@,
                ipc_fields@,
                dictionary_blocks@,
                record_blocks@,
            ),
            Err(e) => e == Error::InvalidArgument,
        }),
{
    if ipc_fields.len() != schema.fields.len() {
        return Err(Error::InvalidArgument);
    }
    Ok(crate::flat::footer_data(schema, ipc_fields, dictionary_blocks, record_blocks))
}

/// Law: for every recorded block, offset plus metadata length plus body
/// length equals the offset of the next written message — and, for the
/// last message, the stream offset at which the continuation marker is
/// written.
pub proof fn lemma_recorded_blocks_chain(s: FileSink)
    requires
        s.inv(),
    ensures
        forall|i: int|
            0 <= i < s.written@.len() - 1 ==> (#[trigger] s.written@[i]).spec_end()
                == s.written@[i + 1].offset,
        s.written@.len() > 0 ==> s.written@[s.written@.len() - 1].spec_end() == s.offset,
{
    if !s.started@ {
        assert(s.written@.len() == 0);
    }
}

/// Law: every block the ledger records lies wholly inside the bytes that
/// have reached the stream.
#[verifier::rlimit(100)]
pub proof fn lemma_blocks_within_file(s: FileSink)
    requires
        s.inv(),
    ensures
        forall|i: int|
            0 <= i < s.record_blocks@.len() ==> 0 <= (#[trigger] s.record_blocks@[i]).offset
                && s.record_blocks@[i].spec_end() <= s.flushed@.len(),
        forall|i: int|
            0 <= i < s.dictionary_blocks@.len() ==> 0 <= (
            #[trigger] s.dictionary_blocks@[i]).offset && s.dictionary_blocks@[i].spec_end()
                <= s.flushed@.len(),
{
    assert forall|i: int|
        0 <= i < s.record_blocks@.len() implies 0 <= (#[trigger] s.record_blocks@[i]).offset
        && s.record_blocks@[i].spec_end() <= s.flushed@.len() by {
        let b = s.record_blocks@[i];
        let t = choose|t: int| 0 <= t < s.written@.len() && s.written@[t] == b;
        assert(s.started@);
        lemma_adjacent_end(s.written@, s.base@ as int, s.offset as int, t);
        lemma_adjacent_start(s.written@, s.base@ as int, s.offset as int, t);
    }
    assert forall|i: int|
        0 <= i < s.dictionary_blocks@.len() implies 0 <= (
    #[trigger] s.dictionary_blocks@[i]).offset && s.dictionary_blocks@[i].spec_end()
        <= s.flushed@.len() by {
        let b = s.dictionary_blocks@[i];
        let t = choose|t: int| 0 <= t < s.written@.len() && s.written@[t] == b;
        assert(s.started@);
        lemma_adjacent_end(s.written@, s.base@ as int, s.offset as int, t);
        lemma_adjacent_start(s.written@, s.base@ as int, s.offset as int, t);
    }
}

/// Law: when the closing write settles, the flushed file ends with the
/// footer, its 4-byte little-endian length, and the trailing magic, and
/// the continuation marker stands exactly where the last block ended.
#[verifier::rlimit(100)]
#[verifier::spinoff_prover]
pub proof fn lemma_trailer_shape(s0: FileSink, s1: FileSink)
    requires
        s0.inv(),
        drive_ok_post(s0, s1),
        (match s0.state {
            SinkState::Writing(t) => t.kind is Finish,
            _ => false,
        }),
    ensures
        (match s0.state {
            SinkState::Writing(t) => (match t.kind {
                TaskKind::Finish { footer_len } => {
                    let n = s1.flushed@.len();
                    &&& n == s0.offset + footer_len + 14
                    &&& s1.flushed@.subrange(n - 6, n as int) == magic_bytes()
                    &&& s1.flushed@.subrange(n - 10, n - 6) == spec_u32_to_le_bytes(
                        footer_len as u32,
                    )
                    &&& s1.flushed@.subrange(s0.offset as int, s0.offset + 4) == eos_bytes()
                },
                _ => true,
            }),
            _ => true,
        }),
{
    match s0.state {
        SinkState::Writing(t) => {
            match t.kind {
                TaskKind::Finish { footer_len } => {
                    let f = s0.flushed@;
                    let b = t.bytes@;
                    let n = s1.flushed@.len();
                    assert(f.len() == s0.offset);
                    assert(s1.flushed@ == f + b);
                    assert(n == f.len() + b.len());
                    assert forall|i: int| 0 <= i < b.len() implies #[trigger] s1.flushed@[f.len()
                        + i] == b[i] by {}
                    assert(s1.flushed@.subrange(n - 6, n as int) =~= b.subrange(
                        8 + footer_len,
                        footer_len + 14,
                    ));
                    assert(s1.flushed@.subrange(n - 10, n - 6) =~= b.subrange(
                        4 + footer_len,
                        8 + footer_len,
                    ));
                    assert(s1.flushed@.subrange(s0.offset as int, s0.offset + 4) =~= b.subrange(
                        0,
                        4,
                    ));
                },
                _ => {},
            }
        },
        _ => {},
    }
}

} // verus!
