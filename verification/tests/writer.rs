use arrow2::array::{Array, Chunk};
use arrow2::datatypes::{default_ipc_fields, DataType, Field, IpcField, Schema};
use arrow2::dictionary::{fingerprint_values, DictAction, DictionaryTracker};
use arrow2::encode::encode_chunk;
use arrow2::error::Error;
use arrow2::message::{frame_message, EncodedData, WriteOptions};
use arrow2::sink::{assemble_footer, FileSink};
use arrow_format::ipc::planus::ReadAsRoot;

fn field(name: &str, data_type: DataType) -> Field {
    Field { name: name.to_string(), data_type, nullable: false }
}

fn strings(vals: &[&str]) -> Vec<String> {
    vals.iter().map(|s| s.to_string()).collect()
}

/// Writes the pending bytes of the sink into `file` and reports completion.
fn drive(file: &mut Vec<u8>, sink: &mut FileSink) {
    let bytes = sink.pending_bytes().expect("a write should be in flight");
    file.extend_from_slice(&bytes);
    sink.drive_ok();
}

fn read_footer(file: &[u8]) -> (u32, arrow_format::ipc::Footer) {
    let n = file.len();
    assert!(n > 10);
    assert_eq!(&file[n - 6..], b"ARROW1");
    let mut lenb = [0u8; 4];
    lenb.copy_from_slice(&file[n - 10..n - 6]);
    let footer_len = u32::from_le_bytes(lenb);
    let start = n - 10 - footer_len as usize;
    let footer_ref =
        arrow_format::ipc::FooterRef::read_as_root(&file[start..n - 10]).expect("footer parses");
    let footer: arrow_format::ipc::Footer = footer_ref.try_into().expect("footer converts");
    (footer_len, footer)
}

#[test]
fn trailer_and_footer_describe_the_file() {
    let schema = Schema { fields: vec![field("a", DataType::Int32), field("b", DataType::Utf8)] };
    let mut sink = FileSink::new(schema, None, WriteOptions {}).unwrap();
    let mut file: Vec<u8> = Vec::new();
    drive(&mut file, &mut sink);
    for k in 0..2 {
        let chunk = Chunk::try_new(vec![
            Array::Int32(vec![k, k + 1, k + 2]),
            Array::Utf8(strings(&["x", "y", "z"])),
        ])
        .unwrap();
        sink.submit(&chunk).unwrap();
        drive(&mut file, &mut sink);
    }
    sink.close().unwrap();
    drive(&mut file, &mut sink);
    assert!(sink.is_closed());

    let (_, footer) = read_footer(&file);
    let records = footer.record_batches.unwrap();
    assert_eq!(records.len(), 2);
    assert_eq!(footer.dictionaries.unwrap().len(), 0);
    for b in &records {
        assert!(b.offset >= 8);
        assert!(b.offset + b.meta_data_length as i64 + b.body_length <= file.len() as i64);
    }
}

#[test]
fn footer_schema_round_trips() {
    let schema = Schema { fields: vec![field("a", DataType::Int32), field("b", DataType::Utf8)] };
    let mut sink = FileSink::new(schema, None, WriteOptions {}).unwrap();
    let mut file: Vec<u8> = Vec::new();
    drive(&mut file, &mut sink);
    let chunk = Chunk::try_new(vec![
        Array::Int32(vec![1, 2, 3]),
        Array::Utf8(strings(&["one", "two", "three"])),
    ])
    .unwrap();
    sink.submit(&chunk).unwrap();
    drive(&mut file, &mut sink);
    sink.close().unwrap();
    drive(&mut file, &mut sink);

    let (_, footer) = read_footer(&file);
    assert_eq!(footer.record_batches.unwrap().len(), 1);
    assert_eq!(footer.dictionaries.unwrap().len(), 0);
    let fb_schema = *footer.schema.unwrap();
    let fields = fb_schema.fields.unwrap();
    assert_eq!(fields.len(), 2);
    assert_eq!(fields[0].name.as_deref(), Some("a"));
    match fields[0].type_.as_ref().unwrap() {
        arrow_format::ipc::Type::Int(i) => {
            assert_eq!(i.bit_width, 32);
            assert!(i.is_signed);
        },
        other => panic!("field a has the wrong type: {:?}", other),
    }
    assert_eq!(fields[1].name.as_deref(), Some("b"));
    match fields[1].type_.as_ref().unwrap() {
        arrow_format::ipc::Type::Utf8(_) => {},
        other => panic!("field b has the wrong type: {:?}", other),
    }
}

#[test]
fn blocks_chain_without_gaps() {
    let schema = Schema { fields: vec![field("a", DataType::Int32)] };
    let mut sink = FileSink::new(schema, None, WriteOptions {}).unwrap();
    let mut file: Vec<u8> = Vec::new();
    drive(&mut file, &mut sink);
    let base = file.len() as u64;
    for k in 0..3 {
        let chunk = Chunk::try_new(vec![Array::Int32(vec![k; 5])]).unwrap();
        sink.submit(&chunk).unwrap();
        drive(&mut file, &mut sink);
    }
    let blocks = sink.record_blocks().clone();
    assert_eq!(blocks.len(), 3);
    assert_eq!(blocks[0].offset, base as i64);
    for w in blocks.windows(2) {
        assert_eq!(
            w[0].offset + w[0].meta_data_length as i64 + w[0].body_length,
            w[1].offset
        );
    }
    let continuation_at = sink.stream_offset();
    let last = blocks.last().unwrap();
    assert_eq!(
        last.offset + last.meta_data_length as i64 + last.body_length,
        continuation_at as i64
    );
    sink.close().unwrap();
    drive(&mut file, &mut sink);
    // the continuation marker stands exactly where the last block ended
    assert_eq!(&file[continuation_at as usize..continuation_at as usize + 4], &[0, 0, 0, 0]);
}

#[test]
fn submit_while_writing_fails_then_succeeds() {
    let schema = Schema { fields: vec![field("a", DataType::Int32)] };
    let mut sink = FileSink::new(schema, None, WriteOptions {}).unwrap();
    let chunk = Chunk::try_new(vec![Array::Int32(vec![1])]).unwrap();
    // the opening write has not been driven to completion yet
    assert_eq!(sink.submit(&chunk), Err(Error::SinkClosed));
    let mut file: Vec<u8> = Vec::new();
    drive(&mut file, &mut sink);
    assert_eq!(sink.submit(&chunk), Ok(()));
    // and again: the chunk write is now in flight
    assert_eq!(sink.submit(&chunk), Err(Error::SinkClosed));
    drive(&mut file, &mut sink);
    assert_eq!(sink.submit(&chunk), Ok(()));
}

#[test]
fn submit_after_close_fails() {
    let schema = Schema { fields: vec![field("a", DataType::Int32)] };
    let mut sink = FileSink::new(schema, None, WriteOptions {}).unwrap();
    let mut file: Vec<u8> = Vec::new();
    drive(&mut file, &mut sink);
    let chunk = Chunk::try_new(vec![Array::Int32(vec![1, 2])]).unwrap();
    sink.submit(&chunk).unwrap();
    drive(&mut file, &mut sink);
    sink.close().unwrap();
    drive(&mut file, &mut sink);
    assert!(sink.is_closed());
    assert_eq!(sink.submit(&chunk), Err(Error::SinkClosed));
}

#[test]
fn io_failure_poisons_the_writer() {
    let schema = Schema { fields: vec![field("a", DataType::Int32)] };
    let mut sink = FileSink::new(schema, None, WriteOptions {}).unwrap();
    // the transport reports that the opening write failed
    sink.drive_err();
    assert!(sink.is_closed());
    let chunk = Chunk::try_new(vec![Array::Int32(vec![1])]).unwrap();
    assert_eq!(sink.submit(&chunk), Err(Error::SinkClosed));
    // close on a poisoned writer is a no-op
    assert_eq!(sink.close(), Ok(()));
}

fn dict_chunk(keys: Vec<i32>, values: &[&str]) -> Chunk {
    Chunk::try_new(vec![Array::Dictionary { keys, values: strings(values) }]).unwrap()
}

#[test]
fn identical_dictionary_is_not_resent() {
    let schema = Schema { fields: vec![field("d", DataType::Dictionary)] };
    let mut sink = FileSink::new(schema, None, WriteOptions {}).unwrap();
    let mut file: Vec<u8> = Vec::new();
    drive(&mut file, &mut sink);
    sink.submit(&dict_chunk(vec![0, 1, 0], &["lo", "hi"])).unwrap();
    drive(&mut file, &mut sink);
    assert_eq!(sink.dictionary_blocks().len(), 1);
    assert_eq!(sink.record_blocks().len(), 1);
    // same id, same fingerprint: no second dictionary message
    sink.submit(&dict_chunk(vec![1, 1, 0], &["lo", "hi"])).unwrap();
    drive(&mut file, &mut sink);
    assert_eq!(sink.dictionary_blocks().len(), 1);
    assert_eq!(sink.record_blocks().len(), 2);
}

#[test]
fn changed_dictionary_is_rejected_and_leaves_no_blocks() {
    let schema = Schema { fields: vec![field("d", DataType::Dictionary)] };
    let mut sink = FileSink::new(schema, None, WriteOptions {}).unwrap();
    let mut file: Vec<u8> = Vec::new();
    drive(&mut file, &mut sink);
    sink.submit(&dict_chunk(vec![0], &["lo", "hi"])).unwrap();
    drive(&mut file, &mut sink);
    // same id, different fingerprint, policy forbids replacement
    assert_eq!(
        sink.submit(&dict_chunk(vec![0], &["other", "values"])),
        Err(Error::DictionaryMismatch)
    );
    assert_eq!(sink.dictionary_blocks().len(), 1);
    assert_eq!(sink.record_blocks().len(), 1);
    // the writer stays usable for the unchanged dictionary
    sink.submit(&dict_chunk(vec![1], &["lo", "hi"])).unwrap();
    drive(&mut file, &mut sink);
    assert_eq!(sink.dictionary_blocks().len(), 1);
    assert_eq!(sink.record_blocks().len(), 2);
}

#[test]
fn tracker_classifies_and_records() {
    let mut strict = DictionaryTracker::new(true);
    let first = strings(&["a", "b"]);
    let changed = strings(&["a", "c"]);
    assert_eq!(strict.should_write(5, &first), Ok(DictAction::WriteNew));
    assert_eq!(strict.should_write(5, &first), Ok(DictAction::Skip));
    assert_eq!(strict.should_write(5, &changed), Err(Error::DictionaryMismatch));
    assert_eq!(strict.should_write(5, &first), Ok(DictAction::Skip));

    let mut lenient = DictionaryTracker::new(false);
    assert_eq!(lenient.should_write(5, &first), Ok(DictAction::WriteNew));
    assert_eq!(lenient.should_write(5, &changed), Ok(DictAction::WriteReplacement));
    assert_eq!(lenient.should_write(5, &changed), Ok(DictAction::Skip));
}

#[test]
fn fingerprints_separate_value_sets() {
    let a = fingerprint_values(&strings(&["a", "b"]));
    let b = fingerprint_values(&strings(&["a", "b"]));
    let c = fingerprint_values(&strings(&["ab"]));
    let d = fingerprint_values(&strings(&["a", "c"]));
    assert_eq!(a, b);
    assert_ne!(a, c);
    assert_ne!(a, d);
}

#[test]
fn framing_pads_to_eight_bytes() {
    let msg = EncodedData { ipc_message: vec![1, 2, 3], arrow_data: vec![9] };
    let framed = frame_message(&msg).unwrap();
    assert_eq!(framed.meta_len, 16);
    assert_eq!(framed.body_len, 8);
    assert_eq!(
        framed.bytes,
        vec![255, 255, 255, 255, 8, 0, 0, 0, 1, 2, 3, 0, 0, 0, 0, 0, 9, 0, 0, 0, 0, 0, 0, 0]
    );
}

#[test]
fn default_ipc_fields_number_dictionaries() {
    let fields = vec![
        field("a", DataType::Int32),
        field("d", DataType::Dictionary),
        field("b", DataType::Utf8),
    ];
    let ipc = default_ipc_fields(&fields);
    assert_eq!(ipc.len(), 3);
    assert_eq!(ipc[0].dictionary_id, None);
    assert_eq!(ipc[1].dictionary_id, Some(1));
    assert_eq!(ipc[2].dictionary_id, None);
}

#[test]
fn mismatched_ipc_fields_are_rejected() {
    let schema = Schema { fields: vec![field("a", DataType::Int32)] };
    let bad = vec![IpcField { dictionary_id: Some(3) }];
    assert!(FileSink::new(schema, Some(bad), WriteOptions {}).is_err());
}

#[test]
fn unequal_column_lengths_are_rejected() {
    let r = Chunk::try_new(vec![Array::Int32(vec![1, 2]), Array::Int32(vec![1])]);
    assert_eq!(r.err(), Some(Error::InvalidArgument));
}

#[test]
fn wrong_column_type_is_rejected() {
    let schema = Schema { fields: vec![field("a", DataType::Int32)] };
    let mut sink = FileSink::new(schema, None, WriteOptions {}).unwrap();
    let mut file: Vec<u8> = Vec::new();
    drive(&mut file, &mut sink);
    let chunk = Chunk::try_new(vec![Array::Utf8(strings(&["oops"]))]).unwrap();
    assert_eq!(sink.submit(&chunk), Err(Error::InvalidArgument));
    // an unsupported column kind is also rejected
    let chunk = Chunk::try_new(vec![Array::Null(4)]).unwrap();
    assert_eq!(sink.submit(&chunk), Err(Error::InvalidArgument));
}

#[test]
fn file_starts_with_magic_and_padding() {
    let schema = Schema { fields: vec![field("a", DataType::Int32)] };
    let mut sink = FileSink::new(schema, None, WriteOptions {}).unwrap();
    let mut file: Vec<u8> = Vec::new();
    drive(&mut file, &mut sink);
    assert_eq!(&file[0..6], b"ARROW1");
    assert_eq!(&file[6..8], &[0, 0]);
    assert_eq!(file.len() as u64, sink.stream_offset());
}

#[test]
fn footer_assembly_checks_field_counts() {
    let schema = Schema { fields: vec![field("a", DataType::Int32)] };
    let ipc = vec![IpcField { dictionary_id: None }, IpcField { dictionary_id: None }];
    assert_eq!(
        assemble_footer(&schema, &ipc, &Vec::new(), &Vec::new()).err(),
        Some(Error::InvalidArgument)
    );
    let ipc = vec![IpcField { dictionary_id: None }];
    let bytes = assemble_footer(&schema, &ipc, &Vec::new(), &Vec::new()).unwrap();
    let footer_ref = arrow_format::ipc::FooterRef::read_as_root(&bytes).expect("footer parses");
    let footer: arrow_format::ipc::Footer = footer_ref.try_into().expect("footer converts");
    assert_eq!(footer.version, arrow_format::ipc::MetadataVersion::V5);
    assert_eq!(footer.record_batches.unwrap().len(), 0);
}

#[test]
fn dictionary_message_header_carries_the_id() {
    let schema = Schema { fields: vec![field("d", DataType::Dictionary)] };
    let mut sink = FileSink::new(schema, None, WriteOptions {}).unwrap();
    let mut file: Vec<u8> = Vec::new();
    drive(&mut file, &mut sink);
    let base = file.len();
    sink.submit(&dict_chunk(vec![0, 1], &["lo", "hi"])).unwrap();
    drive(&mut file, &mut sink);
    // the first framed message after the schema is the dictionary message:
    // 4-byte marker, 4-byte length, then the flatbuffer metadata
    assert_eq!(&file[base..base + 4], &[255, 255, 255, 255]);
    let mut lenb = [0u8; 4];
    lenb.copy_from_slice(&file[base + 4..base + 8]);
    let meta_len = u32::from_le_bytes(lenb) as usize;
    let msg_ref = arrow_format::ipc::MessageRef::read_as_root(&file[base + 8..base + 8 + meta_len])
        .expect("message parses");
    let msg: arrow_format::ipc::Message = msg_ref.try_into().expect("message converts");
    match msg.header.expect("a header") {
        arrow_format::ipc::MessageHeader::DictionaryBatch(b) => {
            assert_eq!(b.id, 0);
            assert_eq!(b.data.unwrap().length, 2);
        },
        other => panic!("not a dictionary message: {:?}", other),
    }
}

#[test]
fn encode_chunk_consults_the_tracker_in_field_order() {
    let fields = vec![field("d", DataType::Dictionary)];
    let ipc = default_ipc_fields(&fields);
    let mut tracker = DictionaryTracker::new(true);
    let options = WriteOptions {};

    let first = dict_chunk(vec![0, 1], &["lo", "hi"]);
    let (dicts, record) = encode_chunk(&first, &fields, &ipc, &mut tracker, &options).unwrap();
    assert_eq!(dicts.len(), 1);
    assert!(!record.arrow_data.is_empty());

    // identical values under the same id: no dictionary message
    let again = dict_chunk(vec![1, 0], &["lo", "hi"]);
    let (dicts, _) = encode_chunk(&again, &fields, &ipc, &mut tracker, &options).unwrap();
    assert_eq!(dicts.len(), 0);

    // changed values under the same id: rejected, tracker unchanged
    let changed = dict_chunk(vec![0], &["other"]);
    assert!(matches!(
        encode_chunk(&changed, &fields, &ipc, &mut tracker, &options),
        Err(Error::DictionaryMismatch)
    ));
    let (dicts, _) = encode_chunk(&again, &fields, &ipc, &mut tracker, &options).unwrap();
    assert_eq!(dicts.len(), 0);
}
