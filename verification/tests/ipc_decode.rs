use columnar_ipc::arrays::{Array, Dictionaries};
use columnar_ipc::buffers::Compression;
use columnar_ipc::cursor::{BatchCursor, FieldNode};
use columnar_ipc::decode::{read, read_fixed_size_list, skip, Version};
use columnar_ipc::dtypes::LogicalType;
use columnar_ipc::encode::encode_array;
use columnar_ipc::errors::{CorruptionKind, IpcError, UnsupportedKind};

fn fsl3_column() -> Array {
    // [[1,2,3], null, [7,8,9]] as a fixed-size list of width three
    Array::FixedSizeList {
        size: 3,
        len: 3,
        validity: Some(vec![true, false, true]),
        child: Box::new(Array::Int64 {
            validity: None,
            values: vec![1, 2, 3, 0, 0, 0, 7, 8, 9],
        }),
    }
}

fn fsl3_dtype() -> LogicalType {
    LogicalType::FixedSizeList(3, Box::new(LogicalType::Int64))
}

fn encode_one(a: &Array, comp: Option<Compression>) -> (Vec<FieldNode>, Vec<Vec<u8>>) {
    let mut nodes = Vec::new();
    let mut buffers = Vec::new();
    encode_array(a, comp, &mut nodes, &mut buffers).unwrap();
    (nodes, buffers)
}

#[test]
fn fixed_size_list_round_trip_no_limit() {
    let a = fsl3_column();
    let (nodes, buffers) = encode_one(&a, None);
    let mut cursor = BatchCursor::new(nodes, buffers);
    let dicts = Dictionaries::new();
    let out = read(&mut cursor, &fsl3_dtype(), &dicts, true, None, None, Version::V5).unwrap();
    match &out {
        Array::FixedSizeList { size, len, validity, child } => {
            assert_eq!(*size, 3);
            assert_eq!(*len, 3);
            assert_eq!(validity.as_ref().unwrap(), &vec![true, false, true]);
            match child.as_ref() {
                Array::Int64 { values, .. } => {
                    assert_eq!(values, &vec![1, 2, 3, 0, 0, 0, 7, 8, 9])
                },
                _ => panic!("wrong child type"),
            }
        },
        _ => panic!("wrong array type"),
    }
    assert_eq!(out, a);
    // re-encoding reproduces the same queues bit for bit
    let (nodes2, buffers2) = encode_one(&out, None);
    let (nodes1, buffers1) = encode_one(&a, None);
    assert_eq!(nodes1, nodes2);
    assert_eq!(buffers1, buffers2);
}

#[test]
fn fixed_size_list_limit_one() {
    let a = fsl3_column();
    let (nodes, buffers) = encode_one(&a, None);
    let mut cursor = BatchCursor::new(nodes, buffers);
    let dicts = Dictionaries::new();
    let out =
        read(&mut cursor, &fsl3_dtype(), &dicts, true, None, Some(1), Version::V5).unwrap();
    let expect = Array::FixedSizeList {
        size: 3,
        len: 1,
        validity: Some(vec![true]),
        child: Box::new(Array::Int64 { validity: None, values: vec![1, 2, 3] }),
    };
    assert_eq!(out, expect);
}

#[test]
fn limit_equals_truncation_of_unlimited() {
    let a = fsl3_column();
    for l in [0usize, 1, 2, 3, 7] {
        let (nodes, buffers) = encode_one(&a, None);
        let mut cursor = BatchCursor::new(nodes, buffers);
        let dicts = Dictionaries::new();
        let out =
            read(&mut cursor, &fsl3_dtype(), &dicts, true, None, Some(l), Version::V5).unwrap();
        let kept = l.min(3);
        match out {
            Array::FixedSizeList { len, validity, child, .. } => {
                assert_eq!(len, kept);
                assert_eq!(
                    validity.unwrap(),
                    vec![true, false, true][..kept].to_vec()
                );
                match *child {
                    Array::Int64 { values, .. } => assert_eq!(
                        values,
                        vec![1i64, 2, 3, 0, 0, 0, 7, 8, 9][..kept * 3].to_vec()
                    ),
                    _ => panic!("wrong child"),
                }
            },
            _ => panic!("wrong type"),
        }
    }
}

#[test]
fn missing_buffer_is_corruption() {
    let a = fsl3_column();
    let (nodes, mut buffers) = encode_one(&a, None);
    buffers.pop();
    let mut cursor = BatchCursor::new(nodes, buffers);
    let dicts = Dictionaries::new();
    let err =
        read(&mut cursor, &fsl3_dtype(), &dicts, true, None, None, Version::V5).unwrap_err();
    assert!(matches!(err, IpcError::Corruption(CorruptionKind::MissingBuffer { .. })));
}

#[test]
fn missing_node_is_corruption() {
    let a = fsl3_column();
    let (_, buffers) = encode_one(&a, None);
    let mut cursor = BatchCursor::new(Vec::new(), buffers);
    let dicts = Dictionaries::new();
    let err =
        read(&mut cursor, &fsl3_dtype(), &dicts, true, None, None, Version::V5).unwrap_err();
    assert_eq!(err, IpcError::Corruption(CorruptionKind::MissingNode { at: 0 }));
}

#[test]
fn zero_width_is_unsupported_not_empty() {
    // a stream with one node and one validity slot, read as width zero
    let nodes = vec![FieldNode { length: 0, null_count: 0 }];
    let buffers = vec![Vec::new()];
    let mut cursor = BatchCursor::new(nodes, buffers);
    let dicts = Dictionaries::new();
    let dtype = LogicalType::FixedSizeList(0, Box::new(LogicalType::Int64));
    let err = read_fixed_size_list(&mut cursor, &dtype, &dicts, true, None, None, Version::V5)
        .unwrap_err();
    assert_eq!(
        err,
        IpcError::UnsupportedFeature(UnsupportedKind::ZeroWidthFixedSizeList)
    );
}

#[test]
fn skip_consumes_the_same_footprint_as_decode() {
    // two columns at each nesting depth; skipping the first must leave the
    // second decodable at the right position
    let depth0 = Array::Int64 { validity: None, values: vec![4, 5] };
    let depth1 = Array::FixedSizeList {
        size: 2,
        len: 2,
        validity: None,
        child: Box::new(Array::Int64 { validity: None, values: vec![1, 2, 3, 4] }),
    };
    let depth2 = Array::FixedSizeList {
        size: 2,
        len: 1,
        validity: None,
        child: Box::new(Array::FixedSizeList {
            size: 2,
            len: 2,
            validity: None,
            child: Box::new(Array::Int64 { validity: None, values: vec![9, 8, 7, 6] }),
        }),
    };
    let t0 = LogicalType::Int64;
    let t1 = LogicalType::FixedSizeList(2, Box::new(LogicalType::Int64));
    let t2 = LogicalType::FixedSizeList(
        2,
        Box::new(LogicalType::FixedSizeList(2, Box::new(LogicalType::Int64))),
    );
    let sibling = Array::Int64 { validity: None, values: vec![42, 43] };

    for (first, t_first) in [(&depth0, &t0), (&depth1, &t1), (&depth2, &t2)] {
        let mut nodes = Vec::new();
        let mut buffers = Vec::new();
        encode_array(first, None, &mut nodes, &mut buffers).unwrap();
        encode_array(&sibling, None, &mut nodes, &mut buffers).unwrap();
        let dicts = Dictionaries::new();

        // decode both
        let mut c1 = BatchCursor::new(nodes.clone(), buffers.clone());
        let a1 = read(&mut c1, t_first, &dicts, true, None, None, Version::V5).unwrap();
        let b1 =
            read(&mut c1, &LogicalType::Int64, &dicts, true, None, None, Version::V5).unwrap();
        assert_eq!(&a1, first);
        assert_eq!(b1, sibling);
        let n_after_decode = (c1.node_pos, c1.buffer_pos);

        // skip the first, decode the sibling
        let mut c2 = BatchCursor::new(nodes, buffers);
        skip(&mut c2, t_first).unwrap();
        let b2 =
            read(&mut c2, &LogicalType::Int64, &dicts, true, None, None, Version::V5).unwrap();
        assert_eq!(b2, sibling);
        assert_eq!((c2.node_pos, c2.buffer_pos), n_after_decode);
    }
}

#[test]
fn boolean_and_struct_round_trip() {
    let a = Array::Struct {
        len: 3,
        validity: Some(vec![true, true, false]),
        children: vec![
            Array::Int64 { validity: None, values: vec![10, 20, 30] },
            Array::Boolean { validity: Some(vec![true, false, true]), values: vec![true, true, false] },
        ],
    };
    let t = LogicalType::Struct(vec![LogicalType::Int64, LogicalType::Boolean]);
    let (nodes, buffers) = encode_one(&a, None);
    let mut cursor = BatchCursor::new(nodes, buffers);
    let dicts = Dictionaries::new();
    let out = read(&mut cursor, &t, &dicts, true, None, None, Version::V5).unwrap();
    assert_eq!(out, a);
}

#[test]
fn dictionary_round_trip_and_missing_id() {
    let keys = Array::Dictionary {
        validity: None,
        keys: vec![0, 2, 1, 0],
        values: Box::new(Array::Int64 { validity: None, values: vec![100, 200, 300] }),
    };
    let t = LogicalType::Dictionary(7, Box::new(LogicalType::Int64));
    let (nodes, buffers) = encode_one(&keys, None);

    let mut dicts = Dictionaries::new();
    dicts.insert(7, Array::Int64 { validity: None, values: vec![100, 200, 300] });
    let mut cursor = BatchCursor::new(nodes.clone(), buffers.clone());
    let out = read(&mut cursor, &t, &dicts, true, None, None, Version::V5).unwrap();
    assert_eq!(out, keys);

    let empty = Dictionaries::new();
    let mut cursor = BatchCursor::new(nodes, buffers);
    let err = read(&mut cursor, &t, &empty, true, None, None, Version::V5).unwrap_err();
    assert_eq!(err, IpcError::DictionaryMissing { id: 7 });
}

#[test]
fn compression_passthrough_frames_round_trip() {
    let a = fsl3_column();
    let (nodes, buffers) = encode_one(&a, Some(Compression::Lz4));
    // every buffer now carries the all-ones passthrough prefix
    assert!(buffers.iter().all(|b| b.is_empty() || b[..8].iter().all(|x| *x == 0xFF)));
    let mut cursor = BatchCursor::new(nodes, buffers);
    let dicts = Dictionaries::new();
    let out =
        read(&mut cursor, &fsl3_dtype(), &dicts, true, Some(Compression::Lz4), None, Version::V5)
            .unwrap();
    assert_eq!(out, a);
}

#[test]
fn unknown_codec_frame_is_unsupported() {
    let a = Array::Int64 { validity: Some(vec![true, false]), values: vec![1, 2] };
    let (nodes, mut buffers) = encode_one(&a, Some(Compression::Zstd));
    // flip the frame prefix of the validity buffer to a real length marker
    buffers[0][0] = 0x02;
    let mut cursor = BatchCursor::new(nodes, buffers);
    let dicts = Dictionaries::new();
    let err = read(
        &mut cursor,
        &LogicalType::Int64,
        &dicts,
        true,
        Some(Compression::Zstd),
        None,
        Version::V5,
    )
    .unwrap_err();
    assert!(matches!(
        err,
        IpcError::UnsupportedFeature(UnsupportedKind::UnknownCodecFrame { .. })
    ));
}

#[test]
fn big_endian_values_are_corrected() {
    // one value, 0x0102030405060708, laid out big endian by hand
    let nodes = vec![FieldNode { length: 1, null_count: 0 }];
    let buffers = vec![Vec::new(), vec![1, 2, 3, 4, 5, 6, 7, 8]];
    let mut cursor = BatchCursor::new(nodes, buffers);
    let dicts = Dictionaries::new();
    let out =
        read(&mut cursor, &LogicalType::Int64, &dicts, false, None, None, Version::V5).unwrap();
    assert_eq!(
        out,
        Array::Int64 { validity: None, values: vec![0x0102030405060708] }
    );
}

#[test]
fn short_bitmap_is_corruption() {
    // nine rows with nulls need two bitmap bytes; give only one
    let nodes = vec![FieldNode { length: 9, null_count: 1 }];
    let buffers = vec![vec![0xFF], vec![0u8; 72]];
    let mut cursor = BatchCursor::new(nodes, buffers);
    let dicts = Dictionaries::new();
    let err =
        read(&mut cursor, &LogicalType::Int64, &dicts, true, None, None, Version::V5).unwrap_err();
    assert_eq!(err, IpcError::Corruption(CorruptionKind::ShortBitmap { buffer: 0 }));
}

#[test]
fn integrity_mismatch_on_inconsistent_child() {
    // the list node declares two rows of width two, but the child node
    // declares three values: three is not a multiple of two
    let nodes = vec![
        FieldNode { length: 2, null_count: 0 },
        FieldNode { length: 3, null_count: 0 },
    ];
    let buffers = vec![Vec::new(), Vec::new(), vec![0u8; 24]];
    let mut cursor = BatchCursor::new(nodes, buffers);
    let dicts = Dictionaries::new();
    let dtype = LogicalType::FixedSizeList(2, Box::new(LogicalType::Int64));
    let err = read(&mut cursor, &dtype, &dicts, true, None, None, Version::V5).unwrap_err();
    assert!(matches!(err, IpcError::IntegrityMismatch(_)));
}

#[test]
fn validity_absent_when_no_nulls_declared() {
    let a = Array::Int64 { validity: None, values: vec![1, 2] };
    let (nodes, buffers) = encode_one(&a, None);
    assert_eq!(nodes[0].null_count, 0);
    // the validity slot exists but is empty
    assert!(buffers[0].is_empty());
    let mut cursor = BatchCursor::new(nodes, buffers);
    let dicts = Dictionaries::new();
    let out = read(&mut cursor, &LogicalType::Int64, &dicts, true, None, None, Version::V5)
        .unwrap();
    assert_eq!(out, a);
}

#[test]
fn zero_width_skip_is_unsupported_too() {
    // skipping a zero-width fixed-size list is rejected just like decoding
    // one, even with both queues stocked
    let nodes = vec![
        FieldNode { length: 0, null_count: 0 },
        FieldNode { length: 0, null_count: 0 },
    ];
    let buffers = vec![Vec::new(), Vec::new(), Vec::new()];
    let mut cursor = BatchCursor::new(nodes, buffers);
    let dtype = LogicalType::FixedSizeList(0, Box::new(LogicalType::Int64));
    let err = skip(&mut cursor, &dtype).unwrap_err();
    assert_eq!(
        err,
        IpcError::UnsupportedFeature(UnsupportedKind::ZeroWidthFixedSizeList)
    );
}
