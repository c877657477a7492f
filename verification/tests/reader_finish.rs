use columnar_ipc::arrays::{Array, Dictionaries};
use columnar_ipc::buffers::Compression;
use columnar_ipc::decode::Version;
use columnar_ipc::dtypes::{Field, LogicalType};
use columnar_ipc::encode::encode_array;
use columnar_ipc::errors::IpcError;
use columnar_ipc::reader::{
    ColumnData, Diagnostic, EncodedBatch, IpcFile, IpcReader, IpcScanOptions, IpcSource, RowIndex,
    SourceKind,
};

fn sample_file(compression: Option<Compression>) -> IpcFile {
    // two columns: "a" of integers, "b" of booleans; one batch of three rows
    let col_a = Array::Int64 { validity: None, values: vec![1, 2, 3] };
    let col_b = Array::Boolean { validity: None, values: vec![true, false, true] };
    let mut nodes = Vec::new();
    let mut buffers = Vec::new();
    encode_array(&col_a, compression, &mut nodes, &mut buffers).unwrap();
    encode_array(&col_b, compression, &mut nodes, &mut buffers).unwrap();
    IpcFile {
        schema: vec![
            Field { name: "a".into(), dtype: LogicalType::Int64 },
            Field { name: "b".into(), dtype: LogicalType::Boolean },
        ],
        custom_schema_metadata: Some(vec![("origin".into(), "unit".into())]),
        batches: vec![EncodedBatch { height: 3, nodes, buffers }],
        dictionaries: Dictionaries::new(),
        compression,
        is_little_endian: true,
        version: Version::V5,
    }
}

fn reader(compression: Option<Compression>, kind: SourceKind) -> IpcReader {
    IpcReader::new(IpcSource { file: sample_file(compression), kind })
}

fn int_chunk(c: &ColumnData) -> Vec<i64> {
    match c {
        ColumnData::Chunks(chunks) => match &chunks[0] {
            Array::Int64 { values, .. } => values.clone(),
            _ => panic!("not an integer chunk"),
        },
        _ => panic!("not a chunked column"),
    }
}

#[test]
fn finish_decodes_all_columns() {
    let out = reader(None, SourceKind::Stream).finish().unwrap();
    assert_eq!(out.df.height, 3);
    assert_eq!(out.df.columns.len(), 2);
    assert_eq!(out.df.columns[0].name, "a");
    assert_eq!(out.df.columns[1].name, "b");
    assert_eq!(int_chunk(&out.df.columns[0].data), vec![1, 2, 3]);
    assert!(out.diagnostics.is_empty());
}

#[test]
fn compressed_memory_map_falls_back_with_one_diagnostic() {
    // memory-mapped read of a block-compressed file: the strategy degrades
    // to streaming and the frame is still correct
    let mapped = reader(Some(Compression::Lz4), SourceKind::File)
        .memory_mapped(Some("data.ipc".into()))
        .finish()
        .unwrap();
    let streamed = reader(Some(Compression::Lz4), SourceKind::File).finish().unwrap();
    assert_eq!(mapped.diagnostics, vec![Diagnostic::MemoryMapCompressedFallback]);
    assert!(streamed.diagnostics.is_empty());
    assert_eq!(mapped.df, streamed.df);
}

#[test]
fn uncompressed_memory_map_needs_a_real_file() {
    let on_file = reader(None, SourceKind::File)
        .memory_mapped(Some("data.ipc".into()))
        .finish()
        .unwrap();
    assert!(on_file.diagnostics.is_empty());
    let on_stream = reader(None, SourceKind::Stream)
        .memory_mapped(Some("data.ipc".into()))
        .finish()
        .unwrap();
    assert_eq!(on_file.df, on_stream.df);
}

#[test]
fn empty_projection_short_circuits_to_height_only() {
    let out = reader(None, SourceKind::Stream)
        .with_projection(Some(vec![]))
        .with_row_index(Some(RowIndex { name: "idx".into(), offset: 10 }))
        .finish()
        .unwrap();
    assert_eq!(out.df.height, 3);
    assert_eq!(out.df.columns.len(), 1);
    assert_eq!(out.df.columns[0].name, "idx");
    assert_eq!(int_chunk(&out.df.columns[0].data), vec![10, 11, 12]);
}

#[test]
fn name_projection_resolves_and_reorders() {
    let out = reader(None, SourceKind::Stream)
        .with_columns(Some(vec!["b".into(), "a".into()]))
        .finish()
        .unwrap();
    assert_eq!(out.df.columns.len(), 2);
    assert_eq!(out.df.columns[0].name, "b");
    assert_eq!(out.df.columns[1].name, "a");

    let err = reader(None, SourceKind::Stream)
        .with_columns(Some(vec!["c".into()]))
        .finish()
        .unwrap_err();
    assert_eq!(err, IpcError::ColumnNotFound { name: "c".into() });
}

#[test]
fn position_projection_skips_unwanted_columns() {
    let out = reader(None, SourceKind::Stream)
        .with_projection(Some(vec![1]))
        .finish()
        .unwrap();
    assert_eq!(out.df.columns.len(), 1);
    assert_eq!(out.df.columns[0].name, "b");

    let err = reader(None, SourceKind::Stream)
        .with_projection(Some(vec![5]))
        .finish()
        .unwrap_err();
    assert_eq!(err, IpcError::ProjectionOutOfBounds { index: 5, width: 2 });
}

#[test]
fn n_rows_caps_the_decode() {
    let out = reader(None, SourceKind::Stream).with_n_rows(Some(2)).finish().unwrap();
    assert_eq!(out.df.height, 2);
    assert_eq!(int_chunk(&out.df.columns[0].data), vec![1, 2]);
}

#[test]
fn injections_append_in_order() {
    let hive = Array::Int64 { validity: None, values: vec![7, 7, 7] };
    let out = reader(None, SourceKind::Stream)
        .with_row_index(Some(RowIndex { name: "idx".into(), offset: 0 }))
        .with_hive_partition_columns(Some(vec![("part".into(), hive)]))
        .with_include_file_path(Some(("path".into(), "data/file.ipc".into())))
        .finish()
        .unwrap();
    let names: Vec<&str> = out.df.columns.iter().map(|c| c.name.as_str()).collect();
    assert_eq!(names, vec!["idx", "a", "b", "part", "path"]);
    match &out.df.columns[4].data {
        ColumnData::StrScalar(s) => assert_eq!(s, "data/file.ipc"),
        _ => panic!("file path column must be a string scalar"),
    }
}

#[test]
fn row_index_overflow_is_reported() {
    let err = reader(None, SourceKind::Stream)
        .with_row_index(Some(RowIndex { name: "idx".into(), offset: u32::MAX }))
        .finish()
        .unwrap_err();
    assert_eq!(err, IpcError::RowIndexOverflow { height: 3, offset: u32::MAX });
}

#[test]
fn schema_and_custom_metadata_are_cached_clones() {
    let mut r = reader(None, SourceKind::Stream);
    let schema = r.schema().unwrap();
    assert_eq!(schema.len(), 2);
    assert_eq!(schema[0].name, "a");
    let meta = r.custom_metadata().unwrap().unwrap();
    assert_eq!(meta, vec![("origin".to_string(), "unit".to_string())]);
    // the cache flag is set after the first read
    assert!(r.metadata_read);
}

#[test]
fn finish_with_scan_ops_reports_the_strategy() {
    let out = reader(None, SourceKind::File)
        .memory_mapped(Some("data.ipc".into()))
        .finish_with_scan_ops(true)
        .unwrap();
    assert_eq!(out.diagnostics, vec![Diagnostic::MemoryMapAttempted]);
    assert_eq!(out.df.height, 3);
    let quiet = reader(None, SourceKind::File)
        .memory_mapped(Some("data.ipc".into()))
        .finish_with_scan_ops(false)
        .unwrap();
    assert!(quiet.diagnostics.is_empty());
}

#[test]
fn scan_options_default() {
    assert_eq!(IpcScanOptions::default(), IpcScanOptions);
}

#[test]
fn multi_batch_heights_accumulate() {
    let col = Array::Int64 { validity: None, values: vec![1, 2] };
    let mut file = sample_file(None);
    let mut nodes = Vec::new();
    let mut buffers = Vec::new();
    let col_b = Array::Boolean { validity: None, values: vec![false, false] };
    encode_array(&col, None, &mut nodes, &mut buffers).unwrap();
    encode_array(&col_b, None, &mut nodes, &mut buffers).unwrap();
    file.batches.push(EncodedBatch { height: 2, nodes, buffers });
    let out = IpcReader::new(IpcSource { file, kind: SourceKind::Stream }).finish().unwrap();
    assert_eq!(out.df.height, 5);
    match &out.df.columns[0].data {
        ColumnData::Chunks(chunks) => assert_eq!(chunks.len(), 2),
        _ => panic!("expected chunks"),
    }
}
