use aptos_tracer::{
    decode, locate_hex, locate_in_source, locate_zipped, to_line_col, ByteSpan, CodeMapping,
    FunctionSourceMap, LineIndex, NotFoundError, Position, Range, SourceMapTable,
};
use std::io::Write;

fn mapping(offset: u16, start: u32, end: u32) -> CodeMapping {
    CodeMapping { offset, span: ByteSpan { start, end } }
}

fn sample_table() -> SourceMapTable {
    SourceMapTable {
        functions: vec![
            FunctionSourceMap { fdef_idx: 0, code_map: vec![mapping(0, 0, 3), mapping(4, 9, 15)] },
            FunctionSourceMap { fdef_idx: 2, code_map: vec![mapping(1, 300, 70000)] },
        ],
    }
}

fn as_tuples(t: &SourceMapTable) -> Vec<(u16, Vec<(u16, u32, u32)>)> {
    t.functions
        .iter()
        .map(|f| {
            (f.fdef_idx, f.code_map.iter().map(|m| (m.offset, m.span.start, m.span.end)).collect())
        })
        .collect()
}

#[test]
fn encoding_matches_bcs() {
    let t = sample_table();
    assert_eq!(t.encode(), bcs::to_bytes(&as_tuples(&t)).unwrap());
    let empty = SourceMapTable { functions: vec![] };
    assert_eq!(empty.encode(), vec![0u8]);
}

#[test]
fn long_code_map_length_uses_two_bytes() {
    let code_map: Vec<CodeMapping> = (0..200u16).map(|i| mapping(i, i as u32, i as u32 + 1)).collect();
    let t = SourceMapTable { functions: vec![FunctionSourceMap { fdef_idx: 9, code_map }] };
    let bytes = t.encode();
    assert_eq!(&bytes[..5], &[1u8, 9, 0, 0xc8, 0x01]);
    assert_eq!(bytes, bcs::to_bytes(&as_tuples(&t)).unwrap());
    assert_eq!(decode(&bytes).unwrap(), t);
}

#[test]
fn decode_then_encode_round_trips() {
    let bytes = bcs::to_bytes(&as_tuples(&sample_table())).unwrap();
    let t = decode(&bytes).unwrap();
    assert_eq!(t, sample_table());
    assert_eq!(t.encode(), bytes);
    assert_eq!(decode(&t.encode()).unwrap(), t);
}

#[test]
fn decode_rejects_malformed_bytes() {
    let bytes = sample_table().encode();
    let mut trailing = bytes.clone();
    trailing.push(0);
    assert!(decode(&trailing).is_err());
    assert!(decode(&bytes[..bytes.len() - 1]).is_err());
    assert!(decode(&[]).is_err());
    // a length written with a needless zero byte
    assert!(decode(&[0x80, 0x00]).is_err());
    // a length over the largest admitted one
    assert!(decode(&[0xff, 0xff, 0xff, 0xff, 0x0f]).is_err());
    assert_eq!(decode(&[0]).unwrap(), SourceMapTable { functions: vec![] });
}

#[test]
fn locate_finds_exact_offsets_only() {
    let t = sample_table();
    assert_eq!(t.locate(0, 4), Ok(ByteSpan { start: 9, end: 15 }));
    assert_eq!(t.locate(2, 1), Ok(ByteSpan { start: 300, end: 70000 }));
    assert_eq!(t.locate(0, 3), Err(NotFoundError::Offset));
    assert_eq!(t.locate(1, 0), Err(NotFoundError::Function));
}

#[test]
fn line_and_column_of_offsets() {
    let text = "module m {\n  fun f() {}\n}\n";
    let index = LineIndex::new(text);
    assert_eq!(index.location(text, 0), Some(Position { line: 0, column: 0 }));
    assert_eq!(index.location(text, 13), Some(Position { line: 1, column: 2 }));
    assert_eq!(index.location(text, 11), Some(Position { line: 1, column: 0 }));
    assert_eq!(index.location(text, 26), Some(Position { line: 3, column: 0 }));
    assert_eq!(index.location(text, 27), None);
    let range = to_line_col(&index, text, ByteSpan { start: 13, end: 23 }).unwrap();
    assert_eq!(range, Range { start: Position { line: 1, column: 2 }, end: Position { line: 1, column: 12 } });
    assert!(range.start.line <= range.end.line);
}

#[test]
fn columns_count_characters() {
    let text = "héllo\nwörld";
    let index = LineIndex::new(text);
    assert_eq!(index.location(text, 3), Some(Position { line: 0, column: 2 }));
    assert_eq!(index.location(text, 2), None);
    assert_eq!(index.location(text, 10), Some(Position { line: 1, column: 2 }));
    let mut files = codespan::Files::new();
    let id = files.add("m", text.to_string());
    for i in [0u32, 1, 3, 4, 5] {
        let expected = files.location(id, i).unwrap();
        let got = index.location(text, i as usize).unwrap();
        assert_eq!((got.line, got.column), (expected.line.0, expected.column.0));
    }
}

#[test]
fn locate_in_source_chains_the_steps() {
    let text = "module m {\n  fun f() {}\n}\n";
    let raw = sample_table().encode();
    let r = locate_in_source(&raw, text, 0, 4).unwrap();
    assert_eq!(r.start, Position { line: 0, column: 9 });
    assert_eq!(r.end, Position { line: 1, column: 4 });
    assert!(locate_in_source(&raw, text, 2, 1).is_none());
    assert!(locate_in_source(&raw, text, 0, 7).is_none());
    assert!(locate_in_source(&[1, 2, 3], text, 0, 4).is_none());
}

#[test]
fn locate_hex_with_and_without_prefix() {
    let text = "module m {\n  fun f() {}\n}\n";
    let hex = hex::encode(sample_table().encode());
    let with_prefix = format!("0x{}", hex);
    let a = locate_hex(&hex, text, 0, 0).unwrap();
    let b = locate_hex(&with_prefix, text, 0, 0).unwrap();
    assert_eq!(a, b);
    assert_eq!(a.end, Position { line: 0, column: 3 });
    assert!(locate_hex(&with_prefix, "", 0, 0).is_none());
    assert!(locate_hex("", text, 0, 0).is_none());
    assert!(locate_hex("0xzz", text, 0, 0).is_none());
    assert!(locate_hex("0x0", text, 0, 0).is_none());
}

fn gzip(bytes: &[u8]) -> Vec<u8> {
    let mut enc = flate2::write::GzEncoder::new(Vec::new(), flate2::Compression::default());
    enc.write_all(bytes).unwrap();
    enc.finish().unwrap()
}

#[test]
fn locate_zipped_decompresses_first() {
    let text = "module m {\n  fun f() {}\n}\n";
    let map = gzip(&sample_table().encode());
    let source = gzip(text.as_bytes());
    let r = locate_zipped(&map, &source, 0, 4).unwrap();
    assert_eq!(r.start, Position { line: 0, column: 9 });
    assert!(locate_zipped(&map, &[], 0, 4).is_none());
    assert!(locate_zipped(&sample_table().encode(), &source, 0, 4).is_none());
    assert!(locate_zipped(&map, &gzip(&[0xff, 0xfe]), 0, 4).is_none());
}
