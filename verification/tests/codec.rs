//! Byte-level tests of the codec layer: varints, strings, type strings,
//! blocks, and the compressed wrapper.
use clickhouse_srv::binary::read_string;
use clickhouse_srv::binary::read_u32;
use clickhouse_srv::binary::read_uvarint;
use clickhouse_srv::binary::Encoder;
use clickhouse_srv::block::Block;
use clickhouse_srv::block::BlockInfo;
use clickhouse_srv::block::Column;
use clickhouse_srv::column::ColumnData;
use clickhouse_srv::column::ColumnType;
use clickhouse_srv::column::DataList;
use clickhouse_srv::column::TypeList;
use clickhouse_srv::errors::DriverError;
use clickhouse_srv::errors::Error;

#[test]
fn it_works() {
    assert_eq!(2 + 2, 4);
}

#[test]
fn varint_round_trip() {
    let mut enc = Encoder::new();
    enc.uvarint(150);
    let bytes = enc.get_buffer();
    assert_eq!(bytes, vec![0x96, 0x01]);
    let (v, np) = read_uvarint(&bytes, 0).unwrap();
    assert_eq!(v, 150);
    assert_eq!(np, 2);

    let mut enc = Encoder::new();
    enc.uvarint(u64::MAX);
    let bytes = enc.get_buffer();
    assert_eq!(bytes.len(), 10);
    let (v, np) = read_uvarint(&bytes, 0).unwrap();
    assert_eq!(v, u64::MAX);
    assert_eq!(np, 10);
}

#[test]
fn varint_incomplete_is_would_block() {
    let bytes = vec![0x80u8];
    match read_uvarint(&bytes, 0) {
        Err(Error::WouldBlock) => {}
        other => panic!("expected WouldBlock, got {:?}", other),
    }
}

#[test]
fn varint_overflow_is_rejected() {
    let bytes = vec![0xffu8; 11];
    match read_uvarint(&bytes, 0) {
        Err(Error::Driver(DriverError::Overflow)) => {}
        other => panic!("expected Overflow, got {:?}", other),
    }
}

#[test]
fn string_round_trip() {
    let mut enc = Encoder::new();
    enc.string(&b"hello".to_vec());
    let bytes = enc.get_buffer();
    assert_eq!(bytes, vec![5, b'h', b'e', b'l', b'l', b'o']);
    let (s, np) = read_string(&bytes, 0).unwrap();
    assert_eq!(s, b"hello".to_vec());
    assert_eq!(np, 6);
}

#[test]
fn scalar_round_trip() {
    let mut enc = Encoder::new();
    enc.write_u32(0xdeadbeef);
    let bytes = enc.get_buffer();
    assert_eq!(bytes, vec![0xef, 0xbe, 0xad, 0xde]);
    let (v, _) = read_u32(&bytes, 0).unwrap();
    assert_eq!(v, 0xdeadbeef);
}

#[test]
fn type_strings_round_trip() {
    let cases: Vec<ColumnType> = vec![
        ColumnType::UInt8,
        ColumnType::UInt64,
        ColumnType::Int32,
        ColumnType::Float64,
        ColumnType::Str,
        ColumnType::FixedStr(8),
        ColumnType::Date,
        ColumnType::DateTime(None),
        ColumnType::DateTime(Some(b"UTC".to_vec())),
        ColumnType::DateTime64(3, None),
        ColumnType::DateTime64(6, Some(b"UTC".to_vec())),
        ColumnType::Decimal(9, 2),
        ColumnType::Decimal(18, 4),
        ColumnType::Decimal(38, 10),
        ColumnType::Nullable(Box::new(ColumnType::Str)),
        ColumnType::Array(Box::new(ColumnType::Nullable(Box::new(ColumnType::UInt32)))),
        ColumnType::LowCardinality(Box::new(ColumnType::Str)),
        ColumnType::Tuple(Box::new(TypeList::Cons(
            Box::new(ColumnType::UInt8),
            Box::new(TypeList::Cons(
                Box::new(ColumnType::Str),
                Box::new(TypeList::Last(Box::new(ColumnType::Array(Box::new(
                    ColumnType::UInt32,
                ))))),
            )),
        ))),
        ColumnType::Tuple(Box::new(TypeList::Last(Box::new(ColumnType::Tuple(
            Box::new(TypeList::Cons(
                Box::new(ColumnType::Date),
                Box::new(TypeList::Last(Box::new(ColumnType::DateTime(Some(
                    b"UTC".to_vec(),
                ))))),
            )),
        ))))),
        ColumnType::Enum8(vec![(b"a".to_vec(), 1), (b"b".to_vec(), 2)]),
        ColumnType::Enum16(vec![(b"low".to_vec(), -5), (b"high".to_vec(), 300)]),
    ];
    let expected_names: Vec<&[u8]> = vec![
        b"UInt8",
        b"UInt64",
        b"Int32",
        b"Float64",
        b"String",
        b"FixedString(8)",
        b"Date",
        b"DateTime",
        b"DateTime('UTC')",
        b"DateTime64(3)",
        b"DateTime64(6, 'UTC')",
        b"Decimal(9, 2)",
        b"Decimal(18, 4)",
        b"Decimal(38, 10)",
        b"Nullable(String)",
        b"Array(Nullable(UInt32))",
        b"LowCardinality(String)",
        b"Tuple(UInt8, String, Array(UInt32))",
        b"Tuple(Tuple(Date, DateTime('UTC')))",
        b"Enum8('a' = 1, 'b' = 2)",
        b"Enum16('low' = -5, 'high' = 300)",
    ];
    for (t, want) in cases.iter().zip(expected_names.iter()) {
        let name = t.wire_name();
        assert_eq!(&name[..], *want);
        let parsed = ColumnType::parse(&name, 0, name.len()).expect("type should parse");
        assert_eq!(parsed.wire_name(), name);
    }
}

#[test]
fn unknown_type_string_is_rejected() {
    let name = b"Foo".to_vec();
    assert!(ColumnType::parse(&name, 0, name.len()).is_none());
    let zero_width = b"FixedString(0)".to_vec();
    assert!(ColumnType::parse(&zero_width, 0, zero_width.len()).is_none());
    let too_wide = b"Decimal(39, 2)".to_vec();
    assert!(ColumnType::parse(&too_wide, 0, too_wide.len()).is_none());
    let no_space = b"Decimal(9,2)".to_vec();
    assert!(ColumnType::parse(&no_space, 0, no_space.len()).is_none());
    let scale_over = b"Decimal(2, 9)".to_vec();
    assert!(ColumnType::parse(&scale_over, 0, scale_over.len()).is_none());
    let over_precise = b"DateTime64(10)".to_vec();
    assert!(ColumnType::parse(&over_precise, 0, over_precise.len()).is_none());
    let out_of_range = b"Enum8('a' = 200)".to_vec();
    assert!(ColumnType::parse(&out_of_range, 0, out_of_range.len()).is_none());
    let unquoted = b"Enum8(a = 1)".to_vec();
    assert!(ColumnType::parse(&unquoted, 0, unquoted.len()).is_none());
    let empty_enum = b"Enum8()".to_vec();
    assert!(ColumnType::parse(&empty_enum, 0, empty_enum.len()).is_none());
    let bad_tuple = b"Tuple(UInt8, )".to_vec();
    assert!(ColumnType::parse(&bad_tuple, 0, bad_tuple.len()).is_none());
    let unbalanced = b"Tuple(Array(UInt8, UInt8)".to_vec();
    assert!(ColumnType::parse(&unbalanced, 0, unbalanced.len()).is_none());
}

fn sample_block() -> Block {
    Block::new()
        .column(b"u8".to_vec(), ColumnData::UInt8(vec![1, 2, 3]))
        .column(b"u64".to_vec(), ColumnData::UInt64(vec![10, 0, u64::MAX]))
        .column(b"i32".to_vec(), ColumnData::Int32(vec![-1, 0, 7]))
        .column(
            b"f64".to_vec(),
            ColumnData::Float64(vec![
                f64::to_bits(1.5),
                f64::to_bits(-0.25),
                f64::to_bits(0.0),
            ]),
        )
        .column(
            b"s".to_vec(),
            ColumnData::Str(vec![b"a".to_vec(), b"".to_vec(), b"xyz".to_vec()]),
        )
        .column(
            b"fs".to_vec(),
            ColumnData::FixedStr(2, vec![b"ab".to_vec(), b"cd".to_vec(), b"ef".to_vec()]),
        )
        .column(b"d".to_vec(), ColumnData::Date(vec![0, 1, 20000]))
        .column(
            b"dt".to_vec(),
            ColumnData::DateTime(Some(b"UTC".to_vec()), vec![0, 1600000000, 42]),
        )
        .column(
            b"dt64".to_vec(),
            ColumnData::DateTime64(3, Some(b"UTC".to_vec()), vec![0, 1600000000000, -5]),
        )
        .column(b"dec32".to_vec(), ColumnData::Decimal(9, 2, vec![12345, -12345, 0]))
        .column(b"dec64".to_vec(), ColumnData::Decimal(18, 4, vec![1 << 40, -(1 << 40), 7]))
        .column(
            b"dec128".to_vec(),
            ColumnData::Decimal(38, 10, vec![i128::MAX, i128::MIN, -1]),
        )
        .column(
            b"n".to_vec(),
            ColumnData::Nullable(vec![0, 1, 0], Box::new(ColumnData::UInt16(vec![7, 0, 9]))),
        )
        .column(
            b"tup".to_vec(),
            ColumnData::Tuple(Box::new(DataList::Cons(
                Box::new(ColumnData::UInt8(vec![1, 2, 3])),
                Box::new(DataList::Last(Box::new(ColumnData::Str(vec![
                    b"x".to_vec(),
                    b"y".to_vec(),
                    b"z".to_vec(),
                ])))),
            ))),
        )
        .column(
            b"e8".to_vec(),
            ColumnData::Enum8(vec![(b"a".to_vec(), 1), (b"b".to_vec(), 2)], vec![1, 2, 1]),
        )
        .column(
            b"e16".to_vec(),
            ColumnData::Enum16(vec![(b"low".to_vec(), -5)], vec![-5, -5, -5]),
        )
        .column(
            b"lc".to_vec(),
            ColumnData::LowCardinality(
                Box::new(ColumnData::Str(vec![b"x".to_vec(), b"y".to_vec()])),
                vec![0, 1, 1],
            ),
        )
        .column(
            b"arr".to_vec(),
            ColumnData::Array(
                vec![2, 2, 5],
                Box::new(ColumnData::Str(vec![
                    b"p".to_vec(),
                    b"q".to_vec(),
                    b"r".to_vec(),
                    b"s".to_vec(),
                    b"t".to_vec(),
                ])),
            ),
        )
}

fn assert_blocks_equal(a: &Block, b: &Block) {
    assert_eq!(a.info, b.info);
    assert_eq!(a.columns.len(), b.columns.len());
    for (ca, cb) in a.columns.iter().zip(b.columns.iter()) {
        assert_eq!(ca.name, cb.name);
        assert_data_equal(&ca.data, &cb.data);
    }
}

fn assert_lists_equal(a: &DataList, b: &DataList) {
    match (a, b) {
        (DataList::Last(x), DataList::Last(y)) => assert_data_equal(x, y),
        (DataList::Cons(x, xs), DataList::Cons(y, ys)) => {
            assert_data_equal(x, y);
            assert_lists_equal(xs, ys);
        }
        _ => panic!("tuple arities differ"),
    }
}

fn assert_data_equal(a: &ColumnData, b: &ColumnData) {
    match (a, b) {
        (ColumnData::UInt8(x), ColumnData::UInt8(y)) => assert_eq!(x, y),
        (ColumnData::UInt16(x), ColumnData::UInt16(y)) => assert_eq!(x, y),
        (ColumnData::UInt32(x), ColumnData::UInt32(y)) => assert_eq!(x, y),
        (ColumnData::UInt64(x), ColumnData::UInt64(y)) => assert_eq!(x, y),
        (ColumnData::Int8(x), ColumnData::Int8(y)) => assert_eq!(x, y),
        (ColumnData::Int16(x), ColumnData::Int16(y)) => assert_eq!(x, y),
        (ColumnData::Int32(x), ColumnData::Int32(y)) => assert_eq!(x, y),
        (ColumnData::Int64(x), ColumnData::Int64(y)) => assert_eq!(x, y),
        (ColumnData::Float32(x), ColumnData::Float32(y)) => assert_eq!(x, y),
        (ColumnData::Float64(x), ColumnData::Float64(y)) => assert_eq!(x, y),
        (ColumnData::Str(x), ColumnData::Str(y)) => assert_eq!(x, y),
        (ColumnData::FixedStr(n, x), ColumnData::FixedStr(m, y)) => {
            assert_eq!(n, m);
            assert_eq!(x, y);
        }
        (ColumnData::Date(x), ColumnData::Date(y)) => assert_eq!(x, y),
        (ColumnData::DateTime64(p1, tz1, x), ColumnData::DateTime64(p2, tz2, y)) => {
            assert_eq!((p1, tz1), (p2, tz2));
            assert_eq!(x, y);
        }
        (ColumnData::Decimal(p1, s1, x), ColumnData::Decimal(p2, s2, y)) => {
            assert_eq!((p1, s1), (p2, s2));
            assert_eq!(x, y);
        }
        (ColumnData::DateTime(tz1, x), ColumnData::DateTime(tz2, y)) => {
            assert_eq!(tz1, tz2);
            assert_eq!(x, y);
        }
        (ColumnData::Nullable(f1, i1), ColumnData::Nullable(f2, i2)) => {
            assert_eq!(f1, f2);
            assert_data_equal(i1, i2);
        }
        (ColumnData::Array(o1, i1), ColumnData::Array(o2, i2)) => {
            assert_eq!(o1, o2);
            assert_data_equal(i1, i2);
        }
        (ColumnData::Tuple(l1), ColumnData::Tuple(l2)) => assert_lists_equal(l1, l2),
        (ColumnData::Enum8(e1, x), ColumnData::Enum8(e2, y)) => {
            assert_eq!(e1, e2);
            assert_eq!(x, y);
        }
        (ColumnData::Enum16(e1, x), ColumnData::Enum16(e2, y)) => {
            assert_eq!(e1, e2);
            assert_eq!(x, y);
        }
        (ColumnData::LowCardinality(d1, k1), ColumnData::LowCardinality(d2, k2)) => {
            assert_eq!(k1, k2);
            assert_data_equal(d1, d2);
        }
        _ => panic!("column data variants differ"),
    }
}

#[test]
fn block_round_trip_uncompressed() {
    let block = sample_block();
    let mut enc = Encoder::new();
    block.encode(&mut enc);
    let bytes = enc.get_buffer();
    let (decoded, consumed) = Block::decode(&bytes, 0).unwrap();
    assert_eq!(consumed, bytes.len());
    assert_blocks_equal(&block, &decoded);
}

#[test]
fn block_round_trip_compressed() {
    let block = sample_block();
    let mut enc = Encoder::new();
    block.write_compressed(&mut enc).unwrap();
    let bytes = enc.get_buffer();
    let (decoded, consumed) = Block::decode_compressed(&bytes, 0).unwrap();
    assert_eq!(consumed, bytes.len());
    assert_blocks_equal(&block, &decoded);
}

#[test]
fn corrupt_checksum_is_rejected() {
    let block = sample_block();
    let mut enc = Encoder::new();
    block.write_compressed(&mut enc).unwrap();
    let mut bytes = enc.get_buffer();
    bytes[0] ^= 0x01;
    match Block::decode_compressed(&bytes, 0) {
        Err(Error::Driver(DriverError::BadChecksum)) => {}
        other => panic!("expected BadChecksum, got {:?}", other),
    }
}

#[test]
fn bad_compression_method_is_rejected() {
    let block = sample_block();
    let mut enc = Encoder::new();
    block.write_compressed(&mut enc).unwrap();
    let mut bytes = enc.get_buffer();
    bytes[16] = 0x40;
    match Block::decode_compressed(&bytes, 0) {
        Err(Error::Driver(DriverError::BadCompressionMethod)) => {}
        other => panic!("expected BadCompressionMethod, got {:?}", other),
    }
}

#[test]
fn decreasing_array_offsets_are_rejected() {
    // The encoder writes whatever offsets it is given; the decoder must
    // reject offsets that do not grow monotonically.
    let bad = Block {
        info: BlockInfo::fresh(),
        columns: vec![Column {
            name: b"a".to_vec(),
            data: ColumnData::Array(
                vec![2, 1],
                Box::new(ColumnData::UInt8(vec![1, 2])),
            ),
        }],
    };
    let mut enc = Encoder::new();
    enc.uvarint(1);
    enc.write_bool(false);
    enc.uvarint(2);
    enc.write_i32(-1);
    enc.uvarint(0);
    enc.uvarint(1);
    enc.uvarint(2);
    bad.columns[0].encode(&mut enc);
    let bytes = enc.get_buffer();
    match Block::decode(&bytes, 0) {
        Err(Error::Driver(DriverError::BadFrame)) => {}
        other => panic!("expected BadFrame, got {:?}", other),
    }
}

#[test]
fn bad_type_name_is_rejected() {
    let mut enc = Encoder::new();
    enc.uvarint(1);
    enc.write_bool(false);
    enc.uvarint(2);
    enc.write_i32(-1);
    enc.uvarint(0);
    enc.uvarint(1);
    enc.uvarint(0);
    enc.string(&b"c".to_vec());
    enc.string(&b"NotAType".to_vec());
    let bytes = enc.get_buffer();
    match Block::decode(&bytes, 0) {
        Err(Error::Driver(DriverError::BadTypeName)) => {}
        other => panic!("expected BadTypeName, got {:?}", other),
    }
}

#[test]
fn truncated_block_is_would_block() {
    let block = sample_block();
    let mut enc = Encoder::new();
    block.encode(&mut enc);
    let mut bytes = enc.get_buffer();
    bytes.truncate(bytes.len() - 1);
    match Block::decode(&bytes, 0) {
        Err(Error::WouldBlock) => {}
        other => panic!("expected WouldBlock, got {:?}", other),
    }
}
