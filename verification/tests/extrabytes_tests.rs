use extrabytes::error::Error;
use extrabytes::raw::extrabytes::read_extra;
use extrabytes::raw::extrabytes::value_to_type;
use extrabytes::raw::extrabytes::DimensionValue;
use extrabytes::raw::extrabytes::ExtraBytesParser;
use extrabytes::raw::extrabytes::ExtraDimTypes;
use extrabytes::raw::extrabytes::RawExtraByteStruct;
use extrabytes::vlr::Vlr;

/// Builds the 192 fixed bytes of one descriptor: a type code and a
/// zero-terminated name, everything else zero.
fn descriptor_bytes(name: &str, type_code: u8) -> Vec<u8> {
    let mut b = vec![0u8; 192];
    b[2] = type_code;
    for (i, c) in name.bytes().enumerate() {
        assert!(i < 32);
        b[4 + i] = c;
    }
    b
}

fn schema_payload(dims: &[(&str, u8)]) -> Vec<u8> {
    let mut payload = Vec::new();
    for (name, code) in dims {
        payload.extend_from_slice(&descriptor_bytes(name, *code));
    }
    payload
}

fn parser_for(dims: &[(&str, u8)]) -> ExtraBytesParser {
    let vlrs = vec![Vlr { record_id: 4, data: schema_payload(dims) }];
    ExtraBytesParser::from_vlrs(&vlrs).expect("schema record present")
}

#[test]
fn truncated_decode_always_fails() {
    // A blob shorter than offset + width fails with TruncatedBuffer for
    // every primitive type and never reads out of bounds.
    let blob = vec![1u8, 2, 3, 4, 5];
    let cases: &[(ExtraDimTypes, usize)] = &[
        (ExtraDimTypes::U8, 1),
        (ExtraDimTypes::I8, 1),
        (ExtraDimTypes::U16, 2),
        (ExtraDimTypes::I16, 2),
        (ExtraDimTypes::U32, 4),
        (ExtraDimTypes::I32, 4),
        (ExtraDimTypes::U64, 8),
        (ExtraDimTypes::I64, 8),
        (ExtraDimTypes::F32, 4),
        (ExtraDimTypes::F64, 8),
        (ExtraDimTypes::A2U8, 2),
    ];
    for &(t, read_width) in cases {
        for offset in 0..20usize {
            let r = read_extra(&blob, offset, t);
            if offset + read_width <= blob.len() {
                assert!(r.is_ok(), "{:?} at {} should decode", t, offset);
            } else {
                assert_eq!(r, Err(Error::TruncatedBuffer), "{:?} at {}", t, offset);
            }
        }
    }
}

#[test]
fn resolve_sums_preceding_widths() {
    // [A:U16, B:F64, C:U8] resolves to offsets 0, 2 and 10.
    let parser = parser_for(&[("A", 3), ("B", 10), ("C", 1)]);
    assert_eq!(parser.offset_of_dim("A").unwrap(), (Some(0), 0));
    assert_eq!(parser.offset_of_dim("B").unwrap(), (Some(1), 2));
    assert_eq!(parser.offset_of_dim("C").unwrap(), (Some(2), 10));
}

#[test]
fn descriptor_round_trip() {
    // Encoding a descriptor's 192 fixed bytes and decoding them reproduces
    // the name and the primitive type exactly.
    let mut bytes = descriptor_bytes("Intensity2", 5);
    // Put recognizable values in the uninterpreted blocks too.
    for (i, b) in bytes.iter_mut().enumerate().skip(36) {
        *b = (i % 251) as u8;
    }
    let dec = RawExtraByteStruct::read_from(&bytes).unwrap();
    let encoded = dec.to_bytes();
    assert_eq!(encoded, bytes);
    let again = RawExtraByteStruct::read_from(&encoded).unwrap();
    assert_eq!(again.name().unwrap(), b"Intensity2".to_vec());
    assert!(matches!(again.data_type(), ExtraDimTypes::U32));
}

#[test]
fn short_descriptor_is_malformed() {
    let bytes = vec![0u8; 191];
    assert_eq!(
        RawExtraByteStruct::read_from(&bytes),
        Err(Error::MalformedDescriptor)
    );
}

#[test]
fn no_matching_vlr_is_empty_result() {
    // Zero matching side records yield the empty-schema result, not an error.
    assert!(ExtraBytesParser::from_vlrs(&Vec::new()).is_none());
    let vlrs = vec![
        Vlr { record_id: 1, data: vec![0u8; 192] },
        Vlr { record_id: 7, data: vec![0u8; 384] },
    ];
    assert!(ExtraBytesParser::from_vlrs(&vlrs).is_none());
}

#[test]
fn empty_payload_gives_empty_schema() {
    let vlrs = vec![Vlr { record_id: 4, data: Vec::new() }];
    let parser = ExtraBytesParser::from_vlrs(&vlrs).expect("record present");
    assert_eq!(parser.ebss.len(), 0);
}

#[test]
fn last_matching_vlr_wins() {
    // Two records with identifier 4: the second one's schema is used.
    let vlrs = vec![
        Vlr { record_id: 4, data: schema_payload(&[("First", 1)]) },
        Vlr { record_id: 4, data: schema_payload(&[("Second", 5)]) },
    ];
    let parser = ExtraBytesParser::from_vlrs(&vlrs).expect("records present");
    assert_eq!(parser.ebss.len(), 1);
    assert_eq!(parser.ebss[0].name().unwrap(), b"Second".to_vec());
    assert!(matches!(parser.ebss[0].data_type(), ExtraDimTypes::U32));
    assert_eq!(parser.offset_of_dim("First").unwrap(), (None, 4));
    assert_eq!(parser.offset_of_dim("Second").unwrap(), (Some(0), 0));
}

#[test]
fn trailing_bytes_are_ignored() {
    // A payload of 192*2 + 50 bytes yields exactly 2 descriptors.
    let mut data = schema_payload(&[("A", 1), ("B", 2)]);
    data.extend_from_slice(&[0xABu8; 50]);
    assert_eq!(data.len(), 192 * 2 + 50);
    let vlrs = vec![Vlr { record_id: 4, data }];
    let parser = ExtraBytesParser::from_vlrs(&vlrs).expect("record present");
    assert_eq!(parser.ebss.len(), 2);
    assert_eq!(parser.ebss[0].name().unwrap(), b"A".to_vec());
    assert_eq!(parser.ebss[1].name().unwrap(), b"B".to_vec());
}

#[test]
fn cast_from_f64_checks_range() {
    // An F64 value out of a narrower integer type's range fails with
    // CastError; 3.0 casts to 3.
    let parser = parser_for(&[("D", 10)]);
    let blob = |v: f64| v.to_bits().to_le_bytes().to_vec();

    let r: Result<i32, Error> = parser.get_field_as(&blob(3.0), "D");
    assert_eq!(r, Ok(3));
    let r: Result<u8, Error> = parser.get_field_as(&blob(3.0), "D");
    assert_eq!(r, Ok(3));
    let r: Result<i64, Error> = parser.get_field_as(&blob(3.0), "D");
    assert_eq!(r, Ok(3));

    let r: Result<i32, Error> = parser.get_field_as(&blob(1.0e300), "D");
    assert_eq!(r, Err(Error::CastError));
    let r: Result<u8, Error> = parser.get_field_as(&blob(256.0), "D");
    assert_eq!(r, Err(Error::CastError));
    let r: Result<u8, Error> = parser.get_field_as(&blob(255.0), "D");
    assert_eq!(r, Ok(255));
    let r: Result<i8, Error> = parser.get_field_as(&blob(-129.0), "D");
    assert_eq!(r, Err(Error::CastError));
    let r: Result<u32, Error> = parser.get_field_as(&blob(-1.0), "D");
    assert_eq!(r, Err(Error::CastError));
}

#[test]
fn cast_truncates_toward_zero() {
    let parser = parser_for(&[("D", 10)]);
    let blob = |v: f64| v.to_bits().to_le_bytes().to_vec();
    let r: Result<i32, Error> = parser.get_field_as(&blob(3.7), "D");
    assert_eq!(r, Ok(3));
    let r: Result<i32, Error> = parser.get_field_as(&blob(-3.7), "D");
    assert_eq!(r, Ok(-3));
    let r: Result<i32, Error> = parser.get_field_as(&blob(0.25), "D");
    assert_eq!(r, Ok(0));
    let r: Result<i32, Error> = parser.get_field_as(&blob(-0.0), "D");
    assert_eq!(r, Ok(0));
}

#[test]
fn cast_rejects_non_finite() {
    let parser = parser_for(&[("D", 10)]);
    let blob = |v: f64| v.to_bits().to_le_bytes().to_vec();
    for v in [f64::NAN, f64::INFINITY, f64::NEG_INFINITY] {
        let r: Result<i64, Error> = parser.get_field_as(&blob(v), "D");
        assert_eq!(r, Err(Error::CastError));
    }
}

#[test]
fn cast_from_f32_source() {
    let parser = parser_for(&[("S", 9)]);
    let blob = |v: f32| {
        let mut b = v.to_bits().to_le_bytes().to_vec();
        b.extend_from_slice(&[0u8; 4]);
        b
    };
    let r: Result<i32, Error> = parser.get_field_as(&blob(-7.9), "S");
    assert_eq!(r, Ok(-7));
    let r: Result<i16, Error> = parser.get_field_as(&blob(1.0e9), "S");
    assert_eq!(r, Err(Error::CastError));
    let r: Result<i64, Error> = parser.get_field_as(&blob(f32::NAN), "S");
    assert_eq!(r, Err(Error::CastError));
}

#[test]
fn missing_dimension_reports_not_found() {
    // A name absent from the schema fails with DimensionNotFound and never
    // attempts a buffer read: even an empty blob reports the missing name,
    // not a truncated buffer.
    let parser = parser_for(&[("A", 3), ("B", 10)]);
    let r = parser.get_field(&Vec::new(), "missing");
    assert_eq!(r, Err(Error::DimensionNotFound("missing".to_string())));
    let r: Result<i32, Error> = parser.get_field_as(&Vec::new(), "missing");
    assert_eq!(r, Err(Error::DimensionNotFound("missing".to_string())));
    // Comparison is exact and case-sensitive.
    let r = parser.get_field(&vec![0u8; 16], "a");
    assert_eq!(r, Err(Error::DimensionNotFound("a".to_string())));
}

#[test]
fn get_field_decodes_at_resolved_offset() {
    // [A:U16, B:F64, C:U8] packs A at 0, B at 2, C at 10.
    let parser = parser_for(&[("A", 3), ("B", 10), ("C", 1)]);
    let mut blob = vec![0x11u8, 0x22];
    blob.extend_from_slice(&2.5f64.to_bits().to_le_bytes());
    blob.push(0x7F);
    assert_eq!(parser.get_field(&blob, "A"), Ok(DimensionValue::U16(0x2211)));
    assert_eq!(
        parser.get_field(&blob, "B"),
        Ok(DimensionValue::F64(2.5f64.to_bits()))
    );
    assert_eq!(parser.get_field(&blob, "C"), Ok(DimensionValue::U8(0x7F)));
    // One byte short for C.
    blob.pop();
    assert_eq!(parser.get_field(&blob, "C"), Err(Error::TruncatedBuffer));
}

#[test]
fn f32_reserves_eight_layout_bytes() {
    // The width table gives F32 a layout budget of 8 bytes even though only
    // 4 are read: a following field starts at offset 8.
    assert_eq!(ExtraDimTypes::F32.size(), 8);
    let parser = parser_for(&[("F", 9), ("G", 1)]);
    assert_eq!(parser.offset_of_dim("G").unwrap(), (Some(1), 8));
    let mut blob = 1.5f32.to_bits().to_le_bytes().to_vec();
    blob.extend_from_slice(&[0u8; 4]);
    blob.push(42);
    assert_eq!(
        parser.get_field(&blob, "F"),
        Ok(DimensionValue::F32(1.5f32.to_bits()))
    );
    assert_eq!(parser.get_field(&blob, "G"), Ok(DimensionValue::U8(42)));
}

#[test]
fn signed_values_decode_twos_complement() {
    let parser = parser_for(&[("N", 4), ("M", 2)]);
    let blob = vec![0xFEu8, 0xFF, 0x80];
    assert_eq!(parser.get_field(&blob, "N"), Ok(DimensionValue::I16(-2)));
    assert_eq!(parser.get_field(&blob, "M"), Ok(DimensionValue::I8(-128)));
    let r: Result<i32, Error> = parser.get_field_as(&blob, "N");
    assert_eq!(r, Ok(-2));
    let r: Result<u16, Error> = parser.get_field_as(&blob, "N");
    assert_eq!(r, Err(Error::CastError));
}

#[test]
fn wide_unsigned_cast_checks_sign_range() {
    let parser = parser_for(&[("W", 7)]);
    let blob = u64::MAX.to_le_bytes().to_vec();
    let r: Result<u64, Error> = parser.get_field_as(&blob, "W");
    assert_eq!(r, Ok(u64::MAX));
    let r: Result<i64, Error> = parser.get_field_as(&blob, "W");
    assert_eq!(r, Err(Error::CastError));
}

#[test]
fn byte_array_decodes_but_never_casts() {
    let parser = parser_for(&[("P", 11)]);
    let blob = vec![9u8, 8];
    assert_eq!(parser.get_field(&blob, "P"), Ok(DimensionValue::A2U8((9, 8))));
    let r: Result<i64, Error> = parser.get_field_as(&blob, "P");
    assert_eq!(r, Err(Error::CastError));
}

#[test]
fn invalid_name_is_malformed() {
    // A descriptor name that is not restricted (ASCII) text fails name
    // decoding, and resolution fails when such a descriptor is scanned.
    let mut bytes = descriptor_bytes("Bad", 1);
    bytes[5] = 0xC3;
    let d = RawExtraByteStruct::read_from(&bytes).unwrap();
    assert_eq!(d.name(), Err(Error::MalformedDescriptor));

    let mut payload = bytes;
    payload.extend_from_slice(&descriptor_bytes("Good", 1));
    let vlrs = vec![Vlr { record_id: 4, data: payload }];
    let parser = ExtraBytesParser::from_vlrs(&vlrs).expect("record present");
    let r = parser.get_field(&vec![1u8, 2], "Good");
    assert_eq!(r, Err(Error::MalformedDescriptor));
}

#[test]
fn unknown_type_code_falls_back_to_f64() {
    assert!(matches!(value_to_type(0), ExtraDimTypes::F64));
    assert!(matches!(value_to_type(12), ExtraDimTypes::F64));
    assert!(matches!(value_to_type(255), ExtraDimTypes::F64));
    let d = RawExtraByteStruct::read_from(&descriptor_bytes("Z", 0)).unwrap();
    assert!(matches!(d.data_type(), ExtraDimTypes::F64));
}

#[test]
fn type_codes_map_one_to_one() {
    let expected = [
        (1u8, ExtraDimTypes::U8),
        (2, ExtraDimTypes::I8),
        (3, ExtraDimTypes::U16),
        (4, ExtraDimTypes::I16),
        (5, ExtraDimTypes::U32),
        (6, ExtraDimTypes::I32),
        (7, ExtraDimTypes::U64),
        (8, ExtraDimTypes::I64),
        (9, ExtraDimTypes::F32),
        (10, ExtraDimTypes::F64),
        (11, ExtraDimTypes::A2U8),
    ];
    for (code, t) in expected {
        assert_eq!(value_to_type(code), t);
    }
}

#[test]
fn layout_widths() {
    let expected = [
        (ExtraDimTypes::U8, 1usize),
        (ExtraDimTypes::I8, 1),
        (ExtraDimTypes::U16, 2),
        (ExtraDimTypes::I16, 2),
        (ExtraDimTypes::U32, 4),
        (ExtraDimTypes::I32, 4),
        (ExtraDimTypes::U64, 8),
        (ExtraDimTypes::I64, 8),
        (ExtraDimTypes::F32, 8),
        (ExtraDimTypes::F64, 8),
        (ExtraDimTypes::A2U8, 2),
    ];
    for (t, w) in expected {
        assert_eq!(t.size(), w);
    }
}

#[test]
fn unterminated_name_spans_whole_field() {
    let name32 = "abcdefghijklmnopqrstuvwxyz012345";
    assert_eq!(name32.len(), 32);
    let d = RawExtraByteStruct::read_from(&descriptor_bytes(name32, 1)).unwrap();
    assert_eq!(d.name().unwrap(), name32.as_bytes().to_vec());
}

#[test]
fn default_descriptor_is_blank() {
    let d = RawExtraByteStruct::default();
    assert_eq!(d.name().unwrap(), Vec::<u8>::new());
    assert!(matches!(d.data_type(), ExtraDimTypes::F64));
    assert_eq!(d.to_bytes(), vec![0u8; 192]);
}
