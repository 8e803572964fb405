use npy::npy_data::{header_info, NpyError};
use npy::out_file::{count_patch, file_preamble, PreambleError};
use npy::{
    DType, DTypeError, DTypeErrorKind, DescrError, ParseTypeStrError, TypeStr, TypeStrErrorKind,
    parse_header, parse_item,
};

#[test]
fn preamble_is_aligned_and_reads_back() {
    let dtype = DType::parse("[('a', '<i4'), ('b', '|S3')]").unwrap();
    let (bytes, pos) = file_preamble(&dtype).unwrap();
    assert_eq!(bytes.len() % 16, 0);
    assert_eq!(&bytes[..8], &[0x93, b'N', b'U', b'M', b'P', b'Y', 1, 0]);
    assert_eq!(*bytes.last().unwrap(), b'\n');
    assert_eq!(&bytes[pos..pos + 19], &[b'*'; 19][..]);

    let mut file = bytes.clone();
    file[pos..pos + 24].copy_from_slice(&count_patch(7));
    let (header, rest) = parse_header(&file).unwrap();
    assert!(rest.is_empty());
    let (d, n) = header_info(header).unwrap();
    assert_eq!(d, dtype);
    assert_eq!(n, 7);
}

#[test]
fn preamble_refuses_plain_arrays() {
    let dtype = DType::Plain { ty: "<i4".parse().unwrap(), shape: vec![3] };
    assert_eq!(file_preamble(&dtype).err(), Some(PreambleError::NonScalarPlain));
}

#[test]
fn count_patch_pads_to_the_room() {
    assert_eq!(count_patch(42), b"42,), }                 ".to_vec());
    assert_eq!(count_patch(0).len(), 24);
}

#[test]
fn header_info_errors() {
    let v = parse_item(b"{'descr': '<i4', 'shape': (2, 3), }").unwrap().0;
    assert_eq!(header_info(v).err(), Some(NpyError::BadShape));
    let v = parse_item(b"{'shape': (2,), }").unwrap().0;
    assert_eq!(header_info(v).err(), Some(NpyError::MissingDescr));
    let v = parse_item(b"{'descr': '<i9', 'shape': (2,), }").unwrap().0;
    assert!(matches!(
        header_info(v).err(),
        Some(NpyError::BadDescr(DescrError::BadTypeStr(_)))
    ));
    let v = parse_item(b"[1]").unwrap().0;
    assert_eq!(header_info(v).err(), Some(NpyError::NotAMap));
    let v = parse_item(b"{'shape': (1,), 'descr': '<u2', 'shape': (5,)}").unwrap().0;
    assert_eq!(header_info(v).unwrap().1, 5);
}

#[test]
fn record_sizes() {
    let d = DType::parse("[('a', '<i4'), ('b', '>U3'), ('c', '<f8', (2,3,)), ('n', [('x', '|u1')])]")
        .unwrap();
    assert_eq!(d.num_bytes(), Some(4 + 12 + 48 + 1));
    let scalar = DType::parse("'|S0'").unwrap();
    assert_eq!(scalar.num_bytes(), Some(0));
    let huge = DType::Plain { ty: "|V18446744073709551615".parse().unwrap(), shape: vec![2] };
    assert_eq!(huge.num_bytes(), None);
}

#[test]
fn clone_keeps_everything() {
    let d = DType::parse("[('p', [('c', '|S5'), ('d', '<m8[ns]', (2,4,))])]").unwrap();
    assert_eq!(d.clone(), d);
}

#[test]
fn type_str_error_messages() {
    let msg = |s: &str| match s.parse::<TypeStr>() {
        Err(e) => e.to_string(),
        Ok(_) => panic!("{} parsed", s),
    };
    assert_eq!(msg("x"), "Invalid type-string");
    assert_eq!(msg("|i8"), "Type string '|i8' has invalid endianness");
    assert_eq!(msg(">i3"), "Type string '>i3' has invalid size. Valid sizes are: [1, 2, 4, 8]");
    assert_eq!(msg(">m8"), "Type string '>m8' is missing time units.");
    assert_eq!(msg(">i8[s]"), "Unexpected time units in type string '>i8[s]'.");
    assert_eq!(
        ParseTypeStrError(TypeStrErrorKind::SizeOverflow).to_string(),
        "number too large to fit in target type"
    );
}

#[test]
fn dtype_error_messages() {
    let ty: TypeStr = "<f4".parse().unwrap();
    assert_eq!(
        DTypeError::bad_scalar("read", &ty, "i32").to_string(),
        "cannot read type i32 with type-string '<f4'"
    );
    assert_eq!(
        DTypeError::expected_record(&ty).to_string(),
        "expected a record type; got a scalar type '<f4'"
    );
    assert_eq!(DTypeError::bad_usize(7).to_string(), "cannot cast 7 as usize");
    assert_eq!(DTypeError::custom("no").to_string(), "no");
    let d = DType::parse("[('a', '<i4')]").unwrap();
    assert_eq!(
        DTypeError::expected_scalar(&d, "u8").to_string(),
        "type u8 requires a scalar (string) dtype, not [('a', '<i4'), ]"
    );
    assert_eq!(
        DTypeError::wrong_fields(vec!["a\"b".to_string()], vec!["c".to_string()]).to_string(),
        "field names do not match (expected [\"a\\\"b\"], got [\"c\"])"
    );
    assert_eq!(
        DTypeError(DTypeErrorKind::WrongArrayLen { expected: 3, actual: 12 }).to_string(),
        "wrong array size (expected 3, got 12)"
    );
    assert_eq!(
        DTypeError(DTypeErrorKind::ExpectedArray { got: "a scalar" }).to_string(),
        "rust array types require an array dtype (got a scalar)"
    );
}

#[test]
fn non_ascii_names_round_trip() {
    let text = "[('größe', '<u2'), ('名前', '|S4'), ]";
    let d = DType::parse(text).unwrap();
    assert_eq!(d.descr(), text);
}
