use npy::{
    AutoSerialize, DType, DTypeErrorKind, Deserialize, F32Bits, F64Bits, Serialize, TypeRead,
    TypeWrite, TypeWriteDyn,
};

fn reader_output<T: Deserialize>(dtype: &DType, bytes: &[u8]) -> T {
    T::reader(dtype).unwrap_or_else(|e| panic!("{:?}", e)).read_one(bytes).0
}

fn reader_expect_err<T: Deserialize>(dtype: &DType) {
    assert!(T::reader(dtype).is_err(), "reader_expect_err failed!");
}

fn writer_output<T: Serialize + ?Sized>(dtype: &DType, value: &T) -> Vec<u8> {
    let mut vec = vec![];
    T::writer(dtype).unwrap_or_else(|e| panic!("{:?}", e)).write_one(&mut vec, value).unwrap();
    vec
}

fn writer_expect_err<T: Serialize + ?Sized>(dtype: &DType) {
    assert!(T::writer(dtype).is_err(), "writer_expect_err failed!");
}

fn writer_expect_write_err<T: Serialize + ?Sized>(dtype: &DType, value: &T) {
    let mut vec = vec![];
    let w = T::writer(dtype).unwrap_or_else(|e| panic!("{:?}", e));
    assert!(w.write_one(&mut vec, value).is_err(), "writer_expect_write_err failed!");
}

const BE_ONE_64: &[u8] = &[0, 0, 0, 0, 0, 0, 0, 1];
const LE_ONE_64: &[u8] = &[1, 0, 0, 0, 0, 0, 0, 0];
const BE_ONE_32: &[u8] = &[0, 0, 0, 1];
const LE_ONE_32: &[u8] = &[1, 0, 0, 0];

#[test]
fn identity() {
    let be = DType::parse("'>i4'").unwrap();
    let le = DType::parse("'<i4'").unwrap();

    assert_eq!(reader_output::<i32>(&be, BE_ONE_32), 1);
    assert_eq!(reader_output::<i32>(&le, LE_ONE_32), 1);
    assert_eq!(writer_output::<i32>(&be, &1), BE_ONE_32);
    assert_eq!(writer_output::<i32>(&le, &1), LE_ONE_32);

    let be = DType::parse("'>u4'").unwrap();
    let le = DType::parse("'<u4'").unwrap();

    assert_eq!(reader_output::<u32>(&be, BE_ONE_32), 1);
    assert_eq!(reader_output::<u32>(&le, LE_ONE_32), 1);
    assert_eq!(writer_output::<u32>(&be, &1), BE_ONE_32);
    assert_eq!(writer_output::<u32>(&le, &1), LE_ONE_32);

    for &dtype in &["'>i1'", "'<i1'", "'|i1'"] {
        let dtype = DType::parse(dtype).unwrap();
        assert_eq!(reader_output::<i8>(&dtype, &[1]), 1);
        assert_eq!(writer_output::<i8>(&dtype, &1), &[1][..]);
    }

    for &dtype in &["'>u1'", "'<u1'", "'|u1'"] {
        let dtype = DType::parse(dtype).unwrap();
        assert_eq!(reader_output::<u8>(&dtype, &[1]), 1);
        assert_eq!(writer_output::<u8>(&dtype, &1), &[1][..]);
    }
}

#[test]
fn native_float_types() {
    let be_bytes = 42.0_f64.to_bits().to_be_bytes();
    let le_bytes = 42.0_f64.to_bits().to_le_bytes();
    let be = DType::parse("'>f8'").unwrap();
    let le = DType::parse("'<f8'").unwrap();

    assert_eq!(f64::from_bits(reader_output::<F64Bits>(&be, &be_bytes).0), 42.0);
    assert_eq!(f64::from_bits(reader_output::<F64Bits>(&le, &le_bytes).0), 42.0);
    assert_eq!(writer_output::<F64Bits>(&be, &F64Bits(42.0_f64.to_bits())), &be_bytes);
    assert_eq!(writer_output::<F64Bits>(&le, &F64Bits(42.0_f64.to_bits())), &le_bytes);

    let be_bytes = 42.0_f32.to_bits().to_be_bytes();
    let le_bytes = 42.0_f32.to_bits().to_le_bytes();
    let be = DType::parse("'>f4'").unwrap();
    let le = DType::parse("'<f4'").unwrap();

    assert_eq!(f32::from_bits(reader_output::<F32Bits>(&be, &be_bytes).0), 42.0);
    assert_eq!(f32::from_bits(reader_output::<F32Bits>(&le, &le_bytes).0), 42.0);
    assert_eq!(writer_output::<F32Bits>(&be, &F32Bits(42.0_f32.to_bits())), &be_bytes);
    assert_eq!(writer_output::<F32Bits>(&le, &F32Bits(42.0_f32.to_bits())), &le_bytes);
}

#[test]
fn datetime_as_int() {
    let be = DType::parse("'>m8[ns]'").unwrap();
    let le = DType::parse("'<m8[ns]'").unwrap();

    assert_eq!(reader_output::<i64>(&be, BE_ONE_64), 1);
    assert_eq!(reader_output::<i64>(&le, LE_ONE_64), 1);
    assert_eq!(writer_output::<i64>(&be, &1), BE_ONE_64);
    assert_eq!(writer_output::<i64>(&le, &1), LE_ONE_64);

    let be = DType::parse("'>M8[ns]'").unwrap();
    let le = DType::parse("'<M8[ns]'").unwrap();

    assert_eq!(reader_output::<u64>(&be, BE_ONE_64), 1);
    assert_eq!(reader_output::<u64>(&le, LE_ONE_64), 1);
    assert_eq!(writer_output::<u64>(&be, &1), BE_ONE_64);
    assert_eq!(writer_output::<u64>(&le, &1), LE_ONE_64);
}

#[test]
fn wrong_size_int() {
    let t_i32 = DType::parse("'<i4'").unwrap();
    let t_u32 = DType::parse("'<u4'").unwrap();

    reader_expect_err::<i64>(&t_i32);
    reader_expect_err::<i16>(&t_i32);
    reader_expect_err::<u64>(&t_u32);
    reader_expect_err::<u16>(&t_u32);
    writer_expect_err::<i64>(&t_i32);
    writer_expect_err::<i16>(&t_i32);
    writer_expect_err::<u64>(&t_u32);
    writer_expect_err::<u16>(&t_u32);
}

#[test]
fn bytes_any_endianness() {
    for ty in vec!["'<S3'", "'>S3'", "'|S3'"] {
        let ty = DType::parse(ty).unwrap();
        assert_eq!(writer_output(&ty, &[1, 3, 5][..]), vec![1, 3, 5]);
        assert_eq!(reader_output::<Vec<u8>>(&ty, &[1, 3, 5][..]), vec![1, 3, 5]);
    }
}

#[test]
fn bytes_size_zero() {
    let ts = DType::parse("'|S0'").unwrap();
    assert_eq!(reader_output::<Vec<u8>>(&ts, &[]), Vec::<u8>::new());
    assert_eq!(writer_output(&ts, &[][..]), Vec::<u8>::new());

    let ts = DType::parse("'|V0'").unwrap();
    assert_eq!(reader_output::<Vec<u8>>(&ts, &[]), Vec::<u8>::new());
    assert_eq!(writer_output::<[u8]>(&ts, &[]), Vec::<u8>::new());
}

#[test]
fn wrong_size_bytes() {
    let s_3 = DType::parse("'|S3'").unwrap();
    let v_3 = DType::parse("'|V3'").unwrap();

    assert_eq!(writer_output(&s_3, &[1, 3, 5][..]), vec![1, 3, 5]);
    assert_eq!(writer_output(&v_3, &[1, 3, 5][..]), vec![1, 3, 5]);

    assert_eq!(writer_output(&s_3, &[1][..]), vec![1, 0, 0]);
    writer_expect_write_err(&v_3, &[1][..]);

    assert_eq!(writer_output(&s_3, &[][..]), vec![0, 0, 0]);
    writer_expect_write_err(&v_3, &[][..]);

    writer_expect_write_err(&s_3, &[1, 3, 5, 7][..]);
    writer_expect_write_err(&v_3, &[1, 3, 5, 7][..]);
}

#[test]
fn read_bytes_with_trailing_zeros() {
    let ts = DType::parse("'|S2'").unwrap();
    assert_eq!(reader_output::<Vec<u8>>(&ts, &[1, 3]), vec![1, 3]);
    assert_eq!(reader_output::<Vec<u8>>(&ts, &[1, 0]), vec![1]);
    assert_eq!(reader_output::<Vec<u8>>(&ts, &[0, 0]), Vec::<u8>::new());

    let ts = DType::parse("'|V2'").unwrap();
    assert_eq!(reader_output::<Vec<u8>>(&ts, &[1, 3]), vec![1, 3]);
    assert_eq!(reader_output::<Vec<u8>>(&ts, &[1, 0]), vec![1, 0]);
    assert_eq!(reader_output::<Vec<u8>>(&ts, &[0, 0]), vec![0, 0]);
}

#[test]
fn bytestr_preserves_interior_zeros() {
    const DATA: &[u8] = &[0, 1, 0, 0, 3, 5];

    let ts = DType::parse("'|S6'").unwrap();

    assert_eq!(reader_output::<Vec<u8>>(&ts, DATA), DATA.to_vec());
    assert_eq!(writer_output(&ts, DATA), DATA.to_vec());
}

#[test]
fn bytestr_pads_on_write_and_trims_on_read() {
    let ts = DType::parse("'|S6'").unwrap();
    let written = writer_output(&ts, &[0, 1, 0, 0][..]);
    assert_eq!(written, vec![0, 1, 0, 0, 0, 0]);
    assert_eq!(reader_output::<Vec<u8>>(&ts, &written), vec![0, 1]);
}

#[test]
fn default_simple_type_strs() {
    assert_eq!(i8::default_dtype().descr(), "'|i1'");
    assert_eq!(u8::default_dtype().descr(), "'|u1'");

    if 1 == i32::from_be(1) {
        assert_eq!(i16::default_dtype().descr(), "'>i2'");
        assert_eq!(i32::default_dtype().descr(), "'>i4'");
        assert_eq!(i64::default_dtype().descr(), "'>i8'");
        assert_eq!(u32::default_dtype().descr(), "'>u4'");
    } else {
        assert_eq!(i16::default_dtype().descr(), "'<i2'");
        assert_eq!(i32::default_dtype().descr(), "'<i4'");
        assert_eq!(i64::default_dtype().descr(), "'<i8'");
        assert_eq!(u32::default_dtype().descr(), "'<u4'");
    }
}

#[test]
fn serialize_types_that_deref_to_bytes() {
    let ts = DType::parse("'|S3'").unwrap();

    assert_eq!(writer_output::<Vec<u8>>(&ts, &vec![1, 3, 5]), vec![1, 3, 5]);
    assert_eq!(writer_output::<&[u8]>(&ts, &&[1, 3, 5][..]), vec![1, 3, 5]);
}

#[test]
fn dynamic_readers_and_writers() {
    let writer: Box<dyn TypeWriteDyn<Value = i32>> =
        Box::new(i32::writer(&i32::default_dtype()).unwrap());
    let reader: Box<dyn TypeRead<Value = i32>> =
        Box::new(i32::reader(&i32::default_dtype()).unwrap());

    let mut buf = vec![];
    writer.write_one(&mut buf, &4000).unwrap();
    assert_eq!(reader.read_one(&buf).0, 4000);
}

#[test]
fn u4_bytes_in_both_orders() {
    let bytes = [0x01u8, 0x02, 0x03, 0x04];
    let le = DType::parse("'<u4'").unwrap();
    let be = DType::parse("'>u4'").unwrap();
    assert_eq!(reader_output::<u32>(&le, &bytes), 0x0403_0201);
    assert_eq!(reader_output::<u32>(&be, &bytes), 0x0102_0304);
}

#[test]
fn reading_returns_the_rest() {
    let le = DType::parse("'<u2'").unwrap();
    let (v, rest) = u16::reader(&le).unwrap().read_one(&[1, 2, 3]);
    assert_eq!(v, 0x0201);
    assert_eq!(rest, &[3][..]);
}

#[test]
fn write_then_read_in_both_orders() {
    for text in ["'<i2'", "'>i2'"] {
        let d = DType::parse(text).unwrap();
        for v in [i16::MIN, -2, -1, 0, 1, 0x1234, i16::MAX] {
            let bytes = writer_output::<i16>(&d, &v);
            assert_eq!(reader_output::<i16>(&d, &bytes), v);
        }
    }
    for text in ["'<u8'", "'>u8'"] {
        let d = DType::parse(text).unwrap();
        for v in [0u64, 1, 0x0102_0304_0506_0708, u64::MAX] {
            let bytes = writer_output::<u64>(&d, &v);
            assert_eq!(reader_output::<u64>(&d, &bytes), v);
        }
    }
    for text in ["'<f8'", "'>f8'"] {
        let d = DType::parse(text).unwrap();
        for v in [-1.5f64, 0.0, 3.25e100] {
            let bytes = writer_output::<F64Bits>(&d, &F64Bits(v.to_bits()));
            assert_eq!(f64::from_bits(reader_output::<F64Bits>(&d, &bytes).0), v);
        }
    }
}

#[test]
fn big_endian_bytes_of_a_signed_value() {
    let d = DType::parse("'>i2'").unwrap();
    assert_eq!(writer_output::<i16>(&d, &-2), vec![0xff, 0xfe]);
    let d = DType::parse("'<i2'").unwrap();
    assert_eq!(writer_output::<i16>(&d, &-2), vec![0xfe, 0xff]);
}

#[test]
fn scalar_errors_name_their_cause() {
    let record = DType::parse("[('a', '<i4')]").unwrap();
    match i32::reader(&record) {
        Err(e) => assert!(matches!(e.0, DTypeErrorKind::ExpectedScalar { .. })),
        Ok(_) => panic!("a record is no scalar"),
    }
    let float = DType::parse("'<f4'").unwrap();
    match i32::writer(&float) {
        Err(e) => assert!(matches!(e.0, DTypeErrorKind::BadScalar { verb: "write", .. })),
        Ok(_) => panic!("a float is no integer"),
    }
    let int = DType::parse("'<i4'").unwrap();
    assert!(F32Bits::reader(&int).is_err());
    assert!(<Vec<u8>>::reader(&int).is_err());
}

#[test]
fn default_float_dtype() {
    let d = F64Bits::default_dtype().descr();
    if 1 == i32::from_be(1) {
        assert_eq!(d, "'>f8'");
    } else {
        assert_eq!(d, "'<f8'");
    }
}

#[test]
fn boxed_values_write_as_their_contents() {
    let le = DType::parse("'<i4'").unwrap();
    assert_eq!(writer_output::<Box<i32>>(&le, &Box::new(1)), LE_ONE_32);
    assert_eq!(<Box<u8>>::default_dtype().descr(), "'|u1'");
}

#[test]
fn shared_pointers_write_as_their_contents() {
    let le = DType::parse("'<i4'").unwrap();
    assert_eq!(writer_output::<std::rc::Rc<i32>>(&le, &std::rc::Rc::new(1)), LE_ONE_32);
    assert_eq!(writer_output::<std::sync::Arc<i32>>(&le, &std::sync::Arc::new(1)), LE_ONE_32);
    let mut one = 1i32;
    assert_eq!(writer_output::<&mut i32>(&le, &&mut one), LE_ONE_32);
    assert_eq!(writer_output::<&i32>(&le, &&1), LE_ONE_32);
    assert_eq!(<&u8>::default_dtype().descr(), "'|u1'");
}

#[test]
fn failed_blob_write_leaves_the_buffer_alone() {
    let v3 = DType::parse("'|V3'").unwrap();
    let w = <[u8]>::writer(&v3).unwrap();
    let mut out = vec![9u8];
    assert!(w.write_one(&mut out, &[1, 2][..]).is_err());
    assert_eq!(out, vec![9]);
}

#[test]
fn binding_errors_carry_their_details() {
    let int = DType::parse("'<i4'").unwrap();
    match <Vec<u8>>::reader(&int) {
        Err(e) => assert!(matches!(
            e.0,
            DTypeErrorKind::BadScalar { rust_type: "Vec<u8>", verb: "read", .. }
        )),
        Ok(_) => panic!("an integer is no blob"),
    }
    match <[u8]>::writer(&int) {
        Err(e) => assert!(matches!(
            e.0,
            DTypeErrorKind::BadScalar { rust_type: "[u8]", verb: "write", .. }
        )),
        Ok(_) => panic!("an integer is no blob"),
    }
    let scalar = DType::parse("'<i4'").unwrap();
    match <[i32; 2]>::reader(&scalar) {
        Err(e) => assert!(matches!(e.0, DTypeErrorKind::ExpectedArray { got: "a scalar" })),
        Ok(_) => panic!("a scalar is no array"),
    }
    let record = DType::parse("[('a', '<i4')]").unwrap();
    match <[i32; 2]>::reader(&record) {
        Err(e) => assert!(matches!(e.0, DTypeErrorKind::ExpectedArray { got: "a record" })),
        Ok(_) => panic!("a record is no array"),
    }
}
