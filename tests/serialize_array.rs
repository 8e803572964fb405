use npy::{
    AutoSerialize, DType, DTypeError, DTypeErrorKind, Deserialize, Field, Serialize, TypeRead,
    TypeStr, TypeWrite,
};

// Records are bound by hand: the field list is checked by name, then each
// field is bound to its own dtype.

#[derive(Debug, PartialEq)]
struct Array3 {
    field: [i32; 3],
}

#[derive(Debug, PartialEq)]
struct Array23 {
    field: [[i32; 3]; 2],
}

fn read_array3(dtype: &DType, bytes: &[u8]) -> Result<Array3, DTypeError> {
    let fields = dtype.record_fields(&["field"])?;
    let reader = <[i32; 3]>::reader(&fields[0].dtype)?;
    Ok(Array3 { field: reader.read_one(bytes).0 })
}

fn write_array3(dtype: &DType, value: &Array3) -> Result<Vec<u8>, DTypeError> {
    let fields = dtype.record_fields(&["field"])?;
    let writer = <[i32; 3]>::writer(&fields[0].dtype)?;
    let mut out = vec![];
    writer.write_one(&mut out, &value.field).unwrap();
    Ok(out)
}

fn read_array23(dtype: &DType, bytes: &[u8]) -> Result<Array23, DTypeError> {
    let fields = dtype.record_fields(&["field"])?;
    let reader = <[[i32; 3]; 2]>::reader(&fields[0].dtype)?;
    Ok(Array23 { field: reader.read_one(bytes).0 })
}

fn write_array23(dtype: &DType, value: &Array23) -> Result<Vec<u8>, DTypeError> {
    let fields = dtype.record_fields(&["field"])?;
    let writer = <[[i32; 3]; 2]>::writer(&fields[0].dtype)?;
    let mut out = vec![];
    writer.write_one(&mut out, &value.field).unwrap();
    Ok(out)
}

fn default_array3() -> DType {
    DType::Record(vec![Field { name: "field".to_string(), dtype: <[i32; 3]>::default_dtype() }])
}

fn default_array23() -> DType {
    DType::Record(vec![Field {
        name: "field".to_string(),
        dtype: <[[i32; 3]; 2]>::default_dtype(),
    }])
}

const ARRAY3_DESCR_LE: &str = "[('field', '<i4', (3,))]";
const ARRAY23_DESCR_LE: &str = "[('field', '<i4', (2, 3))]";

// various bad descrs for Array3
const ARRAY2_DESCR_LE: &str = "[('field', '<i4', (2,))]";
const ARRAY_SCALAR_DESCR_LE: &str = "[('field', '<i4')]";
const ARRAY_RECORD_DESCR_LE: &str = "[('field', [('lol', '<i4')])]";

#[test]
fn read_write() {
    let dtype = DType::parse(ARRAY3_DESCR_LE).unwrap();
    let value = Array3 { field: [1, 3, 5] };
    let mut bytes = vec![];
    bytes.extend_from_slice(&i32::to_le_bytes(1));
    bytes.extend_from_slice(&i32::to_le_bytes(3));
    bytes.extend_from_slice(&i32::to_le_bytes(5));

    assert_eq!(read_array3(&dtype, &bytes).unwrap(), value);
    assert_eq!(write_array3(&dtype, &value).unwrap(), bytes);
    assert!(read_array23(&dtype, &bytes).is_err());
    assert!(write_array23(&dtype, &Array23 { field: [[0; 3]; 2] }).is_err());
}

#[test]
fn read_write_nested() {
    let dtype = DType::parse(ARRAY23_DESCR_LE).unwrap();
    let value = Array23 { field: [[1, 3, 5], [7, 9, 11]] };
    let mut bytes = vec![];
    for n in vec![1, 3, 5, 7, 9, 11] {
        bytes.extend_from_slice(&i32::to_le_bytes(n));
    }

    assert_eq!(read_array23(&dtype, &bytes).unwrap(), value);
    assert_eq!(write_array23(&dtype, &value).unwrap(), bytes);
    assert!(read_array3(&dtype, &bytes).is_err());
    assert!(write_array3(&dtype, &Array3 { field: [0; 3] }).is_err());
}

#[test]
fn incompatible() {
    let bytes = [0u8; 64];
    // wrong size
    let dtype = DType::parse(ARRAY2_DESCR_LE).unwrap();
    assert!(write_array3(&dtype, &Array3 { field: [0; 3] }).is_err());
    assert!(read_array3(&dtype, &bytes).is_err());

    // scalar instead of array
    let dtype = DType::parse(ARRAY_SCALAR_DESCR_LE).unwrap();
    assert!(write_array3(&dtype, &Array3 { field: [0; 3] }).is_err());
    assert!(read_array3(&dtype, &bytes).is_err());

    // record instead of array
    let dtype = DType::parse(ARRAY_RECORD_DESCR_LE).unwrap();
    assert!(write_array3(&dtype, &Array3 { field: [0; 3] }).is_err());
    assert!(read_array3(&dtype, &bytes).is_err());
}

#[test]
fn array_binding_errors() {
    let inner = |text: &str| {
        let d = DType::parse(text).unwrap();
        let fields = d.record_fields(&["field"]).unwrap();
        <[i32; 3]>::reader(&fields[0].dtype).err().unwrap().0
    };
    assert!(matches!(
        inner(ARRAY2_DESCR_LE),
        DTypeErrorKind::WrongArrayLen { expected: 3, actual: 2 }
    ));
    assert!(matches!(inner(ARRAY_SCALAR_DESCR_LE), DTypeErrorKind::ExpectedArray { .. }));
    assert!(matches!(inner(ARRAY_RECORD_DESCR_LE), DTypeErrorKind::ExpectedArray { .. }));
}

#[test]
fn record_field_names_must_match_in_order() {
    let d = DType::parse("[('a', '<i4'), ('b', '<i4')]").unwrap();
    assert!(d.record_fields(&["a", "b"]).is_ok());
    match d.record_fields(&["b", "a"]) {
        Err(DTypeError(DTypeErrorKind::WrongFields { expected, actual })) => {
            assert_eq!(expected, vec!["b".to_string(), "a".to_string()]);
            assert_eq!(actual, vec!["a".to_string(), "b".to_string()]);
        }
        other => panic!("expected wrong fields, got {:?}", other.map(|f| f.len())),
    }
    assert!(d.record_fields(&["a"]).is_err());
    let scalar = DType::parse("'<i4'").unwrap();
    assert!(matches!(
        scalar.record_fields(&["a"]),
        Err(DTypeError(DTypeErrorKind::ExpectedRecord { .. }))
    ));
}

#[test]
fn default_dtype() {
    let int_ty: TypeStr = {
        if 1 == i32::from_be(1) {
            ">i4".parse().unwrap()
        } else {
            "<i4".parse().unwrap()
        }
    };

    assert_eq!(
        default_array3(),
        DType::Record(vec![Field {
            name: "field".to_string(),
            dtype: DType::Plain { ty: int_ty.clone(), shape: vec![3] },
        },])
    );

    assert_eq!(
        default_array23(),
        DType::Record(vec![Field {
            name: "field".to_string(),
            dtype: DType::Plain { ty: int_ty.clone(), shape: vec![2, 3] },
        },])
    );
}
