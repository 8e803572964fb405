use npy::{
    DType, Field, HeaderError, TypeStr, Value, convert_value_to_positive_integer,
    convert_value_to_shape, parse_header, parse_item,
};

fn ty(s: &str) -> TypeStr {
    s.parse().unwrap()
}

fn parse(source: &str) -> Value {
    parse_item(source.as_bytes()).expect("could not parse Python expression").0
}

#[test]
fn description_of_record_array_as_python_list_of_tuples() {
    let dtype = DType::Record(vec![
        Field { name: "float".to_string(), dtype: DType::Plain { ty: ty(">f4"), shape: vec![] } },
        Field { name: "byte".to_string(), dtype: DType::Plain { ty: ty("<u1"), shape: vec![] } },
    ]);
    let expected = "[('float', '>f4'), ('byte', '<u1'), ]";
    assert_eq!(dtype.descr(), expected);
}

#[test]
fn description_of_unstructured_primitive_array() {
    let dtype = DType::Plain { ty: ty(">f8"), shape: vec![] };
    assert_eq!(dtype.descr(), "'>f8'");
}

#[test]
fn description_of_nested_record_dtype() {
    let dtype = DType::Record(vec![Field {
        name: "parent".to_string(),
        dtype: DType::Record(vec![Field {
            name: "child".to_string(),
            dtype: DType::Plain { ty: ty("<i4"), shape: vec![] },
        }]),
    }]);
    assert_eq!(dtype.descr(), "[('parent', [('child', '<i4'), ]), ]");
}

#[test]
fn description_of_array_field() {
    let dtype = DType::Record(vec![Field {
        name: "m".to_string(),
        dtype: DType::Plain { ty: ty("<u8"), shape: vec![5, 3] },
    }]);
    assert_eq!(dtype.descr(), "[('m', '<u8', (5,3,)), ]");
}

#[test]
fn converts_simple_description_to_record_dtype() {
    let dtype = ">f8";
    assert_eq!(
        DType::from_descr(Value::String(dtype.to_string())).unwrap(),
        DType::Plain { ty: ty(dtype), shape: vec![] }
    );
}

#[test]
fn converts_non_endian_description_to_record_dtype() {
    let dtype = "|u1";
    assert_eq!(
        DType::from_descr(Value::String(dtype.to_string())).unwrap(),
        DType::Plain { ty: ty(dtype), shape: vec![] }
    );
}

#[test]
fn converts_record_description_to_record_dtype() {
    let descr = parse("[('a', '<u2'), ('b', '<f4')]");
    let expected_dtype = DType::Record(vec![
        Field { name: "a".to_string(), dtype: DType::Plain { ty: ty("<u2"), shape: vec![] } },
        Field { name: "b".to_string(), dtype: DType::Plain { ty: ty("<f4"), shape: vec![] } },
    ]);
    assert_eq!(DType::from_descr(descr).unwrap(), expected_dtype);
}

#[test]
fn record_text_with_stray_quote_after_it() {
    let dtype = DType::parse("[('a', '<u2'), ('b', '<f4')]'").unwrap();
    let expected_dtype = DType::Record(vec![
        Field { name: "a".to_string(), dtype: DType::Plain { ty: ty("<u2"), shape: vec![] } },
        Field { name: "b".to_string(), dtype: DType::Plain { ty: ty("<f4"), shape: vec![] } },
    ]);
    assert_eq!(dtype, expected_dtype);
}

#[test]
fn record_description_with_onedimensional_field_shape_declaration() {
    let descr = parse("[('a', '>f8', (1,))]");
    let expected_dtype = DType::Record(vec![Field {
        name: "a".to_string(),
        dtype: DType::Plain { ty: ty(">f8"), shape: vec![1] },
    }]);
    assert_eq!(DType::from_descr(descr).unwrap(), expected_dtype);
}

#[test]
fn record_description_with_nested_record_field() {
    let descr = parse("[('parent', [('child', '<i4')])]");
    let expected_dtype = DType::Record(vec![Field {
        name: "parent".to_string(),
        dtype: DType::Record(vec![Field {
            name: "child".to_string(),
            dtype: DType::Plain { ty: ty("<i4"), shape: vec![] },
        }]),
    }]);
    assert_eq!(DType::from_descr(descr).unwrap(), expected_dtype);
}

#[test]
fn errors_on_nested_record_field_array() {
    let descr = parse("[('parent', [('child', '<i4')], (2,))]");
    assert!(DType::from_descr(descr).is_err());
}

#[test]
fn errors_on_value_variants_that_cannot_be_converted() {
    let no_dtype = Value::Bool(false);
    assert!(DType::from_descr(no_dtype).is_err());
}

#[test]
fn errors_when_record_list_does_not_contain_lists() {
    let faulty_list = parse("['a', 123]");
    assert!(DType::from_descr(faulty_list).is_err());
}

#[test]
fn errors_when_record_list_entry_contains_too_few_items() {
    let faulty_list = parse("[('a')]");
    assert!(DType::from_descr(faulty_list).is_err());
}

#[test]
fn errors_when_record_list_entry_contains_too_many_items() {
    let faulty_list = parse("[('a', 1, 2, 3)]");
    assert!(DType::from_descr(faulty_list).is_err());
}

#[test]
fn errors_when_record_list_entry_contains_non_strings_for_id_or_dtype() {
    let faulty_list = parse("[(1, 2)]");
    assert!(DType::from_descr(faulty_list).is_err());
}

#[test]
fn errors_when_shape_is_not_a_list() {
    let no_shape = parse("1");
    assert!(convert_value_to_shape(&no_shape).is_err());
}

#[test]
fn errors_when_shape_number_is_not_a_number() {
    let no_number = parse("[]");
    assert!(convert_value_to_positive_integer(&no_number).is_err());
}

#[test]
fn errors_when_shape_number_is_not_positive() {
    assert!(convert_value_to_positive_integer(&parse("0")).is_err());
}

#[test]
fn grammar_values() {
    assert_eq!(parse(" 42 "), Value::Integer(42));
    assert_eq!(parse("True"), Value::Bool(true));
    assert_eq!(parse("False"), Value::Bool(false));
    assert_eq!(parse("\"x y\""), Value::String("x y".to_string()));
    assert_eq!(parse("( 1 , 2 , )"), Value::List(vec![Value::Integer(1), Value::Integer(2)]));
    assert_eq!(parse("[]"), Value::List(vec![]));
    assert_eq!(
        parse("{'a': 1, 'b': [True], }"),
        Value::Dict(vec![
            ("a".to_string(), Value::Integer(1)),
            ("b".to_string(), Value::List(vec![Value::Bool(true)])),
        ])
    );
    assert!(parse_item(b"[1, 2").is_none());
    assert!(parse_item(b"(1]").is_none());
    assert!(parse_item(b"99999999999999999999").is_none());
    assert!(parse_item(b"''").is_none());
}

#[test]
fn header_of_a_file() {
    let text = b"{'descr': '<i4', 'fortran_order': False, 'shape': (3,), }    \n";
    let mut bytes = vec![0x93u8, b'N', b'U', b'M', b'P', b'Y', 1, 0];
    bytes.push(text.len() as u8);
    bytes.push(0);
    bytes.extend_from_slice(text);
    bytes.extend_from_slice(&[7, 8, 9]);
    let (value, rest) = parse_header(&bytes).unwrap();
    assert_eq!(rest, &[7, 8, 9][..]);
    match value {
        Value::Dict(entries) => {
            assert_eq!(entries.len(), 3);
            assert_eq!(entries[0].0, "descr");
            assert_eq!(entries[0].1, Value::String("<i4".to_string()));
            assert_eq!(entries[2].1, Value::List(vec![Value::Integer(3)]));
        }
        other => panic!("not a map: {:?}", other),
    }
    assert_eq!(parse_header(&bytes[..9]).err(), Some(HeaderError::Truncated));
    assert_eq!(parse_header(b"\x93NUMPX").err(), Some(HeaderError::BadPreamble));
}

#[test]
fn dtype_text_round_trips() {
    for text in [
        "'<i4'",
        "[('a', '<u2'), ('b', '>f8', (3,)), ]",
        "[('p', [('c', '|S5'), ('d', '<m8[ns]', (2,4,)), ]), ]",
    ] {
        let d = DType::parse(text).unwrap();
        assert_eq!(d.descr(), text);
        assert_eq!(DType::parse(&d.descr()).unwrap(), d);
    }
}

#[test]
fn names_with_quotes_do_not_read_back() {
    let d = DType::parse("[(\"a'b\", '<i4')]").unwrap();
    assert_eq!(d.descr(), "[('a'b', '<i4'), ]");
    assert!(DType::parse(&d.descr()).is_err());
}
