use npy::{Endianness, ParseTypeStrError, TimeUnits, TypeKind, TypeStr, TypeStrErrorKind};

fn is_ok(s: &str) -> bool {
    s.parse::<TypeStr>().is_ok()
}

fn kind_of_err(s: &str) -> TypeStrErrorKind {
    match s.parse::<TypeStr>() {
        Err(ParseTypeStrError(kind)) => kind,
        Ok(v) => panic!("Expected an error for {:?}, got {:?}", s, v),
    }
}

#[test]
fn errors() {
    assert_eq!(kind_of_err(""), TypeStrErrorKind::SyntaxError);
    assert_eq!(kind_of_err(">"), TypeStrErrorKind::SyntaxError);
    assert_eq!(kind_of_err(">m"), TypeStrErrorKind::SyntaxError);
    assert_eq!(kind_of_err(">m8["), TypeStrErrorKind::SyntaxError);
    assert_eq!(kind_of_err(">m8[us"), TypeStrErrorKind::SyntaxError);
    assert!(is_ok(">m8[us]"));
    assert!(is_ok(">m8[D]"));
    assert_eq!(kind_of_err(">m8[us]garbage"), TypeStrErrorKind::SyntaxError);
    assert_eq!(kind_of_err(">m8[us]]"), TypeStrErrorKind::SyntaxError);

    assert_eq!(kind_of_err(""), TypeStrErrorKind::SyntaxError);
    assert_eq!(kind_of_err(">"), TypeStrErrorKind::SyntaxError);
    assert_eq!(kind_of_err(">i"), TypeStrErrorKind::SyntaxError);
    assert!(is_ok(">i8"));
    assert!(is_ok(">c16"));
    assert_eq!(kind_of_err(">i8garbage"), TypeStrErrorKind::SyntaxError);

    // length-zero integer
    assert_eq!(kind_of_err(">m[us]"), TypeStrErrorKind::SyntaxError);
    assert_eq!(kind_of_err(">i"), TypeStrErrorKind::SyntaxError);

    // integer overflow is an error, not a panic
    assert!(!is_ok(">m999999999999999999999999999999[us]"));
    assert!(!is_ok(">i999999999999999999999999999999"));

    // unrecognized specifiers
    assert!(is_ok("<i8"));
    assert!(!is_ok("*i8"));
    assert!(!is_ok("<p8"));
    assert!(is_ok(">m8[us]"));
    assert!(!is_ok(">m8[bus]"));
    assert!(!is_ok(">m8[usb]"));
    assert!(!is_ok(">m8[xq]"));

    // required endianness
    assert!(is_ok("|i1"));
    assert!(is_ok("|S7"));
    assert!(is_ok("|V7"));
    assert!(matches!(kind_of_err("|i8"), TypeStrErrorKind::InvalidEndianness(_)));
    assert!(matches!(kind_of_err("|U1"), TypeStrErrorKind::InvalidEndianness(_)));

    // size
    assert!(is_ok(">i8"));
    assert!(matches!(kind_of_err(">i9"), TypeStrErrorKind::InvalidSize(_)));
    assert!(matches!(kind_of_err(">m4[us]"), TypeStrErrorKind::InvalidSize(_)));
    assert!(matches!(kind_of_err(">b4"), TypeStrErrorKind::InvalidSize(_)));
    assert!(is_ok("|S0"));
    assert!(is_ok(">U0"));
    assert!(is_ok("|V0"));
    assert!(is_ok("|V7"));

    // presence or absence of units
    assert!(is_ok(">i8"));
    assert!(is_ok(">m8[us]"));
    assert!(matches!(kind_of_err(">i8[us]"), TypeStrErrorKind::MissingOrUnexpectedUnits(_)));
    assert!(matches!(kind_of_err(">m8"), TypeStrErrorKind::MissingOrUnexpectedUnits(_)));
}

#[test]
fn display_simple() {
    assert_eq!(
        TypeStr {
            endianness: Endianness::Little,
            type_kind: TypeKind::Int,
            size: 8,
            time_units: None,
        }
        .to_string(),
        "<i8",
    );

    assert_eq!(
        TypeStr {
            endianness: Endianness::Irrelevant,
            type_kind: TypeKind::ByteStr,
            size: 13,
            time_units: None,
        }
        .to_string(),
        "|S13",
    );

    assert_eq!(
        TypeStr {
            endianness: Endianness::Big,
            type_kind: TypeKind::TimeDelta,
            size: 8,
            time_units: Some(TimeUnits::Nanosecond),
        }
        .to_string(),
        ">m8[ns]",
    );
}

#[test]
fn type_str_roundtrip() {
    for text in [
        ">i8", ">f16", "<i8", "<i1", ">i1", "|i1", "|S7", "|S0", "<S0", ">U3", "<m8[D]", ">m8[ms]",
    ] {
        match text.parse::<TypeStr>() {
            Err(e) => panic!("Failed to parse {:?}: {:?}", text, e),
            Ok(v) => assert_eq!(text, v.to_string()),
        }
    }
}

#[test]
fn one_byte_int_without_endianness() {
    let ty: TypeStr = "|i1".parse().unwrap();
    assert_eq!(
        ty,
        TypeStr {
            endianness: Endianness::Irrelevant,
            type_kind: TypeKind::Int,
            size: 1,
            time_units: None,
        }
    );
    assert!(matches!(kind_of_err("|i8"), TypeStrErrorKind::InvalidEndianness(_)));
}

#[test]
fn every_time_unit_round_trips() {
    for unit in ["Y", "M", "W", "D", "h", "m", "s", "ms", "us", "ns", "ps", "fs", "as"] {
        let text = format!("<M8[{}]", unit);
        let ty: TypeStr = text.parse().unwrap();
        assert_eq!(ty.to_string(), text);
    }
}

#[test]
fn leading_zero_size_is_read_but_not_kept() {
    let ty: TypeStr = "<i04".parse().unwrap();
    assert_eq!(ty.size, 4);
    assert_eq!(ty.to_string(), "<i4");
}

#[test]
fn largest_size_parses_and_one_more_overflows() {
    let ty: TypeStr = "|S18446744073709551615".parse().unwrap();
    assert_eq!(ty.size, u64::MAX);
    assert_eq!(ty.to_string(), "|S18446744073709551615");
    assert_eq!(kind_of_err("|S18446744073709551616"), TypeStrErrorKind::SizeOverflow);
}

#[test]
fn new_checks_the_rules() {
    assert!(TypeStr::new(Endianness::Little, TypeKind::Float, 8, None).is_ok());
    assert!(matches!(
        TypeStr::new(Endianness::Little, TypeKind::Float, 3, None),
        Err(ParseTypeStrError(TypeStrErrorKind::InvalidSize(_)))
    ));
    assert!(matches!(
        TypeStr::new(Endianness::Little, TypeKind::DateTime, 8, None),
        Err(ParseTypeStrError(TypeStrErrorKind::MissingOrUnexpectedUnits(_)))
    ));
}

#[test]
fn num_bytes_counts_code_points_as_four() {
    let u: TypeStr = ">U3".parse().unwrap();
    assert_eq!(u.num_bytes(), Some(12));
    let s: TypeStr = "|S3".parse().unwrap();
    assert_eq!(s.num_bytes(), Some(3));
}

#[test]
fn machine_endianness_is_a_byte_order() {
    let e = Endianness::of_machine();
    if 1 == i32::from_be(1) {
        assert_eq!(e, Endianness::Big);
    } else {
        assert_eq!(e, Endianness::Little);
    }
}

#[test]
fn probe_decides_the_byte_order() {
    assert_eq!(Endianness::endianness_of_probe(1), Endianness::Big);
    assert_eq!(Endianness::endianness_of_probe(0x0100_0000), Endianness::Little);
}
