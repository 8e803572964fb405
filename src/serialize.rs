//! The serialization protocol: for a Rust type and a dtype, a reader that
//! decodes one value from bytes, or a writer that encodes one value, with
//! the dtype checked when the reader or writer is made.
use vstd::prelude::*;
use core::marker::PhantomData;
use std::rc::Rc;
use std::sync::Arc;
use crate::bytes::{le_bytes, lemma_one_byte, lemma_reverse_swaps, pow256, read_le, reverse_bytes, uint_bytes, uint_value, write_le};
use crate::dtype::{
    DType, DTypeModel, Field, FieldModel, descr_text, dtype_bytes, field_models, lemma_record_model,
    shape_product,
};
use crate::type_str::{Endianness, TypeKind, TypeStr, decimal_text, push_decimal, type_str_text};

verus! {

broadcast use vstd::std_specs::vec::group_vec_axioms;

/// Decodes one value from the front of a byte slice.
pub trait TypeRead {
    /// The type of the decoded value.
    type Value;

    /// The number of bytes one value takes.
    spec fn width(&self) -> nat;

    /// Whether `value` is what the bytes `bytes`, `width` of them, decode to.
    spec fn decodes(&self, bytes: Seq<u8>, value: Self::Value) -> bool;

    /// Decodes a value from the first `width` bytes and returns it with the
    /// bytes that follow.
    fn read_one<'a>(&self, bytes: &'a [u8]) -> (r: (Self::Value, &'a [u8]))
        requires
            bytes@.len() >= self.width(),
        ensures
            self.decodes(bytes@.subrange(0, self.width() as int), r.0),
            r.1@ == bytes@.subrange(self.width() as int, bytes@.len() as int),
    ;
}

/// Why a value could not be written.
#[derive(Debug, Clone, Copy, PartialEq, Eq, Structural)]
pub struct WriteError {
    /// The length of the value given.
    pub len: usize,
    /// The type-string it was to be written as.
    pub type_str: TypeStr,
}

/// Encodes one value at the end of a byte buffer.
pub trait TypeWrite {
    /// The type of the encoded value.
    type Value: ?Sized;

    /// The bytes `value` is written as, or `None` where it cannot be written.
    spec fn encodes(&self, value: &Self::Value) -> Option<Seq<u8>>;

    /// Appends the encoding of `value` to `out`. On error what was appended
    /// so far stays.
    fn write_one(&self, out: &mut Vec<u8>, value: &Self::Value) -> (r: Result<(), WriteError>)
        ensures
            match self.encodes(value) {
                Some(b) => r is Ok && final(out)@ == old(out)@ + b,
                None => r is Err && old(out)@.is_prefix_of(final(out)@),
            },
    ;
}

/// The kinds of [`DTypeError`].
#[derive(Debug, Clone)]
pub enum DTypeErrorKind {
    /// A message of the caller's own.
    Custom(String),
    /// The Rust type needs a scalar dtype; the text of the dtype given.
    ExpectedScalar { dtype: String, rust_type: &'static str },
    /// A Rust array needs a dtype with a shape; `got` says what was given.
    ExpectedArray { got: &'static str },
    /// The dtype's first dimension differs from the Rust array's length.
    WrongArrayLen { expected: u64, actual: u64 },
    /// A record type was bound to a scalar dtype.
    ExpectedRecord { type_str: TypeStr },
    /// The dtype's field names differ from the record type's.
    WrongFields { expected: Vec<String>, actual: Vec<String> },
    /// The Rust type cannot be read or written with this type-string.
    BadScalar { type_str: TypeStr, rust_type: &'static str, verb: &'static str },
    /// A size does not fit in `usize`.
    UsizeOverflow(u64),
}

/// Indicates that a Rust type does not support reading or writing as a
/// given [`DType`].
#[derive(Debug, Clone)]
pub struct DTypeError(pub DTypeErrorKind);

impl DTypeError {
    /// An error with a message of the caller's own.
    pub fn custom(msg: &str) -> (r: Self)
        ensures
            r.0 matches DTypeErrorKind::Custom(m) && m@ == msg@,
    {
        DTypeError(DTypeErrorKind::Custom(String::from_str(msg)))
    }

    /// The Rust type `rust_type` cannot be read or written (`verb`) as `type_str`.
    pub fn bad_scalar(verb: &'static str, type_str: &TypeStr, rust_type: &'static str) -> (r: Self)
        ensures
            r.0 == (DTypeErrorKind::BadScalar { type_str: *type_str, rust_type, verb }),
    {
        DTypeError(DTypeErrorKind::BadScalar { type_str: *type_str, rust_type, verb })
    }

    /// The Rust type `rust_type` needs a scalar dtype, not `dtype`.
    pub fn expected_scalar(dtype: &DType, rust_type: &'static str) -> (r: Self)
        ensures
            r.0 matches DTypeErrorKind::ExpectedScalar { dtype: d, rust_type: t } && d@
                == descr_text(dtype.model()) && t == rust_type,
    {
        DTypeError(DTypeErrorKind::ExpectedScalar { dtype: dtype.descr(), rust_type })
    }

    /// The size `x` does not fit in `usize`.
    pub fn bad_usize(x: u64) -> (r: Self)
        ensures
            r.0 == DTypeErrorKind::UsizeOverflow(x),
    {
        DTypeError(DTypeErrorKind::UsizeOverflow(x))
    }

    /// A record type was bound to the scalar type `type_str`.
    pub fn expected_record(type_str: &TypeStr) -> (r: Self)
        ensures
            r.0 == (DTypeErrorKind::ExpectedRecord { type_str: *type_str }),
    {
        DTypeError(DTypeErrorKind::ExpectedRecord { type_str: *type_str })
    }

    /// The record type's field names `expected` differ from the dtype's `actual`.
    pub fn wrong_fields(expected: Vec<String>, actual: Vec<String>) -> (r: Self)
        ensures
            r.0 == (DTypeErrorKind::WrongFields { expected, actual }),
    {
        DTypeError(DTypeErrorKind::WrongFields { expected, actual })
    }
}

/// The type-string of a scalar dtype: a plain dtype with an empty shape.
pub open spec fn scalar_of(d: DTypeModel) -> Option<TypeStr> {
    match d {
        DTypeModel::Plain { ty, shape } => if shape.len() == 0 {
            Some(ty)
        } else {
            None
        },
        _ => None,
    }
}

impl DType {
    /// The type-string of a scalar dtype.
    pub fn as_scalar(&self) -> (r: Option<TypeStr>)
        ensures
            r == scalar_of(self.model()),
    {
        match self {
            DType::Plain { ty, shape } => if shape.len() == 0 {
                Some(*ty)
            } else {
                None
            },
            DType::Record(_) => None,
        }
    }

    /// The scalar dtype of a type-string.
    pub fn new_scalar(ty: TypeStr) -> (r: DType)
        ensures
            r.model() == (DTypeModel::Plain { ty, shape: Seq::empty() }),
    {
        let r = DType::Plain { ty, shape: Vec::new() };
        proof {
            assert(r.model() == (DTypeModel::Plain { ty, shape: Seq::empty() }));
        }
        r
    }
}

/// The error for binding the Rust type `rust_type` to `d`, which is not a
/// scalar dtype: it names the type and holds the dtype's text.
pub open spec fn expected_scalar_error(e: DTypeErrorKind, d: DTypeModel, rust_type: &'static str) -> bool {
    e matches DTypeErrorKind::ExpectedScalar { dtype, rust_type: t } && dtype@ == descr_text(d)
        && t == rust_type
}

fn expect_scalar_dtype(dtype: &DType, rust_type: &'static str) -> (r: Result<TypeStr, DTypeError>)
    ensures
        match r {
            Ok(t) => scalar_of(dtype.model()) == Some(t),
            Err(e) => scalar_of(dtype.model()) is None && expected_scalar_error(
                e.0,
                dtype.model(),
                rust_type,
            ),
        },
{
    match dtype.as_scalar() {
        Some(t) => Ok(t),
        None => Err(DTypeError::expected_scalar(dtype, rust_type)),
    }
}

fn is_valid(ty: &TypeStr) -> (r: bool)
    ensures
        r == ty.valid(),
{
    ty.validate().is_ok()
}


/// A type that can be read from bytes laid out as a dtype.
pub trait Deserialize: Sized {
    /// The reader this type makes.
    type Reader: TypeRead<Value = Self>;

    /// Whether values of this type can be read as `dtype`.
    spec fn reads_as(dtype: DTypeModel) -> bool;

    /// The number of bytes one value of `dtype` takes.
    spec fn read_width(dtype: DTypeModel) -> nat;

    /// Whether `value` is what `bytes` hold when laid out as `dtype`.
    spec fn read_spec(dtype: DTypeModel, bytes: Seq<u8>, value: Self) -> bool;

    /// A reader for values laid out as `dtype`, or why there is none.
    fn reader(dtype: &DType) -> (r: Result<Self::Reader, DTypeError>)
        ensures
            r is Ok <==> Self::reads_as(dtype.model()),
            r matches Ok(rd) ==> rd.width() == dtype_bytes(dtype.model()),
            r matches Ok(rd) ==> rd.width() == Self::read_width(dtype.model()) && (forall|
                b: Seq<u8>,
                v: Self,
            |
                b.len() == rd.width() ==> (#[trigger] rd.decodes(b, v) <==> Self::read_spec(
                    dtype.model(),
                    b,
                    v,
                ))),
    ;
}

/// A type that can be written as bytes laid out as a dtype.
pub trait Serialize {
    /// The writer this type makes.
    type Writer: TypeWrite<Value = Self>;

    /// Whether values of this type can be written as `dtype`.
    spec fn writes_as(dtype: DTypeModel) -> bool;

    /// The bytes `value` is written as when laid out as `dtype`, or `None`
    /// where it cannot be written so.
    spec fn write_spec(dtype: DTypeModel, value: &Self) -> Option<Seq<u8>>;

    /// A writer for values laid out as `dtype`, or why there is none.
    fn writer(dtype: &DType) -> (r: Result<Self::Writer, DTypeError>)
        ensures
            r is Ok <==> Self::writes_as(dtype.model()),
            r matches Ok(w) ==> forall|v: &Self| #[trigger] w.encodes(v) == Self::write_spec(
                dtype.model(),
                v,
            ),
    ;
}

/// A type with a dtype of its own, used where none is given.
pub trait AutoSerialize: Serialize {
    /// Whether this type has a default dtype.
    spec fn has_default() -> bool;

    /// Whether `dtype` is one this type may take as its default: it differs
    /// between machines only in the byte order.
    spec fn default_spec(dtype: DTypeModel) -> bool;

    /// The default dtype: for a scalar, `|` where the byte order does not
    /// matter and the machine's byte order elsewhere.
    fn default_dtype() -> (r: DType)
        requires
            Self::has_default(),
        ensures
            Self::default_spec(r.model()),
            Self::writes_as(r.model()),
    ;
}

/// Whether bytes are taken big-endian by a reader or writer that works in
/// the `native` order and swaps where `swap`.
pub open spec fn swapped_big(swap: bool, native: Endianness) -> bool {
    (native == Endianness::Big) != swap
}

/// Whether a scalar dtype stores its bytes big-endian.
pub open spec fn scalar_big(d: DTypeModel) -> bool {
    match scalar_of(d) {
        Some(ty) => ty.endianness == Endianness::Big,
        None => false,
    }
}

/// Whether a scalar dtype binds to an integer of `size` bytes: integers of
/// the same signedness, and the time kind of the same size (signed for
/// `m`, unsigned for `M`).
pub open spec fn int_binds(d: DTypeModel, size: u64, signed: bool) -> bool {
    match scalar_of(d) {
        Some(ty) => ty.valid() && ty.size == size && if signed {
            ty.type_kind == TypeKind::Int || ty.type_kind == TypeKind::TimeDelta
        } else {
            ty.type_kind == TypeKind::Uint || ty.type_kind == TypeKind::DateTime
        },
        None => false,
    }
}

/// Whether a scalar dtype binds to a float's bits of `size` bytes.
pub open spec fn float_binds(d: DTypeModel, size: u64) -> bool {
    match scalar_of(d) {
        Some(ty) => ty.valid() && ty.size == size && ty.type_kind == TypeKind::Float,
        None => false,
    }
}

/// Reads an `n`-byte unsigned number: the bytes are taken in the machine's
/// order, after a byte swap where `swap`.
fn read_swapped(bytes: &[u8], n: usize, swap: bool, native: Endianness) -> (r: u64)
    requires
        1 <= n <= 8,
        n <= bytes@.len(),
    ensures
        r == uint_value(bytes@.subrange(0, n as int), swapped_big(swap, native)),
        r < pow256(n as nat),
{
    let ghost b = bytes@.subrange(0, n as int);
    let mut buf = vstd::slice::slice_to_vec(&bytes[0..n]);
    if swap {
        reverse_bytes(&mut buf);
    }
    if native == Endianness::Big {
        reverse_bytes(&mut buf);
    }
    let r = read_le(buf.as_slice(), n);
    proof {
        assert(buf@.subrange(0, n as int) =~= buf@);
        lemma_reverse_swaps(b);
        assert(b.reverse().reverse() =~= b);
        crate::bytes::lemma_le_value_bound(buf@);
    }
    r
}

/// Appends the `n` low bytes of `x` in the machine's order, byte-swapped
/// where `swap`.
fn write_swapped(out: &mut Vec<u8>, x: u64, n: usize, swap: bool, native: Endianness)
    requires
        n <= 8,
    ensures
        final(out)@ == old(out)@ + uint_bytes(x as nat, n as nat, swapped_big(swap, native)),
{
    let mut buf = write_le(x, n);
    if native == Endianness::Big {
        reverse_bytes(&mut buf);
    }
    if swap {
        reverse_bytes(&mut buf);
    }
    proof {
        assert(le_bytes(x as nat, n as nat).reverse().reverse() =~= le_bytes(x as nat, n as nat));
    }
    out.append(&mut buf);
}


/// Reads an `i8` stored in either byte order.
pub struct I8Reader {
    swap_byteorder: bool,
    native: Endianness,
}

/// Writes an `i8` in either byte order.
pub struct I8Writer {
    swap_byteorder: bool,
    native: Endianness,
}

impl TypeRead for I8Reader {
    type Value = i8;

    closed spec fn width(&self) -> nat {
        1
    }

    closed spec fn decodes(&self, bytes: Seq<u8>, value: i8) -> bool {
        value == uint_value(bytes, swapped_big(self.swap_byteorder, self.native)) as i8
    }

    fn read_one<'a>(&self, bytes: &'a [u8]) -> (r: (i8, &'a [u8])) {
        let x = read_swapped(bytes, 1, self.swap_byteorder, self.native);
        (x as i8, &bytes[1..bytes.len()])
    }
}

impl TypeWrite for I8Writer {
    type Value = i8;

    closed spec fn encodes(&self, value: &i8) -> Option<Seq<u8>> {
        Some(uint_bytes((*value as u8) as nat, 1, swapped_big(self.swap_byteorder, self.native)))
    }

    fn write_one(&self, out: &mut Vec<u8>, value: &i8) -> (r: Result<(), WriteError>) {
        write_swapped(out, (*value as u8) as u64, 1, self.swap_byteorder, self.native);
        Ok(())
    }
}

impl Deserialize for i8 {
    type Reader = I8Reader;

    open spec fn reads_as(dtype: DTypeModel) -> bool {
        int_binds(dtype, 1, true)
    }

    open spec fn read_width(dtype: DTypeModel) -> nat {
        1
    }

    open spec fn read_spec(dtype: DTypeModel, bytes: Seq<u8>, value: i8) -> bool {
        value == uint_value(bytes, scalar_big(dtype)) as i8
    }

    fn reader(dtype: &DType) -> (r: Result<I8Reader, DTypeError>)
        ensures
            r matches Err(e) ==> (scalar_of(dtype.model()) is None ==> expected_scalar_error(
                e.0,
                dtype.model(),
                "i8",
            )) && (scalar_of(dtype.model()) matches Some(ty) ==> e.0 == (DTypeErrorKind::BadScalar {
                type_str: ty,
                rust_type: "i8",
                verb: "read",
            })),
    {
        let ty = expect_scalar_dtype(dtype, "i8")?;
        if ty.size == 1 && (ty.type_kind == TypeKind::Int || ty.type_kind == TypeKind::TimeDelta)
            && is_valid(&ty) {
            let native = Endianness::of_machine();
            let swap_byteorder = ty.endianness.requires_swap(native);
            let rd = I8Reader { swap_byteorder, native };
            proof {
                assert forall|b: Seq<u8>, v: i8| b.len() == 1 implies (#[trigger] rd.decodes(b, v)
                    <==> <i8 as Deserialize>::read_spec(dtype.model(), b, v)) by {
                    lemma_one_byte(b);
                }
            }
            Ok(rd)
        } else {
            Err(DTypeError::bad_scalar("read", &ty, "i8"))
        }
    }
}

impl Serialize for i8 {
    type Writer = I8Writer;

    open spec fn writes_as(dtype: DTypeModel) -> bool {
        int_binds(dtype, 1, true)
    }

    open spec fn write_spec(dtype: DTypeModel, value: &i8) -> Option<Seq<u8>> {
        Some(uint_bytes((*value as u8) as nat, 1, scalar_big(dtype)))
    }

    fn writer(dtype: &DType) -> (r: Result<I8Writer, DTypeError>)
        ensures
            r matches Err(e) ==> (scalar_of(dtype.model()) is None ==> expected_scalar_error(
                e.0,
                dtype.model(),
                "i8",
            )) && (scalar_of(dtype.model()) matches Some(ty) ==> e.0 == (DTypeErrorKind::BadScalar {
                type_str: ty,
                rust_type: "i8",
                verb: "write",
            })),
    {
        let ty = expect_scalar_dtype(dtype, "i8")?;
        if ty.size == 1 && (ty.type_kind == TypeKind::Int || ty.type_kind == TypeKind::TimeDelta)
            && is_valid(&ty) {
            let native = Endianness::of_machine();
            let swap_byteorder = ty.endianness.requires_swap(native);
            let w = I8Writer { swap_byteorder, native };
            proof {
                assert forall|v: &i8| #[trigger] w.encodes(v) == <i8 as Serialize>::write_spec(
                    dtype.model(),
                    v,
                ) by {
                    let x = (*v as u8) as nat;
                    assert(le_bytes(x, 1).reverse() =~= le_bytes(x, 1));
                }
            }
            Ok(w)
        } else {
            Err(DTypeError::bad_scalar("write", &ty, "i8"))
        }
    }
}

impl AutoSerialize for i8 {
    open spec fn has_default() -> bool {
        true
    }

    open spec fn default_spec(dtype: DTypeModel) -> bool {
        exists|e: Endianness|
            e == Endianness::Irrelevant && dtype == (DTypeModel::Plain {
                ty: TypeStr { endianness: e, type_kind: TypeKind::Int, size: 1, time_units: None },
                shape: Seq::empty(),
            })
    }

    fn default_dtype() -> (r: DType) {
        let ty = TypeStr::with_auto_endianness(TypeKind::Int, 1, None);
        let r = DType::new_scalar(ty);
        proof {
            assert(ty == TypeStr { endianness: ty.endianness, type_kind: TypeKind::Int, size: 1, time_units: None });
        }
        r
    }
}

/// Reads an `i16` stored in either byte order.
pub struct I16Reader {
    swap_byteorder: bool,
    native: Endianness,
}

/// Writes an `i16` in either byte order.
pub struct I16Writer {
    swap_byteorder: bool,
    native: Endianness,
}

impl TypeRead for I16Reader {
    type Value = i16;

    closed spec fn width(&self) -> nat {
        2
    }

    closed spec fn decodes(&self, bytes: Seq<u8>, value: i16) -> bool {
        value == uint_value(bytes, swapped_big(self.swap_byteorder, self.native)) as i16
    }

    fn read_one<'a>(&self, bytes: &'a [u8]) -> (r: (i16, &'a [u8])) {
        let x = read_swapped(bytes, 2, self.swap_byteorder, self.native);
        (x as i16, &bytes[2..bytes.len()])
    }
}

impl TypeWrite for I16Writer {
    type Value = i16;

    closed spec fn encodes(&self, value: &i16) -> Option<Seq<u8>> {
        Some(uint_bytes((*value as u16) as nat, 2, swapped_big(self.swap_byteorder, self.native)))
    }

    fn write_one(&self, out: &mut Vec<u8>, value: &i16) -> (r: Result<(), WriteError>) {
        write_swapped(out, (*value as u16) as u64, 2, self.swap_byteorder, self.native);
        Ok(())
    }
}

impl Deserialize for i16 {
    type Reader = I16Reader;

    open spec fn reads_as(dtype: DTypeModel) -> bool {
        int_binds(dtype, 2, true)
    }

    open spec fn read_width(dtype: DTypeModel) -> nat {
        2
    }

    open spec fn read_spec(dtype: DTypeModel, bytes: Seq<u8>, value: i16) -> bool {
        value == uint_value(bytes, scalar_big(dtype)) as i16
    }

    fn reader(dtype: &DType) -> (r: Result<I16Reader, DTypeError>)
        ensures
            r matches Err(e) ==> (scalar_of(dtype.model()) is None ==> expected_scalar_error(
                e.0,
                dtype.model(),
                "i16",
            )) && (scalar_of(dtype.model()) matches Some(ty) ==> e.0 == (DTypeErrorKind::BadScalar {
                type_str: ty,
                rust_type: "i16",
                verb: "read",
            })),
    {
        let ty = expect_scalar_dtype(dtype, "i16")?;
        if ty.size == 2 && (ty.type_kind == TypeKind::Int || ty.type_kind == TypeKind::TimeDelta)
            && is_valid(&ty) {
            let native = Endianness::of_machine();
            let swap_byteorder = ty.endianness.requires_swap(native);
            let rd = I16Reader { swap_byteorder, native };
            proof {
                assert(swapped_big(swap_byteorder, native) == scalar_big(dtype.model()));
            }
            Ok(rd)
        } else {
            Err(DTypeError::bad_scalar("read", &ty, "i16"))
        }
    }
}

impl Serialize for i16 {
    type Writer = I16Writer;

    open spec fn writes_as(dtype: DTypeModel) -> bool {
        int_binds(dtype, 2, true)
    }

    open spec fn write_spec(dtype: DTypeModel, value: &i16) -> Option<Seq<u8>> {
        Some(uint_bytes((*value as u16) as nat, 2, scalar_big(dtype)))
    }

    fn writer(dtype: &DType) -> (r: Result<I16Writer, DTypeError>)
        ensures
            r matches Err(e) ==> (scalar_of(dtype.model()) is None ==> expected_scalar_error(
                e.0,
                dtype.model(),
                "i16",
            )) && (scalar_of(dtype.model()) matches Some(ty) ==> e.0 == (DTypeErrorKind::BadScalar {
                type_str: ty,
                rust_type: "i16",
                verb: "write",
            })),
    {
        let ty = expect_scalar_dtype(dtype, "i16")?;
        if ty.size == 2 && (ty.type_kind == TypeKind::Int || ty.type_kind == TypeKind::TimeDelta)
            && is_valid(&ty) {
            let native = Endianness::of_machine();
            let swap_byteorder = ty.endianness.requires_swap(native);
            let w = I16Writer { swap_byteorder, native };
            proof {
                assert(swapped_big(swap_byteorder, native) == scalar_big(dtype.model()));
            }
            Ok(w)
        } else {
            Err(DTypeError::bad_scalar("write", &ty, "i16"))
        }
    }
}

impl AutoSerialize for i16 {
    open spec fn has_default() -> bool {
        true
    }

    open spec fn default_spec(dtype: DTypeModel) -> bool {
        exists|e: Endianness|
            (e == Endianness::Little || e == Endianness::Big) && dtype == (DTypeModel::Plain {
                ty: TypeStr { endianness: e, type_kind: TypeKind::Int, size: 2, time_units: None },
                shape: Seq::empty(),
            })
    }

    fn default_dtype() -> (r: DType) {
        let ty = TypeStr::with_auto_endianness(TypeKind::Int, 2, None);
        let r = DType::new_scalar(ty);
        proof {
            assert(ty == TypeStr { endianness: ty.endianness, type_kind: TypeKind::Int, size: 2, time_units: None });
        }
        r
    }
}

/// Reads an `i32` stored in either byte order.
pub struct I32Reader {
    swap_byteorder: bool,
    native: Endianness,
}

/// Writes an `i32` in either byte order.
pub struct I32Writer {
    swap_byteorder: bool,
    native: Endianness,
}

impl TypeRead for I32Reader {
    type Value = i32;

    closed spec fn width(&self) -> nat {
        4
    }

    closed spec fn decodes(&self, bytes: Seq<u8>, value: i32) -> bool {
        value == uint_value(bytes, swapped_big(self.swap_byteorder, self.native)) as i32
    }

    fn read_one<'a>(&self, bytes: &'a [u8]) -> (r: (i32, &'a [u8])) {
        let x = read_swapped(bytes, 4, self.swap_byteorder, self.native);
        (x as i32, &bytes[4..bytes.len()])
    }
}

impl TypeWrite for I32Writer {
    type Value = i32;

    closed spec fn encodes(&self, value: &i32) -> Option<Seq<u8>> {
        Some(uint_bytes((*value as u32) as nat, 4, swapped_big(self.swap_byteorder, self.native)))
    }

    fn write_one(&self, out: &mut Vec<u8>, value: &i32) -> (r: Result<(), WriteError>) {
        write_swapped(out, (*value as u32) as u64, 4, self.swap_byteorder, self.native);
        Ok(())
    }
}

impl Deserialize for i32 {
    type Reader = I32Reader;

    open spec fn reads_as(dtype: DTypeModel) -> bool {
        int_binds(dtype, 4, true)
    }

    open spec fn read_width(dtype: DTypeModel) -> nat {
        4
    }

    open spec fn read_spec(dtype: DTypeModel, bytes: Seq<u8>, value: i32) -> bool {
        value == uint_value(bytes, scalar_big(dtype)) as i32
    }

    fn reader(dtype: &DType) -> (r: Result<I32Reader, DTypeError>)
        ensures
            r matches Err(e) ==> (scalar_of(dtype.model()) is None ==> expected_scalar_error(
                e.0,
                dtype.model(),
                "i32",
            )) && (scalar_of(dtype.model()) matches Some(ty) ==> e.0 == (DTypeErrorKind::BadScalar {
                type_str: ty,
                rust_type: "i32",
                verb: "read",
            })),
    {
        let ty = expect_scalar_dtype(dtype, "i32")?;
        if ty.size == 4 && (ty.type_kind == TypeKind::Int || ty.type_kind == TypeKind::TimeDelta)
            && is_valid(&ty) {
            let native = Endianness::of_machine();
            let swap_byteorder = ty.endianness.requires_swap(native);
            let rd = I32Reader { swap_byteorder, native };
            proof {
                assert(swapped_big(swap_byteorder, native) == scalar_big(dtype.model()));
            }
            Ok(rd)
        } else {
            Err(DTypeError::bad_scalar("read", &ty, "i32"))
        }
    }
}

impl Serialize for i32 {
    type Writer = I32Writer;

    open spec fn writes_as(dtype: DTypeModel) -> bool {
        int_binds(dtype, 4, true)
    }

    open spec fn write_spec(dtype: DTypeModel, value: &i32) -> Option<Seq<u8>> {
        Some(uint_bytes((*value as u32) as nat, 4, scalar_big(dtype)))
    }

    fn writer(dtype: &DType) -> (r: Result<I32Writer, DTypeError>)
        ensures
            r matches Err(e) ==> (scalar_of(dtype.model()) is None ==> expected_scalar_error(
                e.0,
                dtype.model(),
                "i32",
            )) && (scalar_of(dtype.model()) matches Some(ty) ==> e.0 == (DTypeErrorKind::BadScalar {
                type_str: ty,
                rust_type: "i32",
                verb: "write",
            })),
    {
        let ty = expect_scalar_dtype(dtype, "i32")?;
        if ty.size == 4 && (ty.type_kind == TypeKind::Int || ty.type_kind == TypeKind::TimeDelta)
            && is_valid(&ty) {
            let native = Endianness::of_machine();
            let swap_byteorder = ty.endianness.requires_swap(native);
            let w = I32Writer { swap_byteorder, native };
            proof {
                assert(swapped_big(swap_byteorder, native) == scalar_big(dtype.model()));
            }
            Ok(w)
        } else {
            Err(DTypeError::bad_scalar("write", &ty, "i32"))
        }
    }
}

impl AutoSerialize for i32 {
    open spec fn has_default() -> bool {
        true
    }

    open spec fn default_spec(dtype: DTypeModel) -> bool {
        exists|e: Endianness|
            (e == Endianness::Little || e == Endianness::Big) && dtype == (DTypeModel::Plain {
                ty: TypeStr { endianness: e, type_kind: TypeKind::Int, size: 4, time_units: None },
                shape: Seq::empty(),
            })
    }

    fn default_dtype() -> (r: DType) {
        let ty = TypeStr::with_auto_endianness(TypeKind::Int, 4, None);
        let r = DType::new_scalar(ty);
        proof {
            assert(ty == TypeStr { endianness: ty.endianness, type_kind: TypeKind::Int, size: 4, time_units: None });
        }
        r
    }
}

/// Reads an `i64` stored in either byte order.
pub struct I64Reader {
    swap_byteorder: bool,
    native: Endianness,
}

/// Writes an `i64` in either byte order.
pub struct I64Writer {
    swap_byteorder: bool,
    native: Endianness,
}

impl TypeRead for I64Reader {
    type Value = i64;

    closed spec fn width(&self) -> nat {
        8
    }

    closed spec fn decodes(&self, bytes: Seq<u8>, value: i64) -> bool {
        value == uint_value(bytes, swapped_big(self.swap_byteorder, self.native)) as i64
    }

    fn read_one<'a>(&self, bytes: &'a [u8]) -> (r: (i64, &'a [u8])) {
        let x = read_swapped(bytes, 8, self.swap_byteorder, self.native);
        (x as i64, &bytes[8..bytes.len()])
    }
}

impl TypeWrite for I64Writer {
    type Value = i64;

    closed spec fn encodes(&self, value: &i64) -> Option<Seq<u8>> {
        Some(uint_bytes((*value as u64) as nat, 8, swapped_big(self.swap_byteorder, self.native)))
    }

    fn write_one(&self, out: &mut Vec<u8>, value: &i64) -> (r: Result<(), WriteError>) {
        write_swapped(out, (*value as u64) as u64, 8, self.swap_byteorder, self.native);
        Ok(())
    }
}

impl Deserialize for i64 {
    type Reader = I64Reader;

    open spec fn reads_as(dtype: DTypeModel) -> bool {
        int_binds(dtype, 8, true)
    }

    open spec fn read_width(dtype: DTypeModel) -> nat {
        8
    }

    open spec fn read_spec(dtype: DTypeModel, bytes: Seq<u8>, value: i64) -> bool {
        value == uint_value(bytes, scalar_big(dtype)) as i64
    }

    fn reader(dtype: &DType) -> (r: Result<I64Reader, DTypeError>)
        ensures
            r matches Err(e) ==> (scalar_of(dtype.model()) is None ==> expected_scalar_error(
                e.0,
                dtype.model(),
                "i64",
            )) && (scalar_of(dtype.model()) matches Some(ty) ==> e.0 == (DTypeErrorKind::BadScalar {
                type_str: ty,
                rust_type: "i64",
                verb: "read",
            })),
    {
        let ty = expect_scalar_dtype(dtype, "i64")?;
        if ty.size == 8 && (ty.type_kind == TypeKind::Int || ty.type_kind == TypeKind::TimeDelta)
            && is_valid(&ty) {
            let native = Endianness::of_machine();
            let swap_byteorder = ty.endianness.requires_swap(native);
            let rd = I64Reader { swap_byteorder, native };
            proof {
                assert(swapped_big(swap_byteorder, native) == scalar_big(dtype.model()));
            }
            Ok(rd)
        } else {
            Err(DTypeError::bad_scalar("read", &ty, "i64"))
        }
    }
}

impl Serialize for i64 {
    type Writer = I64Writer;

    open spec fn writes_as(dtype: DTypeModel) -> bool {
        int_binds(dtype, 8, true)
    }

    open spec fn write_spec(dtype: DTypeModel, value: &i64) -> Option<Seq<u8>> {
        Some(uint_bytes((*value as u64) as nat, 8, scalar_big(dtype)))
    }

    fn writer(dtype: &DType) -> (r: Result<I64Writer, DTypeError>)
        ensures
            r matches Err(e) ==> (scalar_of(dtype.model()) is None ==> expected_scalar_error(
                e.0,
                dtype.model(),
                "i64",
            )) && (scalar_of(dtype.model()) matches Some(ty) ==> e.0 == (DTypeErrorKind::BadScalar {
                type_str: ty,
                rust_type: "i64",
                verb: "write",
            })),
    {
        let ty = expect_scalar_dtype(dtype, "i64")?;
        if ty.size == 8 && (ty.type_kind == TypeKind::Int || ty.type_kind == TypeKind::TimeDelta)
            && is_valid(&ty) {
            let native = Endianness::of_machine();
            let swap_byteorder = ty.endianness.requires_swap(native);
            let w = I64Writer { swap_byteorder, native };
            proof {
                assert(swapped_big(swap_byteorder, native) == scalar_big(dtype.model()));
            }
            Ok(w)
        } else {
            Err(DTypeError::bad_scalar("write", &ty, "i64"))
        }
    }
}

impl AutoSerialize for i64 {
    open spec fn has_default() -> bool {
        true
    }

    open spec fn default_spec(dtype: DTypeModel) -> bool {
        exists|e: Endianness|
            (e == Endianness::Little || e == Endianness::Big) && dtype == (DTypeModel::Plain {
                ty: TypeStr { endianness: e, type_kind: TypeKind::Int, size: 8, time_units: None },
                shape: Seq::empty(),
            })
    }

    fn default_dtype() -> (r: DType) {
        let ty = TypeStr::with_auto_endianness(TypeKind::Int, 8, None);
        let r = DType::new_scalar(ty);
        proof {
            assert(ty == TypeStr { endianness: ty.endianness, type_kind: TypeKind::Int, size: 8, time_units: None });
        }
        r
    }
}

/// Reads an `u8` stored in either byte order.
pub struct U8Reader {
    swap_byteorder: bool,
    native: Endianness,
}

/// Writes an `u8` in either byte order.
pub struct U8Writer {
    swap_byteorder: bool,
    native: Endianness,
}

impl TypeRead for U8Reader {
    type Value = u8;

    closed spec fn width(&self) -> nat {
        1
    }

    closed spec fn decodes(&self, bytes: Seq<u8>, value: u8) -> bool {
        value == uint_value(bytes, swapped_big(self.swap_byteorder, self.native)) as u8
    }

    fn read_one<'a>(&self, bytes: &'a [u8]) -> (r: (u8, &'a [u8])) {
        let x = read_swapped(bytes, 1, self.swap_byteorder, self.native);
        (x as u8, &bytes[1..bytes.len()])
    }
}

impl TypeWrite for U8Writer {
    type Value = u8;

    closed spec fn encodes(&self, value: &u8) -> Option<Seq<u8>> {
        Some(uint_bytes((*value as u8) as nat, 1, swapped_big(self.swap_byteorder, self.native)))
    }

    fn write_one(&self, out: &mut Vec<u8>, value: &u8) -> (r: Result<(), WriteError>) {
        write_swapped(out, (*value as u8) as u64, 1, self.swap_byteorder, self.native);
        Ok(())
    }
}

impl Deserialize for u8 {
    type Reader = U8Reader;

    open spec fn reads_as(dtype: DTypeModel) -> bool {
        int_binds(dtype, 1, false)
    }

    open spec fn read_width(dtype: DTypeModel) -> nat {
        1
    }

    open spec fn read_spec(dtype: DTypeModel, bytes: Seq<u8>, value: u8) -> bool {
        value == uint_value(bytes, scalar_big(dtype)) as u8
    }

    fn reader(dtype: &DType) -> (r: Result<U8Reader, DTypeError>)
        ensures
            r matches Err(e) ==> (scalar_of(dtype.model()) is None ==> expected_scalar_error(
                e.0,
                dtype.model(),
                "u8",
            )) && (scalar_of(dtype.model()) matches Some(ty) ==> e.0 == (DTypeErrorKind::BadScalar {
                type_str: ty,
                rust_type: "u8",
                verb: "read",
            })),
    {
        let ty = expect_scalar_dtype(dtype, "u8")?;
        if ty.size == 1 && (ty.type_kind == TypeKind::Uint || ty.type_kind == TypeKind::DateTime)
            && is_valid(&ty) {
            let native = Endianness::of_machine();
            let swap_byteorder = ty.endianness.requires_swap(native);
            let rd = U8Reader { swap_byteorder, native };
            proof {
                assert forall|b: Seq<u8>, v: u8| b.len() == 1 implies (#[trigger] rd.decodes(b, v)
                    <==> <u8 as Deserialize>::read_spec(dtype.model(), b, v)) by {
                    lemma_one_byte(b);
                }
            }
            Ok(rd)
        } else {
            Err(DTypeError::bad_scalar("read", &ty, "u8"))
        }
    }
}

impl Serialize for u8 {
    type Writer = U8Writer;

    open spec fn writes_as(dtype: DTypeModel) -> bool {
        int_binds(dtype, 1, false)
    }

    open spec fn write_spec(dtype: DTypeModel, value: &u8) -> Option<Seq<u8>> {
        Some(uint_bytes((*value as u8) as nat, 1, scalar_big(dtype)))
    }

    fn writer(dtype: &DType) -> (r: Result<U8Writer, DTypeError>)
        ensures
            r matches Err(e) ==> (scalar_of(dtype.model()) is None ==> expected_scalar_error(
                e.0,
                dtype.model(),
                "u8",
            )) && (scalar_of(dtype.model()) matches Some(ty) ==> e.0 == (DTypeErrorKind::BadScalar {
                type_str: ty,
                rust_type: "u8",
                verb: "write",
            })),
    {
        let ty = expect_scalar_dtype(dtype, "u8")?;
        if ty.size == 1 && (ty.type_kind == TypeKind::Uint || ty.type_kind == TypeKind::DateTime)
            && is_valid(&ty) {
            let native = Endianness::of_machine();
            let swap_byteorder = ty.endianness.requires_swap(native);
            let w = U8Writer { swap_byteorder, native };
            proof {
                assert forall|v: &u8| #[trigger] w.encodes(v) == <u8 as Serialize>::write_spec(
                    dtype.model(),
                    v,
                ) by {
                    let x = (*v as u8) as nat;
                    assert(le_bytes(x, 1).reverse() =~= le_bytes(x, 1));
                }
            }
            Ok(w)
        } else {
            Err(DTypeError::bad_scalar("write", &ty, "u8"))
        }
    }
}

impl AutoSerialize for u8 {
    open spec fn has_default() -> bool {
        true
    }

    open spec fn default_spec(dtype: DTypeModel) -> bool {
        exists|e: Endianness|
            e == Endianness::Irrelevant && dtype == (DTypeModel::Plain {
                ty: TypeStr { endianness: e, type_kind: TypeKind::Uint, size: 1, time_units: None },
                shape: Seq::empty(),
            })
    }

    fn default_dtype() -> (r: DType) {
        let ty = TypeStr::with_auto_endianness(TypeKind::Uint, 1, None);
        let r = DType::new_scalar(ty);
        proof {
            assert(ty == TypeStr { endianness: ty.endianness, type_kind: TypeKind::Uint, size: 1, time_units: None });
        }
        r
    }
}

/// Reads an `u16` stored in either byte order.
pub struct U16Reader {
    swap_byteorder: bool,
    native: Endianness,
}

/// Writes an `u16` in either byte order.
pub struct U16Writer {
    swap_byteorder: bool,
    native: Endianness,
}

impl TypeRead for U16Reader {
    type Value = u16;

    closed spec fn width(&self) -> nat {
        2
    }

    closed spec fn decodes(&self, bytes: Seq<u8>, value: u16) -> bool {
        value == uint_value(bytes, swapped_big(self.swap_byteorder, self.native)) as u16
    }

    fn read_one<'a>(&self, bytes: &'a [u8]) -> (r: (u16, &'a [u8])) {
        let x = read_swapped(bytes, 2, self.swap_byteorder, self.native);
        (x as u16, &bytes[2..bytes.len()])
    }
}

impl TypeWrite for U16Writer {
    type Value = u16;

    closed spec fn encodes(&self, value: &u16) -> Option<Seq<u8>> {
        Some(uint_bytes((*value as u16) as nat, 2, swapped_big(self.swap_byteorder, self.native)))
    }

    fn write_one(&self, out: &mut Vec<u8>, value: &u16) -> (r: Result<(), WriteError>) {
        write_swapped(out, (*value as u16) as u64, 2, self.swap_byteorder, self.native);
        Ok(())
    }
}

impl Deserialize for u16 {
    type Reader = U16Reader;

    open spec fn reads_as(dtype: DTypeModel) -> bool {
        int_binds(dtype, 2, false)
    }

    open spec fn read_width(dtype: DTypeModel) -> nat {
        2
    }

    open spec fn read_spec(dtype: DTypeModel, bytes: Seq<u8>, value: u16) -> bool {
        value == uint_value(bytes, scalar_big(dtype)) as u16
    }

    fn reader(dtype: &DType) -> (r: Result<U16Reader, DTypeError>)
        ensures
            r matches Err(e) ==> (scalar_of(dtype.model()) is None ==> expected_scalar_error(
                e.0,
                dtype.model(),
                "u16",
            )) && (scalar_of(dtype.model()) matches Some(ty) ==> e.0 == (DTypeErrorKind::BadScalar {
                type_str: ty,
                rust_type: "u16",
                verb: "read",
            })),
    {
        let ty = expect_scalar_dtype(dtype, "u16")?;
        if ty.size == 2 && (ty.type_kind == TypeKind::Uint || ty.type_kind == TypeKind::DateTime)
            && is_valid(&ty) {
            let native = Endianness::of_machine();
            let swap_byteorder = ty.endianness.requires_swap(native);
            let rd = U16Reader { swap_byteorder, native };
            proof {
                assert(swapped_big(swap_byteorder, native) == scalar_big(dtype.model()));
            }
            Ok(rd)
        } else {
            Err(DTypeError::bad_scalar("read", &ty, "u16"))
        }
    }
}

impl Serialize for u16 {
    type Writer = U16Writer;

    open spec fn writes_as(dtype: DTypeModel) -> bool {
        int_binds(dtype, 2, false)
    }

    open spec fn write_spec(dtype: DTypeModel, value: &u16) -> Option<Seq<u8>> {
        Some(uint_bytes((*value as u16) as nat, 2, scalar_big(dtype)))
    }

    fn writer(dtype: &DType) -> (r: Result<U16Writer, DTypeError>)
        ensures
            r matches Err(e) ==> (scalar_of(dtype.model()) is None ==> expected_scalar_error(
                e.0,
                dtype.model(),
                "u16",
            )) && (scalar_of(dtype.model()) matches Some(ty) ==> e.0 == (DTypeErrorKind::BadScalar {
                type_str: ty,
                rust_type: "u16",
                verb: "write",
            })),
    {
        let ty = expect_scalar_dtype(dtype, "u16")?;
        if ty.size == 2 && (ty.type_kind == TypeKind::Uint || ty.type_kind == TypeKind::DateTime)
            && is_valid(&ty) {
            let native = Endianness::of_machine();
            let swap_byteorder = ty.endianness.requires_swap(native);
            let w = U16Writer { swap_byteorder, native };
            proof {
                assert(swapped_big(swap_byteorder, native) == scalar_big(dtype.model()));
            }
            Ok(w)
        } else {
            Err(DTypeError::bad_scalar("write", &ty, "u16"))
        }
    }
}

impl AutoSerialize for u16 {
    open spec fn has_default() -> bool {
        true
    }

    open spec fn default_spec(dtype: DTypeModel) -> bool {
        exists|e: Endianness|
            (e == Endianness::Little || e == Endianness::Big) && dtype == (DTypeModel::Plain {
                ty: TypeStr { endianness: e, type_kind: TypeKind::Uint, size: 2, time_units: None },
                shape: Seq::empty(),
            })
    }

    fn default_dtype() -> (r: DType) {
        let ty = TypeStr::with_auto_endianness(TypeKind::Uint, 2, None);
        let r = DType::new_scalar(ty);
        proof {
            assert(ty == TypeStr { endianness: ty.endianness, type_kind: TypeKind::Uint, size: 2, time_units: None });
        }
        r
    }
}

/// Reads an `u32` stored in either byte order.
pub struct U32Reader {
    swap_byteorder: bool,
    native: Endianness,
}

/// Writes an `u32` in either byte order.
pub struct U32Writer {
    swap_byteorder: bool,
    native: Endianness,
}

impl TypeRead for U32Reader {
    type Value = u32;

    closed spec fn width(&self) -> nat {
        4
    }

    closed spec fn decodes(&self, bytes: Seq<u8>, value: u32) -> bool {
        value == uint_value(bytes, swapped_big(self.swap_byteorder, self.native)) as u32
    }

    fn read_one<'a>(&self, bytes: &'a [u8]) -> (r: (u32, &'a [u8])) {
        let x = read_swapped(bytes, 4, self.swap_byteorder, self.native);
        (x as u32, &bytes[4..bytes.len()])
    }
}

impl TypeWrite for U32Writer {
    type Value = u32;

    closed spec fn encodes(&self, value: &u32) -> Option<Seq<u8>> {
        Some(uint_bytes((*value as u32) as nat, 4, swapped_big(self.swap_byteorder, self.native)))
    }

    fn write_one(&self, out: &mut Vec<u8>, value: &u32) -> (r: Result<(), WriteError>) {
        write_swapped(out, (*value as u32) as u64, 4, self.swap_byteorder, self.native);
        Ok(())
    }
}

impl Deserialize for u32 {
    type Reader = U32Reader;

    open spec fn reads_as(dtype: DTypeModel) -> bool {
        int_binds(dtype, 4, false)
    }

    open spec fn read_width(dtype: DTypeModel) -> nat {
        4
    }

    open spec fn read_spec(dtype: DTypeModel, bytes: Seq<u8>, value: u32) -> bool {
        value == uint_value(bytes, scalar_big(dtype)) as u32
    }

    fn reader(dtype: &DType) -> (r: Result<U32Reader, DTypeError>)
        ensures
            r matches Err(e) ==> (scalar_of(dtype.model()) is None ==> expected_scalar_error(
                e.0,
                dtype.model(),
                "u32",
            )) && (scalar_of(dtype.model()) matches Some(ty) ==> e.0 == (DTypeErrorKind::BadScalar {
                type_str: ty,
                rust_type: "u32",
                verb: "read",
            })),
    {
        let ty = expect_scalar_dtype(dtype, "u32")?;
        if ty.size == 4 && (ty.type_kind == TypeKind::Uint || ty.type_kind == TypeKind::DateTime)
            && is_valid(&ty) {
            let native = Endianness::of_machine();
            let swap_byteorder = ty.endianness.requires_swap(native);
            let rd = U32Reader { swap_byteorder, native };
            proof {
                assert(swapped_big(swap_byteorder, native) == scalar_big(dtype.model()));
            }
            Ok(rd)
        } else {
            Err(DTypeError::bad_scalar("read", &ty, "u32"))
        }
    }
}

impl Serialize for u32 {
    type Writer = U32Writer;

    open spec fn writes_as(dtype: DTypeModel) -> bool {
        int_binds(dtype, 4, false)
    }

    open spec fn write_spec(dtype: DTypeModel, value: &u32) -> Option<Seq<u8>> {
        Some(uint_bytes((*value as u32) as nat, 4, scalar_big(dtype)))
    }

    fn writer(dtype: &DType) -> (r: Result<U32Writer, DTypeError>)
        ensures
            r matches Err(e) ==> (scalar_of(dtype.model()) is None ==> expected_scalar_error(
                e.0,
                dtype.model(),
                "u32",
            )) && (scalar_of(dtype.model()) matches Some(ty) ==> e.0 == (DTypeErrorKind::BadScalar {
                type_str: ty,
                rust_type: "u32",
                verb: "write",
            })),
    {
        let ty = expect_scalar_dtype(dtype, "u32")?;
        if ty.size == 4 && (ty.type_kind == TypeKind::Uint || ty.type_kind == TypeKind::DateTime)
            && is_valid(&ty) {
            let native = Endianness::of_machine();
            let swap_byteorder = ty.endianness.requires_swap(native);
            let w = U32Writer { swap_byteorder, native };
            proof {
                assert(swapped_big(swap_byteorder, native) == scalar_big(dtype.model()));
            }
            Ok(w)
        } else {
            Err(DTypeError::bad_scalar("write", &ty, "u32"))
        }
    }
}

impl AutoSerialize for u32 {
    open spec fn has_default() -> bool {
        true
    }

    open spec fn default_spec(dtype: DTypeModel) -> bool {
        exists|e: Endianness|
            (e == Endianness::Little || e == Endianness::Big) && dtype == (DTypeModel::Plain {
                ty: TypeStr { endianness: e, type_kind: TypeKind::Uint, size: 4, time_units: None },
                shape: Seq::empty(),
            })
    }

    fn default_dtype() -> (r: DType) {
        let ty = TypeStr::with_auto_endianness(TypeKind::Uint, 4, None);
        let r = DType::new_scalar(ty);
        proof {
            assert(ty == TypeStr { endianness: ty.endianness, type_kind: TypeKind::Uint, size: 4, time_units: None });
        }
        r
    }
}

/// Reads an `u64` stored in either byte order.
pub struct U64Reader {
    swap_byteorder: bool,
    native: Endianness,
}

/// Writes an `u64` in either byte order.
pub struct U64Writer {
    swap_byteorder: bool,
    native: Endianness,
}

impl TypeRead for U64Reader {
    type Value = u64;

    closed spec fn width(&self) -> nat {
        8
    }

    closed spec fn decodes(&self, bytes: Seq<u8>, value: u64) -> bool {
        value == uint_value(bytes, swapped_big(self.swap_byteorder, self.native)) as u64
    }

    fn read_one<'a>(&self, bytes: &'a [u8]) -> (r: (u64, &'a [u8])) {
        let x = read_swapped(bytes, 8, self.swap_byteorder, self.native);
        (x as u64, &bytes[8..bytes.len()])
    }
}

impl TypeWrite for U64Writer {
    type Value = u64;

    closed spec fn encodes(&self, value: &u64) -> Option<Seq<u8>> {
        Some(uint_bytes((*value as u64) as nat, 8, swapped_big(self.swap_byteorder, self.native)))
    }

    fn write_one(&self, out: &mut Vec<u8>, value: &u64) -> (r: Result<(), WriteError>) {
        write_swapped(out, (*value as u64) as u64, 8, self.swap_byteorder, self.native);
        Ok(())
    }
}

impl Deserialize for u64 {
    type Reader = U64Reader;

    open spec fn reads_as(dtype: DTypeModel) -> bool {
        int_binds(dtype, 8, false)
    }

    open spec fn read_width(dtype: DTypeModel) -> nat {
        8
    }

    open spec fn read_spec(dtype: DTypeModel, bytes: Seq<u8>, value: u64) -> bool {
        value == uint_value(bytes, scalar_big(dtype)) as u64
    }

    fn reader(dtype: &DType) -> (r: Result<U64Reader, DTypeError>)
        ensures
            r matches Err(e) ==> (scalar_of(dtype.model()) is None ==> expected_scalar_error(
                e.0,
                dtype.model(),
                "u64",
            )) && (scalar_of(dtype.model()) matches Some(ty) ==> e.0 == (DTypeErrorKind::BadScalar {
                type_str: ty,
                rust_type: "u64",
                verb: "read",
            })),
    {
        let ty = expect_scalar_dtype(dtype, "u64")?;
        if ty.size == 8 && (ty.type_kind == TypeKind::Uint || ty.type_kind == TypeKind::DateTime)
            && is_valid(&ty) {
            let native = Endianness::of_machine();
            let swap_byteorder = ty.endianness.requires_swap(native);
            let rd = U64Reader { swap_byteorder, native };
            proof {
                assert(swapped_big(swap_byteorder, native) == scalar_big(dtype.model()));
            }
            Ok(rd)
        } else {
            Err(DTypeError::bad_scalar("read", &ty, "u64"))
        }
    }
}

impl Serialize for u64 {
    type Writer = U64Writer;

    open spec fn writes_as(dtype: DTypeModel) -> bool {
        int_binds(dtype, 8, false)
    }

    open spec fn write_spec(dtype: DTypeModel, value: &u64) -> Option<Seq<u8>> {
        Some(uint_bytes((*value as u64) as nat, 8, scalar_big(dtype)))
    }

    fn writer(dtype: &DType) -> (r: Result<U64Writer, DTypeError>)
        ensures
            r matches Err(e) ==> (scalar_of(dtype.model()) is None ==> expected_scalar_error(
                e.0,
                dtype.model(),
                "u64",
            )) && (scalar_of(dtype.model()) matches Some(ty) ==> e.0 == (DTypeErrorKind::BadScalar {
                type_str: ty,
                rust_type: "u64",
                verb: "write",
            })),
    {
        let ty = expect_scalar_dtype(dtype, "u64")?;
        if ty.size == 8 && (ty.type_kind == TypeKind::Uint || ty.type_kind == TypeKind::DateTime)
            && is_valid(&ty) {
            let native = Endianness::of_machine();
            let swap_byteorder = ty.endianness.requires_swap(native);
            let w = U64Writer { swap_byteorder, native };
            proof {
                assert(swapped_big(swap_byteorder, native) == scalar_big(dtype.model()));
            }
            Ok(w)
        } else {
            Err(DTypeError::bad_scalar("write", &ty, "u64"))
        }
    }
}

impl AutoSerialize for u64 {
    open spec fn has_default() -> bool {
        true
    }

    open spec fn default_spec(dtype: DTypeModel) -> bool {
        exists|e: Endianness|
            (e == Endianness::Little || e == Endianness::Big) && dtype == (DTypeModel::Plain {
                ty: TypeStr { endianness: e, type_kind: TypeKind::Uint, size: 8, time_units: None },
                shape: Seq::empty(),
            })
    }

    fn default_dtype() -> (r: DType) {
        let ty = TypeStr::with_auto_endianness(TypeKind::Uint, 8, None);
        let r = DType::new_scalar(ty);
        proof {
            assert(ty == TypeStr { endianness: ty.endianness, type_kind: TypeKind::Uint, size: 8, time_units: None });
        }
        r
    }
}


/// `b` without its trailing zero bytes.
pub open spec fn trim_zeros(b: Seq<u8>) -> Seq<u8>
    decreases b.len(),
{
    if b.len() > 0 && b.last() == 0 {
        trim_zeros(b.drop_last())
    } else {
        b
    }
}

/// `n` zero bytes.
pub open spec fn zeros(n: nat) -> Seq<u8> {
    Seq::new(n, |i: int| 0u8)
}

/// Whether a scalar dtype binds to a byte blob: kind `S` or `V`, with a
/// size that fits in `usize`.
pub open spec fn bytes_binds(d: DTypeModel) -> bool {
    match scalar_of(d) {
        Some(ty) => ty.valid() && (ty.type_kind == TypeKind::ByteStr || ty.type_kind
            == TypeKind::RawData) && ty.size <= usize::MAX,
        None => false,
    }
}

/// What `bytes` hold as a blob of kind `S` (`byte_str`) or `V`.
pub open spec fn blob_value(bytes: Seq<u8>, byte_str: bool) -> Seq<u8> {
    if byte_str {
        trim_zeros(bytes)
    } else {
        bytes
    }
}

/// The `size` bytes a blob is written as: a byte string may be shorter and
/// is padded with zeros; raw data must have the size exactly.
pub open spec fn blob_bytes(value: Seq<u8>, size: nat, byte_str: bool) -> Option<Seq<u8>> {
    if value.len() > size || (!byte_str && value.len() < size) {
        None
    } else {
        Some(value + zeros((size - value.len()) as nat))
    }
}

/// Reads a byte blob: `S` (trailing zeros trimmed) or `V` (kept whole).
pub struct BytesReader {
    size: usize,
    is_byte_str: bool,
}

impl TypeRead for BytesReader {
    type Value = Vec<u8>;

    closed spec fn width(&self) -> nat {
        self.size as nat
    }

    closed spec fn decodes(&self, bytes: Seq<u8>, value: Vec<u8>) -> bool {
        value@ == blob_value(bytes, self.is_byte_str)
    }

    fn read_one<'a>(&self, bytes: &'a [u8]) -> (r: (Vec<u8>, &'a [u8])) {
        let mut vec = vstd::slice::slice_to_vec(&bytes[0..self.size]);
        if self.is_byte_str {
            let ghost b = vec@;
            let mut end = vec.len();
            proof {
                assert(b.subrange(0, end as int) =~= b);
            }
            while end > 0 && vec[end - 1] == 0
                invariant
                    end <= vec@.len(),
                    vec@ == b,
                    trim_zeros(b.subrange(0, end as int)) == trim_zeros(b),
                decreases end,
            {
                proof {
                    assert(b.subrange(0, end as int).drop_last() =~= b.subrange(0, end - 1));
                }
                end = end - 1;
            }
            proof {
                assert(trim_zeros(b.subrange(0, end as int)) == b.subrange(0, end as int));
            }
            vec.truncate(end);
            proof {
                assert(vec@ =~= b.subrange(0, end as int));
            }
        }
        (vec, &bytes[self.size..bytes.len()])
    }
}

/// Writes a byte blob as `S` (zero-padded) or `V` (exact size).
pub struct BytesWriter {
    type_str: TypeStr,
    size: usize,
    is_byte_str: bool,
}

impl TypeWrite for BytesWriter {
    type Value = [u8];

    closed spec fn encodes(&self, value: &[u8]) -> Option<Seq<u8>> {
        blob_bytes(value@, self.size as nat, self.is_byte_str)
    }

    fn write_one(&self, out: &mut Vec<u8>, bytes: &[u8]) -> (r: Result<(), WriteError>)
        ensures
            r is Err ==> final(out)@ == old(out)@,
    {
        let n = bytes.len();
        if n > self.size || (n < self.size && !self.is_byte_str) {
            return Err(WriteError { len: n, type_str: self.type_str });
        }
        let ghost start = out@;
        out.extend_from_slice(bytes);
        let mut k: usize = n;
        while k < self.size
            invariant
                n <= k <= self.size,
                out@ =~= start + bytes@ + zeros((k - n) as nat),
            decreases self.size - k,
        {
            out.push(0);
            k = k + 1;
        }
        Ok(())
    }
}

/// The error for binding a blob type to `d`, where it does not bind.
pub open spec fn blob_error(
    e: DTypeErrorKind,
    d: DTypeModel,
    rust_type: &'static str,
    verb: &'static str,
) -> bool {
    match scalar_of(d) {
        None => expected_scalar_error(e, d, rust_type),
        Some(ty) => if ty.size > usize::MAX {
            e == DTypeErrorKind::UsizeOverflow(ty.size)
        } else {
            e == (DTypeErrorKind::BadScalar { type_str: ty, rust_type, verb })
        },
    }
}

/// Checks a blob dtype: its type-string and whether it is a byte string.
fn blob_dtype(dtype: &DType, rust_type: &'static str, verb: &'static str) -> (r: Result<
    (TypeStr, usize, bool),
    DTypeError,
>)
    ensures
        match r {
            Ok((ty, size, byte_str)) => bytes_binds(dtype.model()) && scalar_of(dtype.model())
                == Some(ty) && size == ty.size && byte_str == (ty.type_kind == TypeKind::ByteStr),
            Err(e) => !bytes_binds(dtype.model()) && blob_error(e.0, dtype.model(), rust_type, verb),
        },
{
    let ty = expect_scalar_dtype(dtype, rust_type)?;
    if ty.size > usize::MAX as u64 {
        return Err(DTypeError::bad_usize(ty.size));
    }
    let size = ty.size as usize;
    if (ty.type_kind == TypeKind::ByteStr || ty.type_kind == TypeKind::RawData) && is_valid(&ty) {
        Ok((ty, size, ty.type_kind == TypeKind::ByteStr))
    } else {
        Err(DTypeError::bad_scalar(verb, &ty, rust_type))
    }
}

impl Deserialize for Vec<u8> {
    type Reader = BytesReader;

    open spec fn reads_as(dtype: DTypeModel) -> bool {
        bytes_binds(dtype)
    }

    open spec fn read_width(dtype: DTypeModel) -> nat {
        match scalar_of(dtype) {
            Some(ty) => ty.size as nat,
            None => 0,
        }
    }

    open spec fn read_spec(dtype: DTypeModel, bytes: Seq<u8>, value: Vec<u8>) -> bool {
        match scalar_of(dtype) {
            Some(ty) => value@ == blob_value(bytes, ty.type_kind == TypeKind::ByteStr),
            None => false,
        }
    }

    fn reader(dtype: &DType) -> (r: Result<BytesReader, DTypeError>)
        ensures
            r matches Err(e) ==> blob_error(e.0, dtype.model(), "Vec<u8>", "read"),
    {
        let (ty, size, is_byte_str) = blob_dtype(dtype, "Vec<u8>", "read")?;
        proof {
            if let DTypeModel::Plain { shape, .. } = dtype.model() {
                assert(shape =~= Seq::<u64>::empty());
                assert(shape_product(shape) == 1);
            }
        }
        Ok(BytesReader { size, is_byte_str })
    }
}

impl Serialize for [u8] {
    type Writer = BytesWriter;

    open spec fn writes_as(dtype: DTypeModel) -> bool {
        bytes_binds(dtype)
    }

    open spec fn write_spec(dtype: DTypeModel, value: &[u8]) -> Option<Seq<u8>> {
        match scalar_of(dtype) {
            Some(ty) => blob_bytes(value@, ty.size as nat, ty.type_kind == TypeKind::ByteStr),
            None => None,
        }
    }

    fn writer(dtype: &DType) -> (r: Result<BytesWriter, DTypeError>)
        ensures
            r matches Err(e) ==> blob_error(e.0, dtype.model(), "[u8]", "write"),
    {
        let (type_str, size, is_byte_str) = blob_dtype(dtype, "[u8]", "write")?;
        Ok(BytesWriter { type_str, size, is_byte_str })
    }
}

/// Writes a `Vec<u8>` through the writer of the byte slice it holds.
pub struct TypeWriteViaDeref {
    inner: BytesWriter,
}

impl TypeWrite for TypeWriteViaDeref {
    type Value = Vec<u8>;

    closed spec fn encodes(&self, value: &Vec<u8>) -> Option<Seq<u8>> {
        blob_bytes(value@, self.inner.size as nat, self.inner.is_byte_str)
    }

    fn write_one(&self, out: &mut Vec<u8>, value: &Vec<u8>) -> (r: Result<(), WriteError>)
        ensures
            r is Err ==> final(out)@ == old(out)@,
    {
        self.inner.write_one(out, value.as_slice())
    }
}

impl Serialize for Vec<u8> {
    type Writer = TypeWriteViaDeref;

    open spec fn writes_as(dtype: DTypeModel) -> bool {
        bytes_binds(dtype)
    }

    open spec fn write_spec(dtype: DTypeModel, value: &Vec<u8>) -> Option<Seq<u8>> {
        match scalar_of(dtype) {
            Some(ty) => blob_bytes(value@, ty.size as nat, ty.type_kind == TypeKind::ByteStr),
            None => None,
        }
    }

    fn writer(dtype: &DType) -> (r: Result<TypeWriteViaDeref, DTypeError>)
        ensures
            r matches Err(e) ==> blob_error(e.0, dtype.model(), "Vec<u8>", "write"),
    {
        let (type_str, size, is_byte_str) = blob_dtype(dtype, "Vec<u8>", "write")?;
        Ok(TypeWriteViaDeref { inner: BytesWriter { type_str, size, is_byte_str } })
    }
}


/// The dtype of one element of an array dtype of length `n`: the dtype with
/// its first dimension taken off. `None` where the dtype is a record, a
/// scalar, or has another first dimension.
pub open spec fn array_inner(d: DTypeModel, n: u64) -> Option<DTypeModel> {
    match d {
        DTypeModel::Plain { ty, shape } => if shape.len() > 0 && shape[0] == n {
            Some(DTypeModel::Plain { ty, shape: shape.drop_first() })
        } else {
            None
        },
        _ => None,
    }
}

/// The error for binding an array of length `n` to `d`, where `d` is no
/// array of that length.
pub open spec fn array_error(d: DTypeModel, n: u64, e: DTypeErrorKind) -> bool {
    match d {
        DTypeModel::Plain { shape, .. } => if shape.len() == 0 {
            e == (DTypeErrorKind::ExpectedArray { got: "a scalar" })
        } else {
            e == (DTypeErrorKind::WrongArrayLen { expected: n, actual: shape[0] })
        },
        _ => e == (DTypeErrorKind::ExpectedArray { got: "a record" }),
    }
}

impl DType {
    /// Expects an array dtype of length `expected_len` and gives the dtype
    /// of its elements.
    pub fn array_inner_dtype(&self, expected_len: u64) -> (r: Result<DType, DTypeError>)
        ensures
            match r {
                Ok(d) => array_inner(self.model(), expected_len) == Some(d.model()),
                Err(e) => array_inner(self.model(), expected_len) is None && array_error(
                    self.model(),
                    expected_len,
                    e.0,
                ),
            },
    {
        match self {
            DType::Record(_) => Err(DTypeError(DTypeErrorKind::ExpectedArray { got: "a record" })),
            DType::Plain { ty, shape } => {
                if shape.len() == 0 {
                    return Err(DTypeError(DTypeErrorKind::ExpectedArray { got: "a scalar" }));
                }
                let len = shape[0];
                if len != expected_len {
                    return Err(
                        DTypeError(DTypeErrorKind::WrongArrayLen { actual: len, expected: expected_len }),
                    );
                }
                let mut rest = Vec::new();
                let mut k: usize = 1;
                while k < shape.len()
                    invariant
                        1 <= k <= shape@.len(),
                        rest@ =~= shape@.subrange(1, k as int),
                    decreases shape@.len() - k,
                {
                    rest.push(shape[k]);
                    k = k + 1;
                }
                let r = DType::Plain { ty: *ty, shape: rest };
                proof {
                    assert(rest@ =~= shape@.drop_first());
                }
                Ok(r)
            },
        }
    }
}

/// The `i`-th of the `w`-byte chunks of `b`.
pub open spec fn chunk(b: Seq<u8>, i: int, w: nat) -> Seq<u8> {
    b.subrange(i * w, (i + 1) * w)
}

pub proof fn lemma_chunk(n: nat, w: nat, i: int)
    requires
        0 <= i < n,
    ensures
        0 <= i * w,
        i * w + w == (i + 1) * w,
        (i + 1) * w <= n * w,
{
    assert(i * w + w == (i + 1) * w) by (nonlinear_arith);
    assert((i + 1) * w <= n * w) by (nonlinear_arith)
        requires
            i + 1 <= n,
    ;
    assert(0 <= i * w) by (nonlinear_arith)
        requires
            0 <= i,
    ;
}

/// Reads a fixed-size array, element by element in index order.
pub struct ArrayReader<I, const N: usize> {
    inner: I,
}

/// Writes a fixed-size array, element by element in index order.
pub struct ArrayWriter<I, const N: usize> {
    inner: I,
}

impl<I: TypeRead, const N: usize> TypeRead for ArrayReader<I, N> where I::Value: Copy + Default {
    type Value = [I::Value; N];

    closed spec fn width(&self) -> nat {
        (N * self.inner.width()) as nat
    }

    closed spec fn decodes(&self, bytes: Seq<u8>, value: [I::Value; N]) -> bool {
        forall|i: int|
            0 <= i < N ==> #[trigger] self.inner.decodes(
                chunk(bytes, i, self.inner.width()),
                value@[i],
            )
    }

    fn read_one<'a>(&self, bytes: &'a [u8]) -> (r: ([I::Value; N], &'a [u8])) {
        let ghost w = self.inner.width();
        let ghost all = bytes@.subrange(0, (N * w) as int);
        let mut value = [I::Value::default(); N];
        let mut remainder = bytes;
        let mut k: usize = 0;
        while k < N
            invariant
                k <= N,
                w == self.inner.width(),
                all == bytes@.subrange(0, (N * w) as int),
                bytes@.len() >= N * w,
                value@.len() == N,
                k * w <= N * w,
                remainder@ == bytes@.subrange(k * w, bytes@.len() as int),
                forall|i: int|
                    0 <= i < k ==> #[trigger] self.inner.decodes(chunk(all, i, w), value@[i]),
            decreases N - k,
        {
            proof {
                lemma_chunk(N as nat, w, k as int);
            }
            let (item, rest) = self.inner.read_one(remainder);
            proof {
                assert(chunk(all, k as int, w) =~= remainder@.subrange(0, w as int));
            }
            value.set(k, item);
            remainder = rest;
            k = k + 1;
        }
        proof {
            assert(N * w == N * self.inner.width());
        }
        (value, remainder)
    }
}

/// The bytes of the first `k` items, each written as `dtype`; `None` where
/// one of them cannot be written.
pub open spec fn write_items<T: Serialize>(dtype: DTypeModel, items: Seq<T>, k: int) -> Option<
    Seq<u8>,
>
    decreases k,
{
    if k <= 0 {
        Some(Seq::empty())
    } else {
        match (write_items(dtype, items, k - 1), T::write_spec(dtype, &items[k - 1])) {
            (Some(a), Some(b)) => Some(a + b),
            _ => None,
        }
    }
}

/// The bytes of the first `k` items, each written with `w`.
pub open spec fn encode_items<W: TypeWrite>(w: W, items: Seq<W::Value>, k: int) -> Option<Seq<u8>>
    where W::Value: Sized,
    decreases k,
{
    if k <= 0 {
        Some(Seq::empty())
    } else {
        match (encode_items(w, items, k - 1), w.encodes(&items[k - 1])) {
            (Some(a), Some(b)) => Some(a + b),
            _ => None,
        }
    }
}

pub proof fn lemma_encode_items_fails<W: TypeWrite>(w: W, items: Seq<W::Value>, k: int, n: int)
    where W::Value: Sized,
    requires
        0 < k <= n,
        encode_items(w, items, k) is None,
    ensures
        encode_items(w, items, n) is None,
    decreases n - k,
{
    if n > k {
        lemma_encode_items_fails(w, items, k, n - 1);
    }
}

impl<I: TypeWrite, const N: usize> TypeWrite for ArrayWriter<I, N> where I::Value: Sized {
    type Value = [I::Value; N];

    closed spec fn encodes(&self, value: &[I::Value; N]) -> Option<Seq<u8>> {
        encode_items(self.inner, value@, N as int)
    }

    fn write_one(&self, out: &mut Vec<u8>, value: &[I::Value; N]) -> (r: Result<(), WriteError>) {
        let mut k: usize = 0;
        while k < N
            invariant
                k <= N,
                encode_items(self.inner, value@, k as int) matches Some(b) && out@ == old(out)@
                    + b,
            decreases N - k,
        {
            let ghost before = out@;
            match self.inner.write_one(out, &value[k]) {
                Err(e) => {
                    proof {
                        lemma_encode_items_fails(self.inner, value@, k + 1, N as int);
                        assert(old(out)@.is_prefix_of(before));
                    }
                    return Err(e);
                },
                Ok(()) => {},
            }
            proof {
                let a = encode_items(self.inner, value@, k as int)->Some_0;
                assert(out@ =~= old(out)@ + (a + self.inner.encodes(&value@[k as int])->Some_0));
            }
            k = k + 1;
        }
        Ok(())
    }
}


impl<T: Deserialize + Copy + Default, const N: usize> Deserialize for [T; N] {
    type Reader = ArrayReader<T::Reader, N>;

    open spec fn reads_as(dtype: DTypeModel) -> bool {
        array_inner(dtype, N as u64) matches Some(inner) && T::reads_as(inner)
    }

    open spec fn read_width(dtype: DTypeModel) -> nat {
        match array_inner(dtype, N as u64) {
            Some(inner) => (N * T::read_width(inner)) as nat,
            None => 0,
        }
    }

    open spec fn read_spec(dtype: DTypeModel, bytes: Seq<u8>, value: [T; N]) -> bool {
        match array_inner(dtype, N as u64) {
            Some(inner) => forall|i: int|
                0 <= i < N ==> #[trigger] T::read_spec(
                    inner,
                    chunk(bytes, i, T::read_width(inner)),
                    value@[i],
                ),
            None => false,
        }
    }

    fn reader(dtype: &DType) -> (r: Result<ArrayReader<T::Reader, N>, DTypeError>)
        ensures
            r matches Err(e) ==> (array_inner(dtype.model(), N as u64) is None ==> array_error(
                dtype.model(),
                N as u64,
                e.0,
            )),
    {
        let inner_dtype = dtype.array_inner_dtype(N as u64)?;
        let inner = T::reader(&inner_dtype)?;
        let rd = ArrayReader { inner };
        proof {
            if let DTypeModel::Plain { ty, shape } = dtype.model() {
                let p = shape_product(shape.drop_first());
                let b = ty.spec_num_bytes();
                assert(shape_product(shape) == N * p);
                assert(dtype_bytes(inner_dtype.model()) == b * p);
                assert(b * (N * p) == N * (b * p)) by (nonlinear_arith);
            }
            let w = inner.width();
            assert forall|b: Seq<u8>, v: [T; N]| b.len() == rd.width() implies (#[trigger] rd.decodes(
                b,
                v,
            ) <==> Self::read_spec(dtype.model(), b, v)) by {
                assert forall|i: int| 0 <= i < N implies chunk(b, i, w).len() == w by {
                    lemma_chunk(N as nat, w, i);
                }
                if rd.decodes(b, v) {
                    assert forall|i: int| 0 <= i < N implies #[trigger] T::read_spec(
                        inner_dtype.model(),
                        chunk(b, i, w),
                        v@[i],
                    ) by {
                        assert(inner.decodes(chunk(b, i, w), v@[i]));
                    }
                }
                if Self::read_spec(dtype.model(), b, v) {
                    assert forall|i: int| 0 <= i < N implies #[trigger] inner.decodes(
                        chunk(b, i, w),
                        v@[i],
                    ) by {
                        assert(T::read_spec(inner_dtype.model(), chunk(b, i, w), v@[i]));
                    }
                }
            }
        }
        Ok(rd)
    }
}

impl<T: Serialize, const N: usize> Serialize for [T; N] {
    type Writer = ArrayWriter<T::Writer, N>;

    open spec fn writes_as(dtype: DTypeModel) -> bool {
        array_inner(dtype, N as u64) matches Some(inner) && T::writes_as(inner)
    }

    open spec fn write_spec(dtype: DTypeModel, value: &[T; N]) -> Option<Seq<u8>> {
        match array_inner(dtype, N as u64) {
            Some(inner) => write_items(inner, value@, N as int),
            None => None,
        }
    }

    fn writer(dtype: &DType) -> (r: Result<ArrayWriter<T::Writer, N>, DTypeError>)
        ensures
            r matches Err(e) ==> (array_inner(dtype.model(), N as u64) is None ==> array_error(
                dtype.model(),
                N as u64,
                e.0,
            )),
    {
        let inner_dtype = dtype.array_inner_dtype(N as u64)?;
        let inner = T::writer(&inner_dtype)?;
        let w = ArrayWriter { inner };
        proof {
            assert forall|v: &[T; N]| #[trigger] w.encodes(v) == Self::write_spec(dtype.model(), v) by {
                lemma_items_agree(inner, inner_dtype.model(), v@, N as int);
            }
        }
        Ok(w)
    }
}

pub proof fn lemma_items_agree<T: Serialize>(
    w: T::Writer,
    d: DTypeModel,
    items: Seq<T>,
    k: int,
)
    requires
        forall|v: &T| #[trigger] w.encodes(v) == T::write_spec(d, v),
    ensures
        encode_items(w, items, k) == write_items(d, items, k),
    decreases k,
{
    if k > 0 {
        lemma_items_agree(w, d, items, k - 1);
        assert(w.encodes(&items[k - 1]) == T::write_spec(d, &items[k - 1]));
    }
}

impl<T: AutoSerialize, const N: usize> AutoSerialize for [T; N] {
    open spec fn has_default() -> bool {
        T::has_default() && forall|d: DTypeModel| #[trigger] T::default_spec(d) ==> d is Plain
    }

    open spec fn default_spec(dtype: DTypeModel) -> bool {
        match dtype {
            DTypeModel::Plain { ty, shape } => shape.len() > 0 && shape[0] == N as u64
                && T::default_spec(DTypeModel::Plain { ty, shape: shape.drop_first() }),
            _ => false,
        }
    }

    fn default_dtype() -> (r: DType) {
        let d = T::default_dtype();
        match d {
            DType::Plain { ty, shape } => {
                let mut shape = shape;
                let ghost old_shape = shape@;
                shape.insert(0, N as u64);
                proof {
                    assert(shape@.drop_first() =~= old_shape);
                }
                DType::Plain { ty, shape }
            },
            DType::Record(_) => {
                proof {
                    assert(T::default_spec(d.model()));
                }
                DType::Record(Vec::new())
            },
        }
    }
}


/// The bit pattern of an `f32`: floats are read and written as their bits,
/// and turned into floats where the crate is used.
#[derive(Debug, Clone, Copy, PartialEq, Eq, Structural, Default)]
pub struct F32Bits(pub u32);

/// Reads the bits of an `f32` stored in either byte order.
pub struct F32BitsReader {
    swap_byteorder: bool,
    native: Endianness,
}

/// Writes the bits of an `f32` in either byte order.
pub struct F32BitsWriter {
    swap_byteorder: bool,
    native: Endianness,
}

impl TypeRead for F32BitsReader {
    type Value = F32Bits;

    closed spec fn width(&self) -> nat {
        4
    }

    closed spec fn decodes(&self, bytes: Seq<u8>, value: F32Bits) -> bool {
        value.0 == uint_value(bytes, swapped_big(self.swap_byteorder, self.native)) as u32
    }

    fn read_one<'a>(&self, bytes: &'a [u8]) -> (r: (F32Bits, &'a [u8])) {
        let x = read_swapped(bytes, 4, self.swap_byteorder, self.native);
        (F32Bits(x as u32), &bytes[4..bytes.len()])
    }
}

impl TypeWrite for F32BitsWriter {
    type Value = F32Bits;

    closed spec fn encodes(&self, value: &F32Bits) -> Option<Seq<u8>> {
        Some(uint_bytes(value.0 as nat, 4, swapped_big(self.swap_byteorder, self.native)))
    }

    fn write_one(&self, out: &mut Vec<u8>, value: &F32Bits) -> (r: Result<(), WriteError>) {
        write_swapped(out, value.0 as u64, 4, self.swap_byteorder, self.native);
        Ok(())
    }
}

impl Deserialize for F32Bits {
    type Reader = F32BitsReader;

    open spec fn reads_as(dtype: DTypeModel) -> bool {
        float_binds(dtype, 4)
    }

    open spec fn read_width(dtype: DTypeModel) -> nat {
        4
    }

    open spec fn read_spec(dtype: DTypeModel, bytes: Seq<u8>, value: F32Bits) -> bool {
        value.0 == uint_value(bytes, scalar_big(dtype)) as u32
    }

    fn reader(dtype: &DType) -> (r: Result<F32BitsReader, DTypeError>)
        ensures
            r matches Err(e) ==> (scalar_of(dtype.model()) is None ==> expected_scalar_error(
                e.0,
                dtype.model(),
                "f32",
            )) && (scalar_of(dtype.model()) matches Some(ty) ==> e.0 == (DTypeErrorKind::BadScalar {
                type_str: ty,
                rust_type: "f32",
                verb: "read",
            })),
    {
        let ty = expect_scalar_dtype(dtype, "f32")?;
        if ty.size == 4 && ty.type_kind == TypeKind::Float && is_valid(&ty) {
            let native = Endianness::of_machine();
            let swap_byteorder = ty.endianness.requires_swap(native);
            proof {
                assert(swapped_big(swap_byteorder, native) == scalar_big(dtype.model()));
            }
            Ok(F32BitsReader { swap_byteorder, native })
        } else {
            Err(DTypeError::bad_scalar("read", &ty, "f32"))
        }
    }
}

impl Serialize for F32Bits {
    type Writer = F32BitsWriter;

    open spec fn writes_as(dtype: DTypeModel) -> bool {
        float_binds(dtype, 4)
    }

    open spec fn write_spec(dtype: DTypeModel, value: &F32Bits) -> Option<Seq<u8>> {
        Some(uint_bytes(value.0 as nat, 4, scalar_big(dtype)))
    }

    fn writer(dtype: &DType) -> (r: Result<F32BitsWriter, DTypeError>)
        ensures
            r matches Err(e) ==> (scalar_of(dtype.model()) is None ==> expected_scalar_error(
                e.0,
                dtype.model(),
                "f32",
            )) && (scalar_of(dtype.model()) matches Some(ty) ==> e.0 == (DTypeErrorKind::BadScalar {
                type_str: ty,
                rust_type: "f32",
                verb: "write",
            })),
    {
        let ty = expect_scalar_dtype(dtype, "f32")?;
        if ty.size == 4 && ty.type_kind == TypeKind::Float && is_valid(&ty) {
            let native = Endianness::of_machine();
            let swap_byteorder = ty.endianness.requires_swap(native);
            proof {
                assert(swapped_big(swap_byteorder, native) == scalar_big(dtype.model()));
            }
            Ok(F32BitsWriter { swap_byteorder, native })
        } else {
            Err(DTypeError::bad_scalar("write", &ty, "f32"))
        }
    }
}

impl AutoSerialize for F32Bits {
    open spec fn has_default() -> bool {
        true
    }

    open spec fn default_spec(dtype: DTypeModel) -> bool {
        exists|e: Endianness|
            (e == Endianness::Little || e == Endianness::Big) && dtype == (DTypeModel::Plain {
                ty: TypeStr { endianness: e, type_kind: TypeKind::Float, size: 4, time_units: None },
                shape: Seq::empty(),
            })
    }

    fn default_dtype() -> (r: DType) {
        let ty = TypeStr::with_auto_endianness(TypeKind::Float, 4, None);
        let r = DType::new_scalar(ty);
        proof {
            assert(ty == TypeStr { endianness: ty.endianness, type_kind: TypeKind::Float, size: 4, time_units: None });
        }
        r
    }
}

/// The bit pattern of an `f64`: floats are read and written as their bits,
/// and turned into floats where the crate is used.
#[derive(Debug, Clone, Copy, PartialEq, Eq, Structural, Default)]
pub struct F64Bits(pub u64);

/// Reads the bits of an `f64` stored in either byte order.
pub struct F64BitsReader {
    swap_byteorder: bool,
    native: Endianness,
}

/// Writes the bits of an `f64` in either byte order.
pub struct F64BitsWriter {
    swap_byteorder: bool,
    native: Endianness,
}

impl TypeRead for F64BitsReader {
    type Value = F64Bits;

    closed spec fn width(&self) -> nat {
        8
    }

    closed spec fn decodes(&self, bytes: Seq<u8>, value: F64Bits) -> bool {
        value.0 == uint_value(bytes, swapped_big(self.swap_byteorder, self.native)) as u64
    }

    fn read_one<'a>(&self, bytes: &'a [u8]) -> (r: (F64Bits, &'a [u8])) {
        let x = read_swapped(bytes, 8, self.swap_byteorder, self.native);
        (F64Bits(x as u64), &bytes[8..bytes.len()])
    }
}

impl TypeWrite for F64BitsWriter {
    type Value = F64Bits;

    closed spec fn encodes(&self, value: &F64Bits) -> Option<Seq<u8>> {
        Some(uint_bytes(value.0 as nat, 8, swapped_big(self.swap_byteorder, self.native)))
    }

    fn write_one(&self, out: &mut Vec<u8>, value: &F64Bits) -> (r: Result<(), WriteError>) {
        write_swapped(out, value.0 as u64, 8, self.swap_byteorder, self.native);
        Ok(())
    }
}

impl Deserialize for F64Bits {
    type Reader = F64BitsReader;

    open spec fn reads_as(dtype: DTypeModel) -> bool {
        float_binds(dtype, 8)
    }

    open spec fn read_width(dtype: DTypeModel) -> nat {
        8
    }

    open spec fn read_spec(dtype: DTypeModel, bytes: Seq<u8>, value: F64Bits) -> bool {
        value.0 == uint_value(bytes, scalar_big(dtype)) as u64
    }

    fn reader(dtype: &DType) -> (r: Result<F64BitsReader, DTypeError>)
        ensures
            r matches Err(e) ==> (scalar_of(dtype.model()) is None ==> expected_scalar_error(
                e.0,
                dtype.model(),
                "f64",
            )) && (scalar_of(dtype.model()) matches Some(ty) ==> e.0 == (DTypeErrorKind::BadScalar {
                type_str: ty,
                rust_type: "f64",
                verb: "read",
            })),
    {
        let ty = expect_scalar_dtype(dtype, "f64")?;
        if ty.size == 8 && ty.type_kind == TypeKind::Float && is_valid(&ty) {
            let native = Endianness::of_machine();
            let swap_byteorder = ty.endianness.requires_swap(native);
            proof {
                assert(swapped_big(swap_byteorder, native) == scalar_big(dtype.model()));
            }
            Ok(F64BitsReader { swap_byteorder, native })
        } else {
            Err(DTypeError::bad_scalar("read", &ty, "f64"))
        }
    }
}

impl Serialize for F64Bits {
    type Writer = F64BitsWriter;

    open spec fn writes_as(dtype: DTypeModel) -> bool {
        float_binds(dtype, 8)
    }

    open spec fn write_spec(dtype: DTypeModel, value: &F64Bits) -> Option<Seq<u8>> {
        Some(uint_bytes(value.0 as nat, 8, scalar_big(dtype)))
    }

    fn writer(dtype: &DType) -> (r: Result<F64BitsWriter, DTypeError>)
        ensures
            r matches Err(e) ==> (scalar_of(dtype.model()) is None ==> expected_scalar_error(
                e.0,
                dtype.model(),
                "f64",
            )) && (scalar_of(dtype.model()) matches Some(ty) ==> e.0 == (DTypeErrorKind::BadScalar {
                type_str: ty,
                rust_type: "f64",
                verb: "write",
            })),
    {
        let ty = expect_scalar_dtype(dtype, "f64")?;
        if ty.size == 8 && ty.type_kind == TypeKind::Float && is_valid(&ty) {
            let native = Endianness::of_machine();
            let swap_byteorder = ty.endianness.requires_swap(native);
            proof {
                assert(swapped_big(swap_byteorder, native) == scalar_big(dtype.model()));
            }
            Ok(F64BitsWriter { swap_byteorder, native })
        } else {
            Err(DTypeError::bad_scalar("write", &ty, "f64"))
        }
    }
}

impl AutoSerialize for F64Bits {
    open spec fn has_default() -> bool {
        true
    }

    open spec fn default_spec(dtype: DTypeModel) -> bool {
        exists|e: Endianness|
            (e == Endianness::Little || e == Endianness::Big) && dtype == (DTypeModel::Plain {
                ty: TypeStr { endianness: e, type_kind: TypeKind::Float, size: 8, time_units: None },
                shape: Seq::empty(),
            })
    }

    fn default_dtype() -> (r: DType) {
        let ty = TypeStr::with_auto_endianness(TypeKind::Float, 8, None);
        let r = DType::new_scalar(ty);
        proof {
            assert(ty == TypeStr { endianness: ty.endianness, type_kind: TypeKind::Float, size: 8, time_units: None });
        }
        r
    }
}

/// The names of the fields of a record model, in order.
pub open spec fn field_names(fields: Seq<FieldModel>) -> Seq<Seq<char>> {
    Seq::new(fields.len(), |i: int| fields[i].name)
}

/// The texts of a list of names.
pub open spec fn name_texts(names: Seq<&str>) -> Seq<Seq<char>> {
    Seq::new(names.len(), |i: int| names[i]@)
}

/// The texts of a list of strings.
pub open spec fn string_texts(names: Seq<String>) -> Seq<Seq<char>> {
    Seq::new(names.len(), |i: int| names[i]@)
}

impl DType {
    /// Binds a record type whose fields are named `names`, in order, to this
    /// dtype: its fields, whose dtypes the record's fields are then bound to.
    pub fn record_fields(&self, names: &[&str]) -> (r: Result<&Vec<Field>, DTypeError>)
        ensures
            match r {
                Ok(fields) => self.model() == DTypeModel::Record(field_models(fields@))
                    && field_names(field_models(fields@)) == name_texts(names@),
                Err(e) => match self.model() {
                    DTypeModel::Plain { ty, .. } => e.0 == (DTypeErrorKind::ExpectedRecord {
                        type_str: ty,
                    }),
                    DTypeModel::Record(fs) => field_names(fs) != name_texts(names@) && (e.0 matches DTypeErrorKind::WrongFields { expected, actual } && string_texts(expected@)
                        == name_texts(names@) && string_texts(actual@) == field_names(fs)),
                },
            },
    {
        match self {
            DType::Plain { ty, .. } => Err(DTypeError::expected_record(ty)),
            DType::Record(fields) => {
                proof {
                    lemma_record_model(*fields);
                }
                let ghost want = name_texts(names@);
                let ghost have = field_names(field_models(fields@));
                let mut same = fields.len() == names.len();
                let mut k: usize = 0;
                proof {
                    if !same {
                        assert(have.len() != want.len());
                    }
                }
                while same && k < fields.len()
                    invariant
                        k <= fields@.len(),
                        same ==> fields@.len() == names@.len(),
                        want == name_texts(names@),
                        have == field_names(field_models(fields@)),
                        same ==> forall|j: int| 0 <= j < k ==> have[j] == want[j],
                        !same ==> have != want,
                    decreases fields@.len() - k + (if same { 1int } else { 0 }),
                {
                    let name = String::from_str(names[k]);
                    if fields[k].name != name {
                        proof {
                            assert(have[k as int] != want[k as int]);
                        }
                        same = false;
                    } else {
                        k = k + 1;
                    }
                }
                if same {
                    proof {
                        assert(have =~= want);
                    }
                    return Ok(fields);
                }
                let mut expected: Vec<String> = Vec::new();
                let mut j: usize = 0;
                while j < names.len()
                    invariant
                        j <= names@.len(),
                        string_texts(expected@) =~= name_texts(names@).subrange(0, j as int),
                    decreases names@.len() - j,
                {
                    let ghost before = expected@;
                    let name = String::from_str(names[j]);
                    expected.push(name);
                    proof {
                        assert(string_texts(expected@) =~= string_texts(before).push(names@[j as int]@));
                        assert(name_texts(names@).subrange(0, j + 1) =~= name_texts(names@).subrange(0, j as int).push(names@[j as int]@));
                    }
                    j = j + 1;
                }
                let mut actual: Vec<String> = Vec::new();
                let mut i: usize = 0;
                while i < fields.len()
                    invariant
                        i <= fields@.len(),
                        have == field_names(field_models(fields@)),
                        string_texts(actual@) =~= have.subrange(0, i as int),
                    decreases fields@.len() - i,
                {
                    let ghost before = actual@;
                    let name = fields[i].name.clone();
                    actual.push(name);
                    proof {
                        assert(string_texts(actual@) =~= string_texts(before).push(fields@[i as int].name@));
                        assert(have[i as int] == fields@[i as int].name@);
                        assert(have.subrange(0, i + 1) =~= have.subrange(0, i as int).push(have[i as int]));
                    }
                    i = i + 1;
                }
                proof {
                    assert(name_texts(names@).subrange(0, j as int) =~= name_texts(names@));
                    assert(have.subrange(0, i as int) =~= have);
                }
                Err(DTypeError::wrong_fields(expected, actual))
            },
        }
    }
}

/// [`TypeWrite`] for use behind `dyn`.
pub trait TypeWriteDyn: TypeWrite {
    /// Writes as [`TypeWrite::write_one`] does.
    fn write_one_dyn(&self, out: &mut Vec<u8>, value: &Self::Value) -> (r: Result<(), WriteError>)
        ensures
            match self.encodes(value) {
                Some(b) => r is Ok && final(out)@ == old(out)@ + b,
                None => r is Err && old(out)@.is_prefix_of(final(out)@),
            },
    ;
}

impl<T: TypeWrite> TypeWriteDyn for T {
    fn write_one_dyn(&self, out: &mut Vec<u8>, value: &Self::Value) -> (r: Result<(), WriteError>) {
        self.write_one(out, value)
    }
}


/// The text that `Debug` gives for a list of names: each name quoted and
/// escaped, separated by `, `, in brackets.
pub uninterp spec fn debug_names_text(names: Seq<Seq<char>>) -> Seq<char>;

/// Relies on the `Debug` format of `Vec<String>`, whose text depends on the
/// names alone.
#[verifier::external_body]
fn debug_names(names: &Vec<String>) -> (r: String)
    ensures
        r@ == debug_names_text(string_texts(names@)),
{
    format!("{:?}", names)
}

/// The message of a dtype error.
pub open spec fn dtype_error_text(kind: DTypeErrorKind) -> Seq<char> {
    match kind {
        DTypeErrorKind::Custom(msg) => msg@,
        DTypeErrorKind::ExpectedScalar { dtype, rust_type } => "type "@ + rust_type@
            + " requires a scalar (string) dtype, not "@ + dtype@,
        DTypeErrorKind::ExpectedRecord { type_str } => "expected a record type; got a scalar type '"@
            + type_str_text(type_str) + "'"@,
        DTypeErrorKind::ExpectedArray { got } => "rust array types require an array dtype (got "@
            + got@ + ")"@,
        DTypeErrorKind::WrongArrayLen { expected, actual } => "wrong array size (expected "@
            + decimal_text(expected as nat) + ", got "@ + decimal_text(actual as nat) + ")"@,
        DTypeErrorKind::WrongFields { expected, actual } => "field names do not match (expected "@
            + debug_names_text(string_texts(expected@)) + ", got "@ + debug_names_text(
            string_texts(actual@),
        ) + ")"@,
        DTypeErrorKind::BadScalar { type_str, rust_type, verb } => "cannot "@ + verb@ + " type "@
            + rust_type@ + " with type-string '"@ + type_str_text(type_str) + "'"@,
        DTypeErrorKind::UsizeOverflow(value) => "cannot cast "@ + decimal_text(value as nat)
            + " as usize"@,
    }
}

impl DTypeError {
    /// A one-line message saying what does not match.
    pub fn to_string(&self) -> (r: String)
        ensures
            r@ == dtype_error_text(self.0),
    {
        match &self.0 {
            DTypeErrorKind::Custom(msg) => msg.clone(),
            DTypeErrorKind::ExpectedScalar { dtype, rust_type } => {
                let mut s = String::from_str("type ");
                s.append(rust_type);
                s.append(" requires a scalar (string) dtype, not ");
                s.append(dtype.as_str());
                s
            },
            DTypeErrorKind::ExpectedRecord { type_str } => {
                let mut s = String::from_str("expected a record type; got a scalar type '");
                s.append(type_str.to_string().as_str());
                s.append("'");
                s
            },
            DTypeErrorKind::ExpectedArray { got } => {
                let mut s = String::from_str("rust array types require an array dtype (got ");
                s.append(got);
                s.append(")");
                s
            },
            DTypeErrorKind::WrongArrayLen { expected, actual } => {
                let mut s = String::from_str("wrong array size (expected ");
                push_decimal(&mut s, *expected);
                s.append(", got ");
                push_decimal(&mut s, *actual);
                s.append(")");
                s
            },
            DTypeErrorKind::WrongFields { expected, actual } => {
                let mut s = String::from_str("field names do not match (expected ");
                s.append(debug_names(expected).as_str());
                s.append(", got ");
                s.append(debug_names(actual).as_str());
                s.append(")");
                s
            },
            DTypeErrorKind::BadScalar { type_str, rust_type, verb } => {
                let mut s = String::from_str("cannot ");
                s.append(verb);
                s.append(" type ");
                s.append(rust_type);
                s.append(" with type-string '");
                s.append(type_str.to_string().as_str());
                s.append("'");
                s
            },
            DTypeErrorKind::UsizeOverflow(value) => {
                let mut s = String::from_str("cannot cast ");
                push_decimal(&mut s, *value);
                s.append(" as usize");
                s
            },
        }
    }
}


/// Writes a boxed value with the writer of the value it holds.
pub struct BoxWriter<W> {
    inner: W,
}

impl<W: TypeWrite> TypeWrite for BoxWriter<W> where W::Value: Sized {
    type Value = Box<W::Value>;

    closed spec fn encodes(&self, value: &Box<W::Value>) -> Option<Seq<u8>> {
        self.inner.encodes(&**value)
    }

    fn write_one(&self, out: &mut Vec<u8>, value: &Box<W::Value>) -> (r: Result<(), WriteError>) {
        self.inner.write_one(out, &**value)
    }
}

impl<T: Serialize> Serialize for Box<T> {
    type Writer = BoxWriter<T::Writer>;

    open spec fn writes_as(dtype: DTypeModel) -> bool {
        T::writes_as(dtype)
    }

    open spec fn write_spec(dtype: DTypeModel, value: &Box<T>) -> Option<Seq<u8>> {
        T::write_spec(dtype, &**value)
    }

    fn writer(dtype: &DType) -> (r: Result<BoxWriter<T::Writer>, DTypeError>) {
        let inner = T::writer(dtype)?;
        let w = BoxWriter { inner };
        proof {
            assert forall|v: &Box<T>| #[trigger] w.encodes(v) == Self::write_spec(dtype.model(), v) by {
                assert(inner.encodes(&**v) == T::write_spec(dtype.model(), &**v));
            }
        }
        Ok(w)
    }
}

impl<T: AutoSerialize> AutoSerialize for Box<T> {
    open spec fn has_default() -> bool {
        T::has_default()
    }

    open spec fn default_spec(dtype: DTypeModel) -> bool {
        T::default_spec(dtype)
    }

    fn default_dtype() -> (r: DType) {
        T::default_dtype()
    }
}


/// Writes a value behind a shared reference with the writer of the value.
pub struct RefWriter<'a, W> {
    inner: W,
    lifetime: PhantomData<&'a ()>,
}

impl<'a, W: TypeWrite> TypeWrite for RefWriter<'a, W> where W::Value: 'a {
    type Value = &'a W::Value;

    closed spec fn encodes(&self, value: &&'a W::Value) -> Option<Seq<u8>> {
        self.inner.encodes(*value)
    }

    fn write_one(&self, out: &mut Vec<u8>, value: &&'a W::Value) -> (r: Result<(), WriteError>) {
        self.inner.write_one(out, *value)
    }
}

impl<'a, T: Serialize + ?Sized> Serialize for &'a T {
    type Writer = RefWriter<'a, T::Writer>;

    open spec fn writes_as(dtype: DTypeModel) -> bool {
        T::writes_as(dtype)
    }

    open spec fn write_spec(dtype: DTypeModel, value: &&'a T) -> Option<Seq<u8>> {
        T::write_spec(dtype, *value)
    }

    fn writer(dtype: &DType) -> (r: Result<RefWriter<'a, T::Writer>, DTypeError>) {
        let inner = T::writer(dtype)?;
        let w = RefWriter { inner, lifetime: PhantomData };
        proof {
            assert forall|v: &&'a T| #[trigger] w.encodes(v) == Self::write_spec(dtype.model(), v) by {
                assert(inner.encodes(*v) == T::write_spec(dtype.model(), *v));
            }
        }
        Ok(w)
    }
}

impl<'a, T: AutoSerialize + ?Sized> AutoSerialize for &'a T {
    open spec fn has_default() -> bool {
        T::has_default()
    }

    open spec fn default_spec(dtype: DTypeModel) -> bool {
        T::default_spec(dtype)
    }

    fn default_dtype() -> (r: DType) {
        T::default_dtype()
    }
}

/// Writes a value behind a mutable reference with the writer of the value.
pub struct MutRefWriter<'a, W> {
    inner: W,
    lifetime: PhantomData<&'a ()>,
}

impl<'a, W: TypeWrite> TypeWrite for MutRefWriter<'a, W> where W::Value: 'a {
    type Value = &'a mut W::Value;

    closed spec fn encodes(&self, value: &&'a mut W::Value) -> Option<Seq<u8>> {
        self.inner.encodes(&**value)
    }

    fn write_one(&self, out: &mut Vec<u8>, value: &&'a mut W::Value) -> (r: Result<(), WriteError>) {
        self.inner.write_one(out, &**value)
    }
}

impl<'a, T: Serialize + ?Sized> Serialize for &'a mut T {
    type Writer = MutRefWriter<'a, T::Writer>;

    open spec fn writes_as(dtype: DTypeModel) -> bool {
        T::writes_as(dtype)
    }

    open spec fn write_spec(dtype: DTypeModel, value: &&'a mut T) -> Option<Seq<u8>> {
        T::write_spec(dtype, &**value)
    }

    fn writer(dtype: &DType) -> (r: Result<MutRefWriter<'a, T::Writer>, DTypeError>) {
        let inner = T::writer(dtype)?;
        let w = MutRefWriter { inner, lifetime: PhantomData };
        proof {
            assert forall|v: &&'a mut T| #[trigger] w.encodes(v) == Self::write_spec(dtype.model(), v) by {
                assert(inner.encodes(&**v) == T::write_spec(dtype.model(), &**v));
            }
        }
        Ok(w)
    }
}

impl<'a, T: AutoSerialize + ?Sized> AutoSerialize for &'a mut T {
    open spec fn has_default() -> bool {
        T::has_default()
    }

    open spec fn default_spec(dtype: DTypeModel) -> bool {
        T::default_spec(dtype)
    }

    fn default_dtype() -> (r: DType) {
        T::default_dtype()
    }
}

/// Writes a reference-counted value with the writer of the value.
pub struct RcWriter<W> {
    inner: W,
}

impl<W: TypeWrite> TypeWrite for RcWriter<W> where W::Value: Sized {
    type Value = Rc<W::Value>;

    closed spec fn encodes(&self, value: &Rc<W::Value>) -> Option<Seq<u8>> {
        self.inner.encodes(&**value)
    }

    fn write_one(&self, out: &mut Vec<u8>, value: &Rc<W::Value>) -> (r: Result<(), WriteError>) {
        self.inner.write_one(out, &**value)
    }
}

impl<T: Serialize> Serialize for Rc<T> {
    type Writer = RcWriter<T::Writer>;

    open spec fn writes_as(dtype: DTypeModel) -> bool {
        T::writes_as(dtype)
    }

    open spec fn write_spec(dtype: DTypeModel, value: &Rc<T>) -> Option<Seq<u8>> {
        T::write_spec(dtype, &**value)
    }

    fn writer(dtype: &DType) -> (r: Result<RcWriter<T::Writer>, DTypeError>) {
        let inner = T::writer(dtype)?;
        let w = RcWriter { inner };
        proof {
            assert forall|v: &Rc<T>| #[trigger] w.encodes(v) == Self::write_spec(dtype.model(), v) by {
                assert(inner.encodes(&**v) == T::write_spec(dtype.model(), &**v));
            }
        }
        Ok(w)
    }
}

impl<T: AutoSerialize> AutoSerialize for Rc<T> {
    open spec fn has_default() -> bool {
        T::has_default()
    }

    open spec fn default_spec(dtype: DTypeModel) -> bool {
        T::default_spec(dtype)
    }

    fn default_dtype() -> (r: DType) {
        T::default_dtype()
    }
}

/// Writes an atomically reference-counted value with the writer of the value.
pub struct ArcWriter<W> {
    inner: W,
}

impl<W: TypeWrite> TypeWrite for ArcWriter<W> where W::Value: Sized {
    type Value = Arc<W::Value>;

    closed spec fn encodes(&self, value: &Arc<W::Value>) -> Option<Seq<u8>> {
        self.inner.encodes(&**value)
    }

    fn write_one(&self, out: &mut Vec<u8>, value: &Arc<W::Value>) -> (r: Result<(), WriteError>) {
        self.inner.write_one(out, &**value)
    }
}

impl<T: Serialize> Serialize for Arc<T> {
    type Writer = ArcWriter<T::Writer>;

    open spec fn writes_as(dtype: DTypeModel) -> bool {
        T::writes_as(dtype)
    }

    open spec fn write_spec(dtype: DTypeModel, value: &Arc<T>) -> Option<Seq<u8>> {
        T::write_spec(dtype, &**value)
    }

    fn writer(dtype: &DType) -> (r: Result<ArcWriter<T::Writer>, DTypeError>) {
        let inner = T::writer(dtype)?;
        let w = ArcWriter { inner };
        proof {
            assert forall|v: &Arc<T>| #[trigger] w.encodes(v) == Self::write_spec(dtype.model(), v) by {
                assert(inner.encodes(&**v) == T::write_spec(dtype.model(), &**v));
            }
        }
        Ok(w)
    }
}

impl<T: AutoSerialize> AutoSerialize for Arc<T> {
    open spec fn has_default() -> bool {
        T::has_default()
    }

    open spec fn default_spec(dtype: DTypeModel) -> bool {
        T::default_spec(dtype)
    }

    fn default_dtype() -> (r: DType) {
        T::default_dtype()
    }
}

} // verus!
