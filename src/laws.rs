//! Laws that relate the library's functions to one another.
use vstd::prelude::*;
use vstd::arithmetic::div_mod::lemma_fundamental_div_mod;
use crate::bytes::{lemma_pow256_values, lemma_uint_round_trip, pow256};
use crate::dtype::{
    DTypeModel, DescrError, FieldModel, dim_of_descr, dims_of_descr, dtype_of_descr,
    field_of_descr, fields_of_descr, type_str_of_text,
};
use crate::header::ValueModel;
use crate::serialize::{
    Deserialize, F32Bits, F64Bits, Serialize, bytes_binds, scalar_big, scalar_of, trim_zeros, zeros,
};
use crate::type_str::{
    TypeKind, TypeStr, TypeStrErrorKind, decimal_text, decimal_value, digit_char, digit_run,
    digit_value, endianness_code, endianness_of_code, is_digit, kind_code, kind_of_code,
    lemma_decimal_prefix_le, lemma_digit_run, lemma_digit_run_at_least,
    lemma_units_code_round_trip, lemma_units_of_code_exact, parse_type_str, type_str_text,
    units_code, units_suffix,
};

verus! {

/// The size digits of a type-string's text have no superfluous leading zero.
pub open spec fn canonical_size_digits(s: Seq<char>) -> bool {
    let rest = s.subrange(2, s.len() as int);
    digit_run(rest) == 1 || rest[0] != '0'
}

proof fn lemma_digit_char_value(c: char)
    requires
        is_digit(c),
    ensures
        digit_char(digit_value(c)) == c,
        digit_value(c) < 10,
{
    vstd::utf8::char_u32_cast(c, c as u32);
}

/// A run of digits without a superfluous leading zero is the decimal text of
/// the number it denotes.
proof fn lemma_decimal_text_of_digits(d: Seq<char>)
    requires
        d.len() >= 1,
        forall|j: int| 0 <= j < d.len() ==> is_digit(#[trigger] d[j]),
        d.len() == 1 || d[0] != '0',
    ensures
        decimal_text(decimal_value(d)) == d,
    decreases d.len(),
{
    lemma_digit_char_value(d.last());
    if d.len() == 1 {
        assert(d.drop_last() =~= Seq::<char>::empty());
        assert(decimal_value(d.drop_last()) == 0);
        assert(d.last() == d[0]);
        assert(decimal_value(d) == digit_value(d[0]));
        assert(decimal_text(decimal_value(d)) =~= d);
    } else {
        let p = d.drop_last();
        assert forall|j: int| 0 <= j < p.len() implies is_digit(#[trigger] p[j]) by {
            assert(p[j] == d[j]);
        }
        lemma_decimal_text_of_digits(p);
        lemma_decimal_prefix_le(p, 1);
        let lead = p.subrange(0, 1);
        assert(lead.drop_last() =~= Seq::<char>::empty());
        assert(decimal_value(lead.drop_last()) == 0);
        assert(lead.last() == p[0]);
        assert(decimal_value(lead) == digit_value(p[0]));
        assert(p[0] == d[0]);
        assert(digit_value(p[0]) >= 1);
        let v = decimal_value(d);
        let q = decimal_value(p);
        let r = digit_value(d.last());
        assert(v == q * 10 + r);
        assert(v / 10 == q && v % 10 == r) by {
            lemma_fundamental_div_mod(v as int, 10);
            assert(v / 10 == q && v % 10 == r) by (nonlinear_arith)
                requires
                    v == q * 10 + r,
                    0 <= r < 10,
                    v == 10 * (v / 10) + v % 10,
                    0 <= v % 10 < 10,
            ;
        }
        assert(v >= 10);
        assert(decimal_text(v) == decimal_text(q).push(digit_char(r)));
        assert(d =~= p.push(d.last()));
    }
}

/// Parsing a type-string's text and writing the result back gives the text
/// again, where the size has no superfluous leading zero (`<i04` is read as
/// `<i4`).
pub proof fn law_type_str_text_round_trip(s: Seq<char>)
    requires
        parse_type_str(s) is Ok,
        canonical_size_digits(s),
    ensures
        type_str_text(parse_type_str(s)->Ok_0) == s,
{
    let t = parse_type_str(s)->Ok_0;
    let rest = s.subrange(2, s.len() as int);
    let n = digit_run(rest) as int;
    let digits = rest.subrange(0, n);
    let tail = rest.subrange(n, rest.len() as int);
    lemma_digit_run_at_least(rest, 0);
    assert forall|j: int| 0 <= j < digits.len() implies is_digit(#[trigger] digits[j]) by {
        assert(digits[j] == rest[j]);
    }
    if n > 1 {
        assert(digits[0] == rest[0]);
    }
    lemma_decimal_text_of_digits(digits);
    assert(t.size as nat == decimal_value(digits));
    assert(endianness_code(t.endianness) == s[0]);
    assert(kind_code(t.type_kind) == s[1]);
    let suffix = match t.time_units {
        Some(u) => seq!['['] + units_code(u) + seq![']'],
        None => Seq::<char>::empty(),
    };
    if tail.len() > 0 {
        let inner = tail.subrange(1, tail.len() - 1);
        lemma_units_of_code_exact(inner);
        assert(tail =~= seq!['['] + inner + seq![']']);
    }
    assert(tail =~= suffix);
    assert(s =~= seq![s[0], s[1]] + digits + tail);
}


/// Writing an `i8` as a dtype it binds to and reading the bytes back as that
/// dtype gives the value again, in either byte order.
pub proof fn law_i8_round_trip(dtype: DTypeModel, v: i8, w: i8)
    requires
        <i8 as Serialize>::writes_as(dtype),
    ensures
        <i8 as Serialize>::write_spec(dtype, &v) matches Some(b) && b.len() == 1 && (<i8 as Deserialize>::read_spec(
            dtype,
            b,
            w,
        ) <==> w == v),
{
    let y = v as u8;
    lemma_pow256_values();
    assert((y as nat) < pow256(1));
    lemma_uint_round_trip(y as nat, 1, scalar_big(dtype));
    assert((y as i8) == v) by (bit_vector)
        requires
            y == v as u8,
    ;
}

/// Writing an `i16` as a dtype it binds to and reading the bytes back as that
/// dtype gives the value again, in either byte order.
pub proof fn law_i16_round_trip(dtype: DTypeModel, v: i16, w: i16)
    requires
        <i16 as Serialize>::writes_as(dtype),
    ensures
        <i16 as Serialize>::write_spec(dtype, &v) matches Some(b) && b.len() == 2 && (<i16 as Deserialize>::read_spec(
            dtype,
            b,
            w,
        ) <==> w == v),
{
    let y = v as u16;
    lemma_pow256_values();
    assert((y as nat) < pow256(2));
    lemma_uint_round_trip(y as nat, 2, scalar_big(dtype));
    assert((y as i16) == v) by (bit_vector)
        requires
            y == v as u16,
    ;
}

/// Writing an `i32` as a dtype it binds to and reading the bytes back as that
/// dtype gives the value again, in either byte order.
pub proof fn law_i32_round_trip(dtype: DTypeModel, v: i32, w: i32)
    requires
        <i32 as Serialize>::writes_as(dtype),
    ensures
        <i32 as Serialize>::write_spec(dtype, &v) matches Some(b) && b.len() == 4 && (<i32 as Deserialize>::read_spec(
            dtype,
            b,
            w,
        ) <==> w == v),
{
    let y = v as u32;
    lemma_pow256_values();
    assert((y as nat) < pow256(4));
    lemma_uint_round_trip(y as nat, 4, scalar_big(dtype));
    assert((y as i32) == v) by (bit_vector)
        requires
            y == v as u32,
    ;
}

/// Writing an `i64` as a dtype it binds to and reading the bytes back as that
/// dtype gives the value again, in either byte order.
pub proof fn law_i64_round_trip(dtype: DTypeModel, v: i64, w: i64)
    requires
        <i64 as Serialize>::writes_as(dtype),
    ensures
        <i64 as Serialize>::write_spec(dtype, &v) matches Some(b) && b.len() == 8 && (<i64 as Deserialize>::read_spec(
            dtype,
            b,
            w,
        ) <==> w == v),
{
    let y = v as u64;
    lemma_pow256_values();
    assert((y as nat) < pow256(8));
    lemma_uint_round_trip(y as nat, 8, scalar_big(dtype));
    assert((y as i64) == v) by (bit_vector)
        requires
            y == v as u64,
    ;
}

/// Writing an `u8` as a dtype it binds to and reading the bytes back as that
/// dtype gives the value again, in either byte order.
pub proof fn law_u8_round_trip(dtype: DTypeModel, v: u8, w: u8)
    requires
        <u8 as Serialize>::writes_as(dtype),
    ensures
        <u8 as Serialize>::write_spec(dtype, &v) matches Some(b) && b.len() == 1 && (<u8 as Deserialize>::read_spec(
            dtype,
            b,
            w,
        ) <==> w == v),
{
    let y = v as u8;
    lemma_pow256_values();
    assert((y as nat) < pow256(1));
    lemma_uint_round_trip(y as nat, 1, scalar_big(dtype));
    
}

/// Writing an `u16` as a dtype it binds to and reading the bytes back as that
/// dtype gives the value again, in either byte order.
pub proof fn law_u16_round_trip(dtype: DTypeModel, v: u16, w: u16)
    requires
        <u16 as Serialize>::writes_as(dtype),
    ensures
        <u16 as Serialize>::write_spec(dtype, &v) matches Some(b) && b.len() == 2 && (<u16 as Deserialize>::read_spec(
            dtype,
            b,
            w,
        ) <==> w == v),
{
    let y = v as u16;
    lemma_pow256_values();
    assert((y as nat) < pow256(2));
    lemma_uint_round_trip(y as nat, 2, scalar_big(dtype));
    
}

/// Writing an `u32` as a dtype it binds to and reading the bytes back as that
/// dtype gives the value again, in either byte order.
pub proof fn law_u32_round_trip(dtype: DTypeModel, v: u32, w: u32)
    requires
        <u32 as Serialize>::writes_as(dtype),
    ensures
        <u32 as Serialize>::write_spec(dtype, &v) matches Some(b) && b.len() == 4 && (<u32 as Deserialize>::read_spec(
            dtype,
            b,
            w,
        ) <==> w == v),
{
    let y = v as u32;
    lemma_pow256_values();
    assert((y as nat) < pow256(4));
    lemma_uint_round_trip(y as nat, 4, scalar_big(dtype));
    
}

/// Writing an `u64` as a dtype it binds to and reading the bytes back as that
/// dtype gives the value again, in either byte order.
pub proof fn law_u64_round_trip(dtype: DTypeModel, v: u64, w: u64)
    requires
        <u64 as Serialize>::writes_as(dtype),
    ensures
        <u64 as Serialize>::write_spec(dtype, &v) matches Some(b) && b.len() == 8 && (<u64 as Deserialize>::read_spec(
            dtype,
            b,
            w,
        ) <==> w == v),
{
    let y = v as u64;
    lemma_pow256_values();
    assert((y as nat) < pow256(8));
    lemma_uint_round_trip(y as nat, 8, scalar_big(dtype));
    
}

/// Writing an `F32Bits` as a dtype it binds to and reading the bytes back as that
/// dtype gives the value again, in either byte order.
pub proof fn law_f32_bits_round_trip(dtype: DTypeModel, v: F32Bits, w: F32Bits)
    requires
        <F32Bits as Serialize>::writes_as(dtype),
    ensures
        <F32Bits as Serialize>::write_spec(dtype, &v) matches Some(b) && b.len() == 4 && (<F32Bits as Deserialize>::read_spec(
            dtype,
            b,
            w,
        ) <==> w == v),
{
    let y = v.0 as u32;
    lemma_pow256_values();
    assert((y as nat) < pow256(4));
    lemma_uint_round_trip(y as nat, 4, scalar_big(dtype));
    
}

/// Writing an `F64Bits` as a dtype it binds to and reading the bytes back as that
/// dtype gives the value again, in either byte order.
pub proof fn law_f64_bits_round_trip(dtype: DTypeModel, v: F64Bits, w: F64Bits)
    requires
        <F64Bits as Serialize>::writes_as(dtype),
    ensures
        <F64Bits as Serialize>::write_spec(dtype, &v) matches Some(b) && b.len() == 8 && (<F64Bits as Deserialize>::read_spec(
            dtype,
            b,
            w,
        ) <==> w == v),
{
    let y = v.0 as u64;
    lemma_pow256_values();
    assert((y as nat) < pow256(8));
    lemma_uint_round_trip(y as nat, 8, scalar_big(dtype));
    
}

/// Zero bytes after a byte string do not change what trimming gives.
pub proof fn lemma_trim_padding(v: Seq<u8>, k: nat)
    ensures
        trim_zeros(v + zeros(k)) == trim_zeros(v),
    decreases k,
{
    if k > 0 {
        let padded = v + zeros(k);
        assert(padded.last() == 0);
        assert(padded.drop_last() =~= v + zeros((k - 1) as nat));
        lemma_trim_padding(v, (k - 1) as nat);
    } else {
        assert(v + zeros(0) =~= v);
    }
}

/// A byte string written as an `S` dtype is padded with zero bytes to the
/// dtype's size; reading those bytes back gives it without its trailing zero
/// bytes, interior zero bytes kept.
pub proof fn law_byte_str_pad_and_trim(dtype: DTypeModel, v: Vec<u8>, w: Vec<u8>)
    requires
        bytes_binds(dtype),
        scalar_of(dtype)->Some_0.type_kind == TypeKind::ByteStr,
        v@.len() <= scalar_of(dtype)->Some_0.size,
    ensures
        ({
            let size = scalar_of(dtype)->Some_0.size as nat;
            let padded = v@ + zeros((size - v@.len()) as nat);
            &&& <Vec<u8> as Serialize>::write_spec(dtype, &v) == Some(padded)
            &&& <Vec<u8> as Deserialize>::read_spec(dtype, padded, w) <==> w@ == trim_zeros(v@)
        }),
{
    let size = scalar_of(dtype)->Some_0.size as nat;
    lemma_trim_padding(v@, (size - v@.len()) as nat);
}

/// Raw data (`V`) is written only at exactly the dtype's size, a byte string
/// (`S`) at any length up to it; raw data reads back unchanged.
pub proof fn law_blob_lengths(dtype: DTypeModel, v: Vec<u8>, w: Vec<u8>)
    requires
        bytes_binds(dtype),
    ensures
        ({
            let ty = scalar_of(dtype)->Some_0;
            &&& ty.type_kind == TypeKind::RawData ==> (<Vec<u8> as Serialize>::write_spec(
                dtype,
                &v,
            ) is None <==> v@.len() != ty.size)
            &&& ty.type_kind == TypeKind::ByteStr ==> (<Vec<u8> as Serialize>::write_spec(
                dtype,
                &v,
            ) is None <==> v@.len() > ty.size)
            &&& ty.type_kind == TypeKind::RawData && v@.len() == ty.size ==> (<Vec<u8> as Deserialize>::read_spec(
                dtype,
                v@,
                w,
            ) <==> w@ == v@)
            &&& ty.type_kind == TypeKind::RawData && v@.len() == ty.size ==> <Vec<u8> as Serialize>::write_spec(dtype, &v) == Some(v@)
        }),
{
    assert(v@ + zeros(0) =~= v@);
}


proof fn lemma_digit_char_digit(d: nat)
    requires
        d < 10,
    ensures
        is_digit(digit_char(d)),
        digit_value(digit_char(d)) == d,
{
    assert((digit_char(d) as int) == d + 48);
}


/// The decimal text of a number is a run of digits, without a superfluous
/// leading zero, that denotes the number.
pub proof fn lemma_decimal_text(n: nat)
    ensures
        decimal_text(n).len() >= 1,
        forall|j: int| 0 <= j < decimal_text(n).len() ==> is_digit(#[trigger] decimal_text(n)[j]),
        decimal_value(decimal_text(n)) == n,
        decimal_text(n).len() == 1 || decimal_text(n)[0] != '0',
    decreases n,
{
    let t = decimal_text(n);
    if n < 10 {
        lemma_digit_char_digit(n);
        assert(t.drop_last() =~= Seq::<char>::empty());
        assert(decimal_value(t.drop_last()) == 0);
    } else {
        let q = n / 10;
        let r = n % 10;
        lemma_decimal_text(q);
        lemma_digit_char_digit(r);
        let p = decimal_text(q);
        assert(t == p.push(digit_char(r)));
        assert(t.drop_last() =~= p);
        assert forall|j: int| 0 <= j < t.len() implies is_digit(#[trigger] t[j]) by {
            if j < p.len() {
                assert(t[j] == p[j]);
            }
        }
        lemma_fundamental_div_mod(n as int, 10);
        assert(decimal_value(t) == q * 10 + r);
        if p.len() == 1 {
            lemma_digit_char_digit(q % 10);
            assert(q < 10) by {
                if q >= 10 {
                    assert(decimal_text(q).len() >= 2) by {
                        lemma_decimal_text(q / 10);
                    }
                }
            }
            assert(p[0] == digit_char(q));
            lemma_digit_char_digit(q);
        }
        assert(t[0] == p[0]);
    }
}

/// The text of a valid type-string parses back to it.
pub proof fn law_type_str_parse_text(t: TypeStr)
    requires
        t.valid(),
    ensures
        parse_type_str(type_str_text(t)) == Ok::<TypeStr, crate::type_str::TypeStrErrorKind>(t),
{
    let s = type_str_text(t);
    let d = decimal_text(t.size as nat);
    let u = match t.time_units {
        Some(x) => seq!['['] + units_code(x) + seq![']'],
        None => Seq::<char>::empty(),
    };
    lemma_decimal_text(t.size as nat);
    let rest = s.subrange(2, s.len() as int);
    assert(rest =~= d + u);
    assert forall|j: int| 0 <= j < d.len() implies is_digit(#[trigger] rest[j]) by {
        assert(rest[j] == d[j]);
    }
    if u.len() > 0 {
        assert(rest[d.len() as int] == '[');
    }
    lemma_digit_run(rest, d.len() as int);
    assert(rest.subrange(0, d.len() as int) =~= d);
    assert(rest.subrange(d.len() as int, rest.len() as int) =~= u);
    if let Some(x) = t.time_units {
        lemma_units_code_round_trip(x);
        assert(u.subrange(1, u.len() - 1) =~= units_code(x));
    }
    assert(units_suffix(u) == Some(t.time_units));
    assert(endianness_of_code(s[0]) == Some(t.endianness));
    assert(kind_of_code(s[1]) == Some(t.type_kind));
}


/// The header value that the text of a dtype stands for.
pub open spec fn descr_value(d: DTypeModel) -> ValueModel
    decreases d, 0nat,
{
    match d {
        DTypeModel::Plain { ty, .. } => ValueModel::Text(type_str_text(ty)),
        DTypeModel::Record(fields) => ValueModel::List(fields_values(fields, fields.len() as int)),
    }
}

pub open spec fn fields_values(fields: Seq<FieldModel>, n: int) -> Seq<ValueModel>
    decreases fields, n,
{
    if n <= 0 || n > fields.len() {
        Seq::empty()
    } else {
        fields_values(fields, n - 1).push(field_value(fields[n - 1]))
    }
}

/// The header value that the text of one field tuple stands for.
pub open spec fn field_value(f: FieldModel) -> ValueModel
    decreases f, 0nat,
{
    match f.dtype {
        DTypeModel::Plain { ty, shape } => if shape.len() == 0 {
            ValueModel::List(seq![ValueModel::Text(f.name), ValueModel::Text(type_str_text(ty))])
        } else {
            ValueModel::List(
                seq![
                    ValueModel::Text(f.name),
                    ValueModel::Text(type_str_text(ty)),
                    ValueModel::List(shape_values(shape)),
                ],
            )
        },
        DTypeModel::Record(_) => ValueModel::List(seq![ValueModel::Text(f.name), descr_value(f.dtype)]),
    }
}

pub open spec fn shape_values(shape: Seq<u64>) -> Seq<ValueModel> {
    Seq::new(shape.len(), |i: int| ValueModel::Integer(shape[i] as i64))
}

pub proof fn lemma_fields_values(fields: Seq<FieldModel>, n: int)
    requires
        0 <= n <= fields.len(),
    ensures
        fields_values(fields, n).len() == n,
        forall|k: int| 0 <= k < n ==> #[trigger] fields_values(fields, n)[k] == field_value(fields[k]),
    decreases n,
{
    if n > 0 {
        lemma_fields_values(fields, n - 1);
    }
}

proof fn lemma_type_text_reads_back(s: Seq<char>, t: TypeStr)
    requires
        type_str_of_text(s) == Ok::<TypeStr, DescrError>(t),
    ensures
        type_str_of_text(type_str_text(t)) == Ok::<TypeStr, DescrError>(t),
{
    assert(t.valid());
    law_type_str_parse_text(t);
}

pub proof fn lemma_dims_read_back(items: Seq<ValueModel>, n: int, ds: Seq<u64>)
    requires
        0 <= n <= items.len(),
        dims_of_descr(items, n) == Ok::<Seq<u64>, DescrError>(ds),
    ensures
        ds.len() == n,
        forall|k: int| 0 <= k < n ==> 0 < #[trigger] ds[k] <= i64::MAX,
        dims_of_descr(shape_values(ds), n) == Ok::<Seq<u64>, DescrError>(ds),
    decreases n,
{
    if n > 0 {
        let prev = dims_of_descr(items, n - 1)->Ok_0;
        lemma_dims_read_back(items, n - 1, prev);
        assert(ds == prev.push(dim_of_descr(items[n - 1])->Ok_0));
        assert(prev =~= ds.subrange(0, n - 1));
        assert(shape_values(ds).subrange(0, n - 1) =~= shape_values(prev));
        assert(shape_values(prev).subrange(0, n - 1) =~= shape_values(prev));
        lemma_dims_prefix(shape_values(ds), shape_values(prev), n - 1);
        assert(dim_of_descr(shape_values(ds)[n - 1]) == Ok::<u64, DescrError>(ds[n - 1]));
    }
}

/// `dims_of_descr` over the first `n` items depends on those items alone.
proof fn lemma_dims_prefix(a: Seq<ValueModel>, b: Seq<ValueModel>, n: int)
    requires
        0 <= n <= b.len(),
        n <= a.len(),
        a.subrange(0, n) == b.subrange(0, n),
    ensures
        dims_of_descr(a, n) == dims_of_descr(b, n),
    decreases n,
{
    if n > 0 {
        assert(a.subrange(0, n - 1) =~= a.subrange(0, n).subrange(0, n - 1));
        assert(b.subrange(0, n - 1) =~= b.subrange(0, n).subrange(0, n - 1));
        lemma_dims_prefix(a, b, n - 1);
        assert(a[n - 1] == a.subrange(0, n)[n - 1]);
        assert(b[n - 1] == b.subrange(0, n)[n - 1]);
    }
}

/// `fields_of_descr` over the first `n` items depends on those items alone.
proof fn lemma_fields_prefix(a: Seq<ValueModel>, b: Seq<ValueModel>, n: int)
    requires
        0 <= n <= b.len(),
        n <= a.len(),
        a.subrange(0, n) == b.subrange(0, n),
    ensures
        fields_of_descr(a, n) == fields_of_descr(b, n),
    decreases n,
{
    if n > 0 {
        assert(a.subrange(0, n - 1) =~= a.subrange(0, n).subrange(0, n - 1));
        assert(b.subrange(0, n - 1) =~= b.subrange(0, n).subrange(0, n - 1));
        lemma_fields_prefix(a, b, n - 1);
        assert(a[n - 1] == a.subrange(0, n)[n - 1]);
        assert(b[n - 1] == b.subrange(0, n)[n - 1]);
    }
}

/// A dtype read from a header value is read again from the value its text
/// stands for.
pub proof fn lemma_descr_value_reads_back(v: ValueModel)
    requires
        dtype_of_descr(v) is Ok,
    ensures
        dtype_of_descr(descr_value(dtype_of_descr(v)->Ok_0)) == dtype_of_descr(v),
    decreases v, 0nat,
{
    match v {
        ValueModel::Text(s) => {
            let t = type_str_of_text(s)->Ok_0;
            lemma_type_text_reads_back(s, t);
            let m = DTypeModel::Plain { ty: t, shape: Seq::empty() };
            assert(dtype_of_descr(v) == Ok::<DTypeModel, DescrError>(m));
            assert(descr_value(m) == ValueModel::Text(type_str_text(t)));
            assert(type_str_of_text(type_str_text(t)) == Ok::<TypeStr, DescrError>(t));
            assert(dtype_of_descr(ValueModel::Text(type_str_text(t))) == Ok::<DTypeModel, DescrError>(m));
        },
        ValueModel::List(items) => {
            let fs = fields_of_descr(items, items.len() as int)->Ok_0;
            lemma_fields_read_back(items, items.len() as int);
            lemma_fields_values(fs, fs.len() as int);
        },
        _ => {},
    }
}

proof fn lemma_fields_read_back(items: Seq<ValueModel>, n: int)
    requires
        0 <= n <= items.len(),
        fields_of_descr(items, n) is Ok,
    ensures
        ({
            let fs = fields_of_descr(items, n)->Ok_0;
            &&& fs.len() == n
            &&& fields_of_descr(fields_values(fs, n), n) == Ok::<Seq<FieldModel>, DescrError>(fs)
        }),
    decreases items, n,
{
    if n > 0 {
        let fs = fields_of_descr(items, n)->Ok_0;
        let prev = fields_of_descr(items, n - 1)->Ok_0;
        lemma_fields_read_back(items, n - 1);
        let f = field_of_descr(items[n - 1])->Ok_0;
        lemma_field_read_back(items[n - 1]);
        assert(fs == prev.push(f));
        assert(fs.subrange(0, n - 1) =~= prev);
        lemma_fields_values(fs, n);
        lemma_fields_values(prev, n - 1);
        let vals = fields_values(fs, n);
        assert(vals.subrange(0, n - 1) =~= fields_values(prev, n - 1));
        assert(fields_values(prev, n - 1).subrange(0, n - 1) =~= fields_values(prev, n - 1));
        lemma_fields_prefix(vals, fields_values(prev, n - 1), n - 1);
        assert(vals[n - 1] == field_value(f));
    }
}

proof fn lemma_field_read_back(entry: ValueModel)
    requires
        field_of_descr(entry) is Ok,
    ensures
        field_of_descr(field_value(field_of_descr(entry)->Ok_0)) == field_of_descr(entry),
    decreases entry, 0nat,
{
    let f = field_of_descr(entry)->Ok_0;
    match entry {
        ValueModel::List(t) => {
            match (t[0], t[1]) {
                (ValueModel::Text(name), ValueModel::Text(ty)) => {
                    let ts = type_str_of_text(ty)->Ok_0;
                    lemma_type_text_reads_back(ty, ts);
                    if t.len() == 3 {
                        match t[2] {
                            ValueModel::List(dims) => {
                                let shape = dims_of_descr(dims, dims.len() as int)->Ok_0;
                                lemma_dims_read_back(dims, dims.len() as int, shape);
                            },
                            _ => {},
                        }
                    }
                },
                (ValueModel::Text(name), ValueModel::List(sub)) => {
                    assert(decreases_to!(entry => t));
                    lemma_fields_read_back(sub, sub.len() as int);
                    let fs = fields_of_descr(sub, sub.len() as int)->Ok_0;
                    lemma_fields_values(fs, fs.len() as int);
                },
                _ => {},
            }
        },
        _ => {},
    }
}

} // verus!
