//! The text of a dtype, as written in a header, reads back as that dtype.
use vstd::prelude::*;
use vstd::utf8::{
    encode_scalar, encode_utf8, encode_utf8_decode_utf8, encode_utf8_valid_utf8, is_ascii_chars,
    is_ascii_chars_encode_utf8,
};
use crate::dtype::{
    DTypeModel, FieldModel, descr_text, dims_of_descr, dtype_of_descr, dtype_of_text,
    field_of_descr, field_text, fields_of_descr, fields_text, quoted, shape_text,
};
use crate::header::{
    ValueModel, byte_decimal, false_word, find_byte, is_digit_byte, is_space, item_spec,
    lemma_digits_at, list_tail_spec, matches_at, skip_ws, string_spec, true_word,
};
use crate::laws::{
    descr_value, field_value, fields_values, lemma_decimal_text, lemma_descr_value_reads_back,
    lemma_dims_read_back, shape_values,
};
use crate::out_file::lemma_encode_concat;
use crate::type_str::{
    TypeStr, decimal_text, decimal_value, digit_value, is_digit, type_str_text, units_code,
};

verus! {

broadcast proof fn lemma_encode_concat_auto(a: Seq<char>, b: Seq<char>)
    ensures
        #[trigger] encode_utf8(a + b) == encode_utf8(a) + encode_utf8(b),
{
    lemma_encode_concat(a, b);
}

/// The bytes `b` stand in `s` at `i`.
pub open spec fn at(s: Seq<u8>, i: int, b: Seq<u8>) -> bool {
    &&& 0 <= i
    &&& i + b.len() <= s.len()
    &&& forall|k: int| 0 <= k < b.len() ==> s[i + k] == #[trigger] b[k]
}

proof fn lemma_at_split(s: Seq<u8>, i: int, a: Seq<u8>, b: Seq<u8>)
    requires
        at(s, i, a + b),
    ensures
        at(s, i, a),
        at(s, i + a.len(), b),
{
    assert forall|k: int| 0 <= k < a.len() implies s[i + k] == #[trigger] a[k] by {
        assert((a + b)[k] == a[k]);
    }
    assert forall|k: int| 0 <= k < b.len() implies s[i + a.len() + k] == #[trigger] b[k] by {
        assert((a + b)[a.len() + k] == b[k]);
    }
}

/// An ASCII literal encodes to its bytes.
proof fn lemma_encode_literal(cs: Seq<char>, bs: Seq<u8>)
    requires
        cs.len() == bs.len(),
        forall|i: int| 0 <= i < cs.len() ==> '\0' <= #[trigger] cs[i] <= '\u{7f}' && cs[i] as u8 == bs[i],
    ensures
        encode_utf8(cs) == bs,
{
    is_ascii_chars_encode_utf8(cs);
    assert(encode_utf8(cs) =~= bs);
}

/// `t` written between single quotes, as bytes.
pub open spec fn quoted_bytes(t: Seq<char>) -> Seq<u8> {
    seq![0x27u8] + encode_utf8(t) + seq![0x27u8]
}

proof fn lemma_quoted_bytes(t: Seq<char>)
    ensures
        encode_utf8(quoted(t)) == quoted_bytes(t),
{
    broadcast use lemma_encode_concat_auto;

    lemma_encode_literal(seq!['\''], seq![0x27u8]);
}

/// A name that can stand between single quotes in a header.
pub open spec fn quotable(t: Seq<char>) -> bool {
    t.len() > 0 && forall|j: int| 0 <= j < t.len() ==> #[trigger] t[j] != '\''
}

/// No byte of the encoding of a text without `'` is the byte of `'`.
proof fn lemma_no_quote_byte(t: Seq<char>)
    requires
        forall|j: int| 0 <= j < t.len() ==> #[trigger] t[j] != '\'',
    ensures
        forall|k: int| 0 <= k < encode_utf8(t).len() ==> #[trigger] encode_utf8(t)[k] != 0x27,
        t.len() > 0 ==> encode_utf8(t).len() > 0,
    decreases t.len(),
{
    if t.len() > 0 {
        let rest = t.drop_first();
        assert forall|j: int| 0 <= j < rest.len() implies #[trigger] rest[j] != '\'' by {
            assert(rest[j] == t[j + 1]);
        }
        lemma_no_quote_byte(rest);
        let c = t[0] as u32;
        let e = encode_scalar(c);
        assert(t[0] != '\'');
        assert(c != 0x27) by {
            if c == 0x27 {
                vstd::utf8::char_u32_cast(t[0], c);
                vstd::utf8::char_u32_cast('\'', 0x27);
            }
        }
        assert forall|k: int| 0 <= k < e.len() implies #[trigger] e[k] != 0x27 by {
            if c <= 0x7f {
                assert((c & 0x7f) as u8 != 0x27) by (bit_vector)
                    requires
                        c <= 0x7f,
                        c != 0x27,
                ;
            } else {
                assert(forall|x: u8| (0xC0u8 | x) != 0x27 && (0x80u8 | x) != 0x27 && (0xE0u8 | x)
                    != 0x27 && (0xF0u8 | x) != 0x27) by (bit_vector);
            }
        }
        assert(encode_utf8(t) == e + encode_utf8(rest));
        assert forall|k: int| 0 <= k < encode_utf8(t).len() implies #[trigger] encode_utf8(t)[k]
            != 0x27 by {
            if k < e.len() {
                assert(encode_utf8(t)[k] == e[k]);
            } else {
                assert(encode_utf8(t)[k] == encode_utf8(rest)[k - e.len()]);
            }
        }
    }
}

proof fn lemma_find(s: Seq<u8>, a: int, b: int, q: u8)
    requires
        0 <= a <= b < s.len(),
        forall|k: int| a <= k < b ==> s[k] != q,
        s[b] == q,
    ensures
        find_byte(s, a, q) == Some(b),
    decreases b - a,
{
    if a < b {
        lemma_find(s, a + 1, b, q);
    }
}

/// Where a byte is neither whitespace nor a digit, the item grammar takes
/// its branch from that byte alone.
proof fn lemma_not_word(s: Seq<u8>, p: int)
    requires
        0 <= p < s.len(),
        s[p] != 0x54,
        s[p] != 0x46,
    ensures
        !matches_at(s, p, true_word()),
        !matches_at(s, p, false_word()),
{
    if matches_at(s, p, true_word()) {
        assert(s.subrange(p, p + 4)[0] == s[p]);
    }
    if matches_at(s, p, false_word()) {
        assert(s.subrange(p, p + 5)[0] == s[p]);
    }
}

/// A quoted name at `i` is read as that name.
proof fn lemma_string_at(s: Seq<u8>, i: int, t: Seq<char>)
    requires
        at(s, i, quoted_bytes(t)),
        quotable(t),
    ensures
        string_spec(s, i) == Some((t, skip_ws(s, i + quoted_bytes(t).len()))),
        item_spec(s, i) == Some((ValueModel::Text(t), skip_ws(s, i + quoted_bytes(t).len()))),
{
    let e = encode_utf8(t);
    lemma_no_quote_byte(t);
    lemma_at_split(s, i, seq![0x27u8] + e, seq![0x27u8]);
    lemma_at_split(s, i, seq![0x27u8], e);
    let k0 = i + 1 + e.len();
    assert(s[i] == 0x27) by {
        assert(seq![0x27u8][0] == 0x27);
    }
    assert(s[k0] == 0x27) by {
        assert(seq![0x27u8][0] == 0x27);
    }
    assert forall|k: int| i + 1 <= k < k0 implies s[k] != 0x27 by {
        assert(s[i + 1 + (k - i - 1)] == e[k - i - 1]);
    }
    lemma_find(s, i + 1, k0, 0x27);
    assert(s.subrange(i + 1, k0) =~= e) by {
        assert forall|k: int| 0 <= k < e.len() implies s.subrange(i + 1, k0)[k] == e[k] by {
            assert(s[i + 1 + k] == e[k]);
        }
    }
    encode_utf8_valid_utf8(t);
    encode_utf8_decode_utf8(t);
    assert(!is_space(s[i]));
    assert(skip_ws(s, i) == i);
    lemma_not_word(s, i);
}


proof fn lemma_at_byte(s: Seq<u8>, x: int, b: u8)
    requires
        at(s, x, seq![b]),
    ensures
        s[x] == b,
        0 <= x < s.len(),
{
    assert(seq![b][0] == b);
}

proof fn lemma_at_two(s: Seq<u8>, x: int, b0: u8, b1: u8)
    requires
        at(s, x, seq![b0, b1]),
    ensures
        s[x] == b0,
        s[x + 1] == b1,
        0 <= x,
        x + 1 < s.len(),
{
    assert(seq![b0, b1][0] == b0);
    assert(seq![b0, b1][1] == b1);
}

/// The bytes of a run of decimal digits are digit bytes, and denote the
/// same number.
proof fn lemma_digit_bytes(d: Seq<char>)
    requires
        forall|j: int| 0 <= j < d.len() ==> is_digit(#[trigger] d[j]),
    ensures
        encode_utf8(d).len() == d.len(),
        forall|k: int| 0 <= k < d.len() ==> is_digit_byte(#[trigger] encode_utf8(d)[k]),
        byte_decimal(encode_utf8(d)) == decimal_value(d),
    decreases d.len(),
{
    assert(is_ascii_chars(d)) by {
        assert forall|i: int| 0 <= i < d.len() implies '\0' <= #[trigger] d[i] <= '\u{7f}' by {
            assert(is_digit(d[i]));
        }
    }
    is_ascii_chars_encode_utf8(d);
    let b = encode_utf8(d);
    assert forall|k: int| 0 <= k < d.len() implies is_digit_byte(#[trigger] b[k]) by {
        assert(is_digit(d[k]));
        assert(b[k] == d[k] as u8);
    }
    if d.len() > 0 {
        let p = d.drop_last();
        assert forall|j: int| 0 <= j < p.len() implies is_digit(#[trigger] p[j]) by {
            assert(p[j] == d[j]);
        }
        lemma_digit_bytes(p);
        is_ascii_chars_encode_utf8(p);
        assert(b.drop_last() =~= encode_utf8(p)) by {
            assert forall|k: int| 0 <= k < p.len() implies #[trigger] b.drop_last()[k] == encode_utf8(
                p,
            )[k] by {
                assert(b[k] == d[k] as u8);
                assert(p[k] == d[k]);
            }
        }
        assert(b.last() == d.last() as u8);
        assert(is_digit(d.last()));
        assert((b.last() - 0x30) as nat == digit_value(d.last()));
    }
}

/// A number's decimal text at `i`, followed by a comma, is read as that number.
proof fn lemma_int_at(s: Seq<u8>, i: int, x: u64)
    requires
        at(s, i, encode_utf8(decimal_text(x as nat))),
        i + encode_utf8(decimal_text(x as nat)).len() < s.len(),
        s[i + encode_utf8(decimal_text(x as nat)).len()] == 0x2c,
        x <= i64::MAX,
    ensures
        item_spec(s, i) == Some(
            (ValueModel::Integer(x as i64), i + encode_utf8(decimal_text(x as nat)).len()),
        ),
        is_digit_byte(s[i]),
{
    let d = decimal_text(x as nat);
    lemma_decimal_text(x as nat);
    lemma_digit_bytes(d);
    let b = encode_utf8(d);
    let e = i + b.len();
    assert(s[i] == b[0]);
    assert(!is_space(s[i]));
    assert(skip_ws(s, i) == i);
    assert forall|j: int| i <= j < e implies is_digit_byte(#[trigger] s[j]) by {
        assert(s[i + (j - i)] == b[j - i]);
    }
    lemma_digits_at(s, i, e);
    assert(s.subrange(i, e) =~= b) by {
        assert forall|k: int| 0 <= k < b.len() implies s.subrange(i, e)[k] == b[k] by {
            assert(s[i + k] == b[k]);
        }
    }
    assert(!is_space(s[e]));
    assert(skip_ws(s, e) == e);
}

/// The bytes of a shape: each dimension's digits followed by a comma.
pub open spec fn shape_bytes(shape: Seq<u64>) -> Seq<u8>
    decreases shape.len(),
{
    if shape.len() == 0 {
        Seq::empty()
    } else {
        shape_bytes(shape.drop_last()) + encode_utf8(decimal_text(shape.last() as nat)) + seq![
            0x2cu8,
        ]
    }
}

proof fn lemma_shape_prefix(shape: Seq<u64>, k: int)
    requires
        0 <= k <= shape.len(),
    ensures
        shape_bytes(shape) == shape_bytes(shape.subrange(0, k)) + shape_bytes(
            shape.subrange(k, shape.len() as int),
        ),
    decreases shape.len() - k,
{
    if k < shape.len() {
        lemma_shape_prefix(shape, k + 1);
        let a = shape.subrange(0, k);
        let b = shape.subrange(0, k + 1);
        assert(b.drop_last() =~= a);
        let c = shape.subrange(k, shape.len() as int);
        let c1 = shape.subrange(k + 1, shape.len() as int);
        lemma_shape_front(c);
        assert(c.drop_first() =~= c1);
        assert(c[0] == shape[k]);
        assert(b.last() == shape[k]);
    } else {
        assert(shape.subrange(0, k) =~= shape);
        assert(shape.subrange(k, shape.len() as int) =~= Seq::<u64>::empty());
    }
}

proof fn lemma_shape_front(shape: Seq<u64>)
    requires
        shape.len() > 0,
    ensures
        shape_bytes(shape) == encode_utf8(decimal_text(shape[0] as nat)) + seq![0x2cu8]
            + shape_bytes(shape.drop_first()),
    decreases shape.len(),
{
    if shape.len() > 1 {
        lemma_shape_front(shape.drop_last());
        assert(shape.drop_last().drop_first() =~= shape.drop_first().drop_last());
        assert(shape.drop_first().last() == shape.last());
        assert(shape.drop_last()[0] == shape[0]);
    } else {
        assert(shape.drop_last() =~= Seq::<u64>::empty());
        assert(shape.drop_first() =~= Seq::<u64>::empty());
        assert(shape.last() == shape[0]);
    }
}

proof fn lemma_shape_tail(s: Seq<u8>, i: int, shape: Seq<u64>, k: int)
    requires
        at(s, i + 1, shape_bytes(shape) + seq![0x29u8]),
        0 <= k <= shape.len(),
        forall|j: int| 0 <= j < shape.len() ==> #[trigger] shape[j] <= i64::MAX,
    ensures
        list_tail_spec(s, i + 1, 0x29, 0, Seq::empty()) == list_tail_spec(
            s,
            i + 1 + shape_bytes(shape.subrange(0, k)).len(),
            0x29,
            if k == 0 {
                0
            } else {
                2
            },
            shape_values(shape.subrange(0, k)),
        ),
    decreases k,
{
    if k == 0 {
        assert(shape.subrange(0, 0) =~= Seq::<u64>::empty());
        assert(shape_values(Seq::<u64>::empty()) =~= Seq::<ValueModel>::empty());
    } else {
        lemma_shape_tail(s, i, shape, k - 1);
        let prev = shape.subrange(0, k - 1);
        let cur = shape.subrange(0, k);
        assert(cur.drop_last() =~= prev);
        assert(cur.last() == shape[k - 1]);
        let db = encode_utf8(decimal_text(shape[k - 1] as nat));
        let pos = i + 1 + shape_bytes(prev).len();
        lemma_at_split(s, i + 1, shape_bytes(shape), seq![0x29u8]);
        lemma_shape_prefix(shape, k);
        lemma_at_split(s, i + 1, shape_bytes(cur), shape_bytes(shape.subrange(k, shape.len() as int)));
        lemma_at_split(s, i + 1, shape_bytes(prev) + db, seq![0x2cu8]);
        lemma_at_split(s, i + 1, shape_bytes(prev), db);
        lemma_at_byte(s, pos + db.len(), 0x2c);
        lemma_int_at(s, pos, shape[k - 1]);
        assert(skip_ws(s, pos) == pos);
        let j = pos + db.len();
        assert(!is_space(s[j]));
        assert(skip_ws(s, j) == j);
        let st = if k - 1 == 0 {
            0int
        } else {
            2int
        };
        let acc = shape_values(prev);
        assert(list_tail_spec(s, pos, 0x29, st, acc) == list_tail_spec(
            s,
            j,
            0x29,
            1,
            acc.push(ValueModel::Integer(shape[k - 1] as i64)),
        ));
        assert(acc.push(ValueModel::Integer(shape[k - 1] as i64)) =~= shape_values(cur));
        assert(list_tail_spec(s, j, 0x29, 1, shape_values(cur)) == list_tail_spec(
            s,
            j + 1,
            0x29,
            2,
            shape_values(cur),
        ));
    }
}

/// A shape tuple at `i` is read as the list of its dimensions.
proof fn lemma_shape_at(s: Seq<u8>, i: int, shape: Seq<u64>)
    requires
        at(s, i, seq![0x28u8] + shape_bytes(shape) + seq![0x29u8]),
        shape.len() > 0,
        forall|j: int| 0 <= j < shape.len() ==> #[trigger] shape[j] <= i64::MAX,
    ensures
        item_spec(s, i) == Some(
            (
                ValueModel::List(shape_values(shape)),
                skip_ws(s, i + 2 + shape_bytes(shape).len()),
            ),
        ),
{
    lemma_at_split(s, i, seq![0x28u8] + shape_bytes(shape), seq![0x29u8]);
    lemma_at_split(s, i, seq![0x28u8], shape_bytes(shape));
    assert(seq![0x28u8] + shape_bytes(shape) + seq![0x29u8] =~= seq![0x28u8] + (shape_bytes(shape)
        + seq![0x29u8]));
    lemma_at_split(s, i, seq![0x28u8], shape_bytes(shape) + seq![0x29u8]);
    lemma_at_byte(s, i, 0x28);
    assert(!is_space(s[i]));
    assert(skip_ws(s, i) == i);
    lemma_not_word(s, i);
    let n = shape.len() as int;
    lemma_shape_tail(s, i, shape, n);
    assert(shape.subrange(0, n) =~= shape);
    let pos = i + 1 + shape_bytes(shape).len();
    lemma_at_split(s, i + 1, shape_bytes(shape), seq![0x29u8]);
    lemma_at_byte(s, pos, 0x29);
    assert(!is_space(s[pos]));
    assert(skip_ws(s, pos) == pos);
}


/// The text of a type-string holds no `'` and is not empty.
proof fn lemma_type_text_quotable(t: TypeStr)
    ensures
        quotable(type_str_text(t)),
{
    let d = decimal_text(t.size as nat);
    lemma_decimal_text(t.size as nat);
    let text = type_str_text(t);
    assert forall|j: int| 0 <= j < text.len() implies #[trigger] text[j] != '\'' by {
        if j >= 2 && j < 2 + d.len() {
            assert(text[j] == d[j - 2]);
            assert(is_digit(d[j - 2]));
        } else if j >= 2 + d.len() {
            let u = t.time_units->Some_0;
            let k = j - 2 - d.len();
            if k > 0 && k < 1 + units_code(u).len() {
                assert(text[j] == units_code(u)[k - 1]);
            }
        }
    }
}

/// The bytes of a dtype's text.
pub open spec fn descr_bytes(d: DTypeModel) -> Seq<u8>
    decreases d, 0nat,
{
    match d {
        DTypeModel::Plain { ty, .. } => quoted_bytes(type_str_text(ty)),
        DTypeModel::Record(fields) => seq![0x5bu8] + fields_bytes(fields, fields.len() as int)
            + seq![0x5du8],
    }
}

/// The bytes of the first `n` field tuples, each followed by `, `.
pub open spec fn fields_bytes(fields: Seq<FieldModel>, n: int) -> Seq<u8>
    decreases fields, n,
{
    if n <= 0 || n > fields.len() {
        Seq::empty()
    } else {
        fields_bytes(fields, n - 1) + tuple_bytes(fields[n - 1]) + seq![0x2cu8, 0x20u8]
    }
}

/// What follows a field's name in its tuple.
pub open spec fn second_bytes(f: FieldModel) -> Seq<u8>
    decreases f, 1nat,
{
    match f.dtype {
        DTypeModel::Plain { ty, shape } => if shape.len() == 0 {
            quoted_bytes(type_str_text(ty))
        } else {
            quoted_bytes(type_str_text(ty)) + seq![0x2cu8, 0x20u8, 0x28u8] + shape_bytes(shape)
                + seq![0x29u8]
        },
        DTypeModel::Record(_) => descr_bytes(f.dtype),
    }
}

/// The bytes of one field tuple, without the `, ` after it.
pub open spec fn tuple_bytes(f: FieldModel) -> Seq<u8>
    decreases f, 2nat,
{
    seq![0x28u8] + quoted_bytes(f.name) + seq![0x2cu8, 0x20u8] + second_bytes(f) + seq![0x29u8]
}

/// Whether a dtype's text reads back: every field name can stand between
/// single quotes, and every dimension fits in an `i64`.
pub open spec fn text_ok(d: DTypeModel) -> bool
    decreases d, 0nat,
{
    match d {
        DTypeModel::Plain { .. } => true,
        DTypeModel::Record(fields) => fields_ok(fields, fields.len() as int),
    }
}

pub open spec fn fields_ok(fields: Seq<FieldModel>, n: int) -> bool
    decreases fields, n,
{
    n <= 0 || n > fields.len() || (fields_ok(fields, n - 1) && field_ok(fields[n - 1]))
}

pub open spec fn field_ok(f: FieldModel) -> bool
    decreases f, 0nat,
{
    quotable(f.name) && match f.dtype {
        DTypeModel::Plain { shape, .. } => forall|k: int|
            0 <= k < shape.len() ==> #[trigger] shape[k] <= i64::MAX,
        DTypeModel::Record(_) => text_ok(f.dtype),
    }
}

proof fn lemma_fields_ok_each(fields: Seq<FieldModel>, n: int, k: int)
    requires
        0 <= k < n <= fields.len(),
        fields_ok(fields, n),
    ensures
        field_ok(fields[k]),
    decreases n,
{
    if k < n - 1 {
        lemma_fields_ok_each(fields, n - 1, k);
    }
}

/// A field tuple at `i`, followed by a comma, is read as the field's value.
proof fn lemma_tuple_at(s: Seq<u8>, i: int, f: FieldModel)
    requires
        at(s, i, tuple_bytes(f)),
        field_ok(f),
        i + tuple_bytes(f).len() < s.len(),
        s[i + tuple_bytes(f).len()] == 0x2c,
    ensures
        item_spec(s, i) == Some((field_value(f), i + tuple_bytes(f).len())),
    decreases f, 0nat,
{
    let a = seq![0x28u8];
    let q = quoted_bytes(f.name);
    let c = seq![0x2cu8, 0x20u8];
    let r = second_bytes(f);
    let z = seq![0x29u8];
    let end = i + tuple_bytes(f).len();
    lemma_at_split(s, i, a + q + c + r, z);
    lemma_at_split(s, i, a + q + c, r);
    lemma_at_split(s, i, a + q, c);
    lemma_at_split(s, i, a, q);
    lemma_at_byte(s, i, 0x28);
    lemma_at_byte(s, end - 1, 0x29);
    let j1 = i + 1 + q.len();
    let r0 = j1 + 2;
    lemma_at_two(s, j1, 0x2c, 0x20);
    assert(!is_space(s[i]));
    assert(skip_ws(s, i) == i);
    lemma_not_word(s, i);
    lemma_string_at(s, i + 1, f.name);
    assert(!is_space(s[j1]));
    assert(skip_ws(s, j1) == j1);
    assert(is_space(s[j1 + 1]));
    let v_name = ValueModel::Text(f.name);
    let empty = Seq::<ValueModel>::empty();
    assert(list_tail_spec(s, i + 1, 0x29, 0, empty) == list_tail_spec(s, j1, 0x29, 1, empty.push(v_name)));
    assert(list_tail_spec(s, j1, 0x29, 1, empty.push(v_name)) == list_tail_spec(s, j1 + 1, 0x29, 2, empty.push(v_name)));
    lemma_quoted_first(s, r0, f);
    lemma_skip_one(s, j1 + 1);
    let acc1 = empty.push(v_name);
    match f.dtype {
        DTypeModel::Plain { ty, shape } => {
            let qt = quoted_bytes(type_str_text(ty));
            lemma_type_text_quotable(ty);
            if shape.len() == 0 {
                lemma_string_at(s, r0, type_str_text(ty));
                let j2 = r0 + qt.len();
                assert(j2 == end - 1);
                assert(!is_space(s[j2]));
                assert(skip_ws(s, j2) == j2);
                let acc2 = acc1.push(ValueModel::Text(type_str_text(ty)));
                assert(list_tail_spec(s, j1 + 1, 0x29, 2, acc1) == list_tail_spec(s, j2, 0x29, 1, acc2));
                assert(!is_space(s[end]));
                assert(skip_ws(s, end) == end);
                assert(list_tail_spec(s, j2, 0x29, 1, acc2) == Some((acc2, end)));
                assert(acc2 =~= seq![v_name, ValueModel::Text(type_str_text(ty))]);
            } else {
                let c3 = seq![0x2cu8, 0x20u8, 0x28u8];
                let sb = shape_bytes(shape);
                lemma_at_split(s, r0, qt + c3 + sb, z);
                lemma_at_split(s, r0, qt + c3, sb);
                lemma_at_split(s, r0, qt, c3);
                lemma_string_at(s, r0, type_str_text(ty));
                let j2 = r0 + qt.len();
                assert(c3[0] == 0x2c && c3[1] == 0x20 && c3[2] == 0x28);
                assert(s[j2] == 0x2c && s[j2 + 1] == 0x20 && s[j2 + 2] == 0x28);
                assert(!is_space(s[j2]));
                assert(skip_ws(s, j2) == j2);
                let acc2 = acc1.push(ValueModel::Text(type_str_text(ty)));
                assert(list_tail_spec(s, j1 + 1, 0x29, 2, acc1) == list_tail_spec(s, j2, 0x29, 1, acc2));
                assert(list_tail_spec(s, j2, 0x29, 1, acc2) == list_tail_spec(s, j2 + 1, 0x29, 2, acc2));
                let t0 = j2 + 2;
                assert(!is_space(s[t0]));
                lemma_skip_one(s, j2 + 1);
                assert(seq![0x28u8] + sb + z =~= (c3 + sb + z).subrange(2, (c3 + sb + z).len() as int));
                assert(at(s, t0, seq![0x28u8] + sb + z)) by {
                    lemma_at_split(s, j2, c3 + sb, z);
                    lemma_at_split(s, j2, c3, sb);
                    assert forall|k: int| 0 <= k < (seq![0x28u8] + sb + z).len() implies s[t0 + k]
                        == #[trigger] (seq![0x28u8] + sb + z)[k] by {
                        if k == 0 {
                        } else if k < 1 + sb.len() {
                            assert(s[j2 + 3 + (k - 1)] == sb[k - 1]);
                        } else {
                        }
                    }
                }
                lemma_shape_at(s, t0, shape);
                let j3 = t0 + 2 + sb.len();
                assert(j3 == end - 1);
                assert(!is_space(s[j3]));
                assert(skip_ws(s, j3) == j3);
                let acc3 = acc2.push(ValueModel::List(shape_values(shape)));
                assert(list_tail_spec(s, j2 + 1, 0x29, 2, acc2) == list_tail_spec(s, j3, 0x29, 1, acc3));
                assert(!is_space(s[end]));
                assert(skip_ws(s, end) == end);
                assert(list_tail_spec(s, j3, 0x29, 1, acc3) == Some((acc3, end)));
                assert(acc3 =~= seq![v_name, ValueModel::Text(type_str_text(ty)), ValueModel::List(shape_values(shape))]);
            }
        },
        DTypeModel::Record(fs) => {
            lemma_record_at(s, r0, fs);
            let j2 = r0 + r.len();
            assert(j2 == end - 1);
            assert(!is_space(s[j2]));
            assert(skip_ws(s, j2) == j2);
            let acc2 = acc1.push(descr_value(f.dtype));
            assert(list_tail_spec(s, j1 + 1, 0x29, 2, acc1) == list_tail_spec(s, j2, 0x29, 1, acc2));
            assert(!is_space(s[end]));
            assert(skip_ws(s, end) == end);
            assert(list_tail_spec(s, j2, 0x29, 1, acc2) == Some((acc2, end)));
            assert(acc2 =~= seq![v_name, descr_value(f.dtype)]);
        },
    }
}

/// The second item of a field tuple starts with a byte that is neither
/// whitespace, nor a comma, nor a closing bracket.
proof fn lemma_quoted_first(s: Seq<u8>, r0: int, f: FieldModel)
    requires
        at(s, r0, second_bytes(f)),
    ensures
        0 <= r0 < s.len(),
        !is_space(s[r0]),
        s[r0] != 0x29,
        s[r0] != 0x2c,
{
    let r = second_bytes(f);
    assert(r.len() > 0);
    assert(s[r0] == r[0]);
    match f.dtype {
        DTypeModel::Plain { ty, shape } => {
            let qt = quoted_bytes(type_str_text(ty));
            assert(qt[0] == 0x27);
            if shape.len() > 0 {
                assert(r[0] == qt[0]);
            }
        },
        DTypeModel::Record(fs) => {
            assert(r[0] == 0x5b);
        },
    }
}

proof fn lemma_skip_one(s: Seq<u8>, x: int)
    requires
        0 <= x,
        x + 1 < s.len(),
        is_space(s[x]),
        !is_space(s[x + 1]),
    ensures
        skip_ws(s, x) == x + 1,
{
    assert(skip_ws(s, x + 1) == x + 1);
}

/// A record's text at `i` is read as the list of its field tuples.
proof fn lemma_record_at(s: Seq<u8>, i: int, fields: Seq<FieldModel>)
    requires
        at(s, i, descr_bytes(DTypeModel::Record(fields))),
        fields_ok(fields, fields.len() as int),
    ensures
        item_spec(s, i) == Some(
            (
                ValueModel::List(fields_values(fields, fields.len() as int)),
                skip_ws(s, i + descr_bytes(DTypeModel::Record(fields)).len()),
            ),
        ),
    decreases fields, fields.len() + 1,
{
    let n = fields.len() as int;
    let fb = fields_bytes(fields, n);
    lemma_at_split(s, i, seq![0x5bu8] + fb, seq![0x5du8]);
    lemma_at_split(s, i, seq![0x5bu8], fb);
    lemma_at_byte(s, i, 0x5b);
    lemma_at_byte(s, i + 1 + fb.len(), 0x5d);
    assert(!is_space(s[i]));
    assert(skip_ws(s, i) == i);
    lemma_not_word(s, i);
    lemma_record_tail(s, i, fields, n);
    let pos = i + 1 + fb.len();
    assert(!is_space(s[pos]));
    if n > 0 {
        lemma_fields_bytes_shape(fields, n);
        assert(s[pos - 1] == 0x20);
        lemma_skip_one(s, pos - 1);
    }
}

proof fn lemma_fields_bytes_shape(fields: Seq<FieldModel>, n: int)
    requires
        0 < n <= fields.len(),
    ensures
        fields_bytes(fields, n).len() >= 2,
        fields_bytes(fields, n).last() == 0x20,
        fields_bytes(fields, n)[fields_bytes(fields, n).len() - 2] == 0x2c,
{
    let b = fields_bytes(fields, n);
    let c = seq![0x2cu8, 0x20u8];
    assert(b == fields_bytes(fields, n - 1) + tuple_bytes(fields[n - 1]) + c);
    assert(b.last() == c[1]);
    assert(b[b.len() - 2] == c[0]);
}

proof fn lemma_record_tail(s: Seq<u8>, i: int, fields: Seq<FieldModel>, k: int)
    requires
        at(s, i + 1, fields_bytes(fields, fields.len() as int)),
        0 <= k <= fields.len(),
        fields_ok(fields, fields.len() as int),
        i + 1 + fields_bytes(fields, fields.len() as int).len() < s.len(),
        s[i + 1 + fields_bytes(fields, fields.len() as int).len()] == 0x5d,
    ensures
        list_tail_spec(s, i + 1, 0x5d, 0, Seq::empty()) == list_tail_spec(
            s,
            if k == 0 {
                i + 1
            } else {
                i + fields_bytes(fields, k).len()
            },
            0x5d,
            if k == 0 {
                0
            } else {
                2
            },
            fields_values(fields, k),
        ),
        k == fields.len() ==> list_tail_spec(s, i + 1, 0x5d, 0, Seq::empty()) == Some(
            (
                fields_values(fields, k),
                skip_ws(s, i + 2 + fields_bytes(fields, k).len()),
            ),
        ),
    decreases fields, k,
{
    let n = fields.len() as int;
    lemma_fields_bytes_prefix(fields, k, n);
    let fbk = fields_bytes(fields, k);
    let a_k = if k == 0 {
        i + 1
    } else {
        i + fbk.len()
    };
    let st = if k == 0 {
        0int
    } else {
        2int
    };
    let p = i + 1 + fbk.len();
    lemma_at_split(s, i + 1, fbk, fields_bytes(fields, n).subrange(fbk.len() as int, fields_bytes(fields, n).len() as int));
    if k > 0 {
        lemma_fields_bytes_shape(fields, k);
        assert(s[i + 1 + (fbk.len() - 1)] == fbk[fbk.len() - 1]);
        assert(is_space(s[a_k]));
    }
    if k > 0 {
        lemma_record_tail(s, i, fields, k - 1);
        let prev = fields_bytes(fields, k - 1);
        let t = tuple_bytes(fields[k - 1]);
        let c = seq![0x2cu8, 0x20u8];
        assert(fbk == prev + t + c);
        lemma_at_split(s, i + 1, prev + t, c);
        lemma_at_split(s, i + 1, prev, t);
        let start = i + 1 + prev.len();
        lemma_at_two(s, start + t.len(), 0x2c, 0x20);
        lemma_fields_ok_each(fields, n, k - 1);
        lemma_tuple_at(s, start, fields[k - 1]);
        let a_prev = if k - 1 == 0 {
            i + 1
        } else {
            i + prev.len()
        };
        if k - 1 > 0 {
            lemma_fields_bytes_shape(fields, k - 1);
            assert(s[i + 1 + (prev.len() - 1)] == prev[prev.len() - 1]);
            assert(is_space(s[a_prev]));
        }
        assert(s[start] == t[0]);
        assert(t[0] == 0x28);
        assert(!is_space(s[start]));
        if k - 1 > 0 {
            lemma_skip_one(s, a_prev);
        }
        assert(skip_ws(s, a_prev) == start);
        let j = start + t.len();
        assert(!is_space(s[j]));
        assert(skip_ws(s, j) == j);
        let st_prev = if k - 1 == 0 {
            0int
        } else {
            2int
        };
        let acc = fields_values(fields, k - 1);
        let v = field_value(fields[k - 1]);
        assert(list_tail_spec(s, a_prev, 0x5d, st_prev, acc) == list_tail_spec(s, j, 0x5d, 1, acc.push(v)));
        assert(list_tail_spec(s, j, 0x5d, 1, acc.push(v)) == list_tail_spec(s, j + 1, 0x5d, 2, acc.push(v)));
        assert(j + 1 == a_k);
    }
    if k == n {
        let fbn = fields_bytes(fields, n);
        assert(s[p] == 0x5d);
        assert(!is_space(s[p]));
        if k > 0 {
            lemma_skip_one(s, a_k);
        }
        assert(skip_ws(s, a_k) == p);
    }
}

proof fn lemma_fields_bytes_prefix(fields: Seq<FieldModel>, k: int, n: int)
    requires
        0 <= k <= n <= fields.len(),
    ensures
        fields_bytes(fields, k) == fields_bytes(fields, n).subrange(0, fields_bytes(fields, k).len() as int),
        fields_bytes(fields, k).len() <= fields_bytes(fields, n).len(),
    decreases n - k,
{
    if k < n {
        lemma_fields_bytes_prefix(fields, k, n - 1);
        let a = fields_bytes(fields, n - 1);
        let b = fields_bytes(fields, n);
        assert(b == a + tuple_bytes(fields[n - 1]) + seq![0x2cu8, 0x20u8]);
        assert(b.subrange(0, fields_bytes(fields, k).len() as int) =~= a.subrange(0, fields_bytes(fields, k).len() as int));
    } else {
        assert(fields_bytes(fields, n).subrange(0, fields_bytes(fields, n).len() as int) =~= fields_bytes(fields, n));
    }
}


proof fn lemma_literals()
    ensures
        encode_utf8(seq!['(']) == seq![0x28u8],
        encode_utf8(seq![',', ' ']) == seq![0x2cu8, 0x20u8],
        encode_utf8(seq![')', ',', ' ']) == seq![0x29u8, 0x2cu8, 0x20u8],
        encode_utf8(seq![',', ' ', '(']) == seq![0x2cu8, 0x20u8, 0x28u8],
        encode_utf8(seq![')', ')', ',', ' ']) == seq![0x29u8, 0x29u8, 0x2cu8, 0x20u8],
        encode_utf8(seq!['[']) == seq![0x5bu8],
        encode_utf8(seq![']']) == seq![0x5du8],
        encode_utf8(seq![',']) == seq![0x2cu8],
{
    lemma_encode_literal(seq!['('], seq![0x28u8]);
    lemma_encode_literal(seq![',', ' '], seq![0x2cu8, 0x20u8]);
    lemma_encode_literal(seq![')', ',', ' '], seq![0x29u8, 0x2cu8, 0x20u8]);
    lemma_encode_literal(seq![',', ' ', '('], seq![0x2cu8, 0x20u8, 0x28u8]);
    lemma_encode_literal(seq![')', ')', ',', ' '], seq![0x29u8, 0x29u8, 0x2cu8, 0x20u8]);
    lemma_encode_literal(seq!['['], seq![0x5bu8]);
    lemma_encode_literal(seq![']'], seq![0x5du8]);
    lemma_encode_literal(seq![','], seq![0x2cu8]);
}

proof fn lemma_shape_text_bytes(shape: Seq<u64>)
    ensures
        encode_utf8(shape_text(shape)) == shape_bytes(shape),
    decreases shape.len(),
{
    broadcast use lemma_encode_concat_auto;

    lemma_literals();
    if shape.len() > 0 {
        lemma_shape_text_bytes(shape.drop_last());
    }
}

/// The text of a dtype, encoded, is the bytes the parsing lemmas read.
proof fn lemma_descr_text_bytes(d: DTypeModel)
    ensures
        encode_utf8(descr_text(d)) == descr_bytes(d),
    decreases d, 0nat,
{
    broadcast use lemma_encode_concat_auto;

    lemma_literals();
    match d {
        DTypeModel::Plain { ty, .. } => {
            lemma_quoted_bytes(type_str_text(ty));
        },
        DTypeModel::Record(fields) => {
            lemma_fields_text_bytes(fields, fields.len() as int);
        },
    }
}

proof fn lemma_fields_text_bytes(fields: Seq<FieldModel>, n: int)
    ensures
        encode_utf8(fields_text(fields, n)) == fields_bytes(fields, n),
    decreases fields, n,
{
    broadcast use lemma_encode_concat_auto;

    if n > 0 && n <= fields.len() {
        lemma_fields_text_bytes(fields, n - 1);
        lemma_field_text_bytes(fields[n - 1]);
        assert(fields_bytes(fields, n) =~= fields_bytes(fields, n - 1) + (tuple_bytes(fields[n - 1])
            + seq![0x2cu8, 0x20u8]));
    } else {
        lemma_encode_literal(Seq::empty(), Seq::empty());
    }
}

proof fn lemma_field_text_bytes(f: FieldModel)
    ensures
        encode_utf8(field_text(f)) == tuple_bytes(f) + seq![0x2cu8, 0x20u8],
    decreases f, 0nat,
{
    broadcast use lemma_encode_concat_auto;

    lemma_literals();
    lemma_quoted_bytes(f.name);
    match f.dtype {
        DTypeModel::Plain { ty, shape } => {
            lemma_quoted_bytes(type_str_text(ty));
            if shape.len() == 0 {
                assert(encode_utf8(field_text(f)) =~= tuple_bytes(f) + seq![0x2cu8, 0x20u8]);
            } else {
                lemma_shape_text_bytes(shape);
                assert(encode_utf8(field_text(f)) =~= tuple_bytes(f) + seq![0x2cu8, 0x20u8]);
            }
        },
        DTypeModel::Record(_) => {
            lemma_descr_text_bytes(f.dtype);
            assert(encode_utf8(field_text(f)) =~= tuple_bytes(f) + seq![0x2cu8, 0x20u8]);
        },
    }
}

/// A dtype read from a header value is read again from its own text, where
/// its field names can stand between single quotes.
pub proof fn law_dtype_text_round_trip(v: ValueModel)
    requires
        dtype_of_descr(v) is Ok,
        names_quotable(dtype_of_descr(v)->Ok_0),
    ensures
        dtype_of_text(descr_text(dtype_of_descr(v)->Ok_0)) == dtype_of_descr(v),
{
    let m = dtype_of_descr(v)->Ok_0;
    lemma_text_ok(v);
    let b = descr_bytes(m);
    lemma_descr_text_bytes(m);
    lemma_descr_value_reads_back(v);
    assert(at(b, 0, b));
    match m {
        DTypeModel::Plain { ty, .. } => {
            lemma_type_text_quotable(ty);
            lemma_string_at(b, 0, type_str_text(ty));
        },
        DTypeModel::Record(fields) => {
            lemma_record_at(b, 0, fields);
        },
    }
}


/// Whether every field name, in nested records too, can stand between
/// single quotes.
pub open spec fn names_quotable(d: DTypeModel) -> bool
    decreases d, 0nat,
{
    match d {
        DTypeModel::Plain { .. } => true,
        DTypeModel::Record(fields) => fields_quotable(fields, fields.len() as int),
    }
}

pub open spec fn fields_quotable(fields: Seq<FieldModel>, n: int) -> bool
    decreases fields, n,
{
    n <= 0 || n > fields.len() || (fields_quotable(fields, n - 1) && quotable(fields[n - 1].name)
        && names_quotable(fields[n - 1].dtype))
}

proof fn lemma_fields_pred_prefix(a: Seq<FieldModel>, b: Seq<FieldModel>, n: int)
    requires
        0 <= n <= a.len(),
        n <= b.len(),
        a.subrange(0, n) == b.subrange(0, n),
    ensures
        fields_ok(a, n) == fields_ok(b, n),
        fields_quotable(a, n) == fields_quotable(b, n),
    decreases n,
{
    if n > 0 {
        assert(a.subrange(0, n - 1) =~= a.subrange(0, n).subrange(0, n - 1));
        assert(b.subrange(0, n - 1) =~= b.subrange(0, n).subrange(0, n - 1));
        lemma_fields_pred_prefix(a, b, n - 1);
        assert(a[n - 1] == a.subrange(0, n)[n - 1]);
        assert(b[n - 1] == b.subrange(0, n)[n - 1]);
    }
}

/// A dtype read from a header value has dimensions that fit in an `i64`.
proof fn lemma_text_ok(v: ValueModel)
    requires
        dtype_of_descr(v) is Ok,
        names_quotable(dtype_of_descr(v)->Ok_0),
    ensures
        text_ok(dtype_of_descr(v)->Ok_0),
    decreases v, 0nat,
{
    if let ValueModel::List(items) = v {
        lemma_fields_len(items, items.len() as int);
        lemma_fields_text_ok(items, items.len() as int);
    }
}

proof fn lemma_fields_text_ok(items: Seq<ValueModel>, n: int)
    requires
        0 <= n <= items.len(),
        fields_of_descr(items, n) is Ok,
        fields_quotable(fields_of_descr(items, n)->Ok_0, n),
    ensures
        fields_of_descr(items, n)->Ok_0.len() == n,
        fields_ok(fields_of_descr(items, n)->Ok_0, n),
    decreases items, n,
{
    if n > 0 {
        let fs = fields_of_descr(items, n)->Ok_0;
        let prev = fields_of_descr(items, n - 1)->Ok_0;
        let f = field_of_descr(items[n - 1])->Ok_0;
        assert(fs == prev.push(f));
        lemma_fields_len(items, n - 1);
        lemma_fields_len(items, n);
        assert(fs.subrange(0, n - 1) =~= prev.subrange(0, n - 1));
        lemma_fields_pred_prefix(fs, prev, n - 1);
        lemma_fields_text_ok(items, n - 1);
        assert(fs[n - 1] == f);
        lemma_field_text_ok(items[n - 1]);
    }
}

proof fn lemma_fields_len(items: Seq<ValueModel>, n: int)
    requires
        0 <= n <= items.len(),
        fields_of_descr(items, n) is Ok,
    ensures
        fields_of_descr(items, n)->Ok_0.len() == n,
    decreases n,
{
    if n > 0 {
        lemma_fields_len(items, n - 1);
    }
}

proof fn lemma_field_text_ok(entry: ValueModel)
    requires
        field_of_descr(entry) is Ok,
        quotable(field_of_descr(entry)->Ok_0.name),
        names_quotable(field_of_descr(entry)->Ok_0.dtype),
    ensures
        field_ok(field_of_descr(entry)->Ok_0),
    decreases entry, 0nat,
{
    if let ValueModel::List(t) = entry {
        match (t[0], t[1]) {
            (ValueModel::Text(_), ValueModel::Text(_)) => {
                if t.len() == 3 {
                    if let ValueModel::List(dims) = t[2] {
                        let shape = dims_of_descr(dims, dims.len() as int)->Ok_0;
                        lemma_dims_read_back(dims, dims.len() as int, shape);
                    }
                }
            },
            (ValueModel::Text(_), ValueModel::List(sub)) => {
                assert(decreases_to!(entry => t));
                lemma_fields_len(sub, sub.len() as int);
                lemma_fields_text_ok(sub, sub.len() as int);
            },
            _ => {},
        }
    }
}

} // verus!
