//! The bytes that start an NPY file written record by record: preamble,
//! header and padding, with room for the record count, which is filled in
//! when the last record has been written.
use vstd::prelude::*;
use vstd::string::*;
use vstd::utf8::encode_utf8;
use crate::dtype::{DType, DTypeModel, descr_text};
use crate::type_str::{decimal_text, push_decimal};

verus! {

/// The room left for the record count in the header.
pub const COUNT_WIDTH: usize = 19;

/// Why the start of a file could not be made.
#[derive(Debug, Copy, Clone, PartialEq, Eq, Structural)]
pub enum PreambleError {
    /// Plain dtypes with a shape are not supported at the top level.
    NonScalarPlain,
    /// The header does not fit in the 16-bit length field.
    HeaderTooLong,
}

/// The header text up to the room for the record count.
pub open spec fn header_head(d: DTypeModel) -> Seq<char> {
    "{'descr': "@ + descr_text(d) + ", 'fortran_order': False, 'shape': ("@
}

/// The header text: the count's room is held by `*` characters.
pub open spec fn header_text(d: DTypeModel) -> Seq<char> {
    header_head(d) + "*******************"@ + ",), }"@
}

/// The number of bytes of padding, the last a newline, after a header of
/// `h` bytes, so that the data starts at a multiple of 16.
pub open spec fn padding_len(h: nat) -> nat {
    (16 - ((h + 10) % 16)) as nat
}

/// The start of a file: magic, version, header length, header, padding.
pub open spec fn preamble_bytes(d: DTypeModel) -> Seq<u8> {
    let h = encode_utf8(header_text(d));
    let len = h.len() + padding_len(h.len());
    seq![0x93u8, 0x4e, 0x55, 0x4d, 0x50, 0x59, 0x01, 0x00, (len % 256) as u8, (len / 256) as u8] + h
        + Seq::new((padding_len(h.len()) - 1) as nat, |i: int| 0x20u8) + seq![0x0au8]
}

/// Whether a dtype can head a file: a record, or a scalar.
pub open spec fn file_dtype(d: DTypeModel) -> bool {
    match d {
        DTypeModel::Plain { shape, .. } => shape.len() == 0,
        _ => true,
    }
}

/// Encoding a concatenation encodes each part.
pub proof fn lemma_encode_concat(a: Seq<char>, b: Seq<char>)
    ensures
        encode_utf8(a + b) == encode_utf8(a) + encode_utf8(b),
    decreases a.len(),
{
    if a.len() > 0 {
        assert((a + b).drop_first() =~= a.drop_first() + b);
        lemma_encode_concat(a.drop_first(), b);
        assert((a + b)[0] == a[0]);
        assert(encode_utf8(a + b) =~= encode_utf8(a) + encode_utf8(b));
    } else {
        assert(a + b =~= b);
    }
}

/// An ASCII text encodes to one byte a character.
pub proof fn lemma_encode_ascii_len(a: Seq<char>)
    requires
        forall|i: int| 0 <= i < a.len() ==> (#[trigger] a[i] as u32) < 0x80,
    ensures
        encode_utf8(a).len() == a.len(),
    decreases a.len(),
{
    if a.len() > 0 {
        assert forall|i: int| 0 <= i < a.len() - 1 implies (#[trigger] a.drop_first()[i] as u32)
            < 0x80 by {
            assert(a.drop_first()[i] == a[i + 1]);
        }
        lemma_encode_ascii_len(a.drop_first());
        vstd::utf8::char_u32_cast(a[0], a[0] as u32);
    }
}

/// The start of a file for records of `dtype`, and the position of the room
/// for the record count.
#[verifier::rlimit(40)]
pub fn file_preamble(dtype: &DType) -> (r: Result<(Vec<u8>, usize), PreambleError>)
    ensures
        match r {
            Ok((bytes, pos)) => file_dtype(dtype.model()) && bytes@ == preamble_bytes(
                dtype.model(),
            ) && pos == 10 + encode_utf8(header_head(dtype.model())).len() && pos
                + COUNT_WIDTH <= bytes@.len() && encode_utf8(header_text(dtype.model())).len()
                + padding_len(encode_utf8(header_text(dtype.model())).len()) <= u16::MAX,
            Err(e) => e == PreambleError::NonScalarPlain && !file_dtype(dtype.model()) || e
                == PreambleError::HeaderTooLong && file_dtype(dtype.model()) && encode_utf8(
                header_text(dtype.model()),
            ).len() + padding_len(encode_utf8(header_text(dtype.model())).len()) > u16::MAX,
        },
{
    if let DType::Plain { shape, .. } = dtype {
        if shape.len() != 0 {
            return Err(PreambleError::NonScalarPlain);
        }
    }
    let mut text = String::from_str("{'descr': ");
    text.append(dtype.descr().as_str());
    text.append(", 'fortran_order': False, 'shape': (");
    let head_len = text.as_str().as_bytes().len();
    text.append("*******************");
    text.append(",), }");
    let header = text.as_str().as_bytes();
    let h = header.len();
    proof {
        reveal_strlit("*******************");
        reveal_strlit(",), }");
        let tail = "*******************"@ + ",), }"@;
        lemma_encode_concat(header_head(dtype.model()), tail);
        lemma_encode_ascii_len(tail);
        assert(text@ =~= header_head(dtype.model()) + tail);
    }
    let pad = 16 - (h % 16 + 10) % 16;
    if h > 0x1_0000 || h + pad > 0xffff {
        return Err(PreambleError::HeaderTooLong);
    }
    let len = h + pad;
    let mut bytes: Vec<u8> = vec![0x93u8, 0x4e, 0x55, 0x4d, 0x50, 0x59, 0x01, 0x00];
    bytes.push((len % 256) as u8);
    bytes.push((len / 256) as u8);
    bytes.extend_from_slice(header);
    let ghost start = bytes@;
    let mut k: usize = 1;
    while k < pad
        invariant
            1 <= k <= pad,
            bytes@ =~= start + Seq::new((k - 1) as nat, |i: int| 0x20u8),
        decreases pad - k,
    {
        bytes.push(0x20);
        k = k + 1;
    }
    bytes.push(0x0a);
    proof {
        assert(pad == padding_len(h as nat));
        assert(bytes@ =~= preamble_bytes(dtype.model()));
    }
    Ok((bytes, head_len + 10))
}


/// What is written over the room for the record count once `count` records
/// are written: the count, `,), }`, then spaces up to the room's width.
pub open spec fn count_patch_bytes(count: nat) -> Seq<u8> {
    encode_utf8(decimal_text(count) + ",), }"@) + Seq::new(
        (COUNT_WIDTH - decimal_text(count).len()) as nat,
        |i: int| 0x20u8,
    )
}

/// The bytes that record the count of records in the header.
pub fn count_patch(count: u64) -> (r: Vec<u8>)
    requires
        decimal_text(count as nat).len() <= COUNT_WIDTH,
    ensures
        r@ == count_patch_bytes(count as nat),
{
    let mut text = String::new();
    push_decimal(&mut text, count);
    let digits = text.unicode_len();
    text.append(",), }");
    let mut bytes = vstd::slice::slice_to_vec(text.as_str().as_bytes());
    let ghost start = bytes@;
    let mut k: usize = digits;
    while k < COUNT_WIDTH
        invariant
            digits <= k <= COUNT_WIDTH,
            bytes@ =~= start + Seq::new((k - digits) as nat, |i: int| 0x20u8),
        decreases COUNT_WIDTH - k,
    {
        bytes.push(0x20);
        k = k + 1;
    }
    bytes
}


/// The start of a file is the magic and version, the header length `L` in
/// two little-endian bytes, then `L` bytes of header ending in a newline,
/// so that the data starts at a multiple of 16.
pub proof fn law_preamble_layout(d: DTypeModel)
    requires
        encode_utf8(header_text(d)).len() + padding_len(encode_utf8(header_text(d)).len())
            <= u16::MAX,
    ensures
        ({
            let b = preamble_bytes(d);
            let len = encode_utf8(header_text(d)).len() + padding_len(
                encode_utf8(header_text(d)).len(),
            );
            &&& b.len() == 10 + len
            &&& b[8] + 256 * b[9] == len
            &&& (10 + len) % 16 == 0
            &&& b[b.len() - 1] == 0x0a
            &&& b.subrange(10, 10 + encode_utf8(header_text(d)).len() as int) == encode_utf8(
                header_text(d),
            )
        }),
{
    let h = encode_utf8(header_text(d));
    let len = h.len() + padding_len(h.len());
    let b = preamble_bytes(d);
    assert(b[8] == (len % 256) as u8);
    assert(b[9] == (len / 256) as u8);
    assert(b.subrange(10, 10 + h.len() as int) =~= h);
}

} // verus!
