//! The dtype: a scalar type-string with an array shape, or a record of
//! named fields; read from a header value and written back as text.
use vstd::prelude::*;
use vstd::string::*;
use crate::header::{Value, ValueModel, item_spec, models, parse_item};
use crate::type_str::{
    ParseTypeStrError, TypeStr, decimal_text, parse_type_str, push_decimal,
    type_str_text,
};

verus! {

broadcast use vstd::std_specs::vec::group_vec_axioms;

/// The type of one element of an array.
#[derive(Debug, PartialEq, Eq)]
pub enum DType {
    /// A scalar, or a fixed-size array of scalars where `shape` is not empty.
    Plain {
        /// The scalar type.
        ty: TypeStr,
        /// The size of each dimension, outermost first; empty for a scalar.
        shape: Vec<u64>,
    },
    /// A record of named fields, in order.
    Record(Vec<Field>),
}

/// A field of a record dtype.
#[derive(Debug, PartialEq, Eq)]
pub struct Field {
    /// The name of the field.
    pub name: String,
    /// The dtype of the field.
    pub dtype: DType,
}

/// What a [`DType`] denotes.
pub enum DTypeModel {
    Plain { ty: TypeStr, shape: Seq<u64> },
    Record(Seq<FieldModel>),
}

/// What a [`Field`] denotes.
pub struct FieldModel {
    pub name: Seq<char>,
    pub dtype: DTypeModel,
}

impl DType {
    pub open spec fn model(&self) -> DTypeModel
        decreases self,
    {
        match self {
            DType::Plain { ty, shape } => DTypeModel::Plain { ty: *ty, shape: shape@ },
            DType::Record(fields) => DTypeModel::Record(
                Seq::new(
                    fields@.len(),
                    |i: int|
                        if 0 <= i < fields@.len() {
                            FieldModel { name: fields@[i].name@, dtype: fields@[i].dtype.model() }
                        } else {
                            FieldModel { name: Seq::empty(), dtype: DTypeModel::Record(Seq::empty()) }
                        },
                ),
            ),
        }
    }
}

impl Field {
    pub open spec fn model(&self) -> FieldModel {
        FieldModel { name: self.name@, dtype: self.dtype.model() }
    }
}

pub open spec fn field_models(fields: Seq<Field>) -> Seq<FieldModel> {
    Seq::new(fields.len(), |i: int| fields[i].model())
}

pub proof fn lemma_record_model(fields: Vec<Field>)
    ensures
        DType::Record(fields).model() == DTypeModel::Record(field_models(fields@)),
{
    assert(field_models(fields@) =~= match DType::Record(fields).model() {
        DTypeModel::Record(m) => m,
        _ => Seq::empty(),
    });
}

/// Why a header value does not describe a dtype.
#[derive(Debug, Copy, Clone, PartialEq, Eq, Structural)]
pub enum DescrError {
    /// The text is not an item of the header grammar.
    Unparsable,
    /// The description must be a string or a list.
    NotStringOrList,
    /// A record's list must hold lists or tuples.
    EntryNotList,
    /// A record entry must hold 2 or 3 items.
    WrongArity,
    /// A record entry must hold a string name and a valid dtype.
    BadEntry,
    /// Arrays of record fields are not supported.
    NestedRecordArray,
    /// A shape must be a list or tuple.
    ShapeNotList,
    /// A shape entry must be a number.
    NotANumber,
    /// A shape entry must be positive.
    NotPositive,
    /// The type-string is not valid.
    BadTypeStr(ParseTypeStrError),
}

pub open spec fn type_str_of_text(s: Seq<char>) -> Result<TypeStr, DescrError> {
    match parse_type_str(s) {
        Ok(t) => Ok(t),
        Err(k) => Err(DescrError::BadTypeStr(ParseTypeStrError(k))),
    }
}

/// The dtype that a header value describes.
pub open spec fn dtype_of_descr(v: ValueModel) -> Result<DTypeModel, DescrError>
    decreases v, 0nat,
{
    match v {
        ValueModel::Text(s) => match type_str_of_text(s) {
            Ok(t) => Ok(DTypeModel::Plain { ty: t, shape: Seq::empty() }),
            Err(e) => Err(e),
        },
        ValueModel::List(items) => match fields_of_descr(items, items.len() as int) {
            Ok(fs) => Ok(DTypeModel::Record(fs)),
            Err(e) => Err(e),
        },
        _ => Err(DescrError::NotStringOrList),
    }
}

/// The fields that the first `n` entries of a record list describe; the
/// first entry that describes none decides the error.
pub open spec fn fields_of_descr(items: Seq<ValueModel>, n: int) -> Result<
    Seq<FieldModel>,
    DescrError,
>
    decreases items, n,
{
    if n <= 0 || n > items.len() {
        Ok(Seq::empty())
    } else {
        match fields_of_descr(items, n - 1) {
            Err(e) => Err(e),
            Ok(fs) => match field_of_descr(items[n - 1]) {
                Err(e) => Err(e),
                Ok(f) => Ok(fs.push(f)),
            },
        }
    }
}

/// The field that one record entry describes.
pub open spec fn field_of_descr(entry: ValueModel) -> Result<FieldModel, DescrError>
    decreases entry, 0nat,
{
    match entry {
        ValueModel::List(t) => if t.len() != 2 && t.len() != 3 {
            Err(DescrError::WrongArity)
        } else {
            match (t[0], t[1]) {
                (ValueModel::Text(name), ValueModel::Text(ty)) => match type_str_of_text(ty) {
                    Err(e) => Err(e),
                    Ok(ty) => if t.len() == 3 {
                        match shape_of_descr(t[2]) {
                            Err(e) => Err(e),
                            Ok(shape) => Ok(
                                FieldModel { name, dtype: DTypeModel::Plain { ty, shape } },
                            ),
                        }
                    } else {
                        Ok(
                            FieldModel {
                                name,
                                dtype: DTypeModel::Plain { ty, shape: Seq::empty() },
                            },
                        )
                    },
                },
                (ValueModel::Text(name), ValueModel::List(sub)) => if t.len() == 3 {
                    Err(DescrError::NestedRecordArray)
                } else {
                    match fields_of_descr(sub, sub.len() as int) {
                        Err(e) => Err(e),
                        Ok(fs) => Ok(FieldModel { name, dtype: DTypeModel::Record(fs) }),
                    }
                },
                _ => Err(DescrError::BadEntry),
            }
        },
        _ => Err(DescrError::EntryNotList),
    }
}

/// A shape entry: a positive integer.
pub open spec fn dim_of_descr(v: ValueModel) -> Result<u64, DescrError> {
    match v {
        ValueModel::Integer(n) => if n > 0 {
            Ok(n as u64)
        } else {
            Err(DescrError::NotPositive)
        },
        _ => Err(DescrError::NotANumber),
    }
}

pub open spec fn dims_of_descr(items: Seq<ValueModel>, n: int) -> Result<Seq<u64>, DescrError>
    decreases n,
{
    if n <= 0 || n > items.len() {
        Ok(Seq::empty())
    } else {
        match dims_of_descr(items, n - 1) {
            Err(e) => Err(e),
            Ok(ds) => match dim_of_descr(items[n - 1]) {
                Err(e) => Err(e),
                Ok(d) => Ok(ds.push(d)),
            },
        }
    }
}

/// The shape that a header value describes: a list of positive integers.
pub open spec fn shape_of_descr(v: ValueModel) -> Result<Seq<u64>, DescrError> {
    match v {
        ValueModel::List(items) => dims_of_descr(items, items.len() as int),
        _ => Err(DescrError::ShapeNotList),
    }
}


fn convert_string_to_type_str(string: &String) -> (r: Result<TypeStr, DescrError>)
    ensures
        r == type_str_of_text(string@),
{
    match TypeStr::parse(string.as_str()) {
        Ok(ty) => Ok(ty),
        Err(e) => Err(DescrError::BadTypeStr(e)),
    }
}

/// A shape entry: the value must be a positive integer.
pub fn convert_value_to_positive_integer(number: &Value) -> (r: Result<u64, DescrError>)
    ensures
        r == dim_of_descr(number.model()),
{
    if let Value::Integer(n) = number {
        if *n > 0 {
            Ok(*n as u64)
        } else {
            Err(DescrError::NotPositive)
        }
    } else {
        Err(DescrError::NotANumber)
    }
}

/// A shape: the value must be a list of positive integers.
pub fn convert_value_to_shape(field: &Value) -> (r: Result<Vec<u64>, DescrError>)
    ensures
        match r {
            Ok(shape) => shape_of_descr(field.model()) == Ok::<Seq<u64>, DescrError>(shape@),
            Err(e) => shape_of_descr(field.model()) == Err::<Seq<u64>, DescrError>(e),
        },
{
    if let Value::List(lengths) = field {
        proof {
            crate::header::lemma_list_model(*lengths);
        }
        let ghost items = models(lengths@);
        let mut shape: Vec<u64> = Vec::new();
        let mut k: usize = 0;
        while k < lengths.len()
            invariant
                k <= lengths@.len(),
                items == models(lengths@),
                field.model() == ValueModel::List(items),
                dims_of_descr(items, k as int) == Ok::<Seq<u64>, DescrError>(shape@),
            decreases lengths@.len() - k,
        {
            match convert_value_to_positive_integer(&lengths[k]) {
                Err(e) => {
                    proof {
                        assert(items[k as int] == lengths@[k as int].model());
                        assert(dims_of_descr(items, k + 1) == Err::<Seq<u64>, DescrError>(e));
                        lemma_dims_error_sticks(items, k + 1, items.len() as int);
                    }
                    return Err(e);
                },
                Ok(d) => {
                    shape.push(d);
                },
            }
            k = k + 1;
        }
        Ok(shape)
    } else {
        Err(DescrError::ShapeNotList)
    }
}

pub proof fn lemma_dims_error_sticks(items: Seq<ValueModel>, k: int, n: int)
    requires
        0 < k <= n <= items.len(),
        dims_of_descr(items, k) is Err,
    ensures
        dims_of_descr(items, n) == dims_of_descr(items, k),
    decreases n - k,
{
    if n > k {
        lemma_dims_error_sticks(items, k, n - 1);
    }
}

pub proof fn lemma_fields_error_sticks(items: Seq<ValueModel>, k: int, n: int)
    requires
        0 < k <= n <= items.len(),
        fields_of_descr(items, k) is Err,
    ensures
        fields_of_descr(items, n) == fields_of_descr(items, k),
    decreases n - k,
{
    if n > k {
        lemma_fields_error_sticks(items, k, n - 1);
    }
}

fn convert_list_to_record_fields(values: &[Value]) -> (r: Result<Vec<Field>, DescrError>)
    ensures
        match r {
            Ok(fs) => fields_of_descr(models(values@), values@.len() as int) == Ok::<
                Seq<FieldModel>,
                DescrError,
            >(field_models(fs@)),
            Err(e) => fields_of_descr(models(values@), values@.len() as int) == Err::<
                Seq<FieldModel>,
                DescrError,
            >(e),
        },
    decreases values@,
{
    let ghost items = models(values@);
    let mut fields: Vec<Field> = Vec::new();
    let mut k: usize = 0;
    proof {
        assert(field_models(fields@) =~= Seq::<FieldModel>::empty());
    }
    while k < values.len()
        invariant
            k <= values@.len(),
            items == models(values@),
            fields_of_descr(items, k as int) == Ok::<Seq<FieldModel>, DescrError>(
                field_models(fields@),
            ),
        decreases values@.len() - k,
    {
        let field = match &values[k] {
            Value::List(tuple) => {
                proof {
                    crate::header::lemma_list_model(*tuple);
                    assert(decreases_to!(values@ => tuple@));
                }
                convert_tuple_to_record_field(tuple.as_slice())
            },
            _ => Err(DescrError::EntryNotList),
        };
        proof {
            assert(items[k as int] == values@[k as int].model());
            assert(match field {
                Ok(f) => field_of_descr(items[k as int]) == Ok::<FieldModel, DescrError>(f.model()),
                Err(e) => field_of_descr(items[k as int]) == Err::<FieldModel, DescrError>(e),
            });
        }
        match field {
            Err(e) => {
                proof {
                    lemma_fields_error_sticks(items, k + 1, items.len() as int);
                }
                return Err(e);
            },
            Ok(f) => {
                proof {
                    assert(field_models(fields@.push(f)) =~= field_models(fields@).push(f.model()));
                }
                fields.push(f);
            },
        }
        k = k + 1;
    }
    Ok(fields)
}

fn convert_tuple_to_record_field(tuple: &[Value]) -> (r: Result<Field, DescrError>)
    ensures
        match r {
            Ok(f) => field_of_descr(ValueModel::List(models(tuple@))) == Ok::<
                FieldModel,
                DescrError,
            >(f.model()),
            Err(e) => field_of_descr(ValueModel::List(models(tuple@))) == Err::<
                FieldModel,
                DescrError,
            >(e),
        },
    decreases tuple@,
{
    let n = tuple.len();
    if n != 2 && n != 3 {
        return Err(DescrError::WrongArity);
    }
    match (&tuple[0], &tuple[1]) {
        (Value::String(name), Value::String(dtype)) => {
            let ty = convert_string_to_type_str(dtype)?;
            let shape = if n == 3 {
                convert_value_to_shape(&tuple[2])?
            } else {
                Vec::new()
            };
            Ok(Field { name: name.clone(), dtype: DType::Plain { ty, shape } })
        },
        (Value::String(name), Value::List(list)) => {
            if n == 3 {
                return Err(DescrError::NestedRecordArray);
            }
            proof {
                crate::header::lemma_list_model(*list);
                assert(decreases_to!(tuple@ => list@));
            }
            let fields = convert_list_to_record_fields(list.as_slice())?;
            proof {
                lemma_record_model(fields);
            }
            Ok(Field { name: name.clone(), dtype: DType::Record(fields) })
        },
        _ => Err(DescrError::BadEntry),
    }
}

impl DType {
    /// The dtype that a header value describes.
    pub fn from_descr(descr: Value) -> (r: Result<DType, DescrError>)
        ensures
            match r {
                Ok(d) => dtype_of_descr(descr.model()) == Ok::<DTypeModel, DescrError>(d.model()),
                Err(e) => dtype_of_descr(descr.model()) == Err::<DTypeModel, DescrError>(e),
            },
    {
        match descr {
            Value::String(string) => {
                let ty = convert_string_to_type_str(&string)?;
                Ok(DType::Plain { ty, shape: Vec::new() })
            },
            Value::List(list) => {
                proof {
                    crate::header::lemma_list_model(list);
                }
                let fields = convert_list_to_record_fields(list.as_slice())?;
                proof {
                    lemma_record_model(fields);
                }
                Ok(DType::Record(fields))
            },
            _ => Err(DescrError::NotStringOrList),
        }
    }
}


pub open spec fn quoted(t: Seq<char>) -> Seq<char> {
    seq!['\''] + t + seq!['\'']
}

/// Each dimension followed by a comma, as in `2,3,`.
pub open spec fn shape_text(shape: Seq<u64>) -> Seq<char>
    decreases shape.len(),
{
    if shape.len() == 0 {
        Seq::empty()
    } else {
        shape_text(shape.drop_last()) + decimal_text(shape.last() as nat) + seq![',']
    }
}

/// The text of a dtype in a header: a quoted type-string, or a list of
/// field tuples.
pub open spec fn descr_text(d: DTypeModel) -> Seq<char>
    decreases d, 0nat,
{
    match d {
        DTypeModel::Plain { ty, .. } => quoted(type_str_text(ty)),
        DTypeModel::Record(fields) => seq!['['] + fields_text(fields, fields.len() as int) + seq![
            ']',
        ],
    }
}

pub open spec fn fields_text(fields: Seq<FieldModel>, n: int) -> Seq<char>
    decreases fields, n,
{
    if n <= 0 || n > fields.len() {
        Seq::empty()
    } else {
        fields_text(fields, n - 1) + field_text(fields[n - 1])
    }
}

/// One field tuple followed by `, `, as in `('a', '<i4', (3,)), `.
pub open spec fn field_text(f: FieldModel) -> Seq<char>
    decreases f, 0nat,
{
    let head = seq!['('] + quoted(f.name) + seq![',', ' '];
    match f.dtype {
        DTypeModel::Plain { ty, shape } => if shape.len() == 0 {
            head + quoted(type_str_text(ty)) + seq![')', ',', ' ']
        } else {
            head + quoted(type_str_text(ty)) + seq![',', ' ', '('] + shape_text(shape) + seq![
                ')',
                ')',
                ',',
                ' ',
            ]
        },
        DTypeModel::Record(_) => head + descr_text(f.dtype) + seq![')', ',', ' '],
    }
}

fn push_shape(s: &mut String, shape: &Vec<u64>)
    ensures
        final(s)@ == old(s)@ + shape_text(shape@),
{
    let mut k: usize = 0;
    while k < shape.len()
        invariant
            k <= shape@.len(),
            s@ == old(s)@ + shape_text(shape@.subrange(0, k as int)),
        decreases shape@.len() - k,
    {
        proof {
            reveal_strlit(",");
        }
        push_decimal(s, shape[k]);
        s.append(",");
        proof {
            let t = shape@.subrange(0, k + 1);
            assert(t.drop_last() =~= shape@.subrange(0, k as int));
            assert(t.last() == shape@[k as int]);
            assert(shape_text(t) == shape_text(shape@.subrange(0, k as int)) + decimal_text(
                shape@[k as int] as nat,
            ) + seq![',']);
            assert(s@ =~= old(s)@ + shape_text(t));
        }
        k = k + 1;
    }
    proof {
        assert(shape@.subrange(0, k as int) =~= shape@);
    }
}

fn push_quoted(s: &mut String, t: &str)
    ensures
        final(s)@ == old(s)@ + quoted(t@),
{
    proof {
        reveal_strlit("'");
    }
    s.append("'");
    s.append(t);
    s.append("'");
    proof {
        assert(s@ =~= old(s)@ + quoted(t@));
    }
}

fn push_field(s: &mut String, f: &Field)
    ensures
        final(s)@ == old(s)@ + field_text(f.model()),
    decreases f,
{
    proof {
        reveal_strlit("(");
        reveal_strlit(", ");
        reveal_strlit("), ");
        reveal_strlit(", (");
        reveal_strlit(")), ");
    }
    s.append("(");
    push_quoted(s, f.name.as_str());
    s.append(", ");
    match &f.dtype {
        DType::Plain { ty, shape } => {
            let t = ty.to_string();
            push_quoted(s, t.as_str());
            if shape.len() == 0 {
                s.append("), ");
            } else {
                s.append(", (");
                push_shape(s, shape);
                s.append(")), ");
            }
        },
        DType::Record(_) => {
            let d = f.dtype.descr();
            s.append(d.as_str());
            s.append("), ");
        },
    }
    proof {
        assert(s@ =~= old(s)@ + field_text(f.model()));
    }
}

fn push_fields(s: &mut String, fields: &Vec<Field>)
    ensures
        final(s)@ == old(s)@ + fields_text(field_models(fields@), fields@.len() as int),
    decreases fields,
{
    let ghost fs = field_models(fields@);
    let mut k: usize = 0;
    while k < fields.len()
        invariant
            k <= fields@.len(),
            fs == field_models(fields@),
            s@ == old(s)@ + fields_text(fs, k as int),
        decreases fields@.len() - k,
    {
        proof {
            assert(decreases_to!(*fields => fields[k as int]));
        }
        push_field(s, &fields[k]);
        proof {
            assert(s@ =~= old(s)@ + fields_text(fs, k + 1));
        }
        k = k + 1;
    }
}

impl DType {
    /// The text of this dtype in a header: `'<i4'` for a plain dtype (its
    /// shape is not written), `[('a', '<i4'), ('b', '>f8', (3,)), ]` for a record.
    pub fn descr(&self) -> (r: String)
        ensures
            r@ == descr_text(self.model()),
        decreases self,
    {
        match self {
            DType::Record(fields) => {
                proof {
                    reveal_strlit("[");
                    lemma_record_model(*fields);
                }
                let mut s = String::from_str("[");
                push_fields(&mut s, fields);
                proof {
                    reveal_strlit("]");
                }
                s.append("]");
                s
            },
            DType::Plain { ty, .. } => {
                let mut s = String::new();
                let t = ty.to_string();
                push_quoted(&mut s, t.as_str());
                proof {
                    assert(s@ =~= quoted(t@));
                }
                s
            },
        }
    }
}

/// The dtype that the text of a header item describes; what follows the
/// item is ignored.
pub open spec fn dtype_of_text(s: Seq<char>) -> Result<DTypeModel, DescrError> {
    match item_spec(vstd::utf8::encode_utf8(s), 0) {
        Some((v, _)) => dtype_of_descr(v),
        None => Err(DescrError::Unparsable),
    }
}

impl DType {
    /// Reads a dtype from the text of a header item, such as `'<i4'` or
    /// `[('a', '<u2'), ('b', '<f4')]`.
    pub fn parse(text: &str) -> (r: Result<DType, DescrError>)
        ensures
            match r {
                Ok(d) => dtype_of_text(text@) == Ok::<DTypeModel, DescrError>(d.model()),
                Err(e) => dtype_of_text(text@) == Err::<DTypeModel, DescrError>(e),
            },
    {
        match parse_item(text.as_bytes()) {
            None => Err(DescrError::Unparsable),
            Some((v, _)) => DType::from_descr(v),
        }
    }
}


/// The product of the dimensions of a shape.
pub open spec fn shape_product(shape: Seq<u64>) -> nat
    decreases shape.len(),
{
    if shape.len() == 0 {
        1
    } else {
        (shape[0] * shape_product(shape.drop_first())) as nat
    }
}

/// The number of bytes one element of a dtype takes.
pub open spec fn dtype_bytes(d: DTypeModel) -> nat
    decreases d, 0nat,
{
    match d {
        DTypeModel::Plain { ty, shape } => ty.spec_num_bytes() * shape_product(shape),
        DTypeModel::Record(fields) => fields_bytes(fields, fields.len() as int),
    }
}

pub open spec fn fields_bytes(fields: Seq<FieldModel>, n: int) -> nat
    decreases fields, n,
{
    if n <= 0 || n > fields.len() {
        0
    } else {
        fields_bytes(fields, n - 1) + dtype_bytes(fields[n - 1].dtype)
    }
}

proof fn lemma_product_zero(shape: Seq<u64>, i: int)
    requires
        0 <= i < shape.len(),
        shape[i] == 0,
    ensures
        shape_product(shape) == 0,
    decreases shape.len(),
{
    let p = shape_product(shape.drop_first());
    if i > 0 {
        assert(shape.drop_first()[i - 1] == shape[i]);
        lemma_product_zero(shape.drop_first(), i - 1);
        assert(shape[0] * 0 == 0) by (nonlinear_arith);
    } else {
        assert(0 * p == 0) by (nonlinear_arith);
    }
}

proof fn lemma_product_suffix(shape: Seq<u64>, k: int)
    requires
        0 <= k < shape.len(),
    ensures
        shape_product(shape.subrange(k, shape.len() as int)) == shape[k] * shape_product(
            shape.subrange(k + 1, shape.len() as int),
        ),
{
    assert(shape.subrange(k, shape.len() as int).drop_first() =~= shape.subrange(
        k + 1,
        shape.len() as int,
    ));
}

fn shape_bytes(item: usize, shape: &Vec<u64>) -> (r: Option<usize>)
    ensures
        r == (if item * shape_product(shape@) <= usize::MAX {
            Some((item * shape_product(shape@)) as usize)
        } else {
            None
        }),
{
    let n = shape.len();
    let mut z: usize = 0;
    while z < n
        invariant
            z <= n,
            n == shape@.len(),
            forall|j: int| 0 <= j < z ==> shape@[j] != 0,
        decreases n - z,
    {
        if shape[z] == 0 {
            proof {
                lemma_product_zero(shape@, z as int);
                assert(item * 0 == 0);
            }
            return Some(0);
        }
        z = z + 1;
    }
    if item == 0 {
        proof {
            assert(0 * shape_product(shape@) == 0) by (nonlinear_arith);
        }
        return Some(0);
    }
    // every dimension is at least 1, so partial products only grow
    let mut acc: usize = item;
    let mut k: usize = n;
    proof {
        assert(shape@.subrange(n as int, n as int) =~= Seq::<u64>::empty());
        assert(shape_product(shape@.subrange(n as int, n as int)) == 1);
    }
    while k > 0
        invariant
            k <= n,
            n == shape@.len(),
            forall|j: int| 0 <= j < n ==> shape@[j] != 0,
            acc == item * shape_product(shape@.subrange(k as int, n as int)),
            acc >= 1,
        decreases k,
    {
        proof {
            lemma_product_suffix(shape@, k - 1);
        }
        let d = shape[k - 1];
        let ghost rest = shape_product(shape@.subrange(k as int, n as int));
        if d > usize::MAX as u64 || acc > usize::MAX / (d as usize) {
            proof {
                lemma_product_ge(shape@.subrange(0, k - 1), shape@.subrange(k - 1, n as int), item as nat);
                assert(shape@ =~= shape@.subrange(0, k - 1) + shape@.subrange(k - 1, n as int));
                assert(acc * d > usize::MAX) by (nonlinear_arith)
                    requires
                        d > usize::MAX || acc > (usize::MAX as int) / (d as int),
                        d >= 1,
                        acc >= 1,
                ;
                assert(item * shape_product(shape@.subrange(k - 1, n as int)) == d * acc) by (nonlinear_arith)
                    requires
                        shape_product(shape@.subrange(k - 1, n as int)) == d * rest,
                        acc == item * rest,
                ;
            }
            return None;
        }
        proof {
            assert(acc * (d as int) <= usize::MAX) by (nonlinear_arith)
                requires
                    acc <= (usize::MAX as int) / (d as int),
                    d >= 1,
            ;
            assert(acc * (d as int) >= 1) by (nonlinear_arith)
                requires
                    acc >= 1,
                    d >= 1,
            ;
            assert(item * shape_product(shape@.subrange(k - 1, n as int)) == d * acc) by (nonlinear_arith)
                requires
                    shape_product(shape@.subrange(k - 1, n as int)) == d * rest,
                    acc == item * rest,
            ;
        }
        acc = acc * (d as usize);
        k = k - 1;
    }
    proof {
        assert(shape@.subrange(0, n as int) =~= shape@);
    }
    Some(acc)
}

/// With no zero dimension, a longer shape has no smaller product.
proof fn lemma_product_ge(a: Seq<u64>, b: Seq<u64>, item: nat)
    requires
        forall|j: int| 0 <= j < a.len() ==> a[j] != 0,
    ensures
        item * shape_product(a + b) >= item * shape_product(b),
    decreases a.len(),
{
    if a.len() > 0 {
        assert((a + b).drop_first() =~= a.drop_first() + b);
        assert forall|j: int| 0 <= j < a.drop_first().len() implies a.drop_first()[j] != 0 by {
            assert(a.drop_first()[j] == a[j + 1]);
        }
        lemma_product_ge(a.drop_first(), b, item);
        let p = shape_product(a.drop_first() + b);
        assert((a + b)[0] == a[0]);
        assert(item * (a[0] * p) >= item * p) by (nonlinear_arith)
            requires
                a[0] >= 1,
        ;
    } else {
        assert(a + b =~= b);
    }
}

impl DType {
    /// The number of bytes one element of this dtype takes, or `None` where
    /// that does not fit in `usize`.
    pub fn num_bytes(&self) -> (r: Option<usize>)
        ensures
            r == (if dtype_bytes(self.model()) <= usize::MAX {
                Some(dtype_bytes(self.model()) as usize)
            } else {
                None
            }),
        decreases self,
    {
        match self {
            DType::Plain { ty, shape } => match ty.num_bytes() {
                None => {
                    proof {
                        lemma_product_ge_one_or_zero(shape@, ty.spec_num_bytes());
                    }
                    if shape_has_zero(shape) {
                        Some(0)
                    } else {
                        None
                    }
                },
                Some(item) => shape_bytes(item, shape),
            },
            DType::Record(fields) => {
                proof {
                    lemma_record_model(*fields);
                }
                fields_num_bytes(fields)
            },
        }
    }
}

fn fields_num_bytes(fields: &Vec<Field>) -> (r: Option<usize>)
    ensures
        ({
            let total = fields_bytes(field_models(fields@), fields@.len() as int);
            r == (if total <= usize::MAX {
                Some(total as usize)
            } else {
                None
            })
        }),
    decreases fields,
{
    let ghost fs = field_models(fields@);
    let mut total: usize = 0;
    let mut k: usize = 0;
    while k < fields.len()
        invariant
            k <= fields@.len(),
            fs == field_models(fields@),
            total == fields_bytes(fs, k as int),
        decreases fields@.len() - k,
    {
        proof {
            assert(decreases_to!(*fields => fields[k as int]));
        }
        let b = fields[k].dtype.num_bytes();
        match b {
            Some(b) => {
                if b > usize::MAX - total {
                    proof {
                        lemma_fields_bytes_grow(fs, k + 1, fs.len() as int);
                    }
                    return None;
                }
                total = total + b;
            },
            None => {
                proof {
                    lemma_fields_bytes_grow(fs, k + 1, fs.len() as int);
                }
                return None;
            },
        }
        k = k + 1;
    }
    Some(total)
}

fn shape_has_zero(shape: &Vec<u64>) -> (r: bool)
    ensures
        r == (shape_product(shape@) == 0),
{
    let mut z: usize = 0;
    while z < shape.len()
        invariant
            z <= shape@.len(),
            forall|j: int| 0 <= j < z ==> shape@[j] != 0,
        decreases shape@.len() - z,
    {
        if shape[z] == 0 {
            proof {
                lemma_product_zero(shape@, z as int);
            }
            return true;
        }
        z = z + 1;
    }
    proof {
        lemma_product_positive(shape@);
    }
    false
}

proof fn lemma_product_positive(shape: Seq<u64>)
    requires
        forall|j: int| 0 <= j < shape.len() ==> shape[j] != 0,
    ensures
        shape_product(shape) >= 1,
    decreases shape.len(),
{
    if shape.len() > 0 {
        assert forall|j: int| 0 <= j < shape.drop_first().len() implies shape.drop_first()[j] != 0 by {
            assert(shape.drop_first()[j] == shape[j + 1]);
        }
        lemma_product_positive(shape.drop_first());
        let p = shape_product(shape.drop_first());
        assert(shape[0] * p >= 1) by (nonlinear_arith)
            requires
                shape[0] >= 1,
                p >= 1,
        ;
    }
}

proof fn lemma_product_ge_one_or_zero(shape: Seq<u64>, item: nat)
    ensures
        shape_product(shape) == 0 || item * shape_product(shape) >= item,
{
    if shape_product(shape) != 0 {
        assert(item * shape_product(shape) >= item) by (nonlinear_arith)
            requires
                shape_product(shape) >= 1,
        ;
    }
}

proof fn lemma_fields_bytes_grow(fs: Seq<FieldModel>, k: int, n: int)
    requires
        0 < k <= n <= fs.len(),
    ensures
        fields_bytes(fs, n) >= fields_bytes(fs, k),
    decreases n - k,
{
    if n > k {
        lemma_fields_bytes_grow(fs, k, n - 1);
    }
}


fn clone_fields(fields: &Vec<Field>) -> (r: Vec<Field>)
    ensures
        field_models(r@) == field_models(fields@),
    decreases fields,
{
    let mut out: Vec<Field> = Vec::new();
    let mut k: usize = 0;
    while k < fields.len()
        invariant
            k <= fields@.len(),
            field_models(out@) =~= field_models(fields@).subrange(0, k as int),
        decreases fields@.len() - k,
    {
        proof {
            assert(decreases_to!(*fields => fields[k as int]));
        }
        let f = Field { name: fields[k].name.clone(), dtype: fields[k].dtype.clone_dtype() };
        let ghost before = out@;
        out.push(f);
        proof {
            assert(field_models(out@) =~= field_models(before).push(f.model()));
        }
        k = k + 1;
    }
    proof {
        assert(field_models(fields@).subrange(0, k as int) =~= field_models(fields@));
    }
    out
}

impl DType {
    /// A copy of this dtype.
    pub fn clone_dtype(&self) -> (r: DType)
        ensures
            r.model() == self.model(),
        decreases self,
    {
        match self {
            DType::Plain { ty, shape } => DType::Plain { ty: *ty, shape: shape.clone() },
            DType::Record(fields) => {
                proof {
                    lemma_record_model(*fields);
                }
                let copy = clone_fields(fields);
                proof {
                    lemma_record_model(copy);
                }
                DType::Record(copy)
            },
        }
    }
}

impl Clone for DType {
    fn clone(&self) -> (r: DType)
        ensures
            r.model() == self.model(),
    {
        self.clone_dtype()
    }
}

} // verus!
