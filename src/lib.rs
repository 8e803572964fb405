//! Reading and writing the NPY array format: the type-string and dtype
//! model, the header grammar, and byte-exact encoders and decoders for
//! scalars, byte blobs, fixed-size arrays and records.
use vstd::prelude::*;

pub mod bytes;
pub mod dtype;
pub mod header;
pub mod laws;
pub mod npy_data;
pub mod out_file;
pub mod serialize;
pub mod text_round_trip;
pub mod type_str;

pub use dtype::{
    DType, DTypeModel, DescrError, Field, FieldModel, convert_value_to_positive_integer,
    convert_value_to_shape,
};
pub use header::{HeaderError, Value, ValueModel, parse_header, parse_item};
pub use serialize::{
    ArcWriter, ArrayReader, ArrayWriter, AutoSerialize, BoxWriter, BytesReader, BytesWriter,
    DTypeError, DTypeErrorKind, Deserialize, F32Bits, F64Bits, MutRefWriter, RcWriter, RefWriter,
    Serialize, TypeRead, TypeWrite, TypeWriteDyn, TypeWriteViaDeref, WriteError,
};
pub use type_str::{Endianness, ParseTypeStrError, TimeUnits, TypeKind, TypeStr, TypeStrErrorKind};

verus! {

} // verus!
