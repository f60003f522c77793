//! A small data-transformation language: a typed value model with a
//! sigil-tagged string codec, and a rule interpreter that turns one source
//! document into zero or more output documents.

pub mod codec;
pub mod dtl;
pub mod semantics;
pub mod scalar;
pub mod text;
pub mod value;

pub use crate::codec::{decode, decode_text, encode, is_encodable};
pub use crate::dtl::{
    apply, list_literal, lower, null_literal, number_literal, path, run_statements,
    string_literal, transform, upper, Rules, Target,
};
pub use crate::semantics::DtlError;
pub use crate::scalar::{
    BigDecimalWrapper, ByteWrapper, CodecError, Date, DateTimeWrapper, NI, URI, UUID,
};
pub use crate::value::EntityValue;
