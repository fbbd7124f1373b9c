//! A small wire-format library: typed field values parsed from text lines,
//! collected into a message keyed by field number, and serialized into a
//! presence-bitmap-prefixed binary form.

pub mod errors;
pub mod fixnum;
pub mod hexcodec;
pub mod line;
pub mod message;
pub mod numparse;
pub mod value;

pub use errors::AddStrError;
pub use errors::EncodeError;
pub use fixnum::FixNumber;
pub use message::build_bitmap;
pub use message::AddStr;
pub use message::Message;
pub use value::DataValue;
