//! Track the origin of JSON values for byte-exact error reporting.
//!
//! The library holds the verified core of a span-tracking JSON pipeline: a
//! byte adapter that records token boundaries as an external parser pulls
//! bytes and neutralises comments and trailing commas, the tracker it
//! updates, the rule that turns tracker readings into a value's span, the
//! untyped value tree with its ordered map, JSON Pointer lookup, and the
//! conversion of a line/column error position into a byte offset.

mod error_ext;
mod map;
pub mod pointer;
mod reader;
mod settings;
mod shared;
pub mod spanned;
mod value;

pub use error_ext::{offset_of_line_column, ErrorExt};
pub use map::{ObjectMap, MapKey};
pub use reader::{rewritten, Buffer, Mode, Reader};
pub use settings::Settings;
pub use shared::{at_end, end, settings, start, Shared, SharedStack};
pub use spanned::Spanned;
pub use value::Value;
