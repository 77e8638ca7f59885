//! AON: a JSON superset with tagged unions, comments and width-preserving
//! numeric literals, read into a value tree and rendered back to text.

pub mod deserializer;
pub mod error;
pub mod representation;
pub mod roundtrip;
pub mod serializer;
pub mod text;

pub use deserializer::deserialize;
pub use error::{AonError, AonErrorView};
pub use representation::value::{Number, NumberView, Value, ValueView};
pub use serializer::formatter::{FormatBuilder, FormatContext, Formatter};
pub use serializer::{serialize, ToAon};
