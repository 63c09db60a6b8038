//! Pull-based encoders that frame a sequence of values, one chunk per poll,
//! as a JSON array, as a JSON object of arrays, or as hexadecimal lines.
//!
//! No encoder polls anything itself. A driver polls the inner sequence and
//! hands what it reported to `poll_next`, which answers with the next chunk.
pub mod hex_stream;
pub mod inner_map_stream;
pub mod json_array_stream;
pub mod json_map_stream;
pub mod owned_pool_stream;
pub mod polled;
pub mod pseudo_stream;
pub mod serialized_stream_error;

pub use hex_stream::{HexStream, LineEnding};
pub use inner_map_stream::{MapOption, MapRes, StreamInnerMap};
pub use json_array_stream::{FrameState, JsonArrayStream};
pub use json_map_stream::{JsonMapStream, KeyedFrameState};
pub use owned_pool_stream::OwnedPoolStream;
pub use polled::Polled;
pub use pseudo_stream::PseudoStream;
pub use serialized_stream_error::{ErrorBody, SerializedStreamError};
