//! A compact, self-describing binary tree format for JSON-like data, with a
//! layout builder, a zero-copy reader and a two-layer overlay view.
pub mod b64;
pub mod readback;
pub mod sd_buffer;
pub mod sd_builder;
pub mod sd_data;
pub mod sd_dton;
pub mod sd_json;
pub mod sd_map;
pub mod sd_node;
pub mod sd_pair;
pub mod sd_reader;
pub mod su;

pub use sd_buffer::SmDtonBuffer;
pub use sd_builder::SmDtonBuilder;
pub use sd_data::{SmDtonData, ST};
pub use sd_dton::SmDton;
pub use sd_json::JsonNode;
pub use sd_map::SmDtonMap;
pub use sd_pair::SmDtonPair;
pub use sd_reader::SmDtonReader;
