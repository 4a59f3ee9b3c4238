//! A bump arena: values and slices of plain-data types are placed one after
//! another in growable chunks of bytes and are addressed by `Region` handles.
pub mod align;
pub mod arena;
pub mod layout;
pub mod pod;

pub use align::round_up;
pub use arena::{slice_byte_count, Allocator, Arena, DEFAULT_CAPACITY};
pub use layout::Region;
pub use pod::Pod;
