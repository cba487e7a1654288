//! Helix core: charter packs, egress switch, tool pins, memory layout,
//! secret references, grants and model-provider planning.

pub mod text;
pub mod digest;
pub mod charter;
pub mod switch;
pub mod order;
pub mod paths;
pub mod memory;
pub mod atlas;
pub mod keyed;
pub mod reliquary;
pub mod protocol;
pub mod grants;
pub mod hands;
pub mod loom;
pub mod words;
pub mod plots;
pub mod recall;
pub mod daemon;
pub mod cli;
pub mod cap;
