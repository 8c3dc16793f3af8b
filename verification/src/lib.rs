//! Reading, writing and converting RenderWare texture dictionaries (`.txd`).

pub mod bytes;
pub mod error;
pub mod image;
pub mod types;
pub mod texture;
pub mod dictionary;
pub mod round_trip;
pub mod palette;
pub mod encode;
pub mod reread;
pub mod laws;
