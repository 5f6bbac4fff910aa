pub mod blend;
pub mod codec;
pub mod document;
pub mod error;
pub mod flatten;
pub mod ir;
pub mod keyed;
pub mod layers;
pub mod tiles;
pub mod tiling;
