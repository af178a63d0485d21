//! Decoding of fixed-layout ETL character-dataset records into BMP images.

pub mod bitmap;
pub mod flip;
pub mod normalize;
pub mod palette;
pub mod record;
