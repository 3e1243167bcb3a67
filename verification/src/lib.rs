//! Conversion of Gaussian-splat point clouds from PLY documents into the
//! dense 32-byte SPLAT record format.
//!
//! Every floating-point quantity is carried as its IEEE-754 single-precision
//! bit pattern in a `u32`, so that the record layout, the importance order and
//! the field lookup of the ingest stage are all stated over integers.

pub mod codec;
pub mod gaussian;
pub mod header;
pub mod ingest;
pub mod order;
pub mod splat;

pub use codec::{get_splat_count, parse_splat_data, splats_to_bytes, FormatError};
pub use gaussian::{PlyGaussian, PropertyValue};
pub use header::header_numbers_in_range;
pub use ingest::{
    gaussians_from_elements, gaussians_from_outcome, load_ply_from_bytes, vertex_group, Element,
    Group, ParseError,
};
pub use order::{compare_bits, compare_keyed, ply_to_splat};
pub use splat::SplatPoint;
