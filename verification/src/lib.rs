//! Conversion of Wavefront OBJ meshes to Valve SMD text.
//!
//! The text of an OBJ file is read into a mesh (`mesh_parser`), the mesh is
//! checked (`obj_file`), converted to an SMD document and written out as
//! text (`smd`).
//!
//! Numbers pass through as they are written (`numeral`): the library knows
//! which words are numbers and where they go, and calculates nothing. A
//! program that wants them rounded hands its rounding to
//! `SMD::map_numbers`.

pub mod cmd;
pub mod conversion;
pub mod mesh_parser;
pub mod numeral;
pub mod obj_file;
pub mod smd;
pub mod text;
