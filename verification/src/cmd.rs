//! What the command line of the converter can ask for.

use vstd::prelude::*;

verus! {

/// The options of one run. The converter itself reads none of them: they
/// are for the program around it.
#[derive(Debug)]
pub struct Args {
    /// The mesh has its z axis pointing up.
    pub flag_zup: bool,
    /// A report on the conversion is wanted.
    pub flag_report: bool,
    /// The images that cover the mesh.
    pub flag_image: Vec<String>,
    /// The path of the OBJ file.
    pub arg_source: String,
}

} // verus!
