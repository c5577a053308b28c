//! Where the source of a shader comes from.

use vstd::prelude::*;

verus! {

/// The source of a shader: its text, embedded when the program was built,
/// or the names of the files to read it from when it is loaded.
#[derive(Clone, Debug)]
pub struct ShaderSource {
    pub source: Option<String>,
    pub filenames: Option<Vec<String>>,
}

} // verus!
