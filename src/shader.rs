//! Shader sources named by path.

use vstd::prelude::*;

verus! {

/// A shader source file.
pub struct Shader {
    pub path: String,
}

impl Shader {
    pub fn new(path: &str) -> (r: Shader)
        ensures
            r.path@ == path@,
    {
        Shader { path: path.to_owned() }
    }
}

/// A reference to a shader by its path.
pub struct ShaderRef {
    pub path: String,
}

impl ShaderRef {
    pub fn new(path: String) -> (r: ShaderRef)
        ensures
            r.path@ == path@,
    {
        ShaderRef { path }
    }
}

} // verus!
