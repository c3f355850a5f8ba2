//! Shader sources put together from their parts.

use vstd::prelude::*;

verus! {

/// The shader for glyphs: the plain shader, unchanged, so that drawing without
/// borders does not depend on the border shader.
pub fn assemble_simple_shader(simple: &str) -> (r: String)
    ensures
        r@ == simple@,
{
    simple.to_string()
}

/// The shader for borders: the plain shader, then the border shader on a new
/// line.
pub fn assemble_border_shader(simple: &str, border: &str) -> (r: String)
    ensures
        r@ == simple@ + "\n"@ + border@,
{
    let mut shader: String = simple.to_string();
    shader.append("\n");
    shader.append(border);
    shader
}

} // verus!
