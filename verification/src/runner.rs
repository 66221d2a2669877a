//! Compiles the linear layer's kernel: assembles its source and hands it to
//! the device.

use crate::linear::{assembled, linear_fragments, Linear};
use vstd::prelude::*;

verus! {

/// The source of the linear layer's kernel, with the rectifier fused into it
/// when `with_relu` is set.
pub open spec fn linear_shader_text(with_relu: bool) -> Seq<char> {
    assembled(linear_fragments(), with_relu)
}

/// Assembles the source of the linear layer's kernel.
pub fn linear_shader_source(with_relu: bool) -> (source: String)
    ensures
        source@ == linear_shader_text(with_relu),
{
    let linear_op_codes = Linear::new();
    linear_op_codes.assemble(with_relu)
}

/// Compiles the linear layer's kernel. `create_shader_module` is the
/// device's entry point for WGSL source: it is called once, on the assembled
/// source, and the module it returns is handed back as it is.
pub fn compile_linear_shader<Module, Create: FnOnce(&str) -> Module>(
    create_shader_module: Create,
    with_relu: bool,
) -> (module: Module)
    requires
        forall|source: &str|
            source@ == linear_shader_text(with_relu) ==> #[trigger] create_shader_module.requires(
                (source,),
            ),
    ensures
        exists|source: &str|
            source@ == linear_shader_text(with_relu) && #[trigger] create_shader_module.ensures(
                (source,),
                module,
            ),
{
    let string_builder = linear_shader_source(with_relu);
    create_shader_module(string_builder.as_str())
}

} // verus!
