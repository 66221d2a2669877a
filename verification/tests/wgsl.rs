use op_code_compiler::linear::Linear;
use op_code_compiler::op_codes::LinearOpCodes;
use op_code_compiler::runner::linear_shader_source;
use wgpu::naga::front::wgsl::parse_str;
use wgpu::naga::valid::{Capabilities, ValidationFlags, Validator};
use wgpu::naga::{Module, ShaderStage};

fn parsed(with_relu: bool) -> Module {
    match parse_str(&linear_shader_source(with_relu)) {
        Ok(module) => module,
        Err(error) => panic!("{:?}", error),
    }
}

fn is_valid(module: &Module) -> bool {
    Validator::new(ValidationFlags::all(), Capabilities::empty())
        .validate(module)
        .is_ok()
}

#[test]
fn the_source_is_valid_wgsl_with_and_without_the_rectifier() {
    assert!(is_valid(&parsed(false)));
    assert!(is_valid(&parsed(true)));
}

#[test]
fn the_entry_point_is_a_compute_kernel_in_groups_of_eight_by_eight() {
    for with_relu in [false, true] {
        let module = parsed(with_relu);
        assert_eq!(module.entry_points.len(), 1);
        let main = &module.entry_points[0];
        assert_eq!(main.name, "main");
        assert_eq!(main.stage, ShaderStage::Compute);
        assert_eq!(main.workgroup_size, [8, 8, 1]);
        assert_eq!(main.function.arguments.len(), 3);
    }
}

#[test]
fn the_resources_are_bound_at_slots_zero_to_four_of_group_zero() {
    for with_relu in [false, true] {
        let module = parsed(with_relu);
        let mut bound: Vec<(u32, u32, String)> = Vec::new();
        for (_, variable) in module.global_variables.iter() {
            if let Some(binding) = &variable.binding {
                let name = variable.name.clone().unwrap_or_default();
                bound.push((binding.group, binding.binding, name));
            }
        }
        bound.sort();
        let expected: Vec<(u32, u32, String)> = ["dimensions", "input", "weights", "bias", "output"]
            .iter()
            .enumerate()
            .map(|(slot, name)| (0, slot as u32, name.to_string()))
            .collect();
        assert_eq!(bound, expected);
    }
}

#[test]
fn the_rectifier_needs_no_declaration_of_its_own() {
    let plain = parsed(false);
    let fused = parsed(true);
    assert_eq!(fused.global_variables.len(), plain.global_variables.len());
    let locals = |module: &Module| module.entry_points[0].function.local_variables.len();
    assert_eq!(locals(&fused), locals(&plain));
    let expressions = |module: &Module| module.entry_points[0].function.expressions.len();
    assert!(expressions(&fused) > expressions(&plain));
}

#[test]
fn a_list_that_lacks_a_closing_fragment_does_not_assemble_to_wgsl() {
    for lacking in [LinearOpCodes::IndexCheckClose, LinearOpCodes::FunctionClose] {
        let mut linear = Linear::new();
        linear.op_codes.retain(|fragment| fragment.0 != lacking);
        assert!(parse_str(&linear.assemble(false)).is_err());
    }
}

#[test]
fn a_list_out_of_order_does_not_assemble_to_wgsl() {
    let mut linear = Linear::new();
    linear.op_codes.swap(4, 10);
    let source = linear.assemble(true);
    assert_eq!(source.matches('{').count(), source.matches('}').count());
    assert!(parse_str(&source).is_err());
}
