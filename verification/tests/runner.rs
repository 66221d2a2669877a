use op_code_compiler::linear::Linear;
use op_code_compiler::op_codes::{LinearOpCodes, RELU, STORE_RESULT};
use op_code_compiler::runner::{compile_linear_shader, linear_shader_source};

fn plain_lines() -> Vec<&'static str> {
    vec![
        "        ",
        "            struct TensorDimensions {",
        "                input_row_count: u32,",
        "                input_column_count: u32,",
        "                weights_row_count: u32,",
        "                weights_column_count: u32,",
        "                bias_row_count: u32,",
        "                bias_column_count: u32,",
        "                output_row_count: u32,",
        "                output_column_count: u32,",
        "            };",
        "                    ",
        "            @group(0) @binding(0)",
        "            var<uniform> dimensions: TensorDimensions;",
        "            ",
        "            @group(0) @binding(1)",
        "            var<storage, read> input: array<f32>;",
        "            ",
        "            @group(0) @binding(2)",
        "            var<storage, read> weights: array<f32>;",
        "            ",
        "            @group(0) @binding(3)",
        "            var<storage, read> bias: array<f32>;",
        "            ",
        "            @group(0) @binding(4)",
        "            var<storage, read_write> output: array<f32>;",
        "            ",
        "                    ",
        "            const BLOCK_SIZE: u32 = 8u;",
        "            @compute @workgroup_size(8, 8, 1) ",
        "            fn main(",
        "                @builtin(global_invocation_id) global_id: vec3<u32>,",
        "                @builtin(workgroup_id) group_id: vec3<u32>, ",
        "                @builtin(local_invocation_id) local_id: vec3<u32>",
        "                ) {",
        "                    ",
        "                let output_row_index: u32 = global_id.x;",
        "                let output_column_index: u32 = global_id.y;",
        "                    ",
        "                if (output_row_index < dimensions.output_row_count && output_column_index < dimensions.output_column_count) {",
        "                    ",
        "                    let output_index: u32 = output_row_index * dimensions.output_column_count + output_column_index;",
        "                    ",
        "                    var result: f32 = 0.0;",
        "                    ",
        "                    for (var inner_dimension: u32 = 0u; inner_dimension < dimensions.input_column_count; inner_dimension += 1u) {",
        "                            result += input[output_row_index * dimensions.input_column_count + inner_dimension] * weights[inner_dimension * dimensions.weights_column_count + output_column_index];",
        "                    }",
        "                    ",
        "                    result = result + bias[output_index];",
        "                    ",
        "                    output[output_index] = result;",
        "                    ",
        "                }",
        "                    ",
        "            }",
        "            ",
    ]
}

fn fused_lines() -> Vec<&'static str> {
    vec![
        "        ",
        "            struct TensorDimensions {",
        "                input_row_count: u32,",
        "                input_column_count: u32,",
        "                weights_row_count: u32,",
        "                weights_column_count: u32,",
        "                bias_row_count: u32,",
        "                bias_column_count: u32,",
        "                output_row_count: u32,",
        "                output_column_count: u32,",
        "            };",
        "                    ",
        "            @group(0) @binding(0)",
        "            var<uniform> dimensions: TensorDimensions;",
        "            ",
        "            @group(0) @binding(1)",
        "            var<storage, read> input: array<f32>;",
        "            ",
        "            @group(0) @binding(2)",
        "            var<storage, read> weights: array<f32>;",
        "            ",
        "            @group(0) @binding(3)",
        "            var<storage, read> bias: array<f32>;",
        "            ",
        "            @group(0) @binding(4)",
        "            var<storage, read_write> output: array<f32>;",
        "            ",
        "                    ",
        "            const BLOCK_SIZE: u32 = 8u;",
        "            @compute @workgroup_size(8, 8, 1) ",
        "            fn main(",
        "                @builtin(global_invocation_id) global_id: vec3<u32>,",
        "                @builtin(workgroup_id) group_id: vec3<u32>, ",
        "                @builtin(local_invocation_id) local_id: vec3<u32>",
        "                ) {",
        "                    ",
        "                let output_row_index: u32 = global_id.x;",
        "                let output_column_index: u32 = global_id.y;",
        "                    ",
        "                if (output_row_index < dimensions.output_row_count && output_column_index < dimensions.output_column_count) {",
        "                    ",
        "                    let output_index: u32 = output_row_index * dimensions.output_column_count + output_column_index;",
        "                    ",
        "                    var result: f32 = 0.0;",
        "                    ",
        "                    for (var inner_dimension: u32 = 0u; inner_dimension < dimensions.input_column_count; inner_dimension += 1u) {",
        "                            result += input[output_row_index * dimensions.input_column_count + inner_dimension] * weights[inner_dimension * dimensions.weights_column_count + output_column_index];",
        "                    }",
        "                    ",
        "                    result = result + bias[output_index];",
        "                    result = max(0.0, result);",
        "        ",
        "                    output[output_index] = result;",
        "                    ",
        "                }",
        "                    ",
        "            }",
        "            ",
    ]
}

fn offsets_of(source: &str, pattern: &str) -> Vec<usize> {
    source.match_indices(pattern).map(|found| found.0).collect()
}

#[test]
fn the_source_without_the_rectifier_is_the_linear_kernel() {
    assert_eq!(linear_shader_source(false), plain_lines().join("\n"));
}

#[test]
fn the_source_with_the_rectifier_is_the_fused_kernel() {
    assert_eq!(linear_shader_source(true), fused_lines().join("\n"));
}

#[test]
fn the_source_has_the_length_of_its_fragments() {
    assert_eq!(linear_shader_source(false).len(), 2339);
    assert_eq!(linear_shader_source(true).len(), 2374);
}

#[test]
fn the_source_does_not_change_between_calls() {
    assert_eq!(linear_shader_source(false), linear_shader_source(false));
    assert_eq!(linear_shader_source(true), linear_shader_source(true));
    assert_ne!(linear_shader_source(false), linear_shader_source(true));
}

#[test]
fn the_source_is_what_the_list_assembles_to() {
    assert_eq!(linear_shader_source(false), Linear::new().assemble(false));
    assert_eq!(linear_shader_source(true), Linear::new().assemble(true));
}

#[test]
fn the_fragments_stand_in_the_source_in_list_order() {
    for with_relu in [false, true] {
        let source = linear_shader_source(with_relu);
        let mut end_of_previous = 0;
        for (op, text) in Linear::new().op_codes {
            let found = offsets_of(&source, &text);
            assert_eq!(found.len(), 1, "{:?}", op);
            assert!(found[0] >= end_of_previous, "{:?}", op);
            assert!(found[0] + text.len() > found[0]);
            end_of_previous = found[0] + text.len();
        }
        assert_eq!(end_of_previous, source.len());
    }
}

#[test]
fn the_first_fragment_begins_the_source_and_the_last_ends_it() {
    for with_relu in [false, true] {
        let source = linear_shader_source(with_relu);
        let linear = Linear::new();
        assert!(source.starts_with(linear.op_codes[0].1.as_str()));
        assert!(source.ends_with(linear.op_codes[11].1.as_str()));
    }
}

#[test]
fn the_rectifier_stands_directly_before_the_store_and_nowhere_else() {
    let fused = linear_shader_source(true);
    let at = offsets_of(&fused, RELU);
    assert_eq!(at.len(), 1);
    assert_eq!(offsets_of(&fused, STORE_RESULT), vec![at[0] + RELU.len()]);
    assert_eq!(offsets_of(&fused, "max"), vec![at[0] + 17]);
}

#[test]
fn the_source_without_the_rectifier_does_not_hold_its_line() {
    let plain = linear_shader_source(false);
    assert!(offsets_of(&plain, RELU).is_empty());
    assert!(!plain.contains("max"));
}

#[test]
fn taking_the_rectifier_line_out_gives_the_plain_source() {
    let plain = linear_shader_source(false);
    let fused = linear_shader_source(true);
    let at = plain.find(STORE_RESULT).unwrap();
    assert_eq!(at, 2193);
    assert_eq!(fused.len(), plain.len() + RELU.len());
    assert_eq!(&fused[..at], &plain[..at]);
    assert_eq!(&fused[at..at + RELU.len()], RELU);
    assert_eq!(&fused[at + RELU.len()..], &plain[at..]);
}

#[test]
fn the_two_sources_differ_by_one_line() {
    let plain: Vec<&str> = plain_lines().iter().map(|line| line.trim()).collect();
    let fused: Vec<&str> = fused_lines().iter().map(|line| line.trim()).collect();
    assert_eq!(fused.len(), plain.len() + 1);
    let inserted = plain.iter().zip(&fused).position(|(p, f)| p != f).unwrap();
    assert_eq!(fused[inserted], "result = max(0.0, result);");
    assert_eq!(&fused[..inserted], &plain[..inserted]);
    assert_eq!(&fused[inserted + 1..], &plain[inserted..]);
    assert_eq!(fused[inserted + 2], "output[output_index] = result;");
}

#[test]
fn the_source_opens_as_many_scopes_as_it_closes() {
    for with_relu in [false, true] {
        let source = linear_shader_source(with_relu);
        assert_eq!(source.matches('{').count(), 4);
        assert_eq!(source.matches('}').count(), 4);
    }
}

#[test]
fn no_scope_of_the_source_closes_before_it_opens() {
    for with_relu in [false, true] {
        let mut depth: i32 = 0;
        for c in linear_shader_source(with_relu).chars() {
            if c == '{' {
                depth += 1;
            } else if c == '}' {
                depth -= 1;
            }
            assert!(depth >= 0);
        }
        assert_eq!(depth, 0);
    }
}

#[test]
fn the_body_of_the_kernel_stands_inside_the_guard() {
    let source = linear_shader_source(true);
    let depth_at = |offset: usize| {
        let before = &source[..offset];
        before.matches('{').count() as i32 - before.matches('}').count() as i32
    };
    for (op, text) in Linear::new().op_codes {
        let expected = match op {
            LinearOpCodes::Uniform | LinearOpCodes::Bindings | LinearOpCodes::FunctionDefinition => 0,
            LinearOpCodes::ThreadID | LinearOpCodes::IndexCheck | LinearOpCodes::FunctionClose => 1,
            _ => 2,
        };
        assert_eq!(depth_at(source.find(text.as_str()).unwrap()), expected, "{:?}", op);
    }
}

#[test]
fn the_device_is_called_once_with_the_assembled_source() {
    for with_relu in [false, true] {
        let mut seen: Vec<String> = Vec::new();
        let module = compile_linear_shader(
            |source: &str| {
                seen.push(source.to_string());
                seen.len()
            },
            with_relu,
        );
        assert_eq!(module, 1);
        assert_eq!(seen, vec![linear_shader_source(with_relu)]);
    }
}

#[test]
fn the_module_of_the_device_is_handed_back_as_it_is() {
    let module = compile_linear_shader(|source: &str| Some(source.len()), false);
    assert_eq!(module, Some(2339));
    let refused: Result<u32, String> =
        compile_linear_shader(|_source: &str| Err("rejected".to_string()), true);
    assert_eq!(refused, Err("rejected".to_string()));
}

#[test]
fn compiling_without_and_then_with_the_rectifier() {
    let mut calls: Vec<String> = Vec::new();
    let first = compile_linear_shader(
        |source: &str| {
            calls.push(source.to_string());
            calls.len()
        },
        false,
    );
    let second = compile_linear_shader(
        |source: &str| {
            calls.push(source.to_string());
            calls.len()
        },
        true,
    );
    assert_eq!((first, second), (1, 2));
    assert_eq!(calls.len(), 2);
    assert_eq!(calls[1].split('\n').count(), calls[0].split('\n').count() + 1);
    assert_eq!(calls[1].len(), calls[0].len() + RELU.len());
    assert_eq!(calls[1].replacen(RELU, "", 1), calls[0]);
}
