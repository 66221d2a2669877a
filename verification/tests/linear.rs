use op_code_compiler::linear::Linear;
use op_code_compiler::op_codes::{
    LinearOpCodes, ADD_BIAS, BINDINGS, FUNCTION_CLOSE, FUNCTION_DEFINITION, INDEX_CHECK,
    INDEX_CHECK_CLOSE, MATRIX_MULTIPLICATION_LOOP, OUTPUT_INDEX_CALCULATION, RELU,
    RESULT_INSTANTIATION, STORE_RESULT, THREAD_ID, UNIFORM,
};

fn fragment(op: LinearOpCodes, text: &str) -> (LinearOpCodes, String) {
    (op, text.to_string())
}

fn expected_fragments() -> Vec<(LinearOpCodes, &'static str)> {
    vec![
        (LinearOpCodes::Uniform, UNIFORM),
        (LinearOpCodes::Bindings, BINDINGS),
        (LinearOpCodes::FunctionDefinition, FUNCTION_DEFINITION),
        (LinearOpCodes::ThreadID, THREAD_ID),
        (LinearOpCodes::IndexCheck, INDEX_CHECK),
        (LinearOpCodes::OutputIndexCalculation, OUTPUT_INDEX_CALCULATION),
        (LinearOpCodes::ResultInstantiation, RESULT_INSTANTIATION),
        (LinearOpCodes::MatrixMultiplicationLoop, MATRIX_MULTIPLICATION_LOOP),
        (LinearOpCodes::AddBias, ADD_BIAS),
        (LinearOpCodes::StoreResult, STORE_RESULT),
        (LinearOpCodes::IndexCheckClose, INDEX_CHECK_CLOSE),
        (LinearOpCodes::FunctionClose, FUNCTION_CLOSE),
    ]
}

#[test]
fn new_lists_the_twelve_fragments_in_structural_order() {
    let linear = Linear::new();
    let expected = expected_fragments();
    assert_eq!(linear.op_codes.len(), 12);
    for (built, (op, text)) in linear.op_codes.iter().zip(expected) {
        assert_eq!(built.0, op);
        assert_eq!(built.1, text);
    }
}

#[test]
fn new_builds_the_same_list_every_time() {
    let first = Linear::new();
    let second = Linear::new();
    assert_eq!(first.op_codes, second.op_codes);
    assert_eq!(first.assemble(false), second.assemble(false));
    assert_eq!(first.assemble(true), second.assemble(true));
}

#[test]
fn the_guard_opens_behind_the_thread_id_and_closes_before_the_function() {
    let ops: Vec<LinearOpCodes> = Linear::new().op_codes.iter().map(|f| f.0).collect();
    let at = |op: LinearOpCodes| ops.iter().position(|o| *o == op).unwrap();
    assert!(at(LinearOpCodes::ThreadID) < at(LinearOpCodes::IndexCheck));
    for inside in [
        LinearOpCodes::OutputIndexCalculation,
        LinearOpCodes::ResultInstantiation,
        LinearOpCodes::MatrixMultiplicationLoop,
        LinearOpCodes::AddBias,
        LinearOpCodes::StoreResult,
    ] {
        assert!(at(LinearOpCodes::IndexCheck) < at(inside));
        assert!(at(inside) < at(LinearOpCodes::IndexCheckClose));
    }
    assert!(at(LinearOpCodes::IndexCheckClose) < at(LinearOpCodes::FunctionClose));
    assert_eq!(at(LinearOpCodes::FunctionClose), ops.len() - 1);
}

#[test]
fn the_fragments_spell_out_the_dispatch_interface() {
    assert!(UNIFORM.contains("struct TensorDimensions {"));
    let fields: Vec<usize> = [
        "input_row_count: u32,",
        "input_column_count: u32,",
        "weights_row_count: u32,",
        "weights_column_count: u32,",
        "bias_row_count: u32,",
        "bias_column_count: u32,",
        "output_row_count: u32,",
        "output_column_count: u32,",
    ]
    .iter()
    .map(|field| UNIFORM.find(field).unwrap())
    .collect();
    assert!(fields.windows(2).all(|pair| pair[0] < pair[1]));
    for (slot, resource) in [
        "var<uniform> dimensions: TensorDimensions;",
        "var<storage, read> input: array<f32>;",
        "var<storage, read> weights: array<f32>;",
        "var<storage, read> bias: array<f32>;",
        "var<storage, read_write> output: array<f32>;",
    ]
    .iter()
    .enumerate()
    {
        let binding = format!("@group(0) @binding({})\n            {}", slot, resource);
        assert!(BINDINGS.contains(&binding));
    }
    assert!(FUNCTION_DEFINITION.contains("@compute @workgroup_size(8, 8, 1)"));
    assert!(FUNCTION_DEFINITION.contains("fn main("));
}

#[test]
fn the_rectifier_line_is_one_line_on_the_accumulator() {
    assert_eq!(RELU, "        result = max(0.0, result);\n");
    assert_eq!(RELU.matches('\n').count(), 1);
    assert!(RESULT_INSTANTIATION.contains("var result: f32 = 0.0;"));
    assert!(STORE_RESULT.contains("output[output_index] = result;"));
}

#[test]
fn pre_source_is_the_rectifier_before_the_store_only() {
    let all = [
        LinearOpCodes::Uniform,
        LinearOpCodes::Bindings,
        LinearOpCodes::FunctionDefinition,
        LinearOpCodes::ThreadID,
        LinearOpCodes::IndexCheck,
        LinearOpCodes::OutputIndexCalculation,
        LinearOpCodes::ResultInstantiation,
        LinearOpCodes::MatrixMultiplicationLoop,
        LinearOpCodes::AddBias,
        LinearOpCodes::StoreResult,
        LinearOpCodes::IndexCheckClose,
        LinearOpCodes::FunctionClose,
    ];
    for op in all {
        assert_eq!(op.pre_source(false), None);
        if op == LinearOpCodes::StoreResult {
            assert_eq!(op.pre_source(true), Some(RELU));
        } else {
            assert_eq!(op.pre_source(true), None);
        }
    }
}

#[test]
fn assemble_of_an_empty_list_is_empty() {
    let linear = Linear { op_codes: Vec::new() };
    assert_eq!(linear.assemble(false), "");
    assert_eq!(linear.assemble(true), "");
}

#[test]
fn assemble_concatenates_the_texts_in_list_order() {
    let linear = Linear {
        op_codes: vec![
            fragment(LinearOpCodes::FunctionClose, "c"),
            fragment(LinearOpCodes::Uniform, "a"),
            fragment(LinearOpCodes::AddBias, ""),
            fragment(LinearOpCodes::Bindings, "b"),
        ],
    };
    assert_eq!(linear.assemble(false), "cab");
    assert_eq!(linear.assemble(true), "cab");
}

#[test]
fn assemble_puts_the_rectifier_before_every_store() {
    let linear = Linear {
        op_codes: vec![
            fragment(LinearOpCodes::StoreResult, "first;"),
            fragment(LinearOpCodes::AddBias, "bias;"),
            fragment(LinearOpCodes::StoreResult, "second;"),
        ],
    };
    assert_eq!(linear.assemble(false), "first;bias;second;");
    assert_eq!(
        linear.assemble(true),
        format!("{}first;bias;{}second;", RELU, RELU)
    );
}

#[test]
fn assemble_goes_by_the_op_code_and_not_by_the_text() {
    let linear = Linear {
        op_codes: vec![
            fragment(LinearOpCodes::AddBias, STORE_RESULT),
            fragment(LinearOpCodes::StoreResult, ADD_BIAS),
        ],
    };
    assert_eq!(
        linear.assemble(true),
        format!("{}{}{}", STORE_RESULT, RELU, ADD_BIAS)
    );
}

#[test]
fn every_fragment_is_padded_with_blanks() {
    for (_, text) in expected_fragments() {
        assert!(text.starts_with("        \n"));
        assert!(text.ends_with("\n            "));
    }
    for text in [
        THREAD_ID,
        INDEX_CHECK,
        OUTPUT_INDEX_CALCULATION,
        MATRIX_MULTIPLICATION_LOOP,
        INDEX_CHECK_CLOSE,
        FUNCTION_CLOSE,
    ] {
        assert!(!text.trim().is_empty());
    }
}
