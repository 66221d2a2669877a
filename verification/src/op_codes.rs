//! The op codes of the linear layer's kernel and the WGSL text that stands
//! behind each of them.
//!
//! The texts are an interface: whoever dispatches the kernel relies on the
//! binding slots, on the field order of `TensorDimensions` and on the
//! workgroup size that they spell out.

use vstd::prelude::*;

verus! {

/// The structural positions of the kernel, in the order in which they are
/// emitted. An op code says where a fragment belongs, not what it holds.
#[derive(Clone, Copy, Debug, PartialEq, Eq, Structural)]
pub enum LinearOpCodes {
    Uniform,
    Bindings,
    FunctionDefinition,
    ThreadID,
    IndexCheck,
    OutputIndexCalculation,
    ResultInstantiation,
    MatrixMultiplicationLoop,
    AddBias,
    StoreResult,
    IndexCheckClose,
    FunctionClose,
}

/// Declares `TensorDimensions`, the row and column counts of input, weights,
/// bias and output that are supplied when the kernel is dispatched.
pub const UNIFORM: &'static str = "        
            struct TensorDimensions {
                input_row_count: u32,
                input_column_count: u32,
                weights_row_count: u32,
                weights_column_count: u32,
                bias_row_count: u32,
                bias_column_count: u32,
                output_row_count: u32,
                output_column_count: u32,
            };
            ";

/// Binds the dimensions at slot 0 and the input, weights, bias and output
/// buffers at slots 1 to 4 of group 0.
pub const BINDINGS: &'static str = "        
            @group(0) @binding(0)
            var<uniform> dimensions: TensorDimensions;
            
            @group(0) @binding(1)
            var<storage, read> input: array<f32>;
            
            @group(0) @binding(2)
            var<storage, read> weights: array<f32>;
            
            @group(0) @binding(3)
            var<storage, read> bias: array<f32>;
            
            @group(0) @binding(4)
            var<storage, read_write> output: array<f32>;
            
            ";

/// Opens the entry point `main`, run in workgroups of 8 by 8 invocations.
pub const FUNCTION_DEFINITION: &'static str = "        
            const BLOCK_SIZE: u32 = 8u;
            @compute @workgroup_size(8, 8, 1) 
            fn main(
                @builtin(global_invocation_id) global_id: vec3<u32>,
                @builtin(workgroup_id) group_id: vec3<u32>, 
                @builtin(local_invocation_id) local_id: vec3<u32>
                ) {
            ";

/// Reads the output row and column of this invocation from its global id.
pub const THREAD_ID: &'static str = "        
                let output_row_index: u32 = global_id.x;
                let output_column_index: u32 = global_id.y;
            ";

/// Opens the guard that skips invocations outside the output.
pub const INDEX_CHECK: &'static str = "        
                if (output_row_index < dimensions.output_row_count && output_column_index < dimensions.output_column_count) {
            ";

/// Computes the flat offset of the output element.
pub const OUTPUT_INDEX_CALCULATION: &'static str = "        
                    let output_index: u32 = output_row_index * dimensions.output_column_count + output_column_index;
            ";

/// Declares the accumulator `result` and sets it to zero.
pub const RESULT_INSTANTIATION: &'static str = "        
                    var result: f32 = 0.0;
            ";

/// Accumulates the dot product of an input row and a weights column.
pub const MATRIX_MULTIPLICATION_LOOP: &'static str = "        
                    for (var inner_dimension: u32 = 0u; inner_dimension < dimensions.input_column_count; inner_dimension += 1u) {
                            result += input[output_row_index * dimensions.input_column_count + inner_dimension] * weights[inner_dimension * dimensions.weights_column_count + output_column_index];
                    }
            ";

/// Adds the bias at the output offset to the accumulator.
pub const ADD_BIAS: &'static str = "        
                    result = result + bias[output_index];
            ";

/// Writes the accumulator to the output.
pub const STORE_RESULT: &'static str = "        
                    output[output_index] = result;
            ";

/// Closes the guard opened by `INDEX_CHECK`.
pub const INDEX_CHECK_CLOSE: &'static str = "        
                }
            ";

/// Closes the entry point opened by `FUNCTION_DEFINITION`.
pub const FUNCTION_CLOSE: &'static str = "        
            }
            ";

/// The line that applies the rectifier to the accumulator. It names no
/// variable but `result`, so it needs no declaration or binding of its own.
pub const RELU: &'static str = "        result = max(0.0, result);\n";

impl LinearOpCodes {
    /// The text of the fragment that the kernel holds at this position.
    pub open spec fn text(self) -> Seq<char> {
        match self {
            LinearOpCodes::Uniform => UNIFORM@,
            LinearOpCodes::Bindings => BINDINGS@,
            LinearOpCodes::FunctionDefinition => FUNCTION_DEFINITION@,
            LinearOpCodes::ThreadID => THREAD_ID@,
            LinearOpCodes::IndexCheck => INDEX_CHECK@,
            LinearOpCodes::OutputIndexCalculation => OUTPUT_INDEX_CALCULATION@,
            LinearOpCodes::ResultInstantiation => RESULT_INSTANTIATION@,
            LinearOpCodes::MatrixMultiplicationLoop => MATRIX_MULTIPLICATION_LOOP@,
            LinearOpCodes::AddBias => ADD_BIAS@,
            LinearOpCodes::StoreResult => STORE_RESULT@,
            LinearOpCodes::IndexCheckClose => INDEX_CHECK_CLOSE@,
            LinearOpCodes::FunctionClose => FUNCTION_CLOSE@,
        }
    }

    /// The text that precedes the fragment at this position: the rectifier
    /// line before the store when the activation is fused, nothing otherwise.
    pub open spec fn pre_text(self, with_relu: bool) -> Seq<char> {
        if with_relu && self == LinearOpCodes::StoreResult {
            RELU@
        } else {
            Seq::empty()
        }
    }

    /// The line to emit before the fragment at this position, if any.
    pub fn pre_source(self, with_relu: bool) -> (line: Option<&'static str>)
        ensures
            match line {
                Some(l) => with_relu && self == LinearOpCodes::StoreResult && l@ == RELU@,
                None => !(with_relu && self == LinearOpCodes::StoreResult),
            },
    {
        match self {
            LinearOpCodes::StoreResult => if with_relu {
                Some(RELU)
            } else {
                None
            },
            _ => None,
        }
    }
}

} // verus!
