//! What the fragment texts hold, character by character: their lengths,
//! the blanks at their ends, their braces. Each fact is read off the literal
//! itself; the long literals are counted through in stages.

use crate::op_codes::{
    LinearOpCodes, ADD_BIAS, BINDINGS, FUNCTION_CLOSE, FUNCTION_DEFINITION, INDEX_CHECK,
    INDEX_CHECK_CLOSE, MATRIX_MULTIPLICATION_LOOP, OUTPUT_INDEX_CALCULATION, RELU,
    RESULT_INSTANTIATION, STORE_RESULT, THREAD_ID, UNIFORM,
};
use crate::text::{
    count_char, count_char_before, count_pair, count_pair_before, lemma_stays_above_by_middle,
    lemma_stays_above_closes, stays_above,
};
use vstd::prelude::*;

verus! {

/// Whether `text` holds `c` at `at`, as a number.
spec fn char_at(text: Seq<char>, c: char, at: int) -> nat {
    if text[at] == c {
        1
    } else {
        0
    }
}

/// Whether `text` holds `first` at `at` and `second` behind it, as a number.
spec fn pair_at(text: Seq<char>, first: char, second: char, at: int) -> nat {
    if text[at] == first && text[at + 1] == second {
        1
    } else {
        0
    }
}

/// `count_char_before`, taken eight offsets at a step, so that a long
/// literal is counted through in few steps.
spec fn count_char_by_eights(text: Seq<char>, c: char, end: int) -> nat
    decreases end,
{
    if end < 8 {
        count_char_before(text, c, end)
    } else {
        count_char_by_eights(text, c, end - 8) + char_at(text, c, end - 8) + char_at(
            text,
            c,
            end - 7,
        ) + char_at(text, c, end - 6) + char_at(text, c, end - 5) + char_at(text, c, end - 4)
            + char_at(text, c, end - 3) + char_at(text, c, end - 2) + char_at(text, c, end - 1)
    }
}

proof fn lemma_count_char_by_eights(text: Seq<char>, c: char, end: int)
    ensures
        count_char_by_eights(text, c, end) == count_char_before(text, c, end),
    decreases end,
{
    if end >= 8 {
        lemma_count_char_by_eights(text, c, end - 8);
        reveal_with_fuel(count_char_before, 9);
    }
}

/// `count_pair_before`, taken eight offsets at a step.
spec fn count_pair_by_eights(text: Seq<char>, first: char, second: char, end: int) -> nat
    decreases end,
{
    if end < 8 {
        count_pair_before(text, first, second, end)
    } else {
        count_pair_by_eights(text, first, second, end - 8) + pair_at(text, first, second, end - 8)
            + pair_at(text, first, second, end - 7) + pair_at(text, first, second, end - 6)
            + pair_at(text, first, second, end - 5) + pair_at(text, first, second, end - 4)
            + pair_at(text, first, second, end - 3) + pair_at(text, first, second, end - 2)
            + pair_at(text, first, second, end - 1)
    }
}

proof fn lemma_count_pair_by_eights(text: Seq<char>, first: char, second: char, end: int)
    ensures
        count_pair_by_eights(text, first, second, end) == count_pair_before(
            text,
            first,
            second,
            end,
        ),
    decreases end,
{
    if end >= 8 {
        lemma_count_pair_by_eights(text, first, second, end - 8);
        reveal_with_fuel(count_pair_before, 9);
    }
}

/// What the laws of the kernel tell of a fragment's text.
pub struct Tally {
    /// Its length.
    pub len: nat,
    /// The scopes it opens.
    pub opens: nat,
    /// The scopes it closes.
    pub closes: nat,
    /// How many scopes deep it goes below its beginning.
    pub dips: nat,
}

/// Whether `text` holds what `tally` tells, begins and ends with a blank,
/// and nowhere reads `ax`, which the rectifier line does.
pub open spec fn fragment_holds(text: Seq<char>, tally: Tally) -> bool {
    &&& text.len() == tally.len
    &&& tally.len > 0
    &&& text[0] == ' '
    &&& text.last() == ' '
    &&& count_char(text, '{') == tally.opens
    &&& count_char(text, '}') == tally.closes
    &&& stays_above(text, -(tally.dips as int))
    &&& count_pair(text, 'a', 'x') == 0
}

/// What the text of each op code holds.
pub open spec fn tally(op: LinearOpCodes) -> Tally {
    match op {
        LinearOpCodes::Uniform => Tally { len: 394, opens: 1, closes: 1, dips: 0 },
        LinearOpCodes::Bindings => Tally { len: 519, opens: 0, closes: 0, dips: 0 },
        LinearOpCodes::FunctionDefinition => Tally { len: 345, opens: 1, closes: 0, dips: 0 },
        LinearOpCodes::ThreadID => Tally { len: 138, opens: 0, closes: 0, dips: 0 },
        LinearOpCodes::IndexCheck => Tally { len: 147, opens: 1, closes: 0, dips: 0 },
        LinearOpCodes::OutputIndexCalculation => Tally { len: 138, opens: 0, closes: 0, dips: 0 },
        LinearOpCodes::ResultInstantiation => Tally { len: 64, opens: 0, closes: 0, dips: 0 },
        LinearOpCodes::MatrixMultiplicationLoop => Tally { len: 369, opens: 1, closes: 1, dips: 0 },
        LinearOpCodes::AddBias => Tally { len: 79, opens: 0, closes: 0, dips: 0 },
        LinearOpCodes::StoreResult => Tally { len: 72, opens: 0, closes: 0, dips: 0 },
        LinearOpCodes::IndexCheckClose => Tally { len: 39, opens: 0, closes: 1, dips: 1 },
        LinearOpCodes::FunctionClose => Tally { len: 35, opens: 0, closes: 1, dips: 1 },
    }
}

/// What `UNIFORM` holds.
proof fn lemma_uniform()
    ensures
        fragment_holds(UNIFORM@, tally(LinearOpCodes::Uniform)),
{
    let text = UNIFORM@;
    reveal_strlit("        
            struct TensorDimensions {
                input_row_count: u32,
                input_column_count: u32,
                weights_row_count: u32,
                weights_column_count: u32,
                bias_row_count: u32,
                bias_column_count: u32,
                output_row_count: u32,
                output_column_count: u32,
            };
            ");
    assert(count_char(text, '{') == 1 && count_char_before(text, '{', 138) == 1) by {
        reveal_with_fuel(count_char_by_eights, 18);
        reveal_with_fuel(count_char_before, 9);
        assert(count_char_by_eights(text, '{', 10) == 0);
        assert(count_char_by_eights(text, '{', 138) == 1);
        assert(count_char_by_eights(text, '{', 266) == 1);
        lemma_count_char_by_eights(text, '{', 138);
        lemma_count_char_by_eights(text, '{', 394);
    }
    assert(count_char(text, '}') == 1 && count_char_before(text, '}', 138) == 0) by {
        reveal_with_fuel(count_char_by_eights, 18);
        reveal_with_fuel(count_char_before, 9);
        assert(count_char_by_eights(text, '}', 10) == 0);
        assert(count_char_by_eights(text, '}', 138) == 0);
        assert(count_char_by_eights(text, '}', 266) == 0);
        lemma_count_char_by_eights(text, '}', 138);
        lemma_count_char_by_eights(text, '}', 394);
    }
    assert(count_pair(text, 'a', 'x') == 0) by {
        reveal_with_fuel(count_pair_by_eights, 18);
        reveal_with_fuel(count_pair_before, 9);
        assert(count_pair_by_eights(text, 'a', 'x', 9) == 0);
        assert(count_pair_by_eights(text, 'a', 'x', 137) == 0);
        assert(count_pair_by_eights(text, 'a', 'x', 265) == 0);
        lemma_count_pair_by_eights(text, 'a', 'x', 393);
    }
    lemma_stays_above_by_middle(text, 138);
}

/// What `BINDINGS` holds.
proof fn lemma_bindings()
    ensures
        fragment_holds(BINDINGS@, tally(LinearOpCodes::Bindings)),
{
    let text = BINDINGS@;
    reveal_strlit("        
            @group(0) @binding(0)
            var<uniform> dimensions: TensorDimensions;
            
            @group(0) @binding(1)
            var<storage, read> input: array<f32>;
            
            @group(0) @binding(2)
            var<storage, read> weights: array<f32>;
            
            @group(0) @binding(3)
            var<storage, read> bias: array<f32>;
            
            @group(0) @binding(4)
            var<storage, read_write> output: array<f32>;
            
            ");
    assert(count_char(text, '{') == 0) by {
        reveal_with_fuel(count_char_by_eights, 18);
        reveal_with_fuel(count_char_before, 9);
        assert(count_char_by_eights(text, '{', 7) == 0);
        assert(count_char_by_eights(text, '{', 135) == 0);
        assert(count_char_by_eights(text, '{', 263) == 0);
        assert(count_char_by_eights(text, '{', 391) == 0);
        lemma_count_char_by_eights(text, '{', 519);
    }
    assert(count_char(text, '}') == 0) by {
        reveal_with_fuel(count_char_by_eights, 18);
        reveal_with_fuel(count_char_before, 9);
        assert(count_char_by_eights(text, '}', 7) == 0);
        assert(count_char_by_eights(text, '}', 135) == 0);
        assert(count_char_by_eights(text, '}', 263) == 0);
        assert(count_char_by_eights(text, '}', 391) == 0);
        lemma_count_char_by_eights(text, '}', 519);
    }
    assert(count_pair(text, 'a', 'x') == 0) by {
        reveal_with_fuel(count_pair_by_eights, 18);
        reveal_with_fuel(count_pair_before, 9);
        assert(count_pair_by_eights(text, 'a', 'x', 6) == 0);
        assert(count_pair_by_eights(text, 'a', 'x', 134) == 0);
        assert(count_pair_by_eights(text, 'a', 'x', 262) == 0);
        assert(count_pair_by_eights(text, 'a', 'x', 390) == 0);
        lemma_count_pair_by_eights(text, 'a', 'x', 518);
    }
    lemma_stays_above_closes(text);
}

/// What `FUNCTION_DEFINITION` holds.
proof fn lemma_function_definition()
    ensures
        fragment_holds(FUNCTION_DEFINITION@, tally(LinearOpCodes::FunctionDefinition)),
{
    let text = FUNCTION_DEFINITION@;
    reveal_strlit("        
            const BLOCK_SIZE: u32 = 8u;
            @compute @workgroup_size(8, 8, 1) 
            fn main(
                @builtin(global_invocation_id) global_id: vec3<u32>,
                @builtin(workgroup_id) group_id: vec3<u32>, 
                @builtin(local_invocation_id) local_id: vec3<u32>
                ) {
            ");
    assert(count_char(text, '{') == 1) by {
        reveal_with_fuel(count_char_by_eights, 18);
        reveal_with_fuel(count_char_before, 9);
        assert(count_char_by_eights(text, '{', 89) == 0);
        assert(count_char_by_eights(text, '{', 217) == 0);
        lemma_count_char_by_eights(text, '{', 345);
    }
    assert(count_char(text, '}') == 0) by {
        reveal_with_fuel(count_char_by_eights, 18);
        reveal_with_fuel(count_char_before, 9);
        assert(count_char_by_eights(text, '}', 89) == 0);
        assert(count_char_by_eights(text, '}', 217) == 0);
        lemma_count_char_by_eights(text, '}', 345);
    }
    assert(count_pair(text, 'a', 'x') == 0) by {
        reveal_with_fuel(count_pair_by_eights, 18);
        reveal_with_fuel(count_pair_before, 9);
        assert(count_pair_by_eights(text, 'a', 'x', 88) == 0);
        assert(count_pair_by_eights(text, 'a', 'x', 216) == 0);
        lemma_count_pair_by_eights(text, 'a', 'x', 344);
    }
    lemma_stays_above_closes(text);
}

/// What `THREAD_ID` holds.
proof fn lemma_thread_id()
    ensures
        fragment_holds(THREAD_ID@, tally(LinearOpCodes::ThreadID)),
{
    let text = THREAD_ID@;
    reveal_strlit("        
                let output_row_index: u32 = global_id.x;
                let output_column_index: u32 = global_id.y;
            ");
    assert(count_char(text, '{') == 0) by {
        reveal_with_fuel(count_char_by_eights, 18);
        reveal_with_fuel(count_char_before, 9);
        assert(count_char_by_eights(text, '{', 10) == 0);
        lemma_count_char_by_eights(text, '{', 138);
    }
    assert(count_char(text, '}') == 0) by {
        reveal_with_fuel(count_char_by_eights, 18);
        reveal_with_fuel(count_char_before, 9);
        assert(count_char_by_eights(text, '}', 10) == 0);
        lemma_count_char_by_eights(text, '}', 138);
    }
    assert(count_pair(text, 'a', 'x') == 0) by {
        reveal_with_fuel(count_pair_by_eights, 18);
        reveal_with_fuel(count_pair_before, 9);
        assert(count_pair_by_eights(text, 'a', 'x', 9) == 0);
        lemma_count_pair_by_eights(text, 'a', 'x', 137);
    }
    lemma_stays_above_closes(text);
}

/// What `INDEX_CHECK` holds.
proof fn lemma_index_check()
    ensures
        fragment_holds(INDEX_CHECK@, tally(LinearOpCodes::IndexCheck)),
{
    let text = INDEX_CHECK@;
    reveal_strlit("        
                if (output_row_index < dimensions.output_row_count && output_column_index < dimensions.output_column_count) {
            ");
    assert(count_char(text, '{') == 1) by {
        reveal_with_fuel(count_char_by_eights, 18);
        reveal_with_fuel(count_char_before, 9);
        assert(count_char_by_eights(text, '{', 19) == 0);
        lemma_count_char_by_eights(text, '{', 147);
    }
    assert(count_char(text, '}') == 0) by {
        reveal_with_fuel(count_char_by_eights, 18);
        reveal_with_fuel(count_char_before, 9);
        assert(count_char_by_eights(text, '}', 19) == 0);
        lemma_count_char_by_eights(text, '}', 147);
    }
    assert(count_pair(text, 'a', 'x') == 0) by {
        reveal_with_fuel(count_pair_by_eights, 18);
        reveal_with_fuel(count_pair_before, 9);
        assert(count_pair_by_eights(text, 'a', 'x', 18) == 0);
        lemma_count_pair_by_eights(text, 'a', 'x', 146);
    }
    lemma_stays_above_closes(text);
}

/// What `OUTPUT_INDEX_CALCULATION` holds.
proof fn lemma_output_index_calculation()
    ensures
        fragment_holds(OUTPUT_INDEX_CALCULATION@, tally(LinearOpCodes::OutputIndexCalculation)),
{
    let text = OUTPUT_INDEX_CALCULATION@;
    reveal_strlit("        
                    let output_index: u32 = output_row_index * dimensions.output_column_count + output_column_index;
            ");
    assert(count_char(text, '{') == 0) by {
        reveal_with_fuel(count_char_by_eights, 18);
        reveal_with_fuel(count_char_before, 9);
        assert(count_char_by_eights(text, '{', 10) == 0);
        lemma_count_char_by_eights(text, '{', 138);
    }
    assert(count_char(text, '}') == 0) by {
        reveal_with_fuel(count_char_by_eights, 18);
        reveal_with_fuel(count_char_before, 9);
        assert(count_char_by_eights(text, '}', 10) == 0);
        lemma_count_char_by_eights(text, '}', 138);
    }
    assert(count_pair(text, 'a', 'x') == 0) by {
        reveal_with_fuel(count_pair_by_eights, 18);
        reveal_with_fuel(count_pair_before, 9);
        assert(count_pair_by_eights(text, 'a', 'x', 9) == 0);
        lemma_count_pair_by_eights(text, 'a', 'x', 137);
    }
    lemma_stays_above_closes(text);
}

/// What `RESULT_INSTANTIATION` holds.
proof fn lemma_result_instantiation()
    ensures
        fragment_holds(RESULT_INSTANTIATION@, tally(LinearOpCodes::ResultInstantiation)),
{
    let text = RESULT_INSTANTIATION@;
    reveal_strlit("        
                    var result: f32 = 0.0;
            ");
    assert(count_char(text, '{') == 0) by {
        reveal_with_fuel(count_char_by_eights, 10);
        reveal_with_fuel(count_char_before, 9);
        lemma_count_char_by_eights(text, '{', 64);
    }
    assert(count_char(text, '}') == 0) by {
        reveal_with_fuel(count_char_by_eights, 10);
        reveal_with_fuel(count_char_before, 9);
        lemma_count_char_by_eights(text, '}', 64);
    }
    assert(count_pair(text, 'a', 'x') == 0) by {
        reveal_with_fuel(count_pair_by_eights, 9);
        reveal_with_fuel(count_pair_before, 9);
        lemma_count_pair_by_eights(text, 'a', 'x', 63);
    }
    lemma_stays_above_closes(text);
}

/// What `MATRIX_MULTIPLICATION_LOOP` holds.
proof fn lemma_matrix_multiplication_loop()
    ensures
        fragment_holds(MATRIX_MULTIPLICATION_LOOP@, tally(LinearOpCodes::MatrixMultiplicationLoop)),
{
    let text = MATRIX_MULTIPLICATION_LOOP@;
    reveal_strlit("        
                    for (var inner_dimension: u32 = 0u; inner_dimension < dimensions.input_column_count; inner_dimension += 1u) {
                            result += input[output_row_index * dimensions.input_column_count + inner_dimension] * weights[inner_dimension * dimensions.weights_column_count + output_column_index];
                    }
            ");
    assert(count_char(text, '{') == 1 && count_char_before(text, '{', 241) == 1) by {
        reveal_with_fuel(count_char_by_eights, 18);
        reveal_with_fuel(count_char_before, 9);
        assert(count_char_by_eights(text, '{', 113) == 0);
        assert(count_char_by_eights(text, '{', 241) == 1);
        lemma_count_char_by_eights(text, '{', 241);
        lemma_count_char_by_eights(text, '{', 369);
    }
    assert(count_char(text, '}') == 1 && count_char_before(text, '}', 241) == 0) by {
        reveal_with_fuel(count_char_by_eights, 18);
        reveal_with_fuel(count_char_before, 9);
        assert(count_char_by_eights(text, '}', 113) == 0);
        assert(count_char_by_eights(text, '}', 241) == 0);
        lemma_count_char_by_eights(text, '}', 241);
        lemma_count_char_by_eights(text, '}', 369);
    }
    assert(count_pair(text, 'a', 'x') == 0) by {
        reveal_with_fuel(count_pair_by_eights, 18);
        reveal_with_fuel(count_pair_before, 9);
        assert(count_pair_by_eights(text, 'a', 'x', 112) == 0);
        assert(count_pair_by_eights(text, 'a', 'x', 240) == 0);
        lemma_count_pair_by_eights(text, 'a', 'x', 368);
    }
    lemma_stays_above_by_middle(text, 241);
}

/// What `ADD_BIAS` holds.
proof fn lemma_add_bias()
    ensures
        fragment_holds(ADD_BIAS@, tally(LinearOpCodes::AddBias)),
{
    let text = ADD_BIAS@;
    reveal_strlit("        
                    result = result + bias[output_index];
            ");
    assert(count_char(text, '{') == 0) by {
        reveal_with_fuel(count_char_by_eights, 11);
        reveal_with_fuel(count_char_before, 9);
        lemma_count_char_by_eights(text, '{', 79);
    }
    assert(count_char(text, '}') == 0) by {
        reveal_with_fuel(count_char_by_eights, 11);
        reveal_with_fuel(count_char_before, 9);
        lemma_count_char_by_eights(text, '}', 79);
    }
    assert(count_pair(text, 'a', 'x') == 0) by {
        reveal_with_fuel(count_pair_by_eights, 11);
        reveal_with_fuel(count_pair_before, 9);
        lemma_count_pair_by_eights(text, 'a', 'x', 78);
    }
    lemma_stays_above_closes(text);
}

/// What `STORE_RESULT` holds.
proof fn lemma_store_result()
    ensures
        fragment_holds(STORE_RESULT@, tally(LinearOpCodes::StoreResult)),
{
    let text = STORE_RESULT@;
    reveal_strlit("        
                    output[output_index] = result;
            ");
    assert(count_char(text, '{') == 0) by {
        reveal_with_fuel(count_char_by_eights, 11);
        reveal_with_fuel(count_char_before, 9);
        lemma_count_char_by_eights(text, '{', 72);
    }
    assert(count_char(text, '}') == 0) by {
        reveal_with_fuel(count_char_by_eights, 11);
        reveal_with_fuel(count_char_before, 9);
        lemma_count_char_by_eights(text, '}', 72);
    }
    assert(count_pair(text, 'a', 'x') == 0) by {
        reveal_with_fuel(count_pair_by_eights, 10);
        reveal_with_fuel(count_pair_before, 9);
        lemma_count_pair_by_eights(text, 'a', 'x', 71);
    }
    lemma_stays_above_closes(text);
}

/// What `INDEX_CHECK_CLOSE` holds.
proof fn lemma_index_check_close()
    ensures
        fragment_holds(INDEX_CHECK_CLOSE@, tally(LinearOpCodes::IndexCheckClose)),
{
    let text = INDEX_CHECK_CLOSE@;
    reveal_strlit("        
                }
            ");
    assert(count_char(text, '{') == 0) by {
        reveal_with_fuel(count_char_by_eights, 6);
        reveal_with_fuel(count_char_before, 9);
        lemma_count_char_by_eights(text, '{', 39);
    }
    assert(count_char(text, '}') == 1) by {
        reveal_with_fuel(count_char_by_eights, 6);
        reveal_with_fuel(count_char_before, 9);
        lemma_count_char_by_eights(text, '}', 39);
    }
    assert(count_pair(text, 'a', 'x') == 0) by {
        reveal_with_fuel(count_pair_by_eights, 6);
        reveal_with_fuel(count_pair_before, 9);
        lemma_count_pair_by_eights(text, 'a', 'x', 38);
    }
    lemma_stays_above_closes(text);
}

/// What `FUNCTION_CLOSE` holds.
proof fn lemma_function_close()
    ensures
        fragment_holds(FUNCTION_CLOSE@, tally(LinearOpCodes::FunctionClose)),
{
    let text = FUNCTION_CLOSE@;
    reveal_strlit("        
            }
            ");
    assert(count_char(text, '{') == 0) by {
        reveal_with_fuel(count_char_by_eights, 6);
        reveal_with_fuel(count_char_before, 9);
        lemma_count_char_by_eights(text, '{', 35);
    }
    assert(count_char(text, '}') == 1) by {
        reveal_with_fuel(count_char_by_eights, 6);
        reveal_with_fuel(count_char_before, 9);
        lemma_count_char_by_eights(text, '}', 35);
    }
    assert(count_pair(text, 'a', 'x') == 0) by {
        reveal_with_fuel(count_pair_by_eights, 6);
        reveal_with_fuel(count_pair_before, 9);
        lemma_count_pair_by_eights(text, 'a', 'x', 34);
    }
    lemma_stays_above_closes(text);
}

/// What `RELU` holds: no brace, a blank at its beginning, and `ax` once, at
/// offset 18.
pub proof fn lemma_relu()
    ensures
        RELU@.len() == 35,
        RELU@[0] == ' ',
        RELU@[18] == 'a',
        RELU@[19] == 'x',
        count_char(RELU@, '{') == 0,
        count_char(RELU@, '}') == 0,
        stays_above(RELU@, 0),
        count_pair(RELU@, 'a', 'x') == 1,
{
    let text = RELU@;
    reveal_strlit("        result = max(0.0, result);\n");
    assert(count_char(text, '{') == 0) by {
        reveal_with_fuel(count_char_by_eights, 6);
        reveal_with_fuel(count_char_before, 9);
        lemma_count_char_by_eights(text, '{', 35);
    }
    assert(count_char(text, '}') == 0) by {
        reveal_with_fuel(count_char_by_eights, 6);
        reveal_with_fuel(count_char_before, 9);
        lemma_count_char_by_eights(text, '}', 35);
    }
    assert(count_pair(text, 'a', 'x') == 1) by {
        reveal_with_fuel(count_pair_by_eights, 6);
        reveal_with_fuel(count_pair_before, 9);
        lemma_count_pair_by_eights(text, 'a', 'x', 34);
    }
    lemma_stays_above_closes(text);
}

/// The text of every op code holds what `tally` tells of it.
pub proof fn lemma_fragment_holds(op: LinearOpCodes)
    ensures
        fragment_holds(op.text(), tally(op)),
{
    match op {
        LinearOpCodes::Uniform => lemma_uniform(),
        LinearOpCodes::Bindings => lemma_bindings(),
        LinearOpCodes::FunctionDefinition => lemma_function_definition(),
        LinearOpCodes::ThreadID => lemma_thread_id(),
        LinearOpCodes::IndexCheck => lemma_index_check(),
        LinearOpCodes::OutputIndexCalculation => lemma_output_index_calculation(),
        LinearOpCodes::ResultInstantiation => lemma_result_instantiation(),
        LinearOpCodes::MatrixMultiplicationLoop => lemma_matrix_multiplication_loop(),
        LinearOpCodes::AddBias => lemma_add_bias(),
        LinearOpCodes::StoreResult => lemma_store_result(),
        LinearOpCodes::IndexCheckClose => lemma_index_check_close(),
        LinearOpCodes::FunctionClose => lemma_function_close(),
    }
}

} // verus!
