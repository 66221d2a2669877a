//! The fragment list of the linear layer's kernel, and the pass that turns a
//! fragment list into source text.

use crate::op_codes::{
    LinearOpCodes, ADD_BIAS, BINDINGS, FUNCTION_CLOSE, FUNCTION_DEFINITION, INDEX_CHECK,
    INDEX_CHECK_CLOSE, MATRIX_MULTIPLICATION_LOOP, OUTPUT_INDEX_CALCULATION, RELU,
    RESULT_INSTANTIATION, STORE_RESULT, THREAD_ID, UNIFORM,
};
use crate::laws::lemma_scopes_nest;
use crate::text::{occurs_at, well_nested};
use vstd::prelude::*;
use vstd::seq_lib::lemma_flatten_concat;
use vstd::string::StringExecFns;

verus! {

/// The kernel as an ordered list of tagged fragments. The order of the list
/// is the order of the emitted text.
pub struct Linear {
    pub op_codes: Vec<(LinearOpCodes, String)>,
}

impl View for Linear {
    type V = Seq<(LinearOpCodes, Seq<char>)>;

    open spec fn view(&self) -> Self::V {
        self.op_codes@.map_values(|fragment: (LinearOpCodes, String)| (fragment.0, fragment.1@))
    }
}

/// The op codes of the kernel in structural order: declarations, the entry
/// point, the guarded body, and the two closing scopes, innermost first.
pub open spec fn linear_op_codes() -> Seq<LinearOpCodes> {
    seq![
        LinearOpCodes::Uniform,
        LinearOpCodes::Bindings,
        LinearOpCodes::FunctionDefinition,
        LinearOpCodes::ThreadID,
        LinearOpCodes::IndexCheck,
        LinearOpCodes::OutputIndexCalculation,
        LinearOpCodes::ResultInstantiation,
        LinearOpCodes::MatrixMultiplicationLoop,
        LinearOpCodes::AddBias,
        LinearOpCodes::StoreResult,
        LinearOpCodes::IndexCheckClose,
        LinearOpCodes::FunctionClose,
    ]
}

/// The fragment list of the linear layer's kernel: each op code of
/// `linear_op_codes`, in that order, with its text.
pub open spec fn linear_fragments() -> Seq<(LinearOpCodes, Seq<char>)> {
    linear_op_codes().map_values(|op: LinearOpCodes| (op, op.text()))
}

/// What one fragment contributes to the source: its own text, preceded by
/// the text that the fusion flag puts before its op code.
pub open spec fn emitted(fragment: (LinearOpCodes, Seq<char>), with_relu: bool) -> Seq<char> {
    fragment.0.pre_text(with_relu) + fragment.1
}

/// The source text of a fragment list: the contributions of its fragments,
/// concatenated in order.
pub open spec fn assembled(fragments: Seq<(LinearOpCodes, Seq<char>)>, with_relu: bool) -> Seq<
    char,
> {
    fragments.map_values(|fragment: (LinearOpCodes, Seq<char>)| emitted(fragment, with_relu))
        .flatten()
}

/// The empty list has the empty source.
pub proof fn lemma_assembled_empty(with_relu: bool)
    ensures
        assembled(Seq::empty(), with_relu) == Seq::<char>::empty(),
{
}

/// Appending a fragment to a list appends its contribution to the source.
pub proof fn lemma_assembled_push(
    fragments: Seq<(LinearOpCodes, Seq<char>)>,
    fragment: (LinearOpCodes, Seq<char>),
    with_relu: bool,
)
    ensures
        assembled(fragments.push(fragment), with_relu) == assembled(fragments, with_relu)
            + emitted(fragment, with_relu),
{
    let contribution = |fragment: (LinearOpCodes, Seq<char>)| emitted(fragment, with_relu);
    assert(fragments.push(fragment).map_values(contribution) =~= fragments.map_values(
        contribution,
    ).push(contribution(fragment)));
    fragments.map_values(contribution).lemma_flatten_push(contribution(fragment));
}

/// The source of two lists put together is the source of the first followed
/// by the source of the second.
pub proof fn lemma_assembled_concat(
    left: Seq<(LinearOpCodes, Seq<char>)>,
    right: Seq<(LinearOpCodes, Seq<char>)>,
    with_relu: bool,
)
    ensures
        assembled(left + right, with_relu) == assembled(left, with_relu) + assembled(
            right,
            with_relu,
        ),
{
    let contribution = |fragment: (LinearOpCodes, Seq<char>)| emitted(fragment, with_relu);
    assert((left + right).map_values(contribution) =~= left.map_values(contribution)
        + right.map_values(contribution));
    lemma_flatten_concat(left.map_values(contribution), right.map_values(contribution));
}

/// The source of a list splits at any index into the source of the fragments
/// before it, the contribution of the fragment at it, and the source of the
/// fragments behind it.
pub proof fn lemma_assembled_split(
    fragments: Seq<(LinearOpCodes, Seq<char>)>,
    with_relu: bool,
    index: int,
)
    requires
        0 <= index < fragments.len(),
    ensures
        assembled(fragments, with_relu) == assembled(fragments.take(index), with_relu) + emitted(
            fragments[index],
            with_relu,
        ) + assembled(fragments.skip(index + 1), with_relu),
{
    assert(fragments =~= fragments.take(index).push(fragments[index]) + fragments.skip(index + 1));
    lemma_assembled_concat(
        fragments.take(index).push(fragments[index]),
        fragments.skip(index + 1),
        with_relu,
    );
    lemma_assembled_push(fragments.take(index), fragments[index], with_relu);
}

/// The offset in the source at which the text of the fragment at `index`
/// begins: behind all that the fragments before it contribute, and behind
/// what the fusion flag puts before its own op code.
pub open spec fn fragment_offset(
    fragments: Seq<(LinearOpCodes, Seq<char>)>,
    with_relu: bool,
    index: int,
) -> nat {
    assembled(fragments.take(index), with_relu).len() + fragments[index].0.pre_text(
        with_relu,
    ).len()
}

/// Every fragment's text stands in the source, at its offset, directly behind
/// what the fusion flag puts before it.
pub proof fn lemma_fragment_placed(
    fragments: Seq<(LinearOpCodes, Seq<char>)>,
    with_relu: bool,
    index: int,
)
    requires
        0 <= index < fragments.len(),
    ensures
        occurs_at(
            assembled(fragments, with_relu),
            fragments[index].1,
            fragment_offset(fragments, with_relu, index) as int,
        ),
        occurs_at(
            assembled(fragments, with_relu),
            fragments[index].0.pre_text(with_relu),
            fragment_offset(fragments, with_relu, index) - fragments[index].0.pre_text(
                with_relu,
            ).len(),
        ),
{
    lemma_assembled_split(fragments, with_relu, index);
    let source = assembled(fragments, with_relu);
    let before = assembled(fragments.take(index), with_relu).len() as int;
    let pre = fragments[index].0.pre_text(with_relu);
    let text = fragments[index].1;
    assert(source.subrange(before + pre.len(), before + pre.len() + text.len()) =~= text);
    assert(source.subrange(before, before + pre.len()) =~= pre);
}

/// A fragment's text ends in the source before the text of any later
/// fragment begins.
pub proof fn lemma_fragments_in_order(
    fragments: Seq<(LinearOpCodes, Seq<char>)>,
    with_relu: bool,
    first: int,
    second: int,
)
    requires
        0 <= first < second < fragments.len(),
    ensures
        fragment_offset(fragments, with_relu, first) + fragments[first].1.len() <= fragment_offset(
            fragments,
            with_relu,
            second,
        ),
{
    let upto = fragments.take(second);
    assert(upto.take(first) =~= fragments.take(first));
    lemma_assembled_split(upto, with_relu, first);
}

/// Whether no fragment of the list is a store.
pub open spec fn store_free(fragments: Seq<(LinearOpCodes, Seq<char>)>) -> bool {
    forall|i: int|
        0 <= i < fragments.len() ==> (#[trigger] fragments[i]).0 != LinearOpCodes::StoreResult
}

/// Without the fusion flag the source is the texts of the fragments and
/// nothing else.
pub proof fn lemma_assembled_plain(fragments: Seq<(LinearOpCodes, Seq<char>)>)
    ensures
        assembled(fragments, false) == fragments.map_values(
            |fragment: (LinearOpCodes, Seq<char>)| fragment.1,
        ).flatten(),
{
    assert forall|i: int| 0 <= i < fragments.len() implies emitted(
        #[trigger] fragments[i],
        false,
    ) == fragments[i].1 by {
        assert(emitted(fragments[i], false) =~= fragments[i].1);
    }
    assert(fragments.map_values(|fragment: (LinearOpCodes, Seq<char>)| emitted(fragment, false))
        =~= fragments.map_values(|fragment: (LinearOpCodes, Seq<char>)| fragment.1));
}

/// The fusion flag changes nothing in the source of a list without a store.
pub proof fn lemma_assembled_store_free(fragments: Seq<(LinearOpCodes, Seq<char>)>)
    requires
        store_free(fragments),
    ensures
        assembled(fragments, true) == assembled(fragments, false),
{
    assert(fragments.map_values(|fragment: (LinearOpCodes, Seq<char>)| emitted(fragment, true))
        =~= fragments.map_values(|fragment: (LinearOpCodes, Seq<char>)| emitted(fragment, false)));
}

/// In a list with one store the fusion flag inserts the rectifier line
/// directly before the store's text, and changes nothing else.
pub proof fn lemma_fused_before_store(fragments: Seq<(LinearOpCodes, Seq<char>)>, store: int)
    requires
        0 <= store < fragments.len(),
        fragments[store].0 == LinearOpCodes::StoreResult,
        store_free(fragments.take(store)),
        store_free(fragments.skip(store + 1)),
    ensures
        fragment_offset(fragments, false, store) == assembled(fragments.take(store), false).len(),
        assembled(fragments, false) == assembled(fragments.take(store), false)
            + fragments[store].1 + assembled(fragments.skip(store + 1), false),
        assembled(fragments, true) == assembled(fragments.take(store), false) + RELU@
            + fragments[store].1 + assembled(fragments.skip(store + 1), false),
{
    lemma_assembled_split(fragments, false, store);
    lemma_assembled_split(fragments, true, store);
    lemma_assembled_store_free(fragments.take(store));
    lemma_assembled_store_free(fragments.skip(store + 1));
    assert(emitted(fragments[store], false) =~= fragments[store].1);
    assert(assembled(fragments, true) =~= assembled(fragments.take(store), false) + RELU@
        + fragments[store].1 + assembled(fragments.skip(store + 1), false));
}

impl Linear {
    /// Whether the source of the list nests its scopes properly, with the
    /// rectifier and without it. Nothing but the order of the list and the
    /// braces in its texts decides this: a list is free to hold any
    /// fragments, and `assemble` emits what it holds.
    pub open spec fn well_formed(&self) -> bool {
        &&& well_nested(assembled(self@, false))
        &&& well_nested(assembled(self@, true))
    }

    /// Builds the fragment list of the linear layer's kernel.
    pub fn new() -> (linear: Linear)
        ensures
            linear@ == linear_fragments(),
            linear.well_formed(),
    {
        let mut op_codes: Vec<(LinearOpCodes, String)> = Vec::new();
        op_codes.push((LinearOpCodes::Uniform, UNIFORM.to_string()));
        op_codes.push((LinearOpCodes::Bindings, BINDINGS.to_string()));
        op_codes.push((LinearOpCodes::FunctionDefinition, FUNCTION_DEFINITION.to_string()));
        op_codes.push((LinearOpCodes::ThreadID, THREAD_ID.to_string()));
        op_codes.push((LinearOpCodes::IndexCheck, INDEX_CHECK.to_string()));
        op_codes.push(
            (LinearOpCodes::OutputIndexCalculation, OUTPUT_INDEX_CALCULATION.to_string()),
        );
        op_codes.push((LinearOpCodes::ResultInstantiation, RESULT_INSTANTIATION.to_string()));
        op_codes.push(
            (LinearOpCodes::MatrixMultiplicationLoop, MATRIX_MULTIPLICATION_LOOP.to_string()),
        );
        op_codes.push((LinearOpCodes::AddBias, ADD_BIAS.to_string()));
        op_codes.push((LinearOpCodes::StoreResult, STORE_RESULT.to_string()));
        op_codes.push((LinearOpCodes::IndexCheckClose, INDEX_CHECK_CLOSE.to_string()));
        op_codes.push((LinearOpCodes::FunctionClose, FUNCTION_CLOSE.to_string()));
        let linear = Linear { op_codes };
        proof {
            assert(linear@ =~= linear_fragments());
            lemma_scopes_nest(false);
            lemma_scopes_nest(true);
        }
        linear
    }

    /// Emits the source text of the list: each fragment's text in order, the
    /// rectifier line before every store when `with_relu` is set.
    pub fn assemble(&self, with_relu: bool) -> (source: String)
        ensures
            source@ == assembled(self@, with_relu),
    {
        let mut string_builder = String::new();
        let mut index: usize = 0;
        while index < self.op_codes.len()
            invariant
                index <= self.op_codes.len(),
                string_builder@ == assembled(self@.take(index as int), with_relu),
            decreases self.op_codes.len() - index,
        {
            let op_code = &self.op_codes[index];
            match op_code.0.pre_source(with_relu) {
                Some(line) => string_builder.append(line),
                None => {},
            }
            string_builder.append(op_code.1.as_str());
            proof {
                let emitted_so_far = self@.take(index as int);
                assert(self@.take(index + 1) =~= emitted_so_far.push(self@[index as int]));
                lemma_assembled_push(emitted_so_far, self@[index as int], with_relu);
            }
            index += 1;
        }
        assert(self@.take(index as int) =~= self@);
        string_builder
    }
}

} // verus!
