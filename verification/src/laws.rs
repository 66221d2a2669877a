//! What holds of the source of the linear layer's kernel, with and without
//! the rectifier.

use crate::fragment_facts::{lemma_fragment_holds, lemma_relu, tally};
use crate::linear::{
    assembled, emitted, fragment_offset, lemma_assembled_empty, lemma_assembled_push,
    lemma_assembled_split, lemma_assembled_store_free,
    lemma_fragment_placed, lemma_fragments_in_order, lemma_fused_before_store, linear_fragments,
    linear_op_codes, Linear,
};
use crate::op_codes::{
    LinearOpCodes, ADD_BIAS, BINDINGS, FUNCTION_CLOSE, FUNCTION_DEFINITION, INDEX_CHECK,
    INDEX_CHECK_CLOSE, MATRIX_MULTIPLICATION_LOOP, OUTPUT_INDEX_CALCULATION, RELU,
    RESULT_INSTANTIATION, STORE_RESULT, THREAD_ID, UNIFORM,
};
use crate::runner::linear_shader_text;
use crate::text::{
    count_char, count_pair, lemma_count_char_concat, lemma_count_pair_concat,
    lemma_count_pair_unique, lemma_occurrence_holds_pair, lemma_scope_depth_concat,
    lemma_scope_depth_inserted, lemma_stays_above_concat, lemma_well_nested_inserted, occurs_at,
    scope_depth, stays_above, well_nested,
};
use vstd::prelude::*;

verus! {

/// The index of the store in the fragment list.
pub open spec fn store_index() -> int {
    9
}

/// The scopes that the first `end` fragments of the kernel open.
spec fn opens_before(end: int) -> nat
    decreases end,
{
    if end <= 0 {
        0
    } else {
        opens_before(end - 1) + tally(linear_op_codes()[end - 1]).opens
    }
}

/// The scopes that the first `end` fragments of the kernel close.
spec fn closes_before(end: int) -> nat
    decreases end,
{
    if end <= 0 {
        0
    } else {
        closes_before(end - 1) + tally(linear_op_codes()[end - 1]).closes
    }
}

/// The scopes that are open where the fragment at `index` begins: none
/// before the entry point, one in it, two in the guard.
pub open spec fn depth_before(index: int) -> int {
    if index <= 2 {
        0
    } else if index <= 4 {
        1
    } else if index <= 10 {
        2
    } else if index == 11 {
        1
    } else {
        0
    }
}

/// `depth_before` is the scopes opened less the scopes closed.
proof fn lemma_depth_before(index: int)
    requires
        0 <= index <= 12,
    ensures
        opens_before(index) - closes_before(index) == depth_before(index),
        index == 12 ==> opens_before(index) == 4,
{
    assert(opens_before(0) == 0 && closes_before(0) == 0);
    assert(opens_before(1) == 1 && closes_before(1) == 1);
    assert(opens_before(2) == 1 && closes_before(2) == 1);
    assert(opens_before(3) == 2 && closes_before(3) == 1);
    assert(opens_before(4) == 2 && closes_before(4) == 1);
    assert(opens_before(5) == 3 && closes_before(5) == 1);
    assert(opens_before(6) == 3 && closes_before(6) == 1);
    assert(opens_before(7) == 3 && closes_before(7) == 1);
    assert(opens_before(8) == 4 && closes_before(8) == 2);
    assert(opens_before(9) == 4 && closes_before(9) == 2);
    assert(opens_before(10) == 4 && closes_before(10) == 2);
    assert(opens_before(11) == 4 && closes_before(11) == 3);
    assert(opens_before(12) == 4 && closes_before(12) == 4);
}

/// What the laws need to know of a stretch of source: that it begins and
/// ends with a blank unless it is empty, how many scopes it opens and closes,
/// that it closes none that it did not open, and that it nowhere reads `ax`.
spec fn stretch_holds(text: Seq<char>, opens: nat, closes: nat) -> bool {
    &&& text.len() > 0 ==> text[0] == ' ' && text.last() == ' '
    &&& count_char(text, '{') == opens
    &&& count_char(text, '}') == closes
    &&& stays_above(text, 0)
    &&& count_pair(text, 'a', 'x') == 0
}

/// Without the rectifier, the source of the first `end` fragments holds the
/// scopes that they open and close, properly nested so far, and nowhere `ax`.
proof fn lemma_plain_prefix_holds(end: int)
    requires
        0 <= end <= linear_fragments().len(),
    ensures
        stretch_holds(
            assembled(linear_fragments().take(end), false),
            opens_before(end),
            closes_before(end),
        ),
    decreases end,
{
    if end == 0 {
        assert(assembled(linear_fragments().take(0), false) =~= Seq::<char>::empty());
    } else {
        let fragments = linear_fragments();
        let before = assembled(fragments.take(end - 1), false);
        let op = linear_op_codes()[end - 1];
        lemma_plain_prefix_holds(end - 1);
        assert(fragments.take(end) =~= fragments.take(end - 1).push(fragments[end - 1]));
        lemma_assembled_push(fragments.take(end - 1), fragments[end - 1], false);
        assert(emitted(fragments[end - 1], false) =~= op.text());
        lemma_fragment_holds(op);
        lemma_depth_before(end - 1);
        lemma_count_char_concat(before, op.text(), '{');
        lemma_count_char_concat(before, op.text(), '}');
        lemma_count_pair_concat(before, op.text(), 'a', 'x');
        lemma_stays_above_concat(before, op.text(), -(tally(op).dips as int), 0);
    }
}

/// The source of the kernel, spelled out: the texts of the twelve fragments
/// one after the other, and the rectifier line before the store's when the
/// rectifier is asked for.
pub proof fn lemma_source_spelled_out(with_relu: bool)
    ensures
        linear_shader_text(with_relu) == UNIFORM@ + BINDINGS@ + FUNCTION_DEFINITION@ + THREAD_ID@
            + INDEX_CHECK@ + OUTPUT_INDEX_CALCULATION@ + RESULT_INSTANTIATION@
            + MATRIX_MULTIPLICATION_LOOP@ + ADD_BIAS@ + (if with_relu {
            RELU@
        } else {
            Seq::empty()
        }) + STORE_RESULT@ + INDEX_CHECK_CLOSE@ + FUNCTION_CLOSE@,
        linear_shader_text(with_relu).len() == if with_relu {
            2374nat
        } else {
            2339nat
        },
{
    let fragments = linear_fragments();
    lemma_assembled_empty(with_relu);
    assert(fragments.take(0) =~= Seq::empty());
    assert forall|end: int| 0 < end <= 12 implies assembled(
        #[trigger] fragments.take(end),
        with_relu,
    ) == assembled(fragments.take(end - 1), with_relu) + emitted(fragments[end - 1], with_relu) by {
        assert(fragments.take(end) =~= fragments.take(end - 1).push(fragments[end - 1]));
        lemma_assembled_push(fragments.take(end - 1), fragments[end - 1], with_relu);
    }
    assert forall|index: int| 0 <= index < 12 implies fragments[index].1.len() == tally(
        #[trigger] linear_op_codes()[index],
    ).len by {
        lemma_fragment_holds(linear_op_codes()[index]);
    }
    lemma_relu();
    assert(fragments.take(12) =~= fragments);
    let spelled_out = UNIFORM@ + BINDINGS@ + FUNCTION_DEFINITION@ + THREAD_ID@ + INDEX_CHECK@
        + OUTPUT_INDEX_CALCULATION@ + RESULT_INSTANTIATION@ + MATRIX_MULTIPLICATION_LOOP@
        + ADD_BIAS@ + (if with_relu {
        RELU@
    } else {
        Seq::empty()
    }) + STORE_RESULT@ + INDEX_CHECK_CLOSE@ + FUNCTION_CLOSE@;
    assert(assembled(fragments.take(12), with_relu) =~= spelled_out);
}

/// In the source of the kernel, with or without the rectifier, the text of
/// every fragment stands at its offset, and it ends before the text of any
/// later fragment begins: the offsets rise strictly with the index.
pub proof fn lemma_fragments_stand_in_order(with_relu: bool, first: int, second: int)
    requires
        0 <= first < second < linear_fragments().len(),
    ensures
        occurs_at(
            linear_shader_text(with_relu),
            linear_fragments()[first].1,
            fragment_offset(linear_fragments(), with_relu, first) as int,
        ),
        occurs_at(
            linear_shader_text(with_relu),
            linear_fragments()[second].1,
            fragment_offset(linear_fragments(), with_relu, second) as int,
        ),
        fragment_offset(linear_fragments(), with_relu, first) < fragment_offset(
            linear_fragments(),
            with_relu,
            first,
        ) + linear_fragments()[first].1.len() <= fragment_offset(
            linear_fragments(),
            with_relu,
            second,
        ),
{
    lemma_fragment_placed(linear_fragments(), with_relu, first);
    lemma_fragment_placed(linear_fragments(), with_relu, second);
    lemma_fragments_in_order(linear_fragments(), with_relu, first, second);
    lemma_fragment_holds(linear_op_codes()[first]);
}

/// The source with the rectifier is the source without it, with the
/// rectifier line inserted at the offset of the store's text. The line stands
/// directly before that text and nowhere else; the source without the
/// rectifier nowhere holds it.
pub proof fn lemma_fusion_inserts_one_line()
    ensures
        ({
            let plain = linear_shader_text(false);
            let fused = linear_shader_text(true);
            let at = fragment_offset(linear_fragments(), false, store_index()) as int;
            &&& occurs_at(plain, STORE_RESULT@, at)
            &&& fused == plain.subrange(0, at) + RELU@ + plain.subrange(at, plain.len() as int)
            &&& occurs_at(fused, RELU@ + STORE_RESULT@, at)
            &&& forall|i: int| occurs_at(fused, RELU@, i) ==> i == at
            &&& forall|i: int| !occurs_at(plain, RELU@, i)
        }),
{
    let fragments = linear_fragments();
    let plain = linear_shader_text(false);
    let fused = linear_shader_text(true);
    let at = fragment_offset(fragments, false, store_index()) as int;
    let before = assembled(fragments.take(store_index()), false);
    let behind = STORE_RESULT@ + assembled(fragments.skip(store_index() + 1), false);

    lemma_fused_before_store(fragments, store_index());
    assert(plain =~= before + behind);
    assert(fused =~= before + RELU@ + behind);
    assert(before =~= plain.subrange(0, at));
    assert(behind =~= plain.subrange(at, plain.len() as int));
    lemma_fragment_placed(fragments, false, store_index());
    assert(fused.subrange(at, at + (RELU@ + STORE_RESULT@).len()) =~= RELU@ + STORE_RESULT@);

    lemma_relu();
    lemma_fragment_holds(LinearOpCodes::StoreResult);
    lemma_plain_prefix_holds(12);
    assert(fragments.take(12) =~= fragments);
    // The source behind the insertion nowhere reads `ax`, as the whole does not.
    lemma_count_pair_concat(before, behind, 'a', 'x');
    // So the fused source reads it once, in the rectifier line.
    lemma_count_pair_concat(before, RELU@, 'a', 'x');
    lemma_count_pair_concat(before + RELU@, behind, 'a', 'x');
    assert(count_pair(fused, 'a', 'x') == 1);

    assert(occurs_at(fused, RELU@, at)) by {
        assert(fused.subrange(at, at + RELU@.len()) =~= RELU@);
    }
    assert forall|i: int| occurs_at(fused, RELU@, i) implies i == at by {
        lemma_occurrence_holds_pair(fused, RELU@, i, 'a', 'x', 18);
        lemma_occurrence_holds_pair(fused, RELU@, at, 'a', 'x', 18);
        lemma_count_pair_unique(fused, 'a', 'x', i + 18, at + 18);
    }
    assert forall|i: int| !occurs_at(plain, RELU@, i) by {
        if occurs_at(plain, RELU@, i) {
            lemma_occurrence_holds_pair(plain, RELU@, i, 'a', 'x', 18);
        }
    }
}

/// The source with the rectifier, taken apart at the insertion.
proof fn lemma_fused_parts() -> (parts: (Seq<char>, Seq<char>))
    ensures
        parts.0 == assembled(linear_fragments().take(store_index()), false),
        linear_shader_text(false) == parts.0 + parts.1,
        linear_shader_text(true) == parts.0 + RELU@ + parts.1,
{
    let fragments = linear_fragments();
    let before = assembled(fragments.take(store_index()), false);
    let behind = STORE_RESULT@ + assembled(fragments.skip(store_index() + 1), false);
    lemma_fused_before_store(fragments, store_index());
    assert(linear_shader_text(false) =~= before + behind);
    assert(linear_shader_text(true) =~= before + RELU@ + behind);
    (before, behind)
}

/// The source of the kernel, with or without the rectifier, opens four
/// scopes and closes four.
pub proof fn lemma_scopes_balance(with_relu: bool)
    ensures
        count_char(linear_shader_text(with_relu), '{') == 4,
        count_char(linear_shader_text(with_relu), '}') == 4,
{
    lemma_plain_prefix_holds(12);
    assert(linear_fragments().take(12) =~= linear_fragments());
    lemma_depth_before(12);
    if with_relu {
        let (before, behind) = lemma_fused_parts();
        lemma_relu();
        lemma_count_char_concat(before, behind, '{');
        lemma_count_char_concat(before, behind, '}');
        lemma_count_char_concat(before, RELU@, '{');
        lemma_count_char_concat(before, RELU@, '}');
        lemma_count_char_concat(before + RELU@, behind, '{');
        lemma_count_char_concat(before + RELU@, behind, '}');
    }
}

/// In the source of the kernel, with or without the rectifier, no scope is
/// closed that was not opened before, and none is left open.
pub proof fn lemma_scopes_nest(with_relu: bool)
    ensures
        well_nested(linear_shader_text(with_relu)),
{
    lemma_plain_prefix_holds(12);
    assert(linear_fragments().take(12) =~= linear_fragments());
    lemma_scopes_balance(false);
    if with_relu {
        let (before, behind) = lemma_fused_parts();
        lemma_relu();
        lemma_well_nested_inserted(before, RELU@, behind);
    }
}

/// In the source of the kernel, with or without the rectifier, the text of
/// every fragment begins at the depth that `depth_before` tells: the
/// fragments from the output index calculation to the store, and the
/// rectifier line with them, stand two scopes deep, inside the entry point
/// and inside the guard.
pub proof fn lemma_fragments_stand_at_depth(with_relu: bool, index: int)
    requires
        0 <= index < linear_fragments().len(),
    ensures
        scope_depth(
            linear_shader_text(with_relu),
            fragment_offset(linear_fragments(), with_relu, index) as int,
        ) == depth_before(index),
        scope_depth(
            linear_shader_text(with_relu),
            fragment_offset(linear_fragments(), with_relu, index)
                - linear_op_codes()[index].pre_text(with_relu).len(),
        ) == depth_before(index),
{
    let fragments = linear_fragments();
    let plain = linear_shader_text(false);
    let upto = assembled(fragments.take(index), false);
    // Without the rectifier the fragment begins where the fragments before it end.
    lemma_assembled_split(fragments, false, index);
    lemma_plain_prefix_holds(index);
    lemma_depth_before(index);
    let rest = emitted(fragments[index], false) + assembled(fragments.skip(index + 1), false);
    assert(plain =~= upto + rest);
    lemma_scope_depth_concat(upto, rest, upto.len() as int);
    if with_relu {
        let (before, behind) = lemma_fused_parts();
        lemma_relu();
        lemma_fragments_shift(index);
        let offset = fragment_offset(fragments, true, index) as int;
        lemma_scope_depth_inserted(before, RELU@, behind, offset);
        lemma_scope_depth_inserted(
            before,
            RELU@,
            behind,
            offset - linear_op_codes()[index].pre_text(true).len(),
        );
    }
}

/// With the rectifier the text of a fragment begins where it begins without,
/// up to the store, and one rectifier line later from the store on.
proof fn lemma_fragments_shift(index: int)
    requires
        0 <= index < linear_fragments().len(),
    ensures
        fragment_offset(linear_fragments(), true, index) == fragment_offset(
            linear_fragments(),
            false,
            index,
        ) + if index < store_index() {
            0
        } else {
            RELU@.len() as int
        },
        fragment_offset(linear_fragments(), false, store_index()) == assembled(
            linear_fragments().take(store_index()),
            false,
        ).len(),
        index <= store_index() ==> fragment_offset(linear_fragments(), false, index)
            <= fragment_offset(linear_fragments(), false, store_index()),
        index >= store_index() ==> fragment_offset(linear_fragments(), false, index)
            >= fragment_offset(linear_fragments(), false, store_index()),
{
    let fragments = linear_fragments();
    if index < store_index() {
        lemma_assembled_store_free(fragments.take(index));
        lemma_fragments_in_order(fragments, false, index, store_index());
    } else if index == store_index() {
        lemma_assembled_store_free(fragments.take(index));
    } else {
        let upto = fragments.take(index);
        assert(upto.take(store_index()) =~= fragments.take(store_index()));
        assert(upto.skip(store_index() + 1) =~= fragments.subrange(store_index() + 1, index));
        lemma_fused_before_store(upto, store_index());
        lemma_fragments_in_order(fragments, false, store_index(), index);
    }
}

/// Two sources assembled with the same flag are the same text.
pub proof fn lemma_source_is_determined(first: String, second: String, with_relu: bool)
    requires
        first@ == linear_shader_text(with_relu),
        second@ == linear_shader_text(with_relu),
    ensures
        first@ == second@,
{
}

/// Two fragment lists built by `Linear::new` are the same list, and what is
/// assembled from one is assembled from the other.
pub proof fn lemma_construction_is_repeatable(first: Linear, second: Linear, with_relu: bool)
    requires
        first@ == linear_fragments(),
        second@ == linear_fragments(),
    ensures
        first@ == second@,
        assembled(first@, with_relu) == assembled(second@, with_relu),
        assembled(first@, with_relu) == linear_shader_text(with_relu),
{
}

} // verus!
