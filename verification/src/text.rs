//! Vocabulary for statements about source text: where a pattern occurs in a
//! text, how often a character or a pair of adjacent characters does, and how
//! deep in braces an offset lies.

use vstd::prelude::*;

verus! {

/// `pattern` stands in `text` at offset `at`.
pub open spec fn occurs_at(text: Seq<char>, pattern: Seq<char>, at: int) -> bool {
    &&& 0 <= at
    &&& at + pattern.len() <= text.len()
    &&& text.subrange(at, at + pattern.len()) == pattern
}

/// The number of offsets below `end` at which `text` holds `c`.
pub open spec fn count_char_before(text: Seq<char>, c: char, end: int) -> nat
    decreases end,
{
    if end <= 0 {
        0
    } else {
        count_char_before(text, c, end - 1) + if text[end - 1] == c {
            1nat
        } else {
            0nat
        }
    }
}

/// How often `c` occurs in `text`.
pub open spec fn count_char(text: Seq<char>, c: char) -> nat {
    count_char_before(text, c, text.len() as int)
}

/// The number of offsets below `end` at which `text` holds `first`, directly
/// followed by `second`.
pub open spec fn count_pair_before(text: Seq<char>, first: char, second: char, end: int) -> nat
    decreases end,
{
    if end <= 0 {
        0
    } else {
        count_pair_before(text, first, second, end - 1) + if text[end - 1] == first && text[end]
            == second {
            1nat
        } else {
            0nat
        }
    }
}

/// How often `first`, directly followed by `second`, occurs in `text`.
pub open spec fn count_pair(text: Seq<char>, first: char, second: char) -> nat {
    count_pair_before(text, first, second, text.len() - 1)
}

/// The number of scopes that are open behind the first `end` characters of
/// `text`: the braces opened there, less the braces closed.
pub open spec fn scope_depth(text: Seq<char>, end: int) -> int {
    count_char_before(text, '{', end) - count_char_before(text, '}', end)
}

/// Whether the depth of `text` is at least `floor` behind each of its
/// characters, and before the first.
pub open spec fn stays_above(text: Seq<char>, floor: int) -> bool {
    forall|end: int| 0 <= end <= text.len() ==> #[trigger] scope_depth(text, end) >= floor
}

/// Whether the scopes of `text` are properly nested: no scope is closed
/// that was not opened before, and none is left open at the end.
pub open spec fn well_nested(text: Seq<char>) -> bool {
    &&& stays_above(text, 0)
    &&& scope_depth(text, text.len() as int) == 0
}

/// Two texts that agree below `end` hold `c` equally often below `end`.
pub proof fn lemma_count_char_agree(left: Seq<char>, right: Seq<char>, c: char, end: int)
    requires
        forall|i: int| 0 <= i < end ==> left[i] == right[i],
    ensures
        count_char_before(left, c, end) == count_char_before(right, c, end),
    decreases end,
{
    if end > 0 {
        lemma_count_char_agree(left, right, c, end - 1);
    }
}

/// Counting `c` in the part of `left + right` that `right` makes up.
pub proof fn lemma_count_char_concat_before(left: Seq<char>, right: Seq<char>, c: char, end: int)
    requires
        0 <= end <= right.len(),
    ensures
        count_char_before(left + right, c, left.len() + end) == count_char(left, c)
            + count_char_before(right, c, end),
    decreases end,
{
    if end == 0 {
        lemma_count_char_agree(left + right, left, c, left.len() as int);
    } else {
        lemma_count_char_concat_before(left, right, c, end - 1);
    }
}

/// A character occurs in a concatenation as often as in its two parts
/// together.
pub proof fn lemma_count_char_concat(left: Seq<char>, right: Seq<char>, c: char)
    ensures
        count_char(left + right, c) == count_char(left, c) + count_char(right, c),
{
    lemma_count_char_concat_before(left, right, c, right.len() as int);
}

/// A character is counted no oftener below an offset than below a later one.
pub proof fn lemma_count_char_monotonic(text: Seq<char>, c: char, earlier: int, later: int)
    requires
        earlier <= later,
    ensures
        count_char_before(text, c, earlier) <= count_char_before(text, c, later),
    decreases later - earlier,
{
    if earlier < later && later > 0 {
        lemma_count_char_monotonic(text, c, earlier, later - 1);
    }
}

/// The depth behind an offset of a concatenation: that of the first part
/// within it, and the depth of the whole first part more than that of the
/// second part behind it.
pub proof fn lemma_scope_depth_concat(left: Seq<char>, right: Seq<char>, end: int)
    requires
        0 <= end <= left.len() + right.len(),
    ensures
        scope_depth(left + right, end) == if end <= left.len() {
            scope_depth(left, end)
        } else {
            scope_depth(left, left.len() as int) + scope_depth(right, end - left.len())
        },
{
    if end <= left.len() {
        lemma_count_char_agree(left + right, left, '{', end);
        lemma_count_char_agree(left + right, left, '}', end);
    } else {
        lemma_count_char_concat_before(left, right, '{', end - left.len());
        lemma_count_char_concat_before(left, right, '}', end - left.len());
    }
}

/// A concatenation stays above a floor that its first part stays above,
/// and that its second part stays above when begun at the depth that the
/// first part ends at.
pub proof fn lemma_stays_above_concat(
    left: Seq<char>,
    right: Seq<char>,
    right_floor: int,
    floor: int,
)
    requires
        stays_above(left, floor),
        stays_above(right, right_floor),
        floor <= scope_depth(left, left.len() as int) + right_floor,
    ensures
        stays_above(left + right, floor),
{
    assert forall|end: int| 0 <= end <= (left + right).len() implies #[trigger] scope_depth(
        left + right,
        end,
    ) >= floor by {
        lemma_scope_depth_concat(left, right, end);
    }
}

/// A text without braces, inserted into another, shifts the depths behind
/// it and changes none: the depth behind an offset of the whole is the depth
/// behind the offset that it comes from.
pub proof fn lemma_scope_depth_inserted(
    before: Seq<char>,
    inserted: Seq<char>,
    behind: Seq<char>,
    end: int,
)
    requires
        count_char(inserted, '{') == 0,
        count_char(inserted, '}') == 0,
        0 <= end <= before.len() + inserted.len() + behind.len(),
    ensures
        scope_depth(before + inserted + behind, end) == scope_depth(
            before + behind,
            if end <= before.len() {
                end
            } else if end <= before.len() + inserted.len() {
                before.len() as int
            } else {
                end - inserted.len()
            },
        ),
{
    lemma_scope_depth_concat(before + inserted, behind, end);
    if end <= before.len() + inserted.len() {
        lemma_scope_depth_concat(before, inserted, end);
        if end <= before.len() {
            lemma_scope_depth_concat(before, behind, end);
        } else {
            lemma_scope_depth_concat(before, behind, before.len() as int);
            lemma_count_char_monotonic(inserted, '{', end - before.len(), inserted.len() as int);
            lemma_count_char_monotonic(inserted, '}', end - before.len(), inserted.len() as int);
        }
    } else {
        lemma_scope_depth_concat(before, inserted, (before.len() + inserted.len()) as int);
        lemma_scope_depth_concat(before, behind, end - inserted.len());
    }
}

/// A properly nested text stays properly nested when a text without braces
/// is inserted into it.
pub proof fn lemma_well_nested_inserted(before: Seq<char>, inserted: Seq<char>, behind: Seq<char>)
    requires
        well_nested(before + behind),
        count_char(inserted, '{') == 0,
        count_char(inserted, '}') == 0,
    ensures
        well_nested(before + inserted + behind),
{
    let whole = before + inserted + behind;
    assert forall|end: int| 0 <= end <= whole.len() implies #[trigger] scope_depth(whole, end)
        >= 0 by {
        lemma_scope_depth_inserted(before, inserted, behind, end);
    }
    lemma_scope_depth_inserted(before, inserted, behind, whole.len() as int);
}

/// A text goes no deeper below its beginning than it closes scopes.
pub proof fn lemma_stays_above_closes(text: Seq<char>)
    ensures
        stays_above(text, -(count_char(text, '}') as int)),
{
    let floor = -(count_char(text, '}') as int);
    assert forall|end: int| 0 <= end <= text.len() implies #[trigger] scope_depth(text, end)
        >= floor by {
        lemma_count_char_monotonic(text, '}', end, text.len() as int);
    }
}

/// A text that closes no scope before `middle`, and has by then opened as
/// many as it closes in all, never goes below its beginning.
pub proof fn lemma_stays_above_by_middle(text: Seq<char>, middle: int)
    requires
        0 <= middle <= text.len(),
        count_char_before(text, '}', middle) == 0,
        count_char_before(text, '{', middle) >= count_char(text, '}'),
    ensures
        stays_above(text, 0),
{
    assert forall|end: int| 0 <= end <= text.len() implies #[trigger] scope_depth(text, end)
        >= 0 by {
        if end <= middle {
            lemma_count_char_monotonic(text, '}', end, middle);
        } else {
            lemma_count_char_monotonic(text, '{', middle, end);
            lemma_count_char_monotonic(text, '}', end, text.len() as int);
        }
    }
}

/// Two texts that agree up to and including `end` hold the pair equally
/// often below `end`.
pub proof fn lemma_count_pair_agree(
    left: Seq<char>,
    right: Seq<char>,
    first: char,
    second: char,
    end: int,
)
    requires
        forall|i: int| 0 <= i <= end ==> left[i] == right[i],
    ensures
        count_pair_before(left, first, second, end) == count_pair_before(right, first, second, end),
    decreases end,
{
    if end > 0 {
        lemma_count_pair_agree(left, right, first, second, end - 1);
    }
}

/// Counting the pair in the part of `left + right` that `right` makes up.
proof fn lemma_count_pair_concat_before(
    left: Seq<char>,
    right: Seq<char>,
    first: char,
    second: char,
    end: int,
)
    requires
        0 < left.len(),
        0 <= end < right.len(),
        left.last() != first || right[0] != second,
    ensures
        count_pair_before(left + right, first, second, left.len() + end) == count_pair(
            left,
            first,
            second,
        ) + count_pair_before(right, first, second, end),
    decreases end,
{
    if end == 0 {
        lemma_count_pair_agree(left + right, left, first, second, left.len() - 1);
    } else {
        lemma_count_pair_concat_before(left, right, first, second, end - 1);
    }
}

/// Where the pair does not straddle the seam, it occurs in a concatenation
/// as often as in its two parts together.
pub proof fn lemma_count_pair_concat(left: Seq<char>, right: Seq<char>, first: char, second: char)
    requires
        left.len() > 0 && right.len() > 0 ==> left.last() != first || right[0] != second,
    ensures
        count_pair(left + right, first, second) == count_pair(left, first, second) + count_pair(
            right,
            first,
            second,
        ),
{
    if left.len() > 0 && right.len() > 0 {
        lemma_count_pair_concat_before(left, right, first, second, right.len() - 1);
    }
}

/// A pair that a text holds at some offset is counted.
pub proof fn lemma_count_pair_positive(
    text: Seq<char>,
    first: char,
    second: char,
    at: int,
    end: int,
)
    requires
        0 <= at < end,
        text[at] == first,
        text[at + 1] == second,
    ensures
        count_pair_before(text, first, second, end) > count_pair_before(text, first, second, at),
    decreases end,
{
    if end > at + 1 {
        lemma_count_pair_positive(text, first, second, at, end - 1);
    }
}

/// Where a pattern that holds the pair stands in a text, the text holds the
/// pair too, and so counts it.
pub proof fn lemma_occurrence_holds_pair(
    text: Seq<char>,
    pattern: Seq<char>,
    at: int,
    first: char,
    second: char,
    within: int,
)
    requires
        occurs_at(text, pattern, at),
        0 <= within < pattern.len() - 1,
        pattern[within] == first,
        pattern[within + 1] == second,
    ensures
        text[at + within] == first,
        text[at + within + 1] == second,
        count_pair(text, first, second) > 0,
{
    lemma_count_pair_positive(text, first, second, at + within, text.len() - 1);
}

/// A text that holds the pair once holds it at one offset only.
pub proof fn lemma_count_pair_unique(
    text: Seq<char>,
    first: char,
    second: char,
    one: int,
    other: int,
)
    requires
        count_pair(text, first, second) <= 1,
        0 <= one < text.len() - 1,
        0 <= other < text.len() - 1,
        text[one] == first && text[one + 1] == second,
        text[other] == first && text[other + 1] == second,
    ensures
        one == other,
{
    if one < other {
        lemma_count_pair_positive(text, first, second, one, other);
        lemma_count_pair_positive(text, first, second, other, text.len() - 1);
    } else if other < one {
        lemma_count_pair_positive(text, first, second, other, one);
        lemma_count_pair_positive(text, first, second, one, text.len() - 1);
    }
}

} // verus!
