//! What leaves no trace in a sketch: the order of the rows, the repetition of
//! a value, and nulls.
//!
//! Each register ends at the highest rank among the tokens that fall into
//! it, or where it started if none is higher. That value depends on which
//! tokens were inserted and on nothing else, and the statements below follow
//! from it. All of them speak of one sketch, with one seed: two counters made
//! apart draw seeds of their own and need not agree.

use crate::aggregate::{
    advance, advance_all, fresh_sketch_of, group_estimate, group_wf, working_sketch,
};
use crate::canonical::{token_of, Datum, Token};
use crate::sketch::{lemma_slot_bounds, token_digest, SketchView};
use vstd::prelude::*;

verus! {

/// Where register `j` stands after the tokens of `tokens`: the highest of
/// its starting value and the ranks of the tokens that fall into it.
pub open spec fn peak(sketch: SketchView, tokens: Seq<Token>, j: int) -> int
    decreases tokens.len(),
{
    if tokens.len() == 0 {
        sketch.registers[j] as int
    } else {
        let before = peak(sketch, tokens.drop_last(), j);
        let (index, rank) = sketch.slot(tokens.last());
        if index == j && rank > before {
            rank
        } else {
            before
        }
    }
}

/// The tokens that a sequence of rows inserts, in order.
pub open spec fn tokens_of(rows: Seq<Datum>) -> Seq<Token> {
    rows.filter_map(|row: Datum| token_of(row))
}

/// Two sequences with the same members, whatever their order and however
/// often each member occurs.
pub open spec fn same_members<A>(a: Seq<A>, b: Seq<A>) -> bool {
    forall|x: A| a.contains(x) <==> b.contains(x)
}

proof fn lemma_same_multiset_same_members<A>(a: Seq<A>, b: Seq<A>)
    requires
        a.to_multiset() == b.to_multiset(),
    ensures
        same_members(a, b),
{
    a.to_multiset_ensures();
    b.to_multiset_ensures();
    assert forall|x: A| a.contains(x) <==> b.contains(x) by {
        assert(a.contains(x) <==> a.to_multiset().count(x) > 0);
        assert(b.contains(x) <==> b.to_multiset().count(x) > 0);
    }
}

/// Inserting a sequence of tokens keeps precision, seed and well-formedness,
/// and takes every register to its peak.
pub proof fn lemma_insert_all_reaches_peaks(sketch: SketchView, tokens: Seq<Token>)
    requires
        sketch.wf(),
    ensures
        sketch.insert_all(tokens).wf(),
        sketch.insert_all(tokens).precision == sketch.precision,
        sketch.insert_all(tokens).seed == sketch.seed,
        sketch.insert_all(tokens).registers.len() == sketch.registers.len(),
        forall|j: int|
            0 <= j < sketch.registers.len() ==> #[trigger] sketch.insert_all(tokens).registers[j]
                == peak(sketch, tokens, j),
    decreases tokens.len(),
{
    if tokens.len() > 0 {
        lemma_insert_all_reaches_peaks(sketch, tokens.drop_last());
        lemma_slot_bounds(token_digest(sketch.seed, tokens.last()), sketch.precision);
    }
}

proof fn lemma_peak_is_least_bound(sketch: SketchView, tokens: Seq<Token>, j: int)
    ensures
        peak(sketch, tokens, j) >= sketch.registers[j],
        forall|i: int|
            0 <= i < tokens.len() && (#[trigger] sketch.slot(tokens[i])).0 == j ==> peak(
                sketch,
                tokens,
                j,
            ) >= sketch.slot(tokens[i]).1,
        peak(sketch, tokens, j) == sketch.registers[j] || exists|i: int|
            0 <= i < tokens.len() && #[trigger] sketch.slot(tokens[i]) == (
                j,
                peak(sketch, tokens, j),
            ),
    decreases tokens.len(),
{
    if tokens.len() > 0 {
        let rest = tokens.drop_last();
        lemma_peak_is_least_bound(sketch, rest, j);
        assert forall|i: int|
            0 <= i < tokens.len() && (#[trigger] sketch.slot(tokens[i])).0 == j implies peak(
            sketch,
            tokens,
            j,
        ) >= sketch.slot(tokens[i]).1 by {
            if i < rest.len() {
                assert(rest[i] == tokens[i]);
            }
        }
        if peak(sketch, tokens, j) != sketch.registers[j] {
            if peak(sketch, tokens, j) == peak(sketch, rest, j) {
                let i = choose|i: int|
                    0 <= i < rest.len() && #[trigger] sketch.slot(rest[i]) == (
                        j,
                        peak(sketch, rest, j),
                    );
                assert(rest[i] == tokens[i]);
                assert(sketch.slot(tokens[i]) == (j, peak(sketch, tokens, j)));
            } else {
                let i = tokens.len() - 1;
                assert(sketch.slot(tokens[i]) == (j, peak(sketch, tokens, j)));
            }
        }
    }
}

proof fn lemma_peak_grows_with_members(sketch: SketchView, a: Seq<Token>, b: Seq<Token>, j: int)
    requires
        forall|x: Token| a.contains(x) ==> b.contains(x),
    ensures
        peak(sketch, a, j) <= peak(sketch, b, j),
{
    lemma_peak_is_least_bound(sketch, a, j);
    lemma_peak_is_least_bound(sketch, b, j);
    if peak(sketch, a, j) != sketch.registers[j] {
        let i = choose|i: int|
            0 <= i < a.len() && #[trigger] sketch.slot(a[i]) == (j, peak(sketch, a, j));
        assert(a.contains(a[i]));
        let k = choose|k: int| 0 <= k < b.len() && b[k] == a[i];
        assert(sketch.slot(b[k]).0 == j);
    }
}

/// The state of a sketch depends on which tokens it was given, not on their
/// order nor on how often each came.
pub proof fn lemma_members_decide_the_sketch(sketch: SketchView, a: Seq<Token>, b: Seq<Token>)
    requires
        sketch.wf(),
        same_members(a, b),
    ensures
        sketch.insert_all(a) == sketch.insert_all(b),
{
    lemma_insert_all_reaches_peaks(sketch, a);
    lemma_insert_all_reaches_peaks(sketch, b);
    let left = sketch.insert_all(a);
    let right = sketch.insert_all(b);
    assert forall|j: int| 0 <= j < left.registers.len() implies left.registers[j]
        == right.registers[j] by {
        lemma_peak_grows_with_members(sketch, a, b, j);
        lemma_peak_grows_with_members(sketch, b, a, j);
    }
    assert(left.registers =~= right.registers);
}

/// Inserting the same tokens in another order gives the same sketch, and so
/// the same estimate.
pub proof fn lemma_token_order_is_immaterial(sketch: SketchView, a: Seq<Token>, b: Seq<Token>)
    requires
        sketch.wf(),
        a.to_multiset() == b.to_multiset(),
    ensures
        sketch.insert_all(a) == sketch.insert_all(b),
        sketch.insert_all(a).estimate() == sketch.insert_all(b).estimate(),
{
    lemma_same_multiset_same_members(a, b);
    lemma_members_decide_the_sketch(sketch, a, b);
}

/// Inserting a token again changes nothing.
pub proof fn lemma_insert_is_idempotent(sketch: SketchView, token: Token)
    requires
        sketch.wf(),
    ensures
        sketch.insert(token).insert(token) == sketch.insert(token),
{
    lemma_slot_bounds(token_digest(sketch.seed, token), sketch.precision);
}

/// The order of two insertions can be swapped.
pub proof fn lemma_inserts_commute(sketch: SketchView, first: Token, second: Token)
    requires
        sketch.wf(),
    ensures
        sketch.insert(first).insert(second) == sketch.insert(second).insert(first),
{
    lemma_slot_bounds(token_digest(sketch.seed, first), sketch.precision);
    lemma_slot_bounds(token_digest(sketch.seed, second), sketch.precision);
    assert(sketch.insert(first).insert(second).registers =~= sketch.insert(second).insert(
        first,
    ).registers);
}

/// Inserting one token any number of times, at least once, gives the sketch
/// that inserting it once gives.
pub proof fn lemma_repetition_leaves_no_trace(sketch: SketchView, token: Token, times: nat)
    requires
        sketch.wf(),
        times >= 1,
    ensures
        sketch.insert_all(Seq::new(times, |i: int| token)) == sketch.insert(token),
{
    let many = Seq::new(times, |i: int| token);
    let once = seq![token];
    assert(many[0] == token);
    assert(once[0] == token);
    lemma_members_decide_the_sketch(sketch, many, once);
    assert(sketch.insert_all(once.drop_last()) == sketch);
}

proof fn lemma_tokens_of_push(rows: Seq<Datum>, row: Datum)
    ensures
        tokens_of(rows.push(row)) == match token_of(row) {
            Some(token) => tokens_of(rows).push(token),
            None => tokens_of(rows),
        },
{
    assert(rows.push(row).drop_last() =~= rows);
}

proof fn lemma_tokens_of_members(rows: Seq<Datum>, token: Token)
    ensures
        tokens_of(rows).contains(token) <==> exists|i: int|
            0 <= i < rows.len() && token_of(#[trigger] rows[i]) == Some(token),
    decreases rows.len(),
{
    if rows.len() > 0 {
        let rest = rows.drop_last();
        lemma_tokens_of_members(rest, token);
        assert(rest.push(rows.last()) =~= rows);
        lemma_tokens_of_push(rest, rows.last());
        let found = tokens_of(rows);
        if found.contains(token) {
            let k = choose|k: int| 0 <= k < found.len() && found[k] == token;
            if k < tokens_of(rest).len() {
                assert(tokens_of(rest)[k] == token);
                let i = choose|i: int|
                    0 <= i < rest.len() && token_of(#[trigger] rest[i]) == Some(token);
                assert(rows[i] == rest[i]);
            } else {
                assert(token_of(rows[rows.len() - 1]) == Some(token));
            }
        }
        if exists|i: int| 0 <= i < rows.len() && token_of(#[trigger] rows[i]) == Some(token) {
            let i = choose|i: int|
                0 <= i < rows.len() && token_of(#[trigger] rows[i]) == Some(token);
            if i < rest.len() {
                assert(rest[i] == rows[i]);
                let k = choose|k: int|
                    0 <= k < tokens_of(rest).len() && tokens_of(rest)[k] == token;
                assert(found[k] == token);
            } else {
                assert(found[found.len() - 1] == token);
            }
        }
    }
}

/// A group after a run of rows: as it was if no row held a token, and else
/// its working sketch with the rows' tokens inserted.
pub proof fn lemma_group_follows_its_tokens(
    group: Option<SketchView>,
    rows: Seq<Datum>,
    fresh: SketchView,
)
    ensures
        advance_all(group, rows, fresh) == if tokens_of(rows).len() == 0 {
            group
        } else {
            Some(working_sketch(group, fresh).insert_all(tokens_of(rows)))
        },
    decreases rows.len(),
{
    if rows.len() > 0 {
        let rest = rows.drop_last();
        lemma_group_follows_its_tokens(group, rest, fresh);
        assert(rest.push(rows.last()) =~= rows);
        lemma_tokens_of_push(rest, rows.last());
        match token_of(rows.last()) {
            Some(token) => {
                assert(tokens_of(rows).drop_last() =~= tokens_of(rest));
                if tokens_of(rest).len() == 0 {
                    assert(working_sketch(group, fresh).insert_all(tokens_of(rest))
                        == working_sketch(group, fresh));
                }
            },
            None => {},
        }
    }
}

/// Calls compose: where each state of a run is what one step makes of the
/// state before it, the last state is what the whole run of rows makes of
/// the first. The sketch that the steps speak of is the one that the group
/// ends with, wiped: a group draws its seed once.
pub proof fn lemma_steps_follow_the_rows(
    start: Option<SketchView>,
    rows: Seq<Datum>,
    states: Seq<Option<SketchView>>,
)
    requires
        states.len() == rows.len() + 1,
        states[0] == start,
        forall|i: int|
            0 <= i < rows.len() ==> #[trigger] states[i + 1] == advance(
                states[i],
                rows[i],
                fresh_sketch_of(states[i + 1]),
            ),
    ensures
        states.last() == advance_all(start, rows, fresh_sketch_of(states.last())),
    decreases rows.len(),
{
    if rows.len() > 0 {
        let n = rows.len() as int;
        let earlier = states.drop_last();
        let rest = rows.drop_last();
        assert forall|i: int| 0 <= i < rest.len() implies #[trigger] earlier[i + 1] == advance(
            earlier[i],
            rest[i],
            fresh_sketch_of(earlier[i + 1]),
        ) by {
            assert(states[i + 1] == advance(states[i], rows[i], fresh_sketch_of(states[i + 1])));
        }
        lemma_steps_follow_the_rows(start, rest, earlier);
        let fresh = fresh_sketch_of(states[n]);
        lemma_group_follows_its_tokens(start, rest, fresh_sketch_of(states[n - 1]));
        lemma_group_follows_its_tokens(start, rest, fresh);
    }
}

/// A group's state depends on which values its rows held, not on their order
/// nor on how often each came.
pub proof fn lemma_members_decide_the_group(
    group: Option<SketchView>,
    fresh: SketchView,
    a: Seq<Datum>,
    b: Seq<Datum>,
)
    requires
        group_wf(group),
        fresh.wf(),
        same_members(a, b),
    ensures
        advance_all(group, a, fresh) == advance_all(group, b, fresh),
{
    lemma_group_follows_its_tokens(group, a, fresh);
    lemma_group_follows_its_tokens(group, b, fresh);
    assert forall|token: Token| tokens_of(a).contains(token) <==> tokens_of(b).contains(
        token,
    ) by {
        lemma_tokens_of_members(a, token);
        lemma_tokens_of_members(b, token);
        if tokens_of(a).contains(token) {
            let i = choose|i: int| 0 <= i < a.len() && token_of(#[trigger] a[i]) == Some(token);
            assert(a.contains(a[i]));
            let k = choose|k: int| 0 <= k < b.len() && b[k] == a[i];
            assert(token_of(b[k]) == Some(token));
        }
        if tokens_of(b).contains(token) {
            let i = choose|i: int| 0 <= i < b.len() && token_of(#[trigger] b[i]) == Some(token);
            assert(b.contains(b[i]));
            let k = choose|k: int| 0 <= k < a.len() && a[k] == b[i];
            assert(token_of(a[k]) == Some(token));
        }
    }
    let left = tokens_of(a);
    let right = tokens_of(b);
    if left.len() > 0 {
        assert(left.contains(left[0]));
    }
    if right.len() > 0 {
        assert(right.contains(right[0]));
    }
    lemma_members_decide_the_sketch(working_sketch(group, fresh), left, right);
}

/// Rows that hold the same values, in whatever order, leave a group in the
/// same state and give the same estimate.
pub proof fn lemma_row_order_is_immaterial(
    group: Option<SketchView>,
    fresh: SketchView,
    a: Seq<Datum>,
    b: Seq<Datum>,
)
    requires
        group_wf(group),
        fresh.wf(),
        a.to_multiset() == b.to_multiset(),
    ensures
        advance_all(group, a, fresh) == advance_all(group, b, fresh),
        group_estimate(advance_all(group, a, fresh)) == group_estimate(
            advance_all(group, b, fresh),
        ),
{
    lemma_same_multiset_same_members(a, b);
    lemma_members_decide_the_group(group, fresh, a, b);
}

/// A value that comes any number of times, at least once, leaves the group
/// where a single row with it leaves it.
pub proof fn lemma_repeated_rows_count_once(
    group: Option<SketchView>,
    fresh: SketchView,
    row: Datum,
    times: nat,
)
    requires
        group_wf(group),
        fresh.wf(),
        times >= 1,
    ensures
        advance_all(group, Seq::new(times, |i: int| row), fresh) == advance(group, row, fresh),
{
    let many = Seq::new(times, |i: int| row);
    let once = seq![row];
    assert(many[0] == row);
    assert(once[0] == row);
    lemma_members_decide_the_group(group, fresh, many, once);
    assert(advance_all(group, once.drop_last(), fresh) == group);
}

/// Nulls among the rows change neither the state nor the estimate: the
/// group ends where the rows without them take it.
pub proof fn lemma_nulls_are_neutral(group: Option<SketchView>, fresh: SketchView, rows: Seq<Datum>)
    ensures
        advance_all(group, rows, fresh) == advance_all(
            group,
            rows.filter(|row: Datum| row != Datum::Null),
            fresh,
        ),
        group_estimate(advance_all(group, rows, fresh)) == group_estimate(
            advance_all(group, rows.filter(|row: Datum| row != Datum::Null), fresh),
        ),
    decreases rows.len(),
{
    reveal(Seq::filter);
    let keep = |row: Datum| row != Datum::Null;
    if rows.len() > 0 {
        let rest = rows.drop_last();
        lemma_nulls_are_neutral(group, fresh, rest);
        if keep(rows.last()) {
            assert(rows.filter(keep).drop_last() =~= rest.filter(keep));
        }
    }
}

} // verus!
