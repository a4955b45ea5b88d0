//! The state of one aggregation group and the two entry points that drive
//! it: one call per row, and one at the end for the estimate.
//!
//! A group starts without a sketch. The first row that counts brings one
//! into being, at the production error rate; every later row goes into that
//! same sketch. Making a counter takes floating-point arithmetic and a random
//! seed, so the caller lends the one function that does it, and the group
//! decides when to call it and with which error rate.

use crate::canonical::{
    canonical_form, canonicalize, token_of, CanonicalValue, Datum, StepError, Value,
};
use crate::sketch::{estimable, SketchView, SqliteHll};
use hyperloglog::HyperLogLog;
use vstd::prelude::*;

verus! {

/// The bit pattern of the relative error 0.0081 at which every group counts.
pub const PRODUCTION_ERROR_RATE_BITS: u64 = 0x3f80_96bb_98c7_e282;

/// What is asked of the function that makes counters: it takes the
/// production error rate, and the counter it makes of it can give an
/// estimate. A function that hands the rate to `HyperLogLog::new` meets
/// this: at 0.0081 the counter has precision 10.
pub open spec fn makes_sketches<F: FnOnce(u64) -> HyperLogLog>(make_sketch: F) -> bool {
    &&& call_requires(make_sketch, (PRODUCTION_ERROR_RATE_BITS,))
    &&& forall|counter: HyperLogLog|
        call_ensures(make_sketch, (PRODUCTION_ERROR_RATE_BITS,), counter) ==> estimable(counter)
}

/// The sketch that a group works on: its own, or `fresh` while it has none.
pub open spec fn working_sketch(group: Option<SketchView>, fresh: SketchView) -> SketchView {
    match group {
        Some(sketch) => sketch,
        None => fresh,
    }
}

/// The group after one row. A row without a token, be it a null or a
/// refused payload, leaves the group as it was, sketch or no sketch.
pub open spec fn advance(group: Option<SketchView>, row: Datum, fresh: SketchView) -> Option<
    SketchView,
> {
    match token_of(row) {
        Some(token) => Some(working_sketch(group, fresh).insert(token)),
        None => group,
    }
}

/// The group after the rows of `rows`, first to last.
pub open spec fn advance_all(group: Option<SketchView>, rows: Seq<Datum>, fresh: SketchView) -> Option<
    SketchView,
>
    decreases rows.len(),
{
    if rows.len() == 0 {
        group
    } else {
        advance(advance_all(group, rows.drop_last(), fresh), rows.last(), fresh)
    }
}

/// The blank sketch with the precision and seed of the group's sketch.
pub open spec fn fresh_sketch_of(group: Option<SketchView>) -> SketchView {
    match group {
        Some(sketch) => SketchView::blank(sketch.precision, sketch.seed),
        None => SketchView::blank(0, 0),
    }
}

/// The bit pattern of a group's estimate: `+0.0` while it has no sketch.
pub open spec fn group_estimate(group: Option<SketchView>) -> u64 {
    match group {
        Some(sketch) => sketch.estimate(),
        None => 0,
    }
}

/// A group's sketch, if it has one, is well-formed.
pub open spec fn group_wf(group: Option<SketchView>) -> bool {
    match group {
        Some(sketch) => sketch.wf(),
        None => true,
    }
}

/// The state that one aggregation group keeps between calls.
pub struct AggregateState {
    sketch: Option<SqliteHll>,
}

impl View for AggregateState {
    type V = Option<SketchView>;

    closed spec fn view(&self) -> Option<SketchView> {
        match self.sketch {
            Some(sketch) => Some(sketch@),
            None => None,
        }
    }
}

impl AggregateState {
    /// The state of a group that has seen no row.
    pub fn new() -> (state: AggregateState)
        ensures
            state@ is None,
    {
        AggregateState { sketch: None }
    }

    /// Whether the group has its sketch yet.
    pub fn is_initialized(&self) -> (initialized: bool)
        ensures
            initialized == (self@ is Some),
            group_wf(self@),
    {
        match &self.sketch {
            Some(sketch) => {
                proof {
                    use_type_invariant(sketch);
                }
                true
            },
            None => false,
        }
    }

    /// Inserts one token, after bringing the sketch into being if this is
    /// the first. `make_sketch` is called then and only then, with the
    /// production error rate, and the counter it returns is wiped.
    pub fn insert<F: FnOnce(u64) -> HyperLogLog>(
        &mut self,
        token: &CanonicalValue,
        make_sketch: F,
    )
        requires
            makes_sketches(make_sketch),
        ensures
            final(self)@ matches Some(sketch) && sketch.wf() && sketch == working_sketch(
                old(self)@,
                fresh_sketch_of(final(self)@),
            ).insert(token@),
            old(self)@ is None ==> exists|counter: HyperLogLog|
                call_ensures(make_sketch, (PRODUCTION_ERROR_RATE_BITS,), counter)
                    && fresh_sketch_of(final(self)@) == SketchView::adopted(counter),
    {
        match &mut self.sketch {
            Some(sketch) => {
                sketch.insert(token);
            },
            None => {
                let counter = make_sketch(PRODUCTION_ERROR_RATE_BITS);
                let mut sketch = SqliteHll::adopt(counter);
                sketch.insert(token);
                self.sketch = Some(sketch);
            },
        }
    }

    /// The group's estimate, as the bit pattern of a binary64.
    pub fn estimate(&self) -> (bits: u64)
        ensures
            bits == group_estimate(self@),
            self@ matches Some(sketch) && sketch.is_blank() ==> bits == 0,
            group_wf(self@),
    {
        match &self.sketch {
            Some(sketch) => {
                proof {
                    use_type_invariant(sketch);
                }
                sketch.len()
            },
            None => 0,
        }
    }
}

/// Takes in the one value of a row.
///
/// A null changes nothing. A binary payload is refused, and the group is left
/// as it was. Any other value is inserted into the group's sketch. The first
/// such value brings the sketch into being: `make_sketch` is called with the
/// production error rate, and the group starts from the counter it returns,
/// wiped. From then on precision and seed stay what they are.
pub fn x_step<F: FnOnce(u64) -> HyperLogLog>(
    state: &mut AggregateState,
    args: Vec<Value>,
    make_sketch: F,
) -> (outcome: Result<(), StepError>)
    requires
        args@.len() == 1,
        makes_sketches(make_sketch),
    ensures
        outcome == match canonical_form(args@[0]@) {
            Ok(_) => Ok::<(), StepError>(()),
            Err(error) => Err::<(), StepError>(error),
        },
        final(state)@ == advance(old(state)@, args@[0]@, fresh_sketch_of(final(state)@)),
        group_wf(final(state)@),
        old(state)@ is None && final(state)@ is Some ==> exists|counter: HyperLogLog|
            call_ensures(make_sketch, (PRODUCTION_ERROR_RATE_BITS,), counter) && fresh_sketch_of(
                final(state)@,
            ) == SketchView::adopted(counter),
{
    if let Some(sketch) = &state.sketch {
        proof {
            use_type_invariant(sketch);
        }
    }
    let mut args = args;
    let value = args.pop().unwrap();
    match canonicalize(value) {
        Ok(Some(token)) => {
            state.insert(&token, make_sketch);
            Ok(())
        },
        Ok(None) => Ok(()),
        Err(error) => Err(error),
    }
}

/// The estimate of a group at its end, as the bit pattern of a binary64. A
/// group that never got a sketch reports `+0.0`.
pub fn x_finalize(state: &AggregateState) -> (bits: u64)
    ensures
        bits == group_estimate(state@),
        state@ is None || state@->0.is_blank() ==> bits == 0,
        group_wf(state@),
{
    state.estimate()
}

} // verus!
