//! The cardinality sketch: an array of registers kept by a
//! `hyperloglog::HyperLogLog` counter, and what inserting a token does to it.
//!
//! The counter is an outside type. Its registers, the precision and seed it
//! was made with, the digest of a token and the estimate are named here and
//! tied to the counter's methods by the contracts of three small wrappers;
//! everything else in this crate is proved from those contracts.

use crate::canonical::{CanonicalValue, Token};
use hyperloglog::HyperLogLog;
use vstd::arithmetic::power2::{lemma_pow2_pos, pow2};
use vstd::prelude::*;
use vstd::std_specs::bits::{axiom_u64_leading_zeros, u64_leading_zeros};

verus! {

#[verifier::external_type_specification]
#[verifier::external_body]
pub struct ExHyperLogLog(HyperLogLog);

/// The registers of a counter, in index order.
pub uninterp spec fn sketch_registers(counter: HyperLogLog) -> Seq<u8>;

/// What a counter was made with: its precision (the binary logarithm of its
/// register count) and the 128-bit seed of its keyed hash function.
pub uninterp spec fn sketch_setup(counter: HyperLogLog) -> (u8, u128);

/// The 64-bit digest of a token under the keyed hash function seeded with
/// `seed`.
pub uninterp spec fn token_digest(seed: u128, token: Token) -> u64;

/// The bit pattern of the binary64 estimate that a counter with these
/// registers reports.
pub uninterp spec fn estimate_bits(registers: Seq<u8>) -> u64;

/// The smallest precision a counter can have.
pub const MIN_PRECISION: u8 = 4;

/// The largest precision a sketch can have: the largest at which a counter
/// can give its estimate.
pub const MAX_PRECISION: u8 = 14;

/// The largest precision a counter can have. At 15 and 16 it can be made and
/// filled, but asking for its estimate fails.
pub const MAX_COUNTER_PRECISION: u8 = 16;

/// Whether a counter can serve as a sketch, that is, give an estimate.
pub open spec fn estimable(counter: HyperLogLog) -> bool {
    sketch_setup(counter).0 <= MAX_PRECISION
}

/// `count` registers that have seen nothing.
pub open spec fn blank_registers(count: nat) -> Seq<u8> {
    Seq::new(count, |j: int| 0u8)
}

/// The register that a digest falls into: its low `precision` bits.
pub open spec fn register_index(digest: u64, precision: nat) -> int {
    digest as int % pow2(precision) as int
}

/// The rank of a digest: one more than the number of leading zeros among the
/// `64 - precision` bits that the index leaves over.
pub open spec fn register_rank(digest: u64, precision: nat) -> int {
    u64_leading_zeros(digest >> (precision as u64)) - precision + 1
}

/// The registers after one digest: its register is raised to its rank if it
/// was lower, and nothing else changes.
pub open spec fn absorb(registers: Seq<u8>, precision: nat, digest: u64) -> Seq<u8> {
    let index = register_index(digest, precision);
    let rank = register_rank(digest, precision);
    if rank > registers[index] {
        registers.update(index, rank as u8)
    } else {
        registers
    }
}

/// The mathematical content of a sketch.
pub struct SketchView {
    pub precision: nat,
    pub seed: u128,
    pub registers: Seq<u8>,
}

impl SketchView {
    /// A sketch has `2^precision` registers, and none of them exceeds the
    /// largest rank that `64 - precision` bits can give.
    pub open spec fn wf(self) -> bool {
        &&& MIN_PRECISION <= self.precision <= MAX_PRECISION
        &&& self.registers.len() == pow2(self.precision)
        &&& forall|j: int|
            0 <= j < self.registers.len() ==> #[trigger] self.registers[j] <= 65 - self.precision
    }

    /// The sketch of this precision and seed that has seen nothing.
    pub open spec fn blank(precision: nat, seed: u128) -> SketchView {
        SketchView { precision, seed, registers: blank_registers(pow2(precision)) }
    }

    /// The sketch that `counter` becomes when a group adopts it: one of its
    /// precision and seed that has seen nothing.
    pub open spec fn adopted(counter: HyperLogLog) -> SketchView {
        Self::blank(sketch_setup(counter).0 as nat, sketch_setup(counter).1)
    }

    /// No insertion has left a trace.
    pub open spec fn is_blank(self) -> bool {
        self.registers == blank_registers(self.registers.len())
    }

    /// The register and the rank that `token` maps to in this sketch.
    pub open spec fn slot(self, token: Token) -> (int, int) {
        let digest = token_digest(self.seed, token);
        (register_index(digest, self.precision), register_rank(digest, self.precision))
    }

    /// The sketch after `token` was inserted.
    pub open spec fn insert(self, token: Token) -> SketchView {
        SketchView {
            registers: absorb(self.registers, self.precision, token_digest(self.seed, token)),
            ..self
        }
    }

    /// The sketch after the tokens of `tokens` were inserted, first to last.
    pub open spec fn insert_all(self, tokens: Seq<Token>) -> SketchView
        decreases tokens.len(),
    {
        if tokens.len() == 0 {
            self
        } else {
            self.insert_all(tokens.drop_last()).insert(tokens.last())
        }
    }

    /// The bit pattern of the estimate.
    pub open spec fn estimate(self) -> u64 {
        estimate_bits(self.registers)
    }
}

/// Calls `HyperLogLog::clear`, which fills the registers with zero and
/// touches nothing else. The contract adds what holds of every counter: its
/// precision lies between 4 and 16, as the constructors assert, and it has
/// `2^precision` registers.
#[verifier::external_body]
fn sketch_clear(counter: &mut HyperLogLog)
    ensures
        sketch_setup(*final(counter)) == sketch_setup(*old(counter)),
        MIN_PRECISION <= sketch_setup(*final(counter)).0 <= MAX_COUNTER_PRECISION,
        sketch_registers(*final(counter)) == blank_registers(
            pow2(sketch_setup(*final(counter)).0 as nat),
        ),
{
    counter.clear()
}

/// Calls `HyperLogLog::insert`, which hashes the token with a copy of the
/// counter's keyed hasher and hands the digest to `insert_by_hash_value`:
/// the digest's low bits pick a register, and the register is raised to the
/// digest's rank if it was lower. Precision and seed stay as they were, and
/// no step of it can panic: the index is masked to the array's length and the
/// rank is at least one.
#[verifier::external_body]
fn sketch_insert(counter: &mut HyperLogLog, token: &CanonicalValue)
    ensures
        sketch_setup(*final(counter)) == sketch_setup(*old(counter)),
        sketch_registers(*final(counter)) == absorb(
            sketch_registers(*old(counter)),
            sketch_setup(*old(counter)).0 as nat,
            token_digest(sketch_setup(*old(counter)).1, token@),
        ),
    no_unwind
{
    counter.insert(token)
}

/// Calls `HyperLogLog::len` and hands the estimate back as its bit pattern.
/// The estimate is computed from the registers alone; while all of them are
/// zero it is the linear-counting value `m * ln(m / m)`, which is `+0.0`.
/// While a register is zero, `len` looks up a threshold in a table of 15
/// entries by the precision itself: precisions 15 and 16 are left out.
#[verifier::external_body]
fn sketch_estimate(counter: &HyperLogLog) -> (bits: u64)
    requires
        sketch_setup(*counter).0 <= MAX_PRECISION,
    ensures
        bits == estimate_bits(sketch_registers(*counter)),
        sketch_registers(*counter).len() > 0 && sketch_registers(*counter) == blank_registers(
            sketch_registers(*counter).len(),
        ) ==> bits == 0,
{
    counter.len().to_bits()
}

/// A digest's register lies within the array, and its rank within what a
/// register of a well-formed sketch may hold.
pub proof fn lemma_slot_bounds(digest: u64, precision: nat)
    requires
        MIN_PRECISION <= precision <= MAX_PRECISION,
    ensures
        0 <= register_index(digest, precision) < pow2(precision),
        1 <= register_rank(digest, precision) <= 65 - precision,
{
    lemma_pow2_pos(precision);
    let shift = precision as u64;
    let rest = digest >> shift;
    axiom_u64_leading_zeros(rest);
    let zeros = u64_leading_zeros(rest);
    if zeros < precision {
        // The highest set bit of `rest` would lie among the bits that the
        // shift has cleared.
        let top = (63 - zeros) as u64;
        assert(((digest >> shift) >> top) & 1u64 == 0u64) by (bit_vector)
            requires
                4 <= shift <= 16,
                64 - shift <= top < 64,
        ;
    }
}

/// Inserting keeps a sketch well-formed.
pub proof fn lemma_insert_keeps_wf(sketch: SketchView, token: Token)
    requires
        sketch.wf(),
    ensures
        sketch.insert(token).wf(),
{
    lemma_slot_bounds(token_digest(sketch.seed, token), sketch.precision);
}

/// One sketch of one aggregation group.
pub struct SqliteHll {
    inner: HyperLogLog,
}

impl View for SqliteHll {
    type V = SketchView;

    closed spec fn view(&self) -> SketchView {
        SketchView {
            precision: sketch_setup(self.inner).0 as nat,
            seed: sketch_setup(self.inner).1,
            registers: sketch_registers(self.inner),
        }
    }
}

impl SqliteHll {
    /// Every sketch is well-formed.
    #[verifier::type_invariant]
    pub open spec fn inv(self) -> bool {
        self@.wf()
    }

    /// Takes over `counter` as the sketch of a new group. Whatever the
    /// counter has seen is wiped, so that the group starts from nothing.
    pub fn adopt(counter: HyperLogLog) -> (sketch: SqliteHll)
        requires
            estimable(counter),
        ensures
            sketch@.wf(),
            sketch@ == SketchView::adopted(counter),
    {
        let mut inner = counter;
        sketch_clear(&mut inner);
        SqliteHll { inner }
    }

    /// Inserts one token.
    pub fn insert(&mut self, token: &CanonicalValue)
        ensures
            final(self)@ == old(self)@.insert(token@),
            final(self)@.wf(),
    {
        proof {
            use_type_invariant(&*self);
            lemma_insert_keeps_wf(self@, token@);
        }
        sketch_insert(&mut self.inner, token);
    }

    /// The estimated number of distinct tokens inserted so far, as the bit
    /// pattern of a binary64. A sketch that has seen nothing reports `+0.0`.
    pub fn len(&self) -> (bits: u64)
        ensures
            bits == self@.estimate(),
            self@.is_blank() ==> bits == 0,
    {
        proof {
            use_type_invariant(self);
            lemma_pow2_pos(self@.precision);
        }
        sketch_estimate(&self.inner)
    }
}

} // verus!
