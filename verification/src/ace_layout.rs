//! The READ layout of the inputs of an ACE circuit: where the public values, randomness, trace
//! openings, quotient openings, bus boundary values and STARK variables of a proof sit in the
//! flat input array of the circuit.
//!
//! Regions are laid out one after the other in a fixed order; each starts at the first offset
//! after the previous region that is a multiple of its alignment. The native layout aligns
//! nothing; the MASM layout matches what the recursive verifier writes to memory.
use vstd::prelude::*;

verus! {

/// Degree of the extension field: every circuit input slot holds one extension-field element,
/// and an extension-field trace column opens to this many coordinates.
pub const EXT_DEGREE: usize = 2;

/// Number of stark-variable slots of every layout.
pub const NUM_STARK_VARS_BASE: usize = 10;

/// Number of randomness inputs (alpha and beta).
pub const NUM_RANDOMNESS_INPUTS: usize = 2;

// COUNTS AND REGIONS
// ================================================================================================

/// The sizes of the inputs of an AIR that the layout places.
#[derive(Debug, Clone, Copy, PartialEq, Eq, Structural)]
pub struct InputCounts {
    /// Width of the preprocessed trace.
    pub preprocessed_width: usize,
    /// Width of the main trace.
    pub width: usize,
    /// Width of the auxiliary trace, in extension-field columns.
    pub aux_width: usize,
    /// Number of auxiliary bus boundary values.
    pub num_aux_boundary: usize,
    /// Number of public values.
    pub num_public: usize,
    /// Number of randomness challenges.
    pub num_randomness: usize,
    /// Number of periodic columns.
    pub num_periodic: usize,
    /// Number of quotient chunks.
    pub num_quotient_chunks: usize,
}

/// A contiguous range of input slots.
#[derive(Debug, Clone, Copy, PartialEq, Eq, Structural)]
pub struct InputRegion {
    /// First slot of the region.
    pub offset: usize,
    /// Number of slots.
    pub width: usize,
}

/// The regions of a layout, in layout order.
#[derive(Debug, Clone, Copy, PartialEq, Eq, Structural)]
pub struct LayoutRegions {
    /// Public values.
    pub public_values: InputRegion,
    /// Randomness challenges (alpha, beta).
    pub randomness: InputRegion,
    /// Preprocessed trace at the current row.
    pub preprocessed_curr: InputRegion,
    /// Main trace at the current row.
    pub main_curr: InputRegion,
    /// Auxiliary trace coordinates at the current row.
    pub aux_curr: InputRegion,
    /// Quotient chunk coordinates at the current point.
    pub quotient_curr: InputRegion,
    /// Preprocessed trace at the next row.
    pub preprocessed_next: InputRegion,
    /// Main trace at the next row.
    pub main_next: InputRegion,
    /// Auxiliary trace coordinates at the next row.
    pub aux_next: InputRegion,
    /// Quotient chunk coordinates at the next point.
    pub quotient_next: InputRegion,
    /// Auxiliary bus boundary values.
    pub aux_bus_boundary: InputRegion,
    /// STARK variables.
    pub stark_vars: InputRegion,
}

/// The slots of the multi-AIR block of the stark variables: one β coefficient per AIR, then one
/// selector triple (is_first, is_last, is_transition) per AIR.
#[derive(Debug, Clone, Copy, PartialEq, Eq, Structural)]
pub struct MultiAirVarIndices {
    /// Slot of the first β coefficient.
    pub base: usize,
    /// Number of AIRs.
    pub num_airs: usize,
}

/// The slots of the STARK variables.
#[derive(Debug, Clone, Copy, PartialEq, Eq, Structural)]
pub struct StarkVarIndices {
    /// Composition challenge.
    pub alpha: usize,
    /// Trace-length power of the out-of-domain point.
    pub z_pow_n: usize,
    /// Periodic column evaluation point.
    pub z_k: usize,
    /// First-row selector.
    pub is_first: usize,
    /// Last-row selector.
    pub is_last: usize,
    /// Transition selector.
    pub is_transition: usize,
    /// Alignment padding (zero).
    pub reserved: usize,
    /// First barycentric weight.
    pub weight0: usize,
    /// Chunk shift ratio.
    pub f: usize,
    /// First coset shift offset power.
    pub s0: usize,
    /// The multi-AIR block, in a layout over two or more AIRs.
    pub multi_air: Option<MultiAirVarIndices>,
}

/// A named input slot of a multi-AIR layout.
#[derive(Debug, Clone, Copy, PartialEq, Eq, Structural)]
pub enum InputKey {
    /// The β coefficient of the AIR at this position.
    MultiAirBeta(usize),
    /// The lifted first-row selector of the AIR at this position.
    IsFirstAir(usize),
    /// The lifted last-row selector of the AIR at this position.
    IsLastAir(usize),
    /// The lifted transition selector of the AIR at this position.
    IsTransitionAir(usize),
}

/// The layout of the inputs of an ACE circuit.
#[derive(Debug, Clone, Copy)]
pub struct InputLayout {
    /// The regions, in layout order.
    pub regions: LayoutRegions,
    /// The slots of the STARK variables.
    pub stark: StarkVarIndices,
    /// Total number of input slots, padding included.
    pub total_inputs: usize,
    /// The counts the layout was built from.
    pub counts: InputCounts,
}

// ALIGNMENT
// ================================================================================================

/// The alignment a region starts at, in slots.
#[derive(Debug, Clone, Copy, PartialEq, Eq, Structural)]
pub enum Alignment {
    /// Any slot.
    Unaligned,
    /// A multiple of two slots.
    Word,
    /// A multiple of four slots.
    DoubleWord,
    /// A multiple of eight slots.
    QuadWord,
}

/// The number of slots of an alignment.
pub open spec fn align_value(a: Alignment) -> nat {
    match a {
        Alignment::Unaligned => 1,
        Alignment::Word => 2,
        Alignment::DoubleWord => 4,
        Alignment::QuadWord => 8,
    }
}

impl Alignment {
    /// Returns the number of slots of the alignment.
    pub fn value(self) -> (r: usize)
        ensures
            r == align_value(self),
    {
        match self {
            Alignment::Unaligned => 1,
            Alignment::Word => 2,
            Alignment::DoubleWord => 4,
            Alignment::QuadWord => 8,
        }
    }
}

/// The least multiple of `a` that is at least `x`.
#[verifier::opaque]
pub open spec fn round_up(x: nat, a: nat) -> nat {
    if x % a == 0 {
        x
    } else {
        (x + (a - x % a)) as nat
    }
}

proof fn lemma_round_up(x: nat, a: nat)
    requires
        a > 0,
    ensures
        x <= round_up(x, a) < x + a,
        round_up(x, a) % a == 0,
        x % a == 0 ==> round_up(x, a) == x,
{
    reveal(round_up);
    if x % a != 0 {
        let q = x as int / a as int;
        vstd::arithmetic::div_mod::lemma_fundamental_div_mod(x as int, a as int);
        vstd::arithmetic::mul::lemma_mul_is_commutative(a as int, q);
        assert(x + (a - x % a) == (q + 1) * a) by {
            vstd::arithmetic::mul::lemma_mul_is_distributive_add_other_way(a as int, q, 1);
        }
        vstd::arithmetic::div_mod::lemma_mod_multiples_basic(q + 1, a as int);
    }
}

/// The alignments of the regions of a layout policy.
#[derive(Debug, Clone, Copy, PartialEq, Eq, Structural)]
pub struct LayoutPolicy {
    /// Alignment of the public values.
    pub public_values: Alignment,
    /// Alignment of the randomness.
    pub randomness: Alignment,
    /// Alignment of the preprocessed openings.
    pub preprocessed: Alignment,
    /// Alignment of the main openings.
    pub main: Alignment,
    /// Alignment of the auxiliary openings.
    pub aux: Alignment,
    /// Alignment of the quotient openings.
    pub quotient: Alignment,
    /// Alignment of the bus boundary values.
    pub aux_bus_boundary: Alignment,
    /// Alignment of the stark variables.
    pub stark_vars: Alignment,
    /// Alignment of the end of the layout, if any.
    pub end_align: Option<Alignment>,
}

/// The native policy: nothing aligned.
pub open spec fn native_policy() -> LayoutPolicy {
    LayoutPolicy {
        public_values: Alignment::Unaligned,
        randomness: Alignment::Unaligned,
        preprocessed: Alignment::Unaligned,
        main: Alignment::Unaligned,
        aux: Alignment::Unaligned,
        quotient: Alignment::Unaligned,
        aux_bus_boundary: Alignment::Unaligned,
        stark_vars: Alignment::Unaligned,
        end_align: None,
    }
}

/// The MASM policy: the alignments the recursive verifier reads with.
pub open spec fn masm_policy() -> LayoutPolicy {
    LayoutPolicy {
        public_values: Alignment::QuadWord,
        randomness: Alignment::Word,
        preprocessed: Alignment::DoubleWord,
        main: Alignment::DoubleWord,
        aux: Alignment::DoubleWord,
        quotient: Alignment::DoubleWord,
        aux_bus_boundary: Alignment::Word,
        stark_vars: Alignment::Word,
        end_align: Some(Alignment::Word),
    }
}

impl LayoutPolicy {
    /// The native policy.
    pub fn native() -> (r: Self)
        ensures
            r == native_policy(),
    {
        LayoutPolicy {
            public_values: Alignment::Unaligned,
            randomness: Alignment::Unaligned,
            preprocessed: Alignment::Unaligned,
            main: Alignment::Unaligned,
            aux: Alignment::Unaligned,
            quotient: Alignment::Unaligned,
            aux_bus_boundary: Alignment::Unaligned,
            stark_vars: Alignment::Unaligned,
            end_align: None,
        }
    }

    /// The MASM policy.
    pub fn masm() -> (r: Self)
        ensures
            r == masm_policy(),
    {
        LayoutPolicy {
            public_values: Alignment::QuadWord,
            randomness: Alignment::Word,
            preprocessed: Alignment::DoubleWord,
            main: Alignment::DoubleWord,
            aux: Alignment::DoubleWord,
            quotient: Alignment::DoubleWord,
            aux_bus_boundary: Alignment::Word,
            stark_vars: Alignment::Word,
            end_align: Some(Alignment::Word),
        }
    }
}

// BUILDER
// ================================================================================================

/// Allocates regions one after the other.
pub struct LayoutBuilder {
    /// The first free slot.
    pub offset: usize,
}

impl LayoutBuilder {
    /// A builder at slot zero.
    pub fn new() -> (r: Self)
        ensures
            r.offset == 0,
    {
        LayoutBuilder { offset: 0 }
    }

    /// Moves the free slot up to the next multiple of the alignment.
    pub fn align(&mut self, alignment: Alignment)
        requires
            old(self).offset + 8 <= usize::MAX,
        ensures
            final(self).offset == round_up(old(self).offset as nat, align_value(alignment)),
            old(self).offset <= final(self).offset < old(self).offset + 8,
    {
        let a = alignment.value();
        let r = self.offset % a;
        proof {
            reveal(round_up);
        }
        if r != 0 {
            self.offset = self.offset + (a - r);
        }
    }

    /// Allocates a region of `width` slots at the next multiple of the alignment.
    pub fn allocate(&mut self, width: usize, alignment: Alignment) -> (r: InputRegion)
        requires
            old(self).offset + 8 + width <= usize::MAX,
        ensures
            r.offset == round_up(old(self).offset as nat, align_value(alignment)),
            r.width == width,
            final(self).offset == r.offset + width,
            old(self).offset <= r.offset < old(self).offset + 8,
    {
        self.align(alignment);
        let region = InputRegion { offset: self.offset, width };
        self.offset = self.offset + width;
        region
    }
}

// LAYOUT
// ================================================================================================

/// The number of stark-variable slots of a layout over `num_airs` AIRs: a multi-AIR layout has a
/// β coefficient and a selector triple per AIR more.
pub open spec fn num_stark_vars(num_airs: nat) -> nat {
    (NUM_STARK_VARS_BASE + if num_airs >= 2 {
        4 * num_airs
    } else {
        0
    }) as nat
}

/// The slots the regions of a layout occupy, padding aside; a layout fits in `usize` with room for
/// the padding when this plus eight slots per region and for the end stays within `usize::MAX`.
pub open spec fn layout_width(counts: InputCounts, num_airs: nat) -> nat {
    (counts.num_public + NUM_RANDOMNESS_INPUTS + 2 * counts.preprocessed_width + 2 * counts.width + 2 * (
    counts.aux_width * EXT_DEGREE) + 2 * (counts.num_quotient_chunks * EXT_DEGREE) + counts.num_aux_boundary
        + num_stark_vars(num_airs)) as nat
}

/// True when `next` is a region of `width` slots at the first multiple of `align` after `prev`.
pub open spec fn follows(prev: InputRegion, next: InputRegion, width: nat, align: Alignment) -> bool {
    next.offset == round_up((prev.offset + prev.width) as nat, align_value(align)) && next.width == width
}

/// True when `r` holds the regions of the counts under the policy, in layout order, each at the
/// first multiple of its alignment after the previous one.
pub open spec fn regions_of(r: LayoutRegions, counts: InputCounts, policy: LayoutPolicy, num_airs: nat) -> bool {
    let aux = (counts.aux_width * EXT_DEGREE) as nat;
    let quot = (counts.num_quotient_chunks * EXT_DEGREE) as nat;
    &&& r.public_values.offset == 0 && r.public_values.width == counts.num_public
    &&& follows(r.public_values, r.randomness, NUM_RANDOMNESS_INPUTS as nat, policy.randomness)
    &&& follows(r.randomness, r.preprocessed_curr, counts.preprocessed_width as nat, policy.preprocessed)
    &&& follows(r.preprocessed_curr, r.main_curr, counts.width as nat, policy.main)
    &&& follows(r.main_curr, r.aux_curr, aux, policy.aux)
    &&& follows(r.aux_curr, r.quotient_curr, quot, policy.quotient)
    &&& follows(r.quotient_curr, r.preprocessed_next, counts.preprocessed_width as nat, policy.preprocessed)
    &&& follows(r.preprocessed_next, r.main_next, counts.width as nat, policy.main)
    &&& follows(r.main_next, r.aux_next, aux, policy.aux)
    &&& follows(r.aux_next, r.quotient_next, quot, policy.quotient)
    &&& follows(r.quotient_next, r.aux_bus_boundary, counts.num_aux_boundary as nat, policy.aux_bus_boundary)
    &&& follows(r.aux_bus_boundary, r.stark_vars, num_stark_vars(num_airs), policy.stark_vars)
}

/// True when `s` numbers the stark variables from the first slot `b` of the stark-variable region:
/// ten slots `b..b + 10`, then the multi-AIR block at `b + 10` in a layout over two or more AIRs.
pub open spec fn stark_indices_of(s: StarkVarIndices, b: nat, num_airs: nat) -> bool {
    &&& s.alpha == b
    &&& s.z_pow_n == b + 1
    &&& s.z_k == b + 2
    &&& s.is_first == b + 3
    &&& s.is_last == b + 4
    &&& s.is_transition == b + 5
    &&& s.reserved == b + 6
    &&& s.weight0 == b + 7
    &&& s.f == b + 8
    &&& s.s0 == b + 9
    &&& (num_airs >= 2 ==> s.multi_air == Some(MultiAirVarIndices { base: (b + 10) as usize, num_airs: num_airs as usize }))
    &&& (num_airs < 2 ==> s.multi_air is None)
}

/// True when `l` is the layout of the counts under the policy over `num_airs` AIRs.
pub open spec fn is_layout_of(l: InputLayout, counts: InputCounts, policy: LayoutPolicy, num_airs: nat) -> bool {
    let end = (l.regions.stark_vars.offset + l.regions.stark_vars.width) as nat;
    &&& regions_of(l.regions, counts, policy, num_airs)
    &&& stark_indices_of(l.stark, l.regions.stark_vars.offset as nat, num_airs)
    &&& l.total_inputs == match policy.end_align {
        None => end,
        Some(a) => round_up(end, align_value(a)),
    }
    &&& end <= l.total_inputs
    &&& l.counts == counts
}

/// Allocates the regions of the counts under the policy, returning them and the first slot after
/// the last one.
#[verifier::rlimit(30)]
fn allocate_regions(counts: InputCounts, policy: LayoutPolicy, num_airs: usize, stark_slots: usize) -> (r: (LayoutRegions, usize))
    requires
        stark_slots == num_stark_vars(num_airs as nat),
        layout_width(counts, num_airs as nat) + 8 * 13 <= usize::MAX,
    ensures
        regions_of(r.0, counts, policy, num_airs as nat),
        r.1 == r.0.stark_vars.offset + r.0.stark_vars.width,
        r.1 + 8 <= layout_width(counts, num_airs as nat) + 8 * 13,
{
    let aux_coord_width = counts.aux_width * EXT_DEGREE;
    let quotient_width = counts.num_quotient_chunks * EXT_DEGREE;
    let mut builder = LayoutBuilder::new();
    proof {
        lemma_round_up(0, align_value(policy.public_values));
    }
    let public_values = builder.allocate(counts.num_public, policy.public_values);
    let randomness = builder.allocate(NUM_RANDOMNESS_INPUTS, policy.randomness);
    let preprocessed_curr = builder.allocate(counts.preprocessed_width, policy.preprocessed);
    let main_curr = builder.allocate(counts.width, policy.main);
    let aux_curr = builder.allocate(aux_coord_width, policy.aux);
    let quotient_curr = builder.allocate(quotient_width, policy.quotient);
    let preprocessed_next = builder.allocate(counts.preprocessed_width, policy.preprocessed);
    let main_next = builder.allocate(counts.width, policy.main);
    let aux_next = builder.allocate(aux_coord_width, policy.aux);
    let quotient_next = builder.allocate(quotient_width, policy.quotient);
    let aux_bus_boundary = builder.allocate(counts.num_aux_boundary, policy.aux_bus_boundary);
    let stark_vars = builder.allocate(stark_slots, policy.stark_vars);
    (
        LayoutRegions {
            public_values,
            randomness,
            preprocessed_curr,
            main_curr,
            aux_curr,
            quotient_curr,
            preprocessed_next,
            main_next,
            aux_next,
            quotient_next,
            aux_bus_boundary,
            stark_vars,
        },
        builder.offset,
    )
}

impl InputLayout {
    /// Builds the layout of the counts under the policy over `num_airs` AIRs.
    fn build_with_policy(counts: InputCounts, policy: LayoutPolicy, num_airs: usize) -> (r: Self)
        requires
            num_airs >= 1,
            layout_width(counts, num_airs as nat) + 8 * 13 <= usize::MAX,
        ensures
            is_layout_of(r, counts, policy, num_airs as nat),
            r.total_inputs <= layout_width(counts, num_airs as nat) + 8 * 13,
    {
        let is_multi_air = num_airs >= 2;
        let stark_slots = NUM_STARK_VARS_BASE + if is_multi_air {
            4 * num_airs
        } else {
            0
        };
        let (regions, end) = allocate_regions(counts, policy, num_airs, stark_slots);
        let stark_vars = regions.stark_vars;
        let mut builder = LayoutBuilder { offset: end };
        let b = stark_vars.offset;
        let multi_air = if is_multi_air {
            Some(MultiAirVarIndices { base: b + 10, num_airs })
        } else {
            None
        };
        match policy.end_align {
            Some(end_align) => builder.align(end_align),
            None => {},
        }
        proof {
            assert(stark_vars.offset + stark_vars.width <= builder.offset);
        }
        InputLayout {
            regions,
            stark: StarkVarIndices {
                alpha: b,
                z_pow_n: b + 1,
                z_k: b + 2,
                is_first: b + 3,
                is_last: b + 4,
                is_transition: b + 5,
                reserved: b + 6,
                weight0: b + 7,
                f: b + 8,
                s0: b + 9,
                multi_air,
            },
            total_inputs: builder.offset,
            counts,
        }
    }
}

impl InputLayout {
    /// Builds a native layout (no alignment or padding) for a single AIR.
    pub fn new(counts: InputCounts) -> (r: Self)
        requires
            layout_width(counts, 1) + 8 * 13 <= usize::MAX,
        ensures
            is_layout_of(r, counts, native_policy(), 1),
    {
        Self::build_with_policy(counts, LayoutPolicy::native(), 1)
    }

    /// Builds a MASM-compatible layout (alignment and padding enforced) for a single AIR.
    pub fn new_masm(counts: InputCounts) -> (r: Self)
        requires
            layout_width(counts, 1) + 8 * 13 <= usize::MAX,
        ensures
            is_layout_of(r, counts, masm_policy(), 1),
    {
        Self::build_with_policy(counts, LayoutPolicy::masm(), 1)
    }

    /// Builds a native multi-AIR layout for a combined circuit over `num_airs` traces.
    pub fn new_multi_air(counts: InputCounts, num_airs: usize) -> (r: Self)
        requires
            num_airs >= 1,
            layout_width(counts, num_airs as nat) + 8 * 13 <= usize::MAX,
        ensures
            is_layout_of(r, counts, native_policy(), num_airs as nat),
    {
        Self::build_with_policy(counts, LayoutPolicy::native(), num_airs)
    }

    /// Builds a MASM-compatible multi-AIR layout; the stark variables hold a β coefficient and a
    /// lifted selector triple per AIR more.
    pub fn new_masm_multi_air(counts: InputCounts, num_airs: usize) -> (r: Self)
        requires
            num_airs >= 1,
            layout_width(counts, num_airs as nat) + 8 * 13 <= usize::MAX,
        ensures
            is_layout_of(r, counts, masm_policy(), num_airs as nat),
    {
        Self::build_with_policy(counts, LayoutPolicy::masm(), num_airs)
    }

    /// Returns the slot of a multi-AIR input: the β coefficients come first in AIR order, then a
    /// selector triple (is_first, is_last, is_transition) per AIR. A layout over a single AIR, or
    /// an AIR position out of range, has no such slot.
    pub fn index(&self, key: InputKey) -> (r: Option<usize>)
        requires
            self.stark.multi_air matches Some(m) ==> m.base + 4 * m.num_airs <= usize::MAX,
        ensures
            r == index_spec(self.stark.multi_air, key),
    {
        match self.stark.multi_air {
            None => None,
            Some(m) => match key {
                InputKey::MultiAirBeta(i) => if i < m.num_airs {
                    Some(m.base + i)
                } else {
                    None
                },
                InputKey::IsFirstAir(i) => if i < m.num_airs {
                    Some(m.base + m.num_airs + 3 * i)
                } else {
                    None
                },
                InputKey::IsLastAir(i) => if i < m.num_airs {
                    Some(m.base + m.num_airs + 3 * i + 1)
                } else {
                    None
                },
                InputKey::IsTransitionAir(i) => if i < m.num_airs {
                    Some(m.base + m.num_airs + 3 * i + 2)
                } else {
                    None
                },
            },
        }
    }
}

/// The slot of a multi-AIR input in the block `m`, if any.
pub open spec fn index_spec(m: Option<MultiAirVarIndices>, key: InputKey) -> Option<usize> {
    match m {
        None => None,
        Some(m) => match key {
            InputKey::MultiAirBeta(i) => if i < m.num_airs {
                Some((m.base + i) as usize)
            } else {
                None
            },
            InputKey::IsFirstAir(i) => if i < m.num_airs {
                Some((m.base + m.num_airs + 3 * i) as usize)
            } else {
                None
            },
            InputKey::IsLastAir(i) => if i < m.num_airs {
                Some((m.base + m.num_airs + 3 * i + 1) as usize)
            } else {
                None
            },
            InputKey::IsTransitionAir(i) => if i < m.num_airs {
                Some((m.base + m.num_airs + 3 * i + 2) as usize)
            } else {
                None
            },
        },
    }
}

/// The end of a region.
pub open spec fn region_end(r: InputRegion) -> nat {
    (r.offset + r.width) as nat
}

/// The regions of a layout, in layout order.
pub open spec fn region_seq(r: LayoutRegions) -> Seq<InputRegion> {
    seq![
        r.public_values,
        r.randomness,
        r.preprocessed_curr,
        r.main_curr,
        r.aux_curr,
        r.quotient_curr,
        r.preprocessed_next,
        r.main_next,
        r.aux_next,
        r.quotient_next,
        r.aux_bus_boundary,
        r.stark_vars,
    ]
}

/// The alignments of the regions under a policy, in layout order.
pub open spec fn alignment_seq(p: LayoutPolicy) -> Seq<Alignment> {
    seq![
        p.public_values,
        p.randomness,
        p.preprocessed,
        p.main,
        p.aux,
        p.quotient,
        p.preprocessed,
        p.main,
        p.aux,
        p.quotient,
        p.aux_bus_boundary,
        p.stark_vars,
    ]
}

proof fn lemma_follows(prev: InputRegion, next: InputRegion, width: nat, align: Alignment)
    requires
        follows(prev, next, width, align),
    ensures
        region_end(prev) <= next.offset < region_end(prev) + align_value(align),
        next.offset as nat % align_value(align) == 0,
        align_value(align) == 1 ==> next.offset == region_end(prev),
{
    lemma_round_up(region_end(prev), align_value(align));
    if align_value(align) == 1 {
        assert(region_end(prev) % 1 == 0);
    }
}

/// The facts about region `k` and its predecessor that the layout order gives.
pub open spec fn step_facts(s: Seq<InputRegion>, a: Seq<Alignment>, k: int) -> bool {
    &&& region_end(s[k - 1]) <= s[k].offset
    &&& s[k].offset < region_end(s[k - 1]) + align_value(a[k])
    &&& s[k].offset as nat % align_value(a[k]) == 0
    &&& (align_value(a[k]) == 1 ==> s[k].offset == region_end(s[k - 1]))
}

proof fn lemma_regions_follow(l: InputLayout, counts: InputCounts, policy: LayoutPolicy, num_airs: nat)
    requires
        is_layout_of(l, counts, policy, num_airs),
    ensures
        forall|k: int| 0 < k < 12 ==> #[trigger] step_facts(region_seq(l.regions), alignment_seq(policy), k),
{
    let r = l.regions;
    let aux = (counts.aux_width * EXT_DEGREE) as nat;
    let quot = (counts.num_quotient_chunks * EXT_DEGREE) as nat;
    lemma_follows(r.public_values, r.randomness, NUM_RANDOMNESS_INPUTS as nat, policy.randomness);
    lemma_follows(r.randomness, r.preprocessed_curr, counts.preprocessed_width as nat, policy.preprocessed);
    lemma_follows(r.preprocessed_curr, r.main_curr, counts.width as nat, policy.main);
    lemma_follows(r.main_curr, r.aux_curr, aux, policy.aux);
    lemma_follows(r.aux_curr, r.quotient_curr, quot, policy.quotient);
    lemma_follows(r.quotient_curr, r.preprocessed_next, counts.preprocessed_width as nat, policy.preprocessed);
    lemma_follows(r.preprocessed_next, r.main_next, counts.width as nat, policy.main);
    lemma_follows(r.main_next, r.aux_next, aux, policy.aux);
    lemma_follows(r.aux_next, r.quotient_next, quot, policy.quotient);
    lemma_follows(r.quotient_next, r.aux_bus_boundary, counts.num_aux_boundary as nat, policy.aux_bus_boundary);
    lemma_follows(r.aux_bus_boundary, r.stark_vars, num_stark_vars(num_airs), policy.stark_vars);
    let s = region_seq(r);
    let a = alignment_seq(policy);
    assert forall|k: int| 0 < k < 12 implies #[trigger] step_facts(s, a, k) by {
        if k == 1 {
        } else if k == 2 {
        } else if k == 3 {
        } else if k == 4 {
        } else if k == 5 {
        } else if k == 6 {
        } else if k == 7 {
        } else if k == 8 {
        } else if k == 9 {
        } else if k == 10 {
        } else {
        }
    }
}

proof fn lemma_chain(s: Seq<InputRegion>, a: Seq<Alignment>, i: int, j: int)
    requires
        0 <= i < j < s.len(),
        forall|k: int| 0 < k < s.len() ==> #[trigger] step_facts(s, a, k),
    ensures
        region_end(s[i]) <= s[j].offset,
    decreases j - i,
{
    assert(step_facts(s, a, j));
    if i + 1 < j {
        lemma_chain(s, a, i, j - 1);
    }
}

/// In every layout the regions come in layout order without overlapping: each region ends at
/// or before the next one starts, and the last ends at or before the total.
pub proof fn law_regions_in_order(l: InputLayout, counts: InputCounts, policy: LayoutPolicy, num_airs: nat)
    requires
        is_layout_of(l, counts, policy, num_airs),
    ensures
        forall|i: int, j: int| 0 <= i < j < 12 ==> region_end(#[trigger] region_seq(l.regions)[i]) <= #[trigger] region_seq(l.regions)[j].offset,
        forall|i: int| 0 <= i < 12 ==> region_end(#[trigger] region_seq(l.regions)[i]) <= l.total_inputs,
{
    lemma_regions_follow(l, counts, policy, num_airs);
    let s = region_seq(l.regions);
    let a = alignment_seq(policy);
    assert forall|i: int, j: int| 0 <= i < j < 12 implies region_end(#[trigger] s[i]) <= #[trigger] s[j].offset by {
        lemma_chain(s, a, i, j);
    }
    assert forall|i: int| 0 <= i < 12 implies region_end(#[trigger] s[i]) <= l.total_inputs by {
        if i < 11 {
            assert(region_end(s[i]) <= s[11].offset);
        }
    }
}

/// Every region starts at a multiple of its alignment under the policy, and the total is a
/// multiple of the end alignment.
pub proof fn law_regions_aligned(l: InputLayout, counts: InputCounts, policy: LayoutPolicy, num_airs: nat)
    requires
        is_layout_of(l, counts, policy, num_airs),
    ensures
        forall|k: int| 0 <= k < 12 ==> (#[trigger] region_seq(l.regions)[k]).offset as nat % align_value(alignment_seq(policy)[k]) == 0,
        policy.end_align matches Some(a) ==> l.total_inputs as nat % align_value(a) == 0,
{
    lemma_regions_follow(l, counts, policy, num_airs);
    let s = region_seq(l.regions);
    let a = alignment_seq(policy);
    assert forall|k: int| 0 <= k < 12 implies (#[trigger] s[k]).offset as nat % align_value(a[k]) == 0 by {
        if k == 0 {
            assert(0nat % align_value(policy.public_values) == 0);
        } else {
            assert(step_facts(s, a, k));
        }
    }
    match policy.end_align {
        Some(e) => lemma_round_up(region_end(l.regions.stark_vars), align_value(e)),
        None => {},
    }
}

/// The native layout has no padding: each region starts where the previous one ends, and the
/// total is the number of slots the regions occupy.
pub proof fn law_native_layout_dense(l: InputLayout, counts: InputCounts, num_airs: nat)
    requires
        is_layout_of(l, counts, native_policy(), num_airs),
    ensures
        forall|k: int| 0 < k < 12 ==> (#[trigger] region_seq(l.regions)[k]).offset == region_end(region_seq(l.regions)[k - 1]),
        l.total_inputs == layout_width(counts, num_airs),
{
    lemma_regions_follow(l, counts, native_policy(), num_airs);
    let s = region_seq(l.regions);
    let a = alignment_seq(native_policy());
    assert forall|k: int| 0 < k < 12 implies (#[trigger] s[k]).offset == region_end(s[k - 1]) by {
        assert(step_facts(s, a, k));
    }
    assert(step_facts(s, a, 1));
    assert(step_facts(s, a, 2));
    assert(step_facts(s, a, 3));
    assert(step_facts(s, a, 4));
    assert(step_facts(s, a, 5));
    assert(step_facts(s, a, 6));
    assert(step_facts(s, a, 7));
    assert(step_facts(s, a, 8));
    assert(step_facts(s, a, 9));
    assert(step_facts(s, a, 10));
    assert(step_facts(s, a, 11));
}

/// In a layout over two or more AIRs, every multi-AIR input slot lies in the stark-variable
/// region after its ten fixed slots, and distinct inputs have distinct slots.
pub proof fn law_multi_air_slots(l: InputLayout, counts: InputCounts, policy: LayoutPolicy, num_airs: nat, k1: InputKey, k2: InputKey)
    requires
        is_layout_of(l, counts, policy, num_airs),
        num_airs >= 2,
    ensures
        index_spec(l.stark.multi_air, k1) matches Some(s) ==> l.regions.stark_vars.offset + NUM_STARK_VARS_BASE <= s
            < region_end(l.regions.stark_vars),
        index_spec(l.stark.multi_air, k1) matches Some(s1) ==> (index_spec(l.stark.multi_air, k2) matches Some(s2) ==> (s1
            == s2 <==> k1 == k2)),
{
}

/// In a layout over two or more AIRs, the multi-AIR block holds the β coefficients of the AIRs in
/// AIR order, then for each AIR in order its three selectors: first-row, last-row, transition. So
/// with `b` the slot of the first β, AIR `i` has its β at `b + i` and its selectors at
/// `b + num_airs + 3 * i`, `+ 1` and `+ 2`, and every slot of the block is taken once.
#[verifier::spinoff_prover]
pub proof fn law_multi_air_block_order(l: InputLayout, counts: InputCounts, policy: LayoutPolicy, num_airs: nat, i: usize)
    requires
        is_layout_of(l, counts, policy, num_airs),
        num_airs >= 2,
        i < num_airs,
    ensures
        index_spec(l.stark.multi_air, InputKey::MultiAirBeta(0)) matches Some(b) && {
            &&& index_spec(l.stark.multi_air, InputKey::MultiAirBeta(i)) == Some((b + i) as usize)
            &&& index_spec(l.stark.multi_air, InputKey::IsFirstAir(i)) == Some((b + num_airs + 3 * i) as usize)
            &&& index_spec(l.stark.multi_air, InputKey::IsLastAir(i)) == Some((b + num_airs + 3 * i + 1) as usize)
            &&& index_spec(l.stark.multi_air, InputKey::IsTransitionAir(i)) == Some((b + num_airs + 3 * i + 2) as usize)
            &&& b + 4 * num_airs <= region_end(l.regions.stark_vars)
        },
        index_spec(l.stark.multi_air, InputKey::MultiAirBeta(num_airs as usize)) is None,
        index_spec(l.stark.multi_air, InputKey::IsFirstAir(num_airs as usize)) is None,
{
    law_multi_air_slots(l, counts, policy, num_airs, InputKey::IsTransitionAir((num_airs - 1) as usize), InputKey::IsTransitionAir((num_airs - 1) as usize));
}

// CONFIGURATION
// ================================================================================================

/// Layout strategy for arranging ACE inputs.
#[derive(Debug, Clone, Copy, PartialEq, Eq, Structural)]
pub enum LayoutKind {
    /// Minimal layout used for off-VM evaluation.
    Native,
    /// MASM-aligned layout used by the recursive verifier.
    Masm,
}

/// Configuration for building an ACE circuit and its input layout.
#[derive(Debug, Clone, Copy, PartialEq, Eq, Structural)]
pub struct AceConfig {
    /// Number of quotient chunks used by the AIR.
    pub num_quotient_chunks: usize,
    /// Layout policy (native or MASM).
    pub layout: LayoutKind,
    /// Number of AIRs the circuit is built over: `1` for the plain single-AIR layout, two or more
    /// for a layout with a β coefficient and a lifted selector triple per AIR.
    pub num_airs: usize,
}

/// The policy of a layout kind.
pub open spec fn policy_of(kind: LayoutKind) -> LayoutPolicy {
    match kind {
        LayoutKind::Native => native_policy(),
        LayoutKind::Masm => masm_policy(),
    }
}

/// The number of AIRs a configuration lays out: its count when two or more, otherwise one.
pub open spec fn laid_out_airs(config: AceConfig) -> nat {
    if config.num_airs >= 2 {
        config.num_airs as nat
    } else {
        1
    }
}

/// The input counts of an AIR, from what the AIR reports of itself and the configuration. The
/// AIR must declare exactly two randomness challenges (alpha and beta), and the configuration at
/// least one quotient chunk.
pub fn input_counts_for_air(
    preprocessed_width: usize,
    width: usize,
    aux_width: usize,
    num_aux_values: usize,
    num_public_values: usize,
    num_randomness: usize,
    num_periodic: usize,
    config: AceConfig,
) -> (r: InputCounts)
    requires
        config.num_quotient_chunks > 0,
        num_randomness == 2,
    ensures
        r == (InputCounts {
            preprocessed_width,
            width,
            aux_width,
            num_aux_boundary: num_aux_values,
            num_public: num_public_values,
            num_randomness,
            num_periodic,
            num_quotient_chunks: config.num_quotient_chunks,
        }),
{
    InputCounts {
        preprocessed_width,
        width,
        aux_width,
        num_aux_boundary: num_aux_values,
        num_public: num_public_values,
        num_randomness,
        num_periodic,
        num_quotient_chunks: config.num_quotient_chunks,
    }
}

/// The input layout a configuration asks for: native or MASM, over one AIR or over `num_airs`
/// AIRs when there are two or more.
pub fn build_ace_layout_for_air(counts: InputCounts, config: AceConfig) -> (r: InputLayout)
    requires
        layout_width(counts, laid_out_airs(config)) + 8 * 13 <= usize::MAX,
    ensures
        is_layout_of(r, counts, policy_of(config.layout), laid_out_airs(config)),
{
    match (config.layout, config.num_airs >= 2) {
        (LayoutKind::Native, false) => InputLayout::new(counts),
        (LayoutKind::Masm, false) => InputLayout::new_masm(counts),
        (LayoutKind::Native, true) => InputLayout::new_multi_air(counts, config.num_airs),
        (LayoutKind::Masm, true) => InputLayout::new_masm_multi_air(counts, config.num_airs),
    }
}

} // verus!
