//! Advice inputs of the recursive STARK verifier: the initial operand stack and the advice stack
//! that the MASM verifier consumes, packed from the values of a parsed proof.
//!
//! The advice stack is laid out in the order the MASM verifier reads it:
//!
//!   kernel digests -> stack i/o ->
//!   security parameters (num_queries, query_pow, deep_pow, folding_pow) ->
//!   deferred root -> main commitment -> aux commitment ->
//!   aux finals -> quotient commitment -> DEEP alpha -> OOD evaluations ->
//!   DEEP PoW witness -> FRI rounds -> FRI remainder -> query PoW witness
use crate::felt::{order, Felt};
use crate::word::Word;
use vstd::prelude::*;

verus! {

/// Memory address of the caller-owned region holding the kernel digests.
pub const KERNEL_PTR: u64 = 0;

/// Memory address of the caller-owned region holding the stack inputs and outputs.
pub const STACK_IO_PTR: u64 = 4096;

/// An element of the quadratic extension field, by its two basis coefficients `c0 + c1·u`.
#[derive(Debug, Clone, Copy)]
pub struct QuadFelt {
    /// The coefficient of `1`.
    pub c0: Felt,
    /// The coefficient of `u`.
    pub c1: Felt,
}

/// The out-of-domain evaluations of one committed matrix: a row at `z`, then, when present, a row
/// at `z·g`, each `width` elements long.
#[derive(Debug, Clone)]
pub struct OodMatrix {
    /// Number of columns of the matrix.
    pub width: usize,
    /// The evaluation rows, one after the other.
    pub values: Vec<QuadFelt>,
}

/// A FRI folding round: its layer commitment and its proof-of-work witness.
#[derive(Debug, Clone, Copy)]
pub struct FriRound {
    /// Commitment to the folded layer.
    pub commitment: Word,
    /// Proof-of-work witness of the round.
    pub pow_witness: Felt,
}

/// The values of a parsed proof, its statement and the protocol parameters that the advice is
/// packed from.
#[derive(Debug, Clone)]
pub struct AdviceSource {
    /// Digest of the program.
    pub program_digest: Word,
    /// Digests of the kernel procedures.
    pub kernel_digests: Vec<Word>,
    /// Log2 of the trace height of the core AIR.
    pub log_core_trace_height: usize,
    /// Log2 of the trace height of the chiplets AIR.
    pub log_chiplets_trace_height: usize,
    /// The stack inputs.
    pub stack_inputs: Vec<Felt>,
    /// The stack outputs.
    pub stack_outputs: Vec<Felt>,
    /// Configured number of FRI queries.
    pub num_queries: usize,
    /// Proof-of-work bits of the query phase.
    pub query_pow_bits: usize,
    /// Proof-of-work bits of the DEEP phase.
    pub deep_pow_bits: usize,
    /// Proof-of-work bits of each folding round.
    pub folding_pow_bits: usize,
    /// The final deferred root.
    pub deferred_root: Word,
    /// Commitment to the main traces.
    pub main_commit: Word,
    /// Commitment to the auxiliary traces.
    pub aux_commit: Word,
    /// Auxiliary bus boundary values, per AIR.
    pub all_aux_values: Vec<Vec<QuadFelt>>,
    /// Commitment to the quotient.
    pub quotient_commit: Word,
    /// The DEEP column-batching challenge.
    pub deep_alpha: QuadFelt,
    /// Out-of-domain evaluations, per commitment group, per matrix.
    pub ood_evals: Vec<Vec<OodMatrix>>,
    /// Proof-of-work witness of the DEEP phase.
    pub deep_pow_witness: Felt,
    /// The FRI folding rounds.
    pub fri_rounds: Vec<FriRound>,
    /// The FRI remainder polynomial, in descending degree order.
    pub final_poly: Vec<QuadFelt>,
    /// Proof-of-work witness of the query phase.
    pub query_pow_witness: Felt,
}

/// The operand and advice stacks of the recursive verifier.
#[derive(Debug, Clone)]
pub struct AdviceStacks {
    /// The initial operand stack, first element on top.
    pub initial_stack: Vec<u64>,
    /// The advice stack, in consumption order.
    pub advice_stack: Vec<u64>,
}

// SPECIFICATIONS
// ================================================================================================

/// The canonical integer of an element.
pub open spec fn canon(f: Felt) -> u64 {
    f@ as u64
}

/// The canonical integers of the elements.
pub open spec fn felts_canon(s: Seq<Felt>) -> Seq<u64> {
    s.map_values(|f: Felt| canon(f))
}

/// The canonical integers of the four elements of a word.
pub open spec fn word_canon(w: Word) -> Seq<u64> {
    seq![
        ((w.0 as nat) % order()) as u64,
        ((w.1 as nat) % order()) as u64,
        ((w.2 as nat) % order()) as u64,
        ((w.3 as nat) % order()) as u64,
    ]
}

/// The canonical integers of the words, four per word, in order.
pub open spec fn words_canon(s: Seq<Word>) -> Seq<u64>
    decreases s.len(),
{
    if s.len() == 0 {
        Seq::empty()
    } else {
        words_canon(s.drop_last()) + word_canon(s.last())
    }
}

/// The base-field coefficients of the extension elements, two per element, `c0` first.
pub open spec fn quads_canon(s: Seq<QuadFelt>) -> Seq<u64>
    decreases s.len(),
{
    if s.len() == 0 {
        Seq::empty()
    } else {
        quads_canon(s.drop_last()) + seq![canon(s.last().c0), canon(s.last().c1)]
    }
}

/// The row of a matrix at `z`: its first `width` values.
pub open spec fn local_row(m: OodMatrix) -> Seq<QuadFelt> {
    m.values@.take(m.width as int)
}

/// The row of a matrix at `z·g`: the next `width` values, or none when the matrix holds one row.
pub open spec fn next_row(m: OodMatrix) -> Seq<QuadFelt> {
    if m.values@.len() > m.width {
        m.values@.subrange(m.width as int, 2 * m.width)
    } else {
        Seq::empty()
    }
}

/// The rows at `z` of the matrices, in order.
pub open spec fn group_local(g: Seq<OodMatrix>) -> Seq<QuadFelt>
    decreases g.len(),
{
    if g.len() == 0 {
        Seq::empty()
    } else {
        group_local(g.drop_last()) + local_row(g.last())
    }
}

/// The rows at `z·g` of the matrices, in order.
pub open spec fn group_next(g: Seq<OodMatrix>) -> Seq<QuadFelt>
    decreases g.len(),
{
    if g.len() == 0 {
        Seq::empty()
    } else {
        group_next(g.drop_last()) + next_row(g.last())
    }
}

/// The rows at `z` of all matrices of all groups, in order.
pub open spec fn all_local(gs: Seq<Vec<OodMatrix>>) -> Seq<QuadFelt>
    decreases gs.len(),
{
    if gs.len() == 0 {
        Seq::empty()
    } else {
        all_local(gs.drop_last()) + group_local(gs.last()@)
    }
}

/// The rows at `z·g` of all matrices of all groups, in order.
pub open spec fn all_next(gs: Seq<Vec<OodMatrix>>) -> Seq<QuadFelt>
    decreases gs.len(),
{
    if gs.len() == 0 {
        Seq::empty()
    } else {
        all_next(gs.drop_last()) + group_next(gs.last()@)
    }
}

/// The advice of the out-of-domain evaluations: all rows at `z`, then all rows at `z·g`.
pub open spec fn ood_canon(gs: Seq<Vec<OodMatrix>>) -> Seq<u64> {
    quads_canon(all_local(gs)) + quads_canon(all_next(gs))
}

/// The aux finals of all AIRs, in order.
pub open spec fn aux_canon(s: Seq<Vec<QuadFelt>>) -> Seq<u64>
    decreases s.len(),
{
    if s.len() == 0 {
        Seq::empty()
    } else {
        aux_canon(s.drop_last()) + quads_canon(s.last()@)
    }
}

/// The advice of the FRI rounds: each commitment followed by its proof-of-work witness.
pub open spec fn rounds_canon(s: Seq<FriRound>) -> Seq<u64>
    decreases s.len(),
{
    if s.len() == 0 {
        Seq::empty()
    } else {
        rounds_canon(s.drop_last()) + word_canon(s.last().commitment) + seq![canon(s.last().pow_witness)]
    }
}

/// True when every matrix holds a full row at `z`, and either no row at `z·g` or a full one.
pub open spec fn ood_shapes_ok(gs: Seq<Vec<OodMatrix>>) -> bool {
    forall|i: int, j: int|
        0 <= i < gs.len() && 0 <= j < gs[i]@.len() ==> {
            let m = #[trigger] gs[i]@[j];
            &&& m.width <= m.values@.len()
            &&& m.values@.len() > m.width ==> m.values@.len() >= 2 * m.width
        }
}

/// The initial operand stack: `[kernel_ptr, num_kernel_digests, stack_io_ptr, PROG0..3, log_core,
/// log_chiplets]`, kernel pointer on top.
pub open spec fn initial_stack_spec(src: AdviceSource) -> Seq<u64> {
    seq![KERNEL_PTR, src.kernel_digests@.len() as u64, STACK_IO_PTR]
        + word_canon(src.program_digest)
        + seq![src.log_core_trace_height as u64, src.log_chiplets_trace_height as u64]
}

/// The advice stack, in the order the MASM verifier consumes it.
pub open spec fn advice_stack_spec(src: AdviceSource) -> Seq<u64> {
    words_canon(src.kernel_digests@)
        + felts_canon(src.stack_inputs@ + src.stack_outputs@)
        + seq![src.num_queries as u64, src.query_pow_bits as u64, src.deep_pow_bits as u64, src.folding_pow_bits as u64]
        + word_canon(src.deferred_root)
        + word_canon(src.main_commit)
        + word_canon(src.aux_commit)
        + aux_canon(src.all_aux_values@)
        + word_canon(src.quotient_commit)
        + seq![canon(src.deep_alpha.c1), canon(src.deep_alpha.c0)]
        + ood_canon(src.ood_evals@)
        + seq![canon(src.deep_pow_witness)]
        + rounds_canon(src.fri_rounds@)
        + quads_canon(src.final_poly@)
        + seq![canon(src.query_pow_witness)]
}

// PACKING
// ================================================================================================

/// Appends the canonical integers of the four elements of `w`.
fn push_word(out: &mut Vec<u64>, w: &Word)
    ensures
        final(out)@ == old(out)@ + word_canon(*w),
{
    out.push(Felt::new(w.0).as_canonical_u64());
    out.push(Felt::new(w.1).as_canonical_u64());
    out.push(Felt::new(w.2).as_canonical_u64());
    out.push(Felt::new(w.3).as_canonical_u64());
    proof {
        assert(final(out)@ =~= old(out)@ + word_canon(*w));
    }
}

/// Appends the canonical integers of the elements.
fn push_felts(out: &mut Vec<u64>, fs: &[Felt])
    ensures
        final(out)@ == old(out)@ + felts_canon(fs@),
{
    let ghost start = out@;
    let n = fs.len();
    let mut i: usize = 0;
    while i < n
        invariant
            n == fs@.len(),
            i <= n,
            out@ == start + felts_canon(fs@.take(i as int)),
        decreases n - i,
    {
        out.push(fs[i].as_canonical_u64());
        proof {
            assert(out@ =~= start + felts_canon(fs@.take(i + 1)));
        }
        i += 1;
    }
    proof {
        assert(fs@.take(n as int) =~= fs@);
    }
}

/// Appends the base-field coefficients of the extension elements, `c0` then `c1` for each.
fn push_quads(out: &mut Vec<u64>, qs: &[QuadFelt])
    ensures
        final(out)@ == old(out)@ + quads_canon(qs@),
{
    let ghost start = out@;
    let n = qs.len();
    let mut i: usize = 0;
    while i < n
        invariant
            n == qs@.len(),
            i <= n,
            out@ == start + quads_canon(qs@.take(i as int)),
        decreases n - i,
    {
        out.push(qs[i].c0.as_canonical_u64());
        out.push(qs[i].c1.as_canonical_u64());
        proof {
            assert(qs@.take(i + 1).drop_last() =~= qs@.take(i as int));
            assert(out@ =~= start + quads_canon(qs@.take(i + 1)));
        }
        i += 1;
    }
    proof {
        assert(qs@.take(n as int) =~= qs@);
    }
}

/// The kernel digest advice: the four canonical elements of each digest, in order.
pub fn build_kernel_digest_advice(kernel_digests: &[Word]) -> (r: Vec<u64>)
    ensures
        r@ == words_canon(kernel_digests@),
{
    let mut out: Vec<u64> = Vec::new();
    let n = kernel_digests.len();
    let mut i: usize = 0;
    while i < n
        invariant
            n == kernel_digests@.len(),
            i <= n,
            out@ == words_canon(kernel_digests@.take(i as int)),
        decreases n - i,
    {
        push_word(&mut out, &kernel_digests[i]);
        proof {
            assert(kernel_digests@.take(i + 1).drop_last() =~= kernel_digests@.take(i as int));
        }
        i += 1;
    }
    proof {
        assert(kernel_digests@.take(n as int) =~= kernel_digests@);
    }
    out
}

/// The stack i/o advice: the canonical stack inputs, then the canonical stack outputs.
pub fn build_stack_io_advice(stack_inputs: &[Felt], stack_outputs: &[Felt]) -> (r: Vec<u64>)
    ensures
        r@ == felts_canon(stack_inputs@ + stack_outputs@),
{
    let mut out: Vec<u64> = Vec::new();
    push_felts(&mut out, stack_inputs);
    push_felts(&mut out, stack_outputs);
    proof {
        assert(out@ =~= felts_canon(stack_inputs@ + stack_outputs@));
    }
    out
}

/// The canonical elements of a commitment.
pub fn commitment_to_u64s(commitment: Word) -> (r: Vec<u64>)
    ensures
        r@ == word_canon(commitment),
{
    let mut out: Vec<u64> = Vec::new();
    push_word(&mut out, &commitment);
    proof {
        assert(out@ =~= word_canon(commitment));
    }
    out
}

/// The base-field coefficients of extension-field challenges, two per challenge.
pub fn challenges_to_u64s(challenges: &[QuadFelt]) -> (r: Vec<u64>)
    ensures
        r@ == quads_canon(challenges@),
{
    let mut out: Vec<u64> = Vec::new();
    push_quads(&mut out, challenges);
    proof {
        assert(out@ =~= quads_canon(challenges@));
    }
    out
}

/// Appends the out-of-domain evaluations: the rows at `z` of every matrix, in order, then the rows
/// at `z·g`.
pub fn append_ood_evaluations(advice_stack: &mut Vec<u64>, evals: &Vec<Vec<OodMatrix>>)
    requires
        ood_shapes_ok(evals@),
    ensures
        final(advice_stack)@ == old(advice_stack)@ + ood_canon(evals@),
{
    let mut local_values: Vec<QuadFelt> = Vec::new();
    let mut next_values: Vec<QuadFelt> = Vec::new();
    let n = evals.len();
    let mut i: usize = 0;
    while i < n
        invariant
            n == evals@.len(),
            ood_shapes_ok(evals@),
            i <= n,
            local_values@ == all_local(evals@.take(i as int)),
            next_values@ == all_next(evals@.take(i as int)),
        decreases n - i,
    {
        let group = &evals[i];
        let ghost local_base = local_values@;
        let ghost next_base = next_values@;
        let m = group.len();
        let mut j: usize = 0;
        while j < m
            invariant
                n == evals@.len(),
                ood_shapes_ok(evals@),
                i < n,
                *group == evals@[i as int],
                m == group@.len(),
                j <= m,
                local_values@ == local_base + group_local(group@.take(j as int)),
                next_values@ == next_base + group_next(group@.take(j as int)),
            decreases m - j,
        {
            let matrix = &group[j];
            let width = matrix.width;
            let len = matrix.values.len();
            proof {
                assert(evals@[i as int]@[j as int] == *matrix);
            }
            let ghost lb = local_values@;
            let mut k: usize = 0;
            while k < width
                invariant
                    width == matrix.width,
                    len == matrix.values@.len(),
                    width <= len,
                    k <= width,
                    local_values@ == lb + matrix.values@.take(k as int),
                decreases width - k,
            {
                local_values.push(matrix.values[k]);
                proof {
                    assert(local_values@ =~= lb + matrix.values@.take(k + 1));
                }
                k += 1;
            }
            let ghost nb = next_values@;
            if len > width {
                let mut k: usize = width;
                while k < width + width
                    invariant
                        width == matrix.width,
                        len == matrix.values@.len(),
                        len >= 2 * width,
                        width <= k <= 2 * width,
                        next_values@ == nb + matrix.values@.subrange(width as int, k as int),
                    decreases 2 * width - k,
                {
                    next_values.push(matrix.values[k]);
                    proof {
                        assert(next_values@ =~= nb + matrix.values@.subrange(width as int, k + 1));
                    }
                    k += 1;
                }
            } else {
                proof {
                    assert(next_values@ =~= nb + next_row(*matrix));
                }
            }
            proof {
                assert(group@.take(j + 1).drop_last() =~= group@.take(j as int));
                assert(group@.take(j + 1).last() == *matrix);
                assert(local_values@ =~= local_base + group_local(group@.take(j + 1)));
                assert(next_values@ =~= next_base + group_next(group@.take(j + 1)));
            }
            j += 1;
        }
        proof {
            assert(group@.take(m as int) =~= group@);
            assert(evals@.take(i + 1).drop_last() =~= evals@.take(i as int));
            assert(evals@.take(i + 1).last() == *group);
        }
        i += 1;
    }
    proof {
        assert(evals@.take(n as int) =~= evals@);
    }
    let ghost start = advice_stack@;
    push_quads(advice_stack, local_values.as_slice());
    push_quads(advice_stack, next_values.as_slice());
    proof {
        assert(advice_stack@ =~= start + ood_canon(evals@));
    }
}

/// Packs the values of a parsed proof into the initial operand stack and the advice stack of the
/// MASM recursive verifier.
///
/// The operand stack receives the kernel pointer, the number of kernel digests, the stack i/o
/// pointer, the program digest and the two log trace heights; the advice stack receives the
/// kernel digests, the stack i/o, the security parameters and then the transcript data in the
/// order the verifier consumes it.
pub fn build_advice(src: &AdviceSource) -> (r: AdviceStacks)
    requires
        ood_shapes_ok(src.ood_evals@),
    ensures
        r.initial_stack@ == initial_stack_spec(*src),
        r.advice_stack@ == advice_stack_spec(*src),
{
    let mut initial_stack: Vec<u64> = Vec::new();
    initial_stack.push(KERNEL_PTR);
    initial_stack.push(src.kernel_digests.len() as u64);
    initial_stack.push(STACK_IO_PTR);
    push_word(&mut initial_stack, &src.program_digest);
    initial_stack.push(src.log_core_trace_height as u64);
    initial_stack.push(src.log_chiplets_trace_height as u64);
    proof {
        assert(initial_stack@ =~= initial_stack_spec(*src));
    }

    let mut advice_stack: Vec<u64> = Vec::new();
    let ghost s0 = advice_stack@;
    let kernel_advice = build_kernel_digest_advice(src.kernel_digests.as_slice());
    let mut k: usize = 0;
    while k < kernel_advice.len()
        invariant
            k <= kernel_advice@.len(),
            advice_stack@ == kernel_advice@.take(k as int),
        decreases kernel_advice@.len() - k,
    {
        advice_stack.push(kernel_advice[k]);
        proof {
            assert(advice_stack@ =~= kernel_advice@.take(k + 1));
        }
        k += 1;
    }
    proof {
        assert(kernel_advice@.take(kernel_advice@.len() as int) =~= kernel_advice@);
    }
    let ghost s1 = advice_stack@;
    push_felts(&mut advice_stack, src.stack_inputs.as_slice());
    push_felts(&mut advice_stack, src.stack_outputs.as_slice());
    proof {
        assert(felts_canon(src.stack_inputs@) + felts_canon(src.stack_outputs@) =~= felts_canon(
            src.stack_inputs@ + src.stack_outputs@,
        ));
    }
    advice_stack.push(src.num_queries as u64);
    advice_stack.push(src.query_pow_bits as u64);
    advice_stack.push(src.deep_pow_bits as u64);
    advice_stack.push(src.folding_pow_bits as u64);
    push_word(&mut advice_stack, &src.deferred_root);
    push_word(&mut advice_stack, &src.main_commit);
    push_word(&mut advice_stack, &src.aux_commit);
    let ghost s2 = advice_stack@;
    let n = src.all_aux_values.len();
    let mut i: usize = 0;
    while i < n
        invariant
            n == src.all_aux_values@.len(),
            i <= n,
            advice_stack@ == s2 + aux_canon(src.all_aux_values@.take(i as int)),
        decreases n - i,
    {
        push_quads(&mut advice_stack, src.all_aux_values[i].as_slice());
        proof {
            assert(src.all_aux_values@.take(i + 1).drop_last() =~= src.all_aux_values@.take(i as int));
            assert(advice_stack@ =~= s2 + aux_canon(src.all_aux_values@.take(i + 1)));
        }
        i += 1;
    }
    proof {
        assert(src.all_aux_values@.take(n as int) =~= src.all_aux_values@);
    }
    push_word(&mut advice_stack, &src.quotient_commit);
    advice_stack.push(src.deep_alpha.c1.as_canonical_u64());
    advice_stack.push(src.deep_alpha.c0.as_canonical_u64());
    append_ood_evaluations(&mut advice_stack, &src.ood_evals);
    advice_stack.push(src.deep_pow_witness.as_canonical_u64());
    let ghost s3 = advice_stack@;
    let nr = src.fri_rounds.len();
    let mut j: usize = 0;
    while j < nr
        invariant
            nr == src.fri_rounds@.len(),
            j <= nr,
            advice_stack@ == s3 + rounds_canon(src.fri_rounds@.take(j as int)),
        decreases nr - j,
    {
        push_word(&mut advice_stack, &src.fri_rounds[j].commitment);
        advice_stack.push(src.fri_rounds[j].pow_witness.as_canonical_u64());
        proof {
            assert(src.fri_rounds@.take(j + 1).drop_last() =~= src.fri_rounds@.take(j as int));
            assert(advice_stack@ =~= s3 + rounds_canon(src.fri_rounds@.take(j + 1)));
        }
        j += 1;
    }
    proof {
        assert(src.fri_rounds@.take(nr as int) =~= src.fri_rounds@);
    }
    push_quads(&mut advice_stack, src.final_poly.as_slice());
    advice_stack.push(src.query_pow_witness.as_canonical_u64());
    proof {
        assert(advice_stack@ =~= advice_stack_spec(*src));
    }
    AdviceStacks { initial_stack, advice_stack }
}

// LAWS
// ================================================================================================

/// The FRI advice holds five integers per round, round after round in proof order: at `5 * k` the
/// four elements of round `k`'s commitment, then its proof-of-work witness.
#[verifier::spinoff_prover]
pub proof fn law_fri_rounds_in_order(s: Seq<FriRound>)
    ensures
        rounds_canon(s).len() == 5 * s.len(),
        forall|k: int| 0 <= k < s.len() ==> rounds_canon(s).subrange(5 * k, 5 * k + 4) == word_canon(#[trigger] s[k].commitment)
            && rounds_canon(s)[5 * k + 4] == canon(s[k].pow_witness),
    decreases s.len(),
{
    if s.len() > 0 {
        let init = s.drop_last();
        law_fri_rounds_in_order(init);
        let r = rounds_canon(s);
        let ri = rounds_canon(init);
        let w = word_canon(s.last().commitment);
        let last = seq![canon(s.last().pow_witness)];
        assert(r == ri + w + last);
        lemma_prefix(r, ri + w, last);
        lemma_prefix(ri + w, ri, w);
        assert forall|k: int| 0 <= k < s.len() implies r.subrange(5 * k, 5 * k + 4) == word_canon(#[trigger] s[k].commitment)
            && r[5 * k + 4] == canon(s[k].pow_witness) by {
            if k < s.len() - 1 {
                assert(s[k] == init[k]);
                assert(ri.subrange(5 * k, 5 * k + 4) == word_canon(init[k].commitment));
                assert(r.subrange(5 * k, 5 * k + 4) =~= ri.subrange(5 * k, 5 * k + 4));
                assert(r[5 * k + 4] == ri[5 * k + 4]);
            } else {
                assert(5 * k == ri.len());
                assert(r.subrange(5 * k, 5 * k + 4) =~= w);
                assert(r[5 * k + 4] == last[0]);
            }
        }
    }
}

/// The kernel digest advice holds four integers per digest, digest after digest in order: at
/// `4 * k` the four elements of digest `k`.
#[verifier::spinoff_prover]
pub proof fn law_words_in_order(s: Seq<Word>)
    ensures
        words_canon(s).len() == 4 * s.len(),
        forall|k: int| 0 <= k < s.len() ==> words_canon(s).subrange(4 * k, 4 * k + 4) == word_canon(#[trigger] s[k]),
    decreases s.len(),
{
    if s.len() > 0 {
        let init = s.drop_last();
        law_words_in_order(init);
        let r = words_canon(s);
        let ri = words_canon(init);
        let w = word_canon(s.last());
        assert(r == ri + w);
        lemma_prefix(r, ri, w);
        assert forall|k: int| 0 <= k < s.len() implies r.subrange(4 * k, 4 * k + 4) == word_canon(#[trigger] s[k]) by {
            if k < s.len() - 1 {
                assert(s[k] == init[k]);
                assert(ri.subrange(4 * k, 4 * k + 4) == word_canon(init[k]));
                assert(r.subrange(4 * k, 4 * k + 4) =~= ri.subrange(4 * k, 4 * k + 4));
            } else {
                assert(4 * k == ri.len());
                assert(r.subrange(4 * k, 4 * k + 4) =~= w);
            }
        }
    }
}

/// The extension elements take two integers each, element after element in order: at `2 * k` the
/// coefficient `c0` of element `k`, then its coefficient `c1`.
#[verifier::spinoff_prover]
pub proof fn law_quads_len(s: Seq<QuadFelt>)
    ensures
        quads_canon(s).len() == 2 * s.len(),
        forall|k: int| 0 <= k < s.len() ==> quads_canon(s)[2 * k] == canon((#[trigger] s[k]).c0) && quads_canon(s)[2 * k + 1] == canon(s[k].c1),
    decreases s.len(),
{
    if s.len() > 0 {
        let init = s.drop_last();
        law_quads_len(init);
        assert forall|k: int| 0 <= k < s.len() implies quads_canon(s)[2 * k] == canon((#[trigger] s[k]).c0) && quads_canon(s)[2 * k + 1] == canon(s[k].c1) by {
            if k < s.len() - 1 {
                assert(s[k] == init[k]);
            }
        }
    }
}

/// Where the fixed parts of the advice stack stand: after the kernel digests come the stack
/// inputs then the stack outputs, one integer each; then the query count and the query, DEEP and
/// folding proof-of-work bits; then the deferred root, the main and the aux commitments; then the
/// aux values, after which come the quotient commitment and the DEEP challenge (`c1` first). From
/// the end: the query witness last, before it the remainder coefficients (`c0` then `c1` each, in
/// order), before them the FRI rounds, and before those the DEEP proof-of-work witness.
#[verifier::spinoff_prover]
#[verifier::rlimit(60)]
pub proof fn law_advice_sections(src: AdviceSource)
    ensures
        ({
            let a = advice_stack_spec(src);
            let nk = src.kernel_digests@.len();
            let ni = src.stack_inputs@.len();
            let no = src.stack_outputs@.len();
            let p: int = (4 * nk + ni + no) as int;
            let q: int = p + 16 + aux_canon(src.all_aux_values@).len();
            let nr = src.fri_rounds@.len();
            let nf = src.final_poly@.len();
            let e = a.len() - 1 - 2 * nf;
            let o = e - 5 * nr;
            &&& a.len() == o + 5 * nr + 2 * nf + 1
            &&& forall|k: int| 0 <= k < nk ==> a.subrange(4 * k, 4 * k + 4) == word_canon(#[trigger] src.kernel_digests@[k])
            &&& forall|j: int| 0 <= j < ni ==> a[4 * nk + j] == canon(#[trigger] src.stack_inputs@[j])
            &&& forall|j: int| 0 <= j < no ==> a[4 * nk + ni + j] == canon(#[trigger] src.stack_outputs@[j])
            &&& a.subrange(p, p + 4) == seq![src.num_queries as u64, src.query_pow_bits as u64, src.deep_pow_bits as u64, src.folding_pow_bits as u64]
            &&& a.subrange(p + 4, p + 8) == word_canon(src.deferred_root)
            &&& a.subrange(p + 8, p + 12) == word_canon(src.main_commit)
            &&& a.subrange(p + 12, p + 16) == word_canon(src.aux_commit)
            &&& a.subrange(p + 16, q) == aux_canon(src.all_aux_values@)
            &&& a.subrange(q, q + 4) == word_canon(src.quotient_commit)
            &&& a[q + 4] == canon(src.deep_alpha.c1) && a[q + 5] == canon(src.deep_alpha.c0)
            &&& a.subrange(q + 6, o - 1) == ood_canon(src.ood_evals@)
            &&& a[o - 1] == canon(src.deep_pow_witness)
            &&& forall|k: int| 0 <= k < nr ==> a.subrange(o + 5 * k, o + 5 * k + 4) == word_canon(#[trigger] src.fri_rounds@[k].commitment)
                && a[o + 5 * k + 4] == canon(src.fri_rounds@[k].pow_witness)
            &&& a[a.len() - 1] == canon(src.query_pow_witness)
            &&& forall|k: int| 0 <= k < nf ==> a[e + 2 * k] == canon((#[trigger] src.final_poly@[k]).c0) && a[e + 2 * k + 1] == canon(src.final_poly@[k].c1)
        }),
{
    let a = advice_stack_spec(src);
    law_fri_rounds_in_order(src.fri_rounds@);
    law_quads_len(src.final_poly@);
    let kd = words_canon(src.kernel_digests@);
    law_words_in_order(src.kernel_digests@);
    let io = felts_canon(src.stack_inputs@ + src.stack_outputs@);
    let params = seq![src.num_queries as u64, src.query_pow_bits as u64, src.deep_pow_bits as u64, src.folding_pow_bits as u64];
    let ax = aux_canon(src.all_aux_values@);
    let od = ood_canon(src.ood_evals@);
    let r = rounds_canon(src.fri_rounds@);
    let fp = quads_canon(src.final_poly@);
    let p1 = kd + io;
    let p2 = p1 + params;
    let p3 = p2 + word_canon(src.deferred_root);
    let p4 = p3 + word_canon(src.main_commit);
    let p5 = p4 + word_canon(src.aux_commit);
    let p6 = p5 + ax;
    let p7 = p6 + word_canon(src.quotient_commit);
    let p8 = p7 + seq![canon(src.deep_alpha.c1), canon(src.deep_alpha.c0)];
    let p9 = p8 + od;
    let p10 = p9 + seq![canon(src.deep_pow_witness)];
    let p11 = p10 + r;
    let p12 = p11 + fp;
    assert(a == p12 + seq![canon(src.query_pow_witness)]);
    lemma_prefix(a, p12, seq![canon(src.query_pow_witness)]);
    lemma_prefix(p12, p11, fp);
    lemma_prefix(p11, p10, r);
    lemma_prefix(p10, p9, seq![canon(src.deep_pow_witness)]);
    lemma_prefix(p9, p8, od);
    lemma_prefix(p8, p7, seq![canon(src.deep_alpha.c1), canon(src.deep_alpha.c0)]);
    lemma_prefix(p7, p6, word_canon(src.quotient_commit));
    lemma_prefix(p6, p5, ax);
    lemma_prefix(p5, p4, word_canon(src.aux_commit));
    lemma_prefix(p4, p3, word_canon(src.main_commit));
    lemma_prefix(p3, p2, word_canon(src.deferred_root));
    lemma_prefix(p2, p1, params);
    lemma_prefix(p1, kd, io);
    let nk = src.kernel_digests@.len();
    let ni = src.stack_inputs@.len();
    let no = src.stack_outputs@.len();
    let p: int = (4 * nk + ni + no) as int;
    let q: int = p + 16 + ax.len();
    let nf = src.final_poly@.len();
    let e = a.len() - 1 - 2 * nf;
    let o = e - 5 * src.fri_rounds@.len();
    assert(io.len() == ni + no);
    assert(p1.len() == p);
    assert(p6.len() == q);
    assert(p10.len() == o);
    assert(p11.len() == e);
    assert forall|j: int| 0 <= j < ni implies a[4 * nk + j] == canon(#[trigger] src.stack_inputs@[j]) by {
        assert(a[4 * nk + j] == p1[4 * nk + j]);
        assert(p1[4 * nk + j] == io[j]);
        assert((src.stack_inputs@ + src.stack_outputs@)[j] == src.stack_inputs@[j]);
    }
    assert forall|j: int| 0 <= j < no implies a[4 * nk + ni + j] == canon(#[trigger] src.stack_outputs@[j]) by {
        assert(a[4 * nk + ni + j] == p1[4 * nk + ni + j]);
        assert(p1[4 * nk + ni + j] == io[ni + j]);
        assert((src.stack_inputs@ + src.stack_outputs@)[ni + j] == src.stack_outputs@[j]);
    }
    assert(a.subrange(p, p + 4) =~= params) by {
        assert(a.subrange(p, p + 4) =~= p2.subrange(p, p + 4));
    }
    assert(a.subrange(p + 4, p + 8) =~= word_canon(src.deferred_root)) by {
        assert(a.subrange(p + 4, p + 8) =~= p3.subrange(p + 4, p + 8));
    }
    assert(a.subrange(p + 8, p + 12) =~= word_canon(src.main_commit)) by {
        assert(a.subrange(p + 8, p + 12) =~= p4.subrange(p + 8, p + 12));
    }
    assert(a.subrange(p + 12, p + 16) =~= word_canon(src.aux_commit)) by {
        assert(a.subrange(p + 12, p + 16) =~= p5.subrange(p + 12, p + 16));
    }
    assert(a.subrange(p + 16, q) =~= ax) by {
        assert(a.subrange(p + 16, q) =~= p6.subrange(p + 16, q));
    }
    assert(a.subrange(q, q + 4) =~= word_canon(src.quotient_commit)) by {
        assert(a.subrange(q, q + 4) =~= p7.subrange(q, q + 4));
    }
    assert(a[q + 4] == canon(src.deep_alpha.c1) && a[q + 5] == canon(src.deep_alpha.c0)) by {
        assert(a[q + 4] == p8[q + 4]);
        assert(a[q + 5] == p8[q + 5]);
    }
    assert(a.subrange(q + 6, o - 1) =~= od) by {
        assert(a.subrange(q + 6, o - 1) =~= p9.subrange(q + 6, o - 1));
    }
    assert(a[o - 1] == canon(src.deep_pow_witness)) by {
        assert(a[o - 1] == p10[o - 1]);
    }
    assert forall|k: int| 0 <= k < nf implies a[e + 2 * k] == canon((#[trigger] src.final_poly@[k]).c0) && a[e + 2 * k + 1] == canon(src.final_poly@[k].c1) by {
        assert(a[e + 2 * k] == p12[e + 2 * k]);
        assert(a[e + 2 * k + 1] == p12[e + 2 * k + 1]);
    }
    assert forall|k: int| 0 <= k < nk implies a.subrange(4 * k, 4 * k + 4) == word_canon(#[trigger] src.kernel_digests@[k]) by {
        assert(kd.subrange(4 * k, 4 * k + 4) == word_canon(src.kernel_digests@[k]));
        assert(a.subrange(4 * k, 4 * k + 4) =~= kd.subrange(4 * k, 4 * k + 4));
    }
    assert forall|k: int| 0 <= k < src.fri_rounds@.len() implies a.subrange(o + 5 * k, o + 5 * k + 4) == word_canon(#[trigger] src.fri_rounds@[k].commitment)
        && a[o + 5 * k + 4] == canon(src.fri_rounds@[k].pow_witness) by {
        assert(r.subrange(5 * k, 5 * k + 4) == word_canon(src.fri_rounds@[k].commitment));
        assert(a.subrange(o + 5 * k, o + 5 * k + 4) =~= r.subrange(5 * k, 5 * k + 4));
        assert(a[o + 5 * k + 4] == p11[o + 5 * k + 4]);
        assert(p11[o + 5 * k + 4] == r[5 * k + 4]);
    }
}

/// The start of a concatenation is its first part.
proof fn lemma_prefix(a: Seq<u64>, pre: Seq<u64>, rest: Seq<u64>)
    requires
        a == pre + rest,
    ensures
        a.len() == pre.len() + rest.len(),
        forall|i: int| 0 <= i < pre.len() ==> #[trigger] a[i] == pre[i],
        forall|i: int| 0 <= i < rest.len() ==> #[trigger] a[pre.len() + i] == rest[i],
{
}

/// The initial operand stack holds, from the top: the kernel pointer, the number of kernel
/// digests, the stack I/O pointer, the four elements of the program digest, and the log₂ heights of
/// the core and chiplets traces.
pub proof fn law_initial_stack_layout(src: AdviceSource)
    ensures
        initial_stack_spec(src).len() == 9,
        initial_stack_spec(src)[0] == KERNEL_PTR,
        initial_stack_spec(src)[1] == src.kernel_digests@.len() as u64,
        initial_stack_spec(src)[2] == STACK_IO_PTR,
        initial_stack_spec(src).subrange(3, 7) == word_canon(src.program_digest),
        initial_stack_spec(src)[7] == src.log_core_trace_height as u64,
        initial_stack_spec(src)[8] == src.log_chiplets_trace_height as u64,
{
    assert(initial_stack_spec(src).subrange(3, 7) =~= word_canon(src.program_digest));
}

} // verus!
