//! Instance-level data of the lifted STARK prover and verifier, and the validation of the
//! instances of a proof against their AIRs and trace shapes.
use vstd::prelude::*;
use vstd::arithmetic::power2::{pow2, lemma_pow2_unfold, lemma_pow2_strictly_increases, lemma2_to64};
use vstd::arithmetic::power2::lemma2_to64_rest;
use crate::felt::Felt;

verus! {

// POWERS OF TWO
// ================================================================================================

/// True when `h` is a power of two.
pub open spec fn is_pow2(h: nat) -> bool {
    exists|k: nat| pow2(k) == h
}

/// The exponent of a power of two.
pub open spec fn log2_spec(h: nat) -> nat {
    choose|k: nat| pow2(k) == h
}

proof fn lemma_pow2_injective(a: nat, b: nat)
    requires
        pow2(a) == pow2(b),
    ensures
        a == b,
{
    if a < b {
        lemma_pow2_strictly_increases(a, b);
    } else if b < a {
        lemma_pow2_strictly_increases(b, a);
    }
}

proof fn lemma_log2_of_pow2(k: nat)
    ensures
        is_pow2(pow2(k)),
        log2_spec(pow2(k)) == k,
{
    let c = choose|c: nat| pow2(c) == pow2(k);
    lemma_pow2_injective(c, k);
}

/// Returns the exponent of `h` when it is a power of two, and `None` otherwise.
pub fn log2_exact(h: usize) -> (r: Option<u8>)
    ensures
        r is Some <==> is_pow2(h as nat),
        r matches Some(k) ==> pow2(k as nat) == h && log2_spec(h as nat) == k,
{
    let mut p: usize = 1;
    let mut k: u8 = 0;
    proof {
        lemma2_to64();
    }
    while p < h && p <= usize::MAX / 2
        invariant
            p == pow2(k as nat),
            k < 64,
            pow2(k as nat) <= usize::MAX,
            forall|j: nat| j < k ==> pow2(j) < h,
        decreases 64 - k,
    {
        proof {
            lemma_pow2_unfold(k as nat + 1);
            assert forall|j: nat| j < k + 1 implies pow2(j) < h by {
                if j < k {
                } else {
                    assert(j == k);
                }
            }
            if k + 1 >= 64 {
                lemma2_to64();
                lemma_pow2_strictly_increases(63, k as nat + 1);
                assert(pow2(64) > usize::MAX) by {
                    assert(pow2(64) == 0x10000000000000000);
                }
                if k + 1 > 64 {
                    lemma_pow2_strictly_increases(64, k as nat + 1);
                }
                assert(false);
            }
        }
        p = p * 2;
        k = k + 1;
    }
    if p == h {
        proof {
            lemma_log2_of_pow2(k as nat);
        }
        Some(k)
    } else {
        proof {
            assert(!is_pow2(h as nat)) by {
                if is_pow2(h as nat) {
                    let j = choose|j: nat| pow2(j) == h;
                    if j < k {
                    } else if j == k {
                    } else {
                        lemma_pow2_unfold(k as nat + 1);
                        if j > k + 1 {
                            lemma_pow2_strictly_increases(k as nat + 1, j);
                        }
                        assert(pow2(j) >= 2 * p);
                    }
                }
            }
        }
        None
    }
}

/// Returns `2^k`.
pub fn pow2_usize(k: u8) -> (r: usize)
    requires
        pow2(k as nat) <= usize::MAX,
    ensures
        r == pow2(k as nat),
{
    let mut p: usize = 1;
    let mut i: u8 = 0;
    proof {
        lemma2_to64();
    }
    while i < k
        invariant
            i <= k,
            p == pow2(i as nat),
            pow2(k as nat) <= usize::MAX,
        decreases k - i,
    {
        proof {
            lemma_pow2_unfold(i as nat + 1);
            if i + 1 < k {
                lemma_pow2_strictly_increases(i as nat + 1, k as nat);
            }
        }
        p = p * 2;
        i = i + 1;
    }
    p
}

// INSTANCE DATA
// ================================================================================================

/// Verifier instance: public values and variable-length public inputs.
#[derive(Debug)]
pub struct AirInstance {
    /// Public values for this AIR.
    pub public_values: Vec<Felt>,
    /// Reducible inputs for the cross-AIR identity check; empty if the AIR has no buses.
    pub var_len_public_inputs: Vec<Vec<Felt>>,
}

/// A trace matrix in row-major order: `width` columns, the rows one after the other.
#[derive(Debug)]
pub struct TraceMatrix {
    /// The entries, row by row.
    pub values: Vec<Felt>,
    /// The number of columns.
    pub width: usize,
}

/// The number of rows of a matrix of `len` entries and `width` columns; zero without columns.
pub open spec fn matrix_height(len: nat, width: nat) -> nat {
    if width == 0 {
        0
    } else {
        len / width
    }
}

impl TraceMatrix {
    /// The number of rows.
    pub fn height(&self) -> (r: usize)
        ensures
            r == matrix_height(self.values@.len(), self.width as nat),
    {
        if self.width == 0 {
            0
        } else {
            self.values.len() / self.width
        }
    }
}

/// Prover witness: the main trace, public values and variable-length public inputs of an AIR.
#[derive(Debug)]
pub struct AirWitness {
    /// Main trace matrix.
    pub trace: TraceMatrix,
    /// Public values for this AIR.
    pub public_values: Vec<Felt>,
    /// Variable-length public inputs (reducible inputs for bus identity checks).
    pub var_len_public_inputs: Vec<Vec<Felt>>,
}

impl AirWitness {
    /// Creates a prover witness; the trace height must be a power of two.
    pub fn new(trace: TraceMatrix, public_values: Vec<Felt>, var_len_public_inputs: Vec<Vec<Felt>>) -> (r: Self)
        requires
            is_pow2(matrix_height(trace.values@.len(), trace.width as nat)),
        ensures
            r.trace == trace,
            r.public_values == public_values,
            r.var_len_public_inputs == var_len_public_inputs,
    {
        AirWitness { trace, public_values, var_len_public_inputs }
    }

    /// The verifier instance of the witness: its public values and variable-length inputs,
    /// without the trace.
    pub fn to_instance(&self) -> (r: AirInstance)
        ensures
            r.public_values@ == self.public_values@,
            r.var_len_public_inputs@.len() == self.var_len_public_inputs@.len(),
            forall|i: int| 0 <= i < r.var_len_public_inputs@.len() ==> (#[trigger] r.var_len_public_inputs@[i])@
                == self.var_len_public_inputs@[i]@,
    {
        let public_values = copy_felts(&self.public_values);
        let mut var_len: Vec<Vec<Felt>> = Vec::new();
        let n = self.var_len_public_inputs.len();
        let mut i: usize = 0;
        while i < n
            invariant
                n == self.var_len_public_inputs@.len(),
                i <= n,
                var_len@.len() == i,
                forall|j: int| 0 <= j < i ==> (#[trigger] var_len@[j])@ == self.var_len_public_inputs@[j]@,
            decreases n - i,
        {
            var_len.push(copy_felts(&self.var_len_public_inputs[i]));
            i += 1;
        }
        AirInstance { public_values, var_len_public_inputs: var_len }
    }
}

/// A copy of the elements.
fn copy_felts(v: &Vec<Felt>) -> (r: Vec<Felt>)
    ensures
        r@ == v@,
{
    let mut out: Vec<Felt> = Vec::new();
    let n = v.len();
    let mut i: usize = 0;
    while i < n
        invariant
            n == v@.len(),
            i <= n,
            out@ == v@.take(i as int),
        decreases n - i,
    {
        out.push(v[i]);
        proof {
            assert(out@ =~= v@.take(i + 1));
        }
        i += 1;
    }
    proof {
        assert(v@.take(n as int) =~= v@);
    }
    out
}

/// The reason an AIR reports itself structurally invalid.
#[derive(Debug)]
pub struct AirStructureError {
    /// A description of the defect.
    pub message: String,
}

/// What an AIR reports of its own shape, as the validation of its instances reads it.
#[derive(Debug)]
pub struct AirShape {
    /// Whether the AIR is structurally valid.
    pub validation: Result<(), AirStructureError>,
    /// Width of its main trace.
    pub width: usize,
    /// Number of public values of its instances.
    pub num_public_values: usize,
    /// Number of variable-length public inputs of its instances.
    pub num_var_len_public_inputs: usize,
    /// Lengths of its periodic columns.
    pub periodic_column_lengths: Vec<usize>,
    /// Log₂ of the degree of its quotient polynomial.
    pub log_quotient_degree: usize,
}

/// Errors from validating instance- and protocol-level inputs.
#[derive(Debug)]
pub enum InstanceValidationError {
    /// An AIR is structurally invalid.
    AirStructure(AirStructureError),
    /// No instances were provided, or every trace has height one.
    Empty,
    /// Instances are not in ascending height order.
    NotAscending,
    /// A trace height is not a power of two.
    InvalidTraceHeight { height: usize },
    /// A trace width differs from its AIR's.
    WidthMismatch { expected: usize, actual: usize },
    /// The number of public values differs from the AIR's.
    PublicValuesMismatch { expected: usize, actual: usize },
    /// The number of variable-length public inputs differs from the AIR's.
    VarLenPublicInputsMismatch { expected: usize, actual: usize },
    /// A trace height is less than the AIR's longest periodic column.
    TraceHeightBelowPeriod { trace_height: usize, max_period: usize },
    /// The number of instances differs from the number of log trace heights.
    HeightCountMismatch { instances: usize, log_trace_heights: usize },
    /// The low-degree extension domain is larger than the field's two-adic subgroup.
    LdeDomainExceedsTwoAdicity { log_h: u8, log_blowup: u8, two_adicity: usize },
}

// SHAPES
// ================================================================================================

/// The log₂ trace heights of the heights, or the first error: a height that is not a power of
/// two, or one smaller than the previous height.
pub open spec fn shapes_spec(heights: Seq<usize>) -> Result<Seq<u8>, InstanceValidationError>
    decreases heights.len(),
{
    if heights.len() == 0 {
        Ok(Seq::empty())
    } else {
        match shapes_spec(heights.drop_last()) {
            Err(e) => Err(e),
            Ok(logs) => {
                let h = heights.last();
                if !is_pow2(h as nat) {
                    Err(InstanceValidationError::InvalidTraceHeight { height: h })
                } else {
                    let prev: u8 = if logs.len() == 0 {
                        0
                    } else {
                        logs.last()
                    };
                    if log2_spec(h as nat) < prev {
                        Err(InstanceValidationError::NotAscending)
                    } else {
                        Ok(logs.push(log2_spec(h as nat) as u8))
                    }
                }
            },
        }
    }
}

/// Per-instance shape metadata: one log₂ trace height per instance.
#[derive(Debug)]
pub struct InstanceShapes {
    /// Log₂ of the trace height of each instance, in input order.
    log_trace_heights: Vec<u8>,
}

impl InstanceShapes {
    /// The log₂ trace heights.
    pub closed spec fn spec_logs(&self) -> Seq<u8> {
        self.log_trace_heights@
    }

    /// Constructs the shapes from raw trace heights: rejects a height that is not a power of two
    /// and a height smaller than the one before, and stores their log₂.
    pub fn from_trace_heights(trace_heights: Vec<usize>) -> (r: Result<Self, InstanceValidationError>)
        ensures
            match (r, shapes_spec(trace_heights@)) {
                (Ok(s), Ok(logs)) => s.spec_logs() == logs,
                (Err(e), Err(se)) => e == se,
                _ => false,
            },
    {
        let mut logs: Vec<u8> = Vec::new();
        let mut log_prev: u8 = 0;
        let n = trace_heights.len();
        let mut i: usize = 0;
        while i < n
            invariant
                n == trace_heights@.len(),
                i <= n,
                shapes_spec(trace_heights@.take(i as int)) == Ok::<Seq<u8>, InstanceValidationError>(logs@),
                log_prev == if logs@.len() == 0 {
                    0u8
                } else {
                    logs@.last()
                },
            decreases n - i,
        {
            proof {
                assert(trace_heights@.take(i + 1).drop_last() =~= trace_heights@.take(i as int));
            }
            let h = trace_heights[i];
            let log_h = match log2_exact(h) {
                Some(k) => k,
                None => {
                    proof {
                        lemma_shapes_err_persists(trace_heights@, i + 1, n as int);
                        assert(trace_heights@.take(n as int) =~= trace_heights@);
                    }
                    return Err(InstanceValidationError::InvalidTraceHeight { height: h });
                },
            };
            if log_h < log_prev {
                proof {
                    lemma_shapes_err_persists(trace_heights@, i + 1, n as int);
                    assert(trace_heights@.take(n as int) =~= trace_heights@);
                }
                return Err(InstanceValidationError::NotAscending);
            }
            logs.push(log_h);
            log_prev = log_h;
            i += 1;
        }
        proof {
            assert(trace_heights@.take(n as int) =~= trace_heights@);
        }
        Ok(InstanceShapes { log_trace_heights: logs })
    }

    /// Rebuilds the shapes from their log₂ heights as a proof carries them; they are checked when
    /// the instances are validated against them.
    pub fn from_log_trace_heights(log_trace_heights: Vec<u8>) -> (r: Self)
        ensures
            r.spec_logs() == log_trace_heights@,
    {
        InstanceShapes { log_trace_heights }
    }

    /// Log₂ of the trace height of each instance, in input order.
    pub fn log_trace_heights(&self) -> (r: &[u8])
        ensures
            r@ == self.spec_logs(),
    {
        self.log_trace_heights.as_slice()
    }

    /// The number of instances.
    pub fn len(&self) -> (r: usize)
        ensures
            r == self.spec_logs().len(),
    {
        self.log_trace_heights.len()
    }

    /// True when there is no instance.
    pub fn is_empty(&self) -> (r: bool)
        ensures
            r == (self.spec_logs().len() == 0),
    {
        self.log_trace_heights.len() == 0
    }

    /// The size of the log₂ heights in bytes: one byte per instance.
    pub fn size_in_bytes(&self) -> (r: usize)
        ensures
            r == self.spec_logs().len(),
    {
        self.log_trace_heights.len()
    }

    /// The base field elements absorbed into the Fiat-Shamir challenger for the shapes: one per
    /// log₂ height, in order.
    pub fn observed_elements(&self) -> (r: Vec<Felt>)
        ensures
            r@.len() == self.spec_logs().len(),
            forall|i: int| 0 <= i < r@.len() ==> (#[trigger] r@[i])@ == self.spec_logs()[i] as nat,
    {
        let mut out: Vec<Felt> = Vec::new();
        let n = self.log_trace_heights.len();
        let mut i: usize = 0;
        while i < n
            invariant
                n == self.log_trace_heights@.len(),
                i <= n,
                out@.len() == i,
                forall|j: int| 0 <= j < i ==> (#[trigger] out@[j])@ == self.log_trace_heights@[j] as nat,
            decreases n - i,
        {
            out.push(Felt::from_u8(self.log_trace_heights[i]));
            i += 1;
        }
        out
    }
}

proof fn lemma_shapes_err_persists(heights: Seq<usize>, i: int, j: int)
    requires
        0 <= i <= j <= heights.len(),
        shapes_spec(heights.take(i)) is Err,
    ensures
        shapes_spec(heights.take(j)) == shapes_spec(heights.take(i)),
    decreases j - i,
{
    if i < j {
        lemma_shapes_err_persists(heights, i, j - 1);
        assert(heights.take(j).drop_last() =~= heights.take(j - 1));
    }
}

// VALIDATION
// ================================================================================================

/// The largest log₂ size of a low-degree extension domain: within the field's two-adic subgroup,
/// and small enough that its size fits in `usize`.
pub open spec fn max_log_lde(two_adicity: usize) -> nat {
    if two_adicity < usize::BITS - 1 {
        two_adicity as nat
    } else {
        (usize::BITS - 1) as nat
    }
}

/// The largest of the lengths, or zero.
pub open spec fn max_of(s: Seq<usize>) -> nat
    decreases s.len(),
{
    if s.len() == 0 {
        0
    } else {
        let m = max_of(s.drop_last());
        if s.last() > m {
            s.last() as nat
        } else {
            m
        }
    }
}

/// Checks one instance, with log₂ trace height `log_h`, against its AIR after an instance of log₂
/// height `prev`: returns `log_h`, or the first check that fails.
pub open spec fn check_instance_spec(air: AirShape, inst: AirInstance, log_h: u8, prev: u8, log_blowup: u8, two_adicity: usize) -> Result<u8, InstanceValidationError> {
    if log_h + log_blowup > max_log_lde(two_adicity) {
        Err(InstanceValidationError::LdeDomainExceedsTwoAdicity { log_h, log_blowup, two_adicity })
    } else {
        match air.validation {
            Err(e) => Err(InstanceValidationError::AirStructure(e)),
            Ok(_) => if inst.public_values@.len() != air.num_public_values {
                Err(
                    InstanceValidationError::PublicValuesMismatch {
                        expected: air.num_public_values,
                        actual: inst.public_values@.len() as usize,
                    },
                )
            } else if inst.var_len_public_inputs@.len() != air.num_var_len_public_inputs {
                Err(
                    InstanceValidationError::VarLenPublicInputsMismatch {
                        expected: air.num_var_len_public_inputs,
                        actual: inst.var_len_public_inputs@.len() as usize,
                    },
                )
            } else if log_h < prev {
                Err(InstanceValidationError::NotAscending)
            } else if pow2(log_h as nat) < max_of(air.periodic_column_lengths@) {
                Err(
                    InstanceValidationError::TraceHeightBelowPeriod {
                        trace_height: pow2(log_h as nat) as usize,
                        max_period: max_of(air.periodic_column_lengths@) as usize,
                    },
                )
            } else {
                Ok(log_h)
            },
        }
    }
}

/// Checking the first `k` instances in order: the log₂ height of the last, zero for none, or the
/// first error.
pub open spec fn validate_prefix(instances: Seq<(AirShape, AirInstance)>, logs: Seq<u8>, k: nat, log_blowup: u8, two_adicity: usize) -> Result<u8, InstanceValidationError>
    decreases k,
{
    if k == 0 {
        Ok(0)
    } else {
        match validate_prefix(instances, logs, (k - 1) as nat, log_blowup, two_adicity) {
            Err(e) => Err(e),
            Ok(prev) => check_instance_spec(instances[k - 1].0, instances[k - 1].1, logs[k - 1], prev, log_blowup, two_adicity),
        }
    }
}

/// The outcome of validating instances against their shapes: the log₂ of the largest trace
/// height, or the first error. There must be one shape per instance and a trace of height at
/// least two.
pub open spec fn validate_spec(instances: Seq<(AirShape, AirInstance)>, logs: Seq<u8>, log_blowup: u8, two_adicity: usize) -> Result<u8, InstanceValidationError> {
    if instances.len() != logs.len() {
        Err(InstanceValidationError::HeightCountMismatch { instances: instances.len() as usize, log_trace_heights: logs.len() as usize })
    } else {
        match validate_prefix(instances, logs, instances.len(), log_blowup, two_adicity) {
            Err(e) => Err(e),
            Ok(prev) => if prev == 0 {
                Err(InstanceValidationError::Empty)
            } else {
                Ok(prev)
            },
        }
    }
}

/// Returns the largest of the lengths, or zero.
pub fn max_length(lengths: &Vec<usize>) -> (r: usize)
    ensures
        r == max_of(lengths@),
{
    let mut m: usize = 0;
    let n = lengths.len();
    let mut i: usize = 0;
    while i < n
        invariant
            n == lengths@.len(),
            i <= n,
            m == max_of(lengths@.take(i as int)),
        decreases n - i,
    {
        proof {
            assert(lengths@.take(i + 1).drop_last() =~= lengths@.take(i as int));
        }
        if lengths[i] > m {
            m = lengths[i];
        }
        i += 1;
    }
    proof {
        assert(lengths@.take(n as int) =~= lengths@);
    }
    m
}

/// Checks one instance against its AIR after an instance of log₂ height `prev`.
fn check_instance(air: &AirShape, inst: &AirInstance, log_h: u8, prev: u8, log_blowup: u8, two_adicity: usize) -> (r: Result<u8, InstanceValidationError>)
    ensures
        r == check_instance_spec(*air, *inst, log_h, prev, log_blowup, two_adicity),
{
    let max_lde: usize = if two_adicity < (usize::BITS - 1) as usize {
        two_adicity
    } else {
        (usize::BITS - 1) as usize
    };
    if log_h as usize + log_blowup as usize > max_lde {
        return Err(InstanceValidationError::LdeDomainExceedsTwoAdicity { log_h, log_blowup, two_adicity });
    }
    match &air.validation {
        Err(e) => {
            return Err(InstanceValidationError::AirStructure(AirStructureError { message: e.message.clone() }));
        },
        Ok(_) => {},
    }
    if inst.public_values.len() != air.num_public_values {
        return Err(
            InstanceValidationError::PublicValuesMismatch {
                expected: air.num_public_values,
                actual: inst.public_values.len(),
            },
        );
    }
    if inst.var_len_public_inputs.len() != air.num_var_len_public_inputs {
        return Err(
            InstanceValidationError::VarLenPublicInputsMismatch {
                expected: air.num_var_len_public_inputs,
                actual: inst.var_len_public_inputs.len(),
            },
        );
    }
    if log_h < prev {
        return Err(InstanceValidationError::NotAscending);
    }
    proof {
        lemma2_to64();
        lemma2_to64_rest();
        let top: nat = (usize::BITS - 1) as nat;
        assert(log_h as nat <= top);
        if (log_h as nat) < top {
            lemma_pow2_strictly_increases(log_h as nat, top);
        }
        assert(usize::BITS == 32 || usize::BITS == 64);
    }
    let trace_height = pow2_usize(log_h);
    let max_period = max_length(&air.periodic_column_lengths);
    if trace_height < max_period {
        return Err(InstanceValidationError::TraceHeightBelowPeriod { trace_height, max_period });
    }
    Ok(log_h)
}

/// Cross-checks the instances against their shapes and returns the log₂ of the largest trace
/// height. Checks that there is one shape per instance, and then for each instance in order that
/// its low-degree extension domain fits the field and `usize`, that its AIR is structurally valid,
/// that its public values and variable-length inputs match its AIR, that heights ascend, and that
/// its trace covers the AIR's longest periodic column; at the end, that some trace has height at
/// least two.
pub fn validate_inputs(instances: &[(AirShape, AirInstance)], shapes: &InstanceShapes, log_blowup: u8, two_adicity: usize) -> (r: Result<u8, InstanceValidationError>)
    ensures
        r == validate_spec(instances@, shapes.spec_logs(), log_blowup, two_adicity),
{
    if instances.len() != shapes.len() {
        return Err(InstanceValidationError::HeightCountMismatch { instances: instances.len(), log_trace_heights: shapes.len() });
    }
    let logs = shapes.log_trace_heights();
    let mut log_prev: u8 = 0;
    let n = instances.len();
    let mut i: usize = 0;
    while i < n
        invariant
            n == instances@.len(),
            n == logs@.len(),
            logs@ == shapes.spec_logs(),
            i <= n,
            validate_prefix(instances@, logs@, i as nat, log_blowup, two_adicity) == Ok::<u8, InstanceValidationError>(log_prev),
        decreases n - i,
    {
        match check_instance(&instances[i].0, &instances[i].1, logs[i], log_prev, log_blowup, two_adicity) {
            Ok(h) => {
                log_prev = h;
            },
            Err(e) => {
                proof {
                    lemma_validate_err_persists(instances@, logs@, (i + 1) as nat, n as nat, log_blowup, two_adicity);
                }
                return Err(e);
            },
        }
        i += 1;
    }
    if log_prev == 0 {
        return Err(InstanceValidationError::Empty);
    }
    Ok(log_prev)
}

proof fn lemma_validate_err_persists(instances: Seq<(AirShape, AirInstance)>, logs: Seq<u8>, i: nat, j: nat, log_blowup: u8, two_adicity: usize)
    requires
        i <= j,
        validate_prefix(instances, logs, i, log_blowup, two_adicity) is Err,
    ensures
        validate_prefix(instances, logs, j, log_blowup, two_adicity) == validate_prefix(instances, logs, i, log_blowup, two_adicity),
    decreases j - i,
{
    if i < j {
        lemma_validate_err_persists(instances, logs, i, (j - 1) as nat, log_blowup, two_adicity);
    }
}

// PROVER INPUTS
// ================================================================================================

/// Errors returned by the prover before any proving work.
#[derive(Debug)]
pub enum ProverError {
    /// Instance validation failed.
    Instance(InstanceValidationError),
    /// The constraint degree exceeds the blowup.
    ConstraintDegreeTooHigh { log_quotient_degree: u8, log_blowup: u8 },
}

/// The position of the first instance whose trace width differs from its AIR's, if any.
pub open spec fn first_width_mismatch(instances: Seq<(AirShape, AirInstance)>, widths: Seq<usize>, k: nat) -> Option<int>
    decreases k,
{
    if k == 0 {
        None
    } else {
        match first_width_mismatch(instances, widths, (k - 1) as nat) {
            Some(i) => Some(i),
            None => if widths[k - 1] != instances[k - 1].0.width {
                Some(k - 1)
            } else {
                None
            },
        }
    }
}

/// The largest log₂ quotient degree of the first `k` AIRs, or zero.
pub open spec fn max_quotient_degree(instances: Seq<(AirShape, AirInstance)>, k: nat) -> nat
    decreases k,
{
    if k == 0 {
        0
    } else {
        let m = max_quotient_degree(instances, (k - 1) as nat);
        if instances[k - 1].0.log_quotient_degree > m {
            instances[k - 1].0.log_quotient_degree as nat
        } else {
            m
        }
    }
}

/// The log₂ constraint degree of the AIRs: the largest log₂ quotient degree as a byte, or one for
/// no AIR.
pub open spec fn log_constraint_degree(instances: Seq<(AirShape, AirInstance)>) -> u8 {
    if instances.len() == 0 {
        1
    } else {
        max_quotient_degree(instances, instances.len()) as u8
    }
}

/// The checks the prover makes before proving, in order: the trace heights give shapes, the
/// instances validate against them, every trace has its AIR's width, and the constraint degree
/// does not exceed the blowup. On success, the shapes' log₂ heights, the log₂ of the largest
/// height and the log₂ constraint degree.
pub open spec fn prover_checks_spec(
    instances: Seq<(AirShape, AirInstance)>,
    heights: Seq<usize>,
    widths: Seq<usize>,
    log_blowup: u8,
    two_adicity: usize,
) -> Result<(Seq<u8>, u8, u8), ProverError> {
    match shapes_spec(heights) {
        Err(e) => Err(ProverError::Instance(e)),
        Ok(logs) => match validate_spec(instances, logs, log_blowup, two_adicity) {
            Err(e) => Err(ProverError::Instance(e)),
            Ok(max_log) => match first_width_mismatch(instances, widths, instances.len()) {
                Some(i) => Err(ProverError::Instance(InstanceValidationError::WidthMismatch { expected: instances[i].0.width, actual: widths[i] })),
                None => {
                    let d = log_constraint_degree(instances);
                    if d > log_blowup {
                        Err(ProverError::ConstraintDegreeTooHigh { log_quotient_degree: d, log_blowup })
                    } else {
                        Ok((logs, max_log, d))
                    }
                },
            },
        },
    }
}

/// Makes the checks the prover makes before proving, from the instances with their AIRs and the
/// height and width of each instance's trace. Returns the shapes, the log₂ of the largest trace
/// height and the log₂ constraint degree.
pub fn check_prover_inputs(
    instances: &[(AirShape, AirInstance)],
    trace_heights: Vec<usize>,
    trace_widths: &[usize],
    log_blowup: u8,
    two_adicity: usize,
) -> (r: Result<(InstanceShapes, u8, u8), ProverError>)
    requires
        trace_heights@.len() == instances@.len(),
        trace_widths@.len() == instances@.len(),
    ensures
        match (r, prover_checks_spec(instances@, trace_heights@, trace_widths@, log_blowup, two_adicity)) {
            (Ok((shapes, h, d)), Ok((logs, sh, sd))) => shapes.spec_logs() == logs && h == sh && d == sd,
            (Err(e), Err(se)) => e == se,
            _ => false,
        },
{
    let ghost heights = trace_heights@;
    let shapes = match InstanceShapes::from_trace_heights(trace_heights) {
        Ok(s) => s,
        Err(e) => {
            return Err(ProverError::Instance(e));
        },
    };
    let log_max_trace_height = match validate_inputs(instances, &shapes, log_blowup, two_adicity) {
        Ok(h) => h,
        Err(e) => {
            return Err(ProverError::Instance(e));
        },
    };
    let n = instances.len();
    let mut i: usize = 0;
    while i < n
        invariant
            n == instances@.len(),
            n == trace_widths@.len(),
            i <= n,
            shapes_spec(heights) == Ok::<Seq<u8>, InstanceValidationError>(shapes.spec_logs()),
            heights == trace_heights@,
            validate_spec(instances@, shapes.spec_logs(), log_blowup, two_adicity) == Ok::<u8, InstanceValidationError>(log_max_trace_height),
            first_width_mismatch(instances@, trace_widths@, i as nat) is None,
        decreases n - i,
    {
        if trace_widths[i] != instances[i].0.width {
            proof {
                lemma_width_mismatch_persists(instances@, trace_widths@, (i + 1) as nat, n as nat);
            }
            return Err(ProverError::Instance(InstanceValidationError::WidthMismatch { expected: instances[i].0.width, actual: trace_widths[i] }));
        }
        i += 1;
    }
    let log_constraint_degree = constraint_degree_of(instances);
    if log_constraint_degree > log_blowup {
        return Err(ProverError::ConstraintDegreeTooHigh { log_quotient_degree: log_constraint_degree, log_blowup });
    }
    Ok((shapes, log_max_trace_height, log_constraint_degree))
}

/// Returns the log₂ constraint degree of the AIRs: the largest log₂ quotient degree, as a byte,
/// or one when there is no AIR.
pub fn constraint_degree_of(instances: &[(AirShape, AirInstance)]) -> (r: u8)
    ensures
        r == log_constraint_degree(instances@),
{
    let n = instances.len();
    let mut m: usize = 0;
    let mut k: usize = 0;
    while k < n
        invariant
            n == instances@.len(),
            k <= n,
            m == max_quotient_degree(instances@, k as nat),
        decreases n - k,
    {
        if instances[k].0.log_quotient_degree > m {
            m = instances[k].0.log_quotient_degree;
        }
        k += 1;
    }
    if n == 0 {
        1
    } else {
        #[verifier::truncate]
        (m as u8)
    }
}

/// Errors of the verifier's checks on its inputs before it reads the proof.
#[derive(Debug, Clone, Copy, PartialEq, Eq, Structural)]
pub enum VerifierError {
    /// The constraint degree exceeds the blowup.
    ConstraintDegreeTooHigh { log_quotient_degree: u8, log_blowup: u8 },
}

/// The verifier's check of the constraint degree against the blowup: the log₂ constraint degree of
/// the AIRs, or the error when it exceeds `log_blowup`.
pub fn check_verifier_constraint_degree(instances: &[(AirShape, AirInstance)], log_blowup: u8) -> (r: Result<u8, VerifierError>)
    ensures
        log_constraint_degree(instances@) <= log_blowup ==> r == Ok::<u8, VerifierError>(log_constraint_degree(instances@)),
        log_constraint_degree(instances@) > log_blowup ==> r == Err::<u8, VerifierError>(
            VerifierError::ConstraintDegreeTooHigh { log_quotient_degree: log_constraint_degree(instances@), log_blowup },
        ),
{
    let d = constraint_degree_of(instances);
    if d > log_blowup {
        Err(VerifierError::ConstraintDegreeTooHigh { log_quotient_degree: d, log_blowup })
    } else {
        Ok(d)
    }
}

proof fn lemma_width_mismatch_persists(instances: Seq<(AirShape, AirInstance)>, widths: Seq<usize>, i: nat, j: nat)
    requires
        i <= j,
        first_width_mismatch(instances, widths, i) is Some,
    ensures
        first_width_mismatch(instances, widths, j) == first_width_mismatch(instances, widths, i),
    decreases j - i,
{
    if i < j {
        lemma_width_mismatch_persists(instances, widths, i, (j - 1) as nat);
    }
}

// LAWS
// ================================================================================================

/// Accepted trace heights give one log₂ height per trace, each the exact exponent of its height,
/// in non-decreasing order.
pub proof fn law_shapes_are_ascending_logs(heights: Seq<usize>)
    ensures
        shapes_spec(heights) matches Ok(logs) ==> logs.len() == heights.len()
            && (forall|i: int| 0 <= i < logs.len() ==> pow2(#[trigger] logs[i] as nat) == heights[i])
            && (forall|i: int, j: int| 0 <= i <= j < logs.len() ==> logs[i] <= logs[j]),
    decreases heights.len(),
{
    if heights.len() > 0 {
        law_shapes_are_ascending_logs(heights.drop_last());
        if let Ok(logs) = shapes_spec(heights) {
            let prev_logs = shapes_spec(heights.drop_last())->Ok_0;
            let h = heights.last();
            let k = log2_spec(h as nat);
            assert(pow2(k) == h) by {
                let w = choose|w: nat| pow2(w) == h as nat;
                assert(pow2(w) == h as nat);
            }
            lemma2_to64();
            vstd::arithmetic::power2::lemma2_to64_rest();
            assert(k < 64) by {
                if k >= 64 {
                    if k > 64 {
                        lemma_pow2_strictly_increases(64, k);
                    }
                }
            }
            assert(logs == prev_logs.push(k as u8));
            assert forall|i: int| 0 <= i < logs.len() implies pow2(#[trigger] logs[i] as nat) == heights[i] by {
                if i < prev_logs.len() {
                    assert(logs[i] == prev_logs[i]);
                    assert(heights[i] == heights.drop_last()[i]);
                }
            }
            assert forall|i: int, j: int| 0 <= i <= j < logs.len() implies logs[i] <= logs[j] by {
                if j == logs.len() - 1 && i < j {
                    assert(prev_logs[i] <= prev_logs.last());
                }
            }
        }
    }
}

/// Validated instances report the log₂ height of their last, and tallest, trace: at least one,
/// and no smaller than any other.
pub proof fn law_validated_height_is_max(instances: Seq<(AirShape, AirInstance)>, logs: Seq<u8>, log_blowup: u8, two_adicity: usize)
    ensures
        validate_spec(instances, logs, log_blowup, two_adicity) matches Ok(h) ==> h >= 1 && logs.len() > 0 && h == logs.last()
            && forall|i: int| 0 <= i < logs.len() ==> #[trigger] logs[i] <= h,
{
    if instances.len() == logs.len() {
        lemma_validate_prefix_max(instances, logs, instances.len(), log_blowup, two_adicity);
    }
}

proof fn lemma_validate_prefix_max(instances: Seq<(AirShape, AirInstance)>, logs: Seq<u8>, k: nat, log_blowup: u8, two_adicity: usize)
    requires
        k <= logs.len(),
        k <= instances.len(),
    ensures
        validate_prefix(instances, logs, k, log_blowup, two_adicity) matches Ok(h) ==> (k == 0 ==> h == 0) && (k > 0 ==> h == logs[k - 1])
            && forall|i: int| 0 <= i < k ==> #[trigger] logs[i] <= h,
    decreases k,
{
    if k > 0 {
        lemma_validate_prefix_max(instances, logs, (k - 1) as nat, log_blowup, two_adicity);
    }
}

/// The log₂ constraint degree of AIRs is their largest log₂ quotient degree: no AIR's degree
/// exceeds it and some AIR has it, so an AIR of too high a degree is always seen. With no AIR it is
/// one. (The degree is taken as a byte, as the prover and verifier take it.)
#[verifier::spinoff_prover]
pub proof fn law_constraint_degree_is_max(instances: Seq<(AirShape, AirInstance)>)
    ensures
        instances.len() == 0 ==> log_constraint_degree(instances) == 1,
        instances.len() > 0 && (forall|i: int| 0 <= i < instances.len() ==> (#[trigger] instances[i]).0.log_quotient_degree < 256)
            ==> (forall|i: int| 0 <= i < instances.len() ==> (#[trigger] instances[i]).0.log_quotient_degree <= log_constraint_degree(instances))
            && (exists|i: int| 0 <= i < instances.len() && (#[trigger] instances[i]).0.log_quotient_degree == log_constraint_degree(instances)),
{
    if instances.len() > 0 {
        lemma_max_quotient_degree(instances, instances.len());
    }
}

proof fn lemma_max_quotient_degree(instances: Seq<(AirShape, AirInstance)>, k: nat)
    requires
        0 < k <= instances.len(),
    ensures
        forall|i: int| 0 <= i < k ==> (#[trigger] instances[i]).0.log_quotient_degree <= max_quotient_degree(instances, k),
        exists|i: int| 0 <= i < k && (#[trigger] instances[i]).0.log_quotient_degree == max_quotient_degree(instances, k),
    decreases k,
{
    if k > 1 {
        lemma_max_quotient_degree(instances, (k - 1) as nat);
        let w = choose|i: int| 0 <= i < k - 1 && (#[trigger] instances[i]).0.log_quotient_degree == max_quotient_degree(instances, (k - 1) as nat);
        if instances[k - 1].0.log_quotient_degree > max_quotient_degree(instances, (k - 1) as nat) {
            assert(instances[k - 1].0.log_quotient_degree == max_quotient_degree(instances, k));
        } else {
            assert(instances[w].0.log_quotient_degree == max_quotient_degree(instances, k));
        }
    } else {
        assert(max_quotient_degree(instances, 0) == 0);
        assert(instances[0].0.log_quotient_degree == max_quotient_degree(instances, 1));
    }
}

} // verus!
