//! Construction-time validation of the dataset and the parameters.
//!
//! The parameters are fixed-point values: `alpha` and `beta` hold the real
//! parameters times [`crate::utils::SCALE`], so the real ranges
//! `0 < alpha < 1` and `0 < beta < alpha` become exact integer ranges.
//! Validation failure carries the first fault found, in the fixed order:
//! parameters, emptiness, dimension, then each vector in turn.

use crate::utils::{
    all_bounded, dot_product, is_unit, sq_norm, views, MAX_COORD, NORM_TOL, SCALE, SQ_SCALE,
};
use vstd::prelude::*;

verus! {

/// A reason construction must be refused.
#[derive(Clone, Copy, Debug, PartialEq, Eq, Structural)]
pub enum ValidationError {
    /// `alpha` is outside the open interval (0, 1).
    InvalidAlpha,
    /// `beta` is outside the open interval (0, alpha).
    InvalidBeta,
    /// `theta` is not positive.
    InvalidTheta,
    /// The dataset holds no vectors.
    EmptyDataset,
    /// The vectors have dimension zero.
    ZeroDimension,
    /// The vector at this index differs in dimension from the first vector.
    DimensionMismatch(usize),
    /// The vector at this index is not unit-normalized; the payload is its
    /// observed squared norm in fixed-point units.
    UnnormalizedVector(usize, i128),
}

/// The first fault among the scalar parameters, if any.
pub open spec fn param_fault(alpha: i64, beta: i64, theta: i64) -> Option<ValidationError> {
    if !(0 < alpha < SCALE) {
        Some(ValidationError::InvalidAlpha)
    } else if !(0 < beta < alpha) {
        Some(ValidationError::InvalidBeta)
    } else if !(theta > 0) {
        Some(ValidationError::InvalidTheta)
    } else {
        None
    }
}

/// The fault of the vector at index `i` against dimension `d`, if any.
pub open spec fn vector_fault(data: Seq<Seq<i64>>, d: int, i: int) -> Option<ValidationError> {
    if data[i].len() != d {
        Some(ValidationError::DimensionMismatch(i as usize))
    } else if !is_unit(data[i]) {
        Some(ValidationError::UnnormalizedVector(i as usize, sq_norm(data[i]) as i128))
    } else {
        None
    }
}

/// The first per-vector fault at index `i` or later, if any.
pub open spec fn first_data_fault(data: Seq<Seq<i64>>, d: int, i: int) -> Option<ValidationError>
    decreases data.len() - i,
{
    if i < 0 || i >= data.len() {
        None
    } else if vector_fault(data, d, i) is Some {
        vector_fault(data, d, i)
    } else {
        first_data_fault(data, d, i + 1)
    }
}

/// The first fault of a whole construction input, if any.
pub open spec fn input_fault(data: Seq<Seq<i64>>, alpha: i64, beta: i64, theta: i64) -> Option<
    ValidationError,
> {
    if param_fault(alpha, beta, theta) is Some {
        param_fault(alpha, beta, theta)
    } else if data.len() == 0 {
        Some(ValidationError::EmptyDataset)
    } else if data[0].len() == 0 {
        Some(ValidationError::ZeroDimension)
    } else {
        first_data_fault(data, data[0].len() as int, 0)
    }
}

/// A construction input with no fault: parameters in range, a non-empty
/// dataset of uniform positive dimension, every vector unit-normalized.
pub open spec fn valid_input(data: Seq<Seq<i64>>, alpha: i64, beta: i64, theta: i64) -> bool {
    &&& 0 < alpha < SCALE
    &&& 0 < beta < alpha
    &&& theta > 0
    &&& data.len() > 0
    &&& data[0].len() > 0
    &&& forall|i: int|
        0 <= i < data.len() ==> (#[trigger] data[i]).len() == data[0].len() && is_unit(data[i])
}

/// Vectors before `i` are faultless exactly when the first fault from 0 is
/// the first fault from `i`.
proof fn lemma_first_data_fault_skip(data: Seq<Seq<i64>>, d: int, i: int)
    requires
        0 <= i <= data.len(),
        forall|j: int| 0 <= j < i ==> vector_fault(data, d, j) is None,
    ensures
        first_data_fault(data, d, 0) == first_data_fault(data, d, i),
    decreases i,
{
    if i > 0 {
        lemma_first_data_fault_skip(data, d, i - 1);
    }
}

/// A faultless scan means every vector matches the dimension and is a unit
/// vector.
proof fn lemma_first_data_fault_none(data: Seq<Seq<i64>>, d: int, i: int)
    requires
        0 <= i <= data.len(),
        first_data_fault(data, d, i) is None,
    ensures
        forall|j: int|
            i <= j < data.len() ==> (#[trigger] data[j]).len() == d && is_unit(data[j]),
    decreases data.len() - i,
{
    if i < data.len() {
        lemma_first_data_fault_none(data, d, i + 1);
    }
}

/// No fault exactly means the input is valid.
pub proof fn lemma_input_fault_none(data: Seq<Seq<i64>>, alpha: i64, beta: i64, theta: i64)
    ensures
        input_fault(data, alpha, beta, theta) is None <==> valid_input(data, alpha, beta, theta),
{
    if input_fault(data, alpha, beta, theta) is None {
        lemma_first_data_fault_none(data, data[0].len() as int, 0);
    } else {
        if valid_input(data, alpha, beta, theta) {
            assert forall|i: int| 0 <= i <= data.len() implies first_data_fault(
                data,
                data[0].len() as int,
                i,
            ) is None by {
                lemma_first_data_fault_none_converse(data, data[0].len() as int, i);
            }
        }
    }
}

/// When every vector from `i` on is faultless, so is the scan from `i`.
proof fn lemma_first_data_fault_none_converse(data: Seq<Seq<i64>>, d: int, i: int)
    requires
        0 <= i <= data.len(),
        forall|j: int|
            0 <= j < data.len() ==> (#[trigger] data[j]).len() == d && is_unit(data[j]),
    ensures
        first_data_fault(data, d, i) is None,
    decreases data.len() - i,
{
    if i < data.len() {
        lemma_first_data_fault_none_converse(data, d, i + 1);
    }
}

/// Validate a construction input, reporting the first fault in the fixed
/// order.  Success is owed exactly on valid inputs.
pub fn check_input(data: &Vec<Vec<i64>>, alpha: i64, beta: i64, theta: i64) -> (r: Result<
    (),
    ValidationError,
>)
    requires
        all_bounded(views(data@), MAX_COORD as int),
    ensures
        match r {
            Ok(()) => input_fault(views(data@), alpha, beta, theta) is None && valid_input(
                views(data@),
                alpha,
                beta,
                theta,
            ),
            Err(e) => input_fault(views(data@), alpha, beta, theta) == Some(e),
        },
{
    proof {
        lemma_input_fault_none(views(data@), alpha, beta, theta);
    }
    if !(0 < alpha && alpha < SCALE) {
        return Err(ValidationError::InvalidAlpha);
    }
    if !(0 < beta && beta < alpha) {
        return Err(ValidationError::InvalidBeta);
    }
    if !(theta > 0) {
        return Err(ValidationError::InvalidTheta);
    }
    if data.len() == 0 {
        return Err(ValidationError::EmptyDataset);
    }
    let d = data[0].len();
    if d == 0 {
        return Err(ValidationError::ZeroDimension);
    }
    let n = data.len();
    let mut i: usize = 0;
    while i < n
        invariant
            0 <= i <= n,
            n == data@.len(),
            n > 0,
            d > 0,
            d == data@[0]@.len(),
            param_fault(alpha, beta, theta) is None,
            all_bounded(views(data@), MAX_COORD as int),
            forall|j: int| 0 <= j < i ==> vector_fault(views(data@), d as int, j) is None,
        decreases n - i,
    {
        let ghost dv = views(data@);
        if data[i].len() != d {
            proof {
                lemma_first_data_fault_skip(dv, d as int, i as int);
            }
            return Err(ValidationError::DimensionMismatch(i));
        }
        let norm = dot_product(&data[i], &data[i]);
        if norm < SQ_SCALE - NORM_TOL || norm > SQ_SCALE + NORM_TOL {
            proof {
                lemma_first_data_fault_skip(dv, d as int, i as int);
                assert(vector_fault(dv, d as int, i as int) == Some(
                    ValidationError::UnnormalizedVector(i, norm),
                ));
            }
            return Err(ValidationError::UnnormalizedVector(i, norm));
        }
        i = i + 1;
    }
    proof {
        lemma_first_data_fault_skip(views(data@), d as int, n as int);
        lemma_input_fault_none(views(data@), alpha, beta, theta);
    }
    Ok(())
}

} // verus!
