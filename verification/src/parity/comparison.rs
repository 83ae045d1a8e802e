//! Comparing tensors and distributions: when two can be compared at all. The arithmetic on
//! the values is the caller's.

use vstd::prelude::*;

use crate::ieee::{Ieee32, Ieee64};
use crate::parity::error::ParityError;

verus! {

/// What comparing two tensors may give: an error if they differ in length, zero if they are
/// empty, else what the measure says.
pub open spec fn compared<M: Fn(&Vec<Ieee32>, &Vec<Ieee32>) -> Ieee64>(
    measure: M,
    a: Vec<Ieee32>,
    b: Vec<Ieee32>,
    res: Result<Ieee64, ParityError>,
) -> bool {
    if a@.len() != b@.len() {
        res == Err::<Ieee64, _>(
            ParityError::ShapeMismatch { expected: a.len(), got: b.len() },
        )
    } else if a@.len() == 0 {
        res == Ok::<_, ParityError>(Ieee64::zero_spec())
    } else {
        res is Ok && call_ensures(measure, (&a, &b), res->Ok_0)
    }
}

fn compare<M: Fn(&Vec<Ieee32>, &Vec<Ieee32>) -> Ieee64>(
    a: &Vec<Ieee32>,
    b: &Vec<Ieee32>,
    measure: &M,
) -> (res: Result<Ieee64, ParityError>)
    requires
        forall|x: &Vec<Ieee32>, y: &Vec<Ieee32>| call_requires(*measure, (x, y)),
    ensures
        compared(*measure, *a, *b, res),
{
    if a.len() != b.len() {
        return Err(ParityError::ShapeMismatch { expected: a.len(), got: b.len() });
    }
    if a.len() == 0 {
        return Ok(Ieee64::zero());
    }
    Ok((*measure)(a, b))
}

/// The mean squared error of two tensors; `mean_square` computes it where they are not
/// empty.
pub fn mse<M: Fn(&Vec<Ieee32>, &Vec<Ieee32>) -> Ieee64>(
    a: &Vec<Ieee32>,
    b: &Vec<Ieee32>,
    mean_square: &M,
) -> (res: Result<Ieee64, ParityError>)
    requires
        forall|x: &Vec<Ieee32>, y: &Vec<Ieee32>| call_requires(*mean_square, (x, y)),
    ensures
        compared(*mean_square, *a, *b, res),
{
    compare(a, b, mean_square)
}

/// The divergence of the distributions that two lists of logits give; `divergence` computes
/// it where they are not empty.
pub fn kl_divergence<M: Fn(&Vec<Ieee32>, &Vec<Ieee32>) -> Ieee64>(
    p_logits: &Vec<Ieee32>,
    q_logits: &Vec<Ieee32>,
    divergence: &M,
) -> (res: Result<Ieee64, ParityError>)
    requires
        forall|x: &Vec<Ieee32>, y: &Vec<Ieee32>| call_requires(*divergence, (x, y)),
    ensures
        compared(*divergence, *p_logits, *q_logits, res),
{
    compare(p_logits, q_logits, divergence)
}

} // verus!
