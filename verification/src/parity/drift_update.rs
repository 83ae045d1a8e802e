//! Refining the drift table after a parity failure.
//!
//! A recorded drift only ever grows: if it could shrink, a later search might pick the plan
//! that just failed once more.

use vstd::prelude::*;

use crate::ieee::{larger_is_an_upper_bound, Ieee64};
use crate::parity::report::FailingLayerReport;

verus! {

/// The value recorded after a measurement: the larger of the two; zero stands for a value
/// not recorded yet.
pub open spec fn refined(existing: Option<Ieee64>, measured: Ieee64) -> Ieee64 {
    match existing {
        Some(v) => v.larger(measured),
        None => Ieee64::zero_spec().larger(measured),
    }
}

/// The value to record for a failing layer, given what was recorded.
pub fn update_drift_table_on_failure(existing: Option<Ieee64>, failing: &FailingLayerReport) -> (res:
    Ieee64)
    ensures
        res == refined(existing, failing.measured_mse),
{
    let v = match existing {
        Some(v) => v,
        None => Ieee64::zero(),
    };
    v.max(failing.measured_mse)
}

/// The value recorded after a row of measurements.
pub open spec fn refined_by(existing: Option<Ieee64>, measured: Seq<Ieee64>) -> Option<Ieee64>
    decreases measured.len(),
{
    if measured.len() == 0 {
        existing
    } else {
        Some(refined(refined_by(existing, measured.drop_last()), measured.last()))
    }
}

/// A recorded drift never decreases, and covers every measurement that was made.
pub proof fn recorded_drift_never_decreases(existing: Option<Ieee64>, measured: Seq<Ieee64>, i: int)
    requires
        existing is Some ==> !existing->0.nan(),
        forall|k: int| 0 <= k < measured.len() ==> !(#[trigger] measured[k]).nan(),
        0 <= i < measured.len(),
    ensures
        refined_by(existing, measured) is Some,
        !refined_by(existing, measured)->0.nan(),
        existing is Some ==> existing->0.at_most(refined_by(existing, measured)->0),
        measured[i].at_most(refined_by(existing, measured)->0),
    decreases measured.len(),
{
    let front = measured.drop_last();
    assert forall|k: int| 0 <= k < front.len() implies !(#[trigger] front[k]).nan() by {
        assert(front[k] == measured[k]);
    }
    let last = measured.last();
    assert(last == measured[measured.len() - 1]);
    let before = match refined_by(existing, front) {
        Some(v) => v,
        None => Ieee64::zero_spec(),
    };
    if front.len() > 0 {
        let j = if i < front.len() {
            i
        } else {
            0
        };
        recorded_drift_never_decreases(existing, front, j);
        assert(front[j] == measured[j]);
    }
    larger_is_an_upper_bound(before, last);
}

/// What is recorded after a failure is the larger of what was recorded and what was measured:
/// no less than either, and one of them (or zero, where nothing was recorded).
pub proof fn the_larger_drift_is_recorded(
    existing: Option<Ieee64>,
    failing: &FailingLayerReport,
    res: Ieee64,
)
    requires
        call_ensures(update_drift_table_on_failure, (existing, failing), res),
        !failing.measured_mse.nan(),
        existing is Some ==> !existing->0.nan(),
    ensures
        failing.measured_mse.at_most(res),
        existing is Some ==> existing->0.at_most(res),
        existing is None ==> Ieee64::zero_spec().at_most(res),
        res == failing.measured_mse || Some(res) == existing || existing is None && res.bits == 0,
{
}

} // verus!
