//! The stretch of a ray that lies within a medium.

use vstd::prelude::*;
use crate::scalar::{below, is_nan, lt, not_above, Scalar, ZERO};

verus! {

/// `a`, or `floor` where that is the greater number.
pub open spec fn at_least(a: Scalar, floor: Scalar) -> Scalar {
    if below(a, floor) {
        floor
    } else {
        a
    }
}

/// `a`, or `ceiling` where that is the lesser number.
pub open spec fn at_most(a: Scalar, ceiling: Scalar) -> Scalar {
    if below(ceiling, a) {
        ceiling
    } else {
        a
    }
}

/// The part of the stretch from `entry` to `exit` that lies within the
/// interval from `t_min` to `t_max`, if the two overlap in more than a
/// point. The stretch begins no earlier than at the ray's origin, where the
/// parameter is 0.
pub open spec fn clipped(entry: Scalar, exit: Scalar, t_min: Scalar, t_max: Scalar) -> Option<(Scalar, Scalar)> {
    if below(at_least(entry, t_min), at_most(exit, t_max)) {
        Some((at_least(at_least(entry, t_min), ZERO), at_most(exit, t_max)))
    } else {
        None
    }
}

/// Clips the stretch of a ray between the two crossings of a medium's
/// boundary, at the parameters `entry` and `exit`, to the interval from
/// `t_min` to `t_max` that a test asks about. Where nothing is left, the ray
/// does not pass through the medium within that interval.
pub fn clip_to_interval(entry: Scalar, exit: Scalar, t_min: Scalar, t_max: Scalar) -> (stretch: Option<
    (Scalar, Scalar),
>)
    ensures
        stretch == clipped(entry, exit, t_min, t_max),
{
    let entry = if lt(entry, t_min) { t_min } else { entry };
    let exit = if lt(t_max, exit) { t_max } else { exit };
    if lt(entry, exit) {
        let entry = if lt(entry, ZERO) { ZERO } else { entry };
        Some((entry, exit))
    } else {
        None
    }
}

/// What is left of a stretch between numbers lies within the interval, and
/// was part of the stretch; only the ray's origin may move its beginning
/// beyond the interval's.
pub proof fn lemma_clipped_within(entry: Scalar, exit: Scalar, t_min: Scalar, t_max: Scalar)
    requires
        !is_nan(entry),
        !is_nan(exit),
        !is_nan(t_min),
        !is_nan(t_max),
        clipped(entry, exit, t_min, t_max) is Some,
    ensures
        ({
            let (from, to) = clipped(entry, exit, t_min, t_max)->Some_0;
            &&& not_above(t_min, from) || from == ZERO
            &&& not_above(to, t_max)
            &&& not_above(to, exit)
            &&& not_above(entry, from)
            &&& below(t_min, to)
            &&& below(from, to) || (from == ZERO && not_above(to, ZERO))
        }),
{
}

} // verus!
