use vstd::prelude::*;

verus! {

/// The pixel level of `value` measured in steps of `unit`: the quotient
/// rounded toward zero, held to `0..=255`. Values beyond either end saturate
/// rather than wrap.
pub open spec fn level(value: int, unit: int) -> int {
    if value < 0 {
        0
    } else if value / unit > 255 {
        255
    } else {
        value / unit
    }
}

/// Quantizes `value / unit` to an 8-bit pixel level (see `level`).
pub fn quantize(value: i128, unit: i128) -> (r: u8)
    requires
        unit > 0,
    ensures
        r == level(value as int, unit as int),
{
    if value < 0 {
        return 0;
    }
    let q = value / unit;
    if q > 255 {
        255
    } else {
        q as u8
    }
}

} // verus!
