use vstd::prelude::*;

verus! {

/// Number of micrometres in one centimetre.
pub const MICROMETRES_PER_CENTIMETRE: i64 = 10000;

/// Largest magnitude, in centimetres, that converts without overflow.
pub const MAX_CENTIMETRES: i64 = 100_000_000_000_000;

/// A length given in centimetres, expressed in micrometres.
pub open spec fn micrometres_of(cm: int) -> int {
    cm * 10000
}

/// Converts a whole number of centimetres into micrometres, the library's
/// unit of length (one metre is one million of them).
pub fn meters(cm: i64) -> (r: i64)
    requires
        -MAX_CENTIMETRES <= cm <= MAX_CENTIMETRES,
    ensures
        r == micrometres_of(cm as int),
{
    cm * MICROMETRES_PER_CENTIMETRE
}
/// The conversion keeps the order of lengths, and tells different lengths apart.
pub proof fn lemma_meters_monotonic(a: int, b: int)
    ensures
        a <= b ==> micrometres_of(a) <= micrometres_of(b),
        a < b ==> micrometres_of(a) < micrometres_of(b),
{
}

} // verus!
