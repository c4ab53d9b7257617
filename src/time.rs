use vstd::prelude::*;

verus! {

/// Number of whole samples in `milliseconds` at `sampling_frequency` Hz,
/// rounded down; a frequency of zero gives no samples.
pub open spec fn samples_in(sampling_frequency: int, milliseconds: int) -> int {
    milliseconds * sampling_frequency / 1000
}

/// Whole milliseconds spanned by `amount` samples at `sampling_frequency` Hz,
/// rounded down; a frequency of zero (not yet known) gives a duration of zero.
pub open spec fn milliseconds_in(sampling_frequency: int, amount: int) -> int {
    if amount == 0 || sampling_frequency <= 0 {
        0
    } else {
        amount * 1000 / sampling_frequency
    }
}

/// Converts a span of milliseconds into a number of samples, rounding down.
pub fn milliseconds_to_samples(sampling_frequency: u32, milliseconds: u64) -> (r: usize)
    requires
        samples_in(sampling_frequency as int, milliseconds as int) <= usize::MAX,
    ensures
        r as int == samples_in(sampling_frequency as int, milliseconds as int),
{
    let product = (milliseconds as u128) * (sampling_frequency as u128);
    proof {
        assert(product as int == milliseconds as int * sampling_frequency as int);
    }
    (product / 1000) as usize
}

/// Converts a number of samples into whole milliseconds, rounding down.
pub fn samples_to_milliseconds(sampling_frequency: u32, amount: usize) -> (r: u128)
    ensures
        r as int == milliseconds_in(sampling_frequency as int, amount as int),
{
    if amount == 0 || sampling_frequency == 0 {
        return 0;
    }
    let scaled = (amount as u128) * 1000;
    (scaled / sampling_frequency as u128)
}

} // verus!
