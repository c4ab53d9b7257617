use vstd::prelude::*;

verus! {

/// Number of bins in the half spectrum of a real signal of `n` samples: the
/// bins from 0 Hz up to and including the middle one.
pub open spec fn half_len(n: int) -> int {
    n / 2 + 1
}

/// Number of bins that the full spectrum of `n` samples mirrors from the half
/// spectrum: bins `1` to `(n - 1) / 2`, conjugated, in reverse order.
pub open spec fn mirrored_len(n: int) -> int {
    (n - 1) / 2
}

/// Where bin `k` of the full spectrum of `n` samples comes from: the bin of
/// the half spectrum it copies, and whether it is conjugated.
pub open spec fn spectrum_source(n: int, k: int) -> (int, bool) {
    if k < half_len(n) {
        (k, false)
    } else {
        (n - k, true)
    }
}

/// Number of half-spectrum bins for a real signal of `length` samples.
pub fn half_spectrum_len(length: usize) -> (r: usize)
    ensures
        r == half_len(length as int),
{
    length / 2 + 1
}

/// The layout of the full spectrum of `length` samples rebuilt from its
/// half spectrum by Hermitian symmetry: for each bin, the half-spectrum bin it
/// copies and whether it is conjugated.
pub fn hermitian_layout(length: usize) -> (r: Vec<(usize, bool)>)
    requires
        length >= 1,
    ensures
        r@.len() == length,
        forall|k: int|
            0 <= k < length ==> {
                let s = spectrum_source(length as int, k);
                &&& (#[trigger] r@[k]).0 == s.0
                &&& r@[k].1 == s.1
                &&& 0 <= r@[k].0 < half_len(length as int)
            },
{
    let half = length / 2 + 1;
    let mut out: Vec<(usize, bool)> = Vec::new();
    let mut k: usize = 0;
    while k < length
        invariant
            k <= length,
            half == half_len(length as int),
            out@.len() == k,
            forall|j: int|
                0 <= j < k ==> {
                    let s = spectrum_source(length as int, j);
                    &&& (#[trigger] out@[j]).0 == s.0
                    &&& out@[j].1 == s.1
                    &&& 0 <= out@[j].0 < half_len(length as int)
                },
        decreases length - k,
    {
        if k < half {
            out.push((k, false));
        } else {
            out.push((length - k, true));
        }
        k = k + 1;
    }
    out
}

/// The half spectrum and its mirrored bins together fill the full spectrum
/// exactly, for an even and for an odd number of samples alike, and each
/// mirrored bin copies a bin from `1` to `(n - 1) / 2`.
pub proof fn hermitian_reconstruction_fits(n: int)
    requires
        n >= 1,
    ensures
        half_len(n) + mirrored_len(n) == n,
        forall|k: int|
            half_len(n) <= k < n ==> 1 <= #[trigger] spectrum_source(n, k).0 <= mirrored_len(n),
{
}

} // verus!
