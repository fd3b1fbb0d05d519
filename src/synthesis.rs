//! Upsampling of tracks from the hop grid to the sample grid, and the frame
//! bookkeeping of additive synthesis.

use vstd::prelude::*;
use vstd::arithmetic::div_mod::{
    lemma_fundamental_div_mod,
    lemma_fundamental_div_mod_converse_div,
    lemma_fundamental_div_mod_converse_mod,
};

verus! {

/// How values between two hops are filled in.
#[derive(Debug, Copy, Clone, PartialEq, Eq, Hash, Structural)]
pub enum UpsamplingMethod {
    Linear,
    Nearest,
}

/// Length of a track of `len` values stretched by `factor`: `factor` samples
/// per step between two values, plus the last value if `include_last`.
pub open spec fn upsampled_len(len: nat, factor: nat, include_last: bool) -> nat {
    ((len - 1) * factor + if include_last {
        1int
    } else {
        0int
    }) as nat
}

/// The value that output sample `i` lies at or after.
pub open spec fn lower_source(factor: nat, i: int) -> int {
    i / (factor as int)
}

/// The value that output sample `i` lies before, the last one at the end.
pub open spec fn upper_source(len: nat, factor: nat, i: int) -> int {
    if i / (factor as int) + 1 < len - 1 {
        i / (factor as int) + 1
    } else {
        len - 1
    }
}

/// How many `1 / factor` steps output sample `i` lies past its lower value.
pub open spec fn source_offset(factor: nat, i: int) -> int {
    i % (factor as int)
}

/// The first `n` samples of `x` stretched by `factor`, each sample repeating
/// the value that it lies at or after.
pub open spec fn nearest_upsampled<T>(x: Seq<T>, factor: nat, n: nat) -> Seq<T> {
    Seq::new(n, |i: int| x[lower_source(factor, i)])
}

/// Stretches `x` by `factor` (for hop-rate values, the hop size).
///
/// Output sample `i` lies at position `i / factor` of the input. `Nearest`
/// repeats the value at or before it; `Linear` hands the two neighbouring
/// values and the offset `i % factor` to `interpolate`, which returns the
/// value that lies `offset / factor` of the way from the first to the second.
pub fn upsample<T: Copy, F: Fn(T, T, usize, usize) -> T>(
    x: &Vec<T>,
    factor: usize,
    include_last: bool,
    method: UpsamplingMethod,
    interpolate: F,
) -> (r: Vec<T>)
    requires
        x.len() >= 1,
        factor >= 1,
        (x.len() - 1) * factor + 1 <= usize::MAX,
        forall|a: T, b: T, k: usize| k < factor ==> #[trigger] interpolate.requires((a, b, k, factor)),
    ensures
        r.len() == upsampled_len(x.len() as nat, factor as nat, include_last),
        method == UpsamplingMethod::Nearest ==> r@ == nearest_upsampled(
            x@,
            factor as nat,
            r.len() as nat,
        ),
        method == UpsamplingMethod::Linear ==> forall|i: int|
            0 <= i < r.len() ==> interpolate.ensures(
                (
                    x@[lower_source(factor as nat, i)],
                    x@[upper_source(x.len() as nat, factor as nat, i)],
                    source_offset(factor as nat, i) as usize,
                    factor,
                ),
                #[trigger] r@[i],
            ),
{
    let n = x.len();
    let output_size: usize = (n - 1) * factor + if include_last {
        1
    } else {
        0
    };
    let mut output: Vec<T> = Vec::with_capacity(output_size);
    let mut i: usize = 0;
    while i < output_size
        invariant
            x.len() == n >= 1,
            factor >= 1,
            output_size == upsampled_len(n as nat, factor as nat, include_last),
            output_size <= (n - 1) * factor + 1,
            i <= output_size,
            output.len() == i,
            forall|a: T, b: T, k: usize| k < factor ==> #[trigger] interpolate.requires((a, b, k, factor)),
            method == UpsamplingMethod::Nearest ==> forall|j: int|
                0 <= j < i ==> #[trigger] output@[j] == x@[lower_source(factor as nat, j)],
            method == UpsamplingMethod::Linear ==> forall|j: int|
                0 <= j < i ==> interpolate.ensures(
                    (
                        x@[lower_source(factor as nat, j)],
                        x@[upper_source(n as nat, factor as nat, j)],
                        source_offset(factor as nat, j) as usize,
                        factor,
                    ),
                    #[trigger] output@[j],
                ),
        decreases output_size - i,
    {
        let low = i / factor;
        let offset = i % factor;
        proof {
            lemma_fundamental_div_mod(i as int, factor as int);
            assert(low < n) by (nonlinear_arith)
                requires
                    i < output_size <= (n - 1) * factor + 1,
                    i == factor * low + offset,
                    0 <= offset,
                    factor >= 1,
            ;
        }
        let high = if low + 1 < n - 1 {
            low + 1
        } else {
            n - 1
        };
        let value = match method {
            UpsamplingMethod::Linear => interpolate(x[low], x[high], offset, factor),
            UpsamplingMethod::Nearest => x[low],
        };
        output.push(value);
        i += 1;
    }
    proof {
        if method == UpsamplingMethod::Nearest {
            assert(output@ =~= nearest_upsampled(x@, factor as nat, output_size as nat));
        }
    }
    output
}

/// Column `wave` of a row-major matrix with `n_waves` columns: the track of
/// one sine wave across all frames.
pub fn track_column<T: Copy>(flat: &Vec<T>, n_waves: usize, wave: usize) -> (r: Vec<T>)
    requires
        wave < n_waves,
        flat.len() % n_waves == 0,
    ensures
        r.len() == flat.len() as int / n_waves as int,
        forall|h: int| 0 <= h < r.len() ==> #[trigger] r@[h] == flat@[h * n_waves + wave],
{
    let n_frames = flat.len() / n_waves;
    let mut out: Vec<T> = Vec::with_capacity(n_frames);
    let mut h: usize = 0;
    while h < n_frames
        invariant
            wave < n_waves,
            n_frames == flat.len() as int / n_waves as int,
            flat.len() % n_waves == 0,
            h <= n_frames,
            out.len() == h,
            forall|k: int| 0 <= k < h ==> #[trigger] out@[k] == flat@[k * n_waves + wave],
        decreases n_frames - h,
    {
        proof {
            lemma_fundamental_div_mod(flat.len() as int, n_waves as int);
            assert(h * n_waves + wave < flat.len()) by (nonlinear_arith)
                requires
                    h < n_frames,
                    wave < n_waves,
                    flat.len() == n_waves * n_frames + 0,
            ;
        }
        out.push(flat[h * n_waves + wave]);
        h += 1;
    }
    out
}

/// Length of the signal synthesised from `n_frames` hops of `hop_size`
/// samples: one hop for each step between two frames.
pub open spec fn synthesized_len(n_frames: nat, hop_size: nat) -> nat {
    ((n_frames - 1) * hop_size) as nat
}

/// Synthesising frames `0..=k-1` and then frames `k-1..` (carrying the
/// phases) covers the same samples as synthesising all frames at once: the
/// two lengths add up, the nearest-neighbour frequency tracks concatenate,
/// and every sample of the linearly upsampled magnitude tracks is computed
/// from the same two frames at the same offset.
pub proof fn lemma_upsampling_splits_at_frame<T>(x: Seq<T>, factor: nat, k: nat)
    requires
        factor >= 1,
        1 <= k <= x.len(),
    ensures
        synthesized_len(x.len(), factor) == synthesized_len(k, factor) + synthesized_len(
            (x.len() - k + 1) as nat,
            factor,
        ),
        nearest_upsampled(x, factor, synthesized_len(x.len(), factor)) == nearest_upsampled(
            x.subrange(0, k as int),
            factor,
            synthesized_len(k, factor),
        ) + nearest_upsampled(
            x.subrange(k - 1, x.len() as int),
            factor,
            synthesized_len((x.len() - k + 1) as nat, factor),
        ),
        forall|i: int|
            0 <= i < synthesized_len(k, factor) ==> #[trigger] upper_source(x.len(), factor, i)
                == upper_source(k, factor, i),
        forall|i: int|
            synthesized_len(k, factor) <= i < synthesized_len(x.len(), factor) ==> #[trigger] lower_source(
                factor,
                i,
            ) == lower_source(factor, i - synthesized_len(k, factor)) + k - 1,
        forall|i: int|
            synthesized_len(k, factor) <= i < synthesized_len(x.len(), factor) ==> #[trigger] upper_source(
                x.len(),
                factor,
                i,
            ) == upper_source((x.len() - k + 1) as nat, factor, i - synthesized_len(k, factor)) + k
                - 1,
        forall|i: int|
            synthesized_len(k, factor) <= i < synthesized_len(x.len(), factor) ==> #[trigger] source_offset(
                factor,
                i,
            ) == source_offset(factor, i - synthesized_len(k, factor)),
{
    let n = x.len();
    let f = factor as int;
    let a = synthesized_len(k, factor);
    let b = synthesized_len((n - k + 1) as nat, factor);
    let total = synthesized_len(n, factor);
    assert((n - 1) * f == (k - 1) * f + (n - k) * f) by (nonlinear_arith);
    assert(total == a + b);
    assert forall|i: int| 0 <= i < a implies #[trigger] upper_source(n, factor, i) == upper_source(
        k,
        factor,
        i,
    ) by {
        lemma_fundamental_div_mod(i, f);
        let q = i / f;
        assert(q < k - 1) by (nonlinear_arith)
            requires
                i == f * q + i % f,
                0 <= i % f,
                i < (k - 1) * f,
                f >= 1,
        ;
    }
    assert forall|i: int|
        synthesized_len(k, factor) <= i < synthesized_len(x.len(), factor) implies {
        &&& #[trigger] lower_source(factor, i) == lower_source(factor, i - synthesized_len(k, factor))
            + k - 1
        &&& upper_source(x.len(), factor, i) == upper_source(
            (x.len() - k + 1) as nat,
            factor,
            i - synthesized_len(k, factor),
        ) + k - 1
        &&& source_offset(factor, i) == source_offset(factor, i - synthesized_len(k, factor))
    } by {
        lemma_shifted_sources(n, factor, k, i);
    }
    assert forall|i: int|
        synthesized_len(k, factor) <= i < synthesized_len(x.len(), factor) implies #[trigger] upper_source(
        x.len(),
        factor,
        i,
    ) == upper_source((x.len() - k + 1) as nat, factor, i - synthesized_len(k, factor)) + k - 1 by {
        lemma_shifted_sources(n, factor, k, i);
    }
    assert forall|i: int|
        synthesized_len(k, factor) <= i < synthesized_len(x.len(), factor) implies #[trigger] source_offset(
        factor,
        i,
    ) == source_offset(factor, i - synthesized_len(k, factor)) by {
        lemma_shifted_sources(n, factor, k, i);
    }
    let whole = nearest_upsampled(x, factor, total);
    let left = nearest_upsampled(x.subrange(0, k as int), factor, a);
    let right = nearest_upsampled(x.subrange(k - 1, n as int), factor, b);
    assert forall|i: int| 0 <= i < total implies #[trigger] whole[i] == (left + right)[i] by {
        lemma_fundamental_div_mod(i, f);
        let q = i / f;
        let r = i % f;
        if i < a {
            assert(q < k - 1) by (nonlinear_arith)
                requires
                    i == f * q + r,
                    0 <= r,
                    i < (k - 1) * f,
                    f >= 1,
            ;
        } else {
            let j = i - a;
            assert(j == (q - (k - 1)) * f + r) by (nonlinear_arith)
                requires
                    i == f * q + r,
                    j == i - a,
                    a == (k - 1) * f,
            ;
            lemma_fundamental_div_mod_converse_div(j, f, q - (k - 1), r);
            assert(q < n) by (nonlinear_arith)
                requires
                    i == f * q + r,
                    0 <= r,
                    i < (n - 1) * f,
                    f >= 1,
            ;
        }
    }
    assert(whole =~= left + right);
}

proof fn lemma_shifted_sources(n: nat, factor: nat, k: nat, i: int)
    requires
        factor >= 1,
        1 <= k <= n,
        synthesized_len(k, factor) <= i < synthesized_len(n, factor),
    ensures
        lower_source(factor, i) == lower_source(factor, i - synthesized_len(k, factor)) + k - 1,
        upper_source(n, factor, i) == upper_source(
            (n - k + 1) as nat,
            factor,
            i - synthesized_len(k, factor),
        ) + k - 1,
        source_offset(factor, i) == source_offset(factor, i - synthesized_len(k, factor)),
{
    let f = factor as int;
    let a = synthesized_len(k, factor);
    let j = i - a;
    lemma_fundamental_div_mod(i, f);
    let q = i / f;
    let r = i % f;
    assert(j == (q - (k - 1)) * f + r) by (nonlinear_arith)
        requires
            i == f * q + r,
            j == i - a,
            a == (k - 1) * f,
    ;
    lemma_fundamental_div_mod_converse_div(j, f, q - (k - 1), r);
    lemma_fundamental_div_mod_converse_mod(j, f, q - (k - 1), r);
}

} // verus!
