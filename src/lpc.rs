//! Layout of linear predictive analysis: the hop grid over a padded signal,
//! the Toeplitz edge built from autocorrelation lags, and the polynomial
//! whose roots are the poles of a predictor.

use vstd::prelude::*;

verus! {

/// Window size used when none is given: two hops.
pub open spec fn chosen_window(hop_size: nat, window_size: Option<usize>) -> int {
    match window_size {
        Some(w) => w as int,
        None => 2 * hop_size as int,
    }
}

/// Zeros added before and after the signal, so that the centre of frame 0
/// lies on sample 0.
pub open spec fn pad_of(hop_size: nat, window_size: nat) -> nat {
    ((window_size - hop_size) / 2) as nat
}

/// Whether `n_samples` samples can be analysed with predictors of `order`
/// coefficients, hops of `hop_size` and frames of `window_size`: at least one
/// hop fits, a frame is no shorter than a hop and longer than the order, and
/// every frame lies within the padded signal.
pub open spec fn grid_is_valid(n_samples: nat, order: nat, hop_size: nat, window_size: nat) -> bool {
    &&& order >= 1
    &&& hop_size >= 1
    &&& window_size >= hop_size
    &&& window_size > order
    &&& n_samples / hop_size >= 1
    &&& (n_samples / hop_size - 1) * hop_size + window_size <= n_samples + 2 * pad_of(
        hop_size,
        window_size,
    )
    &&& n_samples + 2 * pad_of(hop_size, window_size) <= usize::MAX
}

/// The frames of an analysis: `n_hops` frames of `window_size` samples, frame
/// `h` starting at `h * hop_size` in the signal padded with `pad` zeros on
/// each side.
#[derive(Debug, Copy, Clone, PartialEq, Eq, Hash, Structural)]
pub struct HopGrid {
    pub n_samples: usize,
    pub order: usize,
    pub hop_size: usize,
    pub window_size: usize,
    pub n_hops: usize,
    pub pad: usize,
}

impl HopGrid {
    /// The fields describe a valid grid of `n_samples` samples.
    pub open spec fn wf(&self) -> bool {
        &&& grid_is_valid(
            self.n_samples as nat,
            self.order as nat,
            self.hop_size as nat,
            self.window_size as nat,
        )
        &&& self.n_hops == self.n_samples / self.hop_size
        &&& self.pad == pad_of(self.hop_size as nat, self.window_size as nat)
    }

    /// Length of the padded signal.
    pub open spec fn padded_len_spec(&self) -> nat {
        (self.n_samples + 2 * self.pad) as nat
    }

    /// The grid for `n_samples` samples, or `None` where no valid grid exists
    /// (the window defaults to two hops).
    pub fn new(n_samples: usize, order: usize, hop_size: usize, window_size: Option<usize>) -> (r:
        Option<HopGrid>)
        ensures
            r is Some <==> chosen_window(hop_size as nat, window_size) <= usize::MAX && grid_is_valid(
                n_samples as nat,
                order as nat,
                hop_size as nat,
                chosen_window(hop_size as nat, window_size) as nat,
            ),
            r matches Some(g) ==> {
                &&& g.wf()
                &&& g.n_samples == n_samples
                &&& g.order == order
                &&& g.hop_size == hop_size
                &&& g.window_size == chosen_window(hop_size as nat, window_size)
            },
    {
        let window_size = match window_size {
            Some(w) => w,
            None => {
                if hop_size > usize::MAX / 2 {
                    return None;
                }
                2 * hop_size
            },
        };
        if order < 1 || hop_size < 1 || window_size < hop_size || window_size <= order {
            return None;
        }
        let n_hops = n_samples / hop_size;
        if n_hops < 1 {
            return None;
        }
        let pad = (window_size - hop_size) / 2;
        if n_samples > usize::MAX - 2 * pad {
            return None;
        }
        assert((n_hops - 1) * hop_size <= n_samples) by (nonlinear_arith)
            requires
                n_hops == n_samples / hop_size,
                n_hops >= 1,
                hop_size >= 1,
        ;
        if window_size > n_samples + 2 * pad - (n_hops - 1) * hop_size {
            return None;
        }
        Some(HopGrid { n_samples, order, hop_size, window_size, n_hops, pad })
    }

    /// Length of the padded signal.
    pub fn padded_len(&self) -> (r: usize)
        requires
            self.wf(),
        ensures
            r == self.padded_len_spec(),
    {
        self.n_samples + 2 * self.pad
    }

    /// Where frame `hop` starts in the padded signal; the frame lies within it.
    pub fn frame_start(&self, hop: usize) -> (r: usize)
        requires
            self.wf(),
            hop < self.n_hops,
        ensures
            r == hop * self.hop_size,
            r + self.window_size <= self.padded_len_spec(),
    {
        assert(hop * self.hop_size <= (self.n_hops - 1) * self.hop_size) by (nonlinear_arith)
            requires
                hop < self.n_hops,
        ;
        hop * self.hop_size
    }

    /// Length of the overlap-added residual of all frames, before the leading
    /// padding is trimmed; at least the padding.
    pub fn residual_len(&self) -> (r: usize)
        requires
            self.wf(),
        ensures
            r == (self.n_hops - 1) * self.hop_size + self.window_size,
            r >= self.pad,
    {
        (self.n_hops - 1) * self.hop_size + self.window_size
    }

    /// The signal with `pad` copies of `zero` before and after it.
    pub fn pad_signal<T: Copy>(&self, audio: &Vec<T>, zero: T) -> (r: Vec<T>)
        requires
            self.wf(),
            audio.len() == self.n_samples,
        ensures
            r@ == Seq::new(self.pad as nat, |i: int| zero) + audio@ + Seq::new(
                self.pad as nat,
                |i: int| zero,
            ),
            r.len() == self.padded_len_spec(),
    {
        let mut out: Vec<T> = Vec::with_capacity(self.n_samples + 2 * self.pad);
        let mut i: usize = 0;
        while i < self.pad
            invariant
                i <= self.pad,
                out@ == Seq::new(i as nat, |k: int| zero),
            decreases self.pad - i,
        {
            out.push(zero);
            i += 1;
            assert(out@ =~= Seq::new(i as nat, |k: int| zero));
        }
        let ghost lead = out@;
        let mut j: usize = 0;
        while j < audio.len()
            invariant
                j <= audio.len(),
                out@ == lead + audio@.subrange(0, j as int),
            decreases audio.len() - j,
        {
            out.push(audio[j]);
            j += 1;
            assert(out@ =~= lead + audio@.subrange(0, j as int));
        }
        let ghost body = out@;
        let mut k: usize = 0;
        while k < self.pad
            invariant
                k <= self.pad,
                out@ == body + Seq::new(k as nat, |m: int| zero),
            decreases self.pad - k,
        {
            out.push(zero);
            k += 1;
            assert(out@ =~= body + Seq::new(k as nat, |m: int| zero));
        }
        assert(audio@.subrange(0, audio.len() as int) =~= audio@);
        out
    }

    /// The samples of frame `hop` of the padded signal.
    pub fn frame<T: Copy>(&self, padded: &Vec<T>, hop: usize) -> (r: Vec<T>)
        requires
            self.wf(),
            padded.len() == self.padded_len_spec(),
            hop < self.n_hops,
        ensures
            r@ == padded@.subrange(
                hop * self.hop_size,
                hop * self.hop_size + self.window_size,
            ),
    {
        let start = self.frame_start(hop);
        let mut out: Vec<T> = Vec::with_capacity(self.window_size);
        let mut i: usize = 0;
        while i < self.window_size
            invariant
                start + self.window_size <= padded.len(),
                i <= self.window_size,
                out@ == padded@.subrange(start as int, start + i),
            decreases self.window_size - i,
        {
            out.push(padded[start + i]);
            i += 1;
            assert(out@ =~= padded@.subrange(start as int, start + i));
        }
        out
    }
}

/// `|i - j|`.
pub open spec fn distance(i: int, j: int) -> int {
    if i >= j {
        i - j
    } else {
        j - i
    }
}

/// The edge of the symmetric Toeplitz matrix of lags `0..order`:
/// `[lags[order-1], ..., lags[1], lags[0], lags[1], ..., lags[order-1]]`.
/// Entry `(row, col)` of the matrix is `edge[order - 1 + row - col]`, which is
/// `lags[|row - col|]`.
pub fn toeplitz_edge<T: Copy>(lags: &Vec<T>, order: usize) -> (r: Vec<T>)
    requires
        1 <= order <= lags.len(),
        2 * order - 1 <= usize::MAX,
    ensures
        r.len() == 2 * order - 1,
        forall|i: int| 0 <= i < r.len() ==> #[trigger] r@[i] == lags@[distance(i, order - 1)],
        forall|row: int, col: int|
            0 <= row < order && 0 <= col < order ==> #[trigger] r@[order - 1 + row - col]
                == lags@[distance(row, col)],
{
    let len = order + (order - 1);
    let mut edge: Vec<T> = Vec::with_capacity(len);
    let mut i: usize = 0;
    while i < len
        invariant
            1 <= order <= lags.len(),
            len == 2 * order - 1,
            i <= len,
            edge.len() == i,
            forall|k: int| 0 <= k < i ==> #[trigger] edge@[k] == lags@[distance(k, order - 1)],
        decreases len - i,
    {
        let lag = if i < order - 1 {
            order - 1 - i
        } else {
            i - (order - 1)
        };
        edge.push(lags[lag]);
        i += 1;
    }
    assert forall|row: int, col: int| 0 <= row < order && 0 <= col < order implies #[trigger] edge@[order
        - 1 + row - col] == lags@[distance(row, col)] by {
        assert(distance(order - 1 + row - col, order - 1) == distance(row, col));
    }
    edge
}

/// The coefficients of `z^p A(1/z)` for a predictor `A(z) = a[0] + a[1] z +
/// ... + a[p] z^p` with `a[0] = 1`: lowest degree first, the leading 1 left
/// out, so `[a[p], ..., a[1]]`. Its roots are the poles of the predictor.
pub fn pole_polynomial<T: Copy>(predictor: &Vec<T>) -> (r: Vec<T>)
    requires
        predictor.len() >= 1,
    ensures
        r.len() == predictor.len() - 1,
        forall|i: int| 0 <= i < r.len() ==> #[trigger] r@[i] == predictor@[predictor.len() - 1 - i],
{
    let p = predictor.len() - 1;
    let mut out: Vec<T> = Vec::with_capacity(p);
    let mut i: usize = 0;
    while i < p
        invariant
            p == predictor.len() - 1,
            i <= p,
            out.len() == i,
            forall|k: int| 0 <= k < i ==> #[trigger] out@[k] == predictor@[p - k],
        decreases p - i,
    {
        out.push(predictor[p - i]);
        i += 1;
    }
    out
}

} // verus!
