//! Sine-wave speech analysis and synthesis: the exact, integer-valued parts
//! of the pipeline (note and scale tables, hop layout, Toeplitz and companion
//! layouts, upsampling plans and frame bookkeeping), with verified contracts.

use vstd::prelude::*;

pub mod linear_algebra;
pub mod lpc;
pub mod music;
pub mod synthesis;

use crate::lpc::{chosen_window, grid_is_valid, HopGrid};

verus! {

/// Settings of a converter: how many sine waves track the formants, the hop
/// between analysis frames, and the sample rate used to place musical
/// scales in normalized frequency.
#[derive(Debug, Copy, Clone, PartialEq, Eq, Hash, Structural)]
pub struct SineWaveSpeechConverter {
    pub n_waves: usize,
    pub hop_size: usize,
    pub sample_rate: usize,
}

/// Whether flat frequency and magnitude tracks of the given lengths, with
/// `n_phases` starting phases, form at least two frames of `n_waves` waves
/// whose synthesised length fits in memory.
pub open spec fn synthesis_shape_ok(
    n_waves: nat,
    hop_size: nat,
    n_frequencies: nat,
    n_magnitudes: nat,
    n_phases: nat,
) -> bool {
    &&& n_waves >= 1
    &&& hop_size >= 1
    &&& n_frequencies == n_magnitudes
    &&& n_frequencies % n_waves == 0
    &&& n_frequencies / n_waves >= 2
    &&& n_phases == n_waves
    &&& (n_frequencies / n_waves - 1) * hop_size <= usize::MAX
}

impl SineWaveSpeechConverter {
    /// A converter with the given settings.
    pub fn new(n_waves: usize, hop_size: usize, sample_rate: usize) -> (r: SineWaveSpeechConverter)
        ensures
            r.n_waves == n_waves,
            r.hop_size == hop_size,
            r.sample_rate == sample_rate,
    {
        SineWaveSpeechConverter { n_waves, hop_size, sample_rate }
    }

    /// The hop grid of an analysis of `n_samples` samples with predictors of
    /// order `2 * n_waves` and frames of two hops, or `None` where the
    /// samples are too few or the settings admit no grid.
    pub fn analysis_grid(&self, n_samples: usize) -> (r: Option<HopGrid>)
        ensures
            r is Some <==> 2 * self.n_waves <= usize::MAX && 2 * self.hop_size <= usize::MAX
                && grid_is_valid(
                n_samples as nat,
                2 * self.n_waves as nat,
                self.hop_size as nat,
                2 * self.hop_size as nat,
            ),
            r matches Some(g) ==> {
                &&& g.wf()
                &&& g.n_samples == n_samples
                &&& g.order == 2 * self.n_waves
                &&& g.hop_size == self.hop_size
                &&& g.window_size == 2 * self.hop_size
            },
    {
        if self.n_waves > usize::MAX / 2 {
            return None;
        }
        let r = HopGrid::new(n_samples, 2 * self.n_waves, self.hop_size, None);
        assert(chosen_window(self.hop_size as nat, None) == 2 * self.hop_size);
        r
    }

    /// Number of frames in flat frequency and magnitude tracks handed to
    /// synthesis, or `None` where their shapes do not fit together.
    pub fn frame_count(&self, n_frequencies: usize, n_magnitudes: usize, n_phases: usize) -> (r:
        Option<usize>)
        ensures
            r is Some <==> synthesis_shape_ok(
                self.n_waves as nat,
                self.hop_size as nat,
                n_frequencies as nat,
                n_magnitudes as nat,
                n_phases as nat,
            ),
            r matches Some(n) ==> n == n_frequencies as int / self.n_waves as int,
    {
        if self.n_waves == 0 || self.hop_size == 0 || n_frequencies != n_magnitudes
            || n_frequencies % self.n_waves != 0 || n_phases != self.n_waves {
            return None;
        }
        let n_frames = n_frequencies / self.n_waves;
        if n_frames < 2 {
            return None;
        }
        if n_frames - 1 > usize::MAX / self.hop_size {
            proof {
                let m = usize::MAX as int;
                let h = self.hop_size as int;
                let a = (n_frames - 1) as int;
                vstd::arithmetic::div_mod::lemma_fundamental_div_mod(m, h);
                assert(a * h > m) by (nonlinear_arith)
                    requires
                        a > m / h,
                        h >= 1,
                        m == h * (m / h) + m % h,
                        m % h < h,
                ;
            }
            return None;
        }
        assert((n_frames - 1) * self.hop_size <= usize::MAX) by (nonlinear_arith)
            requires
                n_frames - 1 <= usize::MAX / self.hop_size,
                self.hop_size >= 1,
        ;
        Some(n_frames)
    }
}

} // verus!
