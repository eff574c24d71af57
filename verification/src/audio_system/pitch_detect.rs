//! The pitch-detection algorithms the player can choose between. The
//! detectors themselves work on floating-point audio and live with the audio
//! front end; this is the selectable set and its labels.

use vstd::prelude::*;

verus! {

/// Which pitch-detection algorithm the audio pipeline runs.
#[derive(Debug, Clone, Copy, PartialEq, Eq, Hash, Structural)]
pub enum PitchAlgorithm {
    /// FFT peak-picking with harmonic suppression. Reports multiple pitches.
    Fft,
    /// YIN cumulative-mean-difference detector. Monophonic (one pitch).
    Yin,
    /// Probabilistic YIN: aggregates YIN over a Beta-weighted range of
    /// thresholds. Monophonic (one pitch).
    Pyin,
    /// McLeod Pitch Method (MPM): normalized square difference function with
    /// key-maximum peak picking. Monophonic (one pitch).
    Mcleod,
}

impl Default for PitchAlgorithm {
    fn default() -> (r: Self)
        ensures
            r == PitchAlgorithm::Fft,
    {
        PitchAlgorithm::Fft
    }
}

/// The selector's label of an algorithm.
pub open spec fn algorithm_label(a: PitchAlgorithm) -> Seq<char> {
    match a {
        PitchAlgorithm::Fft => "FFT"@,
        PitchAlgorithm::Yin => "YIN"@,
        PitchAlgorithm::Pyin => "pYIN"@,
        PitchAlgorithm::Mcleod => "MPM"@,
    }
}

/// The selectable algorithms, in display order.
pub open spec fn all_algorithms() -> Seq<PitchAlgorithm> {
    seq![PitchAlgorithm::Fft, PitchAlgorithm::Yin, PitchAlgorithm::Pyin, PitchAlgorithm::Mcleod]
}

impl PitchAlgorithm {
    /// All selectable algorithms, in display order.
    pub fn all() -> (r: &'static [PitchAlgorithm])
        ensures
            r@ == all_algorithms(),
    {
        &[PitchAlgorithm::Fft, PitchAlgorithm::Yin, PitchAlgorithm::Pyin, PitchAlgorithm::Mcleod]
    }

    /// Short label for the Options selector.
    pub fn label(self) -> (r: &'static str)
        ensures
            r@ == algorithm_label(self),
    {
        match self {
            PitchAlgorithm::Fft => "FFT",
            PitchAlgorithm::Yin => "YIN",
            PitchAlgorithm::Pyin => "pYIN",
            PitchAlgorithm::Mcleod => "MPM",
        }
    }
}

} // verus!
