//! The options list of the pitch-algorithm picker.

use vstd::prelude::*;
use crate::audio_system::pitch_detect::{all_algorithms, algorithm_label, PitchAlgorithm};

verus! {

/// Every algorithm's label, in `PitchAlgorithm::all`'s order: the options of
/// the algorithm combobox.
pub fn algo_labels() -> (r: Vec<String>)
    ensures
        r@.len() == all_algorithms().len(),
        forall|i: int| 0 <= i < r@.len() ==> #[trigger] r@[i]@ == algorithm_label(all_algorithms()[i]),
{
    let all = PitchAlgorithm::all();
    let mut labels: Vec<String> = Vec::new();
    let mut k: usize = 0;
    while k < all.len()
        invariant
            all@ == all_algorithms(),
            k <= all@.len(),
            labels@.len() == k,
            forall|i: int| 0 <= i < k ==> #[trigger] labels@[i]@ == algorithm_label(all_algorithms()[i]),
        decreases all@.len() - k,
    {
        labels.push(all[k].label().to_owned());
        k = k + 1;
    }
    labels
}

} // verus!
