//! What the microphone capture reports, and which input device a saved
//! preference picks among those plugged in.

use vstd::prelude::*;

verus! {

/// Whether the microphone capture stream is currently up, so the menus can
/// warn instead of the game silently running deaf.
#[derive(Debug, Clone, PartialEq)]
pub enum MicStatus {
    Connected { device_name: String },
    Failed { reason: String },
}

/// The index of the first of `available` named `wanted`, searching from `i`.
pub open spec fn first_named(available: Seq<String>, wanted: Seq<char>, i: int) -> Option<int>
    decreases available.len() - i,
{
    if i < 0 || i >= available.len() {
        None
    } else if available[i]@ == wanted {
        Some(i)
    } else {
        first_named(available, wanted, i + 1)
    }
}

/// Which device name to actually look for, given the user's configured
/// preference (`""` means "use the system default"). Returns `None` when
/// `wanted` is empty or doesn't match anything currently plugged in, so the
/// caller falls back to the default device instead of erroring.
pub fn resolve_device_name(available: &[String], wanted: &str) -> (r: Option<String>)
    ensures
        wanted@.len() == 0 ==> r is None,
        wanted@.len() > 0 ==> match first_named(available@, wanted@, 0) {
            Some(_) => r matches Some(s) && s@ == wanted@,
            None => r is None,
        },
{
    if wanted.unicode_len() == 0 {
        return None;
    }
    let target = wanted.to_string();
    proof {
        vstd::string::to_string_from_display_ensures_for_str(wanted, target);
    }
    let n = available.len();
    let mut i: usize = 0;
    while i < n
        invariant
            n == available@.len(),
            i <= n,
            target@ == wanted@,
            wanted@.len() > 0,
            first_named(available@, wanted@, 0) == first_named(available@, wanted@, i as int),
        decreases n - i,
    {
        if available[i] == target {
            return Some(available[i].clone());
        }
        i = i + 1;
    }
    None
}

} // verus!
