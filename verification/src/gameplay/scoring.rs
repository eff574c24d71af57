//! How a scheduled note is judged: the outcome kinds, the timing qualities of
//! a hit, the outcome of a note from where it stands against the timing
//! windows, and the base points each quality earns. (Placing a note against
//! the windows compares floating-point times and is left to the game loop.)

use vstd::prelude::*;

verus! {

/// Base points of a Perfect hit, before the combo multiplier.
pub const PERFECT_POINTS: u32 = 100;
/// Base points of a Good hit, before the combo multiplier.
pub const GOOD_POINTS: u32 = 50;

/// How well-timed a hit was.
#[derive(Debug, Clone, Copy, PartialEq, Eq, Structural)]
pub enum HitQuality {
    Perfect,
    Good,
}

/// The outcome of evaluating a scheduled note at a given instant.
#[derive(Debug, Clone, Copy, PartialEq, Eq, Structural)]
pub enum NoteOutcome {
    /// The note is still in the future — not yet inside the scoring window.
    TooEarly,
    /// The note has passed the miss deadline — the combo should reset.
    Missed,
    /// The note is between the good-window and the miss deadline.
    /// Not hittable any more, but not penalised yet.
    Gap,
    /// The note is inside the good window but the player is not playing the
    /// expected pitch right now.
    Waiting,
    /// The player hit the note with the given timing quality.
    Hit(HitQuality),
}

/// The base points of a hit of quality `q`, before the combo multiplier.
pub fn base_points(q: HitQuality) -> (r: u32)
    ensures
        r == match q {
            HitQuality::Perfect => PERFECT_POINTS,
            HitQuality::Good => GOOD_POINTS,
        },
{
    match q {
        HitQuality::Perfect => PERFECT_POINTS,
        HitQuality::Good => GOOD_POINTS,
    }
}

/// Where a note stands against the timing windows at the judged instant
/// (the offset being the judged time minus the note's time).
#[derive(Debug, Clone, Copy, PartialEq, Eq, Structural)]
pub enum TimingClass {
    /// Earlier than the good window.
    Early,
    /// Inside the good window; the quality a hit would have there.
    InWindow(HitQuality),
    /// Past the good window but not yet past the miss deadline.
    Gap,
    /// Past the miss deadline.
    PastMissWindow,
}

/// The outcome of a note: past the deadline it is missed, outside the good
/// window it is too early or in the gap, and inside it the note is hit with
/// the window's quality when the player is playing it, else still waiting.
pub open spec fn note_outcome(timing: TimingClass, playing: bool) -> NoteOutcome {
    match timing {
        TimingClass::PastMissWindow => NoteOutcome::Missed,
        TimingClass::Early => NoteOutcome::TooEarly,
        TimingClass::Gap => NoteOutcome::Gap,
        TimingClass::InWindow(q) => if playing { NoteOutcome::Hit(q) } else { NoteOutcome::Waiting },
    }
}

/// The outcome rules: a note is hit only inside the good window and only
/// while it is being played, with the window's quality; it is missed exactly
/// when past the miss deadline, whether played or not; outside the window
/// playing changes nothing; inside it, a note not played is waiting.
pub proof fn lemma_outcome_rules(timing: TimingClass, playing: bool)
    ensures
        (note_outcome(timing, playing) matches NoteOutcome::Hit(q) && timing == TimingClass::InWindow(q) && playing)
            || !(note_outcome(timing, playing) is Hit),
        (note_outcome(timing, playing) is Hit) == (timing is InWindow && playing),
        (note_outcome(timing, playing) is Missed) == (timing is PastMissWindow),
        !(timing is InWindow) ==> note_outcome(timing, true) == note_outcome(timing, false),
        timing is InWindow && !playing ==> note_outcome(timing, playing) is Waiting,
        timing is Early ==> note_outcome(timing, playing) is TooEarly,
        timing is Gap ==> note_outcome(timing, playing) is Gap,
{
}

/// Classify a scheduled note from its place against the timing windows and
/// whether the player is playing it.
pub fn classify_note(timing: TimingClass, playing: bool) -> (r: NoteOutcome)
    ensures
        r == note_outcome(timing, playing),
{
    match timing {
        TimingClass::PastMissWindow => NoteOutcome::Missed,
        TimingClass::Early => NoteOutcome::TooEarly,
        TimingClass::Gap => NoteOutcome::Gap,
        TimingClass::InWindow(q) => if playing { NoteOutcome::Hit(q) } else { NoteOutcome::Waiting },
    }
}

} // verus!
