//! Pitch-attack bookkeeping shared by the note judging: the fresh-attack gate
//! (a held pitch satisfies only one note), the chord rule, and whether an
//! attack was clean.

use std::collections::HashSet;
use vstd::prelude::*;

verus! {

/// Enforces a fresh attack per note. A sustained pitch may satisfy only one
/// note: once it scores, the pitch is consumed and cannot score again until
/// it stops sounding and is articulated anew. Its view is the set of
/// consumed pitches.
pub struct AttackGate {
    consumed: HashSet<u8>,
}

impl View for AttackGate {
    type V = Set<u8>;

    closed spec fn view(&self) -> Set<u8> {
        self.consumed@
    }
}

impl Default for AttackGate {
    /// A gate with no pitch consumed.
    fn default() -> (r: Self)
        ensures
            r@ == Set::<u8>::empty(),
    {
        AttackGate::new()
    }
}

/// `pitches` holds `p`.
pub(crate) fn holds(pitches: &[u8], p: u8) -> (r: bool)
    ensures
        r == pitches@.contains(p),
{
    let mut i: usize = 0;
    while i < pitches.len()
        invariant
            i <= pitches@.len(),
            forall|j: int| 0 <= j < i ==> pitches@[j] != p,
        decreases pitches@.len() - i,
    {
        if pitches[i] == p {
            assert(pitches@[i as int] == p);
            return true;
        }
        i = i + 1;
    }
    false
}

impl AttackGate {
    /// A gate with no pitch consumed.
    pub fn new() -> (r: Self)
        ensures
            r@ == Set::<u8>::empty(),
    {
        AttackGate { consumed: HashSet::new() }
    }

    /// `pitch` may score now: it is sounding and not consumed.
    pub fn is_fresh(&self, pitch: u8, sounding: bool) -> (r: bool)
        ensures
            r == (sounding && !self@.contains(pitch)),
    {
        broadcast use vstd::std_specs::hash::group_hash_axioms;
        sounding && !self.consumed.contains(&pitch)
    }

    /// Marks `pitch` as consumed by the note it just scored.
    pub fn consume(&mut self, pitch: u8)
        ensures
            final(self)@ == old(self)@.insert(pitch),
    {
        broadcast use vstd::std_specs::hash::group_hash_axioms;
        self.consumed.insert(pitch);
    }

    /// Re-arms every consumed pitch that is no longer sounding, so its next
    /// attack is fresh; pitches still held stay consumed.
    pub fn release_absent(&mut self, sounding: &[u8])
        ensures
            final(self)@ == old(self)@.filter(|p: u8| sounding@.contains(p)),
    {
        broadcast use vstd::std_specs::hash::group_hash_axioms;
        let mut kept: HashSet<u8> = HashSet::new();
        let mut i: usize = 0;
        while i < sounding.len()
            invariant
                i <= sounding@.len(),
                kept@ == self@.filter(|p: u8| sounding@.take(i as int).contains(p)),
            decreases sounding@.len() - i,
        {
            let p = sounding[i];
            let ghost before = kept@;
            if self.consumed.contains(&p) {
                kept.insert(p);
            }
            proof {
                let t = sounding@.take(i as int);
                let t1 = sounding@.take(i + 1);
                assert(t1 =~= t.push(p));
                assert forall|q: u8| #[trigger] kept@.contains(q) == self@.filter(|p: u8| t1.contains(p)).contains(q) by {
                    if t1.contains(q) && q != p {
                        let w = choose|w: int| 0 <= w < t1.len() && t1[w] == q;
                        assert(t[w] == q);
                    }
                    if t.contains(q) {
                        let w = choose|w: int| 0 <= w < t.len() && t[w] == q;
                        assert(t1[w] == q);
                    }
                    if q == p {
                        assert(t1[i as int] == q);
                    }
                }
                assert(kept@ =~= self@.filter(|p: u8| t1.contains(p)));
            }
            i = i + 1;
        }
        assert(sounding@.take(sounding@.len() as int) =~= sounding@);
        self.consumed = kept;
    }
}

/// Every pitch of `chord` is among the `sounding` ones.
pub open spec fn all_sounding(chord: Seq<u8>, sounding: Seq<u8>) -> bool {
    forall|i: int| 0 <= i < chord.len() ==> sounding.contains(#[trigger] chord[i])
}

/// A chord with a pitch that is not sounding is not sounding.
pub proof fn lemma_missing_pitch_silences_chord(chord: Seq<u8>, sounding: Seq<u8>, i: int)
    requires
        0 <= i < chord.len(),
        !sounding.contains(chord[i]),
    ensures
        !all_sounding(chord, sounding),
{
}

/// A chord all of whose pitches sound is sounding.
pub proof fn lemma_every_pitch_sounds_chord(chord: Seq<u8>, sounding: Seq<u8>)
    requires
        forall|i: int| 0 <= i < chord.len() ==> sounding.contains(#[trigger] chord[i]),
    ensures
        all_sounding(chord, sounding),
{
}

/// A chord is sounding when every one of its pitches sounds at once.
pub fn chord_is_sounding(chord: &[u8], sounding: &[u8]) -> (r: bool)
    ensures
        r == all_sounding(chord@, sounding@),
        r ==> forall|i: int| 0 <= i < chord@.len() ==> sounding@.contains(#[trigger] chord@[i]),
        !r ==> exists|i: int| 0 <= i < chord@.len() && !sounding@.contains(#[trigger] chord@[i]),
{
    let mut i: usize = 0;
    while i < chord.len()
        invariant
            i <= chord@.len(),
            forall|j: int| 0 <= j < i ==> sounding@.contains(#[trigger] chord@[j]),
        decreases chord@.len() - i,
    {
        if !holds(sounding, chord[i]) {
            return false;
        }
        i = i + 1;
    }
    true
}

/// Nothing but `pitch` sounds among the `sounding` harp pitches.
pub open spec fn clean_attack(sounding: Seq<u8>, pitch: u8) -> bool {
    forall|i: int| 0 <= i < sounding.len() ==> #[trigger] sounding[i] == pitch
}

/// Another harp pitch sounding alongside spoils an attack.
pub proof fn lemma_other_pitch_spoils_attack(sounding: Seq<u8>, pitch: u8, i: int)
    requires
        0 <= i < sounding.len(),
        sounding[i] != pitch,
    ensures
        !clean_attack(sounding, pitch),
{
}

/// An attack on `pitch` is clean when no other harp pitch sounds with it.
pub fn is_clean_attack(sounding: &[u8], pitch: u8) -> (r: bool)
    ensures
        r == clean_attack(sounding@, pitch),
        r == (forall|i: int| 0 <= i < sounding@.len() ==> #[trigger] sounding@[i] == pitch),
{
    let mut i: usize = 0;
    while i < sounding.len()
        invariant
            i <= sounding@.len(),
            forall|j: int| 0 <= j < i ==> #[trigger] sounding@[j] == pitch,
        decreases sounding@.len() - i,
    {
        if sounding[i] != pitch {
            return false;
        }
        i = i + 1;
    }
    true
}

} // verus!
