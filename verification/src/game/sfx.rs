//! Choosing which voice plays a short sound effect.

use vstd::prelude::*;

verus! {

/// Picks the voice for a new sound effect: the last voice that is not
/// playing, or `playing.len()` (a new voice) when every voice is busy.
pub fn pick_voice(playing: &Vec<bool>) -> (idx: usize)
    ensures
        idx <= playing@.len(),
        idx < playing@.len() ==> !playing@[idx as int],
        forall|j: int| idx < j < playing@.len() ==> playing@[j],
        idx == playing@.len() ==> forall|j: int| 0 <= j < playing@.len() ==> playing@[j],
{
    let mut found_idx = playing.len();
    let mut i: usize = 0;
    while i < playing.len()
        invariant
            i <= playing@.len(),
            found_idx == playing@.len() || found_idx < i,
            found_idx < i ==> !playing@[found_idx as int],
            found_idx < i ==> forall|j: int| found_idx < j < i ==> playing@[j],
            found_idx == playing@.len() ==> forall|j: int| 0 <= j < i ==> playing@[j],
        decreases playing@.len() - i,
    {
        if !playing[i] {
            found_idx = i;
        }
        i = i + 1;
    }
    found_idx
}

} // verus!
