//! User-facing settings values; loading and persisting them is the
//! surrounding application's concern.

use vstd::prelude::*;

verus! {

/// Ambient sound generators the host can play.
#[derive(Debug, Clone, Copy, PartialEq, Eq, Structural)]
pub enum SoundType {
    Binaural,
    BrownNoise,
    Rain,
}

/// Completion-chime preferences of the overlay island.
#[derive(Debug, Clone, PartialEq)]
pub struct IslandSoundSettings {
    pub enabled: bool,
    pub sound_id: String,
}

impl Default for IslandSoundSettings {
    /// Chimes on, with the stock sound.
    fn default() -> (r: IslandSoundSettings)
        ensures
            r.enabled,
            r.sound_id@ == "island_default"@,
    {
        IslandSoundSettings { enabled: true, sound_id: "island_default".to_owned() }
    }
}

} // verus!
