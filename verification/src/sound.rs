//! When the beeper starts and stops.
use vstd::prelude::*;

verus! {

/// What the beeper has to do after a sound timer update.
#[derive(Debug, Clone, Copy, PartialEq, Eq, Structural)]
pub enum BeepAction {
    /// Start the tone.
    Start,
    /// Stop the tone.
    Stop,
    /// Leave the tone as it is.
    Keep,
}

/// Follows the sound timer: the tone plays exactly while the timer is above
/// zero. `is_playing` says whether it plays; the result says whether it has
/// to be started or stopped.
pub fn beep_update(is_playing: &mut bool, sound_timer: u8) -> (action: BeepAction)
    ensures
        *final(is_playing) == (sound_timer > 0),
        action == (if sound_timer > 0 && !*old(is_playing) {
            BeepAction::Start
        } else if sound_timer == 0 && *old(is_playing) {
            BeepAction::Stop
        } else {
            BeepAction::Keep
        }),
{
    let should_play = sound_timer > 0;

    if should_play && !*is_playing {
        *is_playing = true;
        BeepAction::Start
    } else if !should_play && *is_playing {
        *is_playing = false;
        BeepAction::Stop
    } else {
        BeepAction::Keep
    }
}

} // verus!
