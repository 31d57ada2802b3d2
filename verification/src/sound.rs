//! One-bit speaker: a boolean polarity that a soft-switch read inverts.

use vstd::prelude::*;

verus! {

/// First address of the speaker soft-switch page.
pub const SPEAKER_FIRST: usize = 0xC030;
/// Last address of the speaker soft-switch page.
pub const SPEAKER_LAST: usize = 0xC03F;

/// Host audio sample rate in Hz.
pub const SAMPLE_RATE: u32 = 44100;

/// True when a read of `address` toggles the speaker polarity.
pub open spec fn is_speaker_switch(address: usize) -> bool {
    SPEAKER_FIRST <= address <= SPEAKER_LAST
}

/// The speaker state: a single polarity bit. The host turns the recorded
/// polarity samples into PCM audio; none of that lives here.
pub struct SoundHandler {
    pub polarity: bool,
}

impl SoundHandler {
    /// The state after one soft-switch read at `address`.
    pub open spec fn spec_toggle(self, address: usize) -> SoundHandler {
        if is_speaker_switch(address) {
            SoundHandler { polarity: !self.polarity }
        } else {
            self
        }
    }

    pub fn new() -> (r: SoundHandler)
        ensures
            r.polarity == false,
    {
        SoundHandler { polarity: false }
    }

    /// A read of any address in the speaker page inverts the polarity;
    /// every other address leaves it alone.
    pub fn handle_soft_sw(&mut self, address: usize)
        ensures
            *final(self) == old(self).spec_toggle(address),
    {
        if address >= SPEAKER_FIRST && address <= SPEAKER_LAST {
            self.polarity = !self.polarity;
        }
    }
}

/// The speaker polarity toggles exactly once per read of an address in
/// 0xC030..=0xC03F, and never on a read of any other address.
pub proof fn lemma_speaker_toggles_once(s: SoundHandler, address: usize)
    ensures
        is_speaker_switch(address) ==> s.spec_toggle(address).polarity == !s.polarity,
        !is_speaker_switch(address) ==> s.spec_toggle(address) == s,
{
}

} // verus!
