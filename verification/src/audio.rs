//! What the chiptune sound effects are made of: square-wave tones, rests
//! and a noise burst, chosen per effect, and the noise generator's bits.
//! The samples themselves are synthesised by the front end.
use vstd::prelude::*;
use crate::game::Lane;

verus! {

/// The sound effects of the game.
#[derive(Clone, Copy, Debug, PartialEq, Eq, Structural)]
pub enum SoundEffect {
    Start,
    Move(Lane),
    Score,
    Crash,
    Toggle,
}

/// One part of an effect. Volumes are in hundredths of full scale.
#[derive(Clone, Copy, Debug, PartialEq, Eq, Structural)]
pub enum SoundPart {
    /// A square wave with a short attack and release.
    Tone { frequency_hz: u32, milliseconds: u32, volume_percent: u32 },
    /// Silence.
    Rest { milliseconds: u32 },
    /// A fading burst of the noise generator.
    Noise { milliseconds: u32, volume_percent: u32 },
}

/// How to play an effect: whether to drop what is still queued first, and
/// the parts to queue in order.
pub struct SoundPlan {
    pub clears_queue: bool,
    pub parts: Vec<SoundPart>,
}

pub open spec fn tone(frequency_hz: u32, milliseconds: u32, volume_percent: u32) -> SoundPart {
    SoundPart::Tone { frequency_hz, milliseconds, volume_percent }
}

/// The parts of each effect: a rising four-note arpeggio to start, a blip
/// (lower for the left lane) on a lane change, two rising notes on a score,
/// a low note and a noise burst on a crash, and one note on a toggle.
pub open spec fn effect_parts(effect: SoundEffect) -> Seq<SoundPart> {
    match effect {
        SoundEffect::Start => seq![
            tone(220, 55, 16),
            SoundPart::Rest { milliseconds: 12 },
            tone(330, 55, 16),
            SoundPart::Rest { milliseconds: 12 },
            tone(440, 55, 16),
            SoundPart::Rest { milliseconds: 12 },
            tone(660, 55, 16),
            SoundPart::Rest { milliseconds: 12 },
        ],
        SoundEffect::Move(lane) => seq![
            tone(
                if lane == Lane::Left {
                    330
                } else {
                    440
                },
                32,
                9,
            ),
        ],
        SoundEffect::Score => seq![tone(660, 55, 14), tone(880, 90, 16)],
        SoundEffect::Crash => seq![
            tone(140, 90, 18),
            SoundPart::Noise { milliseconds: 280, volume_percent: 20 },
        ],
        SoundEffect::Toggle => seq![tone(520, 70, 12)],
    }
}

/// Starting and crashing cut off whatever is still playing.
pub open spec fn effect_interrupts(effect: SoundEffect) -> bool {
    effect == SoundEffect::Start || effect == SoundEffect::Crash
}

/// The plan for playing `effect`, or nothing when sound is off.
pub fn sound_plan(enabled: bool, effect: SoundEffect) -> (plan: Option<SoundPlan>)
    ensures
        plan is Some <==> enabled,
        plan matches Some(p) ==> p.clears_queue == effect_interrupts(effect) && p.parts@
            == effect_parts(effect),
{
    if !enabled {
        return None;
    }
    let mut parts: Vec<SoundPart> = Vec::new();
    let clears_queue = match effect {
        SoundEffect::Start => {
            let notes: [u32; 4] = [220, 330, 440, 660];
            let mut i: usize = 0;
            while i < 4
                invariant
                    0 <= i <= 4,
                    notes@ == seq![220u32, 330u32, 440u32, 660u32],
                    parts@ == effect_parts(SoundEffect::Start).take(2 * i),
                decreases 4 - i,
            {
                parts.push(SoundPart::Tone { frequency_hz: notes[i], milliseconds: 55, volume_percent: 16 });
                parts.push(SoundPart::Rest { milliseconds: 12 });
                assert(parts@ =~= effect_parts(SoundEffect::Start).take(2 * i + 2));
                i = i + 1;
            }
            assert(parts@ =~= effect_parts(SoundEffect::Start));
            true
        },
        SoundEffect::Move(lane) => {
            let frequency_hz = match lane {
                Lane::Left => 330,
                Lane::Right => 440,
            };
            parts.push(SoundPart::Tone { frequency_hz, milliseconds: 32, volume_percent: 9 });
            assert(parts@ =~= effect_parts(effect));
            false
        },
        SoundEffect::Score => {
            parts.push(SoundPart::Tone { frequency_hz: 660, milliseconds: 55, volume_percent: 14 });
            parts.push(SoundPart::Tone { frequency_hz: 880, milliseconds: 90, volume_percent: 16 });
            assert(parts@ =~= effect_parts(effect));
            false
        },
        SoundEffect::Crash => {
            parts.push(SoundPart::Tone { frequency_hz: 140, milliseconds: 90, volume_percent: 18 });
            parts.push(SoundPart::Noise { milliseconds: 280, volume_percent: 20 });
            assert(parts@ =~= effect_parts(effect));
            true
        },
        SoundEffect::Toggle => {
            parts.push(SoundPart::Tone { frequency_hz: 520, milliseconds: 70, volume_percent: 12 });
            assert(parts@ =~= effect_parts(effect));
            false
        },
    };
    Some(SoundPlan { clears_queue, parts })
}

/// An effect is queued only while less than two seconds of samples wait,
/// so that a burst of events does not build a long backlog.
pub fn queue_has_room(queued: u32, sample_rate: u32) -> (room: bool)
    requires
        sample_rate * 2 <= u32::MAX,
    ensures
        room == (queued < sample_rate * 2),
{
    queued < sample_rate * 2
}

/// The noise generator's state after one step: a sixteen-bit linear
/// feedback shift register fed by the xor of its two lowest bits.
pub open spec fn lfsr_next(state: u16) -> u16 {
    let bit = (state ^ (state >> 1u16)) & 1u16;
    (state >> 1u16) | (bit << 15u16)
}

/// The generator's state after `n` steps from `0xACE1`.
pub open spec fn lfsr_after(n: nat) -> u16
    decreases n,
{
    if n == 0 {
        0xACE1
    } else {
        lfsr_next(lfsr_after((n - 1) as nat))
    }
}

/// The signs of `count` noise samples: sample `i` is positive when the low
/// bit of the generator is set after `i + 1` steps from `0xACE1`.
pub fn noise_signs(count: usize) -> (signs: Vec<bool>)
    ensures
        signs@.len() == count,
        forall|i: int| 0 <= i < count ==> #[trigger] signs@[i] == (lfsr_after((i + 1) as nat) & 1u16
            == 1u16),
{
    let mut signs: Vec<bool> = Vec::new();
    let mut lfsr: u16 = 0xACE1;
    let mut i: usize = 0;
    while i < count
        invariant
            0 <= i <= count,
            signs@.len() == i,
            lfsr == lfsr_after(i as nat),
            forall|j: int| 0 <= j < i ==> #[trigger] signs@[j] == (lfsr_after((j + 1) as nat) & 1u16
                == 1u16),
        decreases count - i,
    {
        let bit = (lfsr ^ (lfsr >> 1u16)) & 1;
        lfsr = (lfsr >> 1u16) | (bit << 15u16);
        signs.push(lfsr & 1 == 1);
        i = i + 1;
    }
    signs
}

} // verus!
