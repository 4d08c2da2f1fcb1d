use donkey_bas::audio::{noise_signs, queue_has_room, sound_plan, SoundEffect, SoundPart};
use donkey_bas::game::Lane;

fn tone(frequency_hz: u32, milliseconds: u32, volume_percent: u32) -> SoundPart {
    SoundPart::Tone { frequency_hz, milliseconds, volume_percent }
}

#[test]
fn muted_games_play_nothing() {
    assert!(sound_plan(false, SoundEffect::Start).is_none());
    assert!(sound_plan(false, SoundEffect::Crash).is_none());
}

#[test]
fn each_effect_has_its_tune() {
    let start = sound_plan(true, SoundEffect::Start).unwrap();
    assert!(start.clears_queue);
    let rest = SoundPart::Rest { milliseconds: 12 };
    assert_eq!(
        start.parts,
        vec![tone(220, 55, 16), rest, tone(330, 55, 16), rest, tone(440, 55, 16), rest, tone(660, 55, 16), rest]
    );
    let left = sound_plan(true, SoundEffect::Move(Lane::Left)).unwrap();
    assert!(!left.clears_queue);
    assert_eq!(left.parts, vec![tone(330, 32, 9)]);
    let right = sound_plan(true, SoundEffect::Move(Lane::Right)).unwrap();
    assert_eq!(right.parts, vec![tone(440, 32, 9)]);
    let score = sound_plan(true, SoundEffect::Score).unwrap();
    assert!(!score.clears_queue);
    assert_eq!(score.parts, vec![tone(660, 55, 14), tone(880, 90, 16)]);
    let crash = sound_plan(true, SoundEffect::Crash).unwrap();
    assert!(crash.clears_queue);
    assert_eq!(crash.parts, vec![tone(140, 90, 18), SoundPart::Noise { milliseconds: 280, volume_percent: 20 }]);
    let toggle = sound_plan(true, SoundEffect::Toggle).unwrap();
    assert!(!toggle.clears_queue);
    assert_eq!(toggle.parts, vec![tone(520, 70, 12)]);
}

#[test]
fn the_queue_takes_at_most_two_seconds() {
    assert!(queue_has_room(0, 44_100));
    assert!(queue_has_room(88_199, 44_100));
    assert!(!queue_has_room(88_200, 44_100));
}

#[test]
fn noise_follows_the_shift_register() {
    let signs = noise_signs(1000);
    assert_eq!(signs.len(), 1000);
    let mut lfsr = 0xACE1_u16;
    for sign in signs {
        let bit = (lfsr ^ (lfsr >> 1)) & 1;
        lfsr = (lfsr >> 1) | (bit << 15);
        assert_eq!(sign, lfsr & 1 == 1);
    }
    assert!(noise_signs(0).is_empty());
}
