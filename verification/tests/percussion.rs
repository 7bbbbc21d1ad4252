use lvb_sim::percussion::{
    drum_sample_data, PercussionPlayer, BEEP, BWOOP, CLICK, HIHAT, KICK, SAMPLE_SPEED, SNARE,
};
use lvb_sim::virtual_channel::{DrumType, FULL_VOLUME};

fn sample_duration_ms(data: &[u8], audio_rate: u32) -> f32 {
    let total_bits = data.len() * 8;
    total_bits as f32 * SAMPLE_SPEED as f32 / audio_rate as f32 * 1000.0
}

#[test]
fn test_kick_duration() {
    let dur = sample_duration_ms(&KICK, 48000);
    assert!(dur > 30.0 && dur < 40.0, "kick duration: {:.1}ms", dur);
}

#[test]
fn test_hihat_shorter_than_snare() {
    let hat_dur = sample_duration_ms(&HIHAT, 48000);
    let snare_dur = sample_duration_ms(&SNARE, 48000);
    assert!(hat_dur < snare_dur, "hi-hat({:.1}ms) < snare({:.1}ms)", hat_dur, snare_dur);
}

#[test]
fn test_beep_800hz() {
    assert_eq!(&BEEP[..3], &[0x3F, 0xF0, 0x03]);
    assert_eq!(&BEEP[3..6], &[0x3F, 0xF0, 0x03]);
}

#[test]
fn test_player_trigger_and_play() {
    let mut player = PercussionPlayer::new();
    assert!(!player.is_active());

    player.trigger(FULL_VOLUME, &DrumType::Click);
    assert!(player.is_active());

    let total_bits = CLICK.len() * 8;
    let end_sample = total_bits * SAMPLE_SPEED as usize + 1;
    let mut saw_nonzero = false;
    for _ in 0..end_sample {
        let s = player.generate_sample();
        if s > 0 {
            saw_nonzero = true;
        }
    }
    assert!(saw_nonzero, "at least one sample is non-zero");
    assert!(!player.is_active(), "finished after {} samples", end_sample);
}

#[test]
fn test_player_kick_lasts_longer_than_hihat() {
    let mut kick = PercussionPlayer::new();
    let mut hat = PercussionPlayer::new();

    kick.trigger(FULL_VOLUME, &DrumType::Kick);
    hat.trigger(FULL_VOLUME, &DrumType::HiHat);

    let hat_end = HIHAT.len() * 8 * SAMPLE_SPEED as usize + 1;
    for _ in 0..hat_end {
        kick.generate_sample();
        hat.generate_sample();
    }
    assert!(!hat.is_active(), "hi-hat ends after {} samples", hat_end);
    assert!(kick.is_active(), "kick still playing");
}

#[test]
fn test_lsb_first_kick_starts_with_click() {
    let mut player = PercussionPlayer::new();
    player.trigger(FULL_VOLUME, &DrumType::Kick);

    let mut bits = Vec::new();
    for _ in 0..(8 * SAMPLE_SPEED as usize) {
        let s = player.generate_sample();
        bits.push(s as f32 / FULL_VOLUME as f32 > 0.5);
    }

    let first_byte_bits: Vec<bool> = (0..8)
        .map(|b| bits[b * SAMPLE_SPEED as usize + (SAMPLE_SPEED as usize - 1)])
        .collect();
    let expected = [true, false, true, false, true, false, true, false];
    assert_eq!(&first_byte_bits[..], &expected, "first kick byte 0x55 played LSB first");
}

#[test]
fn player_output_follows_bits_and_volume() {
    let mut player = PercussionPlayer::new();
    // volume is clamped to full scale
    player.trigger(2 * FULL_VOLUME, &DrumType::Click);
    let mut out = Vec::new();
    for _ in 0..(CLICK.len() * 8 * SAMPLE_SPEED as usize + 3) {
        out.push(player.generate_sample());
    }
    // 0x55: bit 0 is one, bit 1 is zero, each held five samples from the first
    assert_eq!(&out[0..5], &[FULL_VOLUME; 5]);
    assert_eq!(&out[5..10], &[0; 5]);
    assert_eq!(&out[10..15], &[FULL_VOLUME; 5]);
    assert_eq!(&out[35..40], &[0; 5]);
    // after the sample: silence
    assert!(out[CLICK.len() * 8 * SAMPLE_SPEED as usize..].iter().all(|&s| s == 0));
    assert!(!player.is_active());
}

#[test]
fn player_stays_active_through_the_last_bit() {
    let mut player = PercussionPlayer::new();
    player.trigger(FULL_VOLUME, &DrumType::Click);
    let total = CLICK.len() * 8 * SAMPLE_SPEED as usize;
    let first = player.generate_sample();
    assert_eq!(first, FULL_VOLUME);
    for _ in 1..total {
        player.generate_sample();
    }
    assert!(player.is_active());
    assert_eq!(player.generate_sample(), 0);
    assert!(!player.is_active());
}

#[test]
fn half_volume_scales_output() {
    let mut player = PercussionPlayer::default();
    player.trigger(FULL_VOLUME / 2, &DrumType::Kick);
    let mut peak = 0;
    for _ in 0..100 {
        peak = peak.max(player.generate_sample());
    }
    assert_eq!(peak, FULL_VOLUME / 2);
}

#[test]
fn drum_tables_match_sample_ids() {
    assert_eq!(drum_sample_data(&DrumType::Bwoop), &BWOOP[..]);
    assert_eq!(drum_sample_data(&DrumType::Beep), &BEEP[..]);
    assert_eq!(drum_sample_data(&DrumType::Kick), &KICK[..]);
    assert_eq!(drum_sample_data(&DrumType::Snare), &SNARE[..]);
    assert_eq!(drum_sample_data(&DrumType::HiHat), &HIHAT[..]);
    assert_eq!(drum_sample_data(&DrumType::Click), &CLICK[..]);
    assert_eq!(DrumType::from_mmml_sample_id(1), DrumType::Bwoop);
    assert_eq!(DrumType::from_mmml_sample_id(3), DrumType::Kick);
    assert_eq!(DrumType::from_mmml_sample_id(5), DrumType::HiHat);
    assert_eq!(DrumType::from_mmml_sample_id(0), DrumType::Click);
    assert_eq!(DrumType::from_mmml_sample_id(9), DrumType::Click);
}
