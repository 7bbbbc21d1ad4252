use lvb_sim::cpu_load::load_target_percent;
use lvb_sim::piezo_model::{parse_drive_mode, DriveMode};
use lvb_sim::virtual_channel::{DrumType, Instrument, VirtualChannel, VirtualChannels, FULL_VOLUME, NEVER};

#[test]
fn default_priorities_and_instruments() {
    let v = VirtualChannels::new();
    let prios: Vec<u32> = v.channels.iter().map(|c| c.priority).collect();
    assert_eq!(prios, vec![10, 7, 4, 1]);
    assert_eq!(v.channels[3].instrument, Instrument::Percussion);
    assert_eq!(v.channels[0].instrument, Instrument::Square);
    assert!(v.channels.iter().all(|c| !c.is_active()));
}

#[test]
fn note_on_gate_and_reset() {
    let mut c = VirtualChannel::new(1);
    c.note_on(440_000, 3 * FULL_VOLUME, 1_500_000, 1_000_000);
    assert!(c.is_active());
    assert_eq!(c.volume_ppm, FULL_VOLUME);
    assert_eq!(c.trigger_us, Some(1_000_000));
    c.update_gate(1_499_999);
    assert!(c.is_active());
    c.update_gate(1_500_000);
    assert!(!c.is_active());
    assert!(c.enabled);
    c.reset();
    assert!(!c.enabled);
    assert_eq!(c.gate_close_us, NEVER);
}

#[test]
fn percussion_channel_classifies_drums_by_pitch() {
    let mut c = VirtualChannel::new(4);
    c.note_on(300_000, FULL_VOLUME, NEVER, 0);
    assert_eq!(c.drum_type, DrumType::Kick);
    c.note_on(1_000_000, FULL_VOLUME, NEVER, 0);
    assert_eq!(c.drum_type, DrumType::Snare);
    c.note_on(2_000_000, FULL_VOLUME, NEVER, 0);
    assert_eq!(c.drum_type, DrumType::HiHat);
    c.note_on(5_000_000, FULL_VOLUME, NEVER, 0);
    assert_eq!(c.drum_type, DrumType::Click);
    // square channels keep their drum type
    let mut s = VirtualChannel::new(1);
    s.note_on(300_000, FULL_VOLUME, NEVER, 0);
    assert_eq!(s.drum_type, DrumType::Click);
}

#[test]
fn channel_lookup_clamps() {
    let mut v = VirtualChannels::default();
    assert_eq!(v.get(0).id, 1);
    assert_eq!(v.get(9).id, 4);
    v.get_mut(2).note_on(220_000, FULL_VOLUME, 10, 0);
    assert!(v.channels[1].is_active());
    v.update_gates(10);
    assert!(!v.channels[1].is_active());
}

#[test]
fn drive_modes() {
    assert_eq!(parse_drive_mode("3v3-single"), DriveMode::V33SingleEnded);
    assert_eq!(parse_drive_mode("5V-BTL"), DriveMode::V5Btl);
    assert_eq!(parse_drive_mode("5vse"), DriveMode::V5SingleEnded);
    assert_eq!(parse_drive_mode("whatever"), DriveMode::V33Btl);
    assert_eq!(DriveMode::V33Btl.name(), "3.3V BTL");
    assert_eq!(DriveMode::V5SingleEnded.name(), "5V single-ended");
}

#[test]
fn cpu_load_targets() {
    assert_eq!(load_target_percent("BassLock"), 20);
    assert_eq!(load_target_percent("MelodyLock"), 20);
    assert_eq!(load_target_percent("Pseudo4"), 30);
    assert_eq!(load_target_percent("Pseudo3"), 30);
    assert_eq!(load_target_percent("Off (direct2)"), 25);
}
