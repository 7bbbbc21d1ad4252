use lvb_sim::arpeggiator::{parse_arp_mode, ArpMode, Arpeggiator};
use lvb_sim::virtual_channel::{VirtualChannel, FULL_VOLUME, NEVER};

fn make_vchs(active: &[bool]) -> [VirtualChannel; 4] {
    let mut vchs = [
        VirtualChannel::new(1),
        VirtualChannel::new(2),
        VirtualChannel::new(3),
        VirtualChannel::new(4),
    ];
    for (i, &a) in active.iter().enumerate() {
        if a {
            vchs[i].note_on(440_000, FULL_VOLUME, NEVER, 0);
        }
    }
    vchs
}

#[test]
fn test_basslock_tick0() {
    let arp = Arpeggiator::new(ArpMode::BassLock, 240_000);
    let vchs = make_vchs(&[true, true, true, false]);
    let a = arp.assign(&vchs);
    assert_eq!(a.cha_idx, Some(0));
    assert_eq!(a.chb_idx, Some(1));
}

#[test]
fn test_off_mode() {
    let arp = Arpeggiator::new(ArpMode::Off, 240_000);
    let vchs = make_vchs(&[true, true, false, false]);
    let a = arp.assign(&vchs);
    assert_eq!(a.cha_idx, Some(0));
    assert_eq!(a.chb_idx, Some(1));
}

#[test]
fn basslock_cycles_through_documented_pattern() {
    let mut arp = Arpeggiator::new(ArpMode::BassLock, 240_000);
    let vchs = make_vchs(&[true, true, true, true]);
    let expected = [(Some(0), Some(1)), (Some(2), Some(1)), (Some(0), Some(3)), (Some(2), Some(1))];
    for round in 0..3 {
        for (t, &(a, b)) in expected.iter().enumerate() {
            let got = arp.assign(&vchs);
            assert_eq!((got.cha_idx, got.chb_idx), (a, b), "round {} tick {}", round, t);
            arp.advance();
        }
    }
    assert_eq!(arp.tick(), 12);
}

#[test]
fn pseudo4_pattern_with_all_channels() {
    let mut arp = Arpeggiator::new(ArpMode::Pseudo4, 120_000);
    let vchs = make_vchs(&[true, true, true, true]);
    let expected = [(Some(0), Some(1)), (Some(2), Some(3)), (Some(0), Some(2)), (Some(1), Some(3))];
    for &(a, b) in expected.iter() {
        let got = arp.assign(&vchs);
        assert_eq!((got.cha_idx, got.chb_idx), (a, b));
        arp.advance();
    }
}

#[test]
fn pseudo3_alternates_lead_and_chord() {
    let mut arp = Arpeggiator::new(ArpMode::Pseudo3, 240_000);
    let vchs = make_vchs(&[true, true, true, false]);
    let a0 = arp.assign(&vchs);
    arp.advance();
    let a1 = arp.assign(&vchs);
    assert_eq!((a0.cha_idx, a0.chb_idx), (Some(0), Some(1)));
    assert_eq!((a1.cha_idx, a1.chb_idx), (Some(2), Some(1)));
}

#[test]
fn melodylock_keeps_melody_on_channel_a() {
    let mut arp = Arpeggiator::new(ArpMode::MelodyLock, 240_000);
    let vchs = make_vchs(&[true, true, true, true]);
    let expected_b = [Some(1), Some(2), Some(1), Some(3)];
    for &b in expected_b.iter() {
        let got = arp.assign(&vchs);
        assert_eq!(got.cha_idx, Some(0));
        assert_eq!(got.chb_idx, b);
        arp.advance();
    }
}

#[test]
fn silent_channels_fall_back_to_enabled_then_none() {
    let arp = Arpeggiator::new(ArpMode::BassLock, 240_000);
    // nothing enabled: no assignment
    let none = make_vchs(&[false, false, false, false]);
    let a = arp.assign(&none);
    assert_eq!((a.cha_idx, a.chb_idx), (None, None));
    // VCH1 enabled but its gate closed: still chosen as fallback
    let mut vchs = make_vchs(&[true, false, false, false]);
    vchs[0].close_gate();
    let a = arp.assign(&vchs);
    assert_eq!(a.cha_idx, Some(0));
    assert_eq!(a.chb_idx, None);
}

#[test]
fn both_timer_channels_never_share_a_voice() {
    let vchs = make_vchs(&[false, true, false, false]);
    let mut arp = Arpeggiator::new(ArpMode::Pseudo4, 240_000);
    for _ in 0..8 {
        let a = arp.assign(&vchs);
        if let (Some(x), Some(y)) = (a.cha_idx, a.chb_idx) {
            assert_ne!(x, y);
        }
        arp.advance();
    }
}

#[test]
fn tick_wraps_around() {
    let mut arp = Arpeggiator::new(ArpMode::BassLock, 240_000);
    arp.tick = u32::MAX;
    arp.advance();
    assert_eq!(arp.tick(), 0);
}

#[test]
fn rate_is_at_least_one_hertz() {
    assert_eq!(Arpeggiator::new(ArpMode::Off, 0).rate_mhz, 1000);
    assert_eq!(Arpeggiator::new(ArpMode::Off, 480_000).rate_mhz, 480_000);
}

#[test]
fn mode_names_and_parsing() {
    assert_eq!(ArpMode::Off.name(), "Off (direct2)");
    assert_eq!(ArpMode::BassLock.name(), "BassLock");
    assert_eq!(ArpMode::from_str("direct2"), ArpMode::Off);
    assert_eq!(ArpMode::from_str("OFF"), ArpMode::Off);
    assert_eq!(ArpMode::from_str("Pseudo3"), ArpMode::Pseudo3);
    assert_eq!(ArpMode::from_str("pseudo4"), ArpMode::Pseudo4);
    assert_eq!(ArpMode::from_str("bass-lock"), ArpMode::BassLock);
    assert_eq!(ArpMode::from_str("Melody_Lock"), ArpMode::MelodyLock);
    assert_eq!(ArpMode::from_str("unknown"), ArpMode::BassLock);
    assert_eq!(parse_arp_mode("MelodyLock"), ArpMode::MelodyLock);
    // the display name of Off is not one of the accepted spellings
    assert_eq!(ArpMode::from_str(ArpMode::Off.name()), ArpMode::BassLock);
}
