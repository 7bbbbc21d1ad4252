use lvb_sim::arpeggiator::{ArpMode, Arpeggiator};
use lvb_sim::renderer::{arp_tick, BeeperCommand};
use lvb_sim::via::{ViaEmulator, ViaReg};
use lvb_sim::virtual_channel::{VirtualChannels, FULL_VOLUME, NEVER};

#[test]
fn arp_tick_plays_bass_and_writes_latch_once() {
    let mut vchs = VirtualChannels::new();
    vchs.get_mut(1).note_on(440_000, FULL_VOLUME, NEVER, 0);
    let mut arp = Arpeggiator::new(ArpMode::BassLock, 240_000);
    let mut via = ViaEmulator::new(1_000_000);

    let t0 = arp_tick(&mut arp, &vchs, &mut via, 0);
    assert_eq!(t0.cha, BeeperCommand::Sound { frequency_mhz: 440_000, volume_ppm: FULL_VOLUME });
    assert_eq!(t0.chb, BeeperCommand::Silence);
    assert_eq!(t0.via_writes, 2);
    assert_eq!(via.log.len(), 2);
    assert_eq!(via.log[0].reg, ViaReg::T1CL);
    assert_eq!(via.log[1].reg, ViaReg::T1CH);
    assert_eq!(arp.tick(), 1);

    // Same pitch on the next tick: the latch is not written again.
    let t1 = arp_tick(&mut arp, &vchs, &mut via, 4_166);
    assert_eq!(t1.cha, BeeperCommand::Sound { frequency_mhz: 440_000, volume_ppm: FULL_VOLUME });
    assert_eq!(t1.via_writes, 0);
    assert_eq!(via.log.len(), 2);
}

#[test]
fn arp_tick_tunes_both_timers() {
    let mut vchs = VirtualChannels::new();
    vchs.get_mut(1).note_on(220_000, FULL_VOLUME / 2, NEVER, 0);
    vchs.get_mut(2).note_on(660_000, FULL_VOLUME, NEVER, 0);
    let mut arp = Arpeggiator::new(ArpMode::Off, 240_000);
    let mut via = ViaEmulator::new(1_000_000);

    let t = arp_tick(&mut arp, &vchs, &mut via, 10);
    assert_eq!(t.cha, BeeperCommand::Sound { frequency_mhz: 220_000, volume_ppm: FULL_VOLUME / 2 });
    assert_eq!(t.chb, BeeperCommand::Sound { frequency_mhz: 660_000, volume_ppm: FULL_VOLUME });
    assert_eq!(t.via_writes, 4);
    let regs: Vec<ViaReg> = via.log.iter().map(|w| w.reg).collect();
    assert_eq!(regs, vec![ViaReg::T1CL, ViaReg::T1CH, ViaReg::T2CL, ViaReg::T2CH]);
    assert_eq!(via.timer1_latch, ViaEmulator::freq_to_latch(220_000, 1_000_000));
    assert_eq!(via.timer2_latch, ViaEmulator::freq_to_latch(660_000, 1_000_000));
}

#[test]
fn arp_tick_silences_closed_channels() {
    let mut vchs = VirtualChannels::new();
    vchs.get_mut(1).note_on(440_000, FULL_VOLUME, 100, 0);
    vchs.update_gates(200);
    let mut arp = Arpeggiator::new(ArpMode::Off, 240_000);
    let mut via = ViaEmulator::new(1_000_000);
    let t = arp_tick(&mut arp, &vchs, &mut via, 200);
    assert_eq!(t.cha, BeeperCommand::Silence);
    assert_eq!(t.chb, BeeperCommand::Silence);
    assert_eq!(t.via_writes, 0);
    assert!(via.log.is_empty());
}
