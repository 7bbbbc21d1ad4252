use lvb_sim::via::{ViaEmulator, ViaReg};

#[test]
fn test_freq_round_trip() {
    let cpu = 1_000_000u32;
    for &target in &[262.0f64, 440.0, 880.0, 1000.0, 2000.0] {
        let latch = ViaEmulator::freq_to_latch((target * 1000.0) as u32, cpu);
        let actual = ViaEmulator::latch_to_freq(latch, cpu) as f64 / 1000.0;
        let error = (actual - target).abs() / target;
        assert!(error < 0.02, "freq {} Hz: error {:.2}%", target, error * 100.0);
    }
}

#[test]
fn test_a440() {
    let cpu = 1_000_000u32;
    let latch = ViaEmulator::freq_to_latch(440_000, cpu);
    let actual = ViaEmulator::latch_to_freq(latch, cpu) as f64 / 1000.0;
    assert!((actual - 440.0).abs() < 1.0, "A440: got {:.2} Hz", actual);
}

#[test]
fn latch_formula_values() {
    // 1 MHz / (2 * 440 Hz) - 2 = 1134.36 -> 1134
    assert_eq!(ViaEmulator::freq_to_latch(440_000, 1_000_000), 1134);
    // zero frequency: largest latch
    assert_eq!(ViaEmulator::freq_to_latch(0, 1_000_000), u16::MAX);
    // very low frequency clamps at the top
    assert_eq!(ViaEmulator::freq_to_latch(1, 1_000_000), u16::MAX);
    // very high frequency clamps at zero
    assert_eq!(ViaEmulator::freq_to_latch(400_000_000, 1_000_000), 0);
    // 1000000 / (2 * 1136) = 440.14 Hz
    assert_eq!(ViaEmulator::latch_to_freq(1134, 1_000_000), 440_140);
}

#[test]
fn register_names() {
    assert_eq!(ViaReg::T1CL.name(), "T1CL");
    assert_eq!(ViaReg::T1CH.name(), "T1CH");
    assert_eq!(ViaReg::T2CL.name(), "T2CL");
    assert_eq!(ViaReg::T2CH.name(), "T2CH");
}

#[test]
fn channel_a_writes_low_then_high_byte_once() {
    let mut via = ViaEmulator::new(1_000_000);
    assert_eq!(via.timer1_latch, 0);
    via.set_channel_a(523_300, 0);
    let latch = ViaEmulator::freq_to_latch(523_300, 1_000_000);
    assert_eq!(via.timer1_latch, latch);
    assert_eq!(via.log.len(), 2);
    assert_eq!(via.log[0].reg, ViaReg::T1CL);
    assert_eq!(via.log[1].reg, ViaReg::T1CH);
    assert_eq!(via.log[0].value as u16 + 256 * via.log[1].value as u16, latch);
    assert_eq!(via.log[0].description, "CH-A 523.3Hz low");
    assert_eq!(via.log[1].description, "CH-A 523.3Hz high");
    // the same latch again writes nothing
    via.set_channel_a(523_300, 10);
    assert_eq!(via.log.len(), 2);
    // zero frequency is ignored
    via.set_channel_a(0, 20);
    assert_eq!(via.log.len(), 2);
    assert_eq!(via.timer2_latch, 0);
}

#[test]
fn channel_b_uses_timer_two() {
    let mut via = ViaEmulator::new(1_000_000);
    via.set_channel_b(261_600, 4166);
    assert_eq!(via.log.len(), 2);
    assert_eq!(via.log[0].reg, ViaReg::T2CL);
    assert_eq!(via.log[1].reg, ViaReg::T2CH);
    assert_eq!(via.log[0].time_us, 4166);
    assert_eq!(via.log[0].description, "CH-B 261.6Hz low");
    assert_eq!(via.timer1_latch, 0);
    let f = via.channel_b_freq();
    assert!((f as i64 - 261_600).abs() < 300, "{}", f);
    assert_eq!(via.channel_a_freq(), 250_000_000);
}

#[test]
fn log_text_rounds_ties_to_even() {
    let mut via = ViaEmulator::new(1_000_000);
    via.set_channel_a(440_250, 0);
    assert_eq!(via.log[0].description, "CH-A 440.2Hz low");
    via.set_channel_b(440_750, 0);
    assert_eq!(via.log[2].description, "CH-B 440.8Hz low");
    via.set_channel_a(261_626, 5);
    assert_eq!(via.log[4].description, "CH-A 261.6Hz low");
    via.set_channel_b(261_660, 5);
    assert_eq!(via.log[6].description, "CH-B 261.7Hz low");
    assert_eq!(format!("{:.1}", 440.25f32), "440.2");
    assert_eq!(format!("{:.1}", 440.75f32), "440.8");
}

#[test]
fn log_as_csv() {
    let mut via = ViaEmulator::new(1_000_000);
    assert_eq!(via.log_csv_text(), "time_us,reg,value_hex,value_dec,description\n");
    via.set_channel_a(440_000, 0);
    via.set_channel_b(220_000, 4166);
    let latch_a = ViaEmulator::freq_to_latch(440_000, 1_000_000);
    let latch_b = ViaEmulator::freq_to_latch(220_000, 1_000_000);
    let expected = format!(
        "time_us,reg,value_hex,value_dec,description\n\
         0,T1CL,0x{:02X},{},CH-A 440.0Hz low\n\
         0,T1CH,0x{:02X},{},CH-A 440.0Hz high\n\
         4166,T2CL,0x{:02X},{},CH-B 220.0Hz low\n\
         4166,T2CH,0x{:02X},{},CH-B 220.0Hz high\n",
        latch_a & 0xFF, latch_a & 0xFF, latch_a >> 8, latch_a >> 8,
        latch_b & 0xFF, latch_b & 0xFF, latch_b >> 8, latch_b >> 8,
    );
    assert_eq!(via.log_csv_text(), expected);
    // 1134 = 0x046E
    assert_eq!(latch_a, 1134);
    assert!(via.log_csv_text().contains("0,T1CL,0x6E,110,CH-A 440.0Hz low\n"));
}
