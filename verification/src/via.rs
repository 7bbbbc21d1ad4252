//! W65C22S VIA timer-latch bookkeeping.
//!
//! Channel A is driven by Timer 1 (PB7), channel B by Timer 2 (CB2).  A new
//! latch value is written as two register writes (low byte, then high byte)
//! and each write is logged so that it can be replayed on real hardware.
use vstd::prelude::*;
use vstd::string::*;
use crate::text::{decimal_text, digit_char, push_decimal};

verus! {

/// The four VIA timer latch registers that the beeper touches.
#[derive(Debug, Clone, Copy, PartialEq, Eq, Structural)]
pub enum ViaReg {
    T1CL,
    T1CH,
    T2CL,
    T2CH,
}

/// Register mnemonic as it appears in the register log.
pub open spec fn via_reg_name(r: ViaReg) -> Seq<char> {
    match r {
        ViaReg::T1CL => "T1CL"@,
        ViaReg::T1CH => "T1CH"@,
        ViaReg::T2CL => "T2CL"@,
        ViaReg::T2CH => "T2CH"@,
    }
}

impl ViaReg {
    pub fn name(self) -> (res: &'static str)
        ensures
            res@ == via_reg_name(self),
    {
        match self {
            ViaReg::T1CL => "T1CL",
            ViaReg::T1CH => "T1CH",
            ViaReg::T2CL => "T2CL",
            ViaReg::T2CH => "T2CH",
        }
    }
}


/// One logged write to a VIA timer register.
#[derive(Debug, Clone)]
pub struct ViaRegWrite {
    pub time_us: u64,
    pub reg: ViaReg,
    pub value: u8,
    pub description: String,
}

/// Timer-latch state of the VIA together with the log of every register
/// write made so far.
#[derive(Debug)]
pub struct ViaEmulator {
    pub timer1_latch: u16,
    pub timer2_latch: u16,
    pub cpu_clock_hz: u32,
    pub log: Vec<ViaRegWrite>,
}

/// Low byte of a 16-bit latch (the `TxCL` register).
pub open spec fn latch_low(latch: u16) -> u8 {
    (latch % 256) as u8
}

/// High byte of a 16-bit latch (the `TxCH` register).
pub open spec fn latch_high(latch: u16) -> u8 {
    (latch / 256) as u8
}

/// `freq_mhz` in tenths of a hertz, rounded to the nearest tenth, ties to
/// the even tenth.
pub open spec fn rounded_tenths(freq_mhz: u32) -> nat {
    let q = freq_mhz as nat / 100;
    let r = freq_mhz as nat % 100;
    if r > 50 || (r == 50 && q % 2 == 1) { q + 1 } else { q }
}

/// Frequency (millihertz) as a log shows it: hertz with one decimal,
/// rounded to the nearest tenth, ties to even, as one-decimal formatting of
/// the frequency in hertz does for exact ties such as 440.25 Hz ("440.2")
/// and 440.75 Hz ("440.8").  Formatting a binary float can still differ at
/// a tie of hundredths that a float cannot hold exactly (such as 440.35 Hz,
/// which a float holds slightly above or below and which then rounds that
/// way), and for a float with more than three decimals, which is first
/// rounded to millihertz.
pub open spec fn freq_text(freq_mhz: u32) -> Seq<char> {
    let tenths = rounded_tenths(freq_mhz);
    decimal_text(tenths / 10).push('.').push(digit_char(tenths % 10))
}

/// Text of a log entry: channel label, frequency, and which half of the
/// latch was written.
pub open spec fn write_description(channel: Seq<char>, freq_mhz: u32, half: Seq<char>) -> Seq<char> {
    channel + freq_text(freq_mhz) + "Hz "@ + half
}

/// Timer latch for a frequency, `latch = cpu_clock_hz / (2 * f) - 2`
/// rounded to the nearest integer and clamped to 0..=65535; a zero
/// frequency gives the largest latch.
pub open spec fn latch_for(freq_mhz: u32, cpu_clock_hz: u32) -> u16 {
    if freq_mhz == 0 {
        u16::MAX
    } else {
        let periods = (cpu_clock_hz as nat * 1000 + freq_mhz as nat) / (2 * freq_mhz as nat);
        if periods < 2 {
            0
        } else if periods - 2 > u16::MAX {
            u16::MAX
        } else {
            (periods - 2) as u16
        }
    }
}

/// Frequency (millihertz, rounded down) that a latch produces:
/// `cpu_clock_hz / (2 * (latch + 2))`.
pub open spec fn freq_of_latch(latch: u16, cpu_clock_hz: u32) -> u32 {
    ((cpu_clock_hz as nat * 1000) / (2 * (latch as nat + 2))) as u32
}

/// `w` is the log entry for writing `value` to `reg` at `time_us`.
pub open spec fn is_write(w: ViaRegWrite, time_us: u64, reg: ViaReg, value: u8, description: Seq<char>) -> bool {
    &&& w.time_us == time_us
    &&& w.reg == reg
    &&& w.value == value
    &&& w.description@ == description
}

/// The effect of programming one timer channel with `latch`: nothing when
/// the latch already holds that value, otherwise the latch changes and the
/// low-byte and high-byte writes are appended to the log.
pub open spec fn channel_update(
    old_latch: u16,
    new_latch: u16,
    old_log: Seq<ViaRegWrite>,
    new_log: Seq<ViaRegWrite>,
    latch: u16,
    time_us: u64,
    lo_reg: ViaReg,
    hi_reg: ViaReg,
    channel: Seq<char>,
    freq_mhz: u32,
) -> bool {
    if old_latch == latch {
        new_latch == old_latch && new_log == old_log
    } else {
        &&& new_latch == latch
        &&& new_log.len() == old_log.len() + 2
        &&& new_log.subrange(0, old_log.len() as int) == old_log
        &&& is_write(new_log[old_log.len() as int], time_us, lo_reg, latch_low(latch),
                write_description(channel, freq_mhz, "low"@))
        &&& is_write(new_log[old_log.len() as int + 1], time_us, hi_reg, latch_high(latch),
                write_description(channel, freq_mhz, "high"@))
    }
}

fn split_latch(latch: u16) -> (res: (u8, u8))
    ensures
        res.0 == latch_low(latch),
        res.1 == latch_high(latch),
{
    let lo = (latch & 0xFF) as u8;
    let hi = (latch >> 8) as u8;
    assert(lo == latch_low(latch)) by (bit_vector)
        requires lo == (latch & 0xFF) as u8;
    assert(hi == latch_high(latch)) by (bit_vector)
        requires hi == (latch >> 8) as u8;
    (lo, hi)
}

fn describe(channel: &str, freq_mhz: u32, half: &str) -> (res: String)
    ensures
        res@ == write_description(channel@, freq_mhz, half@),
{
    let q = freq_mhz as u64 / 100;
    let r = freq_mhz as u64 % 100;
    let tenths = if r > 50 || (r == 50 && q % 2 == 1) { q + 1 } else { q };
    let mut s = String::from_str(channel);
    push_decimal(&mut s, tenths / 10);
    s.push('.');
    s.push(((tenths % 10) as u8 + 48u8) as char);
    s.append("Hz ");
    s.append(half);
    s
}

/// Uppercase hexadecimal digit of `d` (0-15).
pub open spec fn hex_digit(d: nat) -> char {
    if d < 10 {
        digit_char(d)
    } else {
        ((('A' as u32) + (d - 10)) as u8) as char
    }
}

/// Two uppercase hexadecimal digits of a byte.
pub open spec fn hex_byte(v: u8) -> Seq<char> {
    seq![hex_digit(v as nat / 16), hex_digit(v as nat % 16)]
}

/// Header line of the register log as CSV.
pub open spec fn log_csv_header() -> Seq<char> {
    "time_us,reg,value_hex,value_dec,description\n"@
}

/// One CSV line of the register log: decimal time, register name, the
/// value as `0x` and two uppercase hexadecimal digits, the value in
/// decimal, the description, and a newline.
pub open spec fn log_line(w: ViaRegWrite) -> Seq<char> {
    decimal_text(w.time_us as nat) + ","@ + via_reg_name(w.reg) + ",0x"@ + hex_byte(w.value) + ","@
        + decimal_text(w.value as nat) + ","@ + w.description@ + "\n"@
}

/// The lines of the writes in `log`, in order.
pub open spec fn log_lines(log: Seq<ViaRegWrite>) -> Seq<char>
    decreases log.len(),
{
    if log.len() == 0 {
        seq![]
    } else {
        log_lines(log.drop_last()) + log_line(log.last())
    }
}

/// The register log as CSV: the header line, then one line per write.
pub open spec fn log_csv(log: Seq<ViaRegWrite>) -> Seq<char> {
    log_csv_header() + log_lines(log)
}

fn push_hex_digit(out: &mut String, d: u8)
    requires
        d < 16,
    ensures
        final(out)@ == old(out)@.push(hex_digit(d as nat)),
{
    if d < 10 {
        out.push((48u8 + d) as char);
    } else {
        out.push((55u8 + d) as char);
    }
}

fn push_log_line(out: &mut String, w: &ViaRegWrite)
    ensures
        final(out)@ == old(out)@ + log_line(*w),
{
    push_decimal(out, w.time_us);
    out.append(",");
    out.append(w.reg.name());
    out.append(",0x");
    push_hex_digit(out, w.value / 16);
    push_hex_digit(out, w.value % 16);
    out.append(",");
    push_decimal(out, w.value as u64);
    out.append(",");
    out.append(w.description.as_str());
    out.append("\n");
    assert(final(out)@ =~= old(out)@ + log_line(*w));
}

impl ViaEmulator {
    pub fn new(cpu_clock_hz: u32) -> (res: Self)
        ensures
            res.timer1_latch == 0,
            res.timer2_latch == 0,
            res.cpu_clock_hz == cpu_clock_hz,
            res.log@.len() == 0,
    {
        ViaEmulator { timer1_latch: 0, timer2_latch: 0, cpu_clock_hz, log: Vec::new() }
    }

    /// Frequency (millihertz) to timer latch; see `latch_for`.
    pub fn freq_to_latch(freq_mhz: u32, cpu_clock_hz: u32) -> (res: u16)
        ensures
            res == latch_for(freq_mhz, cpu_clock_hz),
    {
        if freq_mhz == 0 {
            return u16::MAX;
        }
        let periods = (cpu_clock_hz as u64 * 1000 + freq_mhz as u64) / (2 * freq_mhz as u64);
        if periods < 2 {
            0
        } else if periods - 2 > 0xFFFF {
            u16::MAX
        } else {
            (periods - 2) as u16
        }
    }

    /// Timer latch to the frequency it produces (millihertz, rounded down).
    pub fn latch_to_freq(latch: u16, cpu_clock_hz: u32) -> (res: u32)
        ensures
            res == freq_of_latch(latch, cpu_clock_hz),
    {
        proof {
            assert((cpu_clock_hz as nat * 1000) / (2 * (latch as nat + 2)) <= cpu_clock_hz as nat * 1000 / 4)
                by (nonlinear_arith);
        }
        ((cpu_clock_hz as u64 * 1000) / (2 * (latch as u64 + 2))) as u32
    }

    /// Tunes channel A (Timer 1, PB7) to `freq_mhz` at `time_us`: a zero
    /// frequency is ignored, and a latch equal to the current one is not
    /// written again.
    pub fn set_channel_a(&mut self, freq_mhz: u32, time_us: u64)
        ensures
            freq_mhz == 0 ==> *final(self) == *old(self),
            freq_mhz != 0 ==> channel_update(old(self).timer1_latch, final(self).timer1_latch, old(self).log@,
                final(self).log@, latch_for(freq_mhz, old(self).cpu_clock_hz), time_us, ViaReg::T1CL,
                ViaReg::T1CH, "CH-A "@, freq_mhz),
            final(self).timer2_latch == old(self).timer2_latch,
            final(self).cpu_clock_hz == old(self).cpu_clock_hz,
    {
        if freq_mhz == 0 {
            return;
        }
        let latch = Self::freq_to_latch(freq_mhz, self.cpu_clock_hz);
        if latch == self.timer1_latch {
            return;
        }
        self.timer1_latch = latch;
        let (lo, hi) = split_latch(latch);
        let d_lo = describe("CH-A ", freq_mhz, "low");
        let d_hi = describe("CH-A ", freq_mhz, "high");
        self.log.push(ViaRegWrite { time_us, reg: ViaReg::T1CL, value: lo, description: d_lo });
        self.log.push(ViaRegWrite { time_us, reg: ViaReg::T1CH, value: hi, description: d_hi });
        assert(self.log@.subrange(0, old(self).log@.len() as int) == old(self).log@);
    }

    /// Tunes channel B (Timer 2, CB2); see `set_channel_a`.
    pub fn set_channel_b(&mut self, freq_mhz: u32, time_us: u64)
        ensures
            freq_mhz == 0 ==> *final(self) == *old(self),
            freq_mhz != 0 ==> channel_update(old(self).timer2_latch, final(self).timer2_latch, old(self).log@,
                final(self).log@, latch_for(freq_mhz, old(self).cpu_clock_hz), time_us, ViaReg::T2CL,
                ViaReg::T2CH, "CH-B "@, freq_mhz),
            final(self).timer1_latch == old(self).timer1_latch,
            final(self).cpu_clock_hz == old(self).cpu_clock_hz,
    {
        if freq_mhz == 0 {
            return;
        }
        let latch = Self::freq_to_latch(freq_mhz, self.cpu_clock_hz);
        if latch == self.timer2_latch {
            return;
        }
        self.timer2_latch = latch;
        let (lo, hi) = split_latch(latch);
        let d_lo = describe("CH-B ", freq_mhz, "low");
        let d_hi = describe("CH-B ", freq_mhz, "high");
        self.log.push(ViaRegWrite { time_us, reg: ViaReg::T2CL, value: lo, description: d_lo });
        self.log.push(ViaRegWrite { time_us, reg: ViaReg::T2CH, value: hi, description: d_hi });
        assert(self.log@.subrange(0, old(self).log@.len() as int) == old(self).log@);
    }

    /// The register log as CSV text, as the register log file holds it.
    pub fn log_csv_text(&self) -> (res: String)
        ensures
            res@ == log_csv(self.log@),
    {
        let mut s = String::from_str("time_us,reg,value_hex,value_dec,description\n");
        let mut i: usize = 0;
        while i < self.log.len()
            invariant
                i <= self.log@.len(),
                s@ == log_csv_header() + log_lines(self.log@.take(i as int)),
            decreases self.log@.len() - i,
        {
            push_log_line(&mut s, &self.log[i]);
            i += 1;
            assert(self.log@.take(i as int).drop_last() == self.log@.take(i - 1));
            assert(s@ == log_csv_header() + log_lines(self.log@.take(i as int)));
        }
        assert(self.log@.take(i as int) == self.log@);
        s
    }

    /// Frequency channel A currently plays (millihertz, rounded down).
    pub fn channel_a_freq(&self) -> (res: u32)
        ensures
            res == freq_of_latch(self.timer1_latch, self.cpu_clock_hz),
    {
        Self::latch_to_freq(self.timer1_latch, self.cpu_clock_hz)
    }

    /// Frequency channel B currently plays (millihertz, rounded down).
    pub fn channel_b_freq(&self) -> (res: u32)
        ensures
            res == freq_of_latch(self.timer2_latch, self.cpu_clock_hz),
    {
        Self::latch_to_freq(self.timer2_latch, self.cpu_clock_hz)
    }
}

/// Away from the clamping limits the latch is the nearest one: the timer
/// period `2 * (latch + 2)` cycles is within half a period of the requested
/// frequency, `|cpu_clock_hz / (latch + 2) - 2 f| <= f / (latch + 2)`.
pub proof fn lemma_latch_is_nearest(freq_mhz: u32, cpu_clock_hz: u32)
    requires
        freq_mhz > 0,
        0 < latch_for(freq_mhz, cpu_clock_hz) < u16::MAX,
    ensures
        ({
            let r = latch_for(freq_mhz, cpu_clock_hz) as int + 2;
            let f = freq_mhz as int;
            2 * f * r - f <= cpu_clock_hz as int * 1000 < 2 * f * r + f
        }),
{
    let f = freq_mhz as int;
    let c = cpu_clock_hz as int * 1000;
    let r = (c + f) / (2 * f);
    assert(2 * f * r <= c + f < 2 * f * r + 2 * f) by (nonlinear_arith)
        requires
            f > 0,
            r == (c + f) / (2 * f),
    ;
}

/// The two logged bytes of a latch put it back together: the low byte plus
/// 256 times the high byte is the latch.
pub proof fn lemma_latch_bytes_roundtrip(latch: u16)
    ensures
        latch_low(latch) + 256 * latch_high(latch) == latch,
{
}


/// Programming a channel with the latch it already holds writes nothing:
/// after one update with `latch`, a second update with the same latch
/// leaves latch and log as they are.
pub proof fn lemma_channel_update_idempotent(
    l0: u16, l1: u16, l2: u16,
    g0: Seq<ViaRegWrite>, g1: Seq<ViaRegWrite>, g2: Seq<ViaRegWrite>,
    latch: u16, t1: u64, t2: u64, lo: ViaReg, hi: ViaReg, channel: Seq<char>, f1: u32, f2: u32,
)
    requires
        channel_update(l0, l1, g0, g1, latch, t1, lo, hi, channel, f1),
        channel_update(l1, l2, g1, g2, latch, t2, lo, hi, channel, f2),
    ensures
        l2 == l1 == latch,
        g2 == g1,
{
}

/// The register log only grows: an update keeps every earlier entry.
pub proof fn lemma_channel_update_appends(
    l0: u16, l1: u16, g0: Seq<ViaRegWrite>, g1: Seq<ViaRegWrite>,
    latch: u16, t: u64, lo: ViaReg, hi: ViaReg, channel: Seq<char>, f: u32,
)
    requires
        channel_update(l0, l1, g0, g1, latch, t, lo, hi, channel, f),
    ensures
        l1 == latch,
        g0.len() <= g1.len(),
        g1.subrange(0, g0.len() as int) == g0,
{
    if l0 == latch {
        assert(g1.subrange(0, g0.len() as int) == g0);
    }
}

} // verus!
