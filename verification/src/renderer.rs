//! The decisions of one arpeggio tick of the renderer: which logical
//! channel each timer channel plays, what the two square-wave channels are
//! told to do, and which VIA registers are written.  The sample loop that
//! calls it (time, phase and filters in floating point) is outside the
//! library.
use vstd::prelude::*;
use crate::arpeggiator::{schedule, lemma_schedule_well_formed, Arpeggiator};
use crate::via::{channel_update, latch_for, ViaEmulator, ViaReg};
use crate::virtual_channel::{VirtualChannel, VirtualChannels};

verus! {

/// What one square-wave output channel does until the next tick.
#[derive(Debug, Clone, Copy, PartialEq, Eq, Structural)]
pub enum BeeperCommand {
    /// Sound at `frequency_mhz` with `volume_ppm`.
    Sound { frequency_mhz: u32, volume_ppm: u32 },
    /// Silence.
    Silence,
}

/// The outcome of one arpeggio tick.
#[derive(Debug, Clone, Copy)]
pub struct ArpTick {
    /// Command for channel A (Timer 1).
    pub cha: BeeperCommand,
    /// Command for channel B (Timer 2).
    pub chb: BeeperCommand,
    /// Number of VIA register writes the tick made.
    pub via_writes: usize,
}

/// The command for a timer channel assigned logical channel `idx`: the
/// channel's pitch and volume when it is active, silence otherwise.
pub open spec fn command_for(idx: Option<usize>, v: Seq<VirtualChannel>) -> BeeperCommand {
    match idx {
        Some(i) => if v[i as int].active() {
            BeeperCommand::Sound { frequency_mhz: v[i as int].frequency_mhz, volume_ppm: v[i as int].volume_ppm }
        } else {
            BeeperCommand::Silence
        },
        None => BeeperCommand::Silence,
    }
}

/// The frequency a command tunes its timer to; 0 (no tuning) for silence.
pub open spec fn tuned_freq(c: BeeperCommand) -> u32 {
    match c {
        BeeperCommand::Sound { frequency_mhz, .. } => frequency_mhz,
        BeeperCommand::Silence => 0,
    }
}

/// Number of register writes that tuning a timer whose latch is `latch` to
/// `freq_mhz` makes: none for a zero frequency or an unchanged latch, else
/// the low and the high byte.
pub open spec fn tuning_writes(latch: u16, freq_mhz: u32, cpu_clock_hz: u32) -> nat {
    if freq_mhz == 0 || latch_for(freq_mhz, cpu_clock_hz) == latch {
        0
    } else {
        2
    }
}

fn command(idx: Option<usize>, vchs: &VirtualChannels) -> (res: BeeperCommand)
    requires
        idx matches Some(i) ==> i < 4,
    ensures
        res == command_for(idx, vchs.channels@),
{
    match idx {
        Some(i) => {
            let vch = &vchs.channels[i];
            if vch.is_active() {
                BeeperCommand::Sound { frequency_mhz: vch.frequency_mhz, volume_ppm: vch.volume_ppm }
            } else {
                BeeperCommand::Silence
            }
        },
        None => BeeperCommand::Silence,
    }
}

/// One arpeggio tick at `time_us`: the scheduler assigns logical channels
/// to the timer channels for its current tick and moves on to the next;
/// each timer channel plays its channel when that is active and is silent
/// otherwise; a sounding channel A is tuned first (Timer 1), then a
/// sounding channel B (Timer 2), each written only when its latch changes.
pub fn arp_tick(arp: &mut Arpeggiator, vchs: &VirtualChannels, via: &mut ViaEmulator, time_us: u64) -> (res: ArpTick)
    ensures
        ({
            let (a, b) = schedule(old(arp).mode, old(arp).tick_count(), vchs.channels@);
            let fa = tuned_freq(res.cha);
            let fb = tuned_freq(res.chb);
            let n0 = old(via).log@.len();
            let na = tuning_writes(old(via).timer1_latch, fa, old(via).cpu_clock_hz);
            let nb = tuning_writes(old(via).timer2_latch, fb, old(via).cpu_clock_hz);
            let mid_log = final(via).log@.subrange(0, (n0 + na) as int);
            &&& res.cha == command_for(a, vchs.channels@)
            &&& res.chb == command_for(b, vchs.channels@)
            &&& final(arp).mode == old(arp).mode
            &&& final(arp).rate_mhz == old(arp).rate_mhz
            &&& final(arp).tick_count() == (if old(arp).tick_count() == u32::MAX { 0 } else {
                (old(arp).tick_count() + 1) as u32 })
            &&& final(via).cpu_clock_hz == old(via).cpu_clock_hz
            &&& final(via).log@.len() == n0 + na + nb
            &&& res.via_writes == na + nb
            &&& (fa == 0 ==> final(via).timer1_latch == old(via).timer1_latch && mid_log == old(via).log@)
            &&& (fa != 0 ==> channel_update(old(via).timer1_latch, final(via).timer1_latch, old(via).log@,
                mid_log, latch_for(fa, old(via).cpu_clock_hz), time_us, ViaReg::T1CL, ViaReg::T1CH,
                "CH-A "@, fa))
            &&& (fb == 0 ==> final(via).timer2_latch == old(via).timer2_latch && final(via).log@ == mid_log)
            &&& (fb != 0 ==> channel_update(old(via).timer2_latch, final(via).timer2_latch, mid_log,
                final(via).log@, latch_for(fb, old(via).cpu_clock_hz), time_us, ViaReg::T2CL, ViaReg::T2CH,
                "CH-B "@, fb))
        }),
{
    proof {
        lemma_schedule_well_formed(arp.mode, arp.tick_count(), vchs.channels@);
    }
    let assignment = arp.assign(&vchs.channels);
    arp.advance();
    let cha = command(assignment.cha_idx, vchs);
    let chb = command(assignment.chb_idx, vchs);
    let before = via.log.len();
    let ghost via0 = *via;
    if let BeeperCommand::Sound { frequency_mhz, .. } = cha {
        via.set_channel_a(frequency_mhz, time_us);
    }
    let ghost via1 = *via;
    let middle = via.log.len();
    if let BeeperCommand::Sound { frequency_mhz, .. } = chb {
        via.set_channel_b(frequency_mhz, time_us);
    }
    proof {
        assert(via.log@.len() >= via1.log@.len());
        assert(via.log@.subrange(0, via1.log@.len() as int) == via1.log@);
        assert(middle == via0.log@.len() + tuning_writes(via0.timer1_latch, tuned_freq(cha), via0.cpu_clock_hz));
    }
    let after = via.log.len();
    ArpTick { cha, chb, via_writes: after - before }
}

} // verus!
