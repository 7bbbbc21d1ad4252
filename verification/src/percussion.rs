//! mmml channel-4 percussion: an independent one-bit sample player.
//!
//! As in the mmml engine, each bit is held for `SAMPLE_SPEED`
//! output samples, bits are played least significant first, and a one bit
//! outputs the volume while a zero bit outputs silence.  The player advances
//! on every output sample, independently of the arpeggiator, so a drum lasts
//! exactly as long as its sample.
use vstd::prelude::*;
use crate::virtual_channel::{DrumType, FULL_VOLUME};

verus! {

/// Output samples per sample bit.
pub const SAMPLE_SPEED: u32 = 5;

/// bwoop (sample id 1): falling tone 1200 -> 150 Hz, about 20 ms.
pub const BWOOP: [u8; 24] = [
    0x0F, 0x0F, 0x0F,
    0xFF, 0x00, 0xFF, 0x00,
    0xFF, 0xFF, 0x00, 0x00,
    0xFF, 0xFF, 0x00, 0x00,
    0xFF, 0xFF, 0xFF, 0xFF,
    0x00, 0x00, 0x00, 0x00,
    0x00,
];

/// beep (sample id 2): 800 Hz square wave, 15 ms; a 12-bit period that
/// repeats every three bytes.
pub const BEEP: [u8; 18] = [
    0x3F, 0xF0, 0x03,
    0x3F, 0xF0, 0x03,
    0x3F, 0xF0, 0x03,
    0x3F, 0xF0, 0x03,
    0x3F, 0xF0, 0x03,
    0x3F, 0xF0, 0x03,
];

/// kick (sample id 3): pitch drop 4800 -> 150 Hz, about 33 ms.
pub const KICK: [u8; 40] = [
    0x55, 0x55, 0x55,
    0x33, 0x33,
    0x0F, 0x0F, 0x0F, 0x0F,
    0xFF, 0x00, 0xFF, 0x00,
    0xFF, 0xFF, 0x00, 0x00,
    0xFF, 0xFF, 0x00, 0x00,
    0xFF, 0xFF, 0xFF, 0xFF, 0x00, 0x00, 0x00, 0x00,
    0xFF, 0xFF, 0xFF, 0xFF, 0x00, 0x00, 0x00, 0x00,
    0x00, 0x00, 0x00,
];

/// snare (sample id 4): pseudo-random noise, about 30 ms.
pub const SNARE: [u8; 36] = [
    0xCA, 0x56, 0xD2, 0xAB,
    0x6D, 0xB4, 0x59, 0x36,
    0x8D, 0xC2, 0xB5, 0x6A,
    0xD3, 0x94, 0x5E, 0xA7,
    0x3C, 0xD6, 0xB1, 0x4A,
    0x9B, 0x25, 0xE8, 0x43,
    0xC7, 0x52, 0x8F, 0x1D,
    0x64, 0x28, 0x10, 0x44,
    0x20, 0x00, 0x00, 0x00,
];

/// hi-hat (sample id 5): high noise burst, about 7 ms.
pub const HIHAT: [u8; 8] = [
    0xAA,
    0x55,
    0x96, 0xD2, 0x4B, 0xA5,
    0x3C, 0x00,
];

/// click (fallback): short pulse, 2.5 ms.
pub const CLICK: [u8; 3] = [0x55, 0x00, 0x00];

/// Bytes of the one-bit sample of each drum.
pub open spec fn drum_bytes(d: DrumType) -> Seq<u8> {
    match d {
        DrumType::Bwoop => BWOOP@,
        DrumType::Beep => BEEP@,
        DrumType::Kick => KICK@,
        DrumType::Snare => SNARE@,
        DrumType::HiHat => HIHAT@,
        DrumType::Click => CLICK@,
    }
}

pub fn drum_sample_data(drum_type: &DrumType) -> (res: &'static [u8])
    ensures
        res@ == drum_bytes(*drum_type),
        res@.len() <= 40,
{
    match drum_type {
        DrumType::Bwoop => &BWOOP,
        DrumType::Beep => &BEEP,
        DrumType::Kick => &KICK,
        DrumType::Snare => &SNARE,
        DrumType::HiHat => &HIHAT,
        DrumType::Click => &CLICK,
    }
}


/// Bit `i` of a sample, least significant bit of each byte first.
pub open spec fn sample_bit(data: Seq<u8>, i: int) -> bool {
    (data[i / 8] >> ((i % 8) as u8)) & 1u8 == 1u8
}

/// Abstract state of the player.
pub struct PlayerState {
    pub active: bool,
    pub data: Seq<u8>,
    /// Index of the bit being played.
    pub bit_pos: int,
    /// Output samples spent on that bit so far.
    pub speed_count: int,
    pub current_bit: bool,
    pub volume_ppm: u32,
}

/// One output sample: the next state and the sample value.  The bit is read
/// at the start of each window of `SAMPLE_SPEED` samples and held for the
/// whole window.
pub open spec fn player_step(s: PlayerState) -> (PlayerState, u32) {
    if !s.active {
        (s, 0)
    } else if s.bit_pos >= s.data.len() * 8 {
        (PlayerState { active: false, ..s }, 0)
    } else {
        let bit = if s.speed_count == 0 { sample_bit(s.data, s.bit_pos) } else { s.current_bit };
        let count = s.speed_count + 1;
        let next = if count >= SAMPLE_SPEED {
            PlayerState { speed_count: 0, current_bit: bit, bit_pos: s.bit_pos + 1, ..s }
        } else {
            PlayerState { speed_count: count, current_bit: bit, ..s }
        };
        (next, if bit { s.volume_ppm } else { 0 })
    }
}

/// Player state right after triggering drum `d` at `volume_ppm`.
pub open spec fn triggered(d: DrumType, volume_ppm: u32) -> PlayerState {
    PlayerState {
        active: true,
        data: drum_bytes(d),
        bit_pos: 0,
        speed_count: 0,
        current_bit: false,
        volume_ppm: if volume_ppm > FULL_VOLUME { FULL_VOLUME } else { volume_ppm },
    }
}

/// State after `n` output samples.
pub open spec fn run(s: PlayerState, n: nat) -> PlayerState
    decreases n,
{
    if n == 0 {
        s
    } else {
        player_step(run(s, (n - 1) as nat)).0
    }
}

/// Independent one-bit sample player.
pub struct PercussionPlayer {
    active: bool,
    sample_data: &'static [u8],
    /// Index of the bit being played (least significant bit first).
    bit_pos: usize,
    /// Output samples spent on that bit.
    speed_count: u32,
    /// The bit being played.
    current_bit: bool,
    /// Volume in parts per million of full scale.
    volume_ppm: u32,
}

impl View for PercussionPlayer {
    type V = PlayerState;

    closed spec fn view(&self) -> PlayerState {
        PlayerState {
            active: self.active,
            data: self.sample_data@,
            bit_pos: self.bit_pos as int,
            speed_count: self.speed_count as int,
            current_bit: self.current_bit,
            volume_ppm: self.volume_ppm,
        }
    }
}

impl PercussionPlayer {
    #[verifier::type_invariant]
    closed spec fn inv(&self) -> bool {
        &&& self.sample_data@.len() <= 64
        &&& self.speed_count < SAMPLE_SPEED
    }

    pub fn new() -> (res: Self)
        ensures
            !res@.active,
            res@.data == CLICK@,
            res@.bit_pos == usize::MAX,
            res@.speed_count == 0,
            !res@.current_bit,
            res@.volume_ppm == FULL_VOLUME,
    {
        PercussionPlayer {
            active: false,
            sample_data: &CLICK,
            bit_pos: usize::MAX,
            speed_count: 0,
            current_bit: false,
            volume_ppm: FULL_VOLUME,
        }
    }

    /// Starts a new hit of `drum_type` at `volume_ppm` (clamped to full
    /// scale).
    pub fn trigger(&mut self, volume_ppm: u32, drum_type: &DrumType)
        ensures
            final(self)@ == triggered(*drum_type, volume_ppm),
    {
        proof {
            use_type_invariant(&*self);
        }
        self.sample_data = drum_sample_data(drum_type);
        self.bit_pos = 0;
        self.speed_count = 0;
        self.current_bit = false;
        self.volume_ppm = if volume_ppm > FULL_VOLUME { FULL_VOLUME } else { volume_ppm };
        self.active = true;
    }

    /// Produces one output sample: the volume while the current bit is one,
    /// zero otherwise; the player stops by itself after the last bit.
    pub fn generate_sample(&mut self) -> (res: u32)
        ensures
            (final(self)@, res) == player_step(old(self)@),
    {
        proof {
            use_type_invariant(&*self);
        }
        if !self.active {
            return 0;
        }
        let total_bits = self.sample_data.len() * 8;
        if self.bit_pos >= total_bits {
            self.active = false;
            return 0;
        }
        let bit = if self.speed_count == 0 {
            let byte = self.sample_data[self.bit_pos / 8];
            let shift = (self.bit_pos % 8) as u8;
            (byte >> shift) & 1 == 1
        } else {
            self.current_bit
        };
        self.current_bit = bit;
        let count = self.speed_count + 1;
        if count >= SAMPLE_SPEED {
            self.speed_count = 0;
            self.bit_pos = self.bit_pos + 1;
        } else {
            self.speed_count = count;
        }
        if bit { self.volume_ppm } else { 0 }
    }

    pub fn is_active(&self) -> (res: bool)
        ensures
            res == self@.active,
    {
        self.active
    }
}


/// State `k` output samples into a hit started in state `s0`, while the
/// sample is still playing.
pub open spec fn playing(s0: PlayerState, k: int) -> PlayerState {
    PlayerState {
        bit_pos: k / 5,
        speed_count: k % 5,
        current_bit: if k == 0 { s0.current_bit } else { sample_bit(s0.data, (k - 1) / 5) },
        ..s0
    }
}

proof fn lemma_run_playing(s0: PlayerState, k: nat)
    requires
        s0.active,
        s0.bit_pos == 0,
        s0.speed_count == 0,
        !s0.current_bit,
    ensures
        k <= 5 * s0.data.len() * 8 ==> run(s0, k) == playing(s0, k as int),
        k > 5 * s0.data.len() * 8 ==> run(s0, k) == (PlayerState {
            active: false,
            ..playing(s0, 5 * s0.data.len() as int * 8)
        }),
    decreases k,
{
    let t = s0.data.len() * 8;
    if k == 0 {
        assert(playing(s0, 0) == s0);
    } else {
        let j = (k - 1) as nat;
        lemma_run_playing(s0, j);
        if j < 5 * t {
            assert(j / 5 < t);
            if j % 5 == 4 {
                assert((j + 1) / 5 == j / 5 + 1);
                assert((j + 1) % 5 == 0);
            } else {
                assert((j + 1) / 5 == j / 5);
                assert((j + 1) % 5 == j % 5 + 1);
            }
        } else if j == 5 * t {
            assert(j / 5 == t);
        }
    }
}

/// Playback of a triggered drum: each bit of its sample, least significant
/// bit first, is held for `SAMPLE_SPEED` output samples from the first
/// sample on, so output sample number `k + 1` is the volume exactly when
/// `k + 1 <= SAMPLE_SPEED * bits` and bit `k / SAMPLE_SPEED` is one; the
/// player stays active for `SAMPLE_SPEED * bits` samples, and the next
/// sample stops it.
pub proof fn lemma_playback(d: DrumType, volume_ppm: u32, k: nat)
    ensures
        run(triggered(d, volume_ppm), k).active == (k <= SAMPLE_SPEED * drum_bytes(d).len() * 8),
        player_step(run(triggered(d, volume_ppm), k)).1 == (if k + 1 <= SAMPLE_SPEED * drum_bytes(d).len()
            * 8 && sample_bit(drum_bytes(d), k as int / SAMPLE_SPEED as int) {
            triggered(d, volume_ppm).volume_ppm
        } else {
            0
        }),
{
    let s0 = triggered(d, volume_ppm);
    let t = s0.data.len() * 8;
    lemma_run_playing(s0, k);
    if k < 5 * t {
        assert(k / 5 < t);
        if k % 5 != 0 {
            assert((k - 1) / 5 == k / 5);
        }
    }
}


impl Default for PercussionPlayer {
    fn default() -> (res: Self)
        ensures
            !res@.active,
            res@.data == CLICK@,
            res@.bit_pos == usize::MAX,
            res@.speed_count == 0,
            !res@.current_bit,
            res@.volume_ppm == FULL_VOLUME,
    {
        Self::new()
    }
}

} // verus!
