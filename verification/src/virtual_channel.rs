//! Virtual (logical) channels VCH1..VCH4.
//!
//! The hardware has two timer channels; the arpeggiator switches them fast
//! enough that four logical channels can be heard.  Frequencies are held in
//! millihertz, volumes in parts per million of full scale and times in
//! microseconds.
use vstd::prelude::*;

verus! {

/// Sound source of a channel.
#[derive(Debug, Clone, Copy, PartialEq, Eq, Structural)]
pub enum Instrument {
    /// Ordinary square-wave voice.
    Square,
    /// Short percussion / click voice (VCH4).
    Percussion,
}

/// Percussion kinds; the mmml channel-4 note selects the one-bit sample.
#[derive(Debug, Clone, Copy, PartialEq, Eq, Structural)]
pub enum DrumType {
    Bwoop,
    Beep,
    Kick,
    Snare,
    HiHat,
    Click,
}

/// Sample id of the mmml channel-4 sample table (1..=5); anything else is a
/// click.
pub open spec fn drum_for_sample_id(id: u8) -> DrumType {
    if id == 1 {
        DrumType::Bwoop
    } else if id == 2 {
        DrumType::Beep
    } else if id == 3 {
        DrumType::Kick
    } else if id == 4 {
        DrumType::Snare
    } else if id == 5 {
        DrumType::HiHat
    } else {
        DrumType::Click
    }
}

/// Fallback classification by pitch (millihertz) when no sample id is known:
/// below 500 Hz a kick, below 1.4 kHz a snare, below 4 kHz a hi-hat, else a
/// click.
pub open spec fn drum_for_frequency(freq_mhz: u32) -> DrumType {
    if freq_mhz < 500_000 {
        DrumType::Kick
    } else if freq_mhz < 1_400_000 {
        DrumType::Snare
    } else if freq_mhz < 4_000_000 {
        DrumType::HiHat
    } else {
        DrumType::Click
    }
}

impl DrumType {
    pub fn from_mmml_sample_id(id: u8) -> (res: Self)
        ensures
            res == drum_for_sample_id(id),
    {
        match id {
            1 => DrumType::Bwoop,
            2 => DrumType::Beep,
            3 => DrumType::Kick,
            4 => DrumType::Snare,
            5 => DrumType::HiHat,
            _ => DrumType::Click,
        }
    }

    pub fn from_freq_fallback(freq_mhz: u32) -> (res: Self)
        ensures
            res == drum_for_frequency(freq_mhz),
    {
        if freq_mhz < 500_000 {
            DrumType::Kick
        } else if freq_mhz < 1_400_000 {
            DrumType::Snare
        } else if freq_mhz < 4_000_000 {
            DrumType::HiHat
        } else {
            DrumType::Click
        }
    }
}

/// Full-scale volume in parts per million.
pub const FULL_VOLUME: u32 = 1_000_000;

/// Gate-close time meaning "never".
pub const NEVER: u64 = 0xFFFF_FFFF_FFFF_FFFF;

/// State of one logical channel.
#[derive(Debug, Clone)]
pub struct VirtualChannel {
    /// Channel number (1-4).
    pub id: u8,
    pub enabled: bool,
    /// Pitch in millihertz.
    pub frequency_mhz: u32,
    /// Volume in parts per million of full scale (0..=FULL_VOLUME).
    pub volume_ppm: u32,
    /// True while the note sounds.
    pub gate_open: bool,
    /// Time (microseconds) at which the note stops sounding.
    pub gate_close_us: u64,
    /// Larger is more important.
    pub priority: u32,
    pub instrument: Instrument,
    /// Time (microseconds) of the last note-on; `None` before the first.
    pub trigger_us: Option<u64>,
    /// Percussion kind (meaningful for percussion channels only).
    pub drum_type: DrumType,
}

/// Default priority of channel `id`: VCH1=10, VCH2=7, VCH3=4, VCH4=1.
pub open spec fn default_priority(id: u8) -> u32 {
    ((4 - id) * 3 + 1) as u32
}

impl VirtualChannel {
    pub open spec fn active(&self) -> bool {
        self.enabled && self.gate_open
    }

    pub fn new(id: u8) -> (res: Self)
        requires
            id <= 4,
        ensures
            res.id == id,
            !res.enabled,
            res.frequency_mhz == 440_000,
            res.volume_ppm == FULL_VOLUME,
            !res.gate_open,
            res.gate_close_us == NEVER,
            res.priority == default_priority(id),
            res.instrument == (if id == 4 { Instrument::Percussion } else { Instrument::Square }),
            res.trigger_us.is_none(),
            res.drum_type == DrumType::Click,
    {
        let instrument = if id == 4 { Instrument::Percussion } else { Instrument::Square };
        VirtualChannel {
            id,
            enabled: false,
            frequency_mhz: 440_000,
            volume_ppm: FULL_VOLUME,
            gate_open: false,
            gate_close_us: NEVER,
            priority: (4 - id as u32) * 3 + 1,
            instrument,
            trigger_us: None,
            drum_type: DrumType::Click,
        }
    }

    /// True while the channel is enabled and its gate is open.
    pub fn is_active(&self) -> (res: bool)
        ensures
            res == self.active(),
    {
        self.enabled && self.gate_open
    }

    /// Note on: set pitch and volume (clamped to full scale) and open the
    /// gate.  A percussion channel classifies its drum from the pitch.
    pub fn note_on(&mut self, frequency_mhz: u32, volume_ppm: u32, gate_close_us: u64, trigger_us: u64)
        ensures
            final(self).enabled,
            final(self).frequency_mhz == frequency_mhz,
            final(self).volume_ppm == (if volume_ppm > FULL_VOLUME { FULL_VOLUME } else { volume_ppm }),
            final(self).gate_open,
            final(self).gate_close_us == gate_close_us,
            final(self).trigger_us == Some(trigger_us),
            final(self).drum_type == (if old(self).instrument == Instrument::Percussion {
                drum_for_frequency(frequency_mhz)
            } else {
                old(self).drum_type
            }),
            final(self).id == old(self).id,
            final(self).priority == old(self).priority,
            final(self).instrument == old(self).instrument,
    {
        self.enabled = true;
        self.frequency_mhz = frequency_mhz;
        self.volume_ppm = if volume_ppm > FULL_VOLUME { FULL_VOLUME } else { volume_ppm };
        self.gate_open = true;
        self.gate_close_us = gate_close_us;
        self.trigger_us = Some(trigger_us);
        if self.instrument == Instrument::Percussion {
            self.drum_type = DrumType::from_freq_fallback(frequency_mhz);
        }
    }

    /// Ends the note (end of the sustain phase).
    pub fn close_gate(&mut self)
        ensures
            *final(self) == (VirtualChannel { gate_open: false, ..*old(self) }),
    {
        self.gate_open = false;
    }

    /// Disables the channel and closes its gate for good.
    pub fn reset(&mut self)
        ensures
            *final(self) == (VirtualChannel {
                enabled: false,
                gate_open: false,
                gate_close_us: NEVER,
                ..*old(self)
            }),
    {
        self.enabled = false;
        self.gate_open = false;
        self.gate_close_us = NEVER;
    }

    /// Ends the note once `current_us` has reached its end time.
    pub fn update_gate(&mut self, current_us: u64)
        ensures
            *final(self) == (VirtualChannel {
                gate_open: old(self).gate_open && current_us < old(self).gate_close_us,
                ..*old(self)
            }),
    {
        if self.gate_open && current_us >= self.gate_close_us {
            self.gate_open = false;
        }
    }
}

/// Index into the channel array for channel number `id`, clamped to 1..=4.
pub open spec fn channel_slot(id: u8) -> int {
    if id < 1 {
        0
    } else if id > 4 {
        3
    } else {
        id - 1
    }
}

/// The four logical channels.
pub struct VirtualChannels {
    pub channels: [VirtualChannel; 4],
}

impl VirtualChannels {
    pub fn new() -> (res: Self)
        ensures
            forall|i: int| 0 <= i < 4 ==> {
                let c = #[trigger] res.channels@[i];
                &&& c.id == i + 1
                &&& !c.enabled
                &&& !c.gate_open
                &&& c.frequency_mhz == 440_000
                &&& c.volume_ppm == FULL_VOLUME
                &&& c.gate_close_us == NEVER
                &&& c.priority == default_priority((i + 1) as u8)
                &&& c.instrument == (if i == 3 { Instrument::Percussion } else { Instrument::Square })
                &&& c.trigger_us.is_none()
                &&& c.drum_type == DrumType::Click
            },
    {
        VirtualChannels {
            channels: [
                VirtualChannel::new(1),
                VirtualChannel::new(2),
                VirtualChannel::new(3),
                VirtualChannel::new(4),
            ],
        }
    }

    /// Updates every channel's gate for time `current_us`.
    pub fn update_gates(&mut self, current_us: u64)
        ensures
            forall|i: int| 0 <= i < 4 ==> #[trigger] final(self).channels@[i] == (VirtualChannel {
                gate_open: old(self).channels@[i].gate_open && current_us < old(self).channels@[i].gate_close_us,
                ..old(self).channels@[i]
            }),
    {
        self.channels[0].update_gate(current_us);
        self.channels[1].update_gate(current_us);
        self.channels[2].update_gate(current_us);
        self.channels[3].update_gate(current_us);
    }

    /// Channel `id` (clamped to 1..=4).
    pub fn get(&self, id: u8) -> (res: &VirtualChannel)
        ensures
            *res == self.channels@[channel_slot(id)],
    {
        let slot: u8 = if id < 1 { 1 } else if id > 4 { 4 } else { id };
        &self.channels[(slot - 1) as usize]
    }

    /// Mutable access to channel `id` (clamped to 1..=4).
    pub fn get_mut(&mut self, id: u8) -> (res: &mut VirtualChannel)
        ensures
            *res == old(self).channels@[channel_slot(id)],
            final(self).channels@ == old(self).channels@.update(channel_slot(id), *final(res)),
    {
        let slot: u8 = if id < 1 { 1 } else if id > 4 { 4 } else { id };
        &mut self.channels[(slot - 1) as usize]
    }
}


impl Default for VirtualChannels {
    fn default() -> (res: Self)
        ensures
            forall|i: int| 0 <= i < 4 ==> {
                let c = #[trigger] res.channels@[i];
                &&& c.id == i + 1
                &&& !c.enabled
                &&& !c.gate_open
                &&& c.frequency_mhz == 440_000
                &&& c.volume_ppm == FULL_VOLUME
                &&& c.gate_close_us == NEVER
                &&& c.priority == default_priority((i + 1) as u8)
                &&& c.instrument == (if i == 3 { Instrument::Percussion } else { Instrument::Square })
                &&& c.trigger_us.is_none()
                &&& c.drum_type == DrumType::Click
            },
    {
        Self::new()
    }
}

} // verus!
