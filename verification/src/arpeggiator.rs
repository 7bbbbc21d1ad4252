//! Arpeggiator: schedules the four logical channels onto the two timer
//! channels by switching them at a fixed rate.
//!
//! BassLock (recommended) cycles through
//!   tick 0: CH-A=VCH1, CH-B=VCH2
//!   tick 1: CH-A=VCH3, CH-B=VCH2
//!   tick 2: CH-A=VCH1, CH-B=VCH4
//!   tick 3: CH-A=VCH3, CH-B=VCH2
use vstd::prelude::*;
use crate::text::{ascii_lower, ascii_lowercase, lowercase_of, same, to_lowercase};
use crate::virtual_channel::VirtualChannel;

verus! {

/// Arpeggio mode.
#[derive(Debug, Clone, Copy, PartialEq, Eq, Structural)]
pub enum ArpMode {
    /// Direct two channels: VCH1 on CH-A, VCH2 on CH-B.
    Off,
    /// CH-A alternates VCH1/VCH3, CH-B plays VCH2.
    Pseudo3,
    /// CH-A and CH-B time-share all four channels.
    Pseudo4,
    /// CH-B locked to VCH2 (bass), CH-A time-shares VCH1/VCH3/VCH4.
    BassLock,
    /// CH-A locked to VCH1 (melody), CH-B time-shares VCH2/VCH3/VCH4.
    MelodyLock,
}

pub open spec fn arp_mode_name(m: ArpMode) -> Seq<char> {
    match m {
        ArpMode::Off => "Off (direct2)"@,
        ArpMode::Pseudo3 => "Pseudo3"@,
        ArpMode::Pseudo4 => "Pseudo4"@,
        ArpMode::BassLock => "BassLock"@,
        ArpMode::MelodyLock => "MelodyLock"@,
    }
}

/// Mode selected by an already lowercased name; unknown names select
/// BassLock.
pub open spec fn arp_mode_for_lowercase(n: Seq<char>) -> ArpMode {
    if n == "off"@ || n == "direct2"@ || n == "direct"@ {
        ArpMode::Off
    } else if n == "pseudo3"@ {
        ArpMode::Pseudo3
    } else if n == "pseudo4"@ {
        ArpMode::Pseudo4
    } else if n == "basslock"@ || n == "bass-lock"@ || n == "bass_lock"@ {
        ArpMode::BassLock
    } else if n == "melodylock"@ || n == "melody-lock"@ || n == "melody_lock"@ {
        ArpMode::MelodyLock
    } else {
        ArpMode::BassLock
    }
}


impl ArpMode {
    pub fn name(&self) -> (res: &'static str)
        ensures
            res@ == arp_mode_name(*self),
    {
        match self {
            ArpMode::Off => "Off (direct2)",
            ArpMode::Pseudo3 => "Pseudo3",
            ArpMode::Pseudo4 => "Pseudo4",
            ArpMode::BassLock => "BassLock",
            ArpMode::MelodyLock => "MelodyLock",
        }
    }

    /// Mode for a name that is already lowercase.
    pub fn from_lowercase(n: &String) -> (res: Self)
        ensures
            res == arp_mode_for_lowercase(n@),
    {
        if same(n, "off") || same(n, "direct2") || same(n, "direct") {
            ArpMode::Off
        } else if same(n, "pseudo3") {
            ArpMode::Pseudo3
        } else if same(n, "pseudo4") {
            ArpMode::Pseudo4
        } else if same(n, "basslock") || same(n, "bass-lock") || same(n, "bass_lock") {
            ArpMode::BassLock
        } else if same(n, "melodylock") || same(n, "melody-lock") || same(n, "melody_lock") {
            ArpMode::MelodyLock
        } else {
            ArpMode::BassLock
        }
    }

    /// Case-insensitive mode name; unknown names select BassLock.
    pub fn from_str(s: &str) -> (res: Self)
        ensures
            res == arp_mode_for_lowercase(lowercase_of(s@)),
            vstd::utf8::is_ascii_chars(s@) ==> res == arp_mode_for_lowercase(ascii_lowercase(s@)),
    {
        let lower = to_lowercase(s);
        proof {
            if vstd::utf8::is_ascii_chars(s@) {
                assert(lower@ =~= ascii_lowercase(s@));
            }
        }
        Self::from_lowercase(&lower)
    }
}

/// Command-line spelling of an arpeggio mode.
pub fn parse_arp_mode(s: &str) -> (res: ArpMode)
    ensures
        res == arp_mode_for_lowercase(lowercase_of(s@)),
        vstd::utf8::is_ascii_chars(s@) ==> res == arp_mode_for_lowercase(ascii_lowercase(s@)),
{
    ArpMode::from_str(s)
}

/// Which logical channel (index 0-3) each timer channel plays; `None` is
/// silence.
#[derive(Debug, Clone)]
pub struct Assignment {
    pub cha_idx: Option<usize>,
    pub chb_idx: Option<usize>,
}

/// First entry of `pref`, other than `exclude`, whose channel is active
/// (`want_active`) or enabled (`!want_active`).
pub open spec fn first_with(
    vchs: Seq<VirtualChannel>,
    pref: Seq<usize>,
    exclude: Option<usize>,
    want_active: bool,
) -> Option<usize>
    decreases pref.len(),
{
    if pref.len() == 0 {
        None
    } else {
        let idx = pref[0];
        let ok = if want_active { vchs[idx as int].active() } else { vchs[idx as int].enabled };
        if exclude != Some(idx) && ok {
            Some(idx)
        } else {
            first_with(vchs, pref.drop_first(), exclude, want_active)
        }
    }
}

/// The preferred channel for a timer channel: the first active channel in
/// preference order, failing that the first enabled one, failing that none.
/// `exclude` is the channel the other timer channel already plays.
pub open spec fn pick(vchs: Seq<VirtualChannel>, pref: Seq<usize>, exclude: Option<usize>) -> Option<usize> {
    match first_with(vchs, pref, exclude, true) {
        Some(i) => Some(i),
        None => first_with(vchs, pref, exclude, false),
    }
}

/// The assignment `mode` makes at arpeggio tick `tick`, as a pair
/// (CH-A, CH-B).
pub open spec fn schedule(mode: ArpMode, tick: u32, v: Seq<VirtualChannel>) -> (Option<usize>, Option<usize>) {
    match mode {
        ArpMode::Off => (Some(0usize), Some(1usize)),
        ArpMode::Pseudo3 => {
            let a = if tick % 2 == 0 { pick(v, seq![0usize, 2], None) } else { pick(v, seq![2usize, 0], None) };
            (a, pick(v, seq![1usize], a))
        },
        ArpMode::Pseudo4 => {
            let t = tick % 4;
            let (pa, pb) = if t == 0 {
                (seq![0usize], seq![1usize])
            } else if t == 1 {
                (seq![2usize], seq![3usize])
            } else if t == 2 {
                (seq![0usize], seq![2usize])
            } else {
                (seq![1usize], seq![3usize])
            };
            let a = pick(v, pa, None);
            (a, pick(v, pb, a))
        },
        ArpMode::BassLock => {
            let t = tick % 4;
            let (pa, pb) = if t == 0 {
                (seq![0usize, 2, 3], seq![1usize])
            } else if t == 1 {
                (seq![2usize, 0, 3], seq![1usize])
            } else if t == 2 {
                (seq![0usize, 2], seq![3usize, 1])
            } else {
                (seq![2usize, 0, 3], seq![1usize])
            };
            let a = pick(v, pa, None);
            (a, pick(v, pb, a))
        },
        ArpMode::MelodyLock => {
            let t = tick % 4;
            let pb = if t == 0 {
                seq![1usize, 2, 3]
            } else if t == 1 {
                seq![2usize, 1, 3]
            } else if t == 2 {
                seq![1usize, 3, 2]
            } else {
                seq![3usize, 1, 2]
            };
            let a = pick(v, seq![0usize], None);
            (a, pick(v, pb, a))
        },
    }
}

/// The arpeggio scheduler.
pub struct Arpeggiator {
    pub mode: ArpMode,
    /// Update rate in millihertz (at least 1 Hz).
    pub rate_mhz: u32,
    /// Tick counter: the arpeggio slot the next `assign` uses; `advance` moves
    /// it on by one (wrapping), and callers may also set it directly.
    pub tick: u32,
}

fn first_with_exec(
    vchs: &[VirtualChannel; 4],
    preferred: &[usize],
    exclude: Option<usize>,
    want_active: bool,
) -> (res: Option<usize>)
    requires
        forall|k: int| 0 <= k < preferred@.len() ==> #[trigger] preferred@[k] < 4,
    ensures
        res == first_with(vchs@, preferred@, exclude, want_active),
{
    let mut i: usize = 0;
    assert(preferred@.skip(0) == preferred@);
    while i < preferred.len()
        invariant
            i <= preferred@.len(),
            forall|k: int| 0 <= k < preferred@.len() ==> #[trigger] preferred@[k] < 4,
            first_with(vchs@, preferred@, exclude, want_active)
                == first_with(vchs@, preferred@.skip(i as int), exclude, want_active),
        decreases preferred@.len() - i,
    {
        let idx = preferred[i];
        let ok = if want_active { vchs[idx].is_active() } else { vchs[idx].enabled };
        assert(preferred@.skip(i as int).drop_first() == preferred@.skip(i + 1));
        let excluded = match exclude {
            Some(e) => e == idx,
            None => false,
        };
        if !excluded && ok {
            return Some(idx);
        }
        i += 1;
    }
    None
}

/// First active channel of `preferred` other than `exclude`; failing that
/// the first enabled one; failing that none.
fn active_or_fallback(vchs: &[VirtualChannel; 4], preferred: &[usize], exclude: Option<usize>) -> (res: Option<usize>)
    requires
        forall|k: int| 0 <= k < preferred@.len() ==> #[trigger] preferred@[k] < 4,
    ensures
        res == pick(vchs@, preferred@, exclude),
{
    match first_with_exec(vchs, preferred, exclude, true) {
        Some(i) => Some(i),
        None => first_with_exec(vchs, preferred, exclude, false),
    }
}

impl Arpeggiator {
    pub open spec fn tick_count(&self) -> u32 {
        self.tick
    }

    pub fn new(mode: ArpMode, rate_mhz: u32) -> (res: Self)
        ensures
            res.mode == mode,
            res.rate_mhz == (if rate_mhz < 1000 { 1000 } else { rate_mhz }),
            res.tick_count() == 0,
    {
        Arpeggiator { mode, rate_mhz: if rate_mhz < 1000 { 1000 } else { rate_mhz }, tick: 0 }
    }

    /// Assignment of logical to timer channels for the current tick.
    pub fn assign(&self, vchs: &[VirtualChannel; 4]) -> (res: Assignment)
        ensures
            (res.cha_idx, res.chb_idx) == schedule(self.mode, self.tick_count(), vchs@),
    {
        match self.mode {
            ArpMode::Off => self.assign_off(vchs),
            ArpMode::Pseudo3 => self.assign_pseudo3(vchs),
            ArpMode::Pseudo4 => self.assign_pseudo4(vchs),
            ArpMode::BassLock => self.assign_basslock(vchs),
            ArpMode::MelodyLock => self.assign_melodylock(vchs),
        }
    }

    /// Advances the tick counter by one, wrapping at `u32::MAX`.
    pub fn advance(&mut self)
        ensures
            final(self).tick_count() == (if old(self).tick_count() == u32::MAX { 0 } else { (old(self).tick_count() + 1) as u32 }),
            final(self).mode == old(self).mode,
            final(self).rate_mhz == old(self).rate_mhz,
    {
        self.tick = if self.tick == u32::MAX { 0 } else { self.tick + 1 };
    }

    pub fn tick(&self) -> (res: u32)
        ensures
            res == self.tick_count(),
    {
        self.tick
    }

    fn assign_off(&self, _vchs: &[VirtualChannel; 4]) -> (res: Assignment)
        requires
            self.mode == ArpMode::Off,
        ensures
            (res.cha_idx, res.chb_idx) == schedule(self.mode, self.tick_count(), _vchs@),
    {
        Assignment { cha_idx: Some(0), chb_idx: Some(1) }
    }

    fn assign_pseudo3(&self, vchs: &[VirtualChannel; 4]) -> (res: Assignment)
        requires
            self.mode == ArpMode::Pseudo3,
        ensures
            (res.cha_idx, res.chb_idx) == schedule(self.mode, self.tick_count(), vchs@),
    {
        let cha = if self.tick % 2 == 0 {
            let p: [usize; 2] = [0, 2];
            assert(p@ == seq![0usize, 2]);
            active_or_fallback(vchs, &p, None)
        } else {
            let p: [usize; 2] = [2, 0];
            assert(p@ == seq![2usize, 0]);
            active_or_fallback(vchs, &p, None)
        };
        let q: [usize; 1] = [1];
        assert(q@ == seq![1usize]);
        let chb = active_or_fallback(vchs, &q, cha);
        Assignment { cha_idx: cha, chb_idx: chb }
    }

    fn assign_pseudo4(&self, vchs: &[VirtualChannel; 4]) -> (res: Assignment)
        requires
            self.mode == ArpMode::Pseudo4,
        ensures
            (res.cha_idx, res.chb_idx) == schedule(self.mode, self.tick_count(), vchs@),
    {
        let t = self.tick % 4;
        let (pa, pb): ([usize; 1], [usize; 1]) = if t == 0 {
            ([0], [1])
        } else if t == 1 {
            ([2], [3])
        } else if t == 2 {
            ([0], [2])
        } else {
            ([1], [3])
        };
        assert(pa@ == seq![pa[0]]);
        assert(pb@ == seq![pb[0]]);
        let cha = active_or_fallback(vchs, &pa, None);
        let chb = active_or_fallback(vchs, &pb, cha);
        Assignment { cha_idx: cha, chb_idx: chb }
    }

    fn assign_basslock(&self, vchs: &[VirtualChannel; 4]) -> (res: Assignment)
        requires
            self.mode == ArpMode::BassLock,
        ensures
            (res.cha_idx, res.chb_idx) == schedule(self.mode, self.tick_count(), vchs@),
    {
        let t = self.tick % 4;
        let cha = if t == 0 {
            let p: [usize; 3] = [0, 2, 3];
            assert(p@ == seq![0usize, 2, 3]);
            active_or_fallback(vchs, &p, None)
        } else if t == 2 {
            let p: [usize; 2] = [0, 2];
            assert(p@ == seq![0usize, 2]);
            active_or_fallback(vchs, &p, None)
        } else {
            let p: [usize; 3] = [2, 0, 3];
            assert(p@ == seq![2usize, 0, 3]);
            active_or_fallback(vchs, &p, None)
        };
        let chb = if t == 2 {
            let q: [usize; 2] = [3, 1];
            assert(q@ == seq![3usize, 1]);
            active_or_fallback(vchs, &q, cha)
        } else {
            let q: [usize; 1] = [1];
            assert(q@ == seq![1usize]);
            active_or_fallback(vchs, &q, cha)
        };
        Assignment { cha_idx: cha, chb_idx: chb }
    }

    fn assign_melodylock(&self, vchs: &[VirtualChannel; 4]) -> (res: Assignment)
        requires
            self.mode == ArpMode::MelodyLock,
        ensures
            (res.cha_idx, res.chb_idx) == schedule(self.mode, self.tick_count(), vchs@),
    {
        let t = self.tick % 4;
        let pb: [usize; 3] = if t == 0 {
            [1, 2, 3]
        } else if t == 1 {
            [2, 1, 3]
        } else if t == 2 {
            [1, 3, 2]
        } else {
            [3, 1, 2]
        };
        assert(pb@ == seq![pb[0], pb[1], pb[2]]);
        let p: [usize; 1] = [0];
        assert(p@ == seq![0usize]);
        let cha = active_or_fallback(vchs, &p, None);
        let chb = active_or_fallback(vchs, &pb, cha);
        Assignment { cha_idx: cha, chb_idx: chb }
    }
}


/// Index that `first_with` returns is one of the preferred channels, not the
/// excluded one, and passes the test it was searched with.
proof fn lemma_first_with_found(v: Seq<VirtualChannel>, pref: Seq<usize>, exclude: Option<usize>, want_active: bool)
    ensures
        first_with(v, pref, exclude, want_active) matches Some(i) ==> {
            &&& pref.contains(i)
            &&& exclude != Some(i)
            &&& if want_active { v[i as int].active() } else { v[i as int].enabled }
        },
        (exists|k: int| 0 <= k < pref.len() && exclude != Some(pref[k])
            && (if want_active { v[pref[k] as int].active() } else { v[pref[k] as int].enabled }))
            ==> first_with(v, pref, exclude, want_active) is Some,
    decreases pref.len(),
{
    if pref.len() > 0 {
        lemma_first_with_found(v, pref.drop_first(), exclude, want_active);
        if first_with(v, pref, exclude, want_active) != first_with(v, pref.drop_first(), exclude, want_active) {
            assert(pref.contains(pref[0]));
        } else {
            if let Some(i) = first_with(v, pref, exclude, want_active) {
                let k = choose|k: int| 0 <= k < pref.drop_first().len() && pref.drop_first()[k] == i;
                assert(pref[k + 1] == i);
            }
        }
        if exists|k: int| 0 <= k < pref.len() && exclude != Some(pref[k])
            && (if want_active { v[pref[k] as int].active() } else { v[pref[k] as int].enabled }) {
            let k = choose|k: int| 0 <= k < pref.len() && exclude != Some(pref[k])
                && (if want_active { v[pref[k] as int].active() } else { v[pref[k] as int].enabled });
            if k > 0 {
                assert(pref.drop_first()[k - 1] == pref[k]);
            }
        }
    }
}

/// A timer channel is given one of its preferred channels, never the one the
/// other timer channel plays, and only an enabled one; and whenever one of
/// its preferred channels is sounding it gets a sounding one.
pub proof fn lemma_pick(v: Seq<VirtualChannel>, pref: Seq<usize>, exclude: Option<usize>)
    ensures
        pick(v, pref, exclude) matches Some(i) ==> pref.contains(i) && exclude != Some(i)
            && v[i as int].enabled,
        (exists|k: int| 0 <= k < pref.len() && exclude != Some(pref[k]) && v[pref[k] as int].active())
            ==> (pick(v, pref, exclude) matches Some(i) && v[i as int].active()),
        (exists|k: int| 0 <= k < pref.len() && exclude != Some(pref[k]) && v[pref[k] as int].enabled)
            ==> pick(v, pref, exclude) is Some,
{
    lemma_first_with_found(v, pref, exclude, true);
    lemma_first_with_found(v, pref, exclude, false);
    if exists|k: int| 0 <= k < pref.len() && exclude != Some(pref[k]) && v[pref[k] as int].enabled {
        let k = choose|k: int| 0 <= k < pref.len() && exclude != Some(pref[k]) && v[pref[k] as int].enabled;
        assert(exclude != Some(pref[k]) && (if false { v[pref[k] as int].active() } else { v[pref[k] as int].enabled }));
    }
    if exists|k: int| 0 <= k < pref.len() && exclude != Some(pref[k]) && v[pref[k] as int].active() {
        let k = choose|k: int| 0 <= k < pref.len() && exclude != Some(pref[k]) && v[pref[k] as int].active();
        assert(exclude != Some(pref[k]) && (if true { v[pref[k] as int].active() } else { v[pref[k] as int].enabled }));
    }
}

/// In every mode and at every tick the two timer channels play logical
/// channels 0..=3 and never the same one; outside Off mode they only play
/// enabled channels.
pub proof fn lemma_schedule_well_formed(mode: ArpMode, tick: u32, v: Seq<VirtualChannel>)
    ensures
        schedule(mode, tick, v).0 matches Some(a) ==> a < 4,
        schedule(mode, tick, v).1 matches Some(b) ==> b < 4,
        schedule(mode, tick, v).0 matches Some(a) ==> schedule(mode, tick, v).1 != Some(a),
        mode != ArpMode::Off ==> (schedule(mode, tick, v).0 matches Some(a) ==> v[a as int].enabled),
        mode != ArpMode::Off ==> (schedule(mode, tick, v).1 matches Some(b) ==> v[b as int].enabled),
{
    let t = tick % 4;
    let ps: Seq<Seq<usize>> = seq![
        seq![0usize, 2], seq![2usize, 0], seq![1usize], seq![0usize], seq![2usize], seq![3usize],
        seq![0usize, 2, 3], seq![2usize, 0, 3], seq![3usize, 1], seq![1usize, 2, 3],
        seq![2usize, 1, 3], seq![1usize, 3, 2], seq![3usize, 1, 2],
    ];
    assert forall|p: Seq<usize>, e: Option<usize>| #![trigger ps.contains(p), pick(v, p, e)] ps.contains(p) implies
        (pick(v, p, e) matches Some(i) ==> i < 4 && e != Some(i) && v[i as int].enabled) by {
        lemma_pick(v, p, e);
        if let Some(i) = pick(v, p, e) {
            let k = choose|k: int| 0 <= k < p.len() && p[k] == i;
            let j = choose|j: int| 0 <= j < ps.len() && ps[j] == p;
            assert(p[k] < 4);
        }
    }
    assert(ps.contains(seq![0usize, 2]) && ps.contains(seq![2usize, 0]) && ps.contains(seq![1usize])
        && ps.contains(seq![0usize]) && ps.contains(seq![2usize]) && ps.contains(seq![3usize])
        && ps.contains(seq![0usize, 2, 3]) && ps.contains(seq![2usize, 0, 3]) && ps.contains(seq![3usize, 1])
        && ps.contains(seq![1usize, 2, 3]) && ps.contains(seq![2usize, 1, 3]) && ps.contains(seq![1usize, 3, 2])
        && ps.contains(seq![3usize, 1, 2])) by {
        assert(ps[0] == seq![0usize, 2]);
        assert(ps[1] == seq![2usize, 0]);
        assert(ps[2] == seq![1usize]);
        assert(ps[3] == seq![0usize]);
        assert(ps[4] == seq![2usize]);
        assert(ps[5] == seq![3usize]);
        assert(ps[6] == seq![0usize, 2, 3]);
        assert(ps[7] == seq![2usize, 0, 3]);
        assert(ps[8] == seq![3usize, 1]);
        assert(ps[9] == seq![1usize, 2, 3]);
        assert(ps[10] == seq![2usize, 1, 3]);
        assert(ps[11] == seq![1usize, 3, 2]);
        assert(ps[12] == seq![3usize, 1, 2]);
    }
}

/// The schedule depends on the tick only through `tick % 4`: it repeats
/// every four ticks.
pub proof fn lemma_schedule_period(mode: ArpMode, t1: u32, t2: u32, v: Seq<VirtualChannel>)
    requires
        t1 % 4 == t2 % 4,
    ensures
        schedule(mode, t1, v) == schedule(mode, t2, v),
{
    assert(t1 % 2 == t2 % 2);
}

/// Advancing the tick moves one step along the four-tick cycle, also when
/// the counter wraps around.
pub proof fn lemma_advance_cycles(t: u32)
    ensures
        (if t == u32::MAX { 0 } else { (t + 1) as u32 }) % 4 == (t % 4 + 1) % 4,
{
}

/// With all four channels sounding, BassLock cycles through
/// (VCH1,VCH2), (VCH3,VCH2), (VCH1,VCH4), (VCH3,VCH2).
pub proof fn lemma_basslock_pattern(tick: u32, v: Seq<VirtualChannel>)
    requires
        v.len() == 4,
        forall|i: int| 0 <= i < 4 ==> #[trigger] v[i].active(),
    ensures
        schedule(ArpMode::BassLock, tick, v) == (if tick % 4 == 0 {
            (Some(0usize), Some(1usize))
        } else if tick % 4 == 1 {
            (Some(2usize), Some(1usize))
        } else if tick % 4 == 2 {
            (Some(0usize), Some(3usize))
        } else {
            (Some(2usize), Some(1usize))
        }),
{
    reveal_with_fuel(first_with, 2);
    assert(v[0].active() && v[1].active() && v[2].active() && v[3].active());
}

/// BassLock keeps the bass (VCH2) on CH-B whenever it sounds, except on the
/// percussion slot (tick 2 of 4).
pub proof fn lemma_basslock_holds_bass(tick: u32, v: Seq<VirtualChannel>)
    requires
        v[1].active(),
        tick % 4 != 2,
    ensures
        schedule(ArpMode::BassLock, tick, v).1 == Some(1usize),
{
    reveal_with_fuel(first_with, 2);
    let a = schedule(ArpMode::BassLock, tick, v).0;
    lemma_first_with_found(v, seq![0usize, 2, 3], None, true);
    lemma_first_with_found(v, seq![0usize, 2, 3], None, false);
    lemma_first_with_found(v, seq![2usize, 0, 3], None, true);
    lemma_first_with_found(v, seq![2usize, 0, 3], None, false);
    if let Some(i) = a {
        assert(i != 1);
    }
}

/// MelodyLock keeps the melody (VCH1) on CH-A whenever it is enabled.
pub proof fn lemma_melodylock_holds_melody(tick: u32, v: Seq<VirtualChannel>)
    requires
        v[0].enabled,
    ensures
        schedule(ArpMode::MelodyLock, tick, v).0 == Some(0usize),
{
    reveal_with_fuel(first_with, 2);
}


/// BassLock never lets the bass drop out: whenever VCH2 sounds, CH-B plays
/// a sounding channel on every tick.  On the percussion slot (tick 2 of 4)
/// that is VCH4 when it sounds and VCH2 otherwise.
pub proof fn lemma_basslock_keeps_bass_sounding(tick: u32, v: Seq<VirtualChannel>)
    requires
        v[1].active(),
    ensures
        schedule(ArpMode::BassLock, tick, v).1 matches Some(b) && v[b as int].active(),
        tick % 4 == 2 ==> schedule(ArpMode::BassLock, tick, v).1 == (if v[3].active() {
            Some(3usize)
        } else {
            Some(1usize)
        }),
{
    reveal_with_fuel(first_with, 3);
    if tick % 4 != 2 {
        lemma_basslock_holds_bass(tick, v);
    } else {
        let a = schedule(ArpMode::BassLock, tick, v).0;
        lemma_first_with_found(v, seq![0usize, 2], None, true);
        lemma_first_with_found(v, seq![0usize, 2], None, false);
        if let Some(i) = a {
            assert(seq![0usize, 2].contains(i));
            assert(i == 0 || i == 2);
        }
    }
}

/// In BassLock a timer channel is silent only when none of the channels it
/// may play on that tick is enabled: CH-A may play VCH1, VCH3 or (except on
/// tick 2 of 4) VCH4; CH-B may play VCH2 or (on tick 2 of 4) VCH4.
pub proof fn lemma_basslock_silent_only_without_candidates(tick: u32, v: Seq<VirtualChannel>)
    ensures
        schedule(ArpMode::BassLock, tick, v).0 is None <==> (!v[0].enabled && !v[2].enabled
            && (tick % 4 == 2 || !v[3].enabled)),
        schedule(ArpMode::BassLock, tick, v).1 is None <==> (!v[1].enabled && (tick % 4 != 2
            || !v[3].enabled)),
{
    reveal_with_fuel(first_with, 4);
}

/// Parsing a mode's own name gives the mode back, for every mode but Off
/// (whose name also describes it: "Off (direct2)"), with any mix of upper
/// and lower case the name is written in.
pub proof fn lemma_name_round_trip(m: ArpMode)
    requires
        m != ArpMode::Off,
    ensures
        arp_mode_for_lowercase(ascii_lowercase(arp_mode_name(m))) == m,
{
    reveal_strlit("Pseudo3");
    reveal_strlit("Pseudo4");
    reveal_strlit("BassLock");
    reveal_strlit("MelodyLock");
    reveal_strlit("pseudo3");
    reveal_strlit("pseudo4");
    reveal_strlit("basslock");
    reveal_strlit("melodylock");
    reveal_strlit("off");
    reveal_strlit("direct2");
    reveal_strlit("direct");
    reveal_strlit("bass-lock");
    reveal_strlit("bass_lock");
    reveal_strlit("melody-lock");
    reveal_strlit("melody_lock");
    let l = ascii_lowercase(arp_mode_name(m));
    match m {
        ArpMode::Pseudo3 => {
            assert(l =~= "pseudo3"@);
            assert(l[0] != "direct2"@[0]);
        },
        ArpMode::Pseudo4 => {
            assert(l =~= "pseudo4"@);
            assert(l[0] != "direct2"@[0] && l[6] != "pseudo3"@[6]);
            assert(arp_mode_for_lowercase(l) == ArpMode::Pseudo4);
        },
        ArpMode::BassLock => {
            assert(l =~= "basslock"@);
            assert(arp_mode_for_lowercase(l) == ArpMode::BassLock);
        },
        ArpMode::MelodyLock => {
            assert(l =~= "melodylock"@);
            assert(arp_mode_for_lowercase(l) == ArpMode::MelodyLock);
        },
        ArpMode::Off => {},
    }
}

/// The lock modes also take their name with `-` or `_` before `lock`
/// ("bass-lock", "bass_lock"), in any case.
pub proof fn lemma_lock_spellings(m: ArpMode)
    requires
        m == ArpMode::BassLock || m == ArpMode::MelodyLock,
    ensures
        ({
            let l = ascii_lowercase(arp_mode_name(m));
            let w = l.take(l.len() - 4);
            &&& l == w + "lock"@
            &&& arp_mode_for_lowercase(w + "-lock"@) == m
            &&& arp_mode_for_lowercase(w + "_lock"@) == m
        }),
{
    reveal_strlit("BassLock");
    reveal_strlit("MelodyLock");
    reveal_strlit("lock");
    reveal_strlit("-lock");
    reveal_strlit("_lock");
    reveal_strlit("pseudo3");
    reveal_strlit("pseudo4");
    reveal_strlit("basslock");
    reveal_strlit("melodylock");
    reveal_strlit("off");
    reveal_strlit("direct2");
    reveal_strlit("direct");
    reveal_strlit("bass-lock");
    reveal_strlit("bass_lock");
    reveal_strlit("melody-lock");
    reveal_strlit("melody_lock");
    let l = ascii_lowercase(arp_mode_name(m));
    let w = l.take(l.len() - 4);
    if m == ArpMode::BassLock {
        assert(l =~= "basslock"@);
        assert(l =~= w + "lock"@);
        assert(w + "-lock"@ =~= "bass-lock"@);
        assert(w + "_lock"@ =~= "bass_lock"@);
    } else {
        assert(l =~= "melodylock"@);
        assert(l =~= w + "lock"@);
        assert(w + "-lock"@ =~= "melody-lock"@);
        assert(w + "_lock"@ =~= "melody_lock"@);
    }
}

/// With all four channels sounding, each mode plays its documented cycle,
/// as (CH-A, CH-B) on ticks 0, 1, 2 and 3 of every four:
/// Off (VCH1,VCH2) throughout; Pseudo3 (VCH1,VCH2), (VCH3,VCH2) alternating;
/// Pseudo4 (VCH1,VCH2), (VCH3,VCH4), (VCH1,VCH3), (VCH2,VCH4);
/// MelodyLock (VCH1,VCH2), (VCH1,VCH3), (VCH1,VCH2), (VCH1,VCH4).
pub proof fn lemma_mode_patterns(tick: u32, v: Seq<VirtualChannel>)
    requires
        v.len() == 4,
        forall|i: int| 0 <= i < 4 ==> #[trigger] v[i].active(),
    ensures
        schedule(ArpMode::Off, tick, v) == (Some(0usize), Some(1usize)),
        schedule(ArpMode::Pseudo3, tick, v) == (if tick % 2 == 0 { (Some(0usize), Some(1usize)) } else {
            (Some(2usize), Some(1usize)) }),
        schedule(ArpMode::Pseudo4, tick, v) == (if tick % 4 == 0 {
            (Some(0usize), Some(1usize))
        } else if tick % 4 == 1 {
            (Some(2usize), Some(3usize))
        } else if tick % 4 == 2 {
            (Some(0usize), Some(2usize))
        } else {
            (Some(1usize), Some(3usize))
        }),
        schedule(ArpMode::MelodyLock, tick, v) == (if tick % 2 == 0 {
            (Some(0usize), Some(1usize))
        } else if tick % 4 == 1 {
            (Some(0usize), Some(2usize))
        } else {
            (Some(0usize), Some(3usize))
        }),
{
    reveal_with_fuel(first_with, 2);
    assert(v[0].active() && v[1].active() && v[2].active() && v[3].active());
    assert(tick % 4 == 0 || tick % 4 == 2 <==> tick % 2 == 0);
}

/// Outside BassLock too, a timer channel is silent only when none of the
/// channels it may play on that tick is enabled: Pseudo3 gives CH-A VCH1 or
/// VCH3 and CH-B VCH2; Pseudo4 gives each timer channel the one channel of
/// its slot; MelodyLock gives CH-A VCH1 and CH-B VCH2, VCH3 or VCH4.
pub proof fn lemma_silent_only_without_candidates(tick: u32, v: Seq<VirtualChannel>)
    ensures
        schedule(ArpMode::Pseudo3, tick, v).0 is None <==> !v[0].enabled && !v[2].enabled,
        schedule(ArpMode::Pseudo3, tick, v).1 is None <==> !v[1].enabled,
        schedule(ArpMode::Pseudo4, tick, v).0 is None <==> !v[(if tick % 4 == 0 || tick % 4 == 2 { 0int }
            else if tick % 4 == 1 { 2int } else { 1int })].enabled,
        schedule(ArpMode::Pseudo4, tick, v).1 is None <==> !v[(if tick % 4 == 0 { 1int }
            else if tick % 4 == 2 { 2int } else { 3int })].enabled,
        schedule(ArpMode::MelodyLock, tick, v).0 is None <==> !v[0].enabled,
        schedule(ArpMode::MelodyLock, tick, v).1 is None <==> !v[1].enabled && !v[2].enabled
            && !v[3].enabled,
{
    reveal_with_fuel(first_with, 4);
}

/// Off is selected by the words of its own name, "Off (direct2)": `off`,
/// `direct2`, and `direct` without the channel count.
pub proof fn lemma_off_spellings()
    ensures
        ({
            let l = ascii_lowercase(arp_mode_name(ArpMode::Off));
            &&& arp_mode_for_lowercase(l.take(3)) == ArpMode::Off
            &&& arp_mode_for_lowercase(l.subrange(5, 12)) == ArpMode::Off
            &&& arp_mode_for_lowercase(l.subrange(5, 11)) == ArpMode::Off
        }),
{
    reveal_strlit("Off (direct2)");
    reveal_strlit("off");
    reveal_strlit("direct2");
    reveal_strlit("direct");
    let l = ascii_lowercase(arp_mode_name(ArpMode::Off));
    assert(l.take(3) =~= "off"@);
    assert(l.subrange(5, 12) =~= "direct2"@);
    assert(l.subrange(5, 11) =~= "direct"@);
}

} // verus!
