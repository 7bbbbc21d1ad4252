//! CPU-load targets.  The load estimate itself is floating point and lives
//! with the renderer; the target a mode is held to is decided here.
use vstd::prelude::*;
use crate::text::chars_of;

verus! {

/// `pat` occurs in `s`.
pub open spec fn occurs_in(s: Seq<char>, pat: Seq<char>) -> bool {
    exists|i: int| 0 <= i && i + pat.len() <= s.len() && #[trigger] s.subrange(i, i + pat.len()) == pat
}

fn occurs(s: &[char], pat: &str) -> (res: bool)
    ensures
        res == occurs_in(s@, pat@),
{
    let p = chars_of(pat);
    let n = s.len();
    let m = p.len();
    if m > n {
        assert forall|i: int| 0 <= i && i + p@.len() <= s@.len() implies #[trigger] s@.subrange(i, i + p@.len()) != p@ by {}
        return false;
    }
    let mut i: usize = 0;
    while i <= n - m
        invariant
            m == p@.len(),
            n == s@.len(),
            m <= n,
            i <= n - m + 1,
            p@ == pat@,
            forall|k: int| 0 <= k < i ==> #[trigger] s@.subrange(k, k + m) != p@,
        decreases n - m + 1 - i,
    {
        let mut j: usize = 0;
        while j < m && s[i + j] == p[j]
            invariant
                m == p@.len(),
                n == s@.len(),
                i + m <= n,
                j <= m,
                forall|q: int| 0 <= q < j ==> s@[i + q] == p@[q],
            decreases m - j,
        {
            j += 1;
        }
        if j == m {
            assert(s@.subrange(i as int, i + m) == p@);
            return true;
        }
        assert(s@.subrange(i as int, i + m)[j as int] != p@[j as int]);
        i += 1;
    }
    false
}

/// Realistic CPU-load target in percent for an arpeggio mode, by its
/// display name: 20 for BassLock and MelodyLock, 30 for Pseudo4 and
/// Pseudo3, 25 otherwise.
pub open spec fn load_target_for(name: Seq<char>) -> u32 {
    if occurs_in(name, "BassLock"@) || occurs_in(name, "MelodyLock"@) {
        20
    } else if occurs_in(name, "Pseudo4"@) || occurs_in(name, "Pseudo3"@) {
        30
    } else {
        25
    }
}

/// Target (percent of the CPU) that the realistic load estimate of a mode
/// should stay within.
pub fn load_target_percent(arp_mode_name: &str) -> (res: u32)
    ensures
        res == load_target_for(arp_mode_name@),
{
    let s = chars_of(arp_mode_name);
    if occurs(s.as_slice(), "BassLock") || occurs(s.as_slice(), "MelodyLock") {
        20
    } else if occurs(s.as_slice(), "Pseudo4") || occurs(s.as_slice(), "Pseudo3") {
        30
    } else {
        25
    }
}

} // verus!
