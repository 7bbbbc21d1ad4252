//! Drive modes of the piezo sounder (the filter model itself is floating
//! point and lives with the renderer).
use vstd::prelude::*;
use crate::text::{ascii_lowercase, lowercase_of, same, to_lowercase};

verus! {

/// Supply voltage and wiring of the sounder.
#[derive(Debug, Clone, Copy, PartialEq, Eq, Structural)]
pub enum DriveMode {
    /// 3.3 V single-ended (small amplitude).
    V33SingleEnded,
    /// 3.3 V bridge-tied load (medium amplitude).
    V33Btl,
    /// 5 V single-ended (medium amplitude).
    V5SingleEnded,
    /// 5 V bridge-tied load (large amplitude).
    V5Btl,
}

pub open spec fn drive_mode_name(d: DriveMode) -> Seq<char> {
    match d {
        DriveMode::V33SingleEnded => "3.3V single-ended"@,
        DriveMode::V33Btl => "3.3V BTL"@,
        DriveMode::V5SingleEnded => "5V single-ended"@,
        DriveMode::V5Btl => "5V BTL"@,
    }
}

/// Drive mode selected by an already lowercased command-line name; unknown
/// names select 3.3 V BTL.
pub open spec fn drive_mode_for_lowercase(n: Seq<char>) -> DriveMode {
    if n == "3v3-single"@ || n == "3v3se"@ || n == "3v3single"@ {
        DriveMode::V33SingleEnded
    } else if n == "3v3-btl"@ || n == "3v3btl"@ || n == "3v3"@ {
        DriveMode::V33Btl
    } else if n == "5v-single"@ || n == "5vse"@ || n == "5vsingle"@ {
        DriveMode::V5SingleEnded
    } else if n == "5v-btl"@ || n == "5vbtl"@ || n == "5v"@ {
        DriveMode::V5Btl
    } else {
        DriveMode::V33Btl
    }
}

impl DriveMode {
    pub fn name(self) -> (res: &'static str)
        ensures
            res@ == drive_mode_name(self),
    {
        match self {
            DriveMode::V33SingleEnded => "3.3V single-ended",
            DriveMode::V33Btl => "3.3V BTL",
            DriveMode::V5SingleEnded => "5V single-ended",
            DriveMode::V5Btl => "5V BTL",
        }
    }

    /// Drive mode for a name that is already lowercase.
    pub fn from_lowercase(n: &String) -> (res: Self)
        ensures
            res == drive_mode_for_lowercase(n@),
    {
        if same(n, "3v3-single") || same(n, "3v3se") || same(n, "3v3single") {
            DriveMode::V33SingleEnded
        } else if same(n, "3v3-btl") || same(n, "3v3btl") || same(n, "3v3") {
            DriveMode::V33Btl
        } else if same(n, "5v-single") || same(n, "5vse") || same(n, "5vsingle") {
            DriveMode::V5SingleEnded
        } else if same(n, "5v-btl") || same(n, "5vbtl") || same(n, "5v") {
            DriveMode::V5Btl
        } else {
            DriveMode::V33Btl
        }
    }
}


/// Case-insensitive command-line spelling of a drive mode; unknown names
/// select 3.3 V BTL.
pub fn parse_drive_mode(s: &str) -> (res: DriveMode)
    ensures
        res == drive_mode_for_lowercase(lowercase_of(s@)),
        vstd::utf8::is_ascii_chars(s@) ==> res == drive_mode_for_lowercase(ascii_lowercase(s@)),
{
    let lower = to_lowercase(s);
    proof {
        if vstd::utf8::is_ascii_chars(s@) {
            assert(lower@ =~= ascii_lowercase(s@));
        }
    }
    DriveMode::from_lowercase(&lower)
}

/// Supply voltage of a drive mode as its command-line names begin:
/// `3v3` for 3.3 V, `5v` for 5 V.
pub open spec fn voltage_word(d: DriveMode) -> Seq<char> {
    match d {
        DriveMode::V33SingleEnded | DriveMode::V33Btl => "3v3"@,
        DriveMode::V5SingleEnded | DriveMode::V5Btl => "5v"@,
    }
}

/// Whether a drive mode is bridge-tied.
pub open spec fn is_btl(d: DriveMode) -> bool {
    d == DriveMode::V33Btl || d == DriveMode::V5Btl
}

/// Every drive mode is selected by its voltage followed by its wiring in
/// each of the three command-line forms: `-single` / `single` / `se` for
/// single-ended and `-btl` / `btl` / nothing for bridge-tied (so `5v-single`,
/// `5vsingle` and `5vse` select 5 V single-ended, and `3v3-btl`, `3v3btl`
/// and `3v3` select 3.3 V BTL).
pub proof fn lemma_drive_spellings(d: DriveMode)
    ensures
        drive_mode_for_lowercase(voltage_word(d) + (if is_btl(d) { "-btl"@ } else { "-single"@ })) == d,
        drive_mode_for_lowercase(voltage_word(d) + (if is_btl(d) { "btl"@ } else { "single"@ })) == d,
        drive_mode_for_lowercase(voltage_word(d) + (if is_btl(d) { ""@ } else { "se"@ })) == d,
{
    reveal_strlit("3v3");
    reveal_strlit("5v");
    reveal_strlit("-btl");
    reveal_strlit("-single");
    reveal_strlit("btl");
    reveal_strlit("single");
    reveal_strlit("");
    reveal_strlit("se");
    reveal_strlit("3v3-single");
    reveal_strlit("3v3se");
    reveal_strlit("3v3single");
    reveal_strlit("3v3-btl");
    reveal_strlit("3v3btl");
    reveal_strlit("5v-single");
    reveal_strlit("5vse");
    reveal_strlit("5vsingle");
    reveal_strlit("5v-btl");
    reveal_strlit("5vbtl");
    let v = voltage_word(d);
    match d {
        DriveMode::V33SingleEnded => {
            assert(v + "-single"@ =~= "3v3-single"@);
            assert(v + "single"@ =~= "3v3single"@);
            assert(v + "se"@ =~= "3v3se"@);
        },
        DriveMode::V33Btl => {
            assert(v + "-btl"@ =~= "3v3-btl"@);
            assert(v + "btl"@ =~= "3v3btl"@);
            assert(v + ""@ =~= "3v3"@);
        },
        DriveMode::V5SingleEnded => {
            assert(v + "-single"@ =~= "5v-single"@);
            assert("5v-single"@[0] != "3v3single"@[0]);
            assert(v + "single"@ =~= "5vsingle"@);
            assert(v + "se"@ =~= "5vse"@);
        },
        DriveMode::V5Btl => {
            assert(v + "-btl"@ =~= "5v-btl"@);
            assert(v + "btl"@ =~= "5vbtl"@);
            assert("5v-btl"@[0] != "3v3btl"@[0]);
            assert("5vbtl"@[0] != "3v3se"@[0]);
            assert(v + ""@ =~= "5v"@);
        },
    }
}

} // verus!
