//! Note names of the YAML song format ("C4", "A#3", "Bb4", "D+2").
//!
//! A note name is read down to its MIDI note number (C4 = 60, A4 = 69); the
//! renderer turns the number into a frequency (A4 = 440 Hz, twelve equal
//! semitones per octave).
use vstd::prelude::*;
use crate::mml::parser::{decimal, is_digit};
use crate::text::{chars_of, string_of, trim_chars, trimmed};

verus! {

/// Why a note name could not be read.
#[derive(Debug, Clone)]
pub enum NoteNameError {
    /// Nothing but white space.
    Empty,
    /// The (uppercased) first character is not a note letter A-G.
    InvalidNoteChar(char),
    /// What follows the letter and accidental is not an `i32` octave.
    InvalidOctave(String),
}

/// What reading a note name gives.
pub enum NoteNameReading {
    Empty,
    BadLetter(char),
    BadOctave(Seq<char>),
    Midi(int),
}

pub open spec fn ascii_upper(c: char) -> char {
    if 'a' <= c <= 'z' {
        ((c as u32) - 32) as char
    } else {
        c
    }
}

/// Semitone of a note letter above C.
pub open spec fn letter_semitone(c: char) -> Option<int> {
    if c == 'C' {
        Some(0)
    } else if c == 'D' {
        Some(2)
    } else if c == 'E' {
        Some(4)
    } else if c == 'F' {
        Some(5)
    } else if c == 'G' {
        Some(7)
    } else if c == 'A' {
        Some(9)
    } else if c == 'B' {
        Some(11)
    } else {
        None
    }
}

/// The digits of a signed decimal number, without its sign.
pub open spec fn unsigned_part(s: Seq<char>) -> Seq<char> {
    if s.len() > 0 && (s[0] == '-' || s[0] == '+') {
        s.drop_first()
    } else {
        s
    }
}

/// `s` read as an `i32` the way `str::parse::<i32>` reads it: an optional
/// `+` or `-`, then one or more digits, and a value in range.
pub open spec fn parse_i32(s: Seq<char>) -> Option<int> {
    let digits = unsigned_part(s);
    let v = if s.len() > 0 && s[0] == '-' { -(decimal(digits) as int) } else { decimal(digits) as int };
    if digits.len() == 0 || !(forall|k: int| 0 <= k < digits.len() ==> is_digit(#[trigger] digits[k])) {
        None
    } else if v < i32::MIN || v > i32::MAX {
        None
    } else {
        Some(v)
    }
}

/// The octave text and the accidental (+1 sharp, -1 flat, 0 none) after
/// the note letter.
pub open spec fn accidental_split(rest: Seq<char>) -> (int, Seq<char>) {
    if rest.len() > 0 && (rest[0] == '#' || rest[0] == '+') {
        (1, rest.drop_first())
    } else if rest.len() > 1 && rest[0] == 'b' && is_digit(rest[1]) {
        (-1, rest.drop_first())
    } else {
        (0, rest)
    }
}

/// Reading of a note name: letter (either case), optional `#`/`+` (sharp)
/// or `b` (flat, only when a digit follows), then the octave; the MIDI
/// number is 12 * (octave + 1) + semitone + accidental.
pub open spec fn read_note_name(name: Seq<char>) -> NoteNameReading {
    let t = trimmed(name);
    if t.len() == 0 {
        NoteNameReading::Empty
    } else {
        let l = ascii_upper(t[0]);
        match letter_semitone(l) {
            None => NoteNameReading::BadLetter(l),
            Some(st) => {
                let (acc, oct) = accidental_split(t.drop_first());
                match parse_i32(oct) {
                    None => NoteNameReading::BadOctave(oct),
                    Some(o) => NoteNameReading::Midi(12 * (o + 1) + st + acc),
                }
            },
        }
    }
}

/// `res` is what `reading` says.
pub open spec fn reads_as(res: Result<i64, NoteNameError>, reading: NoteNameReading) -> bool {
    match reading {
        NoteNameReading::Empty => res matches Err(NoteNameError::Empty),
        NoteNameReading::BadLetter(c) => res matches Err(NoteNameError::InvalidNoteChar(d)) && d == c,
        NoteNameReading::BadOctave(o) => res matches Err(NoteNameError::InvalidOctave(t)) && t@ == o,
        NoteNameReading::Midi(m) => res == Ok::<i64, NoteNameError>(m as i64),
    }
}

proof fn lemma_decimal_push(s: Seq<char>, c: char)
    ensures
        decimal(s.push(c)) == decimal(s) * 10 + (c as u32 - '0' as u32) as nat,
{
    assert(s.push(c).drop_last() == s);
}

/// Reads `s` as an `i32` (see `parse_i32`).
pub fn parse_i32_chars(s: &[char]) -> (res: Option<i32>)
    ensures
        res matches Some(v) ==> parse_i32(s@) == Some(v as int),
        res is None ==> parse_i32(s@) is None,
{
    let n = s.len();
    let neg = n > 0 && s[0] == '-';
    let start: usize = if n > 0 && (s[0] == '-' || s[0] == '+') { 1 } else { 0 };
    let ghost digits = unsigned_part(s@);
    assert(digits == s@.subrange(start as int, n as int));
    if start >= n {
        return None;
    }
    let limit: u64 = if neg { 0x8000_0000 } else { 0x7FFF_FFFF };
    let mut k = start;
    let mut mag: u64 = 0;
    let mut too_big = false;
    assert(s@.subrange(start as int, start as int) =~= Seq::<char>::empty());
    while k < n
        invariant
            start <= k <= n == s@.len(),
            digits == s@.subrange(start as int, n as int),
            digits == unsigned_part(s@),
            neg == (s@.len() > 0 && s@[0] == '-'),
            limit == (if neg { 0x8000_0000u64 } else { 0x7FFF_FFFFu64 }),
            forall|q: int| start <= q < k ==> is_digit(#[trigger] s@[q]),
            too_big ==> decimal(s@.subrange(start as int, k as int)) > limit,
            !too_big ==> mag == decimal(s@.subrange(start as int, k as int)) && mag <= limit,
            limit <= 0x8000_0000,
        decreases n - k,
    {
        let c = s[k];
        if !('0' <= c && c <= '9') {
            assert(!is_digit(digits[k - start]));
            return None;
        }
        proof {
            assert(s@.subrange(start as int, k + 1) == s@.subrange(start as int, k as int).push(c));
            lemma_decimal_push(s@.subrange(start as int, k as int), c);
        }
        if !too_big {
            let next = mag * 10 + (c as u32 - '0' as u32) as u64;
            if next > limit {
                too_big = true;
            } else {
                mag = next;
            }
        }
        k += 1;
    }
    assert(forall|q: int| 0 <= q < digits.len() ==> is_digit(#[trigger] digits[q])) by {
        assert forall|q: int| 0 <= q < digits.len() implies is_digit(#[trigger] digits[q]) by {
            assert(digits[q] == s@[start + q]);
        }
    }
    if too_big {
        return None;
    }
    if neg {
        Some((0i64 - mag as i64) as i32)
    } else {
        Some(mag as i32)
    }
}

/// Reads a note name such as "C4", "A#3", "Bb4" or "D+2" (surrounding
/// white space is ignored) and returns its MIDI note number.
pub fn parse_note_midi(name: &str) -> (res: Result<i64, NoteNameError>)
    ensures
        reads_as(res, read_note_name(name@)),
{
    let all = chars_of(name);
    let t = trim_chars(all.as_slice());
    if t.len() == 0 {
        return Err(NoteNameError::Empty);
    }
    let c = t[0];
    let l = if 'a' <= c && c <= 'z' { ((c as u32 - 32) as u8) as char } else { c };
    let semitone: i64 = if l == 'C' {
        0
    } else if l == 'D' {
        2
    } else if l == 'E' {
        4
    } else if l == 'F' {
        5
    } else if l == 'G' {
        7
    } else if l == 'A' {
        9
    } else if l == 'B' {
        11
    } else {
        return Err(NoteNameError::InvalidNoteChar(l));
    };
    let n = t.len();
    let ghost rest = t@.drop_first();
    let (accidental, from): (i64, usize) = if n > 1 && (t[1] == '#' || t[1] == '+') {
        (1, 2)
    } else if n > 2 && t[1] == 'b' && '0' <= t[2] && t[2] <= '9' {
        (-1, 2)
    } else {
        (0, 1)
    };
    let oct = vstd::slice::slice_subrange(t.as_slice(), from, n);
    assert(oct@ == accidental_split(rest).1);
    match parse_i32_chars(oct) {
        None => Err(NoteNameError::InvalidOctave(string_of(oct))),
        Some(o) => Ok(12 * (o as i64 + 1) + semitone + accidental),
    }
}


/// Value of an accidental: `#` and `+` raise a semitone, `b` lowers one.
pub open spec fn accidental_value(a: Seq<char>) -> int {
    if a == seq!['#'] || a == seq!['+'] {
        1
    } else if a == seq!['b'] {
        -1
    } else {
        0
    }
}

/// A note name made of a letter A-G (either case), an optional accidental
/// and a non-negative octave number reads as MIDI note
/// 12 * (octave + 1) + semitone + accidental.
pub proof fn lemma_note_name(letter: char, accidental: Seq<char>, octave: Seq<char>)
    requires
        letter_semitone(ascii_upper(letter)) is Some,
        accidental == Seq::<char>::empty() || accidental == seq!['#'] || accidental == seq!['+']
            || accidental == seq!['b'],
        octave.len() > 0,
        forall|k: int| 0 <= k < octave.len() ==> is_digit(#[trigger] octave[k]),
        decimal(octave) <= i32::MAX,
    ensures
        read_note_name(seq![letter] + accidental + octave) == NoteNameReading::Midi(
            12 * (decimal(octave) + 1) + letter_semitone(ascii_upper(letter))->0 + accidental_value(accidental),
        ),
{
    let name = seq![letter] + accidental + octave;
    assert(name[0] == letter);
    assert(name.last() == octave.last());
    assert(name.skip(0) == name);
    assert(name.take(name.len() as int) == name);
    assert(trimmed(name) == name);
    let rest = name.drop_first();
    assert(rest == accidental + octave);
    if accidental.len() > 0 {
        assert(rest[0] == accidental[0]);
        assert(rest.drop_first() == octave);
        if accidental == seq!['b'] {
            assert(rest[1] == octave[0]);
        }
    } else {
        assert(rest == octave);
        assert(is_digit(octave[0]));
    }
    assert(accidental_split(rest).1 == octave);
    assert(unsigned_part(octave) == octave);
}

/// A sharp and the flat of the next letter name the same note (A#4 and Bb4
/// are one pitch).
pub proof fn lemma_sharp_is_next_flat(octave: Seq<char>)
    requires
        octave.len() > 0,
        forall|k: int| 0 <= k < octave.len() ==> is_digit(#[trigger] octave[k]),
        decimal(octave) <= i32::MAX,
    ensures
        read_note_name(seq!['A', '#'] + octave) == read_note_name(seq!['B', 'b'] + octave),
        read_note_name(seq!['C', '#'] + octave) == read_note_name(seq!['D', 'b'] + octave),
        read_note_name(seq!['D', '#'] + octave) == read_note_name(seq!['E', 'b'] + octave),
        read_note_name(seq!['F', '#'] + octave) == read_note_name(seq!['G', 'b'] + octave),
        read_note_name(seq!['G', '#'] + octave) == read_note_name(seq!['A', 'b'] + octave),
{
    assert(seq!['A', '#'] + octave == seq!['A'] + seq!['#'] + octave);
    assert(seq!['B', 'b'] + octave == seq!['B'] + seq!['b'] + octave);
    assert(seq!['C', '#'] + octave == seq!['C'] + seq!['#'] + octave);
    assert(seq!['D', 'b'] + octave == seq!['D'] + seq!['b'] + octave);
    assert(seq!['D', '#'] + octave == seq!['D'] + seq!['#'] + octave);
    assert(seq!['E', 'b'] + octave == seq!['E'] + seq!['b'] + octave);
    assert(seq!['F', '#'] + octave == seq!['F'] + seq!['#'] + octave);
    assert(seq!['G', 'b'] + octave == seq!['G'] + seq!['b'] + octave);
    assert(seq!['G', '#'] + octave == seq!['G'] + seq!['#'] + octave);
    assert(seq!['A', 'b'] + octave == seq!['A'] + seq!['b'] + octave);
    lemma_note_name('A', seq!['#'], octave);
    lemma_note_name('B', seq!['b'], octave);
    lemma_note_name('C', seq!['#'], octave);
    lemma_note_name('D', seq!['b'], octave);
    lemma_note_name('D', seq!['#'], octave);
    lemma_note_name('E', seq!['b'], octave);
    lemma_note_name('F', seq!['#'], octave);
    lemma_note_name('G', seq!['b'], octave);
    lemma_note_name('G', seq!['#'], octave);
    lemma_note_name('A', seq!['b'], octave);
}

} // verus!
