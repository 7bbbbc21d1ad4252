//! mmml / μMML text processing.
//!
//! The text is handled in the order of the mmml tool chain:
//!   1. `%` comments are stripped line by line,
//!   2. the text is split into sections at `@` (channels A-D, then macros),
//!   3. loops `[n ...]` and macro calls `m<n>` are expanded,
//!   4. each expanded channel is read as a stream of notes, rests and
//!      commands.
//! Timing (tempo in BPM and seconds) is floating point and is computed by
//! the renderer from the integer items produced here.
use vstd::prelude::*;
use vstd::slice::slice_subrange;
use crate::text::{chars_of, decimal_text, digit_char, string_of};

verus! {

// ───────────────────────── numbers ─────────────────────────

pub open spec fn is_digit(c: char) -> bool {
    '0' <= c <= '9'
}

pub open spec fn digit_value(c: char) -> nat {
    (c as u32 - '0' as u32) as nat
}

/// Value of a string of decimal digits.
pub open spec fn decimal(s: Seq<char>) -> nat
    decreases s.len(),
{
    if s.len() == 0 {
        0
    } else {
        decimal(s.drop_last()) * 10 + digit_value(s.last())
    }
}

/// End of the run of digits that starts at `i`.
pub open spec fn digits_end(s: Seq<char>, i: int) -> int
    decreases s.len() - i,
{
    if 0 <= i < s.len() && is_digit(s[i]) {
        digits_end(s, i + 1)
    } else {
        i
    }
}

/// The number written at `i`: the whole run of digits there, as long as
/// its value fits in a `u32`, together with the index just past it.
pub open spec fn number_at(s: Seq<char>, i: int) -> Option<(u32, int)> {
    let e = digits_end(s, i);
    if e == i || decimal(s.subrange(i, e)) > u32::MAX {
        None
    } else {
        Some((decimal(s.subrange(i, e)) as u32, e))
    }
}

pub proof fn lemma_digits_end(s: Seq<char>, i: int)
    requires
        0 <= i,
    ensures
        i <= digits_end(s, i),
        i <= s.len() ==> digits_end(s, i) <= s.len(),
        forall|k: int| i <= k < digits_end(s, i) ==> is_digit(#[trigger] s[k]),
    decreases s.len() - i,
{
    if 0 <= i < s.len() && is_digit(s[i]) {
        lemma_digits_end(s, i + 1);
    }
}

proof fn lemma_decimal_grows(s: Seq<char>, c: char)
    requires
        is_digit(c),
    ensures
        decimal(s.push(c)) == decimal(s) * 10 + digit_value(c),
        decimal(s.push(c)) >= decimal(s),
{
    assert(s.push(c).drop_last() == s);
}

/// Reads the decimal number at `start`.  `None` when there is no digit
/// there or the number does not fit in a `u32`.
pub fn read_u32(chars: &[char], start: usize) -> (res: Option<(u32, usize)>)
    ensures
        res is Some == number_at(chars@, start as int) is Some,
        res matches Some((n, j)) ==> number_at(chars@, start as int) == Some((n, j as int)),
{
    let s = Ghost(chars@);
    proof {
        lemma_digits_end(s@, start as int);
    }
    if start >= chars.len() {
        return None;
    }
    assert(s@.subrange(start as int, start as int) =~= Seq::<char>::empty());
    let mut j = start;
    let mut acc: u64 = 0;
    let mut overflow = false;
    while j < chars.len() && '0' <= chars[j] && chars[j] <= '9'
        invariant
            s@ == chars@,
            start <= j <= chars@.len(),
            digits_end(s@, j as int) == digits_end(s@, start as int),
            overflow ==> decimal(s@.subrange(start as int, j as int)) > u32::MAX,
            !overflow ==> acc == decimal(s@.subrange(start as int, j as int)),
            !overflow ==> acc <= u32::MAX,
        decreases chars@.len() - j,
    {
        let c = chars[j];
        proof {
            assert(s@.subrange(start as int, j + 1) == s@.subrange(start as int, j as int).push(c));
            lemma_decimal_grows(s@.subrange(start as int, j as int), c);
        }
        if !overflow {
            let d = (c as u32 - '0' as u32) as u64;
            let next = acc * 10 + d;
            if next > 0xFFFF_FFFF {
                overflow = true;
            } else {
                acc = next;
            }
        }
        j += 1;
    }
    if j == start || overflow {
        None
    } else {
        Some((acc as u32, j))
    }
}

/// `v` clamped to `lo..=hi`.
pub open spec fn clamp(v: u32, lo: u32, hi: u32) -> u32 {
    if v < lo {
        lo
    } else if v > hi {
        hi
    } else {
        v
    }
}

/// A note or rest length at `i`: the number there (or `default`) clamped to
/// 1..=128, whether a `.` (dotted, one and a half times as long) follows,
/// and the index just past both.
pub open spec fn length_at(s: Seq<char>, i: int, default: u32) -> (u32, bool, int) {
    let (n, j) = match number_at(s, i) {
        Some(p) => p,
        None => (default, i),
    };
    let dotted = 0 <= j < s.len() && s[j] == '.';
    (clamp(n, 1, 128), dotted, if dotted { j + 1 } else { j })
}

/// Reads a length (number, default `default`, then an optional dot).
pub fn read_length(chars: &[char], i: usize, default: u32) -> (res: (u32, bool, usize))
    ensures
        (res.0, res.1, res.2 as int) == length_at(chars@, i as int, default),
{
    proof {
        lemma_digits_end(chars@, i as int);
    }
    let (length, mut j) = match read_u32(chars, i) {
        Some(p) => p,
        None => (default, i),
    };
    let length = if length < 1 { 1 } else if length > 128 { 128 } else { length };
    let dotted = j < chars.len() && chars[j] == '.';
    if dotted {
        j += 1;
    }
    (length, dotted, j)
}


// ───────────────────────── lines and sections ─────────────────────────

/// Index of the first `c` at or after `i`, or the length when there is none.
pub open spec fn find_from(s: Seq<char>, c: char, i: int) -> int
    decreases s.len() - i,
{
    if i >= s.len() {
        s.len() as int
    } else if s[i] == c {
        i
    } else {
        find_from(s, c, i + 1)
    }
}

pub proof fn lemma_find_from(s: Seq<char>, c: char, i: int)
    requires
        0 <= i <= s.len(),
    ensures
        i <= find_from(s, c, i) <= s.len(),
        forall|k: int| i <= k < find_from(s, c, i) ==> s[k] != c,
        find_from(s, c, i) < s.len() ==> s[find_from(s, c, i)] == c,
    decreases s.len() - i,
{
    if i < s.len() && s[i] != c {
        lemma_find_from(s, c, i + 1);
    }
}

/// A line loses the `\r` of a `\r\n` ending.
pub open spec fn strip_cr(l: Seq<char>) -> Seq<char> {
    if l.len() > 0 && l.last() == '\r' {
        l.drop_last()
    } else {
        l
    }
}

/// The lines of `s` from index `i` on, as `str::lines` splits them: at `\n`
/// or `\r\n`, with no empty line after a final line ending.
pub open spec fn lines_from(s: Seq<char>, i: int) -> Seq<Seq<char>>
    decreases s.len() - i,
{
    if i < 0 || i >= s.len() {
        seq![]
    } else {
        let e = find_from(s, '\n', i);
        proof {
            lemma_find_from(s, '\n', i);
        }
        if e >= s.len() {
            seq![s.subrange(i, s.len() as int)]
        } else {
            seq![strip_cr(s.subrange(i, e))] + lines_from(s, e + 1)
        }
    }
}

/// A line up to (not including) its first `%`.
pub open spec fn cut_comment(l: Seq<char>) -> Seq<char> {
    l.take(find_from(l, '%', 0))
}

/// Lines joined with `\n` between them.
pub open spec fn join_lines(ls: Seq<Seq<char>>) -> Seq<char>
    decreases ls.len(),
{
    if ls.len() == 0 {
        seq![]
    } else if ls.len() == 1 {
        ls[0]
    } else {
        join_lines(ls.drop_last()) + seq!['\n'] + ls.last()
    }
}

/// The text with every `%` comment removed: each line cut at its first `%`
/// and the lines joined with `\n`.
pub open spec fn stripped(s: Seq<char>) -> Seq<char> {
    join_lines(lines_from(s, 0).map_values(|l: Seq<char>| cut_comment(l)))
}

proof fn lemma_find_in_range(s: Seq<char>, c: char, a: int, b: int, k: int, j: int)
    requires
        0 <= a <= k <= b <= s.len(),
        0 <= j <= k - a,
        forall|t: int| a <= t < k ==> s[t] != c,
        k == b || s[k] == c,
    ensures
        find_from(s.subrange(a, b), c, j) == k - a,
    decreases k - a - j,
{
    if j < k - a {
        lemma_find_in_range(s, c, a, b, k, j + 1);
    }
}

fn push_range(out: &mut Vec<char>, src: &[char], a: usize, b: usize)
    requires
        a <= b <= src@.len(),
    ensures
        final(out)@ == old(out)@ + src@.subrange(a as int, b as int),
{
    let mut k = a;
    while k < b
        invariant
            a <= k <= b <= src@.len(),
            out@ == old(out)@ + src@.subrange(a as int, k as int),
        decreases b - k,
    {
        out.push(src[k]);
        k += 1;
        assert(out@ == old(out)@ + src@.subrange(a as int, k as int));
    }
}

/// Removes `%` comments from the characters of a text.
pub fn strip_comment_chars(text: &[char]) -> (res: Vec<char>)
    ensures
        res@ == stripped(text@),
{
    let n = text.len();
    let ghost s = text@;
    let ghost mut done: Seq<Seq<char>> = seq![];
    let mut out: Vec<char> = Vec::new();
    let mut i: usize = 0;
    while i < n
        invariant
            s == text@,
            n == s.len(),
            i <= n,
            (i == 0) == (done.len() == 0),
            lines_from(s, 0) == done + lines_from(s, i as int),
            out@ == join_lines(done.map_values(|l: Seq<char>| cut_comment(l))),
        decreases n - i,
    {
        let mut e = i;
        proof {
            lemma_find_from(s, '\n', i as int);
        }
        while e < n && text[e] != '\n'
            invariant
                s == text@,
                n == s.len(),
                i <= e <= n,
                find_from(s, '\n', i as int) == find_from(s, '\n', e as int),
            decreases n - e,
        {
            e += 1;
        }
        let line_end = if e < n && e > i && text[e - 1] == '\r' { e - 1 } else { e };
        let ghost line = if e < n { strip_cr(s.subrange(i as int, e as int)) } else { s.subrange(i as int, n as int) };
        assert(line == s.subrange(i as int, line_end as int));
        let mut k = i;
        while k < line_end && text[k] != '%'
            invariant
                s == text@,
                n == text@.len(),
                i <= k <= line_end <= n,
                forall|t: int| i <= t < k ==> s[t] != '%',
            decreases line_end - k,
        {
            k += 1;
        }
        proof {
            lemma_find_in_range(s, '%', i as int, line_end as int, k as int, 0);
            assert(cut_comment(line) == s.subrange(i as int, k as int));
            let m = done.map_values(|l: Seq<char>| cut_comment(l));
            assert(done.push(line).map_values(|l: Seq<char>| cut_comment(l)) == m.push(cut_comment(line)));
            assert(m.push(cut_comment(line)).drop_last() == m);
        }
        if i > 0 {
            out.push('\n');
        }
        push_range(&mut out, text, i, k);
        proof {
            if i > 0 {
                assert(done.len() > 0);
            } else {
                assert(done.len() == 0);
            }
            let next: int = if e < n { e + 1 } else { n as int };
            assert(lines_from(s, i as int) == seq![line] + lines_from(s, next));
            assert(done + lines_from(s, i as int) == done.push(line) + lines_from(s, next));
            done = done.push(line);
        }
        i = if e < n { e + 1 } else { n };
    }
    proof {
        assert(done + lines_from(s, n as int) == done);
    }
    out
}

/// Removes `%` comments, line by line.
pub fn strip_comments(text: &str) -> (res: String)
    ensures
        res@ == stripped(text@),
{
    let chars = chars_of(text);
    let out = strip_comment_chars(chars.as_slice());
    string_of(out.as_slice())
}


/// The pieces of `s` from `i` on between occurrences of `c`, as
/// `str::split` cuts them.
pub open spec fn pieces_from(s: Seq<char>, c: char, i: int) -> Seq<Seq<char>>
    decreases s.len() - i,
{
    if i < 0 || i > s.len() {
        seq![]
    } else {
        let e = find_from(s, c, i);
        proof {
            lemma_find_from(s, c, i);
        }
        if e >= s.len() {
            seq![s.subrange(i, s.len() as int)]
        } else {
            seq![s.subrange(i, e)] + pieces_from(s, c, e + 1)
        }
    }
}

/// The sections of an mmml text: the pieces after each `@` (the text before
/// the first `@` is not a section).
pub open spec fn sections_of(s: Seq<char>) -> Seq<Seq<char>> {
    let f = find_from(s, '@', 0);
    if f >= s.len() {
        seq![]
    } else {
        pieces_from(s, '@', f + 1)
    }
}

/// Character views of a list of character vectors.
pub open spec fn views(v: Seq<Vec<char>>) -> Seq<Seq<char>> {
    v.map_values(|x: Vec<char>| x@)
}

fn copy_range(src: &[char], a: usize, b: usize) -> (res: Vec<char>)
    requires
        a <= b <= src@.len(),
    ensures
        res@ == src@.subrange(a as int, b as int),
{
    let mut out: Vec<char> = Vec::new();
    push_range(&mut out, src, a, b);
    out
}

/// Splits an mmml text into its `@` sections.
pub fn split_sections(text: &[char]) -> (res: Vec<Vec<char>>)
    ensures
        views(res@) == sections_of(text@),
{
    let n = text.len();
    let ghost s = text@;
    let mut f: usize = 0;
    proof {
        lemma_find_from(s, '@', 0);
    }
    while f < n && text[f] != '@'
        invariant
            s == text@,
            n == s.len(),
            f <= n,
            find_from(s, '@', 0) == find_from(s, '@', f as int),
        decreases n - f,
    {
        f += 1;
    }
    let mut res: Vec<Vec<char>> = Vec::new();
    if f >= n {
        assert(views(res@) =~= Seq::<Seq<char>>::empty());
        return res;
    }
    let mut i = f + 1;
    loop
        invariant
            s == text@,
            n == s.len(),
            f < i <= n,
            sections_of(s) == views(res@) + pieces_from(s, '@', i as int),
        decreases n - i,
    {
        let mut e = i;
        proof {
            lemma_find_from(s, '@', i as int);
        }
        while e < n && text[e] != '@'
            invariant
                s == text@,
                n == s.len(),
                i <= e <= n,
                find_from(s, '@', i as int) == find_from(s, '@', e as int),
            decreases n - e,
        {
            e += 1;
        }
        let piece = copy_range(text, i, e);
        let ghost before = views(res@);
        res.push(piece);
        proof {
            assert(views(res@) == before.push(piece@));
            let next: int = e + 1;
            if e >= n {
                assert(pieces_from(s, '@', i as int) == seq![piece@]);
                assert(pieces_from(s, '@', next) == Seq::<Seq<char>>::empty());
            } else {
                assert(pieces_from(s, '@', i as int) == seq![piece@] + pieces_from(s, '@', next));
            }
            assert(before + pieces_from(s, '@', i as int) == before.push(piece@) + pieces_from(s, '@', next));
        }
        if e >= n {
            assert(views(res@) + pieces_from(s, '@', e + 1) == views(res@));
            return res;
        }
        i = e + 1;
    }
}


// ───────────────────────── loops and macros ─────────────────────────

/// Nesting limit of loop and macro expansion.
pub const MAX_DEPTH: u32 = 16;

/// Largest repeat count of a loop.
pub const MAX_LOOP_COUNT: u32 = 255;

/// Index of the `]` that closes a loop body scanned from `i` at bracket
/// nesting `level`; the length of the text when it is never closed.
pub open spec fn loop_end(s: Seq<char>, i: int, level: nat) -> int
    decreases s.len() - i,
{
    if i < 0 || i >= s.len() {
        s.len() as int
    } else if s[i] == '[' {
        loop_end(s, i + 1, level + 1)
    } else if s[i] == ']' {
        if level <= 1 {
            i
        } else {
            loop_end(s, i + 1, (level - 1) as nat)
        }
    } else {
        loop_end(s, i + 1, level)
    }
}

pub proof fn lemma_loop_end(s: Seq<char>, i: int, level: nat)
    requires
        0 <= i <= s.len(),
    ensures
        i <= loop_end(s, i, level) <= s.len(),
    decreases s.len() - i,
{
    if i < s.len() {
        if s[i] == '[' {
            lemma_loop_end(s, i + 1, level + 1);
        } else if s[i] == ']' {
            if level > 1 {
                lemma_loop_end(s, i + 1, (level - 1) as nat);
            }
        } else {
            lemma_loop_end(s, i + 1, level);
        }
    }
}

/// `s` written `n` times in a row.
pub open spec fn repeat(s: Seq<char>, n: nat) -> Seq<char>
    decreases n,
{
    if n == 0 {
        seq![]
    } else {
        repeat(s, (n - 1) as nat) + s
    }
}

/// Repeat count written after `[` at `i` (2 when none is written or it
/// does not fit a `u32`), and where the loop body starts.
pub open spec fn loop_count_at(s: Seq<char>, i: int) -> (u32, int) {
    match number_at(s, i) {
        Some((n, j)) => (n, j),
        None => (2u32, i),
    }
}

pub proof fn lemma_number_at(s: Seq<char>, i: int)
    requires
        0 <= i <= s.len(),
    ensures
        number_at(s, i) matches Some((n, j)) ==> i < j <= s.len(),
{
    lemma_digits_end(s, i);
}

/// A loop count clamped to `MAX_LOOP_COUNT`.
pub open spec fn capped(count: u32) -> nat {
    if count > MAX_LOOP_COUNT { MAX_LOOP_COUNT as nat } else { count as nat }
}

/// Loop expansion only (macro calls are left as they are), at nesting
/// `depth`; beyond `MAX_DEPTH` the text is left alone.
pub open spec fn loops_expanded(text: Seq<char>, depth: nat) -> Seq<char>
    decreases 17 - depth, 1int, 0int,
{
    if depth > MAX_DEPTH {
        text
    } else {
        loops_scan(text, 0, depth)
    }
}

/// Loop expansion of `text` from index `i` on.
pub open spec fn loops_scan(text: Seq<char>, i: int, depth: nat) -> Seq<char>
    decreases 17 - depth, 0int, text.len() - i,
{
    if depth > MAX_DEPTH || i < 0 || i >= text.len() {
        if 0 <= i <= text.len() { text.subrange(i, text.len() as int) } else { seq![] }
    } else if text[i] == '[' {
        let (count, j) = loop_count_at(text, i + 1);
        proof {
            lemma_number_at(text, i + 1);
            lemma_loop_end(text, j, 1);
        }
        let e = loop_end(text, j, 1);
        let next = if e < text.len() { e + 1 } else { e };
        repeat(loops_expanded(text.subrange(j, e), depth + 1), capped(count)) + loops_scan(text, next, depth)
    } else {
        seq![text[i]] + loops_scan(text, i + 1, depth)
    }
}

/// Macro call `m<n>` at `i`: an `m` followed by a digit.
pub open spec fn is_macro_call(text: Seq<char>, i: int) -> bool {
    &&& 0 <= i
    &&& i + 1 < text.len()
    &&& text[i] == 'm'
    &&& is_digit(text[i + 1])
}

/// Loop and macro expansion at nesting `depth`: `[n body]` becomes the
/// expansion of `body` written `n` times (2 when no count is written, at
/// most 255), `m<n>` becomes the loop expansion of macro `n` (1-based;
/// unknown macros vanish); beyond `MAX_DEPTH` the text is left alone.
pub open spec fn expanded(text: Seq<char>, macros: Seq<Seq<char>>, depth: nat) -> Seq<char>
    decreases 17 - depth, 1int, 0int,
{
    if depth > MAX_DEPTH {
        text
    } else {
        expand_scan(text, 0, macros, depth)
    }
}

/// Loop and macro expansion of `text` from index `i` on.
pub open spec fn expand_scan(text: Seq<char>, i: int, macros: Seq<Seq<char>>, depth: nat) -> Seq<char>
    decreases 17 - depth, 0int, text.len() - i,
{
    if depth > MAX_DEPTH || i < 0 || i >= text.len() {
        if 0 <= i <= text.len() { text.subrange(i, text.len() as int) } else { seq![] }
    } else if is_macro_call(text, i) {
        proof {
            lemma_number_at(text, i + 1);
        }
        match number_at(text, i + 1) {
            Some((n, j)) => {
                let body = if 1 <= n <= macros.len() {
                    loops_expanded(macros[n - 1], depth + 1)
                } else {
                    seq![]
                };
                body + expand_scan(text, j, macros, depth)
            },
            None => seq!['m'] + expand_scan(text, i + 1, macros, depth),
        }
    } else if text[i] == '[' {
        let (count, j) = loop_count_at(text, i + 1);
        proof {
            lemma_number_at(text, i + 1);
            lemma_loop_end(text, j, 1);
        }
        let e = loop_end(text, j, 1);
        let next = if e < text.len() { e + 1 } else { e };
        repeat(expanded(text.subrange(j, e), macros, depth + 1), capped(count)) + expand_scan(text, next, macros, depth)
    } else {
        seq![text[i]] + expand_scan(text, i + 1, macros, depth)
    }
}

fn append_all(out: &mut Vec<char>, src: &Vec<char>)
    ensures
        final(out)@ == old(out)@ + src@,
{
    push_range(out, src.as_slice(), 0, src.len());
    assert(src@.subrange(0, src@.len() as int) == src@);
}

/// Finds the `]` closing a loop whose body starts at `j`.
fn find_loop_end(text: &[char], j: usize) -> (res: usize)
    requires
        1 <= j <= text@.len(),
    ensures
        res == loop_end(text@, j as int, 1),
{
    let n = text.len();
    let mut k = j;
    let mut level: usize = 1;
    loop
        invariant
            n == text@.len(),
            1 <= j <= k <= n,
            1 <= level <= k - j + 1,
            loop_end(text@, j as int, 1) == loop_end(text@, k as int, level as nat),
        decreases n - k,
    {
        if k >= n {
            return k;
        }
        if text[k] == '[' {
            level += 1;
        } else if text[k] == ']' {
            if level == 1 {
                return k;
            }
            level -= 1;
        }
        k += 1;
    }
}

/// Appends `body` written `count` times (at most `MAX_LOOP_COUNT`).
fn push_repeated(out: &mut Vec<char>, body: &Vec<char>, count: u32)
    ensures
        final(out)@ == old(out)@ + repeat(body@, capped(count)),
{
    let times = if count > MAX_LOOP_COUNT { MAX_LOOP_COUNT } else { count };
    let mut r: u32 = 0;
    while r < times
        invariant
            r <= times,
            times == capped(count),
            out@ == old(out)@ + repeat(body@, r as nat),
        decreases times - r,
    {
        append_all(out, body);
        r += 1;
        assert(out@ == old(out)@ + repeat(body@, r as nat));
    }
}

/// Expands loops `[n ...]` only; macro calls pass through unchanged.
pub fn expand_loops_only(text: &[char], depth: u32) -> (res: Vec<char>)
    ensures
        res@ == loops_expanded(text@, depth as nat),
    decreases 17 - depth, 1int, 0int,
{
    if depth > MAX_DEPTH {
        return copy_range(text, 0, text.len());
    }
    let n = text.len();
    let ghost s = text@;
    let mut res: Vec<char> = Vec::new();
    let mut i: usize = 0;
    while i < n
        invariant
            s == text@,
            n == s.len(),
            depth <= MAX_DEPTH,
            i <= n,
            loops_scan(s, 0, depth as nat) == res@ + loops_scan(s, i as int, depth as nat),
        decreases n - i,
    {
        if text[i] == '[' {
            let (count, j) = match read_u32(text, i + 1) {
                Some(p) => p,
                None => (2, i + 1),
            };
            proof {
                lemma_number_at(s, i + 1);
            }
            let e = find_loop_end(text, j);
            proof {
                lemma_loop_end(s, j as int, 1);
            }
            let body = expand_loops_only(slice_subrange(text, j, e), depth + 1);
            let ghost before = res@;
            push_repeated(&mut res, &body, count);
            let next = if e < n { e + 1 } else { e };
            assert(res@ + loops_scan(s, next as int, depth as nat) == before + loops_scan(s, i as int, depth as nat));
            i = next;
        } else {
            let ghost before = res@;
            res.push(text[i]);
            assert(res@ + loops_scan(s, i + 1, depth as nat) == before + loops_scan(s, i as int, depth as nat));
            i += 1;
        }
    }
    assert(loops_scan(s, n as int, depth as nat) =~= Seq::<char>::empty());
    res
}


/// Expands loops `[n ...]` and macro calls `m<n>` (macro `n` is
/// `macros[n - 1]`, itself loop-expanded).
pub fn expand(text: &[char], macros: &[Vec<char>], depth: u32) -> (res: Vec<char>)
    ensures
        res@ == expanded(text@, views(macros@), depth as nat),
    decreases 17 - depth, 1int, 0int,
{
    if depth > MAX_DEPTH {
        return copy_range(text, 0, text.len());
    }
    let n = text.len();
    let ghost s = text@;
    let ghost ms = views(macros@);
    let mut res: Vec<char> = Vec::new();
    let mut i: usize = 0;
    while i < n
        invariant
            s == text@,
            ms == views(macros@),
            n == s.len(),
            depth <= MAX_DEPTH,
            i <= n,
            expand_scan(s, 0, ms, depth as nat) == res@ + expand_scan(s, i as int, ms, depth as nat),
        decreases n - i,
    {
        let ghost before = res@;
        if text[i] == 'm' && i + 1 < n && '0' <= text[i + 1] && text[i + 1] <= '9' {
            proof {
                lemma_number_at(s, i + 1);
            }
            match read_u32(text, i + 1) {
                Some((k, j)) => {
                    if 1 <= k && (k as usize) <= macros.len() {
                        let body = expand_loops_only(macros[(k - 1) as usize].as_slice(), depth + 1);
                        append_all(&mut res, &body);
                    }
                    assert(res@ + expand_scan(s, j as int, ms, depth as nat) == before + expand_scan(s, i as int, ms, depth as nat));
                    i = j;
                },
                None => {
                    res.push('m');
                    assert(res@ + expand_scan(s, i + 1, ms, depth as nat) == before + expand_scan(s, i as int, ms, depth as nat));
                    i += 1;
                },
            }
        } else if text[i] == '[' {
            let (count, j) = match read_u32(text, i + 1) {
                Some(p) => p,
                None => (2, i + 1),
            };
            proof {
                lemma_number_at(s, i + 1);
            }
            let e = find_loop_end(text, j);
            proof {
                lemma_loop_end(s, j as int, 1);
            }
            let body = expand(slice_subrange(text, j, e), macros, depth + 1);
            push_repeated(&mut res, &body, count);
            let next = if e < n { e + 1 } else { e };
            assert(res@ + expand_scan(s, next as int, ms, depth as nat) == before + expand_scan(s, i as int, ms, depth as nat));
            i = next;
        } else {
            res.push(text[i]);
            assert(res@ + expand_scan(s, i + 1, ms, depth as nat) == before + expand_scan(s, i as int, ms, depth as nat));
            i += 1;
        }
    }
    assert(expand_scan(s, n as int, ms, depth as nat) =~= Seq::<char>::empty());
    res
}


// ───────────────────────── channel text ─────────────────────────

/// How a note relates to the note before it.
#[derive(Debug, Clone, Copy, PartialEq, Eq, Structural)]
pub enum NoteKind {
    /// Starts a new sounding event.
    Start,
    /// Tied (`&`) to the previous event, which it lengthens.
    Tie,
    /// Tied, but with no previous event to lengthen (after a rest or at the
    /// start): it takes up time and makes no sound.
    Dropped,
}

/// One time-consuming element or tempo command of a channel, in order.
#[derive(Debug, Clone, Copy, PartialEq, Eq, Structural)]
pub enum ChannelItem {
    /// A note: semitone 0-11 from C, octave 1-5, volume 0-8, length (1 =
    /// whole note, 4 = quarter, ...) and dot.
    Note { kind: NoteKind, semitone: u8, octave: u8, volume: u8, length: u32, dotted: bool },
    /// A rest of the given length.
    Rest { length: u32, dotted: bool },
    /// Tempo command `t<value>`; `t255` ends the channel's part in the
    /// shared tempo and keeps its own tempo from there on.
    Tempo { value: u32 },
}

/// Reader state while a channel text is read.
pub struct ChannelState {
    /// 1-5.
    pub octave: u8,
    /// 0-8.
    pub volume: u8,
    /// Length of the last note or rest, the default for the next one.
    pub last_length: u32,
    /// An `&` is waiting for the next note.
    pub tie_pending: bool,
    /// There is an event that a tie could lengthen.
    pub has_last: bool,
}

/// State at the start of a channel: octave 3, volume 8, quarter notes.
pub open spec fn initial_channel_state() -> ChannelState {
    ChannelState { octave: 3, volume: 8, last_length: 4, tie_pending: false, has_last: false }
}

pub open spec fn is_space(c: char) -> bool {
    c == ' ' || c == '\t' || c == '\n' || c == '\r'
}

/// Semitone of a note letter.
pub open spec fn note_semitone(c: char) -> Option<u8> {
    if c == 'c' {
        Some(0u8)
    } else if c == 'd' {
        Some(2u8)
    } else if c == 'e' {
        Some(4u8)
    } else if c == 'f' {
        Some(5u8)
    } else if c == 'g' {
        Some(7u8)
    } else if c == 'a' {
        Some(9u8)
    } else if c == 'b' {
        Some(11u8)
    } else {
        None
    }
}

/// A command letter followed by a number at `i`.
pub open spec fn command_at(text: Seq<char>, i: int, letter: char) -> bool {
    &&& 0 <= i
    &&& i + 1 < text.len()
    &&& text[i] == letter
    &&& is_digit(text[i + 1])
}

/// The items of a channel text from index `i` on, in reader state `st`:
/// blanks are skipped; `t<n>` is a tempo command; `o<n>` sets the octave
/// (clamped to 1-5) and `>` / `<` step it within 1-5; `v<n>` sets the volume
/// (clamped to 0-8); `&` ties the next note to the previous one; `r` is a
/// rest and cancels a pending tie; a note letter, with `+` for sharp,
/// is a note; anything else is ignored.  A missing length repeats the last
/// one.
pub open spec fn channel_scan(text: Seq<char>, i: int, st: ChannelState) -> Seq<ChannelItem>
    decreases text.len() - i,
{
    if i < 0 || i >= text.len() {
        seq![]
    } else {
        let c = text[i];
        proof {
            lemma_number_at(text, i + 1);
            if i + 2 <= text.len() {
                lemma_number_at(text, i + 2);
            }
        }
        if is_space(c) {
            channel_scan(text, i + 1, st)
        } else if command_at(text, i, 't') {
            match number_at(text, i + 1) {
                Some((n, j)) => seq![ChannelItem::Tempo { value: n }] + channel_scan(text, j, st),
                None => channel_scan(text, i + 1, st),
            }
        } else if command_at(text, i, 'o') {
            match number_at(text, i + 1) {
                Some((n, j)) => channel_scan(text, j, ChannelState { octave: clamp(n, 1, 5) as u8, ..st }),
                None => channel_scan(text, i + 1, st),
            }
        } else if c == '>' {
            channel_scan(text, i + 1, ChannelState {
                octave: if st.octave < 5 { (st.octave + 1) as u8 } else { st.octave },
                ..st
            })
        } else if c == '<' {
            channel_scan(text, i + 1, ChannelState {
                octave: if st.octave > 1 { (st.octave - 1) as u8 } else { st.octave },
                ..st
            })
        } else if command_at(text, i, 'v') {
            match number_at(text, i + 1) {
                Some((n, j)) => channel_scan(text, j, ChannelState { volume: clamp(n, 0, 8) as u8, ..st }),
                None => channel_scan(text, i + 1, st),
            }
        } else if c == '&' {
            channel_scan(text, i + 1, ChannelState { tie_pending: true, ..st })
        } else if c == 'r' {
            let (length, dotted, j) = length_at(text, i + 1, st.last_length);
            seq![ChannelItem::Rest { length, dotted }] + channel_scan(text, j, ChannelState {
                last_length: length,
                tie_pending: false,
                has_last: false,
                ..st
            })
        } else if note_semitone(c) is Some {
            let sharp = i + 1 < text.len() && text[i + 1] == '+';
            let semitone = ((note_semitone(c)->0 + if sharp { 1u8 } else { 0u8 }) % 12) as u8;
            let (length, dotted, j) = length_at(text, if sharp { i + 2 } else { i + 1 }, st.last_length);
            let kind = if !st.tie_pending {
                NoteKind::Start
            } else if st.has_last {
                NoteKind::Tie
            } else {
                NoteKind::Dropped
            };
            seq![ChannelItem::Note { kind, semitone, octave: st.octave, volume: st.volume, length, dotted }]
                + channel_scan(text, j, ChannelState {
                last_length: length,
                tie_pending: false,
                has_last: st.has_last || !st.tie_pending,
                ..st
            })
        } else {
            channel_scan(text, i + 1, st)
        }
    }
}


/// Items contributed by one reading step.
pub open spec fn item_seq(item: Option<ChannelItem>) -> Seq<ChannelItem> {
    match item {
        Some(x) => seq![x],
        None => seq![],
    }
}

/// One reading step at `i` (which must be inside the text): the item it
/// produces, if any, and where reading continues; `st` is updated.
fn read_item(text: &[char], i: usize, st: &mut ChannelState) -> (res: (Option<ChannelItem>, usize))
    requires
        i < text@.len(),
    ensures
        i < res.1 <= text@.len(),
        channel_scan(text@, i as int, *old(st)) == item_seq(res.0) + channel_scan(text@, res.1 as int, *final(st)),
{
    let n = text.len();
    let ghost s = text@;
    let c = text[i];
    proof {
        lemma_number_at(s, i + 1);
        if i + 2 <= n {
            lemma_number_at(s, i + 2);
        }
    }
    let digit_next = i + 1 < n && '0' <= text[i + 1] && text[i + 1] <= '9';
    if c == ' ' || c == '\t' || c == '\n' || c == '\r' {
        (None, i + 1)
    } else if c == 't' && digit_next {
        match read_u32(text, i + 1) {
            Some((v, j)) => (Some(ChannelItem::Tempo { value: v }), j),
            None => (None, i + 1),
        }
    } else if c == 'o' && digit_next {
        match read_u32(text, i + 1) {
            Some((v, j)) => {
                st.octave = if v < 1 { 1 } else if v > 5 { 5 } else { v as u8 };
                (None, j)
            },
            None => (None, i + 1),
        }
    } else if c == '>' {
        if st.octave < 5 {
            st.octave = st.octave + 1;
        }
        (None, i + 1)
    } else if c == '<' {
        if st.octave > 1 {
            st.octave = st.octave - 1;
        }
        (None, i + 1)
    } else if c == 'v' && digit_next {
        match read_u32(text, i + 1) {
            Some((v, j)) => {
                st.volume = if v > 8 { 8 } else { v as u8 };
                (None, j)
            },
            None => (None, i + 1),
        }
    } else if c == '&' {
        st.tie_pending = true;
        (None, i + 1)
    } else if c == 'r' {
        let (length, dotted, j) = read_length(text, i + 1, st.last_length);
        st.last_length = length;
        st.tie_pending = false;
        st.has_last = false;
        (Some(ChannelItem::Rest { length, dotted }), j)
    } else {
        let base: Option<u8> = if c == 'c' {
            Some(0)
        } else if c == 'd' {
            Some(2)
        } else if c == 'e' {
            Some(4)
        } else if c == 'f' {
            Some(5)
        } else if c == 'g' {
            Some(7)
        } else if c == 'a' {
            Some(9)
        } else if c == 'b' {
            Some(11)
        } else {
            None
        };
        match base {
            Some(b) => {
                let sharp = i + 1 < n && text[i + 1] == '+';
                let semitone = (b + if sharp { 1 } else { 0 }) % 12;
                let start = if sharp { i + 2 } else { i + 1 };
                let (length, dotted, j) = read_length(text, start, st.last_length);
                let kind = if !st.tie_pending {
                    NoteKind::Start
                } else if st.has_last {
                    NoteKind::Tie
                } else {
                    NoteKind::Dropped
                };
                let item = ChannelItem::Note { kind, semitone, octave: st.octave, volume: st.volume, length, dotted };
                st.has_last = st.has_last || !st.tie_pending;
                st.last_length = length;
                st.tie_pending = false;
                (Some(item), j)
            },
            None => (None, i + 1),
        }
    }
}

/// Reads the notes, rests and tempo commands of an expanded channel text.
pub fn channel_items(text: &[char]) -> (res: Vec<ChannelItem>)
    ensures
        res@ == channel_scan(text@, 0, initial_channel_state()),
{
    let n = text.len();
    let ghost s = text@;
    let mut st = ChannelState { octave: 3, volume: 8, last_length: 4, tie_pending: false, has_last: false };
    let mut res: Vec<ChannelItem> = Vec::new();
    let mut i: usize = 0;
    while i < n
        invariant
            s == text@,
            n == s.len(),
            i <= n,
            channel_scan(s, 0, initial_channel_state()) == res@ + channel_scan(s, i as int, st),
        decreases n - i,
    {
        let ghost before = res@;
        let ghost st0 = st;
        let ghost i0 = i;
        let (item, j) = read_item(text, i, &mut st);
        match item {
            Some(x) => {
                res.push(x);
            },
            None => {},
        }
        i = j;
        assert(res@ + channel_scan(s, i as int, st) == before + channel_scan(s, i0 as int, st0));
    }
    assert(channel_scan(s, n as int, st) =~= Seq::<ChannelItem>::empty());
    res
}

// ───────────────────────── pitch ─────────────────────────

/// Timer divisors of the mmml engine for C, C#, D, ... B.
pub const NOTE_TABLE: [u32; 12] = [1644, 1551, 1464, 1382, 1305, 1231, 1162, 1097, 1035, 977, 922, 871];

/// Sample rate constant of the mmml engine, in hertz.
pub const MMML_RATE: u32 = 215_000;

/// Pitch of an mmml note in millihertz, rounded down: the engine's
/// `215000 * 2^octave / NOTE_TABLE[note]`, with the octave clamped to 1-5.
pub open spec fn mmml_pitch(note_idx: int, octave: u8) -> u32 {
    ((MMML_RATE as nat * 1000 * octave_factor(octave)) / NOTE_TABLE@[note_idx % 12] as nat) as u32
}

/// `2^octave` for the octave clamped to 1-5.
pub open spec fn octave_factor(octave: u8) -> nat {
    let oct = clamp(octave as u32, 1, 5);
    if oct == 1 { 2 } else if oct == 2 { 4 } else if oct == 3 { 8 } else if oct == 4 { 16 } else { 32 }
}

proof fn lemma_pitch_value(note_idx: int, octave: u8)
    ensures
        mmml_pitch(note_idx, octave) as int == (215_000_000 * octave_factor(octave) as int) / (NOTE_TABLE@[note_idx % 12] as int),
        NOTE_TABLE@[note_idx % 12] >= 871,
{
    lemma_note_table();
    let d = NOTE_TABLE@[note_idx % 12] as int;
    assert(d >= 871);
    let x = 215_000_000 * octave_factor(octave) as int;
    vstd::arithmetic::div_mod::lemma_fundamental_div_mod(x, d);
    let q = x / d;
    assert(q * 871 <= x) by (nonlinear_arith)
        requires
            d >= 871,
            q >= 0,
            d * q <= x;
    assert(q < 0x1_0000_0000);
}

/// Pitch (millihertz) of semitone `note_idx` (taken modulo 12) in `octave`.
pub fn mmml_freq(note_idx: usize, octave: u8) -> (res: u32)
    ensures
        res == mmml_pitch(note_idx as int, octave),
{
    let oct: u32 = if octave < 1 { 1 } else if octave > 5 { 5 } else { octave as u32 };
    let factor: u64 = if oct == 1 { 2 } else if oct == 2 { 4 } else if oct == 3 { 8 } else if oct == 4 { 16 } else { 32 };
    let div = NOTE_TABLE[note_idx % 12] as u64;
    assert(NOTE_TABLE@[note_idx as int % 12] >= 871) by {
        assert(forall|k: int| 0 <= k < 12 ==> NOTE_TABLE@[k] >= 871);
    }
    let r = (MMML_RATE as u64 * 1000 * factor) / div;
    assert(r as int <= 215_000_000int * 32 / 871) by (nonlinear_arith)
        requires
            r as int == (215_000_000int * factor as int) / div as int,
            factor <= 32,
            div >= 871;
    r as u32
}

proof fn lemma_note_table()
    ensures
        NOTE_TABLE@ == seq![1644u32, 1551, 1464, 1382, 1305, 1231, 1162, 1097, 1035, 977, 922, 871],
{
    assert(NOTE_TABLE@ =~= seq![1644u32, 1551, 1464, 1382, 1305, 1231, 1162, 1097, 1035, 977, 922, 871]);
}

/// One octave up doubles the pitch (up to the millihertz lost to rounding
/// down).
pub proof fn lemma_octave_doubles(note_idx: int, octave: u8)
    requires
        1 <= octave <= 4,
    ensures
        2 * mmml_pitch(note_idx, octave) <= mmml_pitch(note_idx, (octave + 1) as u8) <= 2 * mmml_pitch(note_idx, octave) + 1,
{
    lemma_pitch_value(note_idx, octave);
    lemma_pitch_value(note_idx, (octave + 1) as u8);
    let d = NOTE_TABLE@[note_idx % 12] as int;
    let f = octave_factor(octave) as int;
    assert(octave_factor((octave + 1) as u8) == 2 * f);
    lemma_floor_double(215_000_000 * f, d);
}

proof fn lemma_floor_double(x: int, d: int)
    requires
        x >= 0,
        d > 0,
    ensures
        2 * (x / d) <= (2 * x) / d <= 2 * (x / d) + 1,
{
    let q = x / d;
    let r = x % d;
    assert(x == d * q + r && 0 <= r < d) by {
        vstd::arithmetic::div_mod::lemma_fundamental_div_mod(x, d);
    }
    assert(2 * x == (2 * q) * d + 2 * r) by (nonlinear_arith)
        requires
            x == d * q + r;
    if 2 * r < d {
        vstd::arithmetic::div_mod::lemma_fundamental_div_mod_converse(2 * x, d, 2 * q, 2 * r);
    } else {
        assert(2 * x == (2 * q + 1) * d + (2 * r - d)) by (nonlinear_arith)
            requires
                2 * x == (2 * q) * d + 2 * r;
        vstd::arithmetic::div_mod::lemma_fundamental_div_mod_converse(2 * x, d, 2 * q + 1, 2 * r - d);
    }
}

/// Within an octave each semitone is higher than the one below it.
pub proof fn lemma_semitones_rise(note_idx: int, octave: u8)
    requires
        0 <= note_idx < 11,
    ensures
        mmml_pitch(note_idx, octave) < mmml_pitch(note_idx + 1, octave),
{
    lemma_note_table();
    let hi = NOTE_TABLE@[note_idx] as int;
    let lo = NOTE_TABLE@[note_idx + 1] as int;
    assert(871 <= lo && lo + 49 <= hi) by {
        if note_idx == 0 {} else if note_idx == 1 {} else if note_idx == 2 {} else if note_idx == 3 {}
        else if note_idx == 4 {} else if note_idx == 5 {} else if note_idx == 6 {} else if note_idx == 7 {}
        else if note_idx == 8 {} else if note_idx == 9 {} else {}
    }
    lemma_pitch_value(note_idx, octave);
    lemma_pitch_value(note_idx + 1, octave);
    let x = 215_000_000 * octave_factor(octave) as int;
    lemma_div_smaller(x, lo, hi);
}

proof fn lemma_div_smaller(x: int, lo: int, hi: int)
    requires
        x >= 430_000_000,
        871 <= lo,
        lo + 49 <= hi <= 1644,
    ensures
        x / hi < x / lo,
{
    vstd::arithmetic::div_mod::lemma_fundamental_div_mod(x, lo);
    vstd::arithmetic::div_mod::lemma_fundamental_div_mod(x, hi);
    let a = x / lo;
    let b = x / hi;
    assert(lo * a <= x < lo * a + lo);
    assert(hi * b <= x);
    assert(b < a) by (nonlinear_arith)
        requires
            x >= 430_000_000,
            871 <= lo,
            lo + 49 <= hi <= 1644,
            lo * a <= x,
            x < lo * a + lo,
            hi * b <= x;
}

// ───────────────────────── whole files ─────────────────────────

pub open spec fn is_note_or_rest(c: char) -> bool {
    note_semitone(c) is Some || c == 'r'
}

/// A usable tempo command value (`t0` and the end marker `t255` are not).
pub open spec fn usable_tempo(n: u32) -> bool {
    n > 0 && n != 255
}

/// The first usable tempo command of a section that comes before its first
/// note or rest, scanning from `i`.
pub open spec fn leading_tempo(s: Seq<char>, i: int) -> Option<u32>
    decreases s.len() - i,
{
    if i < 0 || i >= s.len() {
        None
    } else if is_space(s[i]) {
        leading_tempo(s, i + 1)
    } else if is_note_or_rest(s[i]) {
        None
    } else if command_at(s, i, 't') {
        match number_at(s, i + 1) {
            Some((n, _)) => if usable_tempo(n) { Some(n) } else { leading_tempo(s, i + 2) },
            None => leading_tempo(s, i + 2),
        }
    } else {
        leading_tempo(s, i + 1)
    }
}

/// The first usable tempo command of a section anywhere, scanning from `i`.
pub open spec fn any_tempo(s: Seq<char>, i: int) -> Option<u32>
    decreases s.len() - i,
{
    if i < 0 || i >= s.len() {
        None
    } else if command_at(s, i, 't') {
        match number_at(s, i + 1) {
            Some((n, _)) => if usable_tempo(n) { Some(n) } else { any_tempo(s, i + 2) },
            None => any_tempo(s, i + 2),
        }
    } else {
        any_tempo(s, i + 1)
    }
}

/// First section from index `k` on (below `limit`) with a leading tempo.
pub open spec fn first_leading_tempo(secs: Seq<Seq<char>>, k: int, limit: int) -> Option<u32>
    decreases limit - k,
{
    if k < 0 || k >= limit || k >= secs.len() {
        None
    } else {
        match leading_tempo(secs[k], 0) {
            Some(n) => Some(n),
            None => first_leading_tempo(secs, k + 1, limit),
        }
    }
}

/// First section from index `k` on with a tempo command anywhere.
pub open spec fn first_any_tempo(secs: Seq<Seq<char>>, k: int) -> Option<u32>
    decreases secs.len() - k,
{
    if k < 0 || k >= secs.len() {
        None
    } else {
        match any_tempo(secs[k], 0) {
            Some(n) => Some(n),
            None => first_any_tempo(secs, k + 1),
        }
    }
}

fn section_leading_tempo(s: &[char]) -> (res: Option<u32>)
    ensures
        res == leading_tempo(s@, 0),
{
    let n = s.len();
    let mut i: usize = 0;
    while i < n
        invariant
            n == s@.len(),
            leading_tempo(s@, 0) == leading_tempo(s@, i as int),
        decreases n - i,
    {
        let c = s[i];
        if c == ' ' || c == '\t' || c == '\n' || c == '\r' {
            i += 1;
        } else if c == 'c' || c == 'd' || c == 'e' || c == 'f' || c == 'g' || c == 'a' || c == 'b' || c == 'r' {
            return None;
        } else if c == 't' && i + 1 < n && '0' <= s[i + 1] && s[i + 1] <= '9' {
            match read_u32(s, i + 1) {
                Some((v, _)) => {
                    if v > 0 && v != 255 {
                        return Some(v);
                    }
                },
                None => {},
            }
            i += 2;
        } else {
            i += 1;
        }
    }
    None
}

fn section_any_tempo(s: &[char]) -> (res: Option<u32>)
    ensures
        res == any_tempo(s@, 0),
{
    let n = s.len();
    let mut i: usize = 0;
    while i < n
        invariant
            n == s@.len(),
            any_tempo(s@, 0) == any_tempo(s@, i as int),
        decreases n - i,
    {
        if s[i] == 't' && i + 1 < n && '0' <= s[i + 1] && s[i + 1] <= '9' {
            match read_u32(s, i + 1) {
                Some((v, _)) => {
                    if v > 0 && v != 255 {
                        return Some(v);
                    }
                },
                None => {},
            }
            i += 2;
        } else {
            i += 1;
        }
    }
    None
}

/// Tempo command value before the first note or rest of one of the first
/// four sections (the channels).
pub fn find_initial_tempo(sections: &[Vec<char>]) -> (res: Option<u32>)
    ensures
        res == first_leading_tempo(views(sections@), 0, 4),
{
    let mut k: usize = 0;
    while k < sections.len() && k < 4
        invariant
            first_leading_tempo(views(sections@), 0, 4) == first_leading_tempo(views(sections@), k as int, 4),
        decreases sections@.len() - k,
    {
        let t = section_leading_tempo(sections[k].as_slice());
        if t.is_some() {
            return t;
        }
        k += 1;
    }
    None
}

/// Tempo command value anywhere in the sections (the first one found).
pub fn find_first_tempo(sections: &[Vec<char>]) -> (res: Option<u32>)
    ensures
        res == first_any_tempo(views(sections@), 0),
{
    let mut k: usize = 0;
    while k < sections.len()
        invariant
            first_any_tempo(views(sections@), 0) == first_any_tempo(views(sections@), k as int),
        decreases sections@.len() - k,
    {
        let t = section_any_tempo(sections[k].as_slice());
        if t.is_some() {
            return t;
        }
        k += 1;
    }
    None
}

/// Why an mmml text could not be read.
#[derive(Debug, Clone, Copy, PartialEq, Eq, Structural)]
pub enum MmlError {
    /// The text has no `@`, so no channel.
    NoChannels,
}

/// An mmml file read down to integers: the items of each channel and the
/// tempo command that sets the starting tempo.
#[derive(Debug, Clone)]
pub struct MmmlScore {
    /// Channels A-D in order (as many as the file has, at most four).
    pub channels: Vec<Vec<ChannelItem>>,
    /// Starting tempo command value, if the file has one.
    pub initial_tempo: Option<u32>,
}

/// The macro sections: every section after the fourth.
pub open spec fn macro_sections(secs: Seq<Seq<char>>) -> Seq<Seq<char>> {
    if secs.len() > 4 { secs.subrange(4, secs.len() as int) } else { seq![] }
}

/// Items of channel section `k` once its loops and macros are expanded.
pub open spec fn channel_of(secs: Seq<Seq<char>>, k: int) -> Seq<ChannelItem> {
    channel_scan(expanded(secs[k], macro_sections(secs), 0), 0, initial_channel_state())
}

/// Starting tempo command: the first leading one of a channel, else the
/// first one anywhere.
pub open spec fn initial_tempo_of(secs: Seq<Seq<char>>) -> Option<u32> {
    match first_leading_tempo(secs, 0, 4) {
        Some(n) => Some(n),
        None => first_any_tempo(secs, 0),
    }
}

/// Reads an mmml file: strips comments, splits it at `@`, expands loops
/// and macros in channels A-D and reads their notes.  Fails exactly when
/// the text (once comments are stripped) has no `@`.
pub fn prepare_mmml(content: &str) -> (res: Result<MmmlScore, MmlError>)
    ensures
        sections_of(stripped(content@)).len() == 0 <==> res is Err,
        res matches Err(e) ==> e == MmlError::NoChannels,
        res matches Ok(score) ==> {
            let secs = sections_of(stripped(content@));
            &&& score.channels@.len() == (if secs.len() < 4 { secs.len() } else { 4 })
            &&& forall|k: int| 0 <= k < score.channels@.len() ==> #[trigger] score.channels@[k]@ == channel_of(secs, k)
            &&& score.initial_tempo == initial_tempo_of(secs)
        },
{
    let chars = chars_of(content);
    let text = strip_comment_chars(chars.as_slice());
    let sections = split_sections(text.as_slice());
    let ghost secs = views(sections@);
    if sections.len() == 0 {
        return Err(MmlError::NoChannels);
    }
    let nch = if sections.len() < 4 { sections.len() } else { 4 };
    let macros: &[Vec<char>] = if sections.len() > 4 {
        slice_subrange(sections.as_slice(), 4, sections.len())
    } else {
        slice_subrange(sections.as_slice(), 0, 0)
    };
    assert(views(macros@) == macro_sections(secs));
    let mut channels: Vec<Vec<ChannelItem>> = Vec::new();
    let mut k: usize = 0;
    while k < nch
        invariant
            secs == views(sections@),
            nch <= sections@.len(),
            views(macros@) == macro_sections(secs),
            k <= nch,
            channels@.len() == k,
            forall|q: int| 0 <= q < k ==> #[trigger] channels@[q]@ == channel_of(secs, q),
        decreases nch - k,
    {
        let body = expand(sections[k].as_slice(), macros, 0);
        let items = channel_items(body.as_slice());
        channels.push(items);
        k += 1;
    }
    let initial_tempo = match find_initial_tempo(sections.as_slice()) {
        Some(t) => Some(t),
        None => find_first_tempo(sections.as_slice()),
    };
    Ok(MmmlScore { channels, initial_tempo })
}


// ───────────────────────── laws ─────────────────────────

proof fn lemma_join_without(ls: Seq<Seq<char>>, c: char)
    requires
        c != '\n',
        forall|k: int, q: int| 0 <= k < ls.len() && 0 <= q < ls[k].len() ==> #[trigger] ls[k][q] != c,
    ensures
        forall|q: int| 0 <= q < join_lines(ls).len() ==> #[trigger] join_lines(ls)[q] != c,
    decreases ls.len(),
{
    if ls.len() > 1 {
        let front = ls.drop_last();
        assert forall|k: int, q: int| 0 <= k < front.len() && 0 <= q < front[k].len() implies #[trigger] front[k][q] != c by {
            assert(front[k] == ls[k]);
        }
        lemma_join_without(front, c);
        let j = join_lines(ls);
        let a = join_lines(front);
        assert forall|q: int| 0 <= q < j.len() implies #[trigger] j[q] != c by {
            if q < a.len() {
                assert(j[q] == a[q]);
            } else if q == a.len() {
                assert(j[q] == '\n');
            } else {
                assert(j[q] == ls.last()[q - a.len() - 1]);
            }
        }
    } else if ls.len() == 1 {
        assert forall|q: int| 0 <= q < join_lines(ls).len() implies #[trigger] join_lines(ls)[q] != c by {
            assert(join_lines(ls)[q] == ls[0][q]);
        }
    }
}

/// Stripping comments leaves no `%` in the text.
pub proof fn lemma_stripped_has_no_comment(s: Seq<char>)
    ensures
        forall|q: int| 0 <= q < stripped(s).len() ==> #[trigger] stripped(s)[q] != '%',
{
    let ls = lines_from(s, 0).map_values(|l: Seq<char>| cut_comment(l));
    assert forall|k: int, q: int| 0 <= k < ls.len() && 0 <= q < ls[k].len() implies #[trigger] ls[k][q] != '%' by {
        let l = lines_from(s, 0)[k];
        lemma_find_from(l, '%', 0);
        assert(ls[k] == cut_comment(l));
        assert(ls[k][q] == l[q]);
    }
    lemma_join_without(ls, '%');
}

/// Text with no loop and no macro call, from `i` on.
pub open spec fn is_plain_from(text: Seq<char>, i: int) -> bool {
    forall|k: int| i <= k < text.len() ==> text[k] != '[' && !is_macro_call(text, k)
}

proof fn lemma_plain_scan(text: Seq<char>, i: int, macros: Seq<Seq<char>>, depth: nat)
    requires
        0 <= i <= text.len(),
        is_plain_from(text, i),
    ensures
        expand_scan(text, i, macros, depth) == text.subrange(i, text.len() as int),
    decreases text.len() - i,
{
    if depth <= MAX_DEPTH && i < text.len() {
        assert(text[i] != '[' && !is_macro_call(text, i));
        lemma_plain_scan(text, i + 1, macros, depth);
        assert(text.subrange(i, text.len() as int) == seq![text[i]] + text.subrange(i + 1, text.len() as int));
    }
}

/// Text without loops or macro calls expands to itself.
pub proof fn lemma_plain_text_unchanged(text: Seq<char>, macros: Seq<Seq<char>>, depth: nat)
    requires
        is_plain_from(text, 0),
    ensures
        expanded(text, macros, depth) == text,
{
    lemma_plain_scan(text, 0, macros, depth);
    assert(text.subrange(0, text.len() as int) == text);
}

proof fn lemma_digits_run(s: Seq<char>, i: int, e: int)
    requires
        0 <= i <= e <= s.len(),
        forall|k: int| i <= k < e ==> is_digit(#[trigger] s[k]),
        e == s.len() || !is_digit(s[e]),
    ensures
        digits_end(s, i) == e,
    decreases e - i,
{
    if i < e {
        lemma_digits_run(s, i + 1, e);
    }
}

proof fn lemma_loop_end_flat(s: Seq<char>, i: int, e: int)
    requires
        0 <= i <= e < s.len(),
        s[e] == ']',
        forall|k: int| i <= k < e ==> #[trigger] s[k] != '[' && s[k] != ']',
    ensures
        loop_end(s, i, 1) == e,
    decreases e - i,
{
    if i < e {
        lemma_loop_end_flat(s, i + 1, e);
    }
}

/// A loop `[n body]` whose body holds no brackets and does not start with a
/// digit expands to the body's expansion written `n` times (at most 255).
pub proof fn lemma_loop_repeats(count: Seq<char>, body: Seq<char>, macros: Seq<Seq<char>>, depth: nat)
    requires
        depth <= MAX_DEPTH,
        count.len() > 0,
        forall|k: int| 0 <= k < count.len() ==> is_digit(#[trigger] count[k]),
        decimal(count) <= u32::MAX,
        body.len() == 0 || !is_digit(body[0]),
        forall|k: int| 0 <= k < body.len() ==> #[trigger] body[k] != '[' && body[k] != ']',
    ensures
        expanded(seq!['['] + count + body + seq![']'], macros, depth)
            == repeat(expanded(body, macros, depth + 1), capped(decimal(count) as u32)),
{
    let t = seq!['['] + count + body + seq![']'];
    let j: int = 1 + count.len() as int;
    let e: int = j + body.len() as int;
    assert forall|k: int| 1 <= k < j implies is_digit(#[trigger] t[k]) by {
        assert(t[k] == count[k - 1]);
    }
    if body.len() > 0 {
        assert(t[j] == body[0]);
    }
    assert(t[e] == ']');
    lemma_digits_run(t, 1, j);
    assert(t.subrange(1, j) == count);
    assert forall|k: int| j <= k < e implies #[trigger] t[k] != '[' && t[k] != ']' by {
        assert(t[k] == body[k - j]);
    }
    lemma_loop_end_flat(t, j, e);
    assert(t.subrange(j, e) == body);
    assert(!is_macro_call(t, 0));
    assert(expand_scan(t, e + 1, macros, depth) == Seq::<char>::empty());
    assert(expand_scan(t, 0, macros, depth) == repeat(expanded(body, macros, depth + 1), capped(decimal(count) as u32)) + Seq::<char>::empty());
}


/// No macro call anywhere in `text`.
pub open spec fn has_no_macro_call(text: Seq<char>) -> bool {
    forall|k: int| !is_macro_call(text, k)
}

proof fn lemma_scan_without_macros(text: Seq<char>, i: int, macros: Seq<Seq<char>>, depth: nat)
    requires
        has_no_macro_call(text),
    ensures
        expand_scan(text, i, macros, depth) == loops_scan(text, i, depth),
    decreases 17 - depth, 0int, text.len() - i,
{
    if depth > MAX_DEPTH || i < 0 || i >= text.len() {
    } else {
        assert(!is_macro_call(text, i));
        if text[i] == '[' {
            let (count, j) = loop_count_at(text, i + 1);
            lemma_number_at(text, i + 1);
            lemma_loop_end(text, j, 1);
            let e = loop_end(text, j, 1);
            let sub = text.subrange(j, e);
            assert forall|k: int| !is_macro_call(sub, k) by {
                if is_macro_call(sub, k) {
                    assert(sub[k] == text[j + k] && sub[k + 1] == text[j + k + 1]);
                    assert(is_macro_call(text, j + k));
                }
            }
            lemma_expanded_without_macros(sub, macros, depth + 1);
            let next = if e < text.len() { e + 1 } else { e };
            lemma_scan_without_macros(text, next, macros, depth);
        } else {
            lemma_scan_without_macros(text, i + 1, macros, depth);
        }
    }
}

/// Text without macro calls expands exactly as the loop-only expansion
/// expands it.
pub proof fn lemma_expanded_without_macros(text: Seq<char>, macros: Seq<Seq<char>>, depth: nat)
    requires
        has_no_macro_call(text),
    ensures
        expanded(text, macros, depth) == loops_expanded(text, depth),
    decreases 17 - depth, 1int, 0int,
{
    if depth <= MAX_DEPTH {
        lemma_scan_without_macros(text, 0, macros, depth);
    }
}

/// Number of occurrences of `c` in `s` from index `i` on.
pub open spec fn occurrences_from(s: Seq<char>, c: char, i: int) -> nat
    decreases s.len() - i,
{
    if i < 0 || i >= s.len() {
        0
    } else {
        (if s[i] == c { 1nat } else { 0nat }) + occurrences_from(s, c, i + 1)
    }
}

/// Each piece of `pieces` preceded by `@`, concatenated.
pub open spec fn at_joined(pieces: Seq<Seq<char>>) -> Seq<char>
    decreases pieces.len(),
{
    if pieces.len() == 0 {
        seq![]
    } else {
        seq!['@'] + pieces[0] + at_joined(pieces.drop_first())
    }
}

proof fn lemma_occurrences_skip(s: Seq<char>, c: char, i: int)
    requires
        0 <= i <= s.len(),
    ensures
        occurrences_from(s, c, i) == occurrences_from(s, c, find_from(s, c, i)),
    decreases s.len() - i,
{
    if i < s.len() && s[i] != c {
        lemma_occurrences_skip(s, c, i + 1);
    }
}

proof fn lemma_pieces(s: Seq<char>, i: int)
    requires
        0 <= i <= s.len(),
    ensures
        pieces_from(s, '@', i).len() == occurrences_from(s, '@', i) + 1,
        forall|k: int, q: int| 0 <= k < pieces_from(s, '@', i).len() && 0 <= q < pieces_from(s, '@', i)[k].len()
            ==> pieces_from(s, '@', i)[k][q] != '@',
        s.subrange(i, s.len() as int) == pieces_from(s, '@', i)[0] + at_joined(pieces_from(s, '@', i).drop_first()),
    decreases s.len() - i,
{
    let e = find_from(s, '@', i);
    lemma_find_from(s, '@', i);
    lemma_occurrences_skip(s, '@', i);
    let ps = pieces_from(s, '@', i);
    if e >= s.len() {
        assert(ps == seq![s.subrange(i, s.len() as int)]);
        assert(ps.drop_first() == Seq::<Seq<char>>::empty());
    } else {
        lemma_pieces(s, e + 1);
        let rest = pieces_from(s, '@', e + 1);
        assert(ps == seq![s.subrange(i, e)] + rest);
        assert(ps.drop_first() == rest);
        assert forall|k: int, q: int| 0 <= k < ps.len() && 0 <= q < ps[k].len() implies ps[k][q] != '@' by {
            if k > 0 {
                assert(ps[k] == rest[k - 1]);
            }
        }
        assert(at_joined(rest) == seq!['@'] + rest[0] + at_joined(rest.drop_first()));
        assert(s.subrange(i, s.len() as int) == s.subrange(i, e) + seq!['@'] + s.subrange(e + 1, s.len() as int));
    }
}

/// Splitting at `@` gives one section per `@`, no section holds an `@`, and
/// the text is the part before the first `@` followed by each section with
/// its `@` in front.
pub proof fn lemma_sections(s: Seq<char>)
    ensures
        sections_of(s).len() == occurrences_from(s, '@', 0),
        forall|k: int, q: int| 0 <= k < sections_of(s).len() && 0 <= q < sections_of(s)[k].len()
            ==> sections_of(s)[k][q] != '@',
        s == s.subrange(0, find_from(s, '@', 0)) + at_joined(sections_of(s)),
{
    let f = find_from(s, '@', 0);
    lemma_find_from(s, '@', 0);
    lemma_occurrences_skip(s, '@', 0);
    if f >= s.len() {
        assert(s.subrange(0, f) == s);
    } else {
        lemma_pieces(s, f + 1);
        let ps = pieces_from(s, '@', f + 1);
        assert(at_joined(ps) == seq!['@'] + ps[0] + at_joined(ps.drop_first()));
        assert(s == s.subrange(0, f) + seq!['@'] + s.subrange(f + 1, s.len() as int));
    }
}

/// The length written after a note or rest starting at `p`: the run of
/// digits there when it holds a number that fits in a `u32` (else
/// `default`), clamped to 1..=128, and whether a `.` follows right after.
pub open spec fn written_length(text: Seq<char>, p: int, default: u32) -> (u32, bool) {
    let e = digits_end(text, p);
    let has_number = e > p && decimal(text.subrange(p, e)) <= u32::MAX;
    let n: u32 = if has_number { decimal(text.subrange(p, e)) as u32 } else { default };
    let after = if has_number { e } else { p };
    (clamp(n, 1, 128), after < text.len() && text[after] == '.')
}

/// A rest `r` read at `i` is the first item read from there, and carries
/// the length written after it and a dot exactly when a `.` follows that
/// length (so `r4.` is a dotted quarter rest, one and a half beats).
pub proof fn lemma_rest_item(text: Seq<char>, i: int, st: ChannelState)
    requires
        0 <= i < text.len(),
        text[i] == 'r',
    ensures
        channel_scan(text, i, st).len() > 0,
        channel_scan(text, i, st)[0] == (ChannelItem::Rest {
            length: written_length(text, i + 1, st.last_length).0,
            dotted: written_length(text, i + 1, st.last_length).1,
        }),
{
    lemma_digits_end(text, i + 1);
}

/// A note letter read at `i` (with `+` after it for a sharp) is the first
/// item read from there, and carries the length written after it and a dot
/// exactly when a `.` follows that length.
pub proof fn lemma_note_item(text: Seq<char>, i: int, st: ChannelState)
    requires
        0 <= i < text.len(),
        note_semitone(text[i]) is Some,
    ensures
        ({
            let p = if i + 1 < text.len() && text[i + 1] == '+' { i + 2 } else { i + 1 };
            &&& channel_scan(text, i, st).len() > 0
            &&& channel_scan(text, i, st)[0] matches ChannelItem::Note { length, dotted, .. }
            &&& length == written_length(text, p, st.last_length).0
            &&& dotted == written_length(text, p, st.last_length).1
        }),
{
    lemma_digits_end(text, i + 1);
    lemma_digits_end(text, i + 2);
}

proof fn lemma_decimal_text(n: nat)
    ensures
        decimal_text(n).len() > 0,
        forall|k: int| 0 <= k < decimal_text(n).len() ==> is_digit(#[trigger] decimal_text(n)[k]),
        decimal(decimal_text(n)) == n,
    decreases n,
{
    let d = n % 10;
    assert(digit_value(digit_char(d)) == d && is_digit(digit_char(d))) by {
        assert(d < 10);
        assert((('0' as u32) + d) as u8 as u32 == 48 + d);
    }
    if n >= 10 {
        lemma_decimal_text(n / 10);
        let t = decimal_text(n / 10);
        assert(decimal_text(n) == t.push(digit_char(d)));
        assert(decimal_text(n).drop_last() == t);
        assert(decimal_text(n).last() == digit_char(d));
        assert(decimal(decimal_text(n)) == decimal(t) * 10 + digit_value(digit_char(d)));
        assert((n / 10) * 10 + n % 10 == n);
        assert forall|k: int| 0 <= k < decimal_text(n).len() implies is_digit(#[trigger] decimal_text(n)[k]) by {
            if k < t.len() {
                assert(decimal_text(n)[k] == t[k]);
            }
        }
    } else {
        assert(decimal_text(n) == seq![digit_char(n)]);
        assert(decimal_text(n).drop_last() =~= Seq::<char>::empty());
        assert(decimal_text(n).last() == digit_char(d));
        assert(decimal(decimal_text(n)) == decimal(Seq::<char>::empty()) * 10 + digit_value(digit_char(d)));
    }
}

proof fn lemma_digits_end_shift(p: Seq<char>, r: Seq<char>, i: int)
    requires
        0 <= i <= r.len(),
    ensures
        digits_end(p + r, p.len() + i) == p.len() + digits_end(r, i),
    decreases r.len() - i,
{
    if i < r.len() {
        assert((p + r)[p.len() + i] == r[i]);
        if is_digit(r[i]) {
            lemma_digits_end_shift(p, r, i + 1);
        }
    }
}

proof fn lemma_number_at_shift(p: Seq<char>, r: Seq<char>, i: int)
    requires
        0 <= i <= r.len(),
    ensures
        number_at(p + r, p.len() + i) == (match number_at(r, i) {
            Some((n, j)) => Some((n, p.len() + j)),
            None => None,
        }),
{
    lemma_digits_end_shift(p, r, i);
    lemma_digits_end(r, i);
    let e = digits_end(r, i);
    assert((p + r).subrange(p.len() + i, p.len() + e) =~= r.subrange(i, e));
}

proof fn lemma_loop_end_shift(p: Seq<char>, r: Seq<char>, i: int, level: nat)
    requires
        0 <= i <= r.len(),
    ensures
        loop_end(p + r, p.len() + i, level) == p.len() + loop_end(r, i, level),
    decreases r.len() - i,
{
    if i < r.len() {
        assert((p + r)[p.len() + i] == r[i]);
        if r[i] == '[' {
            lemma_loop_end_shift(p, r, i + 1, level + 1);
        } else if r[i] == ']' {
            if level > 1 {
                lemma_loop_end_shift(p, r, i + 1, (level - 1) as nat);
            }
        } else {
            lemma_loop_end_shift(p, r, i + 1, level);
        }
    }
}

proof fn lemma_expand_scan_shift(p: Seq<char>, r: Seq<char>, i: int, macros: Seq<Seq<char>>, depth: nat)
    requires
        0 <= i <= r.len(),
    ensures
        expand_scan(p + r, p.len() + i, macros, depth) == expand_scan(r, i, macros, depth),
    decreases r.len() - i,
{
    let t = p + r;
    let k = p.len() as int;
    if depth > MAX_DEPTH || i >= r.len() {
        assert(t.subrange(k + i, t.len() as int) =~= r.subrange(i, r.len() as int));
    } else {
        assert(t[k + i] == r[i]);
        if i + 1 < r.len() {
            assert(t[k + i + 1] == r[i + 1]);
        }
        assert(is_macro_call(t, k + i) == is_macro_call(r, i));
        lemma_number_at_shift(p, r, i + 1);
        lemma_number_at(r, i + 1);
        if is_macro_call(r, i) {
            match number_at(r, i + 1) {
                Some((n, j)) => {
                    lemma_expand_scan_shift(p, r, j, macros, depth);
                },
                None => {
                    lemma_expand_scan_shift(p, r, i + 1, macros, depth);
                },
            }
        } else if r[i] == '[' {
            let (count, j) = loop_count_at(r, i + 1);
            lemma_loop_end(r, j, 1);
            lemma_loop_end_shift(p, r, j, 1);
            let e = loop_end(r, j, 1);
            assert(t.subrange(k + j, k + e) =~= r.subrange(j, e));
            let next = if e < r.len() { e + 1 } else { e };
            lemma_expand_scan_shift(p, r, next, macros, depth);
        } else {
            lemma_expand_scan_shift(p, r, i + 1, macros, depth);
        }
    }
}

/// A macro call `m<n>`, with the whole decimal number `n` written out
/// (`m10` calls macro 10, not macro 1), expands to the loop expansion of
/// macro `n` followed by the expansion of the text after the number.
pub proof fn lemma_macro_call(n: u32, rest: Seq<char>, macros: Seq<Seq<char>>, depth: nat)
    requires
        depth <= MAX_DEPTH,
        1 <= n <= macros.len(),
        rest.len() == 0 || !is_digit(rest[0]),
    ensures
        expanded(seq!['m'] + decimal_text(n as nat) + rest, macros, depth)
            == loops_expanded(macros[n - 1], depth + 1) + expanded(rest, macros, depth),
{
    let dt = decimal_text(n as nat);
    lemma_decimal_text(n as nat);
    let pre = seq!['m'] + dt;
    let text = pre + rest;
    assert(seq!['m'] + dt + rest == text);
    let e: int = 1 + dt.len() as int;
    assert forall|k: int| 1 <= k < e implies is_digit(#[trigger] text[k]) by {
        assert(text[k] == dt[k - 1]);
    }
    if rest.len() > 0 {
        assert(text[e] == rest[0]);
    }
    lemma_digits_run(text, 1, e);
    assert(text.subrange(1, e) =~= dt);
    assert(is_macro_call(text, 0));
    assert(number_at(text, 1) == Some((n, e)));
    lemma_expand_scan_shift(pre, rest, 0, macros, depth);
    assert(expand_scan(text, 0, macros, depth)
        == loops_expanded(macros[n - 1], depth + 1) + expand_scan(text, e, macros, depth));
}

/// `>` right before a note raises that note one octave (not above 5), and
/// `<` lowers it one octave (not below 1).
pub proof fn lemma_octave_steps(text: Seq<char>, i: int, st: ChannelState)
    requires
        0 <= i,
        i + 1 < text.len(),
        text[i] == '>' || text[i] == '<',
        note_semitone(text[i + 1]) is Some,
    ensures
        channel_scan(text, i, st).len() > 0,
        channel_scan(text, i, st)[0] matches ChannelItem::Note { octave, .. }
            && octave == (if text[i] == '>' { if st.octave < 5 { st.octave + 1 } else { st.octave as int } }
            else { if st.octave > 1 { st.octave - 1 } else { st.octave as int } }),
{
    let st2 = ChannelState {
        octave: if text[i] == '>' { if st.octave < 5 { (st.octave + 1) as u8 } else { st.octave } }
            else { if st.octave > 1 { (st.octave - 1) as u8 } else { st.octave } },
        ..st
    };
    lemma_number_at(text, i + 1);
    assert(channel_scan(text, i, st) == channel_scan(text, i + 1, st2));
    lemma_note_item(text, i + 1, st2);
}

/// `&` right before a note ties it to the event before: the note lengthens
/// that event when there is one, and is dropped otherwise.
pub proof fn lemma_tied_note(text: Seq<char>, i: int, st: ChannelState)
    requires
        0 <= i,
        i + 1 < text.len(),
        text[i] == '&',
        note_semitone(text[i + 1]) is Some,
    ensures
        channel_scan(text, i, st).len() > 0,
        channel_scan(text, i, st)[0] matches ChannelItem::Note { kind, .. }
            && kind == (if st.has_last { NoteKind::Tie } else { NoteKind::Dropped }),
{
    let st2 = ChannelState { tie_pending: true, ..st };
    lemma_number_at(text, i + 1);
    assert(channel_scan(text, i, st) == channel_scan(text, i + 1, st2));
    lemma_digits_end(text, i + 2);
    lemma_digits_end(text, i + 3);
    assert(channel_scan(text, i + 1, st2)[0] matches ChannelItem::Note { kind, .. }
        && kind == (if st.has_last { NoteKind::Tie } else { NoteKind::Dropped }));
}

} // verus!
