use lvb_sim::mml::parser::{
    channel_items, expand, expand_loops_only, find_first_tempo, find_initial_tempo, mmml_freq,
    prepare_mmml, read_length, read_u32, split_sections, strip_comment_chars, strip_comments,
    ChannelItem, MmlError, NoteKind,
};
use lvb_sim::virtual_channel::DrumType;

fn chars(s: &str) -> Vec<char> {
    s.chars().collect()
}

fn text(v: &[char]) -> String {
    v.iter().collect()
}

/// Notes that start a sounding event, as (semitone, octave).
fn started_notes(items: &[ChannelItem]) -> Vec<(u8, u8)> {
    items
        .iter()
        .filter_map(|it| match it {
            ChannelItem::Note { kind: NoteKind::Start, semitone, octave, .. } => Some((*semitone, *octave)),
            _ => None,
        })
        .collect()
}

#[test]
fn parser_test_a4_440hz() {
    let f = mmml_freq(9, 1) as f32 / 1000.0;
    assert!((f - 440.0).abs() < 1.0, "o1 A = {:.2} Hz", f);
}

#[test]
fn test_c_octave_doubling() {
    let f1 = mmml_freq(0, 1) as f32;
    let f2 = mmml_freq(0, 2) as f32;
    let f3 = mmml_freq(0, 3) as f32;
    assert!((f2 / f1 - 2.0).abs() < 0.01, "o1->o2 C: {:.2}/{:.2}", f2, f1);
    assert!((f3 / f2 - 2.0).abs() < 0.01, "o2->o3 C: {:.2}/{:.2}", f3, f2);
}

#[test]
fn test_sharp_note() {
    let f_c = mmml_freq(0, 1);
    let f_cs = mmml_freq(1, 1);
    assert!(f_cs > f_c, "c# > c");
}

#[test]
fn test_simple_parse() {
    let score = prepare_mmml("@ t52 o1 c4 d4 e4 r4\n@\n@\n@").unwrap();
    let notes = started_notes(&score.channels[0]);
    assert_eq!(notes.len(), 3, "three notes");
    let (st, oct) = notes[0];
    let f = mmml_freq(st as usize, oct) as f32 / 1000.0;
    assert!(f > 200.0 && f < 300.0);
}

#[test]
fn test_loop_expansion() {
    let score = prepare_mmml("@ o1 [3 c4 ]\n@\n@\n@").unwrap();
    assert_eq!(started_notes(&score.channels[0]).len(), 3);
}

#[test]
fn test_octave_commands() {
    let score = prepare_mmml("@ o2 c4 > c4\n@\n@\n@").unwrap();
    let notes = started_notes(&score.channels[0]);
    assert_eq!(notes.len(), 2);
    let f1 = mmml_freq(notes[0].0 as usize, notes[0].1) as f32;
    let f2 = mmml_freq(notes[1].0 as usize, notes[1].1) as f32;
    assert!((f2 / f1 - 2.0).abs() < 0.05, "> doubles: {:.2}/{:.2}", f2, f1);
}

#[test]
fn test_strip_comments() {
    let text = "c4 % this is a comment\nd4";
    let stripped = strip_comments(text);
    assert!(!stripped.contains('%'), "comment removed");
    assert!(stripped.contains('d'), "notes kept");
}

#[test]
fn test_macro_expansion() {
    let score = prepare_mmml("@ o1 m1\n@\n@\n@\n@ c4 d4").unwrap();
    assert_eq!(started_notes(&score.channels[0]).len(), 2, "two notes after macro expansion");
}

#[test]
fn strip_comments_exact() {
    assert_eq!(strip_comments("c4 % x\nd4"), "c4 \nd4");
    assert_eq!(strip_comments("a\r\nb%c\r\n"), "a\nb");
    assert_eq!(strip_comments("%all\n\nx"), "\n\nx");
    assert_eq!(strip_comments(""), "");
    assert_eq!(strip_comments("\n"), "");
    assert_eq!(text(&strip_comment_chars(&chars("o4 % c\n% d"))), "o4 \n");
}

#[test]
fn sections_split_at_at_signs() {
    let secs = split_sections(&chars("header@ a @b@"));
    let secs: Vec<String> = secs.iter().map(|s| text(s)).collect();
    assert_eq!(secs, vec![" a ".to_string(), "b".to_string(), "".to_string()]);
    assert!(split_sections(&chars("no sections")).is_empty());
}

#[test]
fn numbers_and_lengths() {
    let c = chars("x123y");
    assert_eq!(read_u32(&c, 1), Some((123, 4)));
    assert_eq!(read_u32(&c, 0), None);
    assert_eq!(read_u32(&c, 99), None);
    let big = chars("99999999999 c");
    assert_eq!(read_u32(&big, 0), None);
    assert_eq!(read_u32(&chars("4294967295"), 0), Some((u32::MAX, 10)));
    assert_eq!(read_u32(&chars("00012"), 0), Some((12, 5)));
    assert_eq!(read_length(&chars("8.c"), 0, 4), (8, true, 2));
    assert_eq!(read_length(&chars("c"), 0, 4), (4, false, 0));
    assert_eq!(read_length(&chars("0"), 0, 4), (1, false, 1));
    assert_eq!(read_length(&chars("500"), 0, 4), (128, false, 3));
}

#[test]
fn loops_and_macros_expand() {
    let macros = vec![chars("c[2d]"), chars("e")];
    assert_eq!(text(&expand(&chars("[3ab]"), &macros, 0)), "ababab");
    assert_eq!(text(&expand(&chars("[ab]"), &macros, 0)), "abab");
    assert_eq!(text(&expand(&chars("[2[2x]y]"), &macros, 0)), "xxyxxy");
    assert_eq!(text(&expand(&chars("m1 m2 m3"), &macros, 0)), "cdd e ");
    assert_eq!(text(&expand(&chars("[0a]b"), &macros, 0)), "b");
    assert_eq!(text(&expand(&chars("[300x]"), &macros, 0)).len(), 255);
    assert_eq!(text(&expand(&chars("[2ab"), &macros, 0)), "abab");
    assert_eq!(text(&expand(&chars("plain text"), &macros, 0)), "plain text");
    // beyond the nesting limit the text is left alone
    assert_eq!(text(&expand(&chars("[2a]"), &macros, 17)), "[2a]");
    // loops only: macro calls pass through
    assert_eq!(text(&expand_loops_only(&chars("m1[2a]"), 0)), "m1aa");
}

#[test]
fn channel_reading() {
    let items = channel_items(&chars("o4 v6 c8. & d r e+ & f t255 b+"));
    assert_eq!(
        items,
        vec![
            ChannelItem::Note { kind: NoteKind::Start, semitone: 0, octave: 4, volume: 6, length: 8, dotted: true },
            ChannelItem::Note { kind: NoteKind::Tie, semitone: 2, octave: 4, volume: 6, length: 8, dotted: false },
            ChannelItem::Rest { length: 8, dotted: false },
            ChannelItem::Note { kind: NoteKind::Start, semitone: 5, octave: 4, volume: 6, length: 8, dotted: false },
            ChannelItem::Note { kind: NoteKind::Tie, semitone: 5, octave: 4, volume: 6, length: 8, dotted: false },
            ChannelItem::Tempo { value: 255 },
            ChannelItem::Note { kind: NoteKind::Start, semitone: 0, octave: 4, volume: 6, length: 8, dotted: false },
        ]
    );
    // a tie with nothing before it drops the note
    let items = channel_items(&chars("&c4 < < < < < c >>>>>>> d"));
    assert_eq!(
        items,
        vec![
            ChannelItem::Note { kind: NoteKind::Dropped, semitone: 0, octave: 3, volume: 8, length: 4, dotted: false },
            ChannelItem::Note { kind: NoteKind::Start, semitone: 0, octave: 1, volume: 8, length: 4, dotted: false },
            ChannelItem::Note { kind: NoteKind::Start, semitone: 2, octave: 5, volume: 8, length: 4, dotted: false },
        ]
    );
    // octave and volume are clamped
    let items = channel_items(&chars("o9 v20 a"));
    assert_eq!(
        items,
        vec![ChannelItem::Note { kind: NoteKind::Start, semitone: 9, octave: 5, volume: 8, length: 4, dotted: false }]
    );
}

#[test]
fn tempo_commands() {
    let secs = vec![chars(" t0 t52 c"), chars("c t36")];
    assert_eq!(find_initial_tempo(&secs), Some(52));
    let secs = vec![chars("c t36"), chars("r t40")];
    assert_eq!(find_initial_tempo(&secs), None);
    assert_eq!(find_first_tempo(&secs), Some(36));
    let secs = vec![chars("t255 c"), chars("x")];
    assert_eq!(find_first_tempo(&secs), None);
}

#[test]
fn whole_file() {
    let score = prepare_mmml("% title\n@ t52 o1 c4 d4\n@ o1 c4\n@\n@\n@ e4").unwrap();
    assert_eq!(score.channels.len(), 4);
    assert_eq!(score.initial_tempo, Some(52));
    assert_eq!(started_notes(&score.channels[1]).len(), 1);
    assert!(score.channels[2].is_empty());
    let score = prepare_mmml("@ c4 @ d4").unwrap();
    assert_eq!(score.channels.len(), 2);
    assert_eq!(score.initial_tempo, None);
    assert_eq!(prepare_mmml("no channels here").unwrap_err(), MmlError::NoChannels);
    assert_eq!(prepare_mmml("%@ only in a comment").unwrap_err(), MmlError::NoChannels);
}

#[test]
fn percussion_channel_notes_select_samples() {
    let score = prepare_mmml("@\n@\n@\n@ c c+ d d+ e").unwrap();
    let drums: Vec<DrumType> = started_notes(&score.channels[3])
        .iter()
        .map(|&(st, _)| DrumType::from_mmml_sample_id(st + 1))
        .collect();
    assert_eq!(drums, vec![DrumType::Bwoop, DrumType::Beep, DrumType::Kick, DrumType::Snare, DrumType::HiHat]);
}

#[test]
fn sections_one_per_at_and_rebuild_the_text() {
    let t = chars("head@ a b @c@@ d ");
    let secs = split_sections(&t);
    assert_eq!(secs.len(), t.iter().filter(|&&c| c == '@').count());
    assert!(secs.iter().all(|s| !s.contains(&'@')));
    let rebuilt: String = String::from("head") + &secs.iter().map(|s| format!("@{}", text(s))).collect::<String>();
    assert_eq!(rebuilt, text(&t));
    assert!(split_sections(&chars("no sections")).is_empty());
}

#[test]
fn text_without_macro_calls_expands_as_loops_only() {
    let macros = vec![chars("c d")];
    for src in ["[3 c4 [2 d8] ] e", "o2 m c [e]", "v8 mx [4 f]"] {
        let t = chars(src);
        assert_eq!(expand(&t, &macros, 0), expand_loops_only(&t, 0), "{}", src);
    }
    // with a macro call the two differ
    let t = chars("m1 e");
    assert_ne!(expand(&t, &macros, 0), expand_loops_only(&t, 0));
}
