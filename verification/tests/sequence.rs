use lvb_sim::sequence::{parse_i32_chars, parse_note_midi, NoteNameError};

/// Equal temperament, A4 = MIDI 69 = 440 Hz.
fn midi_hz(midi: i64) -> f32 {
    440.0 * 2.0f32.powf((midi - 69) as f32 / 12.0)
}

#[test]
fn sequence_test_a4_440hz() {
    let f = midi_hz(parse_note_midi("A4").unwrap());
    assert!((f - 440.0).abs() < 0.1, "A4 = {:.2}", f);
}

#[test]
fn test_c4_middle_c() {
    let f = midi_hz(parse_note_midi("C4").unwrap());
    assert!((f - 261.63).abs() < 0.5, "C4 = {:.2}", f);
}

#[test]
fn test_sharp() {
    let f1 = midi_hz(parse_note_midi("A#4").unwrap());
    let f2 = midi_hz(parse_note_midi("Bb4").unwrap());
    assert!((f1 - f2).abs() < 0.1, "A#4={:.2} Bb4={:.2}", f1, f2);
}

#[test]
fn midi_numbers() {
    assert_eq!(parse_note_midi("C4").unwrap(), 60);
    assert_eq!(parse_note_midi("A4").unwrap(), 69);
    assert_eq!(parse_note_midi("  g3 ").unwrap(), 55);
    assert_eq!(parse_note_midi("D+2").unwrap(), 39);
    assert_eq!(parse_note_midi("Bb4").unwrap(), 70);
    assert_eq!(parse_note_midi("C-1").unwrap(), 0);
    assert_eq!(parse_note_midi("B+4").unwrap(), 72);
}

#[test]
fn note_name_errors() {
    assert!(matches!(parse_note_midi("   "), Err(NoteNameError::Empty)));
    assert!(matches!(parse_note_midi("h4"), Err(NoteNameError::InvalidNoteChar('H'))));
    match parse_note_midi("Cx") {
        Err(NoteNameError::InvalidOctave(o)) => assert_eq!(o, "x"),
        other => panic!("unexpected {:?}", other),
    }
    // a flat needs a digit after it
    match parse_note_midi("Bb") {
        Err(NoteNameError::InvalidOctave(o)) => assert_eq!(o, "b"),
        other => panic!("unexpected {:?}", other),
    }
    match parse_note_midi("C99999999999") {
        Err(NoteNameError::InvalidOctave(o)) => assert_eq!(o, "99999999999"),
        other => panic!("unexpected {:?}", other),
    }
}

#[test]
fn i32_reading() {
    let c = |s: &str| s.chars().collect::<Vec<char>>();
    assert_eq!(parse_i32_chars(&c("42")), Some(42));
    assert_eq!(parse_i32_chars(&c("+7")), Some(7));
    assert_eq!(parse_i32_chars(&c("-2147483648")), Some(i32::MIN));
    assert_eq!(parse_i32_chars(&c("2147483647")), Some(i32::MAX));
    assert_eq!(parse_i32_chars(&c("2147483648")), None);
    assert_eq!(parse_i32_chars(&c("-")), None);
    assert_eq!(parse_i32_chars(&c("")), None);
    assert_eq!(parse_i32_chars(&c("1 ")), None);
}
