use pitch_trail::note::{
    frequency_to_note, key_from_name, key_name, key_offset, note_to_label, tab_label, Key,
};

const KEYS: [Key; 12] = [
    Key::C,
    Key::Db,
    Key::D,
    Key::Eb,
    Key::E,
    Key::F,
    Key::Gb,
    Key::G,
    Key::Ab,
    Key::A,
    Key::Bb,
    Key::B,
];

#[test]
fn concert_pitch_is_note_69() {
    assert_eq!(frequency_to_note(440_000), 69);
}

#[test]
fn octave_up_is_twelve_notes_up() {
    assert_eq!(frequency_to_note(880_000), 81);
    assert_eq!(frequency_to_note(220_000), 57);
    assert_eq!(frequency_to_note(1_760_000), 93);
}

#[test]
fn notes_of_known_frequencies() {
    assert_eq!(frequency_to_note(261_626), 60);
    assert_eq!(frequency_to_note(8_176), 0);
    assert_eq!(frequency_to_note(12_543_854), 127);
    assert_eq!(frequency_to_note(27_500), 21);
    assert_eq!(frequency_to_note(4_186_009), 108);
}

#[test]
fn note_changes_at_the_quarter_tone() {
    // 440 Hz * 2^(1/24) = 452.8929... Hz is the edge between notes 69 and 70.
    assert_eq!(frequency_to_note(452_892), 69);
    assert_eq!(frequency_to_note(452_893), 70);
    // 440 Hz * 2^(-1/24) = 427.4740... Hz is the edge between notes 68 and 69.
    assert_eq!(frequency_to_note(427_474), 68);
    assert_eq!(frequency_to_note(427_475), 69);
}

#[test]
fn note_agrees_with_the_logarithm() {
    let mut freq: u64 = 1;
    while freq < 40_000_000_000 {
        let exact = 12.0 * ((freq as f64) / 440_000.0).log2() + 69.0;
        let nearest = exact.round();
        if (exact - (nearest - 0.5)).abs() > 1e-6 && (exact - (nearest + 0.5)).abs() > 1e-6 {
            assert_eq!(frequency_to_note(freq) as f64, nearest, "at {} mHz", freq);
        }
        freq = freq + freq / 7 + 1;
    }
}

#[test]
fn extreme_frequencies_have_notes() {
    assert_eq!(frequency_to_note(1), -156);
    assert_eq!(frequency_to_note(u64::MAX), 612);
}

#[test]
fn key_offsets_are_semitones_from_c() {
    assert_eq!(key_offset(Key::C), 0);
    assert_eq!(key_offset(Key::D), 2);
    assert_eq!(key_offset(Key::F), 5);
    assert_eq!(key_offset(Key::G), -5);
    assert_eq!(key_offset(Key::A), -3);
    assert_eq!(key_offset(Key::B), -1);
}

#[test]
fn label_is_looked_up_relative_to_the_key() {
    assert_eq!(note_to_label(60, Key::C), "1");
    assert_eq!(note_to_label(72, Key::C), "4");
    assert_eq!(note_to_label(95, Key::C), "10'");
    assert_eq!(note_to_label(62, Key::D), "1");
    assert_eq!(note_to_label(55, Key::G), "1");
    assert_eq!(note_to_label(69, Key::C), "-3''");
    assert_eq!(note_to_label(69, Key::A), "4");
}

#[test]
fn label_is_empty_outside_the_table() {
    for key in KEYS {
        let first = 60 + key_offset(key);
        assert_eq!(note_to_label(first - 1, key), "");
        assert_eq!(note_to_label(first + 36, key), "");
        assert_eq!(note_to_label(i32::MIN, key), "");
        assert_eq!(note_to_label(i32::MAX, key), "");
        assert_eq!(note_to_label(0, key), "");
    }
}

#[test]
fn every_key_has_labels_inside_the_table() {
    for key in KEYS {
        let first = 60 + key_offset(key);
        for note in first..first + 36 {
            assert!(!note_to_label(note, key).is_empty());
        }
    }
}

#[test]
fn table_has_thirty_six_distinct_labels() {
    let mut seen: Vec<&str> = Vec::new();
    for index in 0..36 {
        let label = tab_label(index);
        assert!(!label.is_empty());
        assert!(!seen.contains(&label));
        seen.push(label);
    }
    assert_eq!(tab_label(36), "");
    assert_eq!(tab_label(-1), "");
}

#[test]
fn keys_are_found_by_name() {
    assert_eq!(key_from_name("C"), Some(Key::C));
    assert_eq!(key_from_name("G"), Some(Key::G));
    assert_eq!(key_from_name("Bb"), Some(Key::Bb));
    assert_eq!(key_from_name("Gb"), Some(Key::Gb));
    for key in KEYS {
        assert_eq!(key_from_name(key_name(key)), Some(key));
    }
}

#[test]
fn unsupported_key_names_are_refused() {
    for name in ["", "H", "c", "Cb", "Fb", "C#", "Bbb", " C", "C ", "b", "\u{e9}"] {
        assert_eq!(key_from_name(name), None, "{:?}", name);
    }
}
