use wasm_realtime_sws::music::{generate_scale, FrequencyQuantizationType, NoteName, Pitch};

fn hertz(pitch: &Pitch) -> f32 {
    let (numerator, denominator) = pitch.frequency_fraction();
    numerator as f32 / denominator as f32
}

#[test]
fn test_generate_scale() {
    let scale: Vec<f32> = generate_scale(&vec![NoteName::C, NoteName::E, NoteName::G], 2, 3)
        .iter()
        .map(|p| (hertz(p) * 100.).round() / 100.)
        .collect();

    assert_eq!(scale.len(), 6);
    assert_eq!(scale[0], 65.41);
    assert_eq!(scale[1], 82.41);
    assert_eq!(scale[2], 98.00);
    assert_eq!(scale[3], 130.82);
    assert_eq!(scale[4], 164.82);
    assert_eq!(scale[5], 196.00);
}

#[test]
fn scale_pitches_come_octave_by_octave() {
    let scale = generate_scale(&vec![NoteName::C, NoteName::E, NoteName::G], 2, 3);
    let expected = vec![
        Pitch { note: NoteName::C, octave: 2 },
        Pitch { note: NoteName::E, octave: 2 },
        Pitch { note: NoteName::G, octave: 2 },
        Pitch { note: NoteName::C, octave: 3 },
        Pitch { note: NoteName::E, octave: 3 },
        Pitch { note: NoteName::G, octave: 3 },
    ];
    assert_eq!(scale, expected);
}

#[test]
fn scale_is_sorted_whatever_the_order_of_the_notes() {
    let scale = generate_scale(&vec![NoteName::B, NoteName::C, NoteName::FSharp], 4, 5);
    let expected = vec![
        Pitch { note: NoteName::C, octave: 4 },
        Pitch { note: NoteName::FSharp, octave: 4 },
        Pitch { note: NoteName::B, octave: 4 },
        Pitch { note: NoteName::C, octave: 5 },
        Pitch { note: NoteName::FSharp, octave: 5 },
        Pitch { note: NoteName::B, octave: 5 },
    ];
    assert_eq!(scale, expected);
    let frequencies: Vec<f32> = scale.iter().map(hertz).collect();
    for pair in frequencies.windows(2) {
        assert!(pair[0] < pair[1]);
    }
}

#[test]
fn scale_keeps_repeated_notes() {
    let scale = generate_scale(&vec![NoteName::A, NoteName::D, NoteName::A], 1, 1);
    let expected = vec![
        Pitch { note: NoteName::D, octave: 1 },
        Pitch { note: NoteName::A, octave: 1 },
        Pitch { note: NoteName::A, octave: 1 },
    ];
    assert_eq!(scale, expected);
}

#[test]
fn scale_is_empty_for_a_reversed_octave_range_or_no_notes() {
    assert!(generate_scale(&vec![NoteName::C], 5, 4).is_empty());
    assert!(generate_scale(&vec![], 0, 8).is_empty());
}

#[test]
fn full_chromatic_scale_has_twelve_notes_per_octave() {
    let notes = FrequencyQuantizationType::Chromatic.to_scale();
    let scale = generate_scale(&notes, 0, 8);
    assert_eq!(scale.len(), 9 * 12);
    assert_eq!(scale[0], Pitch { note: NoteName::C, octave: 0 });
    assert_eq!(scale[107], Pitch { note: NoteName::B, octave: 8 });
}

#[test]
fn quantization_types_list_their_notes() {
    assert_eq!(FrequencyQuantizationType::Chromatic.to_scale().len(), 12);
    assert_eq!(
        FrequencyQuantizationType::Diatonic.to_scale(),
        vec![
            NoteName::C,
            NoteName::D,
            NoteName::E,
            NoteName::F,
            NoteName::G,
            NoteName::A,
            NoteName::B
        ]
    );
    assert_eq!(
        FrequencyQuantizationType::Pentatonic.to_scale(),
        vec![NoteName::C, NoteName::D, NoteName::E, NoteName::G, NoteName::A]
    );
}

#[test]
fn note_names_are_written_with_sharps() {
    let names: Vec<String> = FrequencyQuantizationType::Chromatic
        .to_scale()
        .iter()
        .map(|n| n.to_string())
        .collect();
    assert_eq!(
        names,
        vec!["C", "C#", "D", "D#", "E", "F", "F#", "G", "G#", "A", "A#", "B"]
    );
}

#[test]
fn reference_frequencies_and_positions() {
    assert_eq!(NoteName::C.octave_4_centihertz(), 26163);
    assert_eq!(NoteName::A.octave_4_centihertz(), 44000);
    assert_eq!(NoteName::B.octave_4_centihertz(), 49388);
    assert_eq!(NoteName::C.semitone(), 0);
    assert_eq!(NoteName::FSharp.semitone(), 6);
    assert_eq!(NoteName::B.semitone(), 11);
}

#[test]
fn pitch_frequencies_double_per_octave() {
    assert_eq!(Pitch { note: NoteName::A, octave: 4 }.frequency_fraction(), (44000, 100));
    assert_eq!(Pitch { note: NoteName::A, octave: 6 }.frequency_fraction(), (176000, 100));
    assert_eq!(Pitch { note: NoteName::C, octave: 2 }.frequency_fraction(), (26163, 400));
    assert_eq!(hertz(&Pitch { note: NoteName::A, octave: 3 }), 220.0);
    assert_eq!(
        Pitch { note: NoteName::B, octave: 40 }.frequency_fraction(),
        (49388u64 << 36, 100)
    );
    assert_eq!(
        Pitch { note: NoteName::C, octave: -24 }.frequency_fraction(),
        (26163, 100u64 << 28)
    );
}
