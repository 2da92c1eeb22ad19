use std::collections::HashSet;

use scales::intervals::ImperfectInterval::{Second, Seventh, Sixth, Third};
use scales::intervals::PerfectInterval::{Fifth, Fourth, Octave, Unison};
use scales::intervals::{AnyInterval, Diatonic, ImperfectInterval, Interval, PerfectInterval};
use scales::notes::NoteName::{A, B, C, D, E, F, G};
use scales::notes::{
    octave, pitch, pitches, pretty_pitches, FormatAsCode, Note, NoteError, NoteName, Notes, Pitch,
    DOUBLE_FLAT, DOUBLE_SHARP, FLAT, NATURAL, SHARP,
};
use scales::scales::{
    replace_in_scale, spell, Aeolian, Dorian, Ionian, Locrian, Lydian, Major, Minor, Mixolydian,
    Phrygian, Scale,
};

fn natural(name: NoteName) -> Pitch {
    pitch(name, NATURAL)
}

fn sharp(name: NoteName) -> Pitch {
    pitch(name, SHARP)
}

fn flat(name: NoteName) -> Pitch {
    pitch(name, FLAT)
}

fn pitch_set(notes: &Notes) -> HashSet<Pitch> {
    pitches(notes).into_iter().collect()
}

fn all_intervals() -> Vec<Interval> {
    let perfect = [Unison, Fourth, Fifth, Octave];
    let imperfect = [Second, Third, Sixth, Seventh];
    let mut all = vec![];
    for p in perfect {
        all.push(Interval::Perfect(p));
        all.push(Interval::Diminshed(AnyInterval::Perfect(p)));
        all.push(Interval::Augmented(AnyInterval::Perfect(p)));
    }
    for i in imperfect {
        all.push(Interval::Minor(i));
        all.push(Interval::Major(i));
        all.push(Interval::Diminshed(AnyInterval::Imperfect(i)));
        all.push(Interval::Augmented(AnyInterval::Imperfect(i)));
    }
    all
}

#[test]
fn test_note_steps() {
    let note = octave(natural(C), 4);
    assert_eq!(note.next(2), octave(natural(D), 4));
    assert_eq!(note.prev(1), octave(natural(B), 3));
}

#[test]
fn test_diatonic() {
    let pitch = natural(C);

    let c = pitch.leap(Interval::Perfect(Unison));
    assert_eq!(c, natural(C));
    let d = pitch.leap(Interval::Major(Second));
    assert_eq!(d, natural(D));
    let e = pitch.leap(Interval::Major(Third));
    assert_eq!(e, natural(E));
    let f = pitch.leap(Interval::Perfect(Fourth));
    assert_eq!(f, natural(F));
    let g = pitch.leap(Interval::Perfect(Fifth));
    assert_eq!(g, natural(G));
    let a = pitch.leap(Interval::Major(Sixth));
    assert_eq!(a, natural(A));
    let b = pitch.leap(Interval::Major(Seventh));
    assert_eq!(b, natural(B));

    let c = pitch.fall(Interval::Perfect(Unison));
    assert_eq!(c, natural(C));
    let b = pitch.fall(Interval::Minor(Second));
    assert_eq!(b, natural(B));
    let a = pitch.fall(Interval::Minor(Third));
    assert_eq!(a, natural(A));
    let g = pitch.fall(Interval::Perfect(Fourth));
    assert_eq!(g, natural(G));
    let f = pitch.fall(Interval::Perfect(Fifth));
    assert_eq!(f, natural(F));
    let e = pitch.fall(Interval::Minor(Sixth));
    assert_eq!(e, natural(E));
    let d = pitch.fall(Interval::Minor(Seventh));
    assert_eq!(d, natural(D));
}

#[test]
fn test_spell() {
    assert_eq!(
        pitch_set(&spell(Major { root: octave(natural(C), 4) })),
        HashSet::from_iter(vec![natural(C), natural(D), natural(E), natural(F), natural(G), natural(A), natural(B)])
    );

    println!("D# Major: {}", spell(Major { root: octave(sharp(D), 4) }).to_string());

    assert_eq!(
        pitch_set(&spell(Major { root: octave(flat(E), 4) })),
        HashSet::from_iter(vec![flat(E), natural(F), natural(G), flat(A), flat(B), natural(C), natural(D)])
    );
}

#[test]
fn test_circle_of_fifths() {
    let all_keys = [
        [flat(G), flat(A), flat(B), flat(C), flat(D), flat(E), flat(F)],
        [flat(G), flat(A), flat(B), flat(C), flat(D), flat(E), natural(F)],
        [flat(D), flat(E), natural(F), flat(G), flat(A), flat(B), natural(C)],
        [flat(A), flat(B), natural(C), flat(D), flat(E), natural(F), natural(G)],
        [flat(E), natural(F), natural(G), flat(A), flat(B), natural(C), natural(D)],
        [flat(B), natural(C), natural(D), flat(E), natural(F), natural(G), natural(A)],
        [natural(F), natural(G), natural(A), flat(B), natural(C), natural(D), natural(E)],
        [natural(C), natural(D), natural(E), natural(F), natural(G), natural(A), natural(B)],
        [natural(G), natural(A), natural(B), natural(C), natural(D), natural(E), sharp(F)],
        [natural(D), natural(E), sharp(F), natural(G), natural(A), natural(B), sharp(C)],
        [natural(A), natural(B), sharp(C), natural(D), natural(E), sharp(F), sharp(G)],
        [natural(E), sharp(F), sharp(G), natural(A), natural(B), sharp(C), sharp(D)],
        [natural(B), sharp(C), sharp(D), natural(E), sharp(F), sharp(G), sharp(A)],
        [sharp(F), sharp(G), sharp(A), natural(B), sharp(C), sharp(D), sharp(E)],
        [sharp(F), sharp(G), sharp(A), sharp(B), sharp(C), sharp(D), sharp(E)],
    ];
    let mut root = octave(flat(C), 4);

    for key in all_keys {
        let found = pitches(&spell(Major { root }));
        println!("{} Major: {}", root.pitch.to_string(), pretty_pitches(&found));
        let found: HashSet<Pitch> = found.into_iter().collect();
        assert_eq!(HashSet::from_iter(key), found);

        root = root.leap(Interval::Perfect(Fifth));
    }
}

#[test]
fn test_modes() {
    let c_pitches: HashSet<_> = [natural(C), natural(D), natural(E), natural(F), natural(G), natural(A), natural(B)]
        .iter()
        .cloned()
        .collect();

    let modes = [
        spell(Lydian { root: octave(natural(F), 4) }),
        spell(Ionian { root: octave(natural(C), 4) }),
        spell(Mixolydian { root: octave(natural(G), 4) }),
        spell(Dorian { root: octave(natural(D), 4) }),
        spell(Aeolian { root: octave(natural(A), 4) }),
        spell(Phrygian { root: octave(natural(E), 4) }),
        spell(Locrian { root: octave(natural(B), 4) }),
    ];

    for mode in modes {
        assert_eq!(pitch_set(&mode), c_pitches);
    }
}

#[test]
fn leap_and_fall_undo_each_other() {
    let starts = [
        natural(C),
        flat(E),
        sharp(F),
        pitch(B, DOUBLE_FLAT),
        pitch(G, DOUBLE_SHARP),
        pitch(A, -5),
        pitch(D, 7),
    ];
    for p in starts {
        for i in all_intervals() {
            assert_eq!(p.fall(i).leap(i), p);
            assert_eq!(p.leap(i).fall(i), p);
            let n = octave(p, 4);
            assert_eq!(n.fall(i).leap(i), n);
            assert_eq!(n.leap(i).fall(i), n);
        }
    }
}

#[test]
fn diatonic_steps_depend_on_number_alone() {
    assert_eq!(Interval::Major(Third).diatonic_steps(), 2);
    assert_eq!(Interval::Minor(Third).diatonic_steps(), 2);
    assert_eq!(Interval::Diminshed(AnyInterval::Imperfect(Third)).diatonic_steps(), 2);
    assert_eq!(Interval::Augmented(AnyInterval::Imperfect(Third)).diatonic_steps(), 2);
    assert_eq!(Interval::Augmented(AnyInterval::Perfect(Fourth)).diatonic_steps(), 3);
    assert_eq!(Interval::Diminshed(AnyInterval::Perfect(Fifth)).diatonic_steps(), 4);
    assert_eq!(Interval::Perfect(Unison).diatonic_steps(), 0);
    assert_eq!(Interval::Perfect(Octave).diatonic_steps(), 7);
    for i in all_intervals() {
        assert!(i.diatonic_steps() <= 7);
    }
    assert_eq!(AnyInterval::Imperfect(Seventh).diatonic_steps(), 6);
    assert_eq!(PerfectInterval::Fifth.diatonic_steps(), 4);
    assert_eq!(ImperfectInterval::Sixth.diatonic_steps(), 5);
}

#[test]
fn interval_sizes() {
    assert_eq!(PerfectInterval::Unison.size(), 0);
    assert_eq!(PerfectInterval::Fourth.size(), 5);
    assert_eq!(PerfectInterval::Fifth.size(), 7);
    assert_eq!(PerfectInterval::Octave.size(), 12);
    assert_eq!(ImperfectInterval::Second.minor_size(), 1);
    assert_eq!(ImperfectInterval::Third.minor_size(), 3);
    assert_eq!(ImperfectInterval::Sixth.minor_size(), 8);
    assert_eq!(ImperfectInterval::Seventh.minor_size(), 10);
    assert_eq!(ImperfectInterval::Seventh.major_size(), 11);
    assert_eq!(Interval::Major(Sixth).size(), 9);
    assert_eq!(Interval::Minor(Sixth).size(), 8);
    assert_eq!(Interval::Augmented(AnyInterval::Perfect(Fourth)).size(), 6);
    assert_eq!(Interval::Diminshed(AnyInterval::Perfect(Fifth)).size(), 6);
    assert_eq!(Interval::Augmented(AnyInterval::Imperfect(Sixth)).size(), 10);
    assert_eq!(Interval::Diminshed(AnyInterval::Imperfect(Seventh)).size(), 9);
    assert_eq!(Interval::Augmented(AnyInterval::Perfect(Unison)).size(), 1);
    assert_eq!(Interval::Diminshed(AnyInterval::Perfect(Octave)).size(), 11);
}

#[test]
fn diminished_unison_and_second_have_size_zero() {
    assert_eq!(Interval::Diminshed(AnyInterval::Perfect(Unison)).size(), 0);
    assert_eq!(Interval::Diminshed(AnyInterval::Imperfect(Second)).size(), 0);
    assert_eq!(
        natural(C).leap(Interval::Diminshed(AnyInterval::Imperfect(Second))),
        pitch(D, DOUBLE_FLAT)
    );
}

#[test]
fn tritone_spellings_stay_apart() {
    let aug4 = Interval::Augmented(AnyInterval::Perfect(Fourth));
    let dim5 = Interval::Diminshed(AnyInterval::Perfect(Fifth));
    assert_eq!(aug4.size(), dim5.size());
    assert_ne!(aug4, dim5);
    assert_eq!(natural(C).leap(aug4), sharp(F));
    assert_eq!(natural(C).leap(dim5), flat(G));
}

#[test]
fn b_to_c_enters_the_next_octave() {
    let b4 = octave(natural(B), 4);
    assert_eq!(b4.leap(Interval::Minor(Second)), octave(natural(C), 5));
    assert_eq!(b4.next(1), octave(natural(C), 5));
    assert_eq!(octave(sharp(B), 4).next(0), octave(natural(C), 5));
    assert_eq!(octave(pitch(A, DOUBLE_SHARP), 4).leap(Interval::Minor(Second)), octave(sharp(B), 4));
    assert_eq!(octave(natural(C), 5).prev(1), octave(natural(B), 4));
    assert_eq!(octave(natural(C), 5).fall(Interval::Minor(Second)), octave(natural(B), 4));
    assert_eq!(octave(natural(G), 4).leap(Interval::Perfect(Octave)), octave(natural(G), 5));
    assert_eq!(octave(natural(G), 4).leap(Interval::Perfect(Fifth)), octave(natural(D), 5));
    assert_eq!(octave(natural(D), 5).fall(Interval::Perfect(Fifth)), octave(natural(G), 4));
}

#[test]
fn steps_adjust_the_accidental() {
    assert_eq!(natural(E).next(0), flat(F));
    assert_eq!(natural(E).next(1), natural(F));
    assert_eq!(natural(E).next(2), sharp(F));
    assert_eq!(natural(C).next(0), pitch(D, DOUBLE_FLAT));
    assert_eq!(natural(F).prev(1), natural(E));
    assert_eq!(natural(F).prev(0), sharp(E));
    assert_eq!(natural(C).prev(2), flat(B));
    assert_eq!(sharp(C).leap(Interval::Major(Third)), sharp(E));
    assert_eq!(flat(A).fall(Interval::Major(Sixth)), flat(C));
}

#[test]
fn major_scale_on_c_in_order() {
    let notes = spell(Major { root: octave(natural(C), 4) });
    let expected: Vec<Note> = [C, D, E, F, G, A, B]
        .iter()
        .map(|&n| octave(natural(n), 4))
        .collect();
    assert_eq!(notes.0, expected);
}

#[test]
fn minor_scale_on_a_crosses_the_octave() {
    let notes = spell(Minor { root: octave(natural(A), 3) });
    let expected = vec![
        octave(natural(A), 3),
        octave(natural(B), 3),
        octave(natural(C), 4),
        octave(natural(D), 4),
        octave(natural(E), 4),
        octave(natural(F), 4),
        octave(natural(G), 4),
    ];
    assert_eq!(notes.0, expected);
}

#[test]
fn every_major_key_names_each_letter_once() {
    let mut root = octave(flat(C), 4);
    let mut previous_total: Option<i32> = None;
    for _ in 0..12 {
        let notes = spell(Major { root });
        let letters: HashSet<NoteName> = notes.0.iter().map(|n| n.pitch.name).collect();
        assert_eq!(notes.0.len(), 7);
        assert_eq!(letters.len(), 7);
        let total: i32 = notes.0.iter().map(|n| n.pitch.accidentals).sum();
        if let Some(t) = previous_total {
            assert_eq!(total, t + 1);
        }
        previous_total = Some(total);
        root = root.leap(Interval::Perfect(Fifth));
    }
}

#[test]
fn mode_tables_follow_the_substitution_chain() {
    assert_eq!(Lydian::intervals()[3], Interval::Augmented(AnyInterval::Perfect(Fourth)));
    assert_eq!(Ionian::intervals()[3], Interval::Perfect(Fourth));
    assert_eq!(Mixolydian::intervals()[6], Interval::Minor(Seventh));
    assert_eq!(Dorian::intervals()[2], Interval::Minor(Third));
    assert_eq!(Aeolian::intervals()[5], Interval::Minor(Sixth));
    assert_eq!(Phrygian::intervals()[1], Interval::Minor(Second));
    assert_eq!(
        Locrian::intervals(),
        vec![
            Interval::Perfect(Unison),
            Interval::Minor(Second),
            Interval::Minor(Third),
            Interval::Perfect(Fourth),
            Interval::Diminshed(AnyInterval::Perfect(Fifth)),
            Interval::Minor(Sixth),
            Interval::Minor(Seventh),
        ]
    );
    assert_eq!(Dorian { root: octave(natural(D), 2) }.root(), octave(natural(D), 2));
}

#[test]
fn replacement_matches_by_number() {
    let table = Lydian::intervals();
    let replaced = replace_in_scale(table.clone(), Interval::Minor(Seventh), Interval::Minor(Seventh));
    assert_eq!(replaced[6], Interval::Minor(Seventh));
    assert_eq!(replaced[..6], table[..6]);
    let unchanged = replace_in_scale(
        vec![Interval::Perfect(Unison), Interval::Major(Third)],
        Interval::Perfect(Fifth),
        Interval::Diminshed(AnyInterval::Perfect(Fifth)),
    );
    assert_eq!(unchanged, vec![Interval::Perfect(Unison), Interval::Major(Third)]);
    let first_only = replace_in_scale(
        vec![Interval::Minor(Third), Interval::Major(Third)],
        Interval::Major(Third),
        Interval::Augmented(AnyInterval::Imperfect(Third)),
    );
    assert_eq!(
        first_only,
        vec![Interval::Augmented(AnyInterval::Imperfect(Third)), Interval::Major(Third)]
    );
}

#[test]
fn accidental_glyphs() {
    assert_eq!(Note::accidental_to_string(0), "");
    assert_eq!(Note::accidental_to_string(1), "\u{266F}");
    assert_eq!(Note::accidental_to_string(2), "\u{1D12A}");
    assert_eq!(Note::accidental_to_string(3), "\u{1D12A}\u{266F}");
    assert_eq!(Note::accidental_to_string(-1), "\u{266D}");
    assert_eq!(Note::accidental_to_string(-2), "\u{1D12B}");
    assert_eq!(Note::accidental_to_string(-5), "\u{1D12B}\u{1D12B}\u{266D}");
}

#[test]
fn dutch_suffixes() {
    assert_eq!(Note::accidental_to_dutch_notation(0), "");
    assert_eq!(Note::accidental_to_dutch_notation(1), "is");
    assert_eq!(Note::accidental_to_dutch_notation(2), "isis");
    assert_eq!(Note::accidental_to_dutch_notation(-1), "es");
    assert_eq!(Note::accidental_to_dutch_notation(-3), "eseses");
}

#[test]
fn text_of_pitches_and_notes() {
    assert_eq!(flat(E).to_string(), "E\u{266D}");
    assert_eq!(natural(C).to_string(), "C");
    assert_eq!(octave(sharp(F), 4).to_string(), "F\u{266F}4");
    assert_eq!(octave(natural(A), 10).to_string(), "A10");
    assert_eq!(octave(natural(A), 0).to_string(), "A0");
    let notes = Notes(vec![octave(natural(C), 4), octave(flat(B), 3)]);
    assert_eq!(notes.to_string(), "C4, B\u{266D}3");
    assert_eq!(Notes(vec![]).to_string(), "");
}

#[test]
fn code_literals() {
    assert_eq!(flat(E).fmt_as_code(), "ees!()");
    assert_eq!(sharp(F).fmt_as_code(), "fis!()");
    assert_eq!(octave(natural(C), 4).fmt_as_code(), "c!(4)");
    assert_eq!(octave(pitch(G, DOUBLE_SHARP), 12).fmt_as_code(), "gisis!(12)");
    let notes = Notes(vec![octave(natural(C), 4), octave(flat(D), 4)]);
    assert_eq!(notes.fmt_as_code(), "[c!(4), des!(4)]");
    assert_eq!(Notes(vec![]).fmt_as_code(), "[]");
}

#[test]
fn pitches_drop_octaves_and_repeats() {
    let notes = Notes(vec![
        octave(natural(C), 4),
        octave(natural(C), 5),
        octave(sharp(C), 4),
        octave(natural(C), 3),
    ]);
    assert_eq!(pitches(&notes), vec![natural(C), sharp(C)]);
    assert_eq!(pitches(&Notes(vec![])), vec![]);
}

#[test]
fn pretty_pitches_sorted_by_letter_then_accidental() {
    let set = vec![natural(G), sharp(C), flat(E), natural(C), flat(C)];
    assert_eq!(pretty_pitches(&set), "C\u{266D}, C, C\u{266F}, E\u{266D}, G");
    assert_eq!(pretty_pitches(&vec![]), "");
}

#[test]
fn accidental_constants() {
    assert_eq!(pitch(C, DOUBLE_FLAT).accidentals, -2);
    assert_eq!(pitch(C, FLAT).accidentals, -1);
    assert_eq!(pitch(C, NATURAL).accidentals, 0);
    assert_eq!(pitch(C, SHARP).accidentals, 1);
    assert_eq!(pitch(C, DOUBLE_SHARP).accidentals, 2);
}

#[test]
fn stepping_below_octave_zero_is_an_error() {
    assert_eq!(octave(natural(C), 0).try_prev(1), Err(NoteError::OctaveUnderflow));
    assert_eq!(octave(natural(D), 0).try_prev(0), Ok(octave(pitch(C, DOUBLE_SHARP), 0)));
    assert_eq!(octave(natural(C), 4).try_prev(1), Ok(octave(natural(B), 3)));
    assert_eq!(
        octave(natural(C), 0).try_fall(Interval::Minor(Second)),
        Err(NoteError::OctaveUnderflow)
    );
    assert_eq!(
        octave(natural(B), 0).try_fall(Interval::Perfect(Octave)),
        Err(NoteError::OctaveUnderflow)
    );
    assert_eq!(
        octave(natural(D), 0).try_fall(Interval::Major(Second)),
        Ok(octave(natural(C), 0))
    );
    assert_eq!(
        octave(natural(C), 1).try_fall(Interval::Perfect(Octave)),
        Ok(octave(natural(C), 0))
    );
}

#[test]
fn accidentals_out_of_range_are_an_error() {
    assert_eq!(
        octave(pitch(D, i32::MAX), 4).try_prev(0),
        Err(NoteError::AccidentalOverflow)
    );
    assert_eq!(
        octave(pitch(C, i32::MIN), 4).try_fall(Interval::Augmented(AnyInterval::Perfect(Unison))),
        Err(NoteError::AccidentalOverflow)
    );
    assert_eq!(
        octave(pitch(B, i32::MAX), 4).try_fall(Interval::Perfect(Fifth)),
        Err(NoteError::AccidentalOverflow)
    );
    assert_eq!(
        octave(pitch(C, i32::MIN), 4).try_fall(Interval::Perfect(Fifth)),
        Ok(octave(pitch(F, i32::MIN), 3))
    );
}
