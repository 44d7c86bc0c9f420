use mml_core::mml::{parse, MMLError, Position};

const SUMM_SUMM_SUMM: &str = r#"
        {0 O5 L4 D C > B R }
        {1 O4 L8 A B < C > A G4 R4 }
        {2 $0 $1 }
        $2 [2 O4 L8 B < C D > B A B < C > A ] $2
    "#;

const KUCKUCK_KUCKUCK_RUFTS_AUS_DEM_WALD: &str = r#"
        T150%96{0GFGF2.}O5[2C>AR]$0GGAB-2GAAB-<[3C2>A]$0
    "#;

const MORGEN_KOMMT_DER_WEIHNACHTSMANN: &str = r#"
        T104
        {0
            L8
            FF<CC
            DDC4
            >B-B-AA
            G4FR
        }
        $0
        [2
            L8
            <CC>B-B-
            AAG4
        ]
        $0
    "#;

#[test]
fn mml_it_works() {
    let res1 = parse(SUMM_SUMM_SUMM);

    assert!(res1.is_ok(), "{:?}", res1);

    let res2 = parse(KUCKUCK_KUCKUCK_RUFTS_AUS_DEM_WALD);

    assert!(res2.is_ok(), "{:?}", res2);

    let res3 = parse(MORGEN_KOMMT_DER_WEIHNACHTSMANN);

    assert!(res3.is_ok(), "{:?}", res3);
}

fn pos(character: Option<char>, col: usize, row: usize) -> Position {
    Position { character, col, row }
}

// Walks a tone sequence and checks the structural invariants: the header
// shape, block ids counting up from zero, every duration in 1..=127, every
// note in 0..=127, every volume in 0..=100, and every block playback naming
// a block already closed.
fn check_tseq(t: &[u8]) {
    assert!(t.len() >= 6);
    assert_eq!(t[0], 0xFE);
    assert_eq!(t[1], 1);
    assert_eq!(t[2], 0xFD);
    assert!((5..=127).contains(&t[3]));
    assert_eq!(t[4], 0xFC);
    assert!((1..=127).contains(&t[5]));
    let mut i = 6;
    let mut closed_blocks: u8 = 0;
    let mut in_block = false;
    loop {
        if i >= t.len() {
            assert!(!in_block);
            break;
        }
        match t[i] {
            0xFB => {
                assert!(!in_block);
                assert_eq!(t[i + 1], closed_blocks);
                in_block = true;
                i += 2;
            }
            0xFA => {
                assert!(in_block);
                assert_eq!(t[i + 1], closed_blocks);
                closed_blocks += 1;
                in_block = false;
                i += 2;
            }
            0xFF => {
                assert!((1..=127).contains(&t[i + 1]), "rest duration in range");
                i += 2;
            }
            0xF9 => {
                assert!(t[i + 1] < closed_blocks, "playback of a closed block only");
                i += 2;
            }
            0xF8 => {
                assert!(t[i + 1] <= 100, "volume in range");
                i += 2;
            }
            0xF7 => {
                assert!((2..=127).contains(&t[i + 1]), "multiplier in range");
                assert!(t[i + 2] <= 127 || t[i + 2] == 0xFF, "repeat body is a tone");
                assert!((1..=127).contains(&t[i + 3]), "repeat duration in range");
                i += 4;
            }
            note => {
                assert!(note <= 127, "note in range");
                assert!((1..=127).contains(&t[i + 1]), "note duration in range");
                i += 2;
            }
        }
    }
}

#[test]
fn parsed_bytecode_is_well_formed() {
    for src in [
        SUMM_SUMM_SUMM,
        KUCKUCK_KUCKUCK_RUFTS_AUS_DEM_WALD,
        MORGEN_KOMMT_DER_WEIHNACHTSMANN,
        "{0 C}{1 $0 D}$1 $0 V50 N(17) R2. [4 C+ D-]",
        "{0 [2 C]}$0 [2 [3 C] R]",
    ] {
        let t = parse(src).unwrap();
        check_tseq(&t);
    }
}

#[test]
fn tempo_boundaries() {
    assert!(parse("T20 C").is_ok());
    assert!(parse("T508 C").is_ok());
    assert_eq!(
        parse("T19 C"),
        Err(MMLError::InvalidTempo(pos(Some(' '), 4, 1)))
    );
    assert_eq!(
        parse("T509C"),
        Err(MMLError::InvalidTempo(pos(Some('C'), 5, 1)))
    );
}

#[test]
fn resolution_boundaries() {
    assert!(parse("%1 C").is_ok());
    assert!(parse("%127 C").is_ok());
    assert_eq!(
        parse("%0 C"),
        Err(MMLError::InvalidResolution(pos(Some(' '), 3, 1)))
    );
    assert_eq!(
        parse("%128C"),
        Err(MMLError::InvalidResolution(pos(Some('C'), 5, 1)))
    );
}

#[test]
fn repeat_folding_single_note_body() {
    // a single-note body folds into the compact four-byte repeat record
    let t = parse("[3 C]").unwrap();
    assert_eq!(t, vec![0xFE, 1, 0xFD, 30, 0xFC, 64, 0xF7, 3, 60, 16]);
}

#[test]
fn repeat_two_note_body_is_copied_not_folded() {
    let t = parse("[3 C D]").unwrap();
    // header, then the two-note body copied out three times
    assert_eq!(t.len(), 6 + 3 * 4);
    assert_ne!(t[6], 0xF7);
    assert_eq!(&t[6..], &[60, 16, 62, 16, 60, 16, 62, 16, 60, 16, 62, 16]);
}

#[test]
fn block_body_character_error_is_positioned() {
    assert_eq!(
        parse("{0 BADCHAR}"),
        Err(MMLError::InvalidCharacter(pos(Some('H'), 8, 1)))
    );
}

#[test]
fn whitespace_only_input_is_empty_sequence() {
    assert_eq!(
        parse("   "),
        Err(MMLError::EmptySequence(pos(None, 4, 1)))
    );
}

#[test]
fn newline_starts_a_new_row() {
    // the character after a newline is reported on the next row
    assert_eq!(
        parse("C\nX"),
        Err(MMLError::InvalidCharacter(pos(Some('X'), 2, 2)))
    );
}

#[test]
fn octave_shifts_are_inverted() {
    // `<` raises the baseline by an octave, `>` lowers it
    let up = parse("<C").unwrap();
    assert_eq!(&up[6..], &[72, 16]);
    let down = parse(">C").unwrap();
    assert_eq!(&down[6..], &[48, 16]);
    let abs = parse("O5C").unwrap();
    assert_eq!(&abs[6..], &[72, 16]);
    let neg = parse("O-1C").unwrap();
    assert_eq!(&neg[6..], &[0, 16]);
}

#[test]
fn accidentals_and_durations() {
    let t = parse("C+8 D-2. E(100)").unwrap();
    // resolution 64: 64/8 = 8 ticks; 64/2 + 64/4 = 48 ticks; raw 100 ticks
    assert_eq!(&t[6..], &[61, 8, 61, 48, 64, 100]);
}

#[test]
fn numbered_note_and_volume() {
    let t = parse("V50 N(17)4").unwrap();
    assert_eq!(&t[6..], &[0xF8, 50, 17, 16]);
}

#[test]
fn number_overflow_sentinel_leaves_digit_unconsumed() {
    // 1009 exceeds 1000 while scanning `10090`, so the read stops at the
    // offending digit and the final `0` is left in place as the error
    // position shows
    assert_eq!(
        parse("T10090"),
        Err(MMLError::InvalidTempo(pos(Some('9'), 5, 1)))
    );
}

#[test]
fn error_variants_are_reported() {
    assert!(matches!(parse("{x C}"), Err(MMLError::InvalidBlockId(_))));
    assert!(matches!(parse("{1 C}"), Err(MMLError::InvalidBlockId(_))));
    assert!(matches!(parse("{0 O5}"), Err(MMLError::InvalidBlock(_))));
    assert!(matches!(parse("{0 C"), Err(MMLError::InvalidBlockEnd(_))));
    assert!(matches!(parse("Ox"), Err(MMLError::InvalidChangeOctave(_))));
    assert!(matches!(parse("Q"), Err(MMLError::InvalidCharacter(_))));
    assert!(matches!(
        parse(">>>>>>C"),
        Err(MMLError::InvalidDecreaseOctave(_))
    ));
    assert!(matches!(
        parse("<<<<<<C"),
        Err(MMLError::InvalidIncreaseOctave(_))
    ));
    assert!(matches!(
        parse("Lx"),
        Err(MMLError::InvalidDefaultDurationValue(_))
    ));
    assert!(matches!(parse("C(x)"), Err(MMLError::InvalidDuration(_))));
    assert!(matches!(parse("C(200)"), Err(MMLError::InvalidDuration(_))));
    assert!(matches!(parse("C(5x"), Err(MMLError::InvalidDurationEnd(_))));
    assert!(matches!(parse("C0"), Err(MMLError::InvalidLength(_))));
    assert!(matches!(parse("C(0)"), Err(MMLError::InvalidLength(_))));
    assert!(matches!(parse("O9B"), Err(MMLError::InvalidNote(_))));
    assert!(matches!(parse("O-1C-"), Err(MMLError::InvalidNote(_))));
    assert!(matches!(parse("N(x)"), Err(MMLError::InvalidNoteValue(_))));
    assert!(matches!(
        parse("N(200)"),
        Err(MMLError::InvalidNoteValue(_))
    ));
    assert!(matches!(
        parse("N(5x"),
        Err(MMLError::InvalidNoteValueEnd(_))
    ));
    assert!(matches!(
        parse("Nx"),
        Err(MMLError::InvalidNoteValueStart(_))
    ));
    assert!(matches!(parse("O99C"), Err(MMLError::InvalidOctaveValue(_))));
    assert!(matches!(parse("O-xC"), Err(MMLError::InvalidOctaveValue(_))));
    assert!(matches!(parse("$0"), Err(MMLError::InvalidPlayBlockId(_))));
    assert!(matches!(parse("$x"), Err(MMLError::InvalidPlayBlockId(_))));
    assert!(matches!(parse("[x]"), Err(MMLError::InvalidRepeat(_))));
    assert!(matches!(parse("[2]"), Err(MMLError::InvalidRepeat(_))));
    assert!(matches!(parse("[2C"), Err(MMLError::InvalidRepeatEnd(_))));
    assert!(matches!(
        parse("[1C]"),
        Err(MMLError::InvalidRepeatNumber(_))
    ));
    assert!(matches!(parse("V101C"), Err(MMLError::InvalidVolume(_))));
    assert!(matches!(parse("Vx"), Err(MMLError::InvalidVolume(_))));
    assert!(matches!(parse("C}"), Err(MMLError::UnexpectedRemains(_))));
}
