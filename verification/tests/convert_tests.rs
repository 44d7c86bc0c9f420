use mml_core::{convert, Category, Instrument, MMLError};

const SUMM_SUMM_SUMM: &str = r#"
        {0 O5 L4 D C > B R }
        {1 O4 L8 A B < C > A G4 R4 }
        {2 $0 $1 }
        $2 [2 O4 L8 B < C D > B A B < C > A ] $2
    "#;

const KUCKUCK_KUCKUCK_RUFTS_AUS_DEM_WALD: &str = r#"
        T150%96{0GFGF2.}O5[2C>AR]$0GGAB-2GAAB-<[3C2>A]$0
    "#;

const MORGEN_KOMMT_DER_WEIHNACHTSMANN: &str = r#"
        T104
        {0
            L8
            FF<CC
            DDC4
            >B-B-AA
            G4FR
        }
        $0
        [2
            L8
            <CC>B-B-
            AAG4
        ]
        $0
    "#;

#[test]
fn lib_it_works() {
    let inst = Instrument::AcousticGrandPiano;

    let res1 = convert(SUMM_SUMM_SUMM, inst);
    assert!(res1.is_ok(), "{:?}", res1);

    let res2 = convert(KUCKUCK_KUCKUCK_RUFTS_AUS_DEM_WALD, inst);
    assert!(res2.is_ok(), "{:?}", res2);

    let res3 = convert(MORGEN_KOMMT_DER_WEIHNACHTSMANN, inst);
    assert!(res3.is_ok(), "{:?}", res3);

    let inst = Instrument::Gunshot;

    let res1 = convert(SUMM_SUMM_SUMM, inst);
    assert!(res1.is_ok(), "{:?}", res1);

    let res2 = convert(KUCKUCK_KUCKUCK_RUFTS_AUS_DEM_WALD, inst);
    assert!(res2.is_ok(), "{:?}", res2);

    let res3 = convert(MORGEN_KOMMT_DER_WEIHNACHTSMANN, inst);
    assert!(res3.is_ok(), "{:?}", res3);
}

// Checks the SMF container shape: MThd, format 0, one track, MTrk with a
// length field that matches the buffer.
fn check_smf(buf: &[u8]) {
    assert_eq!(&buf[0..4], b"MThd");
    assert_eq!(&buf[4..8], &[0, 0, 0, 6]);
    assert_eq!(&buf[8..10], &[0, 0], "format 0");
    assert_eq!(&buf[10..12], &[0, 1], "exactly one track");
    assert_eq!(&buf[14..18], b"MTrk");
    let track_len = u32::from_be_bytes([buf[18], buf[19], buf[20], buf[21]]) as usize;
    assert_eq!(buf.len(), 22 + track_len);
    assert_eq!(&buf[buf.len() - 4..], &[0, 0xFF, 0x2F, 0x00], "end of track");
}

#[test]
fn accepted_inputs_yield_single_track_smf() {
    for src in [
        SUMM_SUMM_SUMM,
        KUCKUCK_KUCKUCK_RUFTS_AUS_DEM_WALD,
        MORGEN_KOMMT_DER_WEIHNACHTSMANN,
        "C",
        "[3 C]",
        "V100 R O1 A-1.",
    ] {
        let buf = convert(src, Instrument::Violin).unwrap();
        check_smf(&buf);
    }
}

#[test]
fn kuckuck_scenario_converts() {
    let buf = convert("T150%96{0GFGF2.}O5[2C>AR]$0", Instrument::AcousticGrandPiano).unwrap();
    check_smf(&buf);
    // resolution 96 gives a division of 24; tempo 150 is carried in
    // quarters, so it decodes to 148 beats per minute
    assert_eq!(&buf[12..14], &[0, 24]);
    let usec = 60_000_000 / 148u32;
    assert_eq!(
        &buf[22..32],
        &[
            0,
            0xFF,
            0x51,
            0x03,
            (usec >> 16) as u8,
            (usec >> 8) as u8,
            usec as u8,
            0,
            0xC0,
            0
        ]
    );
}

#[test]
fn convert_is_deterministic() {
    for src in [SUMM_SUMM_SUMM, KUCKUCK_KUCKUCK_RUFTS_AUS_DEM_WALD, "C D E"] {
        let a = convert(src, Instrument::Ocarina).unwrap();
        let b = convert(src, Instrument::Ocarina).unwrap();
        assert_eq!(a, b);
    }
}

#[test]
fn exact_buffer_with_running_status_and_long_delta() {
    // two rests accumulate a delta of 254 ticks, which takes a two-byte
    // variable-length quantity; the single note then plays at velocity 127
    let buf = convert("R(127)R(127)C(10)", Instrument::AcousticGrandPiano).unwrap();
    let expected: Vec<u8> = vec![
        0x4D, 0x54, 0x68, 0x64, // MThd
        0, 0, 0, 6, // header length
        0, 0, // format 0
        0, 1, // one track
        0, 16, // division: resolution 64 over 4
        0x4D, 0x54, 0x72, 0x6B, // MTrk
        0, 0, 0, 22, // track length
        0, 0xFF, 0x51, 0x03, 0x07, 0xA1, 0x20, // set tempo: 500000 us per beat
        0, 0xC0, 0,    // program change
        0x81, 0x7E, // delta 254 as a two-byte quantity
        0x90, 60, 127, // note on
        10, 60, 0, // note off after 10 ticks, running status
        0, 0xFF, 0x2F, 0x00, // end of track
    ];
    assert_eq!(buf, expected);
}

#[test]
fn running_status_elides_second_note_on() {
    let buf = convert("CC", Instrument::AcousticGrandPiano).unwrap();
    let track = &buf[32..buf.len() - 4];
    assert_eq!(
        track,
        &[0, 0x90, 60, 127, 16, 60, 0, 0, 60, 127, 16, 60, 0]
    );
}

#[test]
fn volume_scales_velocity() {
    let buf = convert("V50C", Instrument::AcousticGrandPiano).unwrap();
    let track = &buf[32..buf.len() - 4];
    // 127 * 50 / 100 = 63
    assert_eq!(track, &[0, 0x90, 60, 63, 16, 60, 0]);
}

#[test]
fn compact_repeat_plays_thrice() {
    let buf = convert("[3C8]", Instrument::AcousticGrandPiano).unwrap();
    let track = &buf[32..buf.len() - 4];
    assert_eq!(
        track,
        &[0, 0x90, 60, 127, 8, 60, 0, 0, 60, 127, 8, 60, 0, 0, 60, 127, 8, 60, 0]
    );
}

#[test]
fn silence_repeat_folds_into_delta() {
    // a folded repeat of rests only accumulates delta time: 3 * 32 + 16
    let buf = convert("[3R2]C", Instrument::AcousticGrandPiano).unwrap();
    let track = &buf[32..buf.len() - 4];
    assert_eq!(track, &[96, 0x90, 60, 127, 16, 60, 0]);
}

#[test]
fn program_number_is_instrument_minus_one() {
    let buf = convert("C", Instrument::Gunshot).unwrap();
    assert_eq!(buf[31], 127);
    let buf = convert("C", Instrument::AcousticGrandPiano).unwrap();
    assert_eq!(buf[31], 0);
}

#[test]
fn conversion_fails_exactly_when_parsing_fails() {
    assert!(matches!(
        convert("T19C", Instrument::Violin),
        Err(MMLError::InvalidTempo(_))
    ));
    assert!(matches!(
        convert("  ", Instrument::Violin),
        Err(MMLError::EmptySequence(_))
    ));
}

#[test]
fn inst_it_works() {
    assert_eq!(Instrument::AcousticGrandPiano.number(), 1);
    assert_eq!(Instrument::OrchestraHit.number(), 56);
    assert_eq!(Instrument::TinkleBell.number(), 113);
    assert_eq!(Instrument::Gunshot.number(), 128);

    assert_eq!(Instrument::AcousticGrandPiano.category(), Category::Piano);
    assert_eq!(Instrument::OrchestraHit.category(), Category::Ensemble);
    assert_eq!(Instrument::TinkleBell.category(), Category::Percussive);
    assert_eq!(Instrument::Gunshot.category(), Category::SoundEffects);

    assert_eq!(
        Category::Piano.instruments(),
        vec![
            Instrument::AcousticGrandPiano,
            Instrument::BrightAcousticPiano,
            Instrument::ElectricGrandPiano,
            Instrument::HonkyTonkPiano,
            Instrument::ElectricPiano1,
            Instrument::ElectricPiano2,
            Instrument::Harpsichord,
            Instrument::Clavinet,
        ]
    );
    assert_eq!(
        Category::SoundEffects.instruments(),
        vec![
            Instrument::GuitarFretNoise,
            Instrument::BreathNoise,
            Instrument::Seashore,
            Instrument::BirdTweet,
            Instrument::TelephoneRing,
            Instrument::Helicopter,
            Instrument::Applause,
            Instrument::Gunshot,
        ]
    );
}
