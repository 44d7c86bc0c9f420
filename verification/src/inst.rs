//! The General MIDI instrument catalog: the 128 instruments, their
//! categories, and the 1-based numbering that gives each instrument its
//! program number.

use vstd::prelude::*;

verus! {

/// The 128 General MIDI instruments, numbered 1..=128 by [`inst_num`].
#[derive(Debug, Clone, Copy, PartialEq, Eq)]
pub enum Instrument {
    AcousticGrandPiano,
    BrightAcousticPiano,
    ElectricGrandPiano,
    HonkyTonkPiano,
    ElectricPiano1,
    ElectricPiano2,
    Harpsichord,
    Clavinet,
    Celesta,
    Glockenspiel,
    MusicBox,
    Vibraphone,
    Marimba,
    Xylophone,
    TubularBells,
    Dulcimer,
    DrawbarOrgan,
    PercussiveOrgan,
    RockOrgan,
    ChurchOrgan,
    ReedOrgan,
    Accordion,
    Harmonica,
    TangoAccordion,
    AcousticGuitarNylon,
    AcousticGuitarSteel,
    ElectricGuitarJazz,
    ElectricGuitarClean,
    ElectricGuitarMuted,
    ElectricGuitarOverdriven,
    ElectricGuitarDistortion,
    ElectricGuitarHarmonics,
    AcousticBass,
    ElectricBassFinger,
    ElectricBassPicked,
    FretlessBass,
    SlapBass1,
    SlapBass2,
    SynthBass1,
    SynthBass2,
    Violin,
    Viola,
    Cello,
    Contrabass,
    TremoloStrings,
    PizzicatoStrings,
    OrchestralHarp,
    Timpani,
    StringEnsemble1,
    StringEnsemble2,
    SynthStrings1,
    SynthStrings2,
    ChoirAahs,
    VoiceOohs,
    SynthVoice,
    OrchestraHit,
    Trumpet,
    Trombone,
    Tuba,
    MutedTrumpet,
    FrenchHorn,
    BrassSection,
    SynthBrass1,
    SynthBrass2,
    SopranoSax,
    AltoSax,
    TenorSax,
    BaritoneSax,
    Oboe,
    EnglishHorn,
    Bassoon,
    Clarinet,
    Piccolo,
    Flute,
    Recorder,
    PanFlute,
    BlownBottle,
    Shakuhachi,
    Whistle,
    Ocarina,
    Lead1Square,
    Lead2Sawtooth,
    Lead3Calliope,
    Lead4Chiff,
    Lead5Charang,
    Lead6SpaceVoice,
    Lead7Fifths,
    Lead8BassAndLead,
    Pad1NewAge,
    Pad2Warm,
    Pad3Polysynth,
    Pad4Choir,
    Pad5Bowed,
    Pad6Metallic,
    Pad7Halo,
    Pad8Sweep,
    FX1Rain,
    FX2Soundtrack,
    FX3Crystal,
    FX4Atmosphere,
    FX5Brightness,
    FX6Goblins,
    FX7Echoes,
    FX8SciFi,
    Sitar,
    Banjo,
    Shamisen,
    Koto,
    Kalimba,
    BagPipe,
    Fiddle,
    Shanai,
    TinkleBell,
    Agogo,
    SteelDrums,
    Woodblock,
    TaikoDrum,
    MelodicTom,
    SynthDrum,
    ReverseCymbal,
    GuitarFretNoise,
    BreathNoise,
    Seashore,
    BirdTweet,
    TelephoneRing,
    Helicopter,
    Applause,
    Gunshot,
}

/// The sixteen instrument categories, numbered 1..=16 by [`cat_num`], eight
/// instruments each.
#[derive(Debug, Clone, Copy, PartialEq, Eq)]
pub enum Category {
    Piano,
    ChromaticPrecussion,
    Organ,
    Guitar,
    Bass,
    Strings,
    Ensemble,
    Brass,
    Reed,
    Pipe,
    SynthLead,
    SynthPad,
    SynthEffects,
    Ethnic,
    Percussive,
    SoundEffects,
}

/// The 1-based number of an instrument: its General MIDI program number
/// plus one.
pub open spec fn inst_num(i: Instrument) -> int {
    match i {
        Instrument::AcousticGrandPiano => 1,
        Instrument::BrightAcousticPiano => 2,
        Instrument::ElectricGrandPiano => 3,
        Instrument::HonkyTonkPiano => 4,
        Instrument::ElectricPiano1 => 5,
        Instrument::ElectricPiano2 => 6,
        Instrument::Harpsichord => 7,
        Instrument::Clavinet => 8,
        Instrument::Celesta => 9,
        Instrument::Glockenspiel => 10,
        Instrument::MusicBox => 11,
        Instrument::Vibraphone => 12,
        Instrument::Marimba => 13,
        Instrument::Xylophone => 14,
        Instrument::TubularBells => 15,
        Instrument::Dulcimer => 16,
        Instrument::DrawbarOrgan => 17,
        Instrument::PercussiveOrgan => 18,
        Instrument::RockOrgan => 19,
        Instrument::ChurchOrgan => 20,
        Instrument::ReedOrgan => 21,
        Instrument::Accordion => 22,
        Instrument::Harmonica => 23,
        Instrument::TangoAccordion => 24,
        Instrument::AcousticGuitarNylon => 25,
        Instrument::AcousticGuitarSteel => 26,
        Instrument::ElectricGuitarJazz => 27,
        Instrument::ElectricGuitarClean => 28,
        Instrument::ElectricGuitarMuted => 29,
        Instrument::ElectricGuitarOverdriven => 30,
        Instrument::ElectricGuitarDistortion => 31,
        Instrument::ElectricGuitarHarmonics => 32,
        Instrument::AcousticBass => 33,
        Instrument::ElectricBassFinger => 34,
        Instrument::ElectricBassPicked => 35,
        Instrument::FretlessBass => 36,
        Instrument::SlapBass1 => 37,
        Instrument::SlapBass2 => 38,
        Instrument::SynthBass1 => 39,
        Instrument::SynthBass2 => 40,
        Instrument::Violin => 41,
        Instrument::Viola => 42,
        Instrument::Cello => 43,
        Instrument::Contrabass => 44,
        Instrument::TremoloStrings => 45,
        Instrument::PizzicatoStrings => 46,
        Instrument::OrchestralHarp => 47,
        Instrument::Timpani => 48,
        Instrument::StringEnsemble1 => 49,
        Instrument::StringEnsemble2 => 50,
        Instrument::SynthStrings1 => 51,
        Instrument::SynthStrings2 => 52,
        Instrument::ChoirAahs => 53,
        Instrument::VoiceOohs => 54,
        Instrument::SynthVoice => 55,
        Instrument::OrchestraHit => 56,
        Instrument::Trumpet => 57,
        Instrument::Trombone => 58,
        Instrument::Tuba => 59,
        Instrument::MutedTrumpet => 60,
        Instrument::FrenchHorn => 61,
        Instrument::BrassSection => 62,
        Instrument::SynthBrass1 => 63,
        Instrument::SynthBrass2 => 64,
        Instrument::SopranoSax => 65,
        Instrument::AltoSax => 66,
        Instrument::TenorSax => 67,
        Instrument::BaritoneSax => 68,
        Instrument::Oboe => 69,
        Instrument::EnglishHorn => 70,
        Instrument::Bassoon => 71,
        Instrument::Clarinet => 72,
        Instrument::Piccolo => 73,
        Instrument::Flute => 74,
        Instrument::Recorder => 75,
        Instrument::PanFlute => 76,
        Instrument::BlownBottle => 77,
        Instrument::Shakuhachi => 78,
        Instrument::Whistle => 79,
        Instrument::Ocarina => 80,
        Instrument::Lead1Square => 81,
        Instrument::Lead2Sawtooth => 82,
        Instrument::Lead3Calliope => 83,
        Instrument::Lead4Chiff => 84,
        Instrument::Lead5Charang => 85,
        Instrument::Lead6SpaceVoice => 86,
        Instrument::Lead7Fifths => 87,
        Instrument::Lead8BassAndLead => 88,
        Instrument::Pad1NewAge => 89,
        Instrument::Pad2Warm => 90,
        Instrument::Pad3Polysynth => 91,
        Instrument::Pad4Choir => 92,
        Instrument::Pad5Bowed => 93,
        Instrument::Pad6Metallic => 94,
        Instrument::Pad7Halo => 95,
        Instrument::Pad8Sweep => 96,
        Instrument::FX1Rain => 97,
        Instrument::FX2Soundtrack => 98,
        Instrument::FX3Crystal => 99,
        Instrument::FX4Atmosphere => 100,
        Instrument::FX5Brightness => 101,
        Instrument::FX6Goblins => 102,
        Instrument::FX7Echoes => 103,
        Instrument::FX8SciFi => 104,
        Instrument::Sitar => 105,
        Instrument::Banjo => 106,
        Instrument::Shamisen => 107,
        Instrument::Koto => 108,
        Instrument::Kalimba => 109,
        Instrument::BagPipe => 110,
        Instrument::Fiddle => 111,
        Instrument::Shanai => 112,
        Instrument::TinkleBell => 113,
        Instrument::Agogo => 114,
        Instrument::SteelDrums => 115,
        Instrument::Woodblock => 116,
        Instrument::TaikoDrum => 117,
        Instrument::MelodicTom => 118,
        Instrument::SynthDrum => 119,
        Instrument::ReverseCymbal => 120,
        Instrument::GuitarFretNoise => 121,
        Instrument::BreathNoise => 122,
        Instrument::Seashore => 123,
        Instrument::BirdTweet => 124,
        Instrument::TelephoneRing => 125,
        Instrument::Helicopter => 126,
        Instrument::Applause => 127,
        Instrument::Gunshot => 128,
    }
}

/// The 1-based number of a category.
pub open spec fn cat_num(c: Category) -> int {
    match c {
        Category::Piano => 1,
        Category::ChromaticPrecussion => 2,
        Category::Organ => 3,
        Category::Guitar => 4,
        Category::Bass => 5,
        Category::Strings => 6,
        Category::Ensemble => 7,
        Category::Brass => 8,
        Category::Reed => 9,
        Category::Pipe => 10,
        Category::SynthLead => 11,
        Category::SynthPad => 12,
        Category::SynthEffects => 13,
        Category::Ethnic => 14,
        Category::Percussive => 15,
        Category::SoundEffects => 16,
    }
}

impl Instrument {
    /// This instrument's 1-based number.
    pub fn number(self) -> (n: u8)
        ensures
            n as int == inst_num(self),
            1 <= n <= 128,
    {
        match self {
            Instrument::AcousticGrandPiano => 1,
            Instrument::BrightAcousticPiano => 2,
            Instrument::ElectricGrandPiano => 3,
            Instrument::HonkyTonkPiano => 4,
            Instrument::ElectricPiano1 => 5,
            Instrument::ElectricPiano2 => 6,
            Instrument::Harpsichord => 7,
            Instrument::Clavinet => 8,
            Instrument::Celesta => 9,
            Instrument::Glockenspiel => 10,
            Instrument::MusicBox => 11,
            Instrument::Vibraphone => 12,
            Instrument::Marimba => 13,
            Instrument::Xylophone => 14,
            Instrument::TubularBells => 15,
            Instrument::Dulcimer => 16,
            Instrument::DrawbarOrgan => 17,
            Instrument::PercussiveOrgan => 18,
            Instrument::RockOrgan => 19,
            Instrument::ChurchOrgan => 20,
            Instrument::ReedOrgan => 21,
            Instrument::Accordion => 22,
            Instrument::Harmonica => 23,
            Instrument::TangoAccordion => 24,
            Instrument::AcousticGuitarNylon => 25,
            Instrument::AcousticGuitarSteel => 26,
            Instrument::ElectricGuitarJazz => 27,
            Instrument::ElectricGuitarClean => 28,
            Instrument::ElectricGuitarMuted => 29,
            Instrument::ElectricGuitarOverdriven => 30,
            Instrument::ElectricGuitarDistortion => 31,
            Instrument::ElectricGuitarHarmonics => 32,
            Instrument::AcousticBass => 33,
            Instrument::ElectricBassFinger => 34,
            Instrument::ElectricBassPicked => 35,
            Instrument::FretlessBass => 36,
            Instrument::SlapBass1 => 37,
            Instrument::SlapBass2 => 38,
            Instrument::SynthBass1 => 39,
            Instrument::SynthBass2 => 40,
            Instrument::Violin => 41,
            Instrument::Viola => 42,
            Instrument::Cello => 43,
            Instrument::Contrabass => 44,
            Instrument::TremoloStrings => 45,
            Instrument::PizzicatoStrings => 46,
            Instrument::OrchestralHarp => 47,
            Instrument::Timpani => 48,
            Instrument::StringEnsemble1 => 49,
            Instrument::StringEnsemble2 => 50,
            Instrument::SynthStrings1 => 51,
            Instrument::SynthStrings2 => 52,
            Instrument::ChoirAahs => 53,
            Instrument::VoiceOohs => 54,
            Instrument::SynthVoice => 55,
            Instrument::OrchestraHit => 56,
            Instrument::Trumpet => 57,
            Instrument::Trombone => 58,
            Instrument::Tuba => 59,
            Instrument::MutedTrumpet => 60,
            Instrument::FrenchHorn => 61,
            Instrument::BrassSection => 62,
            Instrument::SynthBrass1 => 63,
            Instrument::SynthBrass2 => 64,
            Instrument::SopranoSax => 65,
            Instrument::AltoSax => 66,
            Instrument::TenorSax => 67,
            Instrument::BaritoneSax => 68,
            Instrument::Oboe => 69,
            Instrument::EnglishHorn => 70,
            Instrument::Bassoon => 71,
            Instrument::Clarinet => 72,
            Instrument::Piccolo => 73,
            Instrument::Flute => 74,
            Instrument::Recorder => 75,
            Instrument::PanFlute => 76,
            Instrument::BlownBottle => 77,
            Instrument::Shakuhachi => 78,
            Instrument::Whistle => 79,
            Instrument::Ocarina => 80,
            Instrument::Lead1Square => 81,
            Instrument::Lead2Sawtooth => 82,
            Instrument::Lead3Calliope => 83,
            Instrument::Lead4Chiff => 84,
            Instrument::Lead5Charang => 85,
            Instrument::Lead6SpaceVoice => 86,
            Instrument::Lead7Fifths => 87,
            Instrument::Lead8BassAndLead => 88,
            Instrument::Pad1NewAge => 89,
            Instrument::Pad2Warm => 90,
            Instrument::Pad3Polysynth => 91,
            Instrument::Pad4Choir => 92,
            Instrument::Pad5Bowed => 93,
            Instrument::Pad6Metallic => 94,
            Instrument::Pad7Halo => 95,
            Instrument::Pad8Sweep => 96,
            Instrument::FX1Rain => 97,
            Instrument::FX2Soundtrack => 98,
            Instrument::FX3Crystal => 99,
            Instrument::FX4Atmosphere => 100,
            Instrument::FX5Brightness => 101,
            Instrument::FX6Goblins => 102,
            Instrument::FX7Echoes => 103,
            Instrument::FX8SciFi => 104,
            Instrument::Sitar => 105,
            Instrument::Banjo => 106,
            Instrument::Shamisen => 107,
            Instrument::Koto => 108,
            Instrument::Kalimba => 109,
            Instrument::BagPipe => 110,
            Instrument::Fiddle => 111,
            Instrument::Shanai => 112,
            Instrument::TinkleBell => 113,
            Instrument::Agogo => 114,
            Instrument::SteelDrums => 115,
            Instrument::Woodblock => 116,
            Instrument::TaikoDrum => 117,
            Instrument::MelodicTom => 118,
            Instrument::SynthDrum => 119,
            Instrument::ReverseCymbal => 120,
            Instrument::GuitarFretNoise => 121,
            Instrument::BreathNoise => 122,
            Instrument::Seashore => 123,
            Instrument::BirdTweet => 124,
            Instrument::TelephoneRing => 125,
            Instrument::Helicopter => 126,
            Instrument::Applause => 127,
            Instrument::Gunshot => 128,
        }
    }

    /// The category this instrument belongs to: instruments come in runs of
    /// eight per category, in numbering order.
    pub fn category(self) -> (c: Category)
        ensures
            cat_num(c) == (inst_num(self) - 1) / 8 + 1,
    {
        let n = self.number();
        let group = (n - 1) / 8;
        if group == 0 {
            Category::Piano
        } else if group == 1 {
            Category::ChromaticPrecussion
        } else if group == 2 {
            Category::Organ
        } else if group == 3 {
            Category::Guitar
        } else if group == 4 {
            Category::Bass
        } else if group == 5 {
            Category::Strings
        } else if group == 6 {
            Category::Ensemble
        } else if group == 7 {
            Category::Brass
        } else if group == 8 {
            Category::Reed
        } else if group == 9 {
            Category::Pipe
        } else if group == 10 {
            Category::SynthLead
        } else if group == 11 {
            Category::SynthPad
        } else if group == 12 {
            Category::SynthEffects
        } else if group == 13 {
            Category::Ethnic
        } else if group == 14 {
            Category::Percussive
        } else {
            Category::SoundEffects
        }
    }
}

impl Category {
    /// This category's 1-based number.
    pub fn number(self) -> (n: u8)
        ensures
            n as int == cat_num(self),
            1 <= n <= 16,
    {
        match self {
            Category::Piano => 1,
            Category::ChromaticPrecussion => 2,
            Category::Organ => 3,
            Category::Guitar => 4,
            Category::Bass => 5,
            Category::Strings => 6,
            Category::Ensemble => 7,
            Category::Brass => 8,
            Category::Reed => 9,
            Category::Pipe => 10,
            Category::SynthLead => 11,
            Category::SynthPad => 12,
            Category::SynthEffects => 13,
            Category::Ethnic => 14,
            Category::Percussive => 15,
            Category::SoundEffects => 16,
        }
    }

    /// The eight instruments of this category, in numbering order.
    pub fn instruments(self) -> (r: Vec<Instrument>)
        ensures
            r@.len() == 8,
            forall|j: int|
                0 <= j < 8 ==> inst_num(#[trigger] r@[j]) == (cat_num(self) - 1) * 8 + j + 1,
    {
        let mut v: Vec<Instrument> = Vec::new();
        match self {
            Category::Piano => {
                v.push(Instrument::AcousticGrandPiano);
                v.push(Instrument::BrightAcousticPiano);
                v.push(Instrument::ElectricGrandPiano);
                v.push(Instrument::HonkyTonkPiano);
                v.push(Instrument::ElectricPiano1);
                v.push(Instrument::ElectricPiano2);
                v.push(Instrument::Harpsichord);
                v.push(Instrument::Clavinet);
            },
            Category::ChromaticPrecussion => {
                v.push(Instrument::Celesta);
                v.push(Instrument::Glockenspiel);
                v.push(Instrument::MusicBox);
                v.push(Instrument::Vibraphone);
                v.push(Instrument::Marimba);
                v.push(Instrument::Xylophone);
                v.push(Instrument::TubularBells);
                v.push(Instrument::Dulcimer);
            },
            Category::Organ => {
                v.push(Instrument::DrawbarOrgan);
                v.push(Instrument::PercussiveOrgan);
                v.push(Instrument::RockOrgan);
                v.push(Instrument::ChurchOrgan);
                v.push(Instrument::ReedOrgan);
                v.push(Instrument::Accordion);
                v.push(Instrument::Harmonica);
                v.push(Instrument::TangoAccordion);
            },
            Category::Guitar => {
                v.push(Instrument::AcousticGuitarNylon);
                v.push(Instrument::AcousticGuitarSteel);
                v.push(Instrument::ElectricGuitarJazz);
                v.push(Instrument::ElectricGuitarClean);
                v.push(Instrument::ElectricGuitarMuted);
                v.push(Instrument::ElectricGuitarOverdriven);
                v.push(Instrument::ElectricGuitarDistortion);
                v.push(Instrument::ElectricGuitarHarmonics);
            },
            Category::Bass => {
                v.push(Instrument::AcousticBass);
                v.push(Instrument::ElectricBassFinger);
                v.push(Instrument::ElectricBassPicked);
                v.push(Instrument::FretlessBass);
                v.push(Instrument::SlapBass1);
                v.push(Instrument::SlapBass2);
                v.push(Instrument::SynthBass1);
                v.push(Instrument::SynthBass2);
            },
            Category::Strings => {
                v.push(Instrument::Violin);
                v.push(Instrument::Viola);
                v.push(Instrument::Cello);
                v.push(Instrument::Contrabass);
                v.push(Instrument::TremoloStrings);
                v.push(Instrument::PizzicatoStrings);
                v.push(Instrument::OrchestralHarp);
                v.push(Instrument::Timpani);
            },
            Category::Ensemble => {
                v.push(Instrument::StringEnsemble1);
                v.push(Instrument::StringEnsemble2);
                v.push(Instrument::SynthStrings1);
                v.push(Instrument::SynthStrings2);
                v.push(Instrument::ChoirAahs);
                v.push(Instrument::VoiceOohs);
                v.push(Instrument::SynthVoice);
                v.push(Instrument::OrchestraHit);
            },
            Category::Brass => {
                v.push(Instrument::Trumpet);
                v.push(Instrument::Trombone);
                v.push(Instrument::Tuba);
                v.push(Instrument::MutedTrumpet);
                v.push(Instrument::FrenchHorn);
                v.push(Instrument::BrassSection);
                v.push(Instrument::SynthBrass1);
                v.push(Instrument::SynthBrass2);
            },
            Category::Reed => {
                v.push(Instrument::SopranoSax);
                v.push(Instrument::AltoSax);
                v.push(Instrument::TenorSax);
                v.push(Instrument::BaritoneSax);
                v.push(Instrument::Oboe);
                v.push(Instrument::EnglishHorn);
                v.push(Instrument::Bassoon);
                v.push(Instrument::Clarinet);
            },
            Category::Pipe => {
                v.push(Instrument::Piccolo);
                v.push(Instrument::Flute);
                v.push(Instrument::Recorder);
                v.push(Instrument::PanFlute);
                v.push(Instrument::BlownBottle);
                v.push(Instrument::Shakuhachi);
                v.push(Instrument::Whistle);
                v.push(Instrument::Ocarina);
            },
            Category::SynthLead => {
                v.push(Instrument::Lead1Square);
                v.push(Instrument::Lead2Sawtooth);
                v.push(Instrument::Lead3Calliope);
                v.push(Instrument::Lead4Chiff);
                v.push(Instrument::Lead5Charang);
                v.push(Instrument::Lead6SpaceVoice);
                v.push(Instrument::Lead7Fifths);
                v.push(Instrument::Lead8BassAndLead);
            },
            Category::SynthPad => {
                v.push(Instrument::Pad1NewAge);
                v.push(Instrument::Pad2Warm);
                v.push(Instrument::Pad3Polysynth);
                v.push(Instrument::Pad4Choir);
                v.push(Instrument::Pad5Bowed);
                v.push(Instrument::Pad6Metallic);
                v.push(Instrument::Pad7Halo);
                v.push(Instrument::Pad8Sweep);
            },
            Category::SynthEffects => {
                v.push(Instrument::FX1Rain);
                v.push(Instrument::FX2Soundtrack);
                v.push(Instrument::FX3Crystal);
                v.push(Instrument::FX4Atmosphere);
                v.push(Instrument::FX5Brightness);
                v.push(Instrument::FX6Goblins);
                v.push(Instrument::FX7Echoes);
                v.push(Instrument::FX8SciFi);
            },
            Category::Ethnic => {
                v.push(Instrument::Sitar);
                v.push(Instrument::Banjo);
                v.push(Instrument::Shamisen);
                v.push(Instrument::Koto);
                v.push(Instrument::Kalimba);
                v.push(Instrument::BagPipe);
                v.push(Instrument::Fiddle);
                v.push(Instrument::Shanai);
            },
            Category::Percussive => {
                v.push(Instrument::TinkleBell);
                v.push(Instrument::Agogo);
                v.push(Instrument::SteelDrums);
                v.push(Instrument::Woodblock);
                v.push(Instrument::TaikoDrum);
                v.push(Instrument::MelodicTom);
                v.push(Instrument::SynthDrum);
                v.push(Instrument::ReverseCymbal);
            },
            Category::SoundEffects => {
                v.push(Instrument::GuitarFretNoise);
                v.push(Instrument::BreathNoise);
                v.push(Instrument::Seashore);
                v.push(Instrument::BirdTweet);
                v.push(Instrument::TelephoneRing);
                v.push(Instrument::Helicopter);
                v.push(Instrument::Applause);
                v.push(Instrument::Gunshot);
            },
        }
        v
    }
}

} // verus!
