//! A compiler from MML, a textual music description language, to Standard
//! MIDI Files.
//!
//! The pipeline has two stages. The parser ([`mml`]) turns source text into
//! a compact tone-sequence bytecode ([`tone`]); the encoder ([`midi`])
//! interprets that bytecode and emits a binary single-track MIDI container.
//! [`convert`] composes the two for a chosen instrument ([`inst`]).
//!
//! Every stage carries a full functional contract: the parser's result
//! equals its grammar twin [`mml::sp_parse`], the encoder's equals
//! [`midi::spec_translate`], and so the whole conversion is pinned down by
//! [`sp_convert`] as a function of the source text and the instrument alone.

use vstd::prelude::*;

pub mod inst;
pub mod midi;
pub mod mml;
pub mod tone;

pub use inst::Category;
pub use inst::Instrument;
pub use mml::MMLError;
pub use mml::Position;

verus! {

/// What a whole conversion computes, as a function of the source text and
/// the zero-based program number: the parse of the source, and on success
/// its translation to SMF bytes.
pub open spec fn sp_convert(src: Seq<char>, prog: u8) -> Result<Seq<u8>, MMLError> {
    match mml::sp_parse(src) {
        Err(e) => Err(e),
        Ok(t) => Ok(midi::spec_translate(t, prog)),
    }
}

/// Compiles MML source text into a complete Standard MIDI File byte buffer
/// for the given instrument: the composition of the parser and the encoder,
/// pinned down by [`sp_convert`] as a function of the inputs alone. On
/// success the buffer begins with the four bytes of the MThd header chunk
/// and declares exactly one track.
pub fn convert(src: &str, inst: Instrument) -> (r: Result<Vec<u8>, MMLError>)
    ensures
        ({
            let prog = (inst::inst_num(inst) - 1) as u8;
            match r {
                Ok(buf) => {
                    &&& sp_convert(src@, prog) == Ok::<Seq<u8>, MMLError>(buf@)
                    &&& buf@.len() >= 26
                    &&& buf@[0] == 0x4D && buf@[1] == 0x54 && buf@[2] == 0x68 && buf@[3] == 0x64
                    &&& buf@[10] == 0 && buf@[11] == 1
                },
                Err(e) => sp_convert(src@, prog) == Err::<Seq<u8>, MMLError>(e),
            }
        }),
{
    let tseq = match mml::parse(src) {
        Ok(t) => t,
        Err(e) => {
            return Err(e);
        },
    };
    let prog = inst.number() - 1;
    Ok(midi::translate(&tseq, prog))
}

/// Converting is deterministic: two conversions of the same source with the
/// same instrument yield byte-identical output, and identical errors.
pub proof fn lemma_convert_deterministic(
    src: Seq<char>,
    prog: u8,
    r1: Result<Seq<u8>, MMLError>,
    r2: Result<Seq<u8>, MMLError>,
)
    requires
        r1 == sp_convert(src, prog),
        r2 == sp_convert(src, prog),
    ensures
        r1 == r2,
{
}

} // verus!
