//! The MML parser: source text to tone-sequence bytecode.
//!
//! The parser is a recursive-descent walk over the characters of the source.
//! Every executable step has a specification twin, a spec function over
//! [`PState`] (the mathematical image of the parser state), and each method's
//! contract states that it computes exactly what its twin describes. The
//! top-level [`parse`] is thereby pinned down as a function of the source
//! text alone, and its output is proved well-formed in the sense of
//! [`crate::tone::tseq_wf`].

use vstd::prelude::*;
use vstd::string::StrSliceExecFns;
use crate::tone;
use crate::tone::{seq_wf, head_record_wf};

verus! {

/// A cursor position in the source, carried in every syntax error:
/// the lookahead character (none at end of input) and its 1-based column
/// and row.
#[derive(Debug, Clone, PartialEq, Eq)]
pub struct Position {
    pub character: Option<char>,
    pub col: usize,
    pub row: usize,
}

/// Everything that can go wrong during a conversion. Each syntax error
/// carries the position at which it was detected; the first error aborts
/// the whole conversion. `IoError` is reserved for a failing byte sink and
/// is never produced for the in-memory buffers used here.
#[derive(Debug, Clone, PartialEq, Eq)]
pub enum MMLError {
    EmptySequence(Position),
    InvalidBlock(Position),
    InvalidBlockEnd(Position),
    InvalidBlockId(Position),
    InvalidChangeOctave(Position),
    InvalidCharacter(Position),
    InvalidDecreaseOctave(Position),
    InvalidDefaultDurationValue(Position),
    InvalidDuration(Position),
    InvalidDurationEnd(Position),
    InvalidIncreaseOctave(Position),
    InvalidLength(Position),
    InvalidNote(Position),
    InvalidNoteValue(Position),
    InvalidNoteValueEnd(Position),
    InvalidNoteValueStart(Position),
    InvalidOctaveValue(Position),
    InvalidPlayBlockId(Position),
    InvalidRepeat(Position),
    InvalidRepeatEnd(Position),
    InvalidRepeatNumber(Position),
    InvalidResolution(Position),
    InvalidTempo(Position),
    InvalidVolume(Position),
    IoError,
    UnexpectedRemains(Position),
}

/// What a character is according to the Unicode `White_Space` property.
pub uninterp spec fn white_space(c: char) -> bool;

/// Relies on char::is_whitespace from std: the result depends on the
/// character alone (its Unicode `White_Space` property), and on ASCII
/// characters it holds exactly of space and of the controls U+0009..=U+000D.
#[verifier::external_body]
fn is_whitespace_char(c: char) -> (r: bool)
    ensures
        r == white_space(c),
        (c as u32) < 128 ==> (r <==> (c == ' ' || (9 <= c as u32 && c as u32 <= 13))),
{
    c.is_whitespace()
}

/// True when `c` is an ASCII decimal digit.
pub open spec fn digit(c: char) -> bool {
    48 <= c as u32 && c as u32 <= 57
}

/// Numeric value of an ASCII digit.
pub open spec fn digit_val(c: char) -> int {
    c as u32 - 48
}

fn is_digit(c: char) -> (r: bool)
    ensures
        r == digit(c),
{
    let u = c as u32;
    48 <= u && u <= 57
}

/// The mathematical image of the parser state: the source as a character
/// sequence, the cursor (position of the lookahead character, column, row)
/// and the mutable parse defaults.
pub ghost struct PState {
    pub src: Seq<char>,
    pub pos: int,
    pub col: int,
    pub row: int,
    pub next_block_id: int,
    pub tempo: int,
    pub resolution: int,
    pub octave: int,
    pub duration: int,
}

/// The invariant every reachable parser state satisfies.
pub open spec fn st_inv(s: PState) -> bool {
    &&& 0 <= s.pos <= s.src.len()
    &&& 1 <= s.col <= usize::MAX
    &&& 1 <= s.row <= usize::MAX
    &&& 0 <= s.next_block_id <= 128
    &&& 20 <= s.tempo <= 508
    &&& 1 <= s.resolution <= 127
    &&& 0 <= s.octave <= 127
    &&& 1 <= s.duration <= 127
}

/// The lookahead character, if any.
pub open spec fn cur_char(s: PState) -> Option<char> {
    if 0 <= s.pos < s.src.len() {
        Some(s.src[s.pos])
    } else {
        None
    }
}

/// The position a syntax error reports when raised in state `s`.
pub open spec fn sp_position(s: PState) -> Position {
    Position { character: cur_char(s), col: s.col as usize, row: s.row as usize }
}

/// Advancing the cursor by one character: the column grows by one, except
/// that landing on a newline resets the column and starts a new row. The
/// column and row saturate rather than wrap.
pub open spec fn sp_advance(s: PState) -> PState {
    let p = s.pos + 1;
    let newline = p < s.src.len() && s.src[p] == '\n';
    PState {
        pos: p,
        col: if newline {
            1
        } else if s.col < usize::MAX {
            s.col + 1
        } else {
            s.col
        },
        row: if newline {
            if s.row < usize::MAX {
                s.row + 1
            } else {
                s.row
            }
        } else {
            s.row
        },
        ..s
    }
}

/// Skipping a maximal run of whitespace.
pub open spec fn sp_skip_ws(s: PState) -> PState
    decreases s.src.len() - s.pos,
{
    if 0 <= s.pos < s.src.len() && white_space(s.src[s.pos]) {
        sp_skip_ws(sp_advance(s))
    } else {
        s
    }
}

/// Skipping whitespace moves only the cursor, and only forward.
pub proof fn lemma_skip_ws(s: PState)
    requires
        0 <= s.pos <= s.src.len(),
    ensures
        ({
            let r = sp_skip_ws(s);
            &&& s.pos <= r.pos <= s.src.len()
            &&& r.src == s.src
            &&& r.next_block_id == s.next_block_id
            &&& r.tempo == s.tempo
            &&& r.resolution == s.resolution
            &&& r.octave == s.octave
            &&& r.duration == s.duration
            &&& (1 <= s.col <= usize::MAX && 1 <= s.row <= usize::MAX ==> 1 <= r.col
                <= usize::MAX && 1 <= r.row <= usize::MAX)
        }),
    decreases s.src.len() - s.pos,
{
    if 0 <= s.pos < s.src.len() && white_space(s.src[s.pos]) {
        lemma_skip_ws(sp_advance(s));
    }
}

/// Reading a maximal digit run, accumulating onto `acc`: the accumulated
/// value is returned, except that once it exceeds 1000 the sentinel 0x10000
/// is returned at once, leaving the digit that pushed it over unconsumed.
pub open spec fn sp_number_loop(s: PState, acc: int) -> (PState, int)
    decreases s.src.len() - s.pos,
{
    if 0 <= s.pos < s.src.len() && digit(s.src[s.pos]) {
        let acc2 = acc * 10 + digit_val(s.src[s.pos]);
        if acc2 > 1000 {
            (s, 0x10000)
        } else {
            sp_number_loop(sp_advance(s), acc2)
        }
    } else {
        (s, acc)
    }
}

/// Reading a number from the current cursor; 0 when no digit is present.
pub open spec fn sp_number(s: PState) -> (PState, int) {
    sp_number_loop(s, 0)
}

/// Reading a number moves only the cursor, only forward, and yields a value
/// that is either at most the running bound or the overflow sentinel.
pub proof fn lemma_number_loop(s: PState, acc: int)
    requires
        0 <= s.pos <= s.src.len(),
        0 <= acc <= 1000,
    ensures
        ({
            let (r, n) = sp_number_loop(s, acc);
            &&& s.pos <= r.pos <= s.src.len()
            &&& r.src == s.src
            &&& r.next_block_id == s.next_block_id
            &&& r.tempo == s.tempo
            &&& r.resolution == s.resolution
            &&& r.octave == s.octave
            &&& r.duration == s.duration
            &&& (1 <= s.col <= usize::MAX && 1 <= s.row <= usize::MAX ==> 1 <= r.col
                <= usize::MAX && 1 <= r.row <= usize::MAX)
            &&& (0 <= n <= 1000 || n == 0x10000)
        }),
    decreases s.src.len() - s.pos,
{
    if 0 <= s.pos < s.src.len() && digit(s.src[s.pos]) {
        let acc2 = acc * 10 + digit_val(s.src[s.pos]);
        if acc2 <= 1000 {
            lemma_number_loop(sp_advance(s), acc2);
        }
    }
}


/// The optional tempo directive: after whitespace, `T` or `t` followed by a
/// number that must lie in 20..=508.
pub open spec fn sp_tempo(s0: PState) -> Result<PState, MMLError> {
    let s = sp_skip_ws(s0);
    if !(cur_char(s) == Some('T') || cur_char(s) == Some('t')) {
        Ok(s)
    } else {
        let (s2, n) = sp_number(sp_advance(s));
        if 20 <= n <= 508 {
            Ok(PState { tempo: n, ..s2 })
        } else {
            Err(MMLError::InvalidTempo(sp_position(s2)))
        }
    }
}

/// The optional resolution directive: after whitespace, `%` followed by a
/// number that must lie in 1..=127.
pub open spec fn sp_resolution(s0: PState) -> Result<PState, MMLError> {
    let s = sp_skip_ws(s0);
    if cur_char(s) != Some('%') {
        Ok(s)
    } else {
        let (s2, n) = sp_number(sp_advance(s));
        if 1 <= n <= 127 {
            Ok(PState { resolution: n, ..s2 })
        } else {
            Err(MMLError::InvalidResolution(sp_position(s2)))
        }
    }
}

/// Resetting the per-sequence defaults: octave back to C4, default duration
/// to a quarter of the resolution (at least one tick).
pub open spec fn sp_set_default(s: PState) -> PState {
    PState {
        octave: tone::C4 as int,
        duration: if s.resolution / 4 >= 1 {
            s.resolution / 4
        } else {
            1
        },
        ..s
    }
}

/// The dotted-note tail of a duration literal: each `.` doubles the running
/// divisor (which may not exceed the resolution) and adds another
/// `max(1, resolution / divisor)` ticks.
pub open spec fn sp_dots(s: PState, num: int, dur: int) -> Result<(PState, int), MMLError>
    decreases s.src.len() - s.pos,
{
    if cur_char(s) == Some('.') {
        let num2 = num * 2;
        if num2 > s.resolution {
            Err(MMLError::InvalidLength(sp_position(s)))
        } else {
            let add = if s.resolution / num2 >= 1 {
                s.resolution / num2
            } else {
                1
            };
            sp_dots(sp_advance(s), num2, dur + add)
        }
    } else {
        Ok((s, dur))
    }
}

/// A duration literal. A leading `(` introduces a raw tick count 0..=127
/// closed by `)`; a digit run n in 1..=resolution yields `max(1,
/// resolution/n)` ticks plus dotted-note additions; absent both, the current
/// default duration is used. The final value must lie in 1..=127.
pub open spec fn sp_duration(s: PState) -> Result<(PState, int), MMLError> {
    match cur_char(s) {
        Some(c) => {
            if digit(c) {
                let (s1, num) = sp_number(s);
                if !(1 <= num <= s.resolution) {
                    Err(MMLError::InvalidLength(sp_position(s1)))
                } else {
                    let d0 = if s.resolution / num >= 1 {
                        s.resolution / num
                    } else {
                        1
                    };
                    match sp_dots(s1, num, d0) {
                        Ok((s2, dur)) => {
                            if 1 <= dur <= 127 {
                                Ok((s2, dur))
                            } else {
                                Err(MMLError::InvalidLength(sp_position(s2)))
                            }
                        },
                        Err(e) => Err(e),
                    }
                }
            } else if c == '(' {
                let s1 = sp_advance(s);
                match cur_char(s1) {
                    Some(c2) => {
                        if digit(c2) {
                            let (s2, dur) = sp_number(s1);
                            if !(0 <= dur <= 127) {
                                Err(MMLError::InvalidDuration(sp_position(s2)))
                            } else if cur_char(s2) == Some(')') {
                                let s3 = sp_advance(s2);
                                if 1 <= dur {
                                    Ok((s3, dur))
                                } else {
                                    Err(MMLError::InvalidLength(sp_position(s3)))
                                }
                            } else {
                                Err(MMLError::InvalidDurationEnd(sp_position(s2)))
                            }
                        } else {
                            Err(MMLError::InvalidDuration(sp_position(s1)))
                        }
                    },
                    None => Err(MMLError::InvalidDuration(sp_position(s1))),
                }
            } else {
                Ok((s, s.duration))
            }
        },
        None => Ok((s, s.duration)),
    }
}

/// The dotted-note tail moves only the cursor forward and keeps the running
/// tick count at most `127 * divisor`.
pub proof fn lemma_sp_dots(s: PState, num: int, dur: int)
    requires
        0 <= s.pos <= s.src.len(),
        1 <= s.col <= usize::MAX,
        1 <= s.row <= usize::MAX,
        1 <= s.resolution <= 127,
        1 <= num <= s.resolution,
        0 <= dur <= 127 * num,
    ensures
        ({
            match sp_dots(s, num, dur) {
                Ok((r, d)) => {
                    &&& s.pos <= r.pos <= s.src.len()
                    &&& r.src == s.src
                    &&& r.next_block_id == s.next_block_id
                    &&& r.tempo == s.tempo
                    &&& r.resolution == s.resolution
                    &&& r.octave == s.octave
                    &&& r.duration == s.duration
                    &&& 1 <= r.col <= usize::MAX
                    &&& 1 <= r.row <= usize::MAX
                    &&& dur <= d <= 16129
                },
                Err(_) => true,
            }
        }),
    decreases s.src.len() - s.pos,
{
    if cur_char(s) == Some('.') {
        let num2 = num * 2;
        if num2 <= s.resolution {
            let add = if s.resolution / num2 >= 1 {
                s.resolution / num2
            } else {
                1
            };
            assert(dur + add <= 127 * num2);
            lemma_sp_dots(sp_advance(s), num2, dur + add);
        }
    }
}


/// Cursor-only well-formedness: the position lies within the source.
pub open spec fn cursor_inv(s: PState) -> bool {
    0 <= s.pos <= s.src.len()
}

/// How a production may move the state: forward only (strictly, when it
/// matched), within the same source, leaving the block counter alone.
pub open spec fn adv_ok(s: PState, r: PState, matched: bool) -> bool {
    &&& (if matched {
        s.pos < r.pos
    } else {
        s.pos <= r.pos
    })
    &&& r.pos <= s.src.len()
    &&& r.src == s.src
    &&& r.next_block_id == s.next_block_id
}

/// The octave productions: `<` raises and `>` lowers the baseline by an
/// octave, `O`/`o` with digits sets it absolutely, `O-`/`o-` with digits sets
/// it below the origin; the baseline must stay in 0..=127.
pub open spec fn sp_octave(s: PState) -> Result<(PState, bool), MMLError> {
    match cur_char(s) {
        Some(c) => {
            if c == '>' {
                if s.octave - 12 < 0 {
                    Err(MMLError::InvalidDecreaseOctave(sp_position(s)))
                } else {
                    Ok((PState { octave: s.octave - 12, ..sp_advance(s) }, true))
                }
            } else if c == '<' {
                if s.octave + 12 > 127 {
                    Err(MMLError::InvalidIncreaseOctave(sp_position(s)))
                } else {
                    Ok((PState { octave: s.octave + 12, ..sp_advance(s) }, true))
                }
            } else if c == 'o' || c == 'O' {
                let s1 = sp_advance(s);
                match cur_char(s1) {
                    Some(c1) => {
                        if c1 == '-' {
                            let s2 = sp_advance(s1);
                            match cur_char(s2) {
                                Some(c2) => {
                                    if digit(c2) {
                                        let (s3, oct) = sp_number(s2);
                                        let v = 60 - (oct + 4) * 12;
                                        if 0 <= v <= 127 {
                                            Ok((PState { octave: v, ..s3 }, true))
                                        } else {
                                            Err(MMLError::InvalidOctaveValue(sp_position(s3)))
                                        }
                                    } else {
                                        Err(MMLError::InvalidOctaveValue(sp_position(s2)))
                                    }
                                },
                                None => Err(MMLError::InvalidOctaveValue(sp_position(s2))),
                            }
                        } else if digit(c1) {
                            let (s2, oct) = sp_number(s1);
                            let v = 60 + (oct - 4) * 12;
                            if 0 <= v <= 127 {
                                Ok((PState { octave: v, ..s2 }, true))
                            } else {
                                Err(MMLError::InvalidOctaveValue(sp_position(s2)))
                            }
                        } else {
                            Err(MMLError::InvalidChangeOctave(sp_position(s1)))
                        }
                    },
                    None => Err(MMLError::InvalidChangeOctave(sp_position(s1))),
                }
            } else {
                Ok((s, false))
            }
        },
        None => Ok((s, false)),
    }
}

/// The octave production moves the cursor strictly forward when it matches.
pub proof fn lemma_sp_octave_adv(s: PState)
    requires
        cursor_inv(s),
    ensures
        match sp_octave(s) {
            Ok((r, b)) => adv_ok(s, r, b) && (!b ==> r == s),
            Err(_) => true,
        },
{
    match cur_char(s) {
        Some(c) => {
            if c == 'o' || c == 'O' {
                let s1 = sp_advance(s);
                match cur_char(s1) {
                    Some(c1) => {
                        if c1 == '-' {
                            let s2 = sp_advance(s1);
                            if cur_char(s2) is Some && digit(cur_char(s2)->0) {
                                lemma_number_loop(s2, 0);
                            }
                        } else if digit(c1) {
                            lemma_number_loop(s1, 0);
                        }
                    },
                    None => {},
                }
            }
        },
        None => {},
    }
}

/// The default-duration production: `L`/`l` followed by a duration literal
/// that must open with a digit or `(`.
pub open spec fn sp_change_duration(s: PState) -> Result<(PState, bool), MMLError> {
    if cur_char(s) == Some('L') || cur_char(s) == Some('l') {
        let s1 = sp_advance(s);
        match cur_char(s1) {
            Some(c1) => {
                if c1 == '(' || digit(c1) {
                    match sp_duration(s1) {
                        Ok((s2, d)) => Ok((PState { duration: d, ..s2 }, true)),
                        Err(e) => Err(e),
                    }
                } else {
                    Err(MMLError::InvalidDefaultDurationValue(sp_position(s1)))
                }
            },
            None => Err(MMLError::InvalidDefaultDurationValue(sp_position(s1))),
        }
    } else {
        Ok((s, false))
    }
}

/// A duration literal moves only the cursor, and only forward.
pub proof fn lemma_sp_duration_adv(s: PState)
    requires
        cursor_inv(s),
    ensures
        match sp_duration(s) {
            Ok((r, d)) => adv_ok(s, r, false),
            Err(_) => true,
        },
{
    match cur_char(s) {
        Some(c) => {
            if digit(c) {
                lemma_number_loop(s, 0);
                let (s1, num) = sp_number(s);
                if 1 <= num <= s.resolution {
                    let d0 = if s.resolution / num >= 1 {
                        s.resolution / num
                    } else {
                        1
                    };
                    lemma_sp_dots_adv(s1, num, d0);
                }
            } else if c == '(' {
                let s1 = sp_advance(s);
                if cur_char(s1) is Some && digit(cur_char(s1)->0) {
                    lemma_number_loop(s1, 0);
                }
            }
        },
        None => {},
    }
}

/// The dotted-note tail moves only the cursor, and only forward.
pub proof fn lemma_sp_dots_adv(s: PState, num: int, dur: int)
    requires
        cursor_inv(s),
    ensures
        match sp_dots(s, num, dur) {
            Ok((r, d)) => adv_ok(s, r, false),
            Err(_) => true,
        },
    decreases s.src.len() - s.pos,
{
    if cur_char(s) == Some('.') {
        let num2 = num * 2;
        if num2 <= s.resolution {
            let add = if s.resolution / num2 >= 1 {
                s.resolution / num2
            } else {
                1
            };
            lemma_sp_dots_adv(sp_advance(s), num2, dur + add);
        }
    }
}

/// The default-duration production moves the cursor strictly forward when it
/// matches.
pub proof fn lemma_sp_change_duration_adv(s: PState)
    requires
        cursor_inv(s),
    ensures
        match sp_change_duration(s) {
            Ok((r, b)) => adv_ok(s, r, b) && (!b ==> r == s),
            Err(_) => true,
        },
{
    if cur_char(s) == Some('L') || cur_char(s) == Some('l') {
        lemma_sp_duration_adv(sp_advance(s));
    }
}

/// Semitone offset of a note letter from the octave baseline.
pub open spec fn note_offset(c: char) -> Option<int> {
    if c == 'C' || c == 'c' {
        Some(0)
    } else if c == 'D' || c == 'd' {
        Some(2)
    } else if c == 'E' || c == 'e' {
        Some(4)
    } else if c == 'F' || c == 'f' {
        Some(5)
    } else if c == 'G' || c == 'g' {
        Some(7)
    } else if c == 'A' || c == 'a' {
        Some(9)
    } else if c == 'B' || c == 'b' {
        Some(11)
    } else {
        None
    }
}

/// The note production: a note letter, an optional accidental `+`/`#`/`-`,
/// and an optional duration literal. The note value is checked against
/// 0..=127 both before and after the accidental.
pub open spec fn sp_note(s: PState) -> Result<(PState, Seq<u8>, bool), MMLError> {
    match cur_char(s) {
        Some(c) => {
            match note_offset(c) {
                Some(off) => {
                    let n1 = s.octave + off;
                    if !(0 <= n1 <= 127) {
                        Err(MMLError::InvalidNote(sp_position(s)))
                    } else {
                        let s1 = sp_advance(s);
                        let picked: (PState, int) = if cur_char(s1) == Some('+') || cur_char(s1)
                            == Some('#') {
                            (sp_advance(s1), n1 + 1)
                        } else if cur_char(s1) == Some('-') {
                            (sp_advance(s1), n1 - 1)
                        } else {
                            (s1, n1)
                        };
                        let s2 = picked.0;
                        let n2 = picked.1;
                        if !(0 <= n2 <= 127) {
                            Err(MMLError::InvalidNote(sp_position(s2)))
                        } else {
                            match sp_duration(s2) {
                                Ok((s3, d)) => Ok((s3, seq![n2 as u8, d as u8], true)),
                                Err(e) => Err(e),
                            }
                        }
                    }
                },
                None => Ok((s, Seq::empty(), false)),
            }
        },
        None => Ok((s, Seq::empty(), false)),
    }
}

/// The note production moves the cursor strictly forward when it matches.
pub proof fn lemma_sp_note_adv(s: PState)
    requires
        cursor_inv(s),
    ensures
        match sp_note(s) {
            Ok((r, em, b)) => adv_ok(s, r, b) && (!b ==> r == s && em == Seq::<u8>::empty()),
            Err(_) => true,
        },
{
    match cur_char(s) {
        Some(c) => {
            if note_offset(c) is Some {
                let s1 = sp_advance(s);
                if cur_char(s1) == Some('+') || cur_char(s1) == Some('#') || cur_char(s1)
                    == Some('-') {
                    lemma_sp_duration_adv(sp_advance(s1));
                } else {
                    lemma_sp_duration_adv(s1);
                }
            }
        },
        None => {},
    }
}

/// The rest production: `R`/`r` and an optional duration literal.
pub open spec fn sp_rest(s: PState) -> Result<(PState, Seq<u8>, bool), MMLError> {
    if cur_char(s) == Some('R') || cur_char(s) == Some('r') {
        match sp_duration(sp_advance(s)) {
            Ok((s2, d)) => Ok((s2, seq![tone::SILENCE, d as u8], true)),
            Err(e) => Err(e),
        }
    } else {
        Ok((s, Seq::empty(), false))
    }
}

/// The rest production moves the cursor strictly forward when it matches.
pub proof fn lemma_sp_rest_adv(s: PState)
    requires
        cursor_inv(s),
    ensures
        match sp_rest(s) {
            Ok((r, em, b)) => adv_ok(s, r, b) && (!b ==> r == s && em == Seq::<u8>::empty()),
            Err(_) => true,
        },
{
    if cur_char(s) == Some('R') || cur_char(s) == Some('r') {
        lemma_sp_duration_adv(sp_advance(s));
    }
}

/// The numbered-note production: `N`/`n` followed by `(`, a note value
/// 0..=127, `)` and an optional duration literal.
pub open spec fn sp_note_value(s: PState) -> Result<(PState, Seq<u8>, bool), MMLError> {
    if cur_char(s) == Some('N') || cur_char(s) == Some('n') {
        let s1 = sp_advance(s);
        if cur_char(s1) != Some('(') {
            Err(MMLError::InvalidNoteValueStart(sp_position(s1)))
        } else {
            let s2 = sp_advance(s1);
            match cur_char(s2) {
                Some(c2) => {
                    if digit(c2) {
                        let (s3, note) = sp_number(s2);
                        if !(0 <= note <= 127) {
                            Err(MMLError::InvalidNoteValue(sp_position(s3)))
                        } else if cur_char(s3) != Some(')') {
                            Err(MMLError::InvalidNoteValueEnd(sp_position(s3)))
                        } else {
                            match sp_duration(sp_advance(s3)) {
                                Ok((s4, d)) => Ok((s4, seq![note as u8, d as u8], true)),
                                Err(e) => Err(e),
                            }
                        }
                    } else {
                        Err(MMLError::InvalidNoteValue(sp_position(s2)))
                    }
                },
                None => Err(MMLError::InvalidNoteValue(sp_position(s2))),
            }
        }
    } else {
        Ok((s, Seq::empty(), false))
    }
}

/// The numbered-note production moves the cursor strictly forward when it
/// matches.
pub proof fn lemma_sp_note_value_adv(s: PState)
    requires
        cursor_inv(s),
    ensures
        match sp_note_value(s) {
            Ok((r, em, b)) => adv_ok(s, r, b) && (!b ==> r == s && em == Seq::<u8>::empty()),
            Err(_) => true,
        },
{
    if cur_char(s) == Some('N') || cur_char(s) == Some('n') {
        let s1 = sp_advance(s);
        if cur_char(s1) == Some('(') {
            let s2 = sp_advance(s1);
            if cur_char(s2) is Some && digit(cur_char(s2)->0) {
                lemma_number_loop(s2, 0);
                let (s3, note) = sp_number(s2);
                if 0 <= note <= 127 && cur_char(s3) == Some(')') {
                    lemma_sp_duration_adv(sp_advance(s3));
                }
            }
        }
    }
}

/// The block-playback production: `$` followed by the id of a block that has
/// already been closed.
pub open spec fn sp_play_block(s: PState) -> Result<(PState, Seq<u8>, bool), MMLError> {
    if cur_char(s) == Some('$') {
        let s1 = sp_advance(s);
        match cur_char(s1) {
            Some(c1) => {
                if digit(c1) {
                    let (s2, id) = sp_number(s1);
                    if !(0 <= id < s.next_block_id) {
                        Err(MMLError::InvalidPlayBlockId(sp_position(s2)))
                    } else {
                        Ok((s2, seq![tone::PLAY_BLOCK, id as u8], true))
                    }
                } else {
                    Err(MMLError::InvalidPlayBlockId(sp_position(s1)))
                }
            },
            None => Err(MMLError::InvalidPlayBlockId(sp_position(s1))),
        }
    } else {
        Ok((s, Seq::empty(), false))
    }
}

/// The block-playback production moves the cursor strictly forward when it
/// matches.
pub proof fn lemma_sp_play_block_adv(s: PState)
    requires
        cursor_inv(s),
    ensures
        match sp_play_block(s) {
            Ok((r, em, b)) => adv_ok(s, r, b) && (!b ==> r == s && em == Seq::<u8>::empty()),
            Err(_) => true,
        },
{
    if cur_char(s) == Some('$') {
        let s1 = sp_advance(s);
        if cur_char(s1) is Some && digit(cur_char(s1)->0) {
            lemma_number_loop(s1, 0);
        }
    }
}

/// The volume production: `V`/`v` followed by a percentage 0..=100.
pub open spec fn sp_volume(s: PState) -> Result<(PState, Seq<u8>, bool), MMLError> {
    if cur_char(s) == Some('V') || cur_char(s) == Some('v') {
        let s1 = sp_advance(s);
        match cur_char(s1) {
            Some(c1) => {
                if digit(c1) {
                    let (s2, v) = sp_number(s1);
                    if !(0 <= v <= 100) {
                        Err(MMLError::InvalidVolume(sp_position(s2)))
                    } else {
                        Ok((s2, seq![tone::SET_VOLUME, v as u8], true))
                    }
                } else {
                    Err(MMLError::InvalidVolume(sp_position(s1)))
                }
            },
            None => Err(MMLError::InvalidVolume(sp_position(s1))),
        }
    } else {
        Ok((s, Seq::empty(), false))
    }
}

/// The volume production moves the cursor strictly forward when it matches.
pub proof fn lemma_sp_volume_adv(s: PState)
    requires
        cursor_inv(s),
    ensures
        match sp_volume(s) {
            Ok((r, em, b)) => adv_ok(s, r, b) && (!b ==> r == s && em == Seq::<u8>::empty()),
            Err(_) => true,
        },
{
    if cur_char(s) == Some('V') || cur_char(s) == Some('v') {
        let s1 = sp_advance(s);
        if cur_char(s1) is Some && digit(cur_char(s1)->0) {
            lemma_number_loop(s1, 0);
        }
    }
}

/// The event descriptor after a sounding event (note, rest, numbered note):
/// the doubled count grows by one step, saturating well above the range the
/// grammar distinguishes, and the low bit records that a production matched.
pub open spec fn ev_tone(e: int) -> int {
    let e2 = if e < 8 {
        e + 2
    } else {
        e
    };
    if e2 % 2 == 0 {
        e2 + 1
    } else {
        e2
    }
}

/// The event descriptor after a non-sounding production: only the low bit is
/// set.
pub open spec fn ev_mark(e: int) -> int {
    if e % 2 == 0 {
        e + 1
    } else {
        e
    }
}

/// Prepends an emission to the result of the remainder of a sequence.
pub open spec fn seq_step(em: Seq<u8>, rest: Result<(PState, Seq<u8>, int), MMLError>) -> Result<
    (PState, Seq<u8>, int),
    MMLError,
> {
    match rest {
        Ok((sf, em2, ef)) => Ok((sf, em + em2, ef)),
        Err(e) => Err(e),
    }
}

/// Bounds a follow-up state against the state a production started from.
/// Every production in fact moves the cursor forward within the same source,
/// so the bound never takes effect; it makes the descent of the sequence
/// grammar manifest.
pub open spec fn step_bound(s: PState, r: PState) -> PState {
    if s.pos <= r.pos <= s.src.len() && r.src == s.src {
        r
    } else {
        PState { pos: s.src.len() as int, ..s }
    }
}

/// One pass of the shared sequence grammar, from lookahead dispatch to the
/// end of input or a closing `]`/`}`: octave and default-duration updates,
/// notes, rests, numbered notes, block playback, repeats (with their nested
/// sequence and the compact single-event folding), and volume changes.
/// Returns the final state, the emitted bytecode and the event descriptor.
pub open spec fn sp_sequence_loop(s: PState, event: int) -> Result<(PState, Seq<u8>, int), MMLError>
    decreases s.src.len() - s.pos, 3int,
    when cursor_inv(s)
{
    if s.pos >= s.src.len() {
        Ok((s, Seq::empty(), event))
    } else {
        match sp_octave(s) {
            Err(e) => Err(e),
            Ok((s_oct, b_oct)) => {
                if b_oct {
                    sp_sequence_loop(step_bound(sp_advance(s), sp_skip_ws(s_oct)), event)
                } else {
                    match sp_change_duration(s) {
                        Err(e) => Err(e),
                        Ok((s_dur, b_dur)) => {
                            if b_dur {
                                sp_sequence_loop(
                                    step_bound(sp_advance(s), sp_skip_ws(s_dur)),
                                    event,
                                )
                            } else {
                                match sp_note(s) {
                                    Err(e) => Err(e),
                                    Ok((s_n, em_n, b_n)) => {
                                        if b_n {
                                            seq_step(
                                                em_n,
                                                sp_sequence_loop(
                                                    step_bound(sp_advance(s), sp_skip_ws(s_n)),
                                                    ev_tone(event),
                                                ),
                                            )
                                        } else {
                                            sp_sequence_loop_rest(s, event)
                                        }
                                    },
                                }
                            }
                        },
                    }
                }
            },
        }
    }
}

/// The sequence grammar after the note production failed to match: rests,
/// numbered notes, block playback, repeats, volume, and the closing
/// lookahead.
pub open spec fn sp_sequence_loop_rest(s: PState, event: int) -> Result<
    (PState, Seq<u8>, int),
    MMLError,
>
    decreases s.src.len() - s.pos, 2int,
    when cursor_inv(s) && s.pos < s.src.len()
{
    match sp_rest(s) {
        Err(e) => Err(e),
        Ok((s_r, em_r, b_r)) => {
            if b_r {
                seq_step(
                    em_r,
                    sp_sequence_loop(step_bound(sp_advance(s), sp_skip_ws(s_r)), ev_tone(event)),
                )
            } else {
                match sp_note_value(s) {
                    Err(e) => Err(e),
                    Ok((s_v, em_v, b_v)) => {
                        if b_v {
                            seq_step(
                                em_v,
                                sp_sequence_loop(
                                    step_bound(sp_advance(s), sp_skip_ws(s_v)),
                                    ev_tone(event),
                                ),
                            )
                        } else {
                            match sp_play_block(s) {
                                Err(e) => Err(e),
                                Ok((s_p, em_p, b_p)) => {
                                    if b_p {
                                        seq_step(
                                            em_p,
                                            sp_sequence_loop(
                                                step_bound(sp_advance(s), sp_skip_ws(s_p)),
                                                ev_mark(event),
                                            ),
                                        )
                                    } else {
                                        sp_sequence_loop_tail(s, event)
                                    }
                                },
                            }
                        }
                    },
                }
            }
        },
    }
}

/// The sequence grammar after block playback failed to match: the repeat
/// production (with its nested sequence), volume, and the closing lookahead.
pub open spec fn sp_sequence_loop_tail(s: PState, event: int) -> Result<
    (PState, Seq<u8>, int),
    MMLError,
>
    decreases s.src.len() - s.pos, 1int,
    when cursor_inv(s) && s.pos < s.src.len()
{
    if cur_char(s) == Some('[') {
        match sp_repeat_body(s) {
            Err(e) => Err(e),
            Ok((s_rep, em)) => {
                seq_step(
                    em,
                    sp_sequence_loop(step_bound(sp_advance(s), sp_skip_ws(s_rep)), ev_mark(event)),
                )
            },
        }
    } else {
        match sp_volume(s) {
            Err(e) => Err(e),
            Ok((s_vol, em_vol, b_vol)) => {
                if b_vol {
                    seq_step(
                        em_vol,
                        sp_sequence_loop(
                            step_bound(sp_advance(s), sp_skip_ws(s_vol)),
                            ev_mark(event),
                        ),
                    )
                } else if cur_char(s) == Some(']') || cur_char(s) == Some('}') {
                    Ok((s, Seq::empty(), event))
                } else {
                    Err(MMLError::InvalidCharacter(sp_position(s)))
                }
            },
        }
    }
}

/// The repeat production, assuming the `[` lookahead: a multiplier 2..=127,
/// a nested sequence that must produce at least one event and one byte, and
/// the closing `]`. A single-event two-byte body folds into the compact
/// four-byte repeat record; any other body is copied out multiplier times.
pub open spec fn sp_repeat_body(s: PState) -> Result<(PState, Seq<u8>), MMLError>
    decreases s.src.len() - s.pos, 0int,
    when cursor_inv(s) && s.pos < s.src.len()
{
    let s1 = sp_advance(s);
    if !(cur_char(s1) is Some && digit(cur_char(s1)->0)) {
        Err(MMLError::InvalidRepeat(sp_position(s1)))
    } else {
        let (s2, m) = sp_number(s1);
        if !(2 <= m <= 127) {
            Err(MMLError::InvalidRepeatNumber(sp_position(s2)))
        } else {
            let si = step_bound(s1, sp_skip_ws(s2));
            match sp_sequence_loop(si, 0) {
                Err(e) => Err(e),
                Ok((sb0, em_b, ev_b)) => {
                    let sb = step_bound(si, sb0);
                    if ev_b == 0 || em_b.len() == 0 {
                        Err(MMLError::InvalidRepeat(sp_position(sb)))
                    } else {
                        let sw = sp_skip_ws(sb);
                        if cur_char(sw) != Some(']') {
                            Err(MMLError::InvalidRepeatEnd(sp_position(sw)))
                        } else {
                            let s3 = sp_advance(sw);
                            let em = if ev_b == 3 && em_b.len() == 2 {
                                seq![tone::REPEAT, m as u8] + em_b
                            } else {
                                tone::repeat_seq(em_b, m as nat)
                            };
                            Ok((s3, em))
                        }
                    }
                },
            }
        }
    }
}

/// The shared sequence grammar: leading whitespace, then the dispatch loop.
pub open spec fn sp_sequence(s: PState) -> Result<(PState, Seq<u8>, int), MMLError> {
    sp_sequence_loop(sp_skip_ws(s), 0)
}

/// Prepending emissions one after the other is concatenation.
pub proof fn lemma_seq_step_assoc(
    a: Seq<u8>,
    b: Seq<u8>,
    rest: Result<(PState, Seq<u8>, int), MMLError>,
)
    ensures
        seq_step(a, seq_step(b, rest)) == seq_step(a + b, rest),
{
    match rest {
        Ok((sf, em2, ef)) => {
            assert(a + (b + em2) =~= (a + b) + em2);
        },
        Err(_) => {},
    }
}

/// A two-byte note-or-silence record with a duration in range: the only
/// emissions the sounding productions make, and the only bodies the compact
/// repeat record may fold.
pub open spec fn tone_pair(em: Seq<u8>) -> bool {
    &&& em.len() == 2
    &&& (em[0] <= 127 || em[0] == tone::SILENCE)
    &&& 1 <= em[1] <= 127
}

/// A note-or-silence pair is a well-formed event sequence on its own.
pub proof fn lemma_tone_pair_wf(em: Seq<u8>, max_id: int)
    requires
        tone_pair(em),
    ensures
        seq_wf(em, max_id),
{
    assert(em.skip(2) =~= Seq::<u8>::empty());
    assert(seq_wf(Seq::<u8>::empty(), max_id));
}

/// Reading a number that starts with a digit consumes at least that digit.
pub proof fn lemma_number_strict(s: PState)
    requires
        0 <= s.pos < s.src.len(),
        digit(s.src[s.pos]),
    ensures
        s.pos < sp_number(s).0.pos <= s.src.len(),
        sp_number(s).0.src == s.src,
{
    lemma_number_loop(sp_advance(s), digit_val(s.src[s.pos]));
}

/// A block definition: after whitespace, `{`, an id that must equal the
/// running block counter and stay below 128, a sequence body with at least
/// one event, and `}`. The body is framed by block-start and block-end
/// records and the counter moves on.
pub open spec fn sp_block(s0: PState) -> Result<(PState, Seq<u8>, bool), MMLError> {
    let s = sp_skip_ws(s0);
    if cur_char(s) != Some('{') {
        Ok((s, Seq::empty(), false))
    } else {
        let s1 = sp_advance(s);
        if !(cur_char(s1) is Some && digit(cur_char(s1)->0)) {
            Err(MMLError::InvalidBlockId(sp_position(s1)))
        } else {
            let (s2, id) = sp_number(s1);
            if id != s.next_block_id || 127 < id {
                Err(MMLError::InvalidBlockId(sp_position(s2)))
            } else {
                match sp_sequence(sp_set_default(s2)) {
                    Err(e) => Err(e),
                    Ok((s4, em_b, ev)) => {
                        if ev == 0 {
                            Err(MMLError::InvalidBlock(sp_position(s4)))
                        } else {
                            let s5 = sp_skip_ws(s4);
                            if cur_char(s5) != Some('}') {
                                Err(MMLError::InvalidBlockEnd(sp_position(s5)))
                            } else {
                                Ok(
                                    (
                                        PState {
                                            next_block_id: s.next_block_id + 1,
                                            ..sp_advance(s5)
                                        },
                                        seq![tone::BLOCK_START, id as u8] + em_b + seq![
                                            tone::BLOCK_END,
                                            id as u8,
                                        ],
                                        true,
                                    ),
                                )
                            }
                        }
                    },
                }
            }
        }
    }
}

/// The block region: block definitions as long as a `{` opens one.
pub open spec fn sp_blocks(s: PState) -> Result<(PState, Seq<u8>), MMLError>
    decreases s.src.len() - s.pos,
    when cursor_inv(s)
{
    match sp_block(s) {
        Err(e) => Err(e),
        Ok((s1, em, matched)) => {
            if matched {
                if s.pos >= s.src.len() {
                    Ok((s1, em))
                } else {
                    match sp_blocks(step_bound(sp_advance(s), s1)) {
                        Err(e) => Err(e),
                        Ok((s2, em2)) => Ok((s2, em + em2)),
                    }
                }
            } else {
                Ok((s1, em))
            }
        },
    }
}

/// The whole grammar: optional tempo and resolution directives, the tone
/// sequence header, the block region, the root sequence (which must contain
/// at least one event), and nothing but whitespace after it.
pub open spec fn sp_parse(src: Seq<char>) -> Result<Seq<u8>, MMLError> {
    match sp_tempo(sp_new(src)) {
        Err(e) => Err(e),
        Ok(s1) => match sp_resolution(s1) {
            Err(e) => Err(e),
            Ok(s2) => {
                let header = seq![
                    tone::VERSION,
                    1u8,
                    tone::TEMPO,
                    (s2.tempo / 4) as u8,
                    tone::RESOLUTION,
                    s2.resolution as u8,
                ];
                match sp_blocks(s2) {
                    Err(e) => Err(e),
                    Ok((s3, em_blocks)) => match sp_sequence(sp_set_default(s3)) {
                        Err(e) => Err(e),
                        Ok((s5, em_root, ev)) => {
                            if ev == 0 {
                                Err(MMLError::EmptySequence(sp_position(s5)))
                            } else {
                                let s6 = sp_skip_ws(s5);
                                if s6.pos < src.len() {
                                    Err(MMLError::UnexpectedRemains(sp_position(s6)))
                                } else {
                                    Ok(header + em_blocks + em_root)
                                }
                            }
                        },
                    },
                }
            },
        },
    }
}

/// How an emitting production's executable form relates to its twin: on
/// success the state is the twin's and the emission was appended to `dst`;
/// on failure the error is the twin's.
pub open spec fn emit_res(
    sp: Result<(PState, Seq<u8>, bool), MMLError>,
    r: Result<bool, MMLError>,
    s: PState,
    dst0: Seq<u8>,
    dst1: Seq<u8>,
) -> bool {
    match (sp, r) {
        (Ok((s2, em, b2)), Ok(b)) => s == s2 && dst1 == dst0 + em && b == b2,
        (Err(e2), Err(e)) => e == e2,
        _ => false,
    }
}

/// How a state-updating production's executable form relates to its twin.
pub open spec fn upd_res(
    sp: Result<(PState, bool), MMLError>,
    r: Result<bool, MMLError>,
    s: PState,
) -> bool {
    match (sp, r) {
        (Ok((s2, b2)), Ok(b)) => s == s2 && b == b2,
        (Err(e2), Err(e)) => e == e2,
        _ => false,
    }
}

/// Appends two bytes.
fn push2(dst: &mut Vec<u8>, a: u8, b: u8)
    ensures
        final(dst)@ == old(dst)@ + seq![a, b],
{
    dst.push(a);
    dst.push(b);
    proof {
        assert(dst@ =~= old(dst)@ + seq![a, b]);
    }
}

/// The parser: the source as characters, the cursor, and the mutable
/// defaults the grammar updates as it goes.
pub struct Mml {
    src: Vec<char>,
    pos: usize,
    col: usize,
    row: usize,
    next_block_id: i32,
    tempo: i32,
    resolution: i32,
    octave: i32,
    duration: i32,
}

impl View for Mml {
    type V = PState;

    closed spec fn view(&self) -> PState {
        PState {
            src: self.src@,
            pos: self.pos as int,
            col: self.col as int,
            row: self.row as int,
            next_block_id: self.next_block_id as int,
            tempo: self.tempo as int,
            resolution: self.resolution as int,
            octave: self.octave as int,
            duration: self.duration as int,
        }
    }
}

/// The parser state a source starts in: cursor at the first character,
/// column and row 1, tempo 120, resolution 64, octave at C4, default
/// duration 16, no blocks defined yet.
pub open spec fn sp_new(src: Seq<char>) -> PState {
    PState {
        src: src,
        pos: 0,
        col: 1,
        row: 1,
        next_block_id: 0,
        tempo: 120,
        resolution: 64,
        octave: tone::C4 as int,
        duration: 16,
    }
}

impl Mml {
    fn new(src: &str) -> (m: Mml)
        ensures
            m@ == sp_new(src@),
            st_inv(m@),
    {
        let n = src.unicode_len();
        let mut chars: Vec<char> = Vec::new();
        let mut i: usize = 0;
        while i < n
            invariant
                n == src@.len(),
                i <= n,
                chars@ =~= src@.subrange(0, i as int),
            decreases n - i,
        {
            chars.push(src.get_char(i));
            i = i + 1;
        }
        proof {
            assert(chars@ =~= src@);
        }
        Mml {
            src: chars,
            pos: 0,
            col: 1,
            row: 1,
            next_block_id: 0,
            tempo: 120,
            resolution: 64,
            octave: tone::C4 as i32,
            duration: 16,
        }
    }

    fn has_char(&self) -> (r: bool)
        ensures
            r == (cur_char(self@) is Some),
    {
        self.pos < self.src.len()
    }

    fn get_char(&self) -> (r: Option<char>)
        ensures
            r == cur_char(self@),
    {
        if self.pos < self.src.len() {
            Some(self.src[self.pos])
        } else {
            None
        }
    }

    fn position(&self) -> (p: Position)
        requires
            st_inv(self@),
        ensures
            p == sp_position(self@),
    {
        Position { character: self.get_char(), col: self.col, row: self.row }
    }

    fn next_char(&mut self)
        requires
            st_inv(old(self)@),
            old(self)@.pos < old(self)@.src.len(),
        ensures
            final(self)@ == sp_advance(old(self)@),
            st_inv(final(self)@),
    {
        let n = self.src.len();
        assert(self.pos < n);
        self.pos = self.pos + 1;
        let newline = self.pos < n && self.src[self.pos] == '\n';
        if newline {
            self.col = 1;
            if self.row < usize::MAX {
                self.row = self.row + 1;
            }
        } else {
            if self.col < usize::MAX {
                self.col = self.col + 1;
            }
        }
    }

    fn skip_whitespaces(&mut self)
        requires
            st_inv(old(self)@),
        ensures
            final(self)@ == sp_skip_ws(old(self)@),
            st_inv(final(self)@),
    {
        let ghost s0 = self@;
        loop
            invariant
                st_inv(self@),
                sp_skip_ws(self@) == sp_skip_ws(s0),
            ensures
                self@ == sp_skip_ws(s0),
                st_inv(self@),
            decreases self@.src.len() - self@.pos,
        {
            if self.pos < self.src.len() {
                let c = self.src[self.pos];
                if is_whitespace_char(c) {
                    self.next_char();
                } else {
                    break;
                }
            } else {
                break;
            }
        }
        proof {
            lemma_skip_ws(s0);
        }
    }

    fn parse_number(&mut self) -> (n: u32)
        requires
            st_inv(old(self)@),
        ensures
            final(self)@ == sp_number(old(self)@).0,
            n as int == sp_number(old(self)@).1,
            st_inv(final(self)@),
            n <= 0x10000,
    {
        let ghost s0 = self@;
        let mut number: u32 = 0;
        loop
            invariant_except_break
                number <= 1000,
                sp_number_loop(self@, number as int) == sp_number_loop(s0, 0),
            invariant
                st_inv(self@),
            ensures
                st_inv(self@),
                (self@, number as int) == sp_number_loop(s0, 0),
            decreases self@.src.len() - self@.pos,
        {
            if self.pos < self.src.len() {
                let c = self.src[self.pos];
                if is_digit(c) {
                    let d: u32 = c as u32 - 48;
                    let n2 = number * 10 + d;
                    if n2 > 1000 {
                        proof {
                            assert(sp_number_loop(self@, number as int) == (self@, 0x10000int));
                        }
                        number = 0x10000;
                        break;
                    }
                    number = n2;
                    self.next_char();
                } else {
                    break;
                }
            } else {
                break;
            }
        }
        proof {
            lemma_number_loop(s0, 0);
        }
        number
    }

    fn parse_tempo(&mut self) -> (r: Result<(), MMLError>)
        requires
            st_inv(old(self)@),
        ensures
            match r {
                Ok(_) => {
                    &&& sp_tempo(old(self)@) == Ok::<PState, MMLError>(final(self)@)
                    &&& st_inv(final(self)@)
                    &&& final(self)@.src == old(self)@.src
                    &&& final(self)@.next_block_id == old(self)@.next_block_id
                    &&& old(self)@.pos <= final(self)@.pos
                },
                Err(e) => sp_tempo(old(self)@) == Err::<PState, MMLError>(e),
            },
    {
        proof {
            lemma_skip_ws(old(self)@);
        }
        self.skip_whitespaces();
        let c = self.get_char();
        if !(matches!(c, Some('T' | 't'))) {
            return Ok(());
        }
        self.next_char();
        let n = self.parse_number();
        proof {
            lemma_number_loop(sp_advance(sp_skip_ws(old(self)@)), 0);
        }
        if 20 <= n && n <= 508 {
            self.tempo = n as i32;
            Ok(())
        } else {
            Err(MMLError::InvalidTempo(self.position()))
        }
    }

    fn parse_resolution(&mut self) -> (r: Result<(), MMLError>)
        requires
            st_inv(old(self)@),
        ensures
            match r {
                Ok(_) => {
                    &&& sp_resolution(old(self)@) == Ok::<PState, MMLError>(final(self)@)
                    &&& st_inv(final(self)@)
                    &&& final(self)@.src == old(self)@.src
                    &&& final(self)@.next_block_id == old(self)@.next_block_id
                    &&& old(self)@.pos <= final(self)@.pos
                },
                Err(e) => sp_resolution(old(self)@) == Err::<PState, MMLError>(e),
            },
    {
        proof {
            lemma_skip_ws(old(self)@);
        }
        self.skip_whitespaces();
        let c = self.get_char();
        if !(matches!(c, Some('%'))) {
            return Ok(());
        }
        self.next_char();
        let n = self.parse_number();
        proof {
            lemma_number_loop(sp_advance(sp_skip_ws(old(self)@)), 0);
        }
        if 1 <= n && n <= 127 {
            self.resolution = n as i32;
            Ok(())
        } else {
            Err(MMLError::InvalidResolution(self.position()))
        }
    }

    fn set_default(&mut self)
        requires
            st_inv(old(self)@),
        ensures
            final(self)@ == sp_set_default(old(self)@),
            st_inv(final(self)@),
    {
        self.octave = tone::C4 as i32;
        let d = self.resolution / 4;
        self.duration = if d >= 1 {
            d
        } else {
            1
        };
    }

    fn parse_duration(&mut self) -> (r: Result<u8, MMLError>)
        requires
            st_inv(old(self)@),
        ensures
            match r {
                Ok(d) => sp_duration(old(self)@) == Ok::<(PState, int), MMLError>(
                    (final(self)@, d as int),
                ) && st_inv(final(self)@) && 1 <= d <= 127,
                Err(e) => sp_duration(old(self)@) == Err::<(PState, int), MMLError>(e),
            },
    {
        let c = match self.get_char() {
            Some(c) => c,
            None => {
                return Ok(self.duration as u8);
            },
        };
        if is_digit(c) {
            let ghost s_in = self@;
            let num0 = self.parse_number();
            proof {
                lemma_number_loop(s_in, 0);
            }
            let res: u32 = self.resolution as u32;
            if !(1 <= num0 && num0 <= res) {
                return Err(MMLError::InvalidLength(self.position()));
            }
            let ghost s1 = self@;
            let ghost d_init: int = if res / num0 >= 1 {
                res as int / num0 as int
            } else {
                1
            };
            let mut num: u32 = num0;
            let d0 = res / num;
            let mut dur: u32 = if d0 >= 1 {
                d0
            } else {
                1
            };
            let mut failed = false;
            loop
                invariant_except_break
                    !failed,
                    1 <= num <= res,
                    dur <= 127 * num,
                    sp_dots(self@, num as int, dur as int) == sp_dots(s1, num0 as int, d_init),
                invariant
                    st_inv(self@),
                    self@.resolution == res,
                ensures
                    st_inv(self@),
                    if failed {
                        sp_dots(s1, num0 as int, d_init) == Err::<(PState, int), MMLError>(
                            MMLError::InvalidLength(sp_position(self@)),
                        )
                    } else {
                        sp_dots(s1, num0 as int, d_init) == Ok::<(PState, int), MMLError>(
                            (self@, dur as int),
                        )
                    },
                    dur <= 16129,
                decreases self@.src.len() - self@.pos,
            {
                match self.get_char() {
                    Some(ch) => {
                        if ch == '.' {
                            let num2 = num * 2;
                            if num2 > res {
                                failed = true;
                                break;
                            }
                            let add = res / num2;
                            let add = if add >= 1 {
                                add
                            } else {
                                1
                            };
                            assert(dur + add <= 127 * num2);
                            dur = dur + add;
                            num = num2;
                            self.next_char();
                        } else {
                            break;
                        }
                    },
                    None => {
                        break;
                    },
                }
            }
            if failed {
                return Err(MMLError::InvalidLength(self.position()));
            }
            if 1 <= dur && dur <= 127 {
                Ok(dur as u8)
            } else {
                Err(MMLError::InvalidLength(self.position()))
            }
        } else if c == '(' {
            self.next_char();
            let c2 = match self.get_char() {
                Some(c2) => c2,
                None => {
                    return Err(MMLError::InvalidDuration(self.position()));
                },
            };
            if !is_digit(c2) {
                return Err(MMLError::InvalidDuration(self.position()));
            }
            let ghost s1 = self@;
            let dur = self.parse_number();
            proof {
                lemma_number_loop(s1, 0);
            }
            if dur > 127 {
                return Err(MMLError::InvalidDuration(self.position()));
            }
            if !(matches!(self.get_char(), Some(')'))) {
                return Err(MMLError::InvalidDurationEnd(self.position()));
            }
            self.next_char();
            if 1 <= dur {
                Ok(dur as u8)
            } else {
                Err(MMLError::InvalidLength(self.position()))
            }
        } else {
            Ok(self.duration as u8)
        }
    }

    fn parse_change_octave(&mut self) -> (r: Result<bool, MMLError>)
        requires
            st_inv(old(self)@),
        ensures
            upd_res(sp_octave(old(self)@), r, final(self)@),
            r is Ok ==> st_inv(final(self)@),
            r == Ok::<bool, MMLError>(false) ==> *final(self) == *old(self),
    {
        let c = match self.get_char() {
            Some(c) => c,
            None => {
                return Ok(false);
            },
        };
        if c == '>' {
            if self.octave - 12 < 0 {
                return Err(MMLError::InvalidDecreaseOctave(self.position()));
            }
            self.octave = self.octave - 12;
            self.next_char();
            return Ok(true);
        }
        if c == '<' {
            if self.octave + 12 > 127 {
                return Err(MMLError::InvalidIncreaseOctave(self.position()));
            }
            self.octave = self.octave + 12;
            self.next_char();
            return Ok(true);
        }
        if !(c == 'o' || c == 'O') {
            return Ok(false);
        }
        self.next_char();
        let c1 = match self.get_char() {
            Some(c1) => c1,
            None => {
                return Err(MMLError::InvalidChangeOctave(self.position()));
            },
        };
        if c1 == '-' {
            self.next_char();
            let c2 = match self.get_char() {
                Some(c2) => c2,
                None => {
                    return Err(MMLError::InvalidOctaveValue(self.position()));
                },
            };
            if !is_digit(c2) {
                return Err(MMLError::InvalidOctaveValue(self.position()));
            }
            let ghost s2 = self@;
            let oct = self.parse_number();
            proof {
                lemma_number_loop(s2, 0);
            }
            let v: i32 = 60 - (oct as i32 + 4) * 12;
            if 0 <= v && v <= 127 {
                self.octave = v;
                Ok(true)
            } else {
                Err(MMLError::InvalidOctaveValue(self.position()))
            }
        } else if is_digit(c1) {
            let ghost s1 = self@;
            let oct = self.parse_number();
            proof {
                lemma_number_loop(s1, 0);
            }
            let v: i32 = 60 + (oct as i32 - 4) * 12;
            if 0 <= v && v <= 127 {
                self.octave = v;
                Ok(true)
            } else {
                Err(MMLError::InvalidOctaveValue(self.position()))
            }
        } else {
            Err(MMLError::InvalidChangeOctave(self.position()))
        }
    }

    fn parse_change_duration(&mut self) -> (r: Result<bool, MMLError>)
        requires
            st_inv(old(self)@),
        ensures
            upd_res(sp_change_duration(old(self)@), r, final(self)@),
            r is Ok ==> st_inv(final(self)@),
            r == Ok::<bool, MMLError>(false) ==> *final(self) == *old(self),
    {
        let c = match self.get_char() {
            Some(c) => c,
            None => {
                return Ok(false);
            },
        };
        if !(c == 'L' || c == 'l') {
            return Ok(false);
        }
        self.next_char();
        let c1 = match self.get_char() {
            Some(c1) => c1,
            None => {
                return Err(MMLError::InvalidDefaultDurationValue(self.position()));
            },
        };
        if !(c1 == '(' || is_digit(c1)) {
            return Err(MMLError::InvalidDefaultDurationValue(self.position()));
        }
        let d = match self.parse_duration() {
            Ok(d) => d,
            Err(e) => {
                return Err(e);
            },
        };
        self.duration = d as i32;
        Ok(true)
    }

    fn parse_note(&mut self, dst: &mut Vec<u8>) -> (r: Result<bool, MMLError>)
        requires
            st_inv(old(self)@),
        ensures
            emit_res(sp_note(old(self)@), r, final(self)@, old(dst)@, final(dst)@),
            r is Ok ==> st_inv(final(self)@),
            r == Ok::<bool, MMLError>(false) ==> *final(dst) == *old(dst) && *final(self) == *old(
                self,
            ),
            r == Ok::<bool, MMLError>(true) ==> tone_pair(
                final(dst)@.skip(old(dst)@.len() as int),
            ),
    {
        let c = match self.get_char() {
            Some(c) => c,
            None => {
                return Ok(false);
            },
        };
        let off = match note_offset_of(c) {
            Some(o) => o,
            None => {
                return Ok(false);
            },
        };
        let note1 = self.octave + off;
        if !(0 <= note1 && note1 <= 127) {
            return Err(MMLError::InvalidNote(self.position()));
        }
        self.next_char();
        let mut note2 = note1;
        match self.get_char() {
            Some('+') | Some('#') => {
                note2 = note1 + 1;
                self.next_char();
            },
            Some('-') => {
                note2 = note1 - 1;
                self.next_char();
            },
            _ => {},
        }
        if !(0 <= note2 && note2 <= 127) {
            return Err(MMLError::InvalidNote(self.position()));
        }
        let d = match self.parse_duration() {
            Ok(d) => d,
            Err(e) => {
                return Err(e);
            },
        };
        push2(dst, note2 as u8, d);
        Ok(true)
    }

    fn parse_rest(&mut self, dst: &mut Vec<u8>) -> (r: Result<bool, MMLError>)
        requires
            st_inv(old(self)@),
        ensures
            emit_res(sp_rest(old(self)@), r, final(self)@, old(dst)@, final(dst)@),
            r is Ok ==> st_inv(final(self)@),
            r == Ok::<bool, MMLError>(false) ==> *final(dst) == *old(dst) && *final(self) == *old(
                self,
            ),
            r == Ok::<bool, MMLError>(true) ==> tone_pair(
                final(dst)@.skip(old(dst)@.len() as int),
            ),
    {
        let c = match self.get_char() {
            Some(c) => c,
            None => {
                return Ok(false);
            },
        };
        if !(c == 'R' || c == 'r') {
            return Ok(false);
        }
        self.next_char();
        let d = match self.parse_duration() {
            Ok(d) => d,
            Err(e) => {
                return Err(e);
            },
        };
        push2(dst, tone::SILENCE, d);
        Ok(true)
    }

    fn parse_note_value(&mut self, dst: &mut Vec<u8>) -> (r: Result<bool, MMLError>)
        requires
            st_inv(old(self)@),
        ensures
            emit_res(sp_note_value(old(self)@), r, final(self)@, old(dst)@, final(dst)@),
            r is Ok ==> st_inv(final(self)@),
            r == Ok::<bool, MMLError>(false) ==> *final(dst) == *old(dst) && *final(self) == *old(
                self,
            ),
            r == Ok::<bool, MMLError>(true) ==> tone_pair(
                final(dst)@.skip(old(dst)@.len() as int),
            ),
    {
        let c = match self.get_char() {
            Some(c) => c,
            None => {
                return Ok(false);
            },
        };
        if !(c == 'N' || c == 'n') {
            return Ok(false);
        }
        self.next_char();
        if !(matches!(self.get_char(), Some('('))) {
            return Err(MMLError::InvalidNoteValueStart(self.position()));
        }
        self.next_char();
        let c2 = match self.get_char() {
            Some(c2) => c2,
            None => {
                return Err(MMLError::InvalidNoteValue(self.position()));
            },
        };
        if !is_digit(c2) {
            return Err(MMLError::InvalidNoteValue(self.position()));
        }
        let ghost s2 = self@;
        let note = self.parse_number();
        proof {
            lemma_number_loop(s2, 0);
        }
        if note > 127 {
            return Err(MMLError::InvalidNoteValue(self.position()));
        }
        if !(matches!(self.get_char(), Some(')'))) {
            return Err(MMLError::InvalidNoteValueEnd(self.position()));
        }
        self.next_char();
        let d = match self.parse_duration() {
            Ok(d) => d,
            Err(e) => {
                return Err(e);
            },
        };
        push2(dst, note as u8, d);
        Ok(true)
    }

    fn parse_play_block(&mut self, dst: &mut Vec<u8>) -> (r: Result<bool, MMLError>)
        requires
            st_inv(old(self)@),
        ensures
            emit_res(sp_play_block(old(self)@), r, final(self)@, old(dst)@, final(dst)@),
            r is Ok ==> st_inv(final(self)@),
            r == Ok::<bool, MMLError>(false) ==> *final(dst) == *old(dst) && *final(self) == *old(
                self,
            ),
            r == Ok::<bool, MMLError>(true) ==> seq_wf(
                final(dst)@.skip(old(dst)@.len() as int),
                old(self)@.next_block_id,
            ) && final(dst)@.len() == old(dst)@.len() + 2,
    {
        if !(matches!(self.get_char(), Some('$'))) {
            return Ok(false);
        }
        self.next_char();
        let c1 = match self.get_char() {
            Some(c1) => c1,
            None => {
                return Err(MMLError::InvalidPlayBlockId(self.position()));
            },
        };
        if !is_digit(c1) {
            return Err(MMLError::InvalidPlayBlockId(self.position()));
        }
        let ghost s1 = self@;
        let id = self.parse_number();
        proof {
            lemma_number_loop(s1, 0);
        }
        if !(id < self.next_block_id as u32) {
            return Err(MMLError::InvalidPlayBlockId(self.position()));
        }
        push2(dst, tone::PLAY_BLOCK, id as u8);
        proof {
            let em = dst@.skip(old(dst)@.len() as int);
            assert(em =~= seq![tone::PLAY_BLOCK, id as u8]);
            assert(em.skip(2) =~= Seq::<u8>::empty());
            assert(seq_wf(Seq::<u8>::empty(), old(self)@.next_block_id));
        }
        Ok(true)
    }

    fn parse_volume(&mut self, dst: &mut Vec<u8>) -> (r: Result<bool, MMLError>)
        requires
            st_inv(old(self)@),
        ensures
            emit_res(sp_volume(old(self)@), r, final(self)@, old(dst)@, final(dst)@),
            r is Ok ==> st_inv(final(self)@),
            r == Ok::<bool, MMLError>(false) ==> *final(dst) == *old(dst) && *final(self) == *old(
                self,
            ),
            r == Ok::<bool, MMLError>(true) ==> seq_wf(
                final(dst)@.skip(old(dst)@.len() as int),
                old(self)@.next_block_id,
            ) && final(dst)@.len() == old(dst)@.len() + 2,
    {
        if !(matches!(self.get_char(), Some('V' | 'v'))) {
            return Ok(false);
        }
        self.next_char();
        let c1 = match self.get_char() {
            Some(c1) => c1,
            None => {
                return Err(MMLError::InvalidVolume(self.position()));
            },
        };
        if !is_digit(c1) {
            return Err(MMLError::InvalidVolume(self.position()));
        }
        let ghost s1 = self@;
        let v = self.parse_number();
        proof {
            lemma_number_loop(s1, 0);
        }
        if v > 100 {
            return Err(MMLError::InvalidVolume(self.position()));
        }
        push2(dst, tone::SET_VOLUME, v as u8);
        proof {
            let em = dst@.skip(old(dst)@.len() as int);
            assert(em =~= seq![tone::SET_VOLUME, v as u8]);
            assert(em.skip(2) =~= Seq::<u8>::empty());
            assert(seq_wf(Seq::<u8>::empty(), old(self)@.next_block_id));
        }
        Ok(true)
    }

    #[verifier::rlimit(100)]
    #[verifier::spinoff_prover]
    fn parse_repeat(&mut self, dst: &mut Vec<u8>) -> (r: Result<bool, MMLError>)
        requires
            st_inv(old(self)@),
        ensures
            match r {
                Ok(b) => {
                    if b {
                        &&& cur_char(old(self)@) == Some('[')
                        &&& ({
                            let em = final(dst)@.skip(old(dst)@.len() as int);
                            &&& final(dst)@ == old(dst)@ + em
                            &&& sp_repeat_body(old(self)@) == Ok::<(PState, Seq<u8>), MMLError>(
                                (final(self)@, em),
                            )
                            &&& st_inv(final(self)@)
                            &&& final(self)@.next_block_id == old(self)@.next_block_id
                            &&& final(self)@.src == old(self)@.src
                            &&& old(self)@.pos < final(self)@.pos
                            &&& seq_wf(em, old(self)@.next_block_id)
                            &&& em.len() >= 1
                        })
                    } else {
                        &&& cur_char(old(self)@) != Some('[')
                        &&& *final(self) == *old(self)
                        &&& *final(dst) == *old(dst)
                    }
                },
                Err(e) => cur_char(old(self)@) == Some('[') && sp_repeat_body(old(self)@)
                    == Err::<(PState, Seq<u8>), MMLError>(e),
            },
        decreases self@.src.len() - self@.pos, 0int,
    {
        let ghost s0 = self@;
        if !(matches!(self.get_char(), Some('['))) {
            return Ok(false);
        }
        self.next_char();
        let ghost s1 = self@;
        let c1 = match self.get_char() {
            Some(c1) => c1,
            None => {
                return Err(MMLError::InvalidRepeat(self.position()));
            },
        };
        if !is_digit(c1) {
            return Err(MMLError::InvalidRepeat(self.position()));
        }
        let m = self.parse_number();
        proof {
            lemma_number_strict(s1);
            lemma_number_loop(s1, 0);
        }
        if !(2 <= m && m <= 127) {
            return Err(MMLError::InvalidRepeatNumber(self.position()));
        }
        let ghost s2 = self@;
        let mut buf: Vec<u8> = Vec::new();
        let event = match self.parse_sequence(&mut buf) {
            Ok(e) => e,
            Err(e) => {
                proof {
                    reveal_with_fuel(sp_repeat_body, 2);
                    lemma_skip_ws(s2);
                    assert(step_bound(s1, sp_skip_ws(s2)) == sp_skip_ws(s2));
                }
                return Err(e);
            },
        };
        proof {
            reveal_with_fuel(sp_repeat_body, 2);
            lemma_skip_ws(s2);
            assert(step_bound(s1, sp_skip_ws(s2)) == sp_skip_ws(s2));
            assert(step_bound(sp_skip_ws(s2), self@) == self@);
            assert(buf@.skip(0) =~= buf@);
        }
        if event == 0 || buf.len() == 0 {
            return Err(MMLError::InvalidRepeat(self.position()));
        }
        let ghost sb = self@;
        self.skip_whitespaces();
        proof {
            lemma_skip_ws(sb);
        }
        if !(matches!(self.get_char(), Some(']'))) {
            return Err(MMLError::InvalidRepeatEnd(self.position()));
        }
        self.next_char();
        if event == 3 && buf.len() == 2 {
            let ghost dst_before = dst@;
            dst.push(tone::REPEAT);
            dst.push(m as u8);
            dst.push(buf[0]);
            dst.push(buf[1]);
            proof {
                let em = seq![tone::REPEAT, m as u8] + buf@;
                assert(dst@ =~= dst_before + em);
                assert(em =~= dst@.skip(dst_before.len() as int));
                assert(em[0] == tone::REPEAT && em[1] == m as u8 && em[2] == buf@[0] && em[3]
                    == buf@[1]);
                assert(tone_pair(buf@));
                assert(head_record_wf(em, s0.next_block_id));
                assert(em.skip(4) =~= Seq::<u8>::empty());
                assert(seq_wf(Seq::<u8>::empty(), s0.next_block_id));
                assert(seq_wf(em, s0.next_block_id));
                reveal_with_fuel(sp_repeat_body, 2);
                assert(sp_repeat_body(s0) == Ok::<(PState, Seq<u8>), MMLError>((self@, em)));
            }
            Ok(true)
        } else {
            let ghost dst_before = dst@;
            let mut i: u32 = 0;
            while i < m
                invariant
                    i <= m,
                    dst@ == dst_before + tone::repeat_seq(buf@, i as nat),
                    dst_before.len() <= dst@.len(),
                decreases m - i,
            {
                proof {
                    tone::lemma_repeat_seq_snoc(buf@, i as nat);
                }
                dst.extend_from_slice(buf.as_slice());
                proof {
                    assert(dst@ =~= dst_before + tone::repeat_seq(buf@, (i + 1) as nat));
                }
                i = i + 1;
            }
            proof {
                let em = tone::repeat_seq(buf@, m as nat);
                assert(em =~= dst@.skip(dst_before.len() as int));
                tone::lemma_repeat_seq_wf(buf@, m as nat, s0.next_block_id);
                tone::lemma_repeat_seq_len(buf@, m as nat);
                assert(em.len() == (m as nat) * buf@.len());
                assert((m as nat) * buf@.len() >= 1) by (nonlinear_arith)
                    requires
                        m >= 2,
                        buf@.len() >= 1,
                ;
                reveal_with_fuel(sp_repeat_body, 2);
                assert(sp_repeat_body(s0) == Ok::<(PState, Seq<u8>), MMLError>((self@, em)));
            }
            Ok(true)
        }
    }

    #[verifier::rlimit(100)]
    #[verifier::spinoff_prover]
    fn parse_sequence_step(&mut self, dst: &mut Vec<u8>, event: i32) -> (r: Result<
        (i32, bool),
        MMLError,
    >)
        requires
            st_inv(old(self)@),
            0 <= event <= 9,
            event == 0 || event % 2 == 1,
        ensures
            match r {
                Ok((e2, more)) => {
                    if more {
                        let em = final(dst)@.skip(old(dst)@.len() as int);
                        &&& final(dst)@ == old(dst)@ + em
                        &&& sp_sequence_loop(old(self)@, event as int) == seq_step(
                            em,
                            sp_sequence_loop(final(self)@, e2 as int),
                        )
                        &&& st_inv(final(self)@)
                        &&& final(self)@.next_block_id == old(self)@.next_block_id
                        &&& final(self)@.src == old(self)@.src
                        &&& old(self)@.pos < final(self)@.pos <= final(self)@.src.len()
                        &&& seq_wf(em, old(self)@.next_block_id)
                        &&& 0 <= e2 <= 9
                        &&& (e2 == event as int || e2 as int == ev_tone(event as int) || e2 as int
                            == ev_mark(event as int))
                        &&& (em.len() == 0 ==> e2 == event)
                        &&& ((event == 0 || event == 1) && e2 == 3 ==> tone_pair(em))
                        &&& (e2 != event ==> e2 % 2 == 1)
                    } else {
                        &&& e2 == event
                        &&& *final(self) == *old(self)
                        &&& *final(dst) == *old(dst)
                        &&& sp_sequence_loop(old(self)@, event as int) == Ok::<
                            (PState, Seq<u8>, int),
                            MMLError,
                        >((old(self)@, Seq::empty(), event as int))
                    }
                },
                Err(e) => sp_sequence_loop(old(self)@, event as int) == Err::<
                    (PState, Seq<u8>, int),
                    MMLError,
                >(e),
            },
        decreases self@.src.len() - self@.pos, 1int,
    {
        let ghost s_i = self@;
        let ghost ev_i = event as int;
        let ghost dst0 = dst@;
        if !self.has_char() {
            return Ok((event, false));
        }
        let b_oct = match self.parse_change_octave() {
            Ok(b) => b,
            Err(e) => {
                return Err(e);
            },
        };
        if b_oct {
            let ghost mid = self@;
            self.skip_whitespaces();
            proof {
                lemma_sp_octave_adv(s_i);
                lemma_skip_ws(mid);
                assert(step_bound(sp_advance(s_i), sp_skip_ws(mid)) == sp_skip_ws(mid));
                assert(dst@.skip(dst0.len() as int) =~= Seq::<u8>::empty());
                assert(dst@ =~= dst0 + Seq::<u8>::empty());
                assert(seq_wf(Seq::<u8>::empty(), s_i.next_block_id));
                assert(seq_step(Seq::<u8>::empty(), sp_sequence_loop(self@, ev_i))
                    == sp_sequence_loop(self@, ev_i));
            }
            return Ok((event, true));
        }
        let b_dur = match self.parse_change_duration() {
            Ok(b) => b,
            Err(e) => {
                return Err(e);
            },
        };
        if b_dur {
            let ghost mid = self@;
            self.skip_whitespaces();
            proof {
                lemma_sp_change_duration_adv(s_i);
                lemma_skip_ws(mid);
                assert(step_bound(sp_advance(s_i), sp_skip_ws(mid)) == sp_skip_ws(mid));
                assert(dst@.skip(dst0.len() as int) =~= Seq::<u8>::empty());
                assert(dst@ =~= dst0 + Seq::<u8>::empty());
                assert(seq_wf(Seq::<u8>::empty(), s_i.next_block_id));
                assert(seq_step(Seq::<u8>::empty(), sp_sequence_loop(self@, ev_i))
                    == sp_sequence_loop(self@, ev_i));
            }
            return Ok((event, true));
        }
        let mut tone_event = false;
        let mut matched = false;
        let ghost mut mid: PState = s_i;
        let b_note = match self.parse_note(dst) {
            Ok(b) => b,
            Err(e) => {
                return Err(e);
            },
        };
        proof {
            if b_note {
                lemma_sp_note_adv(s_i);
                mid = self@;
                let em_i = dst@.skip(dst0.len() as int);
                assert(match sp_note(s_i) {
                    Ok((s2, em, b2)) => s2 == mid && b2 && em_i =~= em,
                    _ => false,
                });
                lemma_tone_pair_wf(em_i, s_i.next_block_id);
            }
        }
        if b_note {
            tone_event = true;
            matched = true;
        }
        if !matched {
            let b_rest = match self.parse_rest(dst) {
                Ok(b) => b,
                Err(e) => {
                    proof {
                        reveal_with_fuel(sp_sequence_loop, 4);
                    }
                    return Err(e);
                },
            };
            proof {
                if b_rest {
                    lemma_sp_rest_adv(s_i);
                    mid = self@;
                    let em_i = dst@.skip(dst0.len() as int);
                    assert(match sp_rest(s_i) {
                        Ok((s2, em, b2)) => s2 == mid && b2 && em_i =~= em,
                        _ => false,
                    });
                    lemma_tone_pair_wf(em_i, s_i.next_block_id);
                }
            }
            if b_rest {
                tone_event = true;
                matched = true;
            }
        }
        if !matched {
            let b_nv = match self.parse_note_value(dst) {
                Ok(b) => b,
                Err(e) => {
                    proof {
                        reveal_with_fuel(sp_sequence_loop, 4);
                    }
                    return Err(e);
                },
            };
            proof {
                if b_nv {
                    lemma_sp_note_value_adv(s_i);
                    mid = self@;
                    let em_i = dst@.skip(dst0.len() as int);
                    assert(match sp_note_value(s_i) {
                        Ok((s2, em, b2)) => s2 == mid && b2 && em_i =~= em,
                        _ => false,
                    });
                    lemma_tone_pair_wf(em_i, s_i.next_block_id);
                }
            }
            if b_nv {
                tone_event = true;
                matched = true;
            }
        }
        if !matched {
            let b_play = match self.parse_play_block(dst) {
                Ok(b) => b,
                Err(e) => {
                    proof {
                        reveal_with_fuel(sp_sequence_loop, 4);
                    }
                    return Err(e);
                },
            };
            proof {
                if b_play {
                    lemma_sp_play_block_adv(s_i);
                    mid = self@;
                    let em_i = dst@.skip(dst0.len() as int);
                    assert(match sp_play_block(s_i) {
                        Ok((s2, em, b2)) => s2 == mid && b2 && em_i =~= em,
                        _ => false,
                    });
                }
            }
            if b_play {
                matched = true;
            }
        }
        if !matched {
            let b_rep = match self.parse_repeat(dst) {
                Ok(b) => b,
                Err(e) => {
                    proof {
                        reveal_with_fuel(sp_sequence_loop, 4);
                    }
                    return Err(e);
                },
            };
            proof {
                if b_rep {
                    mid = self@;
                    let em_i = dst@.skip(dst0.len() as int);
                    assert(match sp_repeat_body(s_i) {
                        Ok((s2, em)) => s2 == mid && em_i =~= em,
                        _ => false,
                    });
                }
            }
            if b_rep {
                matched = true;
            }
        }
        if !matched {
            let b_vol = match self.parse_volume(dst) {
                Ok(b) => b,
                Err(e) => {
                    proof {
                        reveal_with_fuel(sp_sequence_loop, 4);
                    }
                    return Err(e);
                },
            };
            proof {
                if b_vol {
                    lemma_sp_volume_adv(s_i);
                    mid = self@;
                    let em_i = dst@.skip(dst0.len() as int);
                    assert(match sp_volume(s_i) {
                        Ok((s2, em, b2)) => s2 == mid && b2 && em_i =~= em,
                        _ => false,
                    });
                }
            }
            if b_vol {
                matched = true;
            }
        }
        if !matched {
            if matches!(self.get_char(), Some(']' | '}')) {
                proof {
                    reveal_with_fuel(sp_sequence_loop, 4);
                }
                return Ok((event, false));
            }
            proof {
                reveal_with_fuel(sp_sequence_loop, 4);
            }
            return Err(MMLError::InvalidCharacter(self.position()));
        }
        let mut event = event;
        if tone_event {
            if event < 8 {
                event = event + 2;
            }
        }
        let ghost mid2 = self@;
        self.skip_whitespaces();
        if event % 2 == 0 {
            event = event + 1;
        }
        proof {
            reveal_with_fuel(sp_sequence_loop, 4);
            lemma_skip_ws(mid);
            assert(mid2 == mid);
            assert(step_bound(sp_advance(s_i), sp_skip_ws(mid)) == sp_skip_ws(mid));
            assert(self@ == sp_skip_ws(mid));
            if tone_event {
                assert(event as int == ev_tone(ev_i));
            } else {
                assert(event as int == ev_mark(ev_i));
            }
            let em = dst@.skip(dst0.len() as int);
            assert(dst@ =~= dst0 + em);
            assert(sp_sequence_loop(s_i, ev_i) == seq_step(
                em,
                sp_sequence_loop(self@, event as int),
            ));
        }
        Ok((event, true))
    }

    fn validate_remains(&mut self) -> (r: Result<(), MMLError>)
        requires
            st_inv(old(self)@),
        ensures
            ({
                let s = sp_skip_ws(old(self)@);
                match r {
                    Ok(_) => final(self)@ == s && s.pos >= s.src.len(),
                    Err(e) => s.pos < s.src.len() && e == MMLError::UnexpectedRemains(
                        sp_position(s),
                    ),
                }
            }),
    {
        self.skip_whitespaces();
        if self.has_char() {
            Err(MMLError::UnexpectedRemains(self.position()))
        } else {
            Ok(())
        }
    }

    #[verifier::rlimit(100)]
    #[verifier::spinoff_prover]
    fn parse_block(&mut self, dst: &mut Vec<u8>) -> (r: Result<bool, MMLError>)
        requires
            st_inv(old(self)@),
        ensures
            match r {
                Ok(b) => {
                    if b {
                        let em = final(dst)@.skip(old(dst)@.len() as int);
                        &&& final(dst)@ == old(dst)@ + em
                        &&& sp_block(old(self)@) == Ok::<(PState, Seq<u8>, bool), MMLError>(
                            (final(self)@, em, true),
                        )
                        &&& st_inv(final(self)@)
                        &&& final(self)@.src == old(self)@.src
                        &&& old(self)@.pos < final(self)@.pos <= final(self)@.src.len()
                        &&& final(self)@.next_block_id == old(self)@.next_block_id + 1
                        &&& 0 <= old(self)@.next_block_id <= 127
                        &&& em.len() >= 4
                        &&& em[0] == tone::BLOCK_START
                        &&& em[1] as int == old(self)@.next_block_id
                        &&& forall|rest: Seq<u8>| #[trigger] tone::block_body_wf(
                            em.skip(2) + rest,
                            old(self)@.next_block_id,
                        ) == Some(em.len() - 2)
                    } else {
                        &&& sp_block(old(self)@) == Ok::<(PState, Seq<u8>, bool), MMLError>(
                            (final(self)@, Seq::empty(), false),
                        )
                        &&& *final(dst) == *old(dst)
                        &&& final(self)@ == sp_skip_ws(old(self)@)
                        &&& st_inv(final(self)@)
                    }
                },
                Err(e) => sp_block(old(self)@) == Err::<(PState, Seq<u8>, bool), MMLError>(e),
            },
    {
        let ghost s0 = old(self)@;
        self.skip_whitespaces();
        proof {
            lemma_skip_ws(s0);
        }
        let ghost s = self@;
        if !(matches!(self.get_char(), Some('{'))) {
            return Ok(false);
        }
        self.next_char();
        let ghost s1 = self@;
        let c1 = match self.get_char() {
            Some(c1) => c1,
            None => {
                return Err(MMLError::InvalidBlockId(self.position()));
            },
        };
        if !is_digit(c1) {
            return Err(MMLError::InvalidBlockId(self.position()));
        }
        let id = self.parse_number();
        proof {
            lemma_number_strict(s1);
            lemma_number_loop(s1, 0);
        }
        if !(id == self.next_block_id as u32 && id <= 127) {
            return Err(MMLError::InvalidBlockId(self.position()));
        }
        let ghost dst_in = dst@;
        push2(dst, tone::BLOCK_START, id as u8);
        self.set_default();
        let ghost s3 = self@;
        let ghost dst_mid = dst@;
        let event = match self.parse_sequence(dst) {
            Ok(e) => e,
            Err(e) => {
                return Err(e);
            },
        };
        let ghost em_b = dst@.skip(dst_mid.len() as int);
        if event == 0 {
            return Err(MMLError::InvalidBlock(self.position()));
        }
        let ghost s4 = self@;
        self.skip_whitespaces();
        proof {
            lemma_skip_ws(s4);
        }
        if !(matches!(self.get_char(), Some('}'))) {
            return Err(MMLError::InvalidBlockEnd(self.position()));
        }
        self.next_char();
        push2(dst, tone::BLOCK_END, id as u8);
        self.next_block_id = self.next_block_id + 1;
        proof {
            let em = seq![tone::BLOCK_START, id as u8] + em_b + seq![tone::BLOCK_END, id as u8];
            assert(dst@ =~= dst_in + em);
            assert(em =~= dst@.skip(dst_in.len() as int));
            assert forall|rest: Seq<u8>| #[trigger] tone::block_body_wf(
                em.skip(2) + rest,
                s0.next_block_id,
            ) == Some(em.len() - 2) by {
                tone::lemma_block_body_scan(em_b, s0.next_block_id, rest);
                assert(em.skip(2) + rest =~= em_b + seq![tone::BLOCK_END, id as u8] + rest);
            }
        }
        Ok(true)
    }

    #[verifier::rlimit(100)]
    #[verifier::spinoff_prover]
    fn parse_sequence(&mut self, dst: &mut Vec<u8>) -> (r: Result<i32, MMLError>)
        requires
            st_inv(old(self)@),
        ensures
            match r {
                Ok(e) => ({
                    let em = final(dst)@.skip(old(dst)@.len() as int);
                    &&& final(dst)@ == old(dst)@ + em
                    &&& sp_sequence(old(self)@) == Ok::<(PState, Seq<u8>, int), MMLError>(
                        (final(self)@, em, e as int),
                    )
                    &&& st_inv(final(self)@)
                    &&& final(self)@.next_block_id == old(self)@.next_block_id
                    &&& final(self)@.src == old(self)@.src
                    &&& old(self)@.pos <= final(self)@.pos <= final(self)@.src.len()
                    &&& sp_skip_ws(old(self)@).pos <= final(self)@.pos
                    &&& seq_wf(em, old(self)@.next_block_id)
                    &&& 0 <= e <= 9
                    &&& (e == 3 && em.len() == 2 ==> tone_pair(em))
                }),
                Err(e) => sp_sequence(old(self)@) == Err::<(PState, Seq<u8>, int), MMLError>(e),
            },
        decreases self@.src.len() - self@.pos, 2int,
    {
        self.skip_whitespaces();
        let ghost s_start = self@;
        let ghost dst0 = dst@;
        proof {
            lemma_skip_ws(old(self)@);
            assert(dst@.skip(dst0.len() as int) =~= Seq::<u8>::empty());
            assert(dst@ =~= dst0 + dst@.skip(dst0.len() as int));
            assert(seq_wf(Seq::<u8>::empty(), s_start.next_block_id));
        }
        let mut event: i32 = 0;
        let mut out: Result<i32, MMLError> = Ok(0);
        loop
            invariant_except_break
                st_inv(self@),
                st_inv(s_start),
                old(self)@.pos <= self@.pos,
                self@.src == old(self)@.src,
                self@.src == s_start.src,
                self@.next_block_id == s_start.next_block_id,
                s_start.pos <= self@.pos <= self@.src.len(),
                0 <= event <= 9,
                event == 0 || event % 2 == 1,
                dst0.len() <= dst@.len(),
                dst@ == dst0 + dst@.skip(dst0.len() as int),
                seq_wf(dst@.skip(dst0.len() as int), s_start.next_block_id),
                event >= 2 ==> dst@.len() >= dst0.len() + 2,
                (event == 3 && dst@.len() == dst0.len() + 2) ==> tone_pair(
                    dst@.skip(dst0.len() as int),
                ),
                sp_sequence_loop(s_start, 0) == seq_step(
                    dst@.skip(dst0.len() as int),
                    sp_sequence_loop(self@, event as int),
                ),
            ensures
                match out {
                    Ok(_) => ({
                        let em = dst@.skip(dst0.len() as int);
                        &&& out == Ok::<i32, MMLError>(event)
                        &&& st_inv(self@)
                        &&& self@.src == s_start.src
                        &&& self@.next_block_id == s_start.next_block_id
                        &&& s_start.pos <= self@.pos <= self@.src.len()
                        &&& dst@ == dst0 + em
                        &&& seq_wf(em, s_start.next_block_id)
                        &&& 0 <= event <= 9
                        &&& (event == 3 && em.len() == 2 ==> tone_pair(em))
                        &&& sp_sequence_loop(s_start, 0) == Ok::<(PState, Seq<u8>, int), MMLError>(
                            (self@, em, event as int),
                        )
                    }),
                    Err(e) => sp_sequence_loop(s_start, 0) == Err::<
                        (PState, Seq<u8>, int),
                        MMLError,
                    >(e),
                },
            decreases self@.src.len() - self@.pos,
        {
            let ghost s_i = self@;
            let ghost acc = dst@.skip(dst0.len() as int);
            let ghost ev_i = event as int;
            match self.parse_sequence_step(dst, event) {
                Err(e) => {
                    out = Err(e);
                    break;
                },
                Ok((e2, more)) => {
                    if !more {
                        proof {
                            assert(acc + Seq::<u8>::empty() =~= acc);
                        }
                        out = Ok(event);
                        break;
                    }
                    proof {
                        let em_i = dst@.skip(dst0.len() as int + acc.len() as int);
                        assert(dst@ == (dst0 + acc) + em_i);
                        lemma_seq_step_assoc(acc, em_i, sp_sequence_loop(self@, e2 as int));
                        assert(dst@.skip(dst0.len() as int) =~= acc + em_i);
                        assert(dst@ =~= dst0 + (acc + em_i));
                        tone::lemma_seq_wf_concat(acc, em_i, s_start.next_block_id);
                        if e2 == 3 && dst@.len() == dst0.len() + 2 {
                            if em_i.len() == 0 {
                                assert(dst@.skip(dst0.len() as int) =~= acc);
                            } else {
                                assert(acc.len() != 1);
                                assert(acc.len() == 0);
                                assert(dst@.skip(dst0.len() as int) =~= em_i);
                            }
                        }
                    }
                    event = e2;
                },
            }
        }
        match out {
            Ok(_) => Ok(event),
            Err(e) => Err(e),
        }
    }
}

/// Compiles MML source text into tone-sequence bytecode. The result is
/// exactly what the grammar twin [`sp_parse`] describes, and on success the
/// bytecode is well-formed in the sense of [`tone::tseq_wf`]: every duration
/// lies in 1..=127, every note in 0..=127, block ids count up from zero, and
/// every block playback names a block already closed.
#[verifier::rlimit(100)]
#[verifier::spinoff_prover]
pub fn parse(src: &str) -> (r: Result<Vec<u8>, MMLError>)
    ensures
        match r {
            Ok(buf) => sp_parse(src@) == Ok::<Seq<u8>, MMLError>(buf@) && tone::tseq_wf(buf@),
            Err(e) => sp_parse(src@) == Err::<Seq<u8>, MMLError>(e),
        },
{
    let mut mml = Mml::new(src);
    match mml.parse_tempo() {
        Ok(_) => {},
        Err(e) => {
            return Err(e);
        },
    }
    match mml.parse_resolution() {
        Ok(_) => {},
        Err(e) => {
            return Err(e);
        },
    }
    let ghost s2 = mml@;
    let mut buf: Vec<u8> = Vec::new();
    buf.push(tone::VERSION);
    buf.push(1);
    buf.push(tone::TEMPO);
    buf.push((mml.tempo / 4) as u8);
    buf.push(tone::RESOLUTION);
    buf.push(mml.resolution as u8);
    let ghost header = buf@;
    proof {
        assert(header =~= seq![
            tone::VERSION,
            1u8,
            tone::TEMPO,
            (s2.tempo / 4) as u8,
            tone::RESOLUTION,
            s2.resolution as u8,
        ]);
        assert(buf@.skip(header.len() as int) =~= Seq::<u8>::empty());
        assert(buf@ =~= header + buf@.skip(header.len() as int));
        assert forall|rest: Seq<u8>|
            #[trigger] tone::blocks_wf(buf@.skip(header.len() as int) + rest, 0) == (
        match tone::blocks_wf(rest, s2.next_block_id) {
            Some((l, n)) => Some::<(int, int)>((buf@.len() - header.len() + l, n)),
            None => None::<(int, int)>,
        }) by {
            assert(buf@.skip(header.len() as int) + rest =~= rest);
        }
    }
    let mut blk_err: Option<MMLError> = None;
    loop
        invariant_except_break
            blk_err is None,
            st_inv(mml@),
            st_inv(s2),
            mml@.src == s2.src,
            s2.pos <= mml@.pos <= mml@.src.len(),
            header.len() <= buf@.len(),
            buf@ == header + buf@.skip(header.len() as int),
            0 <= mml@.next_block_id <= 128,
            forall|rest: Seq<u8>|
                #[trigger] tone::blocks_wf(buf@.skip(header.len() as int) + rest, 0) == (
                match tone::blocks_wf(rest, mml@.next_block_id) {
                    Some((l, n)) => Some::<(int, int)>(
                        (buf@.len() - header.len() + l, n),
                    ),
                    None => None::<(int, int)>,
                }),
            ({
                let acc = buf@.skip(header.len() as int);
                match sp_blocks(mml@) {
                    Ok((sf, em2)) => sp_blocks(s2) == Ok::<(PState, Seq<u8>), MMLError>(
                        (sf, acc + em2),
                    ),
                    Err(e) => sp_blocks(s2) == Err::<(PState, Seq<u8>), MMLError>(e),
                }
            }),
        ensures
            match blk_err {
                None => {
                    &&& st_inv(mml@)
                    &&& mml@.src == s2.src
                    &&& s2.pos <= mml@.pos <= mml@.src.len()
                    &&& header.len() <= buf@.len()
                    &&& buf@ == header + buf@.skip(header.len() as int)
                    &&& 0 <= mml@.next_block_id <= 128
                    &&& (forall|rest: Seq<u8>|
                        #[trigger] tone::blocks_wf(buf@.skip(header.len() as int) + rest, 0) == (
                        match tone::blocks_wf(rest, mml@.next_block_id) {
                            Some((l, n)) => Some::<(int, int)>(
                                (buf@.len() - header.len() + l, n),
                            ),
                            None => None::<(int, int)>,
                        }))
                    &&& sp_blocks(s2) == Ok::<(PState, Seq<u8>), MMLError>(
                        (mml@, buf@.skip(header.len() as int)),
                    )
                },
                Some(e) => sp_blocks(s2) == Err::<(PState, Seq<u8>), MMLError>(e),
            },
        decreases mml@.src.len() - mml@.pos,
    {
        let ghost s_i = mml@;
        let ghost acc = buf@.skip(header.len() as int);
        let more = match mml.parse_block(&mut buf) {
            Ok(b) => b,
            Err(e) => {
                blk_err = Some(e);
                break;
            },
        };
        if !more {
            proof {
                lemma_skip_ws(s_i);
                assert(acc + Seq::<u8>::empty() =~= acc);
            }
            break;
        }
        proof {
            let em_b = buf@.skip(header.len() as int + acc.len() as int);
            assert(buf@ == (header + acc) + em_b);
            assert(buf@.skip(header.len() as int) =~= acc + em_b);
            assert(buf@ =~= header + (acc + em_b));
            assert(step_bound(sp_advance(s_i), mml@) == mml@);
            assert forall|rest: Seq<u8>|
                #[trigger] tone::blocks_wf((acc + em_b) + rest, 0) == (match tone::blocks_wf(
                rest,
                mml@.next_block_id,
            ) {
                Some((l, n)) => Some::<(int, int)>((acc.len() + em_b.len() + l, n)),
                None => None::<(int, int)>,
            }) by {
                tone::lemma_blocks_wf_step(em_b, rest, s_i.next_block_id);
                assert((acc + em_b) + rest =~= acc + (em_b + rest));
            }
            match sp_blocks(mml@) {
                Ok((sf, em2)) => {
                    assert(acc + (em_b + em2) =~= (acc + em_b) + em2);
                },
                Err(_) => {},
            }
        }
    }
    match blk_err {
        Some(e) => {
            return Err(e);
        },
        None => {},
    }
    mml.set_default();
    let ghost s4 = mml@;
    let ghost acc_blocks = buf@.skip(header.len() as int);
    let event = match mml.parse_sequence(&mut buf) {
        Ok(e) => e,
        Err(e) => {
            return Err(e);
        },
    };
    let ghost em_root = buf@.skip(header.len() as int + acc_blocks.len() as int);
    proof {
        assert(buf@ == (header + acc_blocks) + em_root);
    }
    if event == 0 {
        return Err(MMLError::EmptySequence(mml.position()));
    }
    let ghost s5g = mml@;
    proof {
        lemma_skip_ws(s5g);
    }
    match mml.validate_remains() {
        Ok(_) => {},
        Err(e) => {
            return Err(e);
        },
    }
    proof {
        let t = buf@;
        assert(t =~= header + acc_blocks + em_root);
        assert(t.skip(6) =~= acc_blocks + em_root);
        tone::lemma_seq_wf_stops_blocks(em_root, s4.next_block_id);
        assert(tone::blocks_wf(acc_blocks + em_root, 0) == Some::<(int, int)>(
            (acc_blocks.len() as int, s4.next_block_id),
        ));
        assert(t.skip(6 + acc_blocks.len() as int) =~= em_root);
        assert(tone::tseq_wf(t));
    }
    Ok(buf)
}

fn note_offset_of(c: char) -> (r: Option<i32>)
    ensures
        match (r, note_offset(c)) {
            (Some(a), Some(b)) => a as int == b,
            (None, None) => true,
            _ => false,
        },
{
    match c {
        'C' | 'c' => Some(0),
        'D' | 'd' => Some(2),
        'E' | 'e' => Some(4),
        'F' | 'f' => Some(5),
        'G' | 'g' => Some(7),
        'A' | 'a' => Some(9),
        'B' | 'b' => Some(11),
        _ => None,
    }
}

} // verus!
