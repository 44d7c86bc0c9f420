//! The encoder: tone-sequence bytecode to a Standard MIDI File byte buffer.
//!
//! The encoder is a small bytecode interpreter with a block call-stack. Its
//! mathematical twin is a step function over [`EncSt`]; the interpreter's
//! result is pinned down as the unique fixpoint the step function reaches,
//! so the whole translation is a function of the bytecode and the program
//! number alone. The interpreter trusts bytecode validated by the parser
//! ([`crate::tone::tseq_wf`]); reads are nonetheless bounds-checked, with a
//! zero byte standing in for anything out of range.

use vstd::prelude::*;
use crate::tone;

verus! {

/// A bounds-checked read: the byte at `i`, or zero outside the buffer.
pub open spec fn rd(t: Seq<u8>, i: int) -> u8 {
    if 0 <= i < t.len() {
        t[i]
    } else {
        0
    }
}

/// A position clamped to the buffer, so the cursor never leaves `0..=len`.
pub open spec fn cpos(t: Seq<u8>, p: int) -> int {
    if p <= t.len() {
        p
    } else {
        t.len() as int
    }
}

/// Delta times saturate at the largest value a four-byte variable-length
/// quantity can carry.
pub const MAX_DELTA: u32 = 0x0FFF_FFFF;

/// A saturating delta-time accumulation.
pub open spec fn dsat(d: int) -> int {
    if d <= MAX_DELTA as int {
        d
    } else {
        MAX_DELTA as int
    }
}

/// The variable-length-quantity encoding of a delta time `0..=0x0FFF_FFFF`:
/// big-endian seven-bit groups, a continuation bit on every byte but the
/// last.
pub open spec fn dt_bytes(n: int) -> Seq<u8> {
    if n < 0x80 {
        seq![n as u8]
    } else if n < 0x4000 {
        seq![(0x80 + n / 0x80 % 0x80) as u8, (n % 0x80) as u8]
    } else if n < 0x200000 {
        seq![(0x80 + n / 0x4000 % 0x80) as u8, (0x80 + n / 0x80 % 0x80) as u8, (n % 0x80) as u8]
    } else {
        seq![
            (0x80 + n / 0x200000 % 0x80) as u8,
            (0x80 + n / 0x4000 % 0x80) as u8,
            (0x80 + n / 0x80 % 0x80) as u8,
            (n % 0x80) as u8,
        ]
    }
}

/// One sounding note: delta time, a note-on (with the status byte only when
/// the previous sounding event was not a note-on), and the running-status
/// note-off after `len` ticks.
pub open spec fn note_pair(delta: int, last_on: bool, note: u8, vol: u8, len: u8) -> Seq<u8> {
    dt_bytes(delta) + (if last_on {
        Seq::<u8>::empty()
    } else {
        seq![0x90u8]
    }) + seq![note, vol, len, note, 0u8]
}

/// `k` further immediate repetitions of the same note, all in running
/// status.
pub open spec fn extra_pairs(note: u8, vol: u8, len: u8, k: int) -> Seq<u8>
    decreases k,
{
    if k <= 0 {
        Seq::empty()
    } else {
        seq![0u8, note, vol, len, note, 0u8] + extra_pairs(note, vol, len, k - 1)
    }
}

/// The interpreter state: cursor into the bytecode, return-position stack,
/// whether the last emitted sounding event was a note-on, the pending delta
/// time, the current velocity, and the output emitted so far.
pub ghost struct EncSt {
    pub pos: int,
    pub stack: Seq<int>,
    pub last_on: bool,
    pub delta: int,
    pub volume: int,
    pub out: Seq<u8>,
}

/// Whether the interpreter is finished: the cursor left the bytecode.
pub open spec fn halted(t: Seq<u8>, s: EncSt) -> bool {
    !(0 <= s.pos < t.len())
}

/// One interpreter step. A halted state is a fixpoint. A block playback
/// pushes the return position and jumps through the block-position table; a
/// block end pops (or halts, on an empty stack, which validated bytecode
/// never reaches at the root); volume and silence update the running state;
/// a note or a compact repeat appends its events to the output.
pub open spec fn enc_step(t: Seq<u8>, bp: Seq<int>, s: EncSt) -> EncSt {
    if halted(t, s) {
        s
    } else {
        let cmd = t[s.pos];
        if cmd == tone::PLAY_BLOCK {
            let id = rd(t, s.pos + 1) % 128;
            EncSt { stack: s.stack.push(cpos(t, s.pos + 2)), pos: bp[id as int], ..s }
        } else if cmd == tone::BLOCK_END {
            if s.stack.len() == 0 {
                EncSt { pos: t.len() as int, ..s }
            } else {
                EncSt { pos: s.stack.last(), stack: s.stack.drop_last(), ..s }
            }
        } else if cmd == tone::SET_VOLUME {
            let vol = rd(t, s.pos + 1) % 128;
            EncSt { volume: 127 * vol / 100 % 128, pos: cpos(t, s.pos + 2), ..s }
        } else if cmd == tone::SILENCE {
            EncSt { delta: dsat(s.delta + rd(t, s.pos + 1) % 128), pos: cpos(t, s.pos + 2), ..s }
        } else if cmd == tone::REPEAT {
            let m = rd(t, s.pos + 1) as int;
            let c2 = rd(t, s.pos + 2);
            let len = rd(t, s.pos + 3) % 128;
            if c2 == tone::SILENCE {
                EncSt { delta: dsat(s.delta + m * len), pos: cpos(t, s.pos + 4), ..s }
            } else {
                let note = c2 % 128;
                EncSt {
                    out: s.out + note_pair(s.delta, s.last_on, note, s.volume as u8, len)
                        + extra_pairs(note, s.volume as u8, len, m - 1),
                    last_on: true,
                    delta: 0,
                    pos: cpos(t, s.pos + 4),
                    ..s
                }
            }
        } else {
            let note = cmd % 128;
            let len = rd(t, s.pos + 1) % 128;
            EncSt {
                out: s.out + note_pair(s.delta, s.last_on, note, s.volume as u8, len),
                last_on: true,
                delta: 0,
                pos: cpos(t, s.pos + 2),
                ..s
            }
        }
    }
}

/// `n` interpreter steps.
pub open spec fn enc_run(t: Seq<u8>, bp: Seq<int>, s: EncSt, n: nat) -> EncSt
    decreases n,
{
    if n == 0 {
        s
    } else {
        enc_run(t, bp, enc_step(t, bp, s), (n - 1) as nat)
    }
}

/// Running one step more is stepping the result.
pub proof fn lemma_enc_run_snoc(t: Seq<u8>, bp: Seq<int>, s: EncSt, n: nat)
    ensures
        enc_run(t, bp, s, n + 1) == enc_step(t, bp, enc_run(t, bp, s, n)),
    decreases n,
{
    reveal_with_fuel(enc_run, 2);
    if n > 0 {
        lemma_enc_run_snoc(t, bp, enc_step(t, bp, s), (n - 1) as nat);
    }
}

/// Once halted, further steps change nothing.
pub proof fn lemma_enc_run_stable(t: Seq<u8>, bp: Seq<int>, s: EncSt, n: nat, m: nat)
    requires
        halted(t, enc_run(t, bp, s, n)),
        n <= m,
    ensures
        enc_run(t, bp, s, m) == enc_run(t, bp, s, n),
    decreases m - n,
{
    if n < m {
        lemma_enc_run_snoc(t, bp, s, n);
        lemma_enc_run_stable(t, bp, s, n + 1, m);
    }
}

/// Whether the interpreter halts within its gas allowance. Bytecode the
/// parser validated always halts, and in a number of steps minute against
/// this allowance; the bound exists so that the interpreter is total even on
/// bytecode that was never validated.
pub open spec fn enc_bounded_halts(t: Seq<u8>, bp: Seq<int>, s: EncSt) -> bool {
    exists|n: nat| n <= u64::MAX && halted(t, enc_run(t, bp, s, n))
}

/// What the interpreter computes: the state at its first halt, or, if its
/// gas runs out, the state its whole allowance of steps reaches. By
/// stability neither case depends on which halting step count is chosen, so
/// the interpreter's output is a function of bytecode, block table and
/// starting state alone.
pub open spec fn enc_final(t: Seq<u8>, bp: Seq<int>, s: EncSt) -> EncSt {
    if enc_bounded_halts(t, bp, s) {
        enc_run(t, bp, s, choose|n: nat| n <= u64::MAX && halted(t, enc_run(t, bp, s, n)))
    } else {
        enc_run(t, bp, s, u64::MAX as nat)
    }
}

/// Any halting run within the allowance yields the interpreter's result.
pub proof fn lemma_enc_final(t: Seq<u8>, bp: Seq<int>, s: EncSt, n: nat)
    requires
        n <= u64::MAX,
        halted(t, enc_run(t, bp, s, n)),
    ensures
        enc_final(t, bp, s) == enc_run(t, bp, s, n),
{
    let n2 = choose|k: nat| k <= u64::MAX && halted(t, enc_run(t, bp, s, k));
    if n2 <= n {
        lemma_enc_run_stable(t, bp, s, n2, n);
    } else {
        lemma_enc_run_stable(t, bp, s, n, n2);
    }
}

/// The body scan of the block pre-scan: from inside a block record, the
/// position just past its closing record.
pub open spec fn scan_body(t: Seq<u8>, pos: int) -> int
    decreases t.len() - pos,
    when 0 <= pos <= t.len()
{
    if pos >= t.len() {
        pos
    } else if t[pos] == tone::BLOCK_END {
        cpos(t, pos + 2)
    } else if t[pos] == tone::REPEAT {
        scan_body(t, cpos(t, pos + 4))
    } else {
        scan_body(t, cpos(t, pos + 2))
    }
}

/// The body scan moves forward and stays within the buffer.
pub proof fn lemma_scan_body(t: Seq<u8>, pos: int)
    requires
        0 <= pos <= t.len(),
    ensures
        pos <= scan_body(t, pos) <= t.len(),
    decreases t.len() - pos,
{
    if pos < t.len() && t[pos] != tone::BLOCK_END {
        if t[pos] == tone::REPEAT {
            lemma_scan_body(t, cpos(t, pos + 4));
        } else {
            lemma_scan_body(t, cpos(t, pos + 2));
        }
    }
}

/// The block pre-scan: walks the block records, recording in the table
/// where each block's body starts, and returns the table and the position of
/// the root sequence.
pub open spec fn scan_blocks(t: Seq<u8>, pos: int, bp: Seq<int>) -> (int, Seq<int>)
    decreases t.len() - pos,
    when 0 <= pos <= t.len()
{
    if pos < t.len() && t[pos] == tone::BLOCK_START {
        let id = rd(t, pos + 1) % 128;
        let bp2 = bp.update(id as int, cpos(t, pos + 2));
        let p2 = scan_body(t, cpos(t, pos + 2));
        let p3 = if pos < p2 <= t.len() {
            p2
        } else {
            t.len() as int
        };
        scan_blocks(t, p3, bp2)
    } else {
        (pos, bp)
    }
}

/// Where the tempo and resolution bytes sit, mirroring the header walk: the
/// tempo directive, if present, sits at offset 2; the resolution directive
/// follows whatever came before it.
pub open spec fn hdr_tempo(t: Seq<u8>) -> int {
    if rd(t, 2) == tone::TEMPO {
        (rd(t, 3) as int % 128) * 4
    } else {
        120
    }
}

pub open spec fn hdr_res_pos(t: Seq<u8>) -> int {
    if rd(t, 2) == tone::TEMPO {
        4
    } else {
        2
    }
}

pub open spec fn hdr_resolution(t: Seq<u8>) -> int {
    if rd(t, hdr_res_pos(t)) == tone::RESOLUTION {
        rd(t, hdr_res_pos(t) + 1) as int % 128
    } else {
        64
    }
}

pub open spec fn hdr_end(t: Seq<u8>) -> int {
    if rd(t, hdr_res_pos(t)) == tone::RESOLUTION {
        hdr_res_pos(t) + 2
    } else {
        hdr_res_pos(t)
    }
}

/// The fixed prelude of the output: the MThd chunk (format 0, one track,
/// the division derived from the resolution), the MTrk header with a
/// placeholder length, the set-tempo meta event and the program change.
pub open spec fn out_prelude(t: Seq<u8>, prog: u8) -> Seq<u8> {
    let division = if hdr_resolution(t) / 4 >= 1 {
        hdr_resolution(t) / 4
    } else {
        1
    };
    let usec = if hdr_tempo(t) > 0 {
        60000000int / hdr_tempo(t)
    } else {
        0
    };
    seq![0x4Du8, 0x54u8, 0x68u8, 0x64u8]  // MThd
     + seq![0u8, 0u8, 0u8, 6u8] + seq![0u8, 0u8] + seq![0u8, 1u8] + seq![
        0u8,
        division as u8,
    ] + seq![0x4Du8, 0x54u8, 0x72u8, 0x6Bu8]  // MTrk
     + seq![0u8, 0u8, 0u8, 0u8] + seq![0u8, 0xFFu8, 0x51u8, 0x03u8] + seq![
        (usec / 0x10000 % 256) as u8,
        (usec / 0x100 % 256) as u8,
        (usec % 256) as u8,
    ] + seq![0u8, 0xC0u8, prog]
}

/// The translation of a whole tone sequence: the prelude, the interpreted
/// root sequence, the end-of-track meta event, and the track length patched
/// in over its placeholder.
pub open spec fn spec_translate(t: Seq<u8>, prog: u8) -> Seq<u8> {
    let scanned = scan_blocks(t, cpos(t, hdr_end(t)), Seq::new(128, |i: int| 0int));
    let s0 = EncSt {
        pos: scanned.0,
        stack: Seq::empty(),
        last_on: false,
        delta: 0,
        volume: 127,
        out: out_prelude(t, prog),
    };
    let sf = enc_final(t, scanned.1, s0);
    let body = sf.out + seq![0u8, 0xFFu8, 0x2Fu8, 0x00u8];
    let track_len = ((body.len() - 22) as u32) as int;
    body.update(18, (track_len / 0x1000000 % 256) as u8).update(
        19,
        (track_len / 0x10000 % 256) as u8,
    ).update(20, (track_len / 0x100 % 256) as u8).update(21, (track_len % 256) as u8)
}

/// One more trailing repetition appends one more running-status pair.
pub proof fn lemma_extra_pairs_snoc(note: u8, vol: u8, len: u8, k: int)
    requires
        k >= 0,
    ensures
        extra_pairs(note, vol, len, k + 1) == extra_pairs(note, vol, len, k) + seq![
            0u8,
            note,
            vol,
            len,
            note,
            0u8,
        ],
    decreases k,
{
    if k == 0 {
        assert(extra_pairs(note, vol, len, 1) =~= extra_pairs(note, vol, len, 0) + seq![
            0u8,
            note,
            vol,
            len,
            note,
            0u8,
        ]);
    } else {
        lemma_extra_pairs_snoc(note, vol, len, k - 1);
        assert(extra_pairs(note, vol, len, k + 1) =~= extra_pairs(note, vol, len, k) + seq![
            0u8,
            note,
            vol,
            len,
            note,
            0u8,
        ]);
    }
}

/// Reads the byte at `pos + off`, or zero past the end of the buffer.
fn read_off(t: &Vec<u8>, pos: usize, off: usize) -> (b: u8)
    requires
        off <= 4,
    ensures
        b == rd(t@, pos + off),
{
    if pos < t.len() && off < t.len() - pos {
        t[pos + off]
    } else {
        0
    }
}

/// Moves the cursor `k` bytes forward, stopping at the end of the buffer.
fn bump(pos: usize, k: usize, n: usize) -> (p: usize)
    requires
        pos <= n,
        k <= 4,
    ensures
        p as int == cpos_n(n as int, pos + k),
        p <= n,
{
    if n - pos >= k {
        pos + k
    } else {
        n
    }
}

/// `cpos` stated over a length alone.
pub open spec fn cpos_n(n: int, p: int) -> int {
    if p <= n {
        p
    } else {
        n
    }
}

/// Appends the variable-length encoding of a delta time.
fn write_delta(out: &mut Vec<u8>, d: u32)
    requires
        d <= MAX_DELTA,
    ensures
        final(out)@ == old(out)@ + dt_bytes(d as int),
{
    if d < 0x80 {
        out.push(d as u8);
        proof {
            assert(out@ =~= old(out)@ + dt_bytes(d as int));
        }
    } else if d < 0x4000 {
        out.push((0x80 + d / 0x80 % 0x80) as u8);
        out.push((d % 0x80) as u8);
        proof {
            assert(out@ =~= old(out)@ + dt_bytes(d as int));
        }
    } else if d < 0x200000 {
        out.push((0x80 + d / 0x4000 % 0x80) as u8);
        out.push((0x80 + d / 0x80 % 0x80) as u8);
        out.push((d % 0x80) as u8);
        proof {
            assert(out@ =~= old(out)@ + dt_bytes(d as int));
        }
    } else {
        out.push((0x80 + d / 0x200000 % 0x80) as u8);
        out.push((0x80 + d / 0x4000 % 0x80) as u8);
        out.push((0x80 + d / 0x80 % 0x80) as u8);
        out.push((d % 0x80) as u8);
        proof {
            assert(out@ =~= old(out)@ + dt_bytes(d as int));
        }
    }
}

/// Appends a running-status note-on/note-off pair with delta zero.
fn push_pair(out: &mut Vec<u8>, note: u8, vol: u8, len: u8)
    ensures
        final(out)@ == old(out)@ + seq![0u8, note, vol, len, note, 0u8],
{
    out.push(0);
    out.push(note);
    out.push(vol);
    out.push(len);
    out.push(note);
    out.push(0);
    proof {
        assert(out@ =~= old(out)@ + seq![0u8, note, vol, len, note, 0u8]);
    }
}

/// Emits one sounding event: the pending delta time, a note-on (status byte
/// only when running status cannot elide it), and the note-off.
fn emit_note(out: &mut Vec<u8>, delta: u32, last_on: bool, note: u8, vol: u8, len: u8)
    requires
        delta <= MAX_DELTA,
    ensures
        final(out)@ == old(out)@ + note_pair(delta as int, last_on, note, vol, len),
{
    write_delta(out, delta);
    if !last_on {
        out.push(0x90);
    }
    out.push(note);
    out.push(vol);
    out.push(len);
    out.push(note);
    out.push(0);
    proof {
        assert(out@ =~= old(out)@ + note_pair(delta as int, last_on, note, vol, len));
    }
}

/// Interprets parser-validated tone-sequence bytecode into a complete SMF
/// byte buffer: exactly the translation [`spec_translate`] describes. The
/// buffer opens with the MThd chunk and declares exactly one track.
#[verifier::rlimit(100)]
#[verifier::spinoff_prover]
pub(crate) fn translate(tseq: &Vec<u8>, prog: u8) -> (r: Vec<u8>)
    requires
        tone::tseq_wf(tseq@),
        prog <= 127,
    ensures
        r@ == spec_translate(tseq@, prog),
        r@.len() >= 26,
        r@[0] == 0x4D && r@[1] == 0x54 && r@[2] == 0x68 && r@[3] == 0x64,
        r@[10] == 0 && r@[11] == 1,
{
    let ghost t = tseq@;
    let n = tseq.len();
    let tempo: u32 = if read_off(tseq, 2, 0) == tone::TEMPO {
        (read_off(tseq, 2, 1) % 128) as u32 * 4
    } else {
        120
    };
    let p: usize = if read_off(tseq, 2, 0) == tone::TEMPO {
        4
    } else {
        2
    };
    let resolution: u32 = if read_off(tseq, p, 0) == tone::RESOLUTION {
        (read_off(tseq, p, 1) % 128) as u32
    } else {
        64
    };
    let p: usize = if read_off(tseq, p, 0) == tone::RESOLUTION {
        p + 2
    } else {
        p
    };
    proof {
        assert(tempo as int == hdr_tempo(t));
        assert(resolution as int == hdr_resolution(t));
        assert(p as int == hdr_end(t));
        assert(20 <= tempo <= 508);
    }
    // block pre-scan
    let mut bp: Vec<usize> = vec![0usize; 128];
    let mut pos: usize = if p <= n {
        p
    } else {
        n
    };
    let ghost init_bp = Seq::new(128, |i: int| 0int);
    let ghost scanned = scan_blocks(t, cpos(t, hdr_end(t)), init_bp);
    proof {
        assert(bp@.map_values(|v: usize| v as int) =~= init_bp);
    }
    loop
        invariant
            t == tseq@,
            n == t.len(),
            pos <= n,
            bp@.len() == 128,
            forall|i: int| 0 <= i < 128 ==> bp@[i] <= n,
            scan_blocks(t, pos as int, bp@.map_values(|v: usize| v as int)) == scanned,
        ensures
            pos <= n,
            bp@.len() == 128,
            forall|i: int| 0 <= i < 128 ==> bp@[i] <= n,
            scanned == (pos as int, bp@.map_values(|v: usize| v as int)),
        decreases n - pos,
    {
        let ghost pos_i = pos as int;
        let ghost bps_i = bp@.map_values(|v: usize| v as int);
        if pos >= n {
            break;
        }
        if tseq[pos] != tone::BLOCK_START {
            break;
        }
        let id = (read_off(tseq, pos, 1) % 128) as usize;
        let body_start = bump(pos, 2, n);
        bp[id] = body_start;
        proof {
            assert(bp@.map_values(|v: usize| v as int) =~= bps_i.update(
                id as int,
                cpos(t, pos_i + 2),
            ));
        }
        pos = body_start;
        let ghost body_target = scan_body(t, pos as int);
        loop
            invariant_except_break
                scan_body(t, pos as int) == body_target,
            invariant
                t == tseq@,
                n == t.len(),
                pos <= n,
            ensures
                pos <= n,
                pos as int == body_target,
            decreases n - pos,
        {
            if pos >= n {
                break;
            }
            let cmd = tseq[pos];
            if cmd == tone::BLOCK_END {
                pos = bump(pos, 2, n);
                break;
            }
            if cmd == tone::REPEAT {
                pos = bump(pos, 4, n);
            } else {
                pos = bump(pos, 2, n);
            }
        }
        proof {
            lemma_scan_body(t, cpos(t, pos_i + 2));
        }
    }
    // the fixed prelude
    let division: u32 = if resolution / 4 >= 1 {
        resolution / 4
    } else {
        1
    };
    let usec: u32 = 60000000 / tempo;
    let mut out: Vec<u8> = Vec::new();
    out.push(0x4D);
    out.push(0x54);
    out.push(0x68);
    out.push(0x64);
    out.push(0);
    out.push(0);
    out.push(0);
    out.push(6);
    out.push(0);
    out.push(0);
    out.push(0);
    out.push(1);
    out.push(0);
    out.push(division as u8);
    out.push(0x4D);
    out.push(0x54);
    out.push(0x72);
    out.push(0x6B);
    out.push(0);
    out.push(0);
    out.push(0);
    out.push(0);
    out.push(0);
    out.push(0xFF);
    out.push(0x51);
    out.push(0x03);
    out.push((usec / 0x10000 % 256) as u8);
    out.push((usec / 0x100 % 256) as u8);
    out.push((usec % 256) as u8);
    out.push(0);
    out.push(0xC0);
    out.push(prog);
    proof {
        assert(out@ =~= out_prelude(t, prog));
    }
    // the interpreter
    let ghost bps = scanned.1;
    let ghost s0 = EncSt {
        pos: pos as int,
        stack: Seq::empty(),
        last_on: false,
        delta: 0,
        volume: 127,
        out: out@,
    };
    let mut stack: Vec<usize> = Vec::new();
    let mut last_on = false;
    let mut delta: u32 = 0;
    let mut volume: u32 = 127;
    let mut gas: u64 = u64::MAX;
    let ghost mut steps: nat = 0;
    proof {
        assert(stack@.map_values(|v: usize| v as int) =~= Seq::<int>::empty());
    }
    loop
        invariant
            steps + gas == u64::MAX,
            forall|k: nat| k < steps ==> !halted(t, enc_run(t, bps, s0, k)),
            t == tseq@,
            n == t.len(),
            pos <= n,
            bp@.len() == 128,
            forall|i: int| 0 <= i < 128 ==> bp@[i] <= n,
            bps == bp@.map_values(|v: usize| v as int),
            delta <= MAX_DELTA,
            volume <= 127,
            out@.len() >= 32,
            out@.subrange(0, 32) == s0.out.subrange(0, 32),
            forall|i: int| 0 <= i < stack@.len() ==> stack@[i] <= n,
            enc_run(t, bps, s0, steps) == (EncSt {
                pos: pos as int,
                stack: stack@.map_values(|v: usize| v as int),
                last_on: last_on,
                delta: delta as int,
                volume: volume as int,
                out: out@,
            }),
        ensures
            steps <= u64::MAX,
            pos >= n || steps == u64::MAX,
            forall|k: nat| k < steps ==> !halted(t, enc_run(t, bps, s0, k)),
            out@.len() >= 32,
            out@.subrange(0, 32) == s0.out.subrange(0, 32),
            enc_run(t, bps, s0, steps) == (EncSt {
                pos: pos as int,
                stack: stack@.map_values(|v: usize| v as int),
                last_on: last_on,
                delta: delta as int,
                volume: volume as int,
                out: out@,
            }),
        decreases gas,
    {
        if pos >= n {
            break;
        }
        if gas == 0 {
            break;
        }
        gas = gas - 1;
        let ghost cur = EncSt {
            pos: pos as int,
            stack: stack@.map_values(|v: usize| v as int),
            last_on: last_on,
            delta: delta as int,
            volume: volume as int,
            out: out@,
        };
        proof {
            lemma_enc_run_snoc(t, bps, s0, steps);
        }
        let cmd = tseq[pos];
        if cmd == tone::PLAY_BLOCK {
            let id = (read_off(tseq, pos, 1) % 128) as usize;
            let ret = bump(pos, 2, n);
            stack.push(ret);
            pos = bp[id];
            proof {
                assert(stack@.map_values(|v: usize| v as int) =~= cur.stack.push(
                    cpos(t, cur.pos + 2),
                ));
            }
        } else if cmd == tone::BLOCK_END {
            if stack.len() == 0 {
                pos = n;
            } else {
                match stack.pop() {
                    Some(v) => {
                        pos = v;
                    },
                    None => {
                        pos = n;
                    },
                }
                proof {
                    assert(stack@.map_values(|v: usize| v as int) =~= cur.stack.drop_last());
                }
            }
        } else if cmd == tone::SET_VOLUME {
            let v = (read_off(tseq, pos, 1) % 128) as u32;
            volume = 127 * v / 100 % 128;
            pos = bump(pos, 2, n);
        } else if cmd == tone::SILENCE {
            let d = (read_off(tseq, pos, 1) % 128) as u32;
            delta = if delta + d <= MAX_DELTA {
                delta + d
            } else {
                MAX_DELTA
            };
            pos = bump(pos, 2, n);
        } else if cmd == tone::REPEAT {
            let m = read_off(tseq, pos, 1) as u32;
            let c2 = read_off(tseq, pos, 2);
            let len2 = c2;
            let dur = (read_off(tseq, pos, 3) % 128) as u32;
            if c2 == tone::SILENCE {
                assert(m * dur <= 32385) by (nonlinear_arith)
                    requires
                        m <= 255,
                        dur <= 127,
                ;
                let add = m * dur;
                delta = if delta + add <= MAX_DELTA {
                    delta + add
                } else {
                    MAX_DELTA
                };
            } else {
                let note = c2 % 128;
                emit_note(&mut out, delta, last_on, note, volume as u8, dur as u8);
                let ghost base = out@;
                proof {
                    assert(base + extra_pairs(note, volume as u8, dur as u8, 0) =~= base);
                }
                let mut i: u32 = 1;
                while i < m
                    invariant
                        1 <= i,
                        i <= m || i == 1,
                        out@ == base + extra_pairs(note, volume as u8, dur as u8, i - 1),
                    decreases m - i,
                {
                    proof {
                        lemma_extra_pairs_snoc(note, volume as u8, dur as u8, i - 1);
                    }
                    push_pair(&mut out, note, volume as u8, dur as u8);
                    i = i + 1;
                }
                proof {
                    if m < 1 {
                        assert(extra_pairs(note, volume as u8, dur as u8, m - 1)
                            == Seq::<u8>::empty());
                        assert(out@ =~= base + extra_pairs(note, volume as u8, dur as u8, m - 1));
                    }
                    assert(out@ =~= cur.out + note_pair(
                        cur.delta,
                        cur.last_on,
                        note,
                        volume as u8,
                        dur as u8,
                    ) + extra_pairs(note, volume as u8, dur as u8, m - 1));
                }
                last_on = true;
                delta = 0;
            }
            pos = bump(pos, 4, n);
        } else {
            let note = cmd % 128;
            let dur = (read_off(tseq, pos, 1) % 128) as u32;
            emit_note(&mut out, delta, last_on, note, volume as u8, dur as u8);
            last_on = true;
            delta = 0;
            pos = bump(pos, 2, n);
        }
        proof {
            assert forall|k: nat| k < steps + 1 implies !halted(
                t,
                enc_run(t, bps, s0, k),
            ) by {
                if k == steps {
                    assert(enc_run(t, bps, s0, k) == cur);
                }
            }
            steps = steps + 1;
            assert(out@.subrange(0, 32) =~= cur.out.subrange(0, 32));
        }
    }
    let ghost sf = enc_run(t, bps, s0, steps);
    proof {
        if pos >= n {
            lemma_enc_final(t, bps, s0, steps);
        } else {
            assert(steps == u64::MAX);
            assert(!enc_bounded_halts(t, bps, s0)) by {
                if enc_bounded_halts(t, bps, s0) {
                    let k = choose|k: nat| k <= u64::MAX && halted(t, enc_run(t, bps, s0, k));
                    assert(!halted(t, enc_run(t, bps, s0, k)));
                }
            }
        }
        assert(enc_final(t, bps, s0) == sf);
    }
    out.push(0);
    out.push(0xFF);
    out.push(0x2F);
    out.push(0x00);
    let ghost body = out@;
    let tl: u32 = #[verifier::truncate] ((out.len() - 22) as u32);
    out[18] = (tl / 0x1000000 % 256) as u8;
    out[19] = (tl / 0x10000 % 256) as u8;
    out[20] = (tl / 0x100 % 256) as u8;
    out[21] = (tl % 256) as u8;
    proof {
        assert(body =~= sf.out + seq![0u8, 0xFFu8, 0x2Fu8, 0x00u8]);
        assert(tl as int == ((body.len() - 22) as u32) as int);
        assert(out@.subrange(0, 14) =~= body.subrange(0, 14));
        assert(body.subrange(0, 14) =~= sf.out.subrange(0, 14));
        assert(sf.out.subrange(0, 14) =~= s0.out.subrange(0, 14));
        assert forall|i: int| 0 <= i < 14 implies out@[i] == s0.out[i] by {
            assert(out@.subrange(0, 14)[i] == out@[i]);
            assert(s0.out.subrange(0, 14)[i] == s0.out[i]);
        }
    }
    out
}

} // verus!
