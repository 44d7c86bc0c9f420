//! The tone-sequence bytecode: the intermediate byte stream the parser
//! produces and the encoder interprets, together with its well-formedness
//! predicate.
//!
//! A tone sequence is a header followed by zero or more block records and a
//! root sequence. Control opcodes occupy the byte range above 0xF0; a leading
//! byte of 0..=127 is a note. All multi-byte records are 2 bytes, except the
//! compact repeat record, which is 4.

use vstd::prelude::*;

verus! {

/// Version marker opcode (first byte of every tone sequence).
pub const VERSION: u8 = 0xFE;

/// Tempo opcode; followed by the tempo divided by 4.
pub const TEMPO: u8 = 0xFD;

/// Resolution opcode; followed by the resolution.
pub const RESOLUTION: u8 = 0xFC;

/// Opens a block record; followed by the block id.
pub const BLOCK_START: u8 = 0xFB;

/// Closes a block record; followed by the block id.
pub const BLOCK_END: u8 = 0xFA;

/// Plays an earlier block; followed by the block id.
pub const PLAY_BLOCK: u8 = 0xF9;

/// Sets the volume; followed by a percentage 0..=100.
pub const SET_VOLUME: u8 = 0xF8;

/// Compact repeat record: multiplier, note-or-silence command, duration.
pub const REPEAT: u8 = 0xF7;

/// Silence for a duration; followed by the duration.
pub const SILENCE: u8 = 0xFF;

/// MIDI note number of C in the fourth octave.
pub const C4: u8 = 60;

/// How many bytes the record starting at `t[i]` occupies: 4 for a compact
/// repeat, 2 for everything else.
pub open spec fn record_len(op: u8) -> int {
    if op == REPEAT {
        4
    } else {
        2
    }
}

/// Well-formedness of the record that starts a sequence `t`, where every
/// played block id must be below `max_id`:
/// a note `0..=127` or a silence with a duration `1..=127`, a volume
/// `0..=100`, a play of a block already closed, or a compact repeat with a
/// multiplier `2..=127`, a note-or-silence command and a duration `1..=127`.
pub open spec fn head_record_wf(t: Seq<u8>, max_id: int) -> bool {
    &&& t.len() >= record_len(t[0])
    &&& if t[0] <= 127 || t[0] == SILENCE {
        1 <= t[1] <= 127
    } else if t[0] == SET_VOLUME {
        t[1] <= 100
    } else if t[0] == PLAY_BLOCK {
        t[1] < max_id
    } else if t[0] == REPEAT {
        &&& 2 <= t[1] <= 127
        &&& (t[2] <= 127 || t[2] == SILENCE)
        &&& 1 <= t[3] <= 127
    } else {
        false
    }
}

/// A well-formed event sequence: a run of well-formed records whose block
/// references all lie below `max_id`.
pub open spec fn seq_wf(t: Seq<u8>, max_id: int) -> bool
    decreases t.len(),
{
    t.len() == 0 || {
        &&& head_record_wf(t, max_id)
        &&& seq_wf(t.skip(record_len(t[0])), max_id)
    }
}

/// Two well-formed event sequences concatenate to a well-formed one.
pub proof fn lemma_seq_wf_concat(a: Seq<u8>, b: Seq<u8>, max_id: int)
    requires
        seq_wf(a, max_id),
        seq_wf(b, max_id),
    ensures
        seq_wf(a + b, max_id),
    decreases a.len(),
{
    if a.len() == 0 {
        assert(a + b =~= b);
    } else {
        let k = record_len(a[0]);
        assert((a + b)[0] == a[0]);
        assert(head_record_wf(a + b, max_id)) by {
            assert((a + b)[1] == a[1]);
            if a[0] == REPEAT {
                assert((a + b)[2] == a[2]);
                assert((a + b)[3] == a[3]);
            }
        }
        lemma_seq_wf_concat(a.skip(k), b, max_id);
        assert((a + b).skip(k) =~= a.skip(k) + b);
    }
}

/// `n` copies of `t`, concatenated.
pub open spec fn repeat_seq(t: Seq<u8>, n: nat) -> Seq<u8>
    decreases n,
{
    if n == 0 {
        Seq::empty()
    } else {
        t + repeat_seq(t, (n - 1) as nat)
    }
}

/// Repetition preserves well-formedness.
pub proof fn lemma_repeat_seq_wf(t: Seq<u8>, n: nat, max_id: int)
    requires
        seq_wf(t, max_id),
    ensures
        seq_wf(repeat_seq(t, n), max_id),
    decreases n,
{
    if n == 0 {
        assert(seq_wf(Seq::<u8>::empty(), max_id));
    } else {
        lemma_repeat_seq_wf(t, (n - 1) as nat, max_id);
        lemma_seq_wf_concat(t, repeat_seq(t, (n - 1) as nat), max_id);
    }
}


/// Appending one more copy on the right is the same as prepending it.
pub proof fn lemma_repeat_seq_snoc(t: Seq<u8>, n: nat)
    ensures
        repeat_seq(t, n + 1) == repeat_seq(t, n) + t,
    decreases n,
{
    if n == 0 {
        assert(repeat_seq(t, 1) =~= repeat_seq(t, 0) + t);
    } else {
        lemma_repeat_seq_snoc(t, (n - 1) as nat);
        assert(t + (repeat_seq(t, (n - 1) as nat) + t) =~= (t + repeat_seq(t, (n - 1) as nat))
            + t);
    }
}

/// Repetition multiplies the length.
pub proof fn lemma_repeat_seq_len(t: Seq<u8>, n: nat)
    ensures
        repeat_seq(t, n).len() == n * t.len(),
    decreases n,
{
    if n != 0 {
        lemma_repeat_seq_len(t, (n - 1) as nat);
        assert(n * t.len() == (n - 1) * t.len() + t.len()) by (nonlinear_arith);
    }
}

/// The block region of a tone sequence: zero or more records
/// `BLOCK_START id body BLOCK_END id`, ids counting up from `next_id`, each
/// body a well-formed event sequence that may only play blocks below its own
/// id. Returns the number of bytes the region occupies and the next unused
/// block id, or `None` when the region is malformed.
pub open spec fn blocks_wf(t: Seq<u8>, next_id: int) -> Option<(int, int)>
    decreases t.len(), 1int,
{
    if t.len() < 2 || t[0] != BLOCK_START {
        Some((0, next_id))
    } else if t[1] == next_id && next_id <= 127 {
        match block_body_wf(t.skip(2), next_id) {
            Some(body_len) => {
                if 0 <= body_len && body_len + 2 <= t.len() {
                    match blocks_wf(t.skip(2 + body_len), next_id + 1) {
                        Some((rest_len, n)) => Some((2 + body_len + rest_len, n)),
                        None => None,
                    }
                } else {
                    None
                }
            },
            None => None,
        }
    } else {
        None
    }
}

/// A well-formed block body: well-formed records for block `id`, closed by
/// `BLOCK_END id`. Returns the body length including the closing record.
pub open spec fn block_body_wf(t: Seq<u8>, id: int) -> Option<int>
    decreases t.len(), 0int,
{
    if t.len() < 2 {
        None
    } else if t[0] == BLOCK_END {
        if t[1] == id {
            Some(2)
        } else {
            None
        }
    } else if head_record_wf(t, id) {
        let k = record_len(t[0]);
        if k < t.len() {
            match block_body_wf(t.skip(k), id) {
                Some(rest) => Some(k + rest),
                None => None,
            }
        } else {
            None
        }
    } else {
        None
    }
}


/// A well-formed body scans record by record to the closing record, whatever
/// follows it.
pub proof fn lemma_block_body_scan(body: Seq<u8>, id: int, rest: Seq<u8>)
    requires
        seq_wf(body, id),
        0 <= id <= 127,
    ensures
        block_body_wf(body + seq![BLOCK_END, id as u8] + rest, id) == Some(body.len() + 2int),
    decreases body.len(),
{
    let t = body + seq![BLOCK_END, id as u8] + rest;
    if body.len() == 0 {
        assert(t[0] == BLOCK_END);
        assert(t[1] == id as u8);
    } else {
        let k = record_len(body[0]);
        assert(t[0] == body[0]);
        assert(t[1] == body[1]);
        if body[0] == REPEAT {
            assert(t[2] == body[2]);
            assert(t[3] == body[3]);
        }
        assert(head_record_wf(t, id));
        assert(t[0] != BLOCK_END);
        lemma_block_body_scan(body.skip(k), id, rest);
        assert(t.skip(k) =~= body.skip(k) + seq![BLOCK_END, id as u8] + rest);
    }
}

/// One block record followed by anything scans as that record and then the
/// remainder, with the next id.
pub proof fn lemma_blocks_wf_step(em: Seq<u8>, rest: Seq<u8>, id: int)
    requires
        0 <= id <= 127,
        em.len() >= 4,
        em[0] == BLOCK_START,
        em[1] as int == id,
        forall|r: Seq<u8>| #[trigger] block_body_wf(em.skip(2) + r, id) == Some(em.len() - 2),
    ensures
        blocks_wf(em + rest, id) == match blocks_wf(rest, id + 1) {
            Some((l, n)) => Some::<(int, int)>((em.len() + l, n)),
            None => None::<(int, int)>,
        },
{
    let t = em + rest;
    assert(t[0] == em[0]);
    assert(t[1] == em[1]);
    assert(t.skip(2) =~= em.skip(2) + rest);
    assert(block_body_wf(t.skip(2), id) == Some(em.len() - 2));
    assert(t.skip(2 + (em.len() - 2)) =~= rest);
}

/// A well-formed event sequence never starts with a block record, so the
/// block-region scan stops in front of it.
pub proof fn lemma_seq_wf_stops_blocks(t: Seq<u8>, next_id: int)
    requires
        seq_wf(t, next_id),
    ensures
        blocks_wf(t, next_id) == Some::<(int, int)>((0, next_id)),
{
    if t.len() >= 2 {
        assert(head_record_wf(t, next_id));
        assert(t[0] != BLOCK_START);
    }
}

/// Well-formedness of a whole tone sequence: the six header bytes (version
/// marker, version 1, tempo opcode and tempo `5..=127`, resolution opcode and
/// resolution `1..=127`), a well-formed block region, and a root event
/// sequence that may play any block the region declared.
pub open spec fn tseq_wf(t: Seq<u8>) -> bool {
    &&& t.len() >= 6
    &&& t[0] == VERSION
    &&& t[1] == 1
    &&& t[2] == TEMPO
    &&& 5 <= t[3] <= 127
    &&& t[4] == RESOLUTION
    &&& 1 <= t[5] <= 127
    &&& match blocks_wf(t.skip(6), 0) {
        Some((blocks_len, n_blocks)) => seq_wf(t.skip(6 + blocks_len), n_blocks),
        None => false,
    }
}

} // verus!
