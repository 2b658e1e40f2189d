use vstd::prelude::*;

use crate::level::Level;

verus! {

/// Why a buffer could not be decoded.
#[derive(Clone, Copy, PartialEq, Eq, Structural, Debug)]
pub enum CodecError {
    /// Fewer than `RECORD_SIZE` bytes remained where a full record was owed.
    TruncatedRecord,
}

/// Every record occupies exactly this many bytes on disk.
pub const RECORD_SIZE: usize = 64;

/// Byte `m` (0 = most significant) of `x` in big-endian order.
pub open spec fn be_byte(x: u32, m: int) -> u8 {
    if m == 0 {
        ((x >> 24) & 0xff) as u8
    } else if m == 1 {
        ((x >> 16) & 0xff) as u8
    } else if m == 2 {
        ((x >> 8) & 0xff) as u8
    } else {
        (x & 0xff) as u8
    }
}

/// The four big-endian bytes of `x`, most significant first.
pub open spec fn be_bytes(x: u32) -> Seq<u8> {
    seq![be_byte(x, 0), be_byte(x, 1), be_byte(x, 2), be_byte(x, 3)]
}

/// The 32-bit value stored big-endian in the four given bytes.
pub open spec fn be_word(b0: u8, b1: u8, b2: u8, b3: u8) -> u32 {
    ((b0 as u32) << 24) | ((b1 as u32) << 16) | ((b2 as u32) << 8) | (b3 as u32)
}

/// The 32-bit big-endian value at byte offset `off` of `b`.
pub open spec fn word_at(b: Seq<u8>, off: int) -> u32 {
    be_word(b[off], b[off + 1], b[off + 2], b[off + 3])
}

/// Field `i` of a level, in the declaration order of the on-disk layout.
pub open spec fn field_of(l: Level, i: int) -> u32 {
    if i == 0 {
        l.num_miis
    } else if i == 1 {
        l.behavior
    } else if i == 2 {
        l.level_type
    } else if i == 3 {
        l.map
    } else if i == 4 {
        l.zoom_out_max
    } else if i == 5 {
        l.zoom_in_max
    } else if i == 6 {
        l.unk7
    } else if i == 7 {
        l.horiz_dist
    } else if i == 8 {
        l.vert_dist
    } else if i == 9 {
        l.darkness
    } else if i == 10 {
        l.head_size
    } else if i == 11 {
        l.unk12
    } else if i == 12 {
        l.unk13
    } else if i == 13 {
        l.unk14
    } else if i == 14 {
        l.unk15
    } else {
        l.unk16
    }
}

/// The level stored in the first 64 bytes of `b`: a pure field-wise
/// reinterpretation of sixteen big-endian words.
pub open spec fn decode_spec(b: Seq<u8>) -> Level {
    Level {
        num_miis: word_at(b, 0),
        behavior: word_at(b, 4),
        level_type: word_at(b, 8),
        map: word_at(b, 12),
        zoom_out_max: word_at(b, 16),
        zoom_in_max: word_at(b, 20),
        unk7: word_at(b, 24),
        horiz_dist: word_at(b, 28),
        vert_dist: word_at(b, 32),
        darkness: word_at(b, 36),
        head_size: word_at(b, 40),
        unk12: word_at(b, 44),
        unk13: word_at(b, 48),
        unk14: word_at(b, 52),
        unk15: word_at(b, 56),
        unk16: word_at(b, 60),
    }
}

/// The 64-byte record of a level: its sixteen fields as big-endian words, in
/// declaration order, with no padding.
pub open spec fn encode_spec(l: Level) -> Seq<u8> {
    be_bytes(l.num_miis) + be_bytes(l.behavior) + be_bytes(l.level_type) + be_bytes(l.map)
        + be_bytes(l.zoom_out_max) + be_bytes(l.zoom_in_max) + be_bytes(l.unk7) + be_bytes(
        l.horiz_dist,
    ) + be_bytes(l.vert_dist) + be_bytes(l.darkness) + be_bytes(l.head_size) + be_bytes(l.unk12)
        + be_bytes(l.unk13) + be_bytes(l.unk14) + be_bytes(l.unk15) + be_bytes(l.unk16)
}

/// The encodings of all levels of a table, concatenated in table order.
pub open spec fn encode_table_spec(t: Seq<Level>) -> Seq<u8>
    decreases t.len(),
{
    if t.len() == 0 {
        Seq::empty()
    } else {
        encode_table_spec(t.drop_last()) + encode_spec(t.last())
    }
}

proof fn lemma_be_byte_of_word(b0: u8, b1: u8, b2: u8, b3: u8)
    ensures
        be_byte(be_word(b0, b1, b2, b3), 0) == b0,
        be_byte(be_word(b0, b1, b2, b3), 1) == b1,
        be_byte(be_word(b0, b1, b2, b3), 2) == b2,
        be_byte(be_word(b0, b1, b2, b3), 3) == b3,
{
    let x = be_word(b0, b1, b2, b3);
    assert(x == ((b0 as u32) << 24) | ((b1 as u32) << 16) | ((b2 as u32) << 8) | (b3 as u32)
        ==> (((x >> 24) & 0xff) as u8 == b0 && ((x >> 16) & 0xff) as u8 == b1 && ((x >> 8)
        & 0xff) as u8 == b2 && (x & 0xff) as u8 == b3)) by (bit_vector);
}

proof fn lemma_word_of_be_bytes(x: u32)
    ensures
        be_word(be_byte(x, 0), be_byte(x, 1), be_byte(x, 2), be_byte(x, 3)) == x,
{
    assert(((((x >> 24) & 0xff) as u8 as u32) << 24) | ((((x >> 16) & 0xff) as u8 as u32) << 16) | (
    (((x >> 8) & 0xff) as u8 as u32) << 8) | ((x & 0xff) as u8 as u32) == x) by (bit_vector);
}

/// The four bytes that encode field `i` reproduce the four input bytes they
/// were decoded from.
proof fn lemma_be_bytes_of_word_at(b: Seq<u8>, off: int)
    requires
        0 <= off,
        off + 4 <= b.len(),
    ensures
        be_bytes(word_at(b, off)) =~= b.subrange(off, off + 4),
{
    lemma_be_byte_of_word(b[off], b[off + 1], b[off + 2], b[off + 3]);
}

/// Record round-trip, decode first: re-encoding the level decoded from any
/// 64-byte buffer reproduces that buffer exactly.
pub proof fn lemma_record_roundtrip(b: Seq<u8>)
    requires
        b.len() == 64,
    ensures
        encode_spec(decode_spec(b)) == b,
{
    let l = decode_spec(b);
    lemma_be_bytes_of_word_at(b, 0);
    lemma_be_bytes_of_word_at(b, 4);
    lemma_be_bytes_of_word_at(b, 8);
    lemma_be_bytes_of_word_at(b, 12);
    lemma_be_bytes_of_word_at(b, 16);
    lemma_be_bytes_of_word_at(b, 20);
    lemma_be_bytes_of_word_at(b, 24);
    lemma_be_bytes_of_word_at(b, 28);
    lemma_be_bytes_of_word_at(b, 32);
    lemma_be_bytes_of_word_at(b, 36);
    lemma_be_bytes_of_word_at(b, 40);
    lemma_be_bytes_of_word_at(b, 44);
    lemma_be_bytes_of_word_at(b, 48);
    lemma_be_bytes_of_word_at(b, 52);
    lemma_be_bytes_of_word_at(b, 56);
    lemma_be_bytes_of_word_at(b, 60);
    assert(encode_spec(l) =~= b);
}

/// Entity round-trip: decoding the encoding of any level reproduces the level
/// field for field, every bit pattern included.
#[verifier::rlimit(60)]
pub proof fn lemma_level_roundtrip(l: Level)
    ensures
        decode_spec(encode_spec(l)) == l,
{
    let e = encode_spec(l);
    lemma_word_of_be_bytes(l.num_miis);
    lemma_word_of_be_bytes(l.behavior);
    lemma_word_of_be_bytes(l.level_type);
    lemma_word_of_be_bytes(l.map);
    lemma_word_of_be_bytes(l.zoom_out_max);
    lemma_word_of_be_bytes(l.zoom_in_max);
    lemma_word_of_be_bytes(l.unk7);
    lemma_word_of_be_bytes(l.horiz_dist);
    lemma_word_of_be_bytes(l.vert_dist);
    lemma_word_of_be_bytes(l.darkness);
    lemma_word_of_be_bytes(l.head_size);
    lemma_word_of_be_bytes(l.unk12);
    lemma_word_of_be_bytes(l.unk13);
    lemma_word_of_be_bytes(l.unk14);
    lemma_word_of_be_bytes(l.unk15);
    lemma_word_of_be_bytes(l.unk16);
    assert(decode_spec(e) == l);
}

/// A level's record is exactly one record long.
proof fn lemma_encode_len(l: Level)
    ensures
        encode_spec(l).len() == RECORD_SIZE as int,
{
}

/// Table round-trip, decode first: re-encoding all the levels decoded from a
/// whole-table stream reproduces the stream byte for byte.
#[verifier::rlimit(100)]
pub proof fn lemma_table_roundtrip(b: Seq<u8>, t: Seq<Level>)
    requires
        b.len() == (RECORD_SIZE as int) * t.len(),
        forall|i: int|
            0 <= i < t.len() ==> t[i] == decode_spec(
                b.subrange((RECORD_SIZE as int) * i, (RECORD_SIZE as int) * i + (
                RECORD_SIZE as int)),
            ),
    ensures
        encode_table_spec(t) == b,
    decreases t.len(),
{
    if t.len() == 0 {
        assert(encode_table_spec(t) =~= b);
    } else {
        let m = t.len() - 1;
        let pre = b.subrange(0, 64 * m);
        assert forall|i: int| 0 <= i < m implies t.drop_last()[i] == decode_spec(
            pre.subrange(64 * i, 64 * i + 64),
        ) by {
            assert(pre.subrange(64 * i, 64 * i + 64) =~= b.subrange(64 * i, 64 * i + 64));
        }
        lemma_table_roundtrip(pre, t.drop_last());
        lemma_record_roundtrip(b.subrange(64 * m, 64 * m + 64));
        assert(pre + b.subrange(64 * m, 64 * m + 64) =~= b);
    }
}

/// Table round-trip, encode first: a table's encoding splits back into its
/// levels, record by record.
pub proof fn lemma_table_chunks(t: Seq<Level>)
    ensures
        encode_table_spec(t).len() == (RECORD_SIZE as int) * t.len(),
        forall|i: int|
            0 <= i < t.len() ==> decode_spec(
                #[trigger] encode_table_spec(t).subrange((RECORD_SIZE as int) * i, (
                RECORD_SIZE as int) * i + (RECORD_SIZE as int)),
            ) == t[i],
    decreases t.len(),
{
    if t.len() > 0 {
        let m = t.len() - 1;
        lemma_table_chunks(t.drop_last());
        lemma_encode_len(t.last());
        let e = encode_table_spec(t);
        let pre = encode_table_spec(t.drop_last());
        assert forall|i: int|
            0 <= i < t.len() implies decode_spec(
            #[trigger] e.subrange((RECORD_SIZE as int) * i, (RECORD_SIZE as int) * i + (
            RECORD_SIZE as int)),
        ) == t[i] by {
            if i < m {
                assert(e.subrange(64 * i, 64 * i + 64) =~= pre.subrange(64 * i, 64 * i + 64));
            } else {
                assert(e.subrange(64 * i, 64 * i + 64) =~= encode_spec(t.last()));
                lemma_level_roundtrip(t.last());
            }
        }
    }
}

fn read_word(b: &[u8], off: usize) -> (r: u32)
    requires
        off + 4 <= b@.len(),
    ensures
        r == word_at(b@, off as int),
{
    ((b[off] as u32) << 24) | ((b[off + 1] as u32) << 16) | ((b[off + 2] as u32) << 8) | (b[off
        + 3] as u32)
}

fn decode_at(b: &[u8], off: usize) -> (r: Level)
    requires
        off + RECORD_SIZE <= b@.len(),
    ensures
        r == decode_spec(b@.subrange(off as int, off as int + RECORD_SIZE as int)),
{
    proof {
        assert(vstd::slice::spec_slice_len(b) == b@.len());
    }
    let r = Level {
        num_miis: read_word(b, off),
        behavior: read_word(b, off + 4),
        level_type: read_word(b, off + 8),
        map: read_word(b, off + 12),
        zoom_out_max: read_word(b, off + 16),
        zoom_in_max: read_word(b, off + 20),
        unk7: read_word(b, off + 24),
        horiz_dist: read_word(b, off + 28),
        vert_dist: read_word(b, off + 32),
        darkness: read_word(b, off + 36),
        head_size: read_word(b, off + 40),
        unk12: read_word(b, off + 44),
        unk13: read_word(b, off + 48),
        unk14: read_word(b, off + 52),
        unk15: read_word(b, off + 56),
        unk16: read_word(b, off + 60),
    };
    proof {
        let sub = b@.subrange(off as int, off as int + 64);
        assert forall|m: int| 0 <= m < 64 implies sub[m] == b@[off + m] by {}
        assert(r == decode_spec(sub));
    }
    r
}

/// Decodes one level from the first 64 bytes of `b`; fails with
/// `TruncatedRecord` when fewer than 64 bytes remain.
pub fn decode_record(b: &[u8]) -> (r: Result<Level, CodecError>)
    ensures
        b@.len() >= RECORD_SIZE ==> r == Ok::<Level, CodecError>(
            decode_spec(b@.subrange(0, RECORD_SIZE as int)),
        ),
        b@.len() < RECORD_SIZE ==> r == Err::<Level, CodecError>(CodecError::TruncatedRecord),
{
    if b.len() < RECORD_SIZE {
        Err(CodecError::TruncatedRecord)
    } else {
        Ok(decode_at(b, 0))
    }
}

fn push_word(out: &mut Vec<u8>, x: u32)
    ensures
        final(out)@ == old(out)@ + be_bytes(x),
{
    out.push(((x >> 24) & 0xff) as u8);
    out.push(((x >> 16) & 0xff) as u8);
    out.push(((x >> 8) & 0xff) as u8);
    out.push((x & 0xff) as u8);
    proof {
        assert(out@ =~= old(out)@ + be_bytes(x));
    }
}

/// Encodes one level as its exact 64-byte record.
pub fn encode_record(l: &Level) -> (r: Vec<u8>)
    ensures
        r@ == encode_spec(*l),
        r@.len() == RECORD_SIZE,
{
    let mut out: Vec<u8> = Vec::new();
    push_word(&mut out, l.num_miis);
    push_word(&mut out, l.behavior);
    push_word(&mut out, l.level_type);
    push_word(&mut out, l.map);
    push_word(&mut out, l.zoom_out_max);
    push_word(&mut out, l.zoom_in_max);
    push_word(&mut out, l.unk7);
    push_word(&mut out, l.horiz_dist);
    push_word(&mut out, l.vert_dist);
    push_word(&mut out, l.darkness);
    push_word(&mut out, l.head_size);
    push_word(&mut out, l.unk12);
    push_word(&mut out, l.unk13);
    push_word(&mut out, l.unk14);
    push_word(&mut out, l.unk15);
    push_word(&mut out, l.unk16);
    proof {
        assert(out@ =~= encode_spec(*l));
    }
    out
}

/// Decodes a whole table: consecutive 64-byte records until the stream ends
/// exactly on a record boundary. A trailing partial record fails the whole
/// decode with `TruncatedRecord` and yields no levels at all.
pub fn decode_table(b: &[u8]) -> (r: Result<Vec<Level>, CodecError>)
    ensures
        b@.len() as int % (RECORD_SIZE as int) == 0 ==> (r matches Ok(t) && t@.len() * (
        RECORD_SIZE as int) == b@.len() && (forall|i: int|
            0 <= i < t@.len() ==> t@[i] == decode_spec(
                b@.subrange((RECORD_SIZE as int) * i, (RECORD_SIZE as int) * i + (
                RECORD_SIZE as int)),
            ))),
        b@.len() as int % (RECORD_SIZE as int) != 0 ==> r == Err::<Vec<Level>, CodecError>(
            CodecError::TruncatedRecord,
        ),
{
    if b.len() % RECORD_SIZE != 0 {
        return Err(CodecError::TruncatedRecord);
    }
    let n = b.len() / RECORD_SIZE;
    proof {
        vstd::arithmetic::div_mod::lemma_fundamental_div_mod(b@.len() as int, RECORD_SIZE as int);
    }
    let mut out: Vec<Level> = Vec::new();
    let mut idx: usize = 0;
    while idx < n
        invariant
            n * (RECORD_SIZE as int) == b@.len(),
            idx <= n,
            out@.len() == idx,
            forall|i: int|
                0 <= i < idx ==> out@[i] == decode_spec(
                    b@.subrange((RECORD_SIZE as int) * i, (RECORD_SIZE as int) * i + (
                    RECORD_SIZE as int)),
                ),
        decreases n - idx,
    {
        proof {
            assert(vstd::slice::spec_slice_len(b) == b@.len());
            assert((idx + 1) * (RECORD_SIZE as int) <= n * (RECORD_SIZE as int)) by (nonlinear_arith)
                requires
                    idx + 1 <= n,
            ;
            assert((idx + 1) * (RECORD_SIZE as int) == idx * (RECORD_SIZE as int) + (
            RECORD_SIZE as int)) by (nonlinear_arith);
        }
        let lv = decode_at(b, idx * RECORD_SIZE);
        out.push(lv);
        idx = idx + 1;
    }
    Ok(out)
}

/// Encodes a whole table: each level's 64-byte record in table order, with no
/// header, footer, or separators.
pub fn encode_table(t: &Vec<Level>) -> (r: Vec<u8>)
    ensures
        r@ == encode_table_spec(t@),
        r@.len() == t@.len() * (RECORD_SIZE as int),
{
    let mut out: Vec<u8> = Vec::new();
    let mut idx: usize = 0;
    proof {
        assert(out@ =~= encode_table_spec(t@.subrange(0, 0)));
    }
    while idx < t.len()
        invariant
            idx <= t@.len(),
            out@ == encode_table_spec(t@.subrange(0, idx as int)),
            out@.len() == idx * (RECORD_SIZE as int),
        decreases t@.len() - idx,
    {
        let mut rec = encode_record(&t[idx]);
        out.append(&mut rec);
        proof {
            let pre = t@.subrange(0, idx as int);
            let cur = t@.subrange(0, idx + 1);
            assert(cur.drop_last() =~= pre);
            assert(cur.last() == t@[idx as int]);
            assert((idx + 1) * (RECORD_SIZE as int) == idx * (RECORD_SIZE as int) + (
            RECORD_SIZE as int)) by (nonlinear_arith);
        }
        idx = idx + 1;
    }
    proof {
        assert(t@.subrange(0, t@.len() as int) =~= t@);
    }
    out
}

} // verus!
