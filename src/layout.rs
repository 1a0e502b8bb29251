//! The byte layout of the shared region: a header with the two cursors, each
//! on its own 64-byte line, followed by `CAPACITY` record slots.
use crate::record::Record;
use crate::ring::{publish_slot, CAPACITY};
use vstd::prelude::*;

verus! {

/// Where the producer's cursor lies in the region.
pub const WRITE_INDEX_OFFSET: usize = 0;

/// Where the consumer's cursor lies in the region.
pub const READ_INDEX_OFFSET: usize = 64;

/// Where the first slot lies in the region.
pub const SLOTS_OFFSET: usize = 128;

/// The bytes of one slot.
pub const RECORD_BYTES: usize = 24;

/// The bytes of the whole region.
pub const REGION_BYTES: usize = 393344;

/// The `n` low bytes of `x`, least significant first.
pub open spec fn le_bytes(x: nat, n: nat) -> Seq<u8>
    decreases n,
{
    if n == 0 {
        Seq::empty()
    } else {
        seq![(x % 256) as u8] + le_bytes(x / 256, (n - 1) as nat)
    }
}

/// A signed 32-bit value as its two's-complement bit pattern.
pub open spec fn twos_complement(p: i32) -> nat {
    if p < 0 {
        (p + 4294967296) as nat
    } else {
        p as nat
    }
}

/// The bytes of a record in its slot: `id` and `size` as little-endian
/// 64-bit words, `price` as a little-endian 32-bit word, then the codes of
/// side, action and source, and one byte of padding.
pub open spec fn record_bytes(r: Record) -> Seq<u8> {
    le_bytes(r.id as nat, 8) + le_bytes(r.size as nat, 8) + le_bytes(twos_complement(r.price), 4)
        + seq![
        if r.side == crate::record::Side::Bid { 0u8 } else { 1u8 },
        if r.action == crate::record::Action::Upsert { 0u8 } else { 1u8 },
        if r.source == crate::record::Source::Book { 0u8 } else { 1u8 },
        0u8,
    ]
}

/// The region holds the header and exactly `CAPACITY` slots.
pub proof fn lemma_region_size()
    ensures
        REGION_BYTES == SLOTS_OFFSET + CAPACITY * RECORD_BYTES,
        READ_INDEX_OFFSET - WRITE_INDEX_OFFSET == 64,
        SLOTS_OFFSET - READ_INDEX_OFFSET == 64,
{
}

/// Where slot `slot` starts in the region.
pub fn slot_offset(slot: usize) -> (r: usize)
    requires
        slot < CAPACITY,
    ensures
        r == SLOTS_OFFSET + slot * RECORD_BYTES,
        r + RECORD_BYTES <= REGION_BYTES,
{
    SLOTS_OFFSET + slot * RECORD_BYTES
}

/// Appends the `n` low bytes of `x`, least significant first.
fn push_le(out: &mut Vec<u8>, x: u64, n: usize)
    requires
        n <= 8,
    ensures
        final(out)@ == old(out)@ + le_bytes(x as nat, n as nat),
{
    let mut v: u64 = x;
    let mut i: usize = 0;
    let ghost start = out@;
    while i < n
        invariant
            i <= n,
            out@ + le_bytes(v as nat, (n - i) as nat) == start + le_bytes(x as nat, n as nat),
        decreases n - i,
    {
        let ghost before = out@;
        proof {
            assert(le_bytes(v as nat, (n - i) as nat) == seq![(v % 256) as u8] + le_bytes(
                (v / 256) as nat,
                (n - i - 1) as nat,
            ));
        }
        out.push((v % 256) as u8);
        proof {
            assert(out@ + le_bytes((v / 256) as nat, (n - i - 1) as nat) =~= before + le_bytes(
                v as nat,
                (n - i) as nat,
            ));
        }
        v = v / 256;
        i = i + 1;
    }
    proof {
        assert(out@ + le_bytes(v as nat, 0) =~= out@);
    }
}

/// The bytes of a record in its slot.
pub fn encode_record(r: &Record) -> (b: Vec<u8>)
    ensures
        b@ == record_bytes(*r),
        b@.len() == RECORD_BYTES,
{
    let mut out: Vec<u8> = Vec::new();
    push_le(&mut out, r.id, 8);
    push_le(&mut out, r.size, 8);
    let pattern: u64 = if r.price < 0 {
        (r.price as i64 + 4294967296) as u64
    } else {
        r.price as u64
    };
    push_le(&mut out, pattern, 4);
    out.push(r.side.code());
    out.push(r.action.code());
    out.push(r.source.code());
    out.push(0);
    proof {
        reveal_with_fuel(le_bytes, 9);
        assert(out@ =~= record_bytes(*r));
    }
    out
}

/// One step of the producer on the shared region, given both cursors as it
/// read them: while the ring is full, `None` (nothing is written; the
/// producer reads the cursors again); otherwise where the record's bytes go,
/// those bytes, and the write cursor to store once they are written. The
/// cursor then still trails the read cursor by at most `CAPACITY`.
pub fn publish_step(write_index: u64, read_index: u64, rec: &Record) -> (r: Option<(usize, Vec<u8>, u64)>)
    requires
        read_index <= write_index,
        write_index < u64::MAX,
    ensures
        r is Some <==> write_index - read_index < CAPACITY,
        r is Some ==> r->Some_0.0 == SLOTS_OFFSET + (write_index % CAPACITY) * RECORD_BYTES,
        r is Some ==> r->Some_0.1@ == record_bytes(*rec),
        r is Some ==> r->Some_0.2 == write_index + 1,
        r is Some ==> read_index <= r->Some_0.2 <= read_index + CAPACITY,
{
    match publish_slot(write_index, read_index) {
        None => None,
        Some(slot) => Some((slot_offset(slot), encode_record(rec), write_index + 1)),
    }
}

} // verus!
