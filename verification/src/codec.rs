//! The fixed-size persisted image of a record.
//!
//! A slot cannot be reallocated once reserved, so every record is persisted
//! in an image of the same worst-case size whatever its actual field
//! lengths: a zeroed 8-byte tag kept for the storage layer to distinguish
//! record types, the 32-byte owner key, each text field behind a 4-byte
//! little-endian length prefix, and zero padding up to `ENTRY_SPACE`.

use vstd::prelude::*;

use vstd::bytes::lemma_auto_spec_u32_to_from_le_bytes;
use vstd::bytes::spec_u32_to_le_bytes;
use vstd::bytes::u32_from_le_bytes;
use vstd::bytes::u32_to_le_bytes;
use vstd::slice::slice_subrange;
use vstd::slice::slice_to_vec;

use crate::entry::JournalEntryState;
use crate::entry::MAX_MESSAGE_BYTES;
use crate::entry::MAX_TITLE_BYTES;
use crate::entry::Pubkey;
use crate::entry::wf_entry;

verus! {

/// Bytes reserved for one persisted record: tag, owner key, and a length
/// prefix plus worst-case payload for each of the two text fields.
pub const ENTRY_SPACE: usize = 8 + 32 + 4 + 50 + 4 + 1000;

/// A run of `n` zero bytes.
pub open spec fn zeros(n: nat) -> Seq<u8> {
    Seq::new(n, |i: int| 0u8)
}

/// The persisted image of a record.
pub open spec fn entry_image(e: JournalEntryState) -> Seq<u8>
    recommends
        wf_entry(e),
{
    zeros(8) + e.owner@ + spec_u32_to_le_bytes(e.title@.len() as u32) + e.title@
        + spec_u32_to_le_bytes(e.message@.len() as u32) + e.message@ + zeros(
        (ENTRY_SPACE - 48 - e.title@.len() - e.message@.len()) as nat,
    )
}

/// Append `n` zero bytes to `out`.
fn push_zeros(out: &mut Vec<u8>, n: usize)
    ensures
        final(out)@ == old(out)@ + zeros(n as nat),
{
    let mut i: usize = 0;
    while i < n
        invariant
            i <= n,
            out@ == old(out)@ + zeros(i as nat),
        decreases n - i,
    {
        out.push(0);
        proof {
            assert(out@ =~= old(out)@ + zeros((i + 1) as nat));
        }
        i += 1;
    }
}

/// Append a copy of `b` to `out`.
fn push_slice(out: &mut Vec<u8>, b: &[u8])
    ensures
        final(out)@ == old(out)@ + b@,
{
    let mut i: usize = 0;
    while i < b.len()
        invariant
            i <= b@.len(),
            out@ == old(out)@ + b@.subrange(0, i as int),
        decreases b@.len() - i,
    {
        let x = *vstd::slice::slice_index_get(b, i);
        out.push(x);
        proof {
            assert(out@ =~= old(out)@ + b@.subrange(0, i + 1));
        }
        i += 1;
    }
    proof {
        assert(b@.subrange(0, b@.len() as int) =~= b@);
    }
}

/// Serialise a record into its fixed-size image. The image has length
/// `ENTRY_SPACE` whatever the actual lengths of the title and the message.
pub fn encode_entry(e: &JournalEntryState) -> (r: Vec<u8>)
    requires
        wf_entry(*e),
    ensures
        r@ == entry_image(*e),
        r@.len() == ENTRY_SPACE,
{
    let mut out: Vec<u8> = Vec::new();
    push_zeros(&mut out, 8);
    push_slice(&mut out, e.owner.bytes.as_slice());
    let mut tl = u32_to_le_bytes(e.title.len() as u32);
    out.append(&mut tl);
    push_slice(&mut out, e.title.as_slice());
    let mut ml = u32_to_le_bytes(e.message.len() as u32);
    out.append(&mut ml);
    push_slice(&mut out, e.message.as_slice());
    let pad = ENTRY_SPACE - 48 - e.title.len() - e.message.len();
    push_zeros(&mut out, pad);
    proof {
        lemma_auto_spec_u32_to_from_le_bytes();
        assert(out@ =~= entry_image(*e));
    }
    out
}

/// The pieces of a well-formed record's image, by offset.
proof fn lemma_image_shape(e: JournalEntryState)
    requires
        wf_entry(e),
    ensures
        entry_image(e).len() == ENTRY_SPACE,
        forall|i: int| 0 <= i < 8 ==> entry_image(e)[i] == 0,
        entry_image(e).subrange(8, 40) == e.owner@,
        entry_image(e).subrange(40, 44) == spec_u32_to_le_bytes(e.title@.len() as u32),
        entry_image(e).subrange(44, 44 + e.title@.len() as int) == e.title@,
        entry_image(e).subrange(44 + e.title@.len() as int, 48 + e.title@.len() as int)
            == spec_u32_to_le_bytes(e.message@.len() as u32),
        entry_image(e).subrange(48 + e.title@.len() as int, 48 + e.title@.len() as int + e.message@.len() as int)
            == e.message@,
        forall|i: int|
            48 + e.title@.len() + e.message@.len() <= i < ENTRY_SPACE ==> entry_image(e)[i] == 0,
{
    lemma_auto_spec_u32_to_from_le_bytes();
    let t = e.title@.len() as int;
    let m = e.message@.len() as int;
    assert(entry_image(e).len() == ENTRY_SPACE);
    assert(entry_image(e).subrange(8, 40) =~= e.owner@);
    assert(entry_image(e).subrange(40, 44) =~= spec_u32_to_le_bytes(e.title@.len() as u32));
    assert(entry_image(e).subrange(44, 44 + t) =~= e.title@);
    assert(entry_image(e).subrange(44 + t, 48 + t) =~= spec_u32_to_le_bytes(
        e.message@.len() as u32,
    ));
    assert(entry_image(e).subrange(48 + t, 48 + t + m) =~= e.message@);
}

/// Law: the image determines the record. Two well-formed records with the
/// same image agree on every field, so decoding an encoded record can only
/// give the record back.
pub proof fn lemma_image_injective(e1: JournalEntryState, e2: JournalEntryState)
    requires
        wf_entry(e1),
        wf_entry(e2),
        entry_image(e1) == entry_image(e2),
    ensures
        e1.owner@ == e2.owner@,
        e1.title@ == e2.title@,
        e1.message@ == e2.message@,
{
    lemma_auto_spec_u32_to_from_le_bytes();
    lemma_image_shape(e1);
    lemma_image_shape(e2);
    assert(e1.title@.len() == e2.title@.len());
    assert(e1.message@.len() == e2.message@.len());
}

/// Parse a fixed-size image back into a record. Returns `None` exactly when
/// the bytes are not the image of any well-formed record.
pub fn decode_entry(b: &Vec<u8>) -> (r: Option<JournalEntryState>)
    ensures
        match r {
            Some(e) => wf_entry(e) && b@ == entry_image(e),
            None => forall|e: JournalEntryState| wf_entry(e) ==> b@ != entry_image(e),
        },
{
    if b.len() != ENTRY_SPACE {
        proof {
            assert forall|e: JournalEntryState| wf_entry(e) implies b@ != entry_image(e) by {
                lemma_image_shape(e);
            }
        }
        return None;
    }
    let mut i: usize = 0;
    while i < 8
        invariant
            b@.len() == ENTRY_SPACE,
            i <= 8,
            forall|j: int| 0 <= j < i ==> b@[j] == 0,
        decreases 8 - i,
    {
        if b[i] != 0 {
            proof {
                assert forall|e: JournalEntryState| wf_entry(e) implies b@ != entry_image(e) by {
                    lemma_image_shape(e);
                }
            }
            return None;
        }
        i += 1;
    }
    let mut owner_bytes = [0u8; 32];
    let mut j: usize = 0;
    while j < 32
        invariant
            b@.len() == ENTRY_SPACE,
            j <= 32,
            forall|k: int| 0 <= k < j ==> owner_bytes@[k] == b@[8 + k],
        decreases 32 - j,
    {
        owner_bytes[j] = b[8 + j];
        j += 1;
    }
    let tl32 = u32_from_le_bytes(slice_subrange(b.as_slice(), 40, 44));
    if tl32 > MAX_TITLE_BYTES as u32 {
        proof {
            lemma_auto_spec_u32_to_from_le_bytes();
            assert forall|e: JournalEntryState| wf_entry(e) implies b@ != entry_image(e) by {
                if b@ == entry_image(e) {
                    lemma_image_shape(e);
                }
            }
        }
        return None;
    }
    let tl = tl32 as usize;
    let title = slice_to_vec(slice_subrange(b.as_slice(), 44, 44 + tl));
    let ml32 = u32_from_le_bytes(slice_subrange(b.as_slice(), 44 + tl, 48 + tl));
    if ml32 > MAX_MESSAGE_BYTES as u32 {
        proof {
            lemma_auto_spec_u32_to_from_le_bytes();
            assert forall|e: JournalEntryState| wf_entry(e) implies b@ != entry_image(e) by {
                if b@ == entry_image(e) {
                    lemma_image_shape(e);
                }
            }
        }
        return None;
    }
    let ml = ml32 as usize;
    let message = slice_to_vec(slice_subrange(b.as_slice(), 48 + tl, 48 + tl + ml));
    let mut p: usize = 48 + tl + ml;
    while p < ENTRY_SPACE
        invariant
            b@.len() == ENTRY_SPACE,
            48 + tl + ml <= p <= ENTRY_SPACE,
            tl == title@.len(),
            ml == message@.len(),
            tl <= MAX_TITLE_BYTES,
            ml <= MAX_MESSAGE_BYTES,
            forall|j2: int| 0 <= j2 < 8 ==> b@[j2] == 0,
            forall|k: int| 0 <= k < 32 ==> owner_bytes@[k] == b@[8 + k],
            tl32 == vstd::bytes::spec_u32_from_le_bytes(b@.subrange(40, 44)),
            tl == tl32 as usize,
            title@ == b@.subrange(44, 44 + tl as int),
            ml32 == vstd::bytes::spec_u32_from_le_bytes(
                b@.subrange(44 + tl as int, 48 + tl as int),
            ),
            ml == ml32 as usize,
            message@ == b@.subrange(48 + tl as int, 48 + tl as int + ml as int),
            forall|k: int| 48 + tl + ml <= k < p ==> b@[k] == 0,
        decreases ENTRY_SPACE - p,
    {
        if b[p] != 0 {
            proof {
                lemma_auto_spec_u32_to_from_le_bytes();
                assert forall|e: JournalEntryState| wf_entry(e) implies b@ != entry_image(e) by {
                    if b@ == entry_image(e) {
                        lemma_image_shape(e);
                        assert(e.title@.len() == tl);
                        assert(e.message@.len() == ml);
                    }
                }
            }
            return None;
        }
        p += 1;
    }
    let e = JournalEntryState { owner: Pubkey { bytes: owner_bytes }, title, message };
    proof {
        lemma_auto_spec_u32_to_from_le_bytes();
        lemma_image_shape(e);
        assert(b@ =~= entry_image(e));
    }
    Some(e)
}

} // verus!
