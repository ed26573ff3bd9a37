//! The record schema: identities, the persisted record, the error taxonomy,
//! and the per-operation contexts the host hands in.

use vstd::prelude::*;

verus! {

/// Largest accepted title, in bytes.
pub const MAX_TITLE_BYTES: usize = 50;

/// Largest accepted message, in bytes.
pub const MAX_MESSAGE_BYTES: usize = 1000;

/// A principal's identity: a 32-byte public key.
#[derive(Clone, Copy, Debug, PartialEq, Eq)]
pub struct Pubkey {
    pub bytes: [u8; 32],
}

impl View for Pubkey {
    type V = Seq<u8>;

    open spec fn view(&self) -> Seq<u8> {
        self.bytes@
    }
}

impl Pubkey {
    /// Byte-for-byte comparison of two identities.
    pub fn same_key(&self, other: &Pubkey) -> (r: bool)
        ensures
            r == (self@ == other@),
    {
        let mut i: usize = 0;
        while i < 32
            invariant
                i <= 32,
                forall|j: int| 0 <= j < i ==> self.bytes@[j] == other.bytes@[j],
            decreases 32 - i,
        {
            if self.bytes[i] != other.bytes[i] {
                return false;
            }
            i += 1;
        }
        proof {
            assert(self.bytes@ =~= other.bytes@);
        }
        true
    }
}

/// Why an operation was refused.
#[derive(Clone, Copy, Debug, PartialEq, Eq, Structural)]
pub enum JournalError {
    /// The title exceeds `MAX_TITLE_BYTES` bytes.
    TitleTooLong,
    /// The message exceeds `MAX_MESSAGE_BYTES` bytes.
    MessageTooLong,
    /// The caller is not the stored owner of the record.
    Unauthorized,
    /// A record already sits at the derived key.
    AlreadyExists,
    /// No record sits at the derived key.
    NotFound,
}

impl JournalError {
    /// The human-readable line reported to the caller beside the error kind.
    pub fn message(&self) -> (r: &'static str)
        ensures
            self is TitleTooLong ==> r@ == "Title length exceeds 50 characters."@,
            self is MessageTooLong ==> r@ == "Message length exceeds 1000 characters."@,
            self is Unauthorized ==> r@ == "Unauthorized access."@,
            self is AlreadyExists ==> r@ == "Journal entry already exists."@,
            self is NotFound ==> r@ == "Journal entry not found."@,
    {
        match self {
            JournalError::TitleTooLong => "Title length exceeds 50 characters.",
            JournalError::MessageTooLong => "Message length exceeds 1000 characters.",
            JournalError::Unauthorized => "Unauthorized access.",
            JournalError::AlreadyExists => "Journal entry already exists.",
            JournalError::NotFound => "Journal entry not found.",
        }
    }
}

/// One persisted journal record.
#[derive(Clone, Debug, PartialEq, Eq)]
pub struct JournalEntryState {
    /// The identity that created the record; set once, never changed.
    pub owner: Pubkey,
    /// Addressing text, at most `MAX_TITLE_BYTES` bytes; immutable after
    /// creation, since it is part of the record's key.
    pub title: Vec<u8>,
    /// Body text, at most `MAX_MESSAGE_BYTES` bytes; mutable through update.
    pub message: Vec<u8>,
}

/// A record whose fields respect the size limits.
pub open spec fn wf_entry(e: JournalEntryState) -> bool {
    &&& e.title@.len() <= MAX_TITLE_BYTES
    &&& e.message@.len() <= MAX_MESSAGE_BYTES
}

/// The derived storage key of a record: the pair of its title bytes and its
/// owner's key bytes. Two records agree on this pair exactly when they are
/// the same logical record.
pub open spec fn entry_key(e: JournalEntryState) -> (Seq<u8>, Seq<u8>) {
    (e.title@, e.owner@)
}

/// Context for `create_journal_entry`: the authenticated signer, who funds
/// the new slot and becomes the record's owner. The new record's key is
/// derived from the title and this identity.
pub struct CreateEntry {
    pub owner: Pubkey,
}

/// Context for `update_journal_entry`.
pub struct UpdateEntry {
    /// Owner component of the addressed record's key; together with the
    /// title it names the slot being updated.
    pub entry_owner: Pubkey,
    /// The authenticated signer making the call.
    pub owner: Pubkey,
}

/// Context for `delete_journal_entry`.
pub struct DeleteEntry {
    /// Owner component of the addressed record's key.
    pub entry_owner: Pubkey,
    /// The authenticated signer making the call.
    pub owner: Pubkey,
}

} // verus!
