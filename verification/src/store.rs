//! The record store: a keyed table of journal records addressed by
//! (title, owner), with create, update and delete gated by validation
//! and ownership checks.

use vstd::prelude::*;

use crate::entry::CreateEntry;
use crate::entry::DeleteEntry;
use crate::entry::JournalEntryState;
use crate::entry::JournalError;
use crate::entry::MAX_MESSAGE_BYTES;
use crate::entry::MAX_TITLE_BYTES;
use crate::entry::Pubkey;
use crate::entry::UpdateEntry;
use crate::entry::entry_key;
use crate::entry::wf_entry;

verus! {

/// True when no two records in `s` share a storage key.
spec fn unique_keys(s: Seq<JournalEntryState>) -> bool {
    forall|i: int, j: int|
        0 <= i < j < s.len() ==> #[trigger] entry_key(s[i]) != #[trigger] entry_key(s[j])
}

/// True when some record in `s` sits at key `k`.
spec fn has_key(s: Seq<JournalEntryState>, k: (Seq<u8>, Seq<u8>)) -> bool {
    exists|i: int| 0 <= i < s.len() && entry_key(#[trigger] s[i]) == k
}

/// The index of the record at key `k`, where one exists.
spec fn index_of(s: Seq<JournalEntryState>, k: (Seq<u8>, Seq<u8>)) -> int {
    choose|i: int| 0 <= i < s.len() && entry_key(#[trigger] s[i]) == k
}

/// The message stored at key `k`, where a record exists there.
spec fn message_for(s: Seq<JournalEntryState>, k: (Seq<u8>, Seq<u8>)) -> Seq<u8> {
    s[index_of(s, k)].message@
}

/// The table a record sequence denotes: each occupied key mapped to the
/// message stored under it. The key already carries the title and the owner,
/// so the message is all that remains of a record.
spec fn seq_contents(s: Seq<JournalEntryState>) -> Map<(Seq<u8>, Seq<u8>), Seq<u8>> {
    Map::new(|k: (Seq<u8>, Seq<u8>)| has_key(s, k), |k: (Seq<u8>, Seq<u8>)| message_for(s, k))
}

/// Well-formedness of a record sequence: keys are unique, and every record
/// respects the size limits.
spec fn entries_ok(s: Seq<JournalEntryState>) -> bool {
    &&& unique_keys(s)
    &&& forall|i: int| 0 <= i < s.len() ==> wf_entry(#[trigger] s[i])
}

/// The record store.
pub struct JournalStore {
    entries: Vec<JournalEntryState>,
}

impl JournalStore {
    /// Well-formedness: keys are unique, and every stored record respects
    /// the size limits. Established by `new` and preserved by every
    /// operation.
    pub closed spec fn wf(&self) -> bool {
        entries_ok(self.entries@)
    }

    /// The store's abstract state: a map from (title, owner) keys to the
    /// stored message.
    pub closed spec fn contents(&self) -> Map<(Seq<u8>, Seq<u8>), Seq<u8>> {
        seq_contents(self.entries@)
    }

    /// An empty store.
    pub fn new() -> (r: JournalStore)
        ensures
            r.wf(),
            r.contents() == Map::<(Seq<u8>, Seq<u8>), Seq<u8>>::empty(),
    {
        let r = JournalStore { entries: Vec::new() };
        proof {
            assert(r.contents() =~= Map::<(Seq<u8>, Seq<u8>), Seq<u8>>::empty());
        }
        r
    }

    /// Direct key lookup: the record at `(title, owner)`, if one exists.
    pub fn get_journal_entry(&self, title: &Vec<u8>, owner: &Pubkey) -> (r: Option<
        &JournalEntryState,
    >)
        requires
            self.wf(),
        ensures
            match r {
                Some(e) => {
                    &&& self.contents().contains_key((title@, owner@))
                    &&& e.title@ == title@
                    &&& e.owner@ == owner@
                    &&& e.message@ == self.contents()[(title@, owner@)]
                },
                None => !self.contents().contains_key((title@, owner@)),
            },
    {
        match find_entry(&self.entries, title, owner) {
            Some(i) => {
                proof {
                    lemma_contents_at(self.entries@, i as int);
                }
                Some(&self.entries[i])
            },
            None => None,
        }
    }

    /// Create a record owned by the authenticated signer at the key derived
    /// from the title and the signer's identity.
    ///
    /// Checked in order: the title fits, the message fits, the derived key
    /// is free. A failed check leaves the store untouched.
    pub fn create_journal_entry(
        &mut self,
        ctx: &CreateEntry,
        title: Vec<u8>,
        message: Vec<u8>,
    ) -> (r: Result<(), JournalError>)
        requires
            old(self).wf(),
        ensures
            final(self).wf(),
            title@.len() > MAX_TITLE_BYTES ==> r == Err::<(), JournalError>(
                JournalError::TitleTooLong,
            ) && *final(self) == *old(self),
            title@.len() <= MAX_TITLE_BYTES && message@.len() > MAX_MESSAGE_BYTES ==> r
                == Err::<(), JournalError>(JournalError::MessageTooLong) && *final(self) == *old(self),
            title@.len() <= MAX_TITLE_BYTES && message@.len() <= MAX_MESSAGE_BYTES && old(self).contents().contains_key((title@, ctx.owner@)) ==> r == Err::<(), JournalError>(
                JournalError::AlreadyExists,
            ) && *final(self) == *old(self),
            title@.len() <= MAX_TITLE_BYTES && message@.len() <= MAX_MESSAGE_BYTES && !old(self).contents().contains_key((title@, ctx.owner@)) ==> r == Ok::<(), JournalError>(())
                && final(self).contents() == old(self).contents().insert(
                (title@, ctx.owner@),
                message@,
            ),
    {
        if title.len() > MAX_TITLE_BYTES {
            return Err(JournalError::TitleTooLong);
        }
        if message.len() > MAX_MESSAGE_BYTES {
            return Err(JournalError::MessageTooLong);
        }
        match find_entry(&self.entries, &title, &ctx.owner) {
            Some(i) => {
                proof {
                    lemma_contents_at(self.entries@, i as int);
                }
                Err(JournalError::AlreadyExists)
            },
            None => {
                let entry = JournalEntryState { owner: ctx.owner, title, message };
                let ghost s0 = self.entries@;
                let ghost ge = entry;
                self.entries.push(entry);
                proof {
                    lemma_push_contents(s0, ge);
                }
                Ok(())
            },
        }
    }

    /// Overwrite the message of the record at `(title, ctx.entry_owner)`,
    /// provided the authenticated signer is its owner.
    ///
    /// Checked in order: the record exists, the message fits, the signer
    /// owns the record — so an over-length message is reported as
    /// `MessageTooLong` even when the signer is not the owner. A failed
    /// check leaves the store untouched. The title and the owner of the
    /// record never change.
    pub fn update_journal_entry(
        &mut self,
        ctx: &UpdateEntry,
        title: &Vec<u8>,
        message: Vec<u8>,
    ) -> (r: Result<(), JournalError>)
        requires
            old(self).wf(),
        ensures
            final(self).wf(),
            !old(self).contents().contains_key((title@, ctx.entry_owner@)) ==> r == Err::<
                (),
                JournalError,
            >(JournalError::NotFound) && *final(self) == *old(self),
            old(self).contents().contains_key((title@, ctx.entry_owner@)) && message@.len()
                > MAX_MESSAGE_BYTES ==> r == Err::<(), JournalError>(JournalError::MessageTooLong)
                && *final(self) == *old(self),
            old(self).contents().contains_key((title@, ctx.entry_owner@)) && message@.len()
                <= MAX_MESSAGE_BYTES && ctx.entry_owner@ != ctx.owner@ ==> r == Err::<
                (),
                JournalError,
            >(JournalError::Unauthorized) && *final(self) == *old(self),
            old(self).contents().contains_key((title@, ctx.entry_owner@)) && message@.len()
                <= MAX_MESSAGE_BYTES && ctx.entry_owner@ == ctx.owner@ ==> r == Ok::<
                (),
                JournalError,
            >(()) && final(self).contents() == old(self).contents().insert(
                (title@, ctx.entry_owner@),
                message@,
            ),
    {
        match find_entry(&self.entries, title, &ctx.entry_owner) {
            None => Err(JournalError::NotFound),
            Some(i) => {
                proof {
                    lemma_contents_at(self.entries@, i as int);
                }
                if message.len() > MAX_MESSAGE_BYTES {
                    return Err(JournalError::MessageTooLong);
                }
                if !self.entries[i].owner.same_key(&ctx.owner) {
                    return Err(JournalError::Unauthorized);
                }
                let ghost s0 = self.entries@;
                let mut entry = self.entries.remove(i);
                proof {
                    lemma_remove_contents(s0, i as int);
                }
                entry.message = message;
                let ghost s1 = self.entries@;
                let ghost ge = entry;
                self.entries.push(entry);
                proof {
                    lemma_push_contents(s1, ge);
                    assert(seq_contents(self.entries@) =~= seq_contents(s0).insert(
                        (title@, ctx.entry_owner@),
                        ge.message@,
                    ));
                }
                Ok(())
            },
        }
    }

    /// Remove the record at `(title, ctx.entry_owner)`, provided the
    /// authenticated signer is its owner. The key becomes free again; a
    /// later create under it starts fresh.
    ///
    /// Checked in order: the record exists, the signer owns it. A failed
    /// check leaves the store untouched.
    pub fn delete_journal_entry(&mut self, ctx: &DeleteEntry, title: &Vec<u8>) -> (r: Result<
        (),
        JournalError,
    >)
        requires
            old(self).wf(),
        ensures
            final(self).wf(),
            !old(self).contents().contains_key((title@, ctx.entry_owner@)) ==> r == Err::<
                (),
                JournalError,
            >(JournalError::NotFound) && *final(self) == *old(self),
            old(self).contents().contains_key((title@, ctx.entry_owner@)) && ctx.entry_owner@
                != ctx.owner@ ==> r == Err::<(), JournalError>(JournalError::Unauthorized) && *final(self) == *old(self),
            old(self).contents().contains_key((title@, ctx.entry_owner@)) && ctx.entry_owner@
                == ctx.owner@ ==> r == Ok::<(), JournalError>(()) && final(self).contents() == old(self).contents().remove((title@, ctx.entry_owner@)),
    {
        match find_entry(&self.entries, title, &ctx.entry_owner) {
            None => Err(JournalError::NotFound),
            Some(i) => {
                proof {
                    lemma_contents_at(self.entries@, i as int);
                }
                if !self.entries[i].owner.same_key(&ctx.owner) {
                    return Err(JournalError::Unauthorized);
                }
                let ghost s0 = self.entries@;
                let _ = self.entries.remove(i);
                proof {
                    lemma_remove_contents(s0, i as int);
                }
                Ok(())
            },
        }
    }
}

/// True exactly when the two byte vectors hold the same bytes.
fn bytes_equal(a: &Vec<u8>, b: &Vec<u8>) -> (r: bool)
    ensures
        r == (a@ == b@),
{
    if a.len() != b.len() {
        return false;
    }
    let mut i: usize = 0;
    while i < a.len()
        invariant
            a@.len() == b@.len(),
            i <= a@.len(),
            forall|j: int| 0 <= j < i ==> a@[j] == b@[j],
        decreases a@.len() - i,
    {
        if a[i] != b[i] {
            return false;
        }
        i += 1;
    }
    proof {
        assert(a@ =~= b@);
    }
    true
}

/// Linear scan for the record at key `(title, owner)`.
fn find_entry(entries: &Vec<JournalEntryState>, title: &Vec<u8>, owner: &Pubkey) -> (r: Option<
    usize,
>)
    ensures
        match r {
            Some(i) => {
                &&& i < entries@.len()
                &&& entry_key(entries@[i as int]) == (title@, owner@)
            },
            None => !has_key(entries@, (title@, owner@)),
        },
{
    let mut i: usize = 0;
    while i < entries.len()
        invariant
            i <= entries@.len(),
            forall|j: int| 0 <= j < i ==> entry_key(#[trigger] entries@[j]) != (title@, owner@),
        decreases entries@.len() - i,
    {
        let e = &entries[i];
        if bytes_equal(&e.title, title) && e.owner.same_key(owner) {
            return Some(i);
        }
        i += 1;
    }
    None
}

/// Where the keys of `s` are unique, the record at index `i` is the one the
/// table reports under its key.
proof fn lemma_contents_at(s: Seq<JournalEntryState>, i: int)
    requires
        unique_keys(s),
        0 <= i < s.len(),
    ensures
        seq_contents(s).contains_key(entry_key(s[i])),
        seq_contents(s)[entry_key(s[i])] == s[i].message@,
{
    let k = entry_key(s[i]);
    assert(has_key(s, k));
    let i2 = index_of(s, k);
    assert(0 <= i2 < s.len() && entry_key(s[i2]) == k);
    assert(i2 == i);
}

/// Appending a record at a fresh key adds exactly that key to the table.
proof fn lemma_push_contents(s: Seq<JournalEntryState>, e: JournalEntryState)
    requires
        entries_ok(s),
        wf_entry(e),
        !has_key(s, entry_key(e)),
    ensures
        entries_ok(s.push(e)),
        seq_contents(s.push(e)) == seq_contents(s).insert(entry_key(e), e.message@),
{
    let s2 = s.push(e);
    let k = entry_key(e);
    assert forall|i: int, j: int| 0 <= i < j < s2.len() implies #[trigger] entry_key(s2[i])
        != #[trigger] entry_key(s2[j]) by {
        if j == s.len() {
            assert(s2[i] == s[i]);
            assert(s2[j] == e);
            if entry_key(s[i]) == k {
                assert(has_key(s, k));
            }
        } else {
            assert(s2[i] == s[i] && s2[j] == s[j]);
        }
    }
    assert forall|k2: (Seq<u8>, Seq<u8>)| #[trigger] has_key(s2, k2) implies has_key(s, k2) || k2
        == k by {
        let i = index_of(s2, k2);
        assert(0 <= i < s2.len() && entry_key(s2[i]) == k2);
        if i < s.len() {
            assert(entry_key(s[i]) == k2);
            assert(has_key(s, k2));
        } else {
            assert(s2[i] == e);
        }
    }
    assert forall|k2: (Seq<u8>, Seq<u8>)| has_key(s, k2) implies #[trigger] has_key(s2, k2) by {
        let i = index_of(s, k2);
        assert(0 <= i < s.len() && entry_key(s[i]) == k2);
        assert(entry_key(s2[i]) == k2);
    }
    assert(has_key(s2, k)) by {
        assert(entry_key(s2[s.len() as int]) == k);
    }
    assert forall|k2: (Seq<u8>, Seq<u8>)| #[trigger] has_key(s2, k2) implies message_for(s2, k2)
        == (if k2 == k {
        e.message@
    } else {
        message_for(s, k2)
    }) by {
        let i2 = index_of(s2, k2);
        assert(0 <= i2 < s2.len() && entry_key(s2[i2]) == k2);
        if k2 == k {
            assert(entry_key(s2[s.len() as int]) == k);
            assert(i2 == s.len());
        } else {
            assert(i2 < s.len());
            assert(has_key(s, k2));
            let i1 = index_of(s, k2);
            assert(0 <= i1 < s.len() && entry_key(s[i1]) == k2);
            assert(entry_key(s2[i1]) == k2);
            assert(i1 == i2);
        }
    }
    assert(seq_contents(s2) =~= seq_contents(s).insert(k, e.message@));
}

/// Removing the record at index `i` removes exactly its key from the table.
proof fn lemma_remove_contents(s: Seq<JournalEntryState>, i: int)
    requires
        entries_ok(s),
        0 <= i < s.len(),
    ensures
        entries_ok(s.remove(i)),
        !has_key(s.remove(i), entry_key(s[i])),
        seq_contents(s.remove(i)) == seq_contents(s).remove(entry_key(s[i])),
{
    let s2 = s.remove(i);
    let k = entry_key(s[i]);
    s.remove_ensures(i);
    assert forall|j: int| 0 <= j < s2.len() implies #[trigger] s2[j] == s[orig_index(i, j)] by {
        if j < i {
            assert(s2[j] == s[j]);
        } else {
            assert(s2[j] == s[j + 1]);
        }
    }
    assert forall|i2: int, j2: int| 0 <= i2 < j2 < s2.len() implies #[trigger] entry_key(s2[i2])
        != #[trigger] entry_key(s2[j2]) by {
        assert(s2[i2] == s[orig_index(i, i2)]);
        assert(s2[j2] == s[orig_index(i, j2)]);
    }
    assert forall|j: int| 0 <= j < s2.len() implies wf_entry(#[trigger] s2[j]) by {
        assert(s2[j] == s[orig_index(i, j)]);
    }
    assert forall|k2: (Seq<u8>, Seq<u8>)| #[trigger] has_key(s2, k2) implies has_key(s, k2) && k2
        != k by {
        let j = index_of(s2, k2);
        assert(0 <= j < s2.len() && entry_key(s2[j]) == k2);
        let j1 = orig_index(i, j);
        assert(entry_key(s[j1]) == k2);
        assert(has_key(s, k2));
        assert(j1 != i);
    }
    assert forall|k2: (Seq<u8>, Seq<u8>)| has_key(s, k2) && k2 != k implies #[trigger] has_key(
        s2,
        k2,
    ) by {
        let j1 = index_of(s, k2);
        assert(0 <= j1 < s.len() && entry_key(s[j1]) == k2);
        assert(j1 != i);
        if j1 < i {
            assert(s2[j1] == s[j1]);
        } else {
            assert(s2[j1 - 1] == s[j1]);
        }
    }
    assert forall|k2: (Seq<u8>, Seq<u8>)| #[trigger] has_key(s2, k2) implies message_for(s2, k2)
        == message_for(s, k2) by {
        let j = index_of(s2, k2);
        assert(0 <= j < s2.len() && entry_key(s2[j]) == k2);
        assert(s2[j] == s[orig_index(i, j)]);
        let j1 = index_of(s, k2);
        assert(0 <= j1 < s.len() && entry_key(s[j1]) == k2);
        assert(j1 == orig_index(i, j));
    }
    assert(seq_contents(s2) =~= seq_contents(s).remove(k));
}

/// The index in the unshortened sequence that position `j` of `s.remove(i)`
/// came from.
spec fn orig_index(i: int, j: int) -> int {
    if j < i {
        j
    } else {
        j + 1
    }
}

/// Law: a successful create writes its message under the derived key, so a
/// lookup at that key afterwards finds a record holding exactly the created
/// fields — and a second create under the same `(title, owner)` pair is
/// refused as `AlreadyExists`, since the key is now occupied.
pub proof fn lemma_create_round_trip(
    before: Map<(Seq<u8>, Seq<u8>), Seq<u8>>,
    after: Map<(Seq<u8>, Seq<u8>), Seq<u8>>,
    title: Seq<u8>,
    owner: Seq<u8>,
    message: Seq<u8>,
)
    requires
        after == before.insert((title, owner), message),
    ensures
        after.contains_key((title, owner)),
        after[(title, owner)] == message,
{
}

/// Law: a successful delete frees the derived key — a later lookup at
/// `(title, owner)` finds nothing, and a later create under the same pair
/// starts fresh.
pub proof fn lemma_delete_frees_key(
    before: Map<(Seq<u8>, Seq<u8>), Seq<u8>>,
    after: Map<(Seq<u8>, Seq<u8>), Seq<u8>>,
    title: Seq<u8>,
    owner: Seq<u8>,
)
    requires
        after == before.remove((title, owner)),
    ensures
        !after.contains_key((title, owner)),
{
}

/// Law: an operation that succeeds at one key leaves the record under every
/// other key exactly as it was, whether the operation wrote (create,
/// update) or removed (delete).
pub proof fn lemma_other_keys_untouched(
    before: Map<(Seq<u8>, Seq<u8>), Seq<u8>>,
    after: Map<(Seq<u8>, Seq<u8>), Seq<u8>>,
    k: (Seq<u8>, Seq<u8>),
    k2: (Seq<u8>, Seq<u8>),
    message: Seq<u8>,
)
    requires
        k2 != k,
        after == before.insert(k, message) || after == before.remove(k),
    ensures
        after.contains_key(k2) == before.contains_key(k2),
        before.contains_key(k2) ==> after[k2] == before[k2],
{
}

} // verus!
