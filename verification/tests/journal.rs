use journal::entry::CreateEntry;
use journal::entry::DeleteEntry;
use journal::entry::JournalError;
use journal::entry::Pubkey;
use journal::entry::UpdateEntry;
use journal::store::JournalStore;

fn pk(b: u8) -> Pubkey {
    Pubkey { bytes: [b; 32] }
}

fn create(
    s: &mut JournalStore,
    title: &[u8],
    message: &[u8],
    owner: Pubkey,
) -> Result<(), JournalError> {
    s.create_journal_entry(&CreateEntry { owner }, title.to_vec(), message.to_vec())
}

fn update(
    s: &mut JournalStore,
    title: &[u8],
    message: &[u8],
    entry_owner: Pubkey,
    caller: Pubkey,
) -> Result<(), JournalError> {
    s.update_journal_entry(
        &UpdateEntry { entry_owner, owner: caller },
        &title.to_vec(),
        message.to_vec(),
    )
}

fn delete(
    s: &mut JournalStore,
    title: &[u8],
    entry_owner: Pubkey,
    caller: Pubkey,
) -> Result<(), JournalError> {
    s.delete_journal_entry(&DeleteEntry { entry_owner, owner: caller }, &title.to_vec())
}

#[test]
fn create_then_lookup_round_trip() {
    let mut s = JournalStore::new();
    let a = pk(1);
    assert_eq!(create(&mut s, b"Day 1", b"Went for a walk", a), Ok(()));
    let e = s.get_journal_entry(&b"Day 1".to_vec(), &a).expect("record should exist");
    assert_eq!(e.owner, a);
    assert_eq!(e.title, b"Day 1".to_vec());
    assert_eq!(e.message, b"Went for a walk".to_vec());
}

#[test]
fn title_too_long_regardless_of_message() {
    let mut s = JournalStore::new();
    let a = pk(1);
    let long_title = vec![b't'; 51];
    assert_eq!(
        create(&mut s, &long_title, b"short", a),
        Err(JournalError::TitleTooLong)
    );
    let long_message = vec![b'm'; 2000];
    assert_eq!(
        create(&mut s, &long_title, &long_message, a),
        Err(JournalError::TitleTooLong)
    );
    assert!(s.get_journal_entry(&long_title, &a).is_none());
}

#[test]
fn message_too_long_on_create_and_update() {
    let mut s = JournalStore::new();
    let a = pk(1);
    let long_message = vec![b'm'; 1001];
    assert_eq!(
        create(&mut s, b"Day 1", &long_message, a),
        Err(JournalError::MessageTooLong)
    );
    assert_eq!(create(&mut s, b"Day 1", b"fine", a), Ok(()));
    assert_eq!(
        update(&mut s, b"Day 1", &long_message, a, a),
        Err(JournalError::MessageTooLong)
    );
    let e = s.get_journal_entry(&b"Day 1".to_vec(), &a).unwrap();
    assert_eq!(e.message, b"fine".to_vec());
}

#[test]
fn create_twice_fails_and_keeps_first_record() {
    let mut s = JournalStore::new();
    let a = pk(1);
    assert_eq!(create(&mut s, b"Day 1", b"first", a), Ok(()));
    assert_eq!(
        create(&mut s, b"Day 1", b"second", a),
        Err(JournalError::AlreadyExists)
    );
    let e = s.get_journal_entry(&b"Day 1".to_vec(), &a).unwrap();
    assert_eq!(e.message, b"first".to_vec());
}

#[test]
fn update_from_non_owner_is_unauthorized_and_changes_nothing() {
    let mut s = JournalStore::new();
    let a = pk(1);
    let b = pk(2);
    assert_eq!(create(&mut s, b"Day 1", b"mine", a), Ok(()));
    assert_eq!(
        update(&mut s, b"Day 1", b"stolen", a, b),
        Err(JournalError::Unauthorized)
    );
    let e = s.get_journal_entry(&b"Day 1".to_vec(), &a).unwrap();
    assert_eq!(e.message, b"mine".to_vec());
    assert_eq!(e.owner, a);
}

#[test]
fn delete_from_non_owner_is_unauthorized_and_changes_nothing() {
    let mut s = JournalStore::new();
    let a = pk(1);
    let b = pk(2);
    assert_eq!(create(&mut s, b"Day 1", b"mine", a), Ok(()));
    assert_eq!(delete(&mut s, b"Day 1", a, b), Err(JournalError::Unauthorized));
    let e = s.get_journal_entry(&b"Day 1".to_vec(), &a).unwrap();
    assert_eq!(e.message, b"mine".to_vec());
}

#[test]
fn over_length_message_beats_unauthorized() {
    let mut s = JournalStore::new();
    let a = pk(1);
    let b = pk(2);
    assert_eq!(create(&mut s, b"Day 1", b"mine", a), Ok(()));
    let long_message = vec![b'm'; 1001];
    assert_eq!(
        update(&mut s, b"Day 1", &long_message, a, b),
        Err(JournalError::MessageTooLong)
    );
    let e = s.get_journal_entry(&b"Day 1".to_vec(), &a).unwrap();
    assert_eq!(e.message, b"mine".to_vec());
}

#[test]
fn full_lifecycle() {
    let mut s = JournalStore::new();
    let a = pk(1);
    let b = pk(2);
    assert_eq!(create(&mut s, b"Day 1", b"Went for a walk", a), Ok(()));
    assert_eq!(
        update(&mut s, b"Day 1", b"Went for a walk and a run", a, a),
        Ok(())
    );
    let e = s.get_journal_entry(&b"Day 1".to_vec(), &a).unwrap();
    assert_eq!(e.message, b"Went for a walk and a run".to_vec());
    assert_eq!(
        update(&mut s, b"Day 1", b"Went for a walk and a run", a, b),
        Err(JournalError::Unauthorized)
    );
    assert_eq!(delete(&mut s, b"Day 1", a, a), Ok(()));
    assert!(s.get_journal_entry(&b"Day 1".to_vec(), &a).is_none());
}

#[test]
fn exact_boundary_sizes() {
    let mut s = JournalStore::new();
    let a = pk(1);
    let title_50 = vec![b't'; 50];
    let title_51 = vec![b't'; 51];
    let message_1000 = vec![b'm'; 1000];
    let message_1001 = vec![b'm'; 1001];
    assert_eq!(create(&mut s, &title_50, &message_1000, a), Ok(()));
    let e = s.get_journal_entry(&title_50, &a).unwrap();
    assert_eq!(e.title.len(), 50);
    assert_eq!(e.message.len(), 1000);
    assert_eq!(
        create(&mut s, &title_51, b"short", a),
        Err(JournalError::TitleTooLong)
    );
    assert_eq!(
        create(&mut s, b"other", &message_1001, a),
        Err(JournalError::MessageTooLong)
    );
    assert_eq!(update(&mut s, &title_50, &message_1000, a, a), Ok(()));
    assert_eq!(
        update(&mut s, &title_50, &message_1001, a, a),
        Err(JournalError::MessageTooLong)
    );
}

#[test]
fn update_and_delete_on_absent_key_report_not_found() {
    let mut s = JournalStore::new();
    let a = pk(1);
    assert_eq!(
        update(&mut s, b"missing", b"text", a, a),
        Err(JournalError::NotFound)
    );
    assert_eq!(delete(&mut s, b"missing", a, a), Err(JournalError::NotFound));
    let long_message = vec![b'm'; 1001];
    assert_eq!(
        update(&mut s, b"missing", &long_message, a, a),
        Err(JournalError::NotFound)
    );
}

#[test]
fn same_title_different_owners_are_distinct_records() {
    let mut s = JournalStore::new();
    let a = pk(1);
    let b = pk(2);
    assert_eq!(create(&mut s, b"Day 1", b"alpha", a), Ok(()));
    assert_eq!(create(&mut s, b"Day 1", b"beta", b), Ok(()));
    assert_eq!(
        s.get_journal_entry(&b"Day 1".to_vec(), &a).unwrap().message,
        b"alpha".to_vec()
    );
    assert_eq!(
        s.get_journal_entry(&b"Day 1".to_vec(), &b).unwrap().message,
        b"beta".to_vec()
    );
    assert_eq!(delete(&mut s, b"Day 1", a, a), Ok(()));
    assert!(s.get_journal_entry(&b"Day 1".to_vec(), &a).is_none());
    assert_eq!(
        s.get_journal_entry(&b"Day 1".to_vec(), &b).unwrap().message,
        b"beta".to_vec()
    );
}

#[test]
fn delete_then_recreate_starts_fresh() {
    let mut s = JournalStore::new();
    let a = pk(1);
    assert_eq!(create(&mut s, b"Day 1", b"first life", a), Ok(()));
    assert_eq!(delete(&mut s, b"Day 1", a, a), Ok(()));
    assert_eq!(create(&mut s, b"Day 1", b"second life", a), Ok(()));
    let e = s.get_journal_entry(&b"Day 1".to_vec(), &a).unwrap();
    assert_eq!(e.message, b"second life".to_vec());
}

#[test]
fn empty_title_and_message_are_accepted() {
    let mut s = JournalStore::new();
    let a = pk(1);
    assert_eq!(create(&mut s, b"", b"", a), Ok(()));
    let e = s.get_journal_entry(&b"".to_vec(), &a).unwrap();
    assert_eq!(e.title, Vec::<u8>::new());
    assert_eq!(e.message, Vec::<u8>::new());
}

#[test]
fn error_kinds_carry_their_messages() {
    assert_eq!(
        JournalError::TitleTooLong.message(),
        "Title length exceeds 50 characters."
    );
    assert_eq!(
        JournalError::MessageTooLong.message(),
        "Message length exceeds 1000 characters."
    );
    assert_eq!(JournalError::Unauthorized.message(), "Unauthorized access.");
    assert_eq!(
        JournalError::AlreadyExists.message(),
        "Journal entry already exists."
    );
    assert_eq!(JournalError::NotFound.message(), "Journal entry not found.");
}
