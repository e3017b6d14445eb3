use fee_sweeper::notes::{classify_note, FeeNote, NotePlain, NoteStatus, RawNote};
use fee_sweeper::store::{NoteStore, StoreError};

fn raw(commitment: u128, chain_id: u64, block_number: u64) -> RawNote {
    RawNote { commitment, chain_id, block_number, ciphertext: vec![1, 2, 3] }
}

fn plain(wallet: u128) -> NotePlain {
    NotePlain { mint: String::from("0xusdc"), amount: 42, receiver_wallet_id: wallet }
}

fn indexed_note(commitment: u128, chain_id: u64, block_number: u64, wallet: u128) -> FeeNote {
    classify_note(raw(commitment, chain_id, block_number), Some(plain(wallet)))
}

#[test]
fn upsert_twice_is_idempotent() {
    let mut store = NoteStore::new();
    let batch = vec![indexed_note(1, 1, 10, 7), indexed_note(2, 1, 11, 7)];
    store.upsert_batch(&batch);
    let first_count = store.note_count();
    let first_one = store.get_note(1).unwrap();
    let first_two = store.get_note(2).unwrap();
    store.upsert_batch(&batch);
    assert_eq!(store.note_count(), first_count);
    assert_eq!(store.note_count(), 2);
    assert_eq!(store.get_note(1).unwrap(), first_one);
    assert_eq!(store.get_note(2).unwrap(), first_two);
}

#[test]
fn upsert_preserves_redemption_progress() {
    let mut store = NoteStore::new();
    let batch = vec![indexed_note(1, 1, 10, 7)];
    store.upsert_batch(&batch);
    assert!(store.mark_pending(1, Some(99)));
    // Re-observing the same event must not reset the in-flight status.
    store.upsert_batch(&batch);
    let note = store.get_note(1).unwrap();
    assert_eq!(note.status, NoteStatus::Pending);
    assert_eq!(note.redemption_task_id, Some(99));
}

#[test]
fn checkpoint_advances_and_rejects_regression() {
    let mut store = NoteStore::new();
    assert_eq!(store.checkpoint(1), 0);
    assert_eq!(store.advance_checkpoint(1, 10), Ok(()));
    assert_eq!(store.checkpoint(1), 10);
    // A smaller block fails and leaves the state unchanged.
    assert_eq!(store.advance_checkpoint(1, 5), Err(StoreError::CheckpointRegression));
    assert_eq!(store.checkpoint(1), 10);
    // The same block is allowed: the checkpoint never decreases.
    assert_eq!(store.advance_checkpoint(1, 10), Ok(()));
    assert_eq!(store.checkpoint(1), 10);
    assert_eq!(store.advance_checkpoint(1, 11), Ok(()));
    assert_eq!(store.checkpoint(1), 11);
}

#[test]
fn checkpoints_are_per_chain() {
    let mut store = NoteStore::new();
    assert_eq!(store.advance_checkpoint(1, 10), Ok(()));
    assert_eq!(store.advance_checkpoint(2, 3), Ok(()));
    assert_eq!(store.checkpoint(1), 10);
    assert_eq!(store.checkpoint(2), 3);
    assert_eq!(store.checkpoint(3), 0);
}

#[test]
fn status_moves_only_forward() {
    let mut store = NoteStore::new();
    store.upsert_batch(&vec![indexed_note(1, 1, 10, 7)]);
    // Redeeming or failing an Indexed note is a no-op.
    assert!(!store.mark_redeemed(1));
    assert_eq!(store.get_note(1).unwrap().status, NoteStatus::Indexed);
    assert!(!store.mark_failed(1, String::from("nope")));
    assert_eq!(store.get_note(1).unwrap().status, NoteStatus::Indexed);
    // Indexed -> Pending -> Redeemed.
    assert!(store.mark_pending(1, Some(5)));
    assert_eq!(store.get_note(1).unwrap().status, NoteStatus::Pending);
    assert!(store.mark_redeemed(1));
    assert_eq!(store.get_note(1).unwrap().status, NoteStatus::Redeemed);
    // Terminal states absorb every mark: never an error, never a second move.
    assert!(!store.mark_pending(1, Some(6)));
    assert!(!store.mark_redeemed(1));
    assert!(!store.mark_failed(1, String::from("late")));
    let note = store.get_note(1).unwrap();
    assert_eq!(note.status, NoteStatus::Redeemed);
    assert_eq!(note.redemption_task_id, Some(5));
}

#[test]
fn pending_can_fail_with_reason() {
    let mut store = NoteStore::new();
    store.upsert_batch(&vec![indexed_note(1, 1, 10, 7)]);
    assert!(store.mark_pending(1, None));
    assert!(store.mark_failed(1, String::from("relayer rejected")));
    let note = store.get_note(1).unwrap();
    assert_eq!(note.status, NoteStatus::Failed(String::from("relayer rejected")));
    // A failed note cannot be re-entered into redemption.
    assert!(!store.mark_pending(1, Some(9)));
    assert_eq!(store.get_note(1).unwrap().status, NoteStatus::Failed(String::from("relayer rejected")));
}

#[test]
fn mark_on_missing_note_is_noop() {
    let mut store = NoteStore::new();
    assert!(!store.mark_pending(42, Some(1)));
    assert!(!store.mark_redeemed(42));
    assert!(!store.mark_failed(42, String::from("missing")));
    assert_eq!(store.note_count(), 0);
}

#[test]
fn list_pending_returns_in_flight_notes_with_tasks() {
    let mut store = NoteStore::new();
    let batch = vec![
        indexed_note(1, 1, 10, 7),
        indexed_note(2, 1, 12, 7),
        indexed_note(3, 1, 11, 8),
        indexed_note(4, 2, 5, 7),
    ];
    store.upsert_batch(&batch);
    assert!(store.mark_pending(1, Some(41)));
    assert!(store.mark_pending(2, None));
    assert!(store.mark_pending(4, Some(9)));
    let pending = store.list_pending(1);
    let keys: Vec<(u128, Option<u128>)> =
        pending.iter().map(|n| (n.commitment, n.redemption_task_id)).collect();
    // Only this chain's Pending notes, in (block, commitment) order, each
    // with the task its run recorded.
    assert_eq!(keys, vec![(1, Some(41)), (2, None)]);
    assert!(pending.iter().all(|n| n.status == NoteStatus::Pending));
    // The Indexed note is not pending, and the pending ones are not listed
    // as redeemable.
    let redeemable = store.list_redeemable(1);
    assert_eq!(redeemable.len(), 1);
    assert_eq!(redeemable[0].commitment, 3);
}

#[test]
fn list_redeemable_is_sorted_and_filtered() {
    let mut store = NoteStore::new();
    let undecryptable = classify_note(raw(4, 1, 9), None);
    let batch = vec![
        indexed_note(30, 1, 12, 7),
        indexed_note(10, 1, 11, 7),
        indexed_note(21, 1, 11, 8),
        indexed_note(5, 2, 3, 7),
        undecryptable,
    ];
    store.upsert_batch(&batch);
    // One note has already moved on; it must not be listed again.
    assert!(store.mark_pending(30, Some(1)));
    let listed = store.list_redeemable(1);
    let keys: Vec<(u64, u128)> =
        listed.iter().map(|n| (n.block_number, n.commitment)).collect();
    assert_eq!(keys, vec![(11, 10), (11, 21)]);
    assert!(listed.iter().all(|n| n.status == NoteStatus::Indexed && n.chain_id == 1));
}
