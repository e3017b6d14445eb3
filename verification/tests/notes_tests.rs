use fee_sweeper::notes::{classify_note, NotePlain, NoteStatus, RawNote};

#[test]
fn decrypted_notes_are_indexed_with_fields() {
    let raw = RawNote { commitment: 11, chain_id: 1, block_number: 4, ciphertext: vec![1, 2] };
    let note = classify_note(
        raw,
        Some(NotePlain {
            mint: String::from("0xusdc"),
            amount: 99,
            receiver_wallet_id: 7,
        }),
    );
    assert_eq!(note.commitment, 11);
    assert_eq!(note.chain_id, 1);
    assert_eq!(note.block_number, 4);
    assert_eq!(note.ciphertext, vec![1, 2]);
    assert_eq!(note.status, NoteStatus::Indexed);
    assert_eq!(note.mint, Some(String::from("0xusdc")));
    assert_eq!(note.amount, Some(99));
    assert_eq!(note.receiver_wallet_id, Some(7));
    assert_eq!(note.redemption_task_id, None);
}

#[test]
fn undecryptable_notes_are_classified_not_errors() {
    // A malformed or foreign ciphertext classifies the note; nothing panics
    // and nothing is retried.
    let raw = RawNote { commitment: 12, chain_id: 1, block_number: 4, ciphertext: Vec::new() };
    let note = classify_note(raw, None);
    assert_eq!(note.status, NoteStatus::Undecryptable);
    assert_eq!(note.mint, None);
    assert_eq!(note.amount, None);
    assert_eq!(note.receiver_wallet_id, None);
    assert_eq!(note.redemption_task_id, None);
}
