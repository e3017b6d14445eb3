use fee_sweeper::indexer::{ingest_batch, plan_scan};
use fee_sweeper::notes::{classify_note, FeeNote, NotePlain, NoteStatus, RawNote};
use fee_sweeper::relayer::RelayerClient;
use fee_sweeper::store::NoteStore;

fn classified(commitment: u128, block_number: u64, owned: bool) -> FeeNote {
    let raw = RawNote { commitment, chain_id: 1, block_number, ciphertext: vec![commitment as u8] };
    let plain = if owned {
        Some(NotePlain {
            mint: String::from("0xusdc"),
            amount: 10,
            receiver_wallet_id: 7,
        })
    } else {
        None
    };
    classify_note(raw, plain)
}

#[test]
fn first_pass_scans_from_block_one_to_head() {
    // Chain head 100 with a fresh checkpoint: the pass covers [1, 100].
    assert_eq!(plan_scan(0, 100), Some((1, 100)));
}

#[test]
fn indexing_pass_persists_then_advances_checkpoint() {
    let mut store = NoteStore::new();
    assert_eq!(store.checkpoint(1), 0);
    let range = plan_scan(store.checkpoint(1), 100).unwrap();
    assert_eq!(range, (1, 100));
    // Three events observed in the range; one is not ours.
    let batch = vec![
        classified(1, 5, true),
        classified(2, 50, false),
        classified(3, 100, true),
    ];
    assert_eq!(ingest_batch(&mut store, 1, range.1, &batch), Ok(()));
    assert_eq!(store.checkpoint(1), 100);
    assert_eq!(store.note_count(), 3);
    assert_eq!(store.get_note(1).unwrap().status, NoteStatus::Indexed);
    assert_eq!(store.get_note(2).unwrap().status, NoteStatus::Undecryptable);
    assert_eq!(store.get_note(3).unwrap().status, NoteStatus::Indexed);
}

#[test]
fn rerun_at_same_head_is_a_noop() {
    let mut store = NoteStore::new();
    let batch = vec![classified(1, 5, true), classified(2, 50, false)];
    assert_eq!(ingest_batch(&mut store, 1, 100, &batch), Ok(()));
    // The head has not moved: there is no range to scan, nothing is
    // fetched, and the store is untouched.
    assert_eq!(plan_scan(store.checkpoint(1), 100), None);
    assert_eq!(store.note_count(), 2);
    assert_eq!(store.checkpoint(1), 100);
    // Even re-ingesting the very same batch changes nothing.
    assert_eq!(ingest_batch(&mut store, 1, 100, &batch), Ok(()));
    assert_eq!(store.note_count(), 2);
    assert_eq!(store.checkpoint(1), 100);
    assert_eq!(store.get_note(1).unwrap().status, NoteStatus::Indexed);
}

#[test]
fn scan_is_planned_only_past_the_checkpoint() {
    assert_eq!(plan_scan(100, 100), None);
    assert_eq!(plan_scan(100, 99), None);
    assert_eq!(plan_scan(100, 101), Some((101, 101)));
}

#[test]
fn relayer_client_keeps_its_configuration() {
    let client = RelayerClient::new("https://relayer.example", "0xusdc");
    assert_eq!(client.base_url().as_str(), "https://relayer.example");
    assert!(client.is_usdc_mint("0xusdc"));
    assert!(!client.is_usdc_mint("0xweth"));
}
