use fee_sweeper::notes::{classify_note, FeeNote, NotePlain, NoteStatus, RawNote};
use fee_sweeper::redeem::{
    apply_outcome, plan_redemption, poll_step, start_redeem, PollConfig, PollDecision, PollEvent,
    RedeemAction, RedeemEvent, RedeemOutcome, RedeemPhase, RetryPolicy,
};
use fee_sweeper::redeem::{
    ensure_wallet_step, redeem_step, resume_redeem, start_ensure, EnsureAction, EnsureEvent,
    EnsureOutcome, EnsurePhase,
};
use fee_sweeper::store::NoteStore;

fn indexed_note(commitment: u128, block_number: u64, wallet: u128) -> FeeNote {
    classify_note(
        RawNote { commitment, chain_id: 1, block_number, ciphertext: vec![9] },
        Some(NotePlain {
            mint: String::from("0xusdc"),
            amount: 5,
            receiver_wallet_id: wallet,
        }),
    )
}

#[test]
fn poll_treats_failed_query_as_completion() {
    let cfg = PollConfig { status_aware: false, max_polls: None };
    // The deployed semantics: a failed status query means the task is gone,
    // taken as success even though no payload was inspected.
    assert_eq!(poll_step(&cfg, 0, &PollEvent::QueryFailed), PollDecision::Done(true));
    assert_eq!(poll_step(&cfg, 0, &PollEvent::Running), PollDecision::Continue);
    // Without status awareness a reported terminal status is polled past.
    assert_eq!(poll_step(&cfg, 0, &PollEvent::Finished(false)), PollDecision::Continue);
    // And without a budget the loop polls on however long the task runs.
    assert_eq!(poll_step(&cfg, 1_000_000, &PollEvent::Running), PollDecision::Continue);
}

#[test]
fn status_aware_polling_reads_the_outcome() {
    let cfg = PollConfig { status_aware: true, max_polls: None };
    assert_eq!(poll_step(&cfg, 0, &PollEvent::Finished(true)), PollDecision::Done(true));
    assert_eq!(poll_step(&cfg, 0, &PollEvent::Finished(false)), PollDecision::Done(false));
    assert_eq!(poll_step(&cfg, 0, &PollEvent::QueryFailed), PollDecision::Done(true));
}

#[test]
fn bounded_polling_times_out() {
    let cfg = PollConfig { status_aware: false, max_polls: Some(3) };
    assert_eq!(poll_step(&cfg, 2, &PollEvent::Running), PollDecision::Continue);
    assert_eq!(poll_step(&cfg, 3, &PollEvent::Running), PollDecision::TimedOut);
    assert_eq!(poll_step(&cfg, 3, &PollEvent::Finished(true)), PollDecision::TimedOut);
    // A vanished task still completes, budget or not.
    assert_eq!(poll_step(&cfg, 3, &PollEvent::QueryFailed), PollDecision::Done(true));
}

#[test]
fn task_gone_on_first_poll_redeems_pending_note() {
    let policy = RetryPolicy { max_retries: 3 };
    let mut store = NoteStore::new();
    store.upsert_batch(&vec![indexed_note(1, 10, 7)]);
    assert!(store.mark_pending(1, Some(55)));

    // Drive one attempt: wallet ready, task submitted, task gone on the
    // first poll.
    let state = start_redeem();
    let (state, action) = redeem_step(&policy, state, RedeemEvent::WalletReady);
    assert_eq!(action, RedeemAction::SubmitRedeem);
    let (state, action) = redeem_step(&policy, state, RedeemEvent::Submitted(55));
    assert_eq!(action, RedeemAction::PollTask(55));
    let (state, action) = redeem_step(&policy, state, RedeemEvent::TaskGone);
    assert_eq!(action, RedeemAction::RecordOutcome);
    assert_eq!(state.phase, RedeemPhase::Settled);
    assert_eq!(state.outcome, Some(RedeemOutcome::Redeemed));

    assert!(apply_outcome(&mut store, 1, state.outcome.unwrap()));
    assert_eq!(store.get_note(1).unwrap().status, NoteStatus::Redeemed);
}

#[test]
fn transient_failures_are_retried_then_recorded() {
    let policy = RetryPolicy { max_retries: 2 };
    let state = start_redeem();
    let (state, action) =
        redeem_step(&policy, state, RedeemEvent::Transport(String::from("timeout")));
    assert_eq!(action, RedeemAction::EnsureWallet);
    assert_eq!(state.attempts, 1);
    let (state, action) =
        redeem_step(&policy, state, RedeemEvent::Transport(String::from("timeout")));
    assert_eq!(action, RedeemAction::EnsureWallet);
    assert_eq!(state.attempts, 2);
    // The bound is spent: the next failure settles the attempt.
    let (state, action) =
        redeem_step(&policy, state, RedeemEvent::Transport(String::from("refused")));
    assert_eq!(action, RedeemAction::RecordOutcome);
    assert_eq!(state.phase, RedeemPhase::Settled);
    assert_eq!(state.outcome, Some(RedeemOutcome::Failed(String::from("refused"))));
}

#[test]
fn poll_timeout_settles_the_attempt_as_failed() {
    let policy = RetryPolicy { max_retries: 3 };
    let state = start_redeem();
    let (state, _) = redeem_step(&policy, state, RedeemEvent::WalletReady);
    let (state, _) = redeem_step(&policy, state, RedeemEvent::Submitted(9));
    let (state, action) =
        redeem_step(&policy, state, RedeemEvent::Transport(String::from("task poll timed out")));
    assert_eq!(action, RedeemAction::RecordOutcome);
    assert_eq!(state.phase, RedeemPhase::Settled);
    assert_eq!(
        state.outcome,
        Some(RedeemOutcome::Failed(String::from("task poll timed out")))
    );
}

#[test]
fn failed_outcome_marks_note_failed_verbatim() {
    let mut store = NoteStore::new();
    store.upsert_batch(&vec![indexed_note(1, 10, 7)]);
    assert!(store.mark_pending(1, None));
    assert!(apply_outcome(&mut store, 1, RedeemOutcome::Failed(String::from("bad wallet"))));
    assert_eq!(
        store.get_note(1).unwrap().status,
        NoteStatus::Failed(String::from("bad wallet"))
    );
    // A settled note absorbs a second outcome.
    assert!(!apply_outcome(&mut store, 1, RedeemOutcome::Redeemed));
    assert_eq!(
        store.get_note(1).unwrap().status,
        NoteStatus::Failed(String::from("bad wallet"))
    );
}

#[test]
fn settled_attempt_absorbs_events() {
    let policy = RetryPolicy { max_retries: 0 };
    let state = start_redeem();
    let (state, _) = redeem_step(&policy, state, RedeemEvent::Transport(String::from("down")));
    assert_eq!(state.phase, RedeemPhase::Settled);
    let before = state.clone();
    let (state, action) = redeem_step(&policy, state, RedeemEvent::WalletReady);
    assert_eq!(state, before);
    assert_eq!(action, RedeemAction::RecordOutcome);
}

#[test]
fn orphaned_pending_note_is_reconciled_not_resubmitted() {
    let policy = RetryPolicy { max_retries: 3 };
    let mut store = NoteStore::new();
    store.upsert_batch(&vec![indexed_note(1, 10, 7)]);
    assert!(store.mark_pending(1, Some(55)));
    // Next run: the note comes back from the pending list and resumes at
    // polling with its recorded task.
    let pending = store.list_pending(1);
    assert_eq!(pending.len(), 1);
    let state = resume_redeem(pending[0].redemption_task_id);
    assert_eq!(state.phase, RedeemPhase::AwaitingTask);
    assert_eq!(state.task_id, Some(55));
    // Reconciliation re-polls; it never asks for a second submission.
    let (state, action) = redeem_step(&policy, state, RedeemEvent::TaskRunning);
    assert_eq!(action, RedeemAction::PollTask(55));
    let (state, action) = redeem_step(&policy, state, RedeemEvent::TaskGone);
    assert_eq!(action, RedeemAction::RecordOutcome);
    assert!(apply_outcome(&mut store, 1, state.outcome.unwrap()));
    assert_eq!(store.get_note(1).unwrap().status, NoteStatus::Redeemed);
}

#[test]
fn pending_note_without_task_retries_from_the_start() {
    // A run that stopped after marking the note but before recording a
    // task leaves nothing to poll: the attempt starts over.
    let state = resume_redeem(None);
    assert_eq!(state.phase, RedeemPhase::EnsuringWallet);
    assert_eq!(state.task_id, None);
}

#[test]
fn wallet_preparation_falls_back_fetch_find_create() {
    let state = start_ensure();
    // Fetch fails, find fails (the wallet is new), create succeeds.
    let (state, action) = ensure_wallet_step(state, EnsureEvent::FetchFailed);
    assert_eq!(action, EnsureAction::SubmitFind);
    let (state, action) =
        ensure_wallet_step(state, EnsureEvent::FindFailed(String::from("not found")));
    assert_eq!(action, EnsureAction::SubmitCreate);
    let (state, action) = ensure_wallet_step(state, EnsureEvent::CreateDone);
    assert_eq!(action, EnsureAction::Finish);
    assert_eq!(state.phase, EnsurePhase::Done);
    assert_eq!(state.outcome, Some(EnsureOutcome::Ready));
}

#[test]
fn wallet_preparation_short_circuits_and_records_failure() {
    // A successful fetch finishes at once.
    let (state, action) = ensure_wallet_step(start_ensure(), EnsureEvent::FetchOk);
    assert_eq!(action, EnsureAction::Finish);
    assert_eq!(state.outcome, Some(EnsureOutcome::Ready));
    // A failed create ends preparation with the error verbatim.
    let (state, _) = ensure_wallet_step(start_ensure(), EnsureEvent::FetchFailed);
    let (state, _) = ensure_wallet_step(state, EnsureEvent::FindFailed(String::from("down")));
    let (state, action) =
        ensure_wallet_step(state, EnsureEvent::CreateFailed(String::from("quota")));
    assert_eq!(action, EnsureAction::Finish);
    assert_eq!(state.phase, EnsurePhase::Done);
    assert_eq!(state.outcome, Some(EnsureOutcome::Failed(String::from("quota"))));
}

#[test]
fn two_notes_for_one_wallet_share_a_batch() {
    let notes = vec![
        indexed_note(1, 10, 7),
        indexed_note(2, 11, 8),
        indexed_note(3, 12, 7),
    ];
    let batches = plan_redemption(&notes);
    assert_eq!(batches.len(), 2);
    // Wallet seven's notes sit in one batch, in input order: they are
    // redeemed one at a time, never concurrently.
    assert_eq!(batches[0].wallet_id, 7);
    let commitments: Vec<u128> = batches[0].notes.iter().map(|n| n.commitment).collect();
    assert_eq!(commitments, vec![1, 3]);
    assert_eq!(batches[1].wallet_id, 8);
    assert_eq!(batches[1].notes.len(), 1);
    assert_eq!(batches[1].notes[0].commitment, 2);
}
