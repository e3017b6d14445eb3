//! The redemption phase: a per-wallet plan that serializes redemption, a
//! bounded-retry policy, and the state machines that drive one redemption
//! attempt and one task-polling loop.

use vstd::prelude::*;
use crate::notes::{copy_note, FeeNote, NoteV};
use crate::store::{note_views, NoteStore};

verus! {

// ---------------------------------------------------------------------------
// Task polling
// ---------------------------------------------------------------------------

/// How task polling interprets relayer responses. The plain mode reproduces
/// the deployed behaviour: any failed status query means the task is gone
/// and is taken as completion — it cannot tell relayer-side success from
/// relayer-side error. The status-aware mode is the switch to flip once the
/// relayer's status schema carries an error detail: a terminal status then
/// decides the outcome instead of being polled past.
#[derive(Clone, Copy, Debug, PartialEq, Eq)]
pub struct PollConfig {
    /// Complete on a reported terminal status rather than only on a failed
    /// query.
    pub status_aware: bool,
    /// The most queries one poll loop may spend before it surfaces a
    /// timeout instead of polling forever; `None` reproduces the unbounded
    /// deployed loop.
    pub max_polls: Option<u64>,
}

/// What one status query of a relayer task observed.
#[derive(Clone, Debug, PartialEq, Eq)]
pub enum PollEvent {
    /// The status query itself failed: the task no longer exists.
    QueryFailed,
    /// The task exists and is still running.
    Running,
    /// The task exists and reports a terminal status, successful or not.
    Finished(bool),
}

/// What the polling loop does next.
#[derive(Clone, Debug, PartialEq, Eq)]
pub enum PollDecision {
    /// Query again after the fixed interval.
    Continue,
    /// The task is over; the payload tells whether it is taken as a success.
    Done(bool),
    /// The configured poll budget is spent without an answer.
    TimedOut,
}

/// Keep polling unless the configured budget is already spent.
pub open spec fn continue_or_time_out(cfg: PollConfig, polls: u64) -> PollDecision {
    match cfg.max_polls {
        Option::Some(max) => if polls >= max {
            PollDecision::TimedOut
        } else {
            PollDecision::Continue
        },
        Option::None => PollDecision::Continue,
    }
}

/// The polling step, given how many queries the loop has already spent: a
/// failed query always ends the loop, taken as success; a running task
/// keeps it polling within the configured budget; a reported terminal
/// status ends it only in status-aware mode, and otherwise keeps it polling
/// until the task disappears.
pub open spec fn poll_step_spec(cfg: PollConfig, polls: u64, event: PollEvent) -> PollDecision {
    match event {
        PollEvent::QueryFailed => PollDecision::Done(true),
        PollEvent::Running => continue_or_time_out(cfg, polls),
        PollEvent::Finished(ok) => if cfg.status_aware {
            PollDecision::Done(ok)
        } else {
            continue_or_time_out(cfg, polls)
        },
    }
}

/// Decide one step of the task-polling loop.
pub fn poll_step(cfg: &PollConfig, polls: u64, event: &PollEvent) -> (decision: PollDecision)
    ensures
        decision == poll_step_spec(*cfg, polls, *event),
{
    match event {
        PollEvent::QueryFailed => PollDecision::Done(true),
        PollEvent::Running => match cfg.max_polls {
            Option::Some(max) => if polls >= max {
                PollDecision::TimedOut
            } else {
                PollDecision::Continue
            },
            Option::None => PollDecision::Continue,
        },
        PollEvent::Finished(ok) => if cfg.status_aware {
            PollDecision::Done(*ok)
        } else {
            match cfg.max_polls {
                Option::Some(max) => if polls >= max {
                    PollDecision::TimedOut
                } else {
                    PollDecision::Continue
                },
                Option::None => PollDecision::Continue,
            }
        },
    }
}

/// Law: with a poll budget configured, the loop never continues past it —
/// it either completes or surfaces a timeout.
pub proof fn lemma_poll_bounded(cfg: PollConfig, polls: u64, event: PollEvent)
    requires
        cfg.max_polls matches Some(max) && polls >= max,
    ensures
        poll_step_spec(cfg, polls, event) != PollDecision::Continue,
{
}

/// The interval between two task status queries, in milliseconds.
pub const POLL_INTERVAL_MS: u64 = 1000;

// ---------------------------------------------------------------------------
// Bounded retry
// ---------------------------------------------------------------------------

/// How many times a transient transport failure is retried before the
/// attempt is recorded as failed.
#[derive(Clone, Copy, Debug, PartialEq, Eq)]
pub struct RetryPolicy {
    /// The number of retries allowed after the first failure.
    pub max_retries: u64,
}

/// Whether a further retry is allowed after `attempts` failures.
pub open spec fn may_retry(policy: RetryPolicy, attempts: u64) -> bool {
    attempts < policy.max_retries
}

// ---------------------------------------------------------------------------
// One redemption attempt
// ---------------------------------------------------------------------------

/// Where one note's redemption attempt stands.
#[derive(Clone, Debug, PartialEq, Eq)]
pub enum RedeemPhase {
    /// Making sure the relayer has the destination wallet indexed.
    EnsuringWallet,
    /// The wallet is ready; the redeem request is being submitted.
    Submitting,
    /// The redeem request was accepted; its task is being polled.
    AwaitingTask,
    /// The attempt reached an outcome.
    Settled,
}

/// The outcome of a settled redemption attempt.
#[derive(Clone, Debug, PartialEq, Eq)]
pub enum RedeemOutcome {
    /// The note is redeemed.
    Redeemed,
    /// The attempt failed for the recorded reason.
    Failed(String),
}

/// The state one redemption attempt carries between events.
#[derive(Clone, Debug, PartialEq, Eq)]
pub struct RedeemState {
    /// The current phase.
    pub phase: RedeemPhase,
    /// Transient failures seen so far in the current phase's work.
    pub attempts: u64,
    /// The relayer task driving the redemption, once submitted.
    pub task_id: Option<u128>,
    /// The outcome, once settled.
    pub outcome: Option<RedeemOutcome>,
}

/// What happened since the driver last asked.
#[derive(Clone, Debug, PartialEq, Eq)]
pub enum RedeemEvent {
    /// The relayer has the destination wallet (fetched, found or created).
    WalletReady,
    /// The relayer took the redeem request; the payload is the identifier
    /// of the relayer-side task driving it.
    Submitted(u128),
    /// A transport-level failure, with its error text.
    Transport(String),
    /// The task status query failed: the task is gone, taken as done.
    TaskGone,
    /// The task still exists and is running.
    TaskRunning,
}

/// What the driver must do next.
#[derive(Clone, Debug, PartialEq, Eq)]
pub enum RedeemAction {
    /// Ensure the relayer has the wallet: an authenticated fetch, then a
    /// find-or-create sequence on failure.
    EnsureWallet,
    /// Mark the note pending and submit the authenticated redeem request.
    SubmitRedeem,
    /// Query the task's status after the fixed interval.
    PollTask(u128),
    /// Record the settled outcome against the note.
    RecordOutcome,
}

/// The state a fresh attempt starts in.
pub open spec fn initial_redeem_state() -> RedeemState {
    RedeemState {
        phase: RedeemPhase::EnsuringWallet,
        attempts: 0,
        task_id: Option::None,
        outcome: Option::None,
    }
}

/// Start a redemption attempt for one note.
pub fn start_redeem() -> (state: RedeemState)
    ensures
        state == initial_redeem_state(),
{
    RedeemState {
        phase: RedeemPhase::EnsuringWallet,
        attempts: 0,
        task_id: Option::None,
        outcome: Option::None,
    }
}

/// The state a reconciliation attempt starts in for a note an earlier run
/// left `Pending`: with a recorded task the attempt resumes at polling —
/// it re-polls, it never resubmits — and without one (the run stopped
/// before a task was recorded) the attempt starts over from wallet
/// preparation.
pub open spec fn resume_redeem_state(task_id: Option<u128>) -> RedeemState {
    match task_id {
        Option::Some(task) => RedeemState {
            phase: RedeemPhase::AwaitingTask,
            attempts: 0,
            task_id: Option::Some(task),
            outcome: Option::None,
        },
        Option::None => initial_redeem_state(),
    }
}

/// Resume the redemption attempt of a note left `Pending` by an earlier
/// run, given the task that run recorded, if any.
pub fn resume_redeem(task_id: Option<u128>) -> (state: RedeemState)
    ensures
        state == resume_redeem_state(task_id),
{
    match task_id {
        Option::Some(task) => RedeemState {
            phase: RedeemPhase::AwaitingTask,
            attempts: 0,
            task_id: Option::Some(task),
            outcome: Option::None,
        },
        Option::None => start_redeem(),
    }
}

/// A state the machine can actually be in: the retry count never passes the
/// policy's bound, a task is held exactly from submission on, and an
/// outcome exists exactly once settled.
pub open spec fn wf_redeem_state(policy: RetryPolicy, state: RedeemState) -> bool {
    &&& state.attempts <= policy.max_retries
    &&& (state.phase is AwaitingTask ==> state.task_id is Some)
    &&& (state.outcome is Some <==> state.phase is Settled)
}

/// One decision step of a redemption attempt.
///
/// Wallet preparation and submission retry transient transport failures up
/// to the policy's bound and then settle as failed with the error captured
/// verbatim. A submitted task is polled until it disappears, which is taken
/// as a successful redemption — the deployed polling semantics; a
/// transport-level abort of the poll (a timeout) settles the attempt as
/// failed instead. An event that is meaningless in the current phase
/// changes nothing and repeats the phase's action. A settled attempt
/// absorbs every event.
pub open spec fn redeem_step_spec(policy: RetryPolicy, state: RedeemState, event: RedeemEvent) -> (
    RedeemState,
    RedeemAction,
) {
    match state.phase {
        RedeemPhase::EnsuringWallet => match event {
            RedeemEvent::WalletReady => (
                RedeemState { phase: RedeemPhase::Submitting, attempts: 0, ..state },
                RedeemAction::SubmitRedeem,
            ),
            RedeemEvent::Transport(reason) => if may_retry(policy, state.attempts) {
                (
                    RedeemState { attempts: (state.attempts + 1) as u64, ..state },
                    RedeemAction::EnsureWallet,
                )
            } else {
                (
                    RedeemState {
                        phase: RedeemPhase::Settled,
                        outcome: Option::Some(RedeemOutcome::Failed(reason)),
                        ..state
                    },
                    RedeemAction::RecordOutcome,
                )
            },
            _ => (state, RedeemAction::EnsureWallet),
        },
        RedeemPhase::Submitting => match event {
            RedeemEvent::Submitted(task) => (
                RedeemState {
                    phase: RedeemPhase::AwaitingTask,
                    attempts: 0,
                    task_id: Option::Some(task),
                    ..state
                },
                RedeemAction::PollTask(task),
            ),
            RedeemEvent::Transport(reason) => if may_retry(policy, state.attempts) {
                (
                    RedeemState { attempts: (state.attempts + 1) as u64, ..state },
                    RedeemAction::SubmitRedeem,
                )
            } else {
                (
                    RedeemState {
                        phase: RedeemPhase::Settled,
                        outcome: Option::Some(RedeemOutcome::Failed(reason)),
                        ..state
                    },
                    RedeemAction::RecordOutcome,
                )
            },
            _ => (state, RedeemAction::SubmitRedeem),
        },
        RedeemPhase::AwaitingTask => match event {
            RedeemEvent::TaskGone => (
                RedeemState {
                    phase: RedeemPhase::Settled,
                    outcome: Option::Some(RedeemOutcome::Redeemed),
                    ..state
                },
                RedeemAction::RecordOutcome,
            ),
            RedeemEvent::Transport(reason) => (
                RedeemState {
                    phase: RedeemPhase::Settled,
                    outcome: Option::Some(RedeemOutcome::Failed(reason)),
                    ..state
                },
                RedeemAction::RecordOutcome,
            ),
            _ => (state, RedeemAction::PollTask(state.task_id->Some_0)),
        },
        RedeemPhase::Settled => (state, RedeemAction::RecordOutcome),
    }
}

/// Drive one step of a redemption attempt.
pub fn redeem_step(policy: &RetryPolicy, state: RedeemState, event: RedeemEvent) -> (next: (
    RedeemState,
    RedeemAction,
))
    requires
        wf_redeem_state(*policy, state),
    ensures
        next == redeem_step_spec(*policy, state, event),
        wf_redeem_state(*policy, next.0),
{
    match state.phase {
        RedeemPhase::EnsuringWallet => match event {
            RedeemEvent::WalletReady => (
                RedeemState { phase: RedeemPhase::Submitting, attempts: 0, ..state },
                RedeemAction::SubmitRedeem,
            ),
            RedeemEvent::Transport(reason) => if state.attempts < policy.max_retries {
                (
                    RedeemState { attempts: state.attempts + 1, ..state },
                    RedeemAction::EnsureWallet,
                )
            } else {
                (
                    RedeemState {
                        phase: RedeemPhase::Settled,
                        outcome: Option::Some(RedeemOutcome::Failed(reason)),
                        ..state
                    },
                    RedeemAction::RecordOutcome,
                )
            },
            _ => (state, RedeemAction::EnsureWallet),
        },
        RedeemPhase::Submitting => match event {
            RedeemEvent::Submitted(task) => (
                RedeemState {
                    phase: RedeemPhase::AwaitingTask,
                    attempts: 0,
                    task_id: Option::Some(task),
                    ..state
                },
                RedeemAction::PollTask(task),
            ),
            RedeemEvent::Transport(reason) => if state.attempts < policy.max_retries {
                (
                    RedeemState { attempts: state.attempts + 1, ..state },
                    RedeemAction::SubmitRedeem,
                )
            } else {
                (
                    RedeemState {
                        phase: RedeemPhase::Settled,
                        outcome: Option::Some(RedeemOutcome::Failed(reason)),
                        ..state
                    },
                    RedeemAction::RecordOutcome,
                )
            },
            _ => (state, RedeemAction::SubmitRedeem),
        },
        RedeemPhase::AwaitingTask => match event {
            RedeemEvent::TaskGone => (
                RedeemState {
                    phase: RedeemPhase::Settled,
                    outcome: Option::Some(RedeemOutcome::Redeemed),
                    ..state
                },
                RedeemAction::RecordOutcome,
            ),
            RedeemEvent::Transport(reason) => (
                RedeemState {
                    phase: RedeemPhase::Settled,
                    outcome: Option::Some(RedeemOutcome::Failed(reason)),
                    ..state
                },
                RedeemAction::RecordOutcome,
            ),
            _ => {
                let task = match state.task_id {
                    Option::Some(task) => task,
                    Option::None => 0,
                };
                (state, RedeemAction::PollTask(task))
            },
        },
        RedeemPhase::Settled => (state, RedeemAction::RecordOutcome),
    }
}

/// Law: a settled attempt absorbs every further event unchanged, so one
/// note is never driven into a second redemption.
pub proof fn lemma_settled_absorbing(policy: RetryPolicy, state: RedeemState, event: RedeemEvent)
    requires
        state.phase is Settled,
    ensures
        redeem_step_spec(policy, state, event).0 == state,
{
}

/// Law: while a task is awaited — in particular for a resumed attempt with
/// a recorded task — no step ever asks for a submission: a reconciled note
/// is re-polled, never resubmitted blindly.
pub proof fn lemma_no_blind_resubmission(
    policy: RetryPolicy,
    state: RedeemState,
    event: RedeemEvent,
)
    requires
        state.phase is AwaitingTask,
    ensures
        redeem_step_spec(policy, state, event).1 != RedeemAction::SubmitRedeem,
{
}

/// Law: the retry counter never passes the policy's bound — transient
/// failures are retried a bounded number of times before the attempt
/// settles as failed.
pub proof fn lemma_retries_bounded(policy: RetryPolicy, state: RedeemState, event: RedeemEvent)
    requires
        wf_redeem_state(policy, state),
    ensures
        wf_redeem_state(policy, redeem_step_spec(policy, state, event).0),
{
}

/// Record a settled outcome against a note: `Redeemed` marks it redeemed,
/// `Failed` marks it failed with the reason verbatim. Either mark applies
/// only to a `Pending` note and is a no-op on any other.
pub fn apply_outcome(store: &mut NoteStore, commitment: u128, outcome: RedeemOutcome) -> (applied:
    bool)
    requires
        old(store).wf(),
    ensures
        final(store).wf(),
        old(store).note_map().dom().contains(commitment) ==> final(store).note_map() == old(
            store,
        ).note_map().insert(
            commitment,
            apply_outcome_note(old(store).note_map()[commitment], outcome),
        ),
        !old(store).note_map().dom().contains(commitment) ==> final(store).note_map() == old(
            store,
        ).note_map(),
        applied <==> old(store).note_map().dom().contains(commitment) && old(
            store,
        ).note_map()[commitment].status is Pending,
        forall|chain_id: u64|
            final(store).checkpoint_of(chain_id) == old(store).checkpoint_of(chain_id),
{
    match outcome {
        RedeemOutcome::Redeemed => store.mark_redeemed(commitment),
        RedeemOutcome::Failed(reason) => store.mark_failed(commitment, reason),
    }
}

/// The effect of recording an outcome on a note's view.
pub open spec fn apply_outcome_note(n: NoteV, outcome: RedeemOutcome) -> NoteV {
    match outcome {
        RedeemOutcome::Redeemed => crate::notes::mark_redeemed_note(n),
        RedeemOutcome::Failed(reason) => crate::notes::mark_failed_note(n, reason@),
    }
}

// ---------------------------------------------------------------------------
// Wallet preparation
// ---------------------------------------------------------------------------

/// Where wallet preparation stands.
#[derive(Clone, Debug, PartialEq, Eq)]
pub enum EnsurePhase {
    /// Trying the authenticated wallet fetch.
    Fetching,
    /// The fetch failed; a find-wallet task is being run.
    Finding,
    /// The find failed — the wallet is new; a create-wallet task is being
    /// run.
    Creating,
    /// Preparation reached an outcome.
    Done,
}

/// The outcome of finished wallet preparation.
#[derive(Clone, Debug, PartialEq, Eq)]
pub enum EnsureOutcome {
    /// The relayer has the wallet indexed.
    Ready,
    /// Preparation failed for the recorded reason.
    Failed(String),
}

/// The state wallet preparation carries between events.
#[derive(Clone, Debug, PartialEq, Eq)]
pub struct EnsureState {
    /// The current phase.
    pub phase: EnsurePhase,
    /// The outcome, once done.
    pub outcome: Option<EnsureOutcome>,
}

/// What happened since the driver last asked.
#[derive(Clone, Debug, PartialEq, Eq)]
pub enum EnsureEvent {
    /// The authenticated wallet fetch succeeded.
    FetchOk,
    /// The fetch failed: the relayer may not have the wallet yet.
    FetchFailed,
    /// The find-wallet task ran to completion.
    FindDone,
    /// The find-wallet sequence failed, with the error text.
    FindFailed(String),
    /// The create-wallet task ran to completion.
    CreateDone,
    /// The create-wallet sequence failed, with the error text.
    CreateFailed(String),
}

/// What the driver must do next.
#[derive(Clone, Debug, PartialEq, Eq)]
pub enum EnsureAction {
    /// Fetch the wallet with an authenticated read.
    FetchWallet,
    /// Submit a find-wallet task and poll it to completion.
    SubmitFind,
    /// Submit a create-wallet task and poll it to completion.
    SubmitCreate,
    /// Nothing further; read the outcome.
    Finish,
}

/// The state wallet preparation starts in.
pub open spec fn initial_ensure_state() -> EnsureState {
    EnsureState { phase: EnsurePhase::Fetching, outcome: Option::None }
}

/// Start preparing one wallet.
pub fn start_ensure() -> (state: EnsureState)
    ensures
        state == initial_ensure_state(),
{
    EnsureState { phase: EnsurePhase::Fetching, outcome: Option::None }
}

/// A state preparation can actually be in: an outcome exists exactly once
/// done.
pub open spec fn wf_ensure_state(state: EnsureState) -> bool {
    state.outcome is Some <==> state.phase is Done
}

/// One decision step of wallet preparation: a successful fetch means the
/// wallet is ready; a failed fetch falls back to a find-wallet task; a
/// failed find means the wallet is new and falls back to a create-wallet
/// task; a failed create ends preparation with the error captured
/// verbatim. An event that is meaningless in the current phase changes
/// nothing and repeats the phase's action; a done state absorbs every
/// event.
pub open spec fn ensure_wallet_step_spec(state: EnsureState, event: EnsureEvent) -> (
    EnsureState,
    EnsureAction,
) {
    match state.phase {
        EnsurePhase::Fetching => match event {
            EnsureEvent::FetchOk => (
                EnsureState {
                    phase: EnsurePhase::Done,
                    outcome: Option::Some(EnsureOutcome::Ready),
                },
                EnsureAction::Finish,
            ),
            EnsureEvent::FetchFailed => (
                EnsureState { phase: EnsurePhase::Finding, ..state },
                EnsureAction::SubmitFind,
            ),
            _ => (state, EnsureAction::FetchWallet),
        },
        EnsurePhase::Finding => match event {
            EnsureEvent::FindDone => (
                EnsureState {
                    phase: EnsurePhase::Done,
                    outcome: Option::Some(EnsureOutcome::Ready),
                },
                EnsureAction::Finish,
            ),
            EnsureEvent::FindFailed(_) => (
                EnsureState { phase: EnsurePhase::Creating, ..state },
                EnsureAction::SubmitCreate,
            ),
            _ => (state, EnsureAction::SubmitFind),
        },
        EnsurePhase::Creating => match event {
            EnsureEvent::CreateDone => (
                EnsureState {
                    phase: EnsurePhase::Done,
                    outcome: Option::Some(EnsureOutcome::Ready),
                },
                EnsureAction::Finish,
            ),
            EnsureEvent::CreateFailed(reason) => (
                EnsureState {
                    phase: EnsurePhase::Done,
                    outcome: Option::Some(EnsureOutcome::Failed(reason)),
                },
                EnsureAction::Finish,
            ),
            _ => (state, EnsureAction::SubmitCreate),
        },
        EnsurePhase::Done => (state, EnsureAction::Finish),
    }
}

/// Drive one step of wallet preparation.
pub fn ensure_wallet_step(state: EnsureState, event: EnsureEvent) -> (next: (
    EnsureState,
    EnsureAction,
))
    requires
        wf_ensure_state(state),
    ensures
        next == ensure_wallet_step_spec(state, event),
        wf_ensure_state(next.0),
{
    match state.phase {
        EnsurePhase::Fetching => match event {
            EnsureEvent::FetchOk => (
                EnsureState {
                    phase: EnsurePhase::Done,
                    outcome: Option::Some(EnsureOutcome::Ready),
                },
                EnsureAction::Finish,
            ),
            EnsureEvent::FetchFailed => (
                EnsureState { phase: EnsurePhase::Finding, ..state },
                EnsureAction::SubmitFind,
            ),
            _ => (state, EnsureAction::FetchWallet),
        },
        EnsurePhase::Finding => match event {
            EnsureEvent::FindDone => (
                EnsureState {
                    phase: EnsurePhase::Done,
                    outcome: Option::Some(EnsureOutcome::Ready),
                },
                EnsureAction::Finish,
            ),
            EnsureEvent::FindFailed(_) => (
                EnsureState { phase: EnsurePhase::Creating, ..state },
                EnsureAction::SubmitCreate,
            ),
            _ => (state, EnsureAction::SubmitFind),
        },
        EnsurePhase::Creating => match event {
            EnsureEvent::CreateDone => (
                EnsureState {
                    phase: EnsurePhase::Done,
                    outcome: Option::Some(EnsureOutcome::Ready),
                },
                EnsureAction::Finish,
            ),
            EnsureEvent::CreateFailed(reason) => (
                EnsureState {
                    phase: EnsurePhase::Done,
                    outcome: Option::Some(EnsureOutcome::Failed(reason)),
                },
                EnsureAction::Finish,
            ),
            _ => (state, EnsureAction::SubmitCreate),
        },
        EnsurePhase::Done => (state, EnsureAction::Finish),
    }
}

/// Law: finished wallet preparation absorbs every further event unchanged.
pub proof fn lemma_ensure_done_absorbing(state: EnsureState, event: EnsureEvent)
    requires
        state.phase is Done,
    ensures
        ensure_wallet_step_spec(state, event).0 == state,
{
}

// ---------------------------------------------------------------------------
// The per-wallet plan
// ---------------------------------------------------------------------------

/// One wallet's share of a redemption run: its notes are redeemed one at a
/// time, in the order given.
pub struct WalletBatch {
    /// The destination wallet.
    pub wallet_id: u128,
    /// The wallet's notes, in the planner's input order.
    pub notes: Vec<FeeNote>,
}

/// The notes destined for one wallet.
pub open spec fn wallet_pred(wallet_id: u128) -> spec_fn(NoteV) -> bool {
    |n: NoteV| n.receiver_wallet_id == Option::Some(wallet_id)
}

/// Some batch of the plan is for the given destination wallet.
pub open spec fn wallet_planned(batches: Seq<WalletBatch>, wallet: Option<u128>) -> bool {
    exists|b: int| 0 <= b < batches.len() && Option::Some(batches[b].wallet_id) == wallet
}

/// Some note in the input is destined for the given wallet.
pub open spec fn wallet_among(notes: Seq<NoteV>, wallet_id: u128) -> bool {
    exists|l: int|
        0 <= l < notes.len() && notes[l].receiver_wallet_id == Option::Some(wallet_id)
}

/// Filtering distributes over appending one element.
proof fn lemma_filter_push(s: Seq<NoteV>, x: NoteV, pred: spec_fn(NoteV) -> bool)
    ensures
        s.push(x).filter(pred) == if pred(x) {
            s.filter(pred).push(x)
        } else {
            s.filter(pred)
        },
{
    reveal(Seq::filter);
    assert(s.push(x).drop_last() =~= s);
    assert(s.push(x).last() == x);
}

/// Whether a wallet is already listed.
fn wallet_listed(wallets: &Vec<u128>, wallet_id: u128) -> (listed: bool)
    ensures
        listed <==> wallets@.contains(wallet_id),
{
    let mut i: usize = 0;
    while i < wallets.len()
        invariant
            i <= wallets@.len(),
            forall|k: int| 0 <= k < i ==> wallets@[k] != wallet_id,
        decreases wallets@.len() - i,
    {
        if wallets[i] == wallet_id {
            assert(wallets@.contains(wallet_id));
            return true;
        }
        i = i + 1;
    }
    false
}

/// Group redeemable notes by destination wallet: one batch per wallet,
/// holding exactly that wallet's notes in input order. Redemption across
/// batches may run in parallel; within a batch it is serialized, so no two
/// notes of one wallet are ever redeemed concurrently.
#[verifier::loop_isolation(false)]
pub fn plan_redemption(notes: &Vec<FeeNote>) -> (batches: Vec<WalletBatch>)
    requires
        forall|l: int| 0 <= l < notes@.len() ==> (#[trigger] notes@[l]@.receiver_wallet_id) is Some,
    ensures
        forall|a: int, b: int|
            0 <= a < b < batches@.len() ==> batches@[a].wallet_id != batches@[b].wallet_id,
        forall|b: int|
            0 <= b < batches@.len() ==> note_views(#[trigger] batches@[b].notes@) == note_views(
                notes@,
            ).filter(wallet_pred(batches@[b].wallet_id)),
        forall|b: int, k: int|
            0 <= b < batches@.len() && 0 <= k < batches@[b].notes@.len()
                ==> (#[trigger] batches@[b].notes@[k]@.receiver_wallet_id) == Option::Some(
                batches@[b].wallet_id,
            ),
        forall|l: int|
            0 <= l < notes@.len() ==> wallet_planned(
                batches@,
                #[trigger] notes@[l]@.receiver_wallet_id,
            ),
        forall|b: int|
            0 <= b < batches@.len() ==> wallet_among(
                note_views(notes@),
                #[trigger] batches@[b].wallet_id,
            ),
{
    let ghost nviews = note_views(notes@);
    // First pass: the distinct destination wallets, in order of appearance.
    let mut wallets: Vec<u128> = Vec::new();
    let mut i: usize = 0;
    while i < notes.len()
        invariant
            i <= notes@.len(),
            forall|a: int, b: int| 0 <= a < b < wallets@.len() ==> wallets@[a] != wallets@[b],
            forall|l: int|
                0 <= l < i ==> wallets@.contains(notes@[l]@.receiver_wallet_id->Some_0),
            forall|k: int| 0 <= k < wallets@.len() ==> wallet_among(nviews, #[trigger] wallets@[k]),
        decreases notes@.len() - i,
    {
        let wallet_id = match notes[i].receiver_wallet_id {
            Option::Some(wallet_id) => wallet_id,
            Option::None => {
                proof {
                    assert(false);
                }
                0
            },
        };
        if !wallet_listed(&wallets, wallet_id) {
            let ghost prev = wallets@;
            wallets.push(wallet_id);
            proof {
                assert forall|l: int| 0 <= l < i + 1 implies wallets@.contains(
                    notes@[l]@.receiver_wallet_id->Some_0,
                ) by {
                    if l < i {
                        let k = choose|k: int|
                            0 <= k < prev.len() && prev[k] == notes@[l]@.receiver_wallet_id->Some_0;
                        assert(wallets@[k] == notes@[l]@.receiver_wallet_id->Some_0);
                    } else {
                        assert(wallets@[wallets@.len() - 1] == wallet_id);
                    }
                }
                assert forall|k: int| 0 <= k < wallets@.len() implies wallet_among(
                    nviews,
                    #[trigger] wallets@[k],
                ) by {
                    if k == wallets@.len() - 1 {
                        assert(nviews[i as int].receiver_wallet_id == Option::Some(wallet_id));
                    } else {
                        assert(prev[k] == wallets@[k]);
                    }
                }
            }
        }
        i = i + 1;
    }
    // Second pass: one batch per wallet, filled in input order.
    let mut batches: Vec<WalletBatch> = Vec::new();
    let mut a: usize = 0;
    while a < wallets.len()
        invariant
            a <= wallets@.len(),
            batches@.len() == a,
            forall|b: int| 0 <= b < a ==> batches@[b].wallet_id == wallets@[b],
            forall|b: int|
                0 <= b < a ==> note_views(#[trigger] batches@[b].notes@) == nviews.filter(
                    wallet_pred(batches@[b].wallet_id),
                ),
            forall|b: int, k: int|
                0 <= b < a && 0 <= k < batches@[b].notes@.len()
                    ==> (#[trigger] batches@[b].notes@[k]@.receiver_wallet_id) == Option::Some(
                    batches@[b].wallet_id,
                ),
        decreases wallets@.len() - a,
    {
        let wallet_id = wallets[a];
        let mut bnotes: Vec<FeeNote> = Vec::new();
        let mut j: usize = 0;
        while j < notes.len()
            invariant
                j <= notes@.len(),
                note_views(bnotes@) == nviews.take(j as int).filter(wallet_pred(wallet_id)),
                forall|k: int|
                    0 <= k < bnotes@.len() ==> (#[trigger] bnotes@[k]@.receiver_wallet_id)
                        == Option::Some(wallet_id),
            decreases notes@.len() - j,
        {
            let note_wallet = match notes[j].receiver_wallet_id {
                Option::Some(wallet) => wallet,
                Option::None => {
                    proof {
                        assert(false);
                    }
                    0
                },
            };
            proof {
                assert(nviews.take(j + 1 as int) =~= nviews.take(j as int).push(
                    nviews[j as int],
                ));
                lemma_filter_push(nviews.take(j as int), nviews[j as int], wallet_pred(wallet_id));
            }
            if note_wallet == wallet_id {
                let ghost prev = bnotes@;
                bnotes.push(copy_note(&notes[j]));
                proof {
                    assert(note_views(bnotes@) =~= note_views(prev).push(nviews[j as int]));
                }
            } else {
                proof {
                    assert(!wallet_pred(wallet_id)(nviews[j as int]));
                }
            }
            j = j + 1;
        }
        proof {
            assert(nviews.take(notes@.len() as int) =~= nviews);
        }
        batches.push(WalletBatch { wallet_id, notes: bnotes });
        a = a + 1;
    }
    proof {
        assert forall|x: int, y: int| 0 <= x < y < batches@.len() implies batches@[x].wallet_id
            != batches@[y].wallet_id by {
            assert(batches@[x].wallet_id == wallets@[x]);
            assert(batches@[y].wallet_id == wallets@[y]);
        }
        assert forall|b: int| 0 <= b < batches@.len() implies wallet_among(
            note_views(notes@),
            #[trigger] batches@[b].wallet_id,
        ) by {
            assert(batches@[b].wallet_id == wallets@[b]);
            assert(wallet_among(nviews, wallets@[b]));
        }
        assert forall|l: int| 0 <= l < notes@.len() implies wallet_planned(
            batches@,
            notes@[l]@.receiver_wallet_id,
        ) by {
            let k = choose|k: int|
                0 <= k < wallets@.len() && wallets@[k] == notes@[l]@.receiver_wallet_id->Some_0;
            assert(Option::Some(batches@[k].wallet_id) == notes@[l]@.receiver_wallet_id);
        }
    }
    batches
}

/// Law: the plan serializes redemption per wallet — any two planned notes
/// with the same destination wallet stand in the same batch, and a batch is
/// processed one note at a time.
pub proof fn lemma_one_batch_per_wallet(batches: Seq<WalletBatch>, a: int, b: int, i: int, j: int)
    requires
        forall|x: int, y: int|
            0 <= x < y < batches.len() ==> batches[x].wallet_id != batches[y].wallet_id,
        forall|x: int, k: int|
            0 <= x < batches.len() && 0 <= k < batches[x].notes@.len()
                ==> (#[trigger] batches[x].notes@[k]@.receiver_wallet_id) == Option::Some(
                batches[x].wallet_id,
            ),
        0 <= a < batches.len(),
        0 <= b < batches.len(),
        0 <= i < batches[a].notes@.len(),
        0 <= j < batches[b].notes@.len(),
        batches[a].notes@[i]@.receiver_wallet_id == batches[b].notes@[j]@.receiver_wallet_id,
    ensures
        a == b,
{
    assert(batches[a].notes@[i]@.receiver_wallet_id == Option::Some(batches[a].wallet_id));
    assert(batches[b].notes@[j]@.receiver_wallet_id == Option::Some(batches[b].wallet_id));
    if a < b {
        assert(batches[a].wallet_id != batches[b].wallet_id);
    }
    if b < a {
        assert(batches[b].wallet_id != batches[a].wallet_id);
    }
}

} // verus!
