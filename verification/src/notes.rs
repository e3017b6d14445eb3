//! The fee-note data model: the status lifecycle of a note and the
//! classification of raw on-chain notes by decryption outcome.

use vstd::prelude::*;

verus! {

/// Status of a fee note in the indexing-and-redemption lifecycle.
///
/// The only moves a note may make are `Indexed -> Pending` and
/// `Pending -> Redeemed | Failed` (with `Pending -> Pending` allowed to
/// refresh the in-flight task); `Undecryptable`, `Redeemed` and `Failed`
/// are terminal.
#[derive(Clone, Debug, PartialEq, Eq)]
pub enum NoteStatus {
    /// Decrypted and owned by this operator; redemption not yet attempted.
    Indexed,
    /// Decryption failed: the note belongs to another operator. Terminal.
    Undecryptable,
    /// A redemption attempt is in flight at the relayer.
    Pending,
    /// The note was redeemed. Terminal.
    Redeemed,
    /// Redemption failed for the recorded reason. Terminal.
    Failed(String),
}

/// Mathematical image of a `NoteStatus`.
pub enum StatusV {
    /// Image of `NoteStatus::Indexed`.
    Indexed,
    /// Image of `NoteStatus::Undecryptable`.
    Undecryptable,
    /// Image of `NoteStatus::Pending`.
    Pending,
    /// Image of `NoteStatus::Redeemed`.
    Redeemed,
    /// Image of `NoteStatus::Failed`, with the reason as a character sequence.
    Failed(Seq<char>),
}

impl View for NoteStatus {
    type V = StatusV;

    open spec fn view(&self) -> StatusV {
        match self {
            NoteStatus::Indexed => StatusV::Indexed,
            NoteStatus::Undecryptable => StatusV::Undecryptable,
            NoteStatus::Pending => StatusV::Pending,
            NoteStatus::Redeemed => StatusV::Redeemed,
            NoteStatus::Failed(reason) => StatusV::Failed(reason@),
        }
    }
}

/// A status from which no further move is allowed.
pub open spec fn is_terminal(s: StatusV) -> bool {
    s is Undecryptable || s is Redeemed || s is Failed
}

/// The transition relation of the note lifecycle: staying put is always
/// allowed; otherwise only `Indexed -> Pending`, `Pending -> Pending`,
/// `Pending -> Redeemed` and `Pending -> Failed`.
pub open spec fn valid_step(from: StatusV, to: StatusV) -> bool {
    ||| from == to
    ||| (from is Indexed && to is Pending)
    ||| (from is Pending && to is Pending)
    ||| (from is Pending && to is Redeemed)
    ||| (from is Pending && to is Failed)
}

/// A candidate fee-note event as observed on chain, before decryption.
#[derive(Clone, Debug, PartialEq, Eq)]
pub struct RawNote {
    /// The unique on-chain identifier of the note.
    pub commitment: u128,
    /// The chain the emitting event was observed on.
    pub chain_id: u64,
    /// The block the emitting event was observed in.
    pub block_number: u64,
    /// The encrypted payload as observed on chain.
    pub ciphertext: Vec<u8>,
}

/// The fields of a note that decryption reveals.
#[derive(Clone, Debug, PartialEq, Eq)]
pub struct NotePlain {
    /// The mint (token address) the fee is denominated in.
    pub mint: String,
    /// The fee amount.
    pub amount: u128,
    /// The wallet the note is redeemable into.
    pub receiver_wallet_id: u128,
}

/// A persisted fee note.
#[derive(Clone, Debug, PartialEq, Eq)]
pub struct FeeNote {
    /// The unique on-chain identifier; the storage key.
    pub commitment: u128,
    /// The chain the emitting event was observed on.
    pub chain_id: u64,
    /// The block the emitting event was observed in.
    pub block_number: u64,
    /// The encrypted payload as observed on chain.
    pub ciphertext: Vec<u8>,
    /// The mint, known only after successful decryption.
    pub mint: Option<String>,
    /// The amount, known only after successful decryption.
    pub amount: Option<u128>,
    /// The destination wallet, known only after successful decryption.
    pub receiver_wallet_id: Option<u128>,
    /// Where the note stands in the redemption lifecycle.
    pub status: NoteStatus,
    /// The relayer task driving the redemption, while one is in flight.
    pub redemption_task_id: Option<u128>,
}

/// Mathematical image of a `FeeNote`.
pub struct NoteV {
    /// The unique on-chain identifier; the storage key.
    pub commitment: u128,
    /// The chain the emitting event was observed on.
    pub chain_id: u64,
    /// The block the emitting event was observed in.
    pub block_number: u64,
    /// The encrypted payload.
    pub ciphertext: Seq<u8>,
    /// The mint, when decryption succeeded.
    pub mint: Option<Seq<char>>,
    /// The amount, when decryption succeeded.
    pub amount: Option<u128>,
    /// The destination wallet, when decryption succeeded.
    pub receiver_wallet_id: Option<u128>,
    /// The lifecycle status.
    pub status: StatusV,
    /// The in-flight relayer task, if any.
    pub redemption_task_id: Option<u128>,
}

impl View for FeeNote {
    type V = NoteV;

    open spec fn view(&self) -> NoteV {
        NoteV {
            commitment: self.commitment,
            chain_id: self.chain_id,
            block_number: self.block_number,
            ciphertext: self.ciphertext@,
            mint: match self.mint {
                Option::Some(m) => Option::Some(m@),
                Option::None => Option::None,
            },
            amount: self.amount,
            receiver_wallet_id: self.receiver_wallet_id,
            status: self.status@,
            redemption_task_id: self.redemption_task_id,
        }
    }
}

/// A note whose decrypted fields are present exactly when its status says
/// they should be: every status but `Undecryptable` implies a successful
/// decryption, so the mint, amount and receiver are known.
pub open spec fn wf_note(n: NoteV) -> bool {
    &&& (n.status is Undecryptable ==> n.mint is None && n.amount is None
            && n.receiver_wallet_id is None)
    &&& (!(n.status is Undecryptable) ==> n.mint is Some && n.amount is Some
            && n.receiver_wallet_id is Some)
}

/// A note as classification emits it: not yet touched by redemption.
pub open spec fn fresh_status(s: StatusV) -> bool {
    s is Indexed || s is Undecryptable
}

/// Classify a raw on-chain note by its decryption outcome: a decrypted
/// payload yields an `Indexed` note with the revealed fields populated, and
/// a failed decryption yields an `Undecryptable` note. Decryption failure is
/// a classification, never an error: every raw note yields a stored note.
pub fn classify_note(raw: RawNote, plain: Option<NotePlain>) -> (note: FeeNote)
    ensures
        note@.commitment == raw.commitment,
        note@.chain_id == raw.chain_id,
        note@.block_number == raw.block_number,
        note@.ciphertext == raw.ciphertext@,
        note@.redemption_task_id is None,
        plain matches Some(p) ==> {
            &&& note@.status is Indexed
            &&& note@.mint == Some(p.mint@)
            &&& note@.amount == Some(p.amount)
            &&& note@.receiver_wallet_id == Some(p.receiver_wallet_id)
        },
        plain is None ==> {
            &&& note@.status is Undecryptable
            &&& note@.mint is None
            &&& note@.amount is None
            &&& note@.receiver_wallet_id is None
        },
        wf_note(note@),
        fresh_status(note@.status),
{
    match plain {
        Option::Some(p) => FeeNote {
            commitment: raw.commitment,
            chain_id: raw.chain_id,
            block_number: raw.block_number,
            ciphertext: raw.ciphertext,
            mint: Option::Some(p.mint),
            amount: Option::Some(p.amount),
            receiver_wallet_id: Option::Some(p.receiver_wallet_id),
            status: NoteStatus::Indexed,
            redemption_task_id: Option::None,
        },
        Option::None => FeeNote {
            commitment: raw.commitment,
            chain_id: raw.chain_id,
            block_number: raw.block_number,
            ciphertext: raw.ciphertext,
            mint: Option::None,
            amount: Option::None,
            receiver_wallet_id: Option::None,
            status: NoteStatus::Undecryptable,
            redemption_task_id: Option::None,
        },
    }
}

/// The effect of marking a note pending with the given task: it moves (or
/// stays) in `Pending` if it is `Indexed` or already `Pending`, and is left
/// untouched in any terminal state.
pub open spec fn mark_pending_note(n: NoteV, task: Option<u128>) -> NoteV {
    if n.status is Indexed || n.status is Pending {
        NoteV { status: StatusV::Pending, redemption_task_id: task, ..n }
    } else {
        n
    }
}

/// The effect of marking a note redeemed: it applies only from `Pending`;
/// any other state is left untouched.
pub open spec fn mark_redeemed_note(n: NoteV) -> NoteV {
    if n.status is Pending {
        NoteV { status: StatusV::Redeemed, ..n }
    } else {
        n
    }
}

/// The effect of marking a note failed with the given reason: it applies
/// only from `Pending`; any other state is left untouched.
pub open spec fn mark_failed_note(n: NoteV, reason: Seq<char>) -> NoteV {
    if n.status is Pending {
        NoteV { status: StatusV::Failed(reason), ..n }
    } else {
        n
    }
}

/// Law: every marking step is a move the lifecycle allows.
pub proof fn lemma_mark_steps_valid(n: NoteV, task: Option<u128>, reason: Seq<char>)
    ensures
        valid_step(n.status, mark_pending_note(n, task).status),
        valid_step(n.status, mark_redeemed_note(n).status),
        valid_step(n.status, mark_failed_note(n, reason).status),
{
}

/// Law: a terminal note absorbs every marking step unchanged, so a redeemed
/// or failed note can never be re-entered into redemption, and a note can
/// never be redeemed twice.
pub proof fn lemma_terminal_absorbing(n: NoteV, task: Option<u128>, reason: Seq<char>)
    requires
        is_terminal(n.status),
    ensures
        mark_pending_note(n, task) == n,
        mark_redeemed_note(n) == n,
        mark_failed_note(n, reason) == n,
{
}

/// Copy the bytes of a slice into a fresh vector.
pub(crate) fn copy_bytes(src: &Vec<u8>) -> (out: Vec<u8>)
    ensures
        out@ == src@,
{
    let mut out: Vec<u8> = Vec::new();
    let mut i: usize = 0;
    while i < src.len()
        invariant
            i <= src.len(),
            out@ == src@.take(i as int),
        decreases src.len() - i,
    {
        out.push(src[i]);
        proof {
            assert(src@.take(i + 1 as int) =~= src@.take(i as int).push(src@[i as int]));
        }
        i = i + 1;
    }
    proof {
        assert(src@.take(src@.len() as int) =~= src@);
    }
    out
}

/// Copy a note field by field.
pub fn copy_note(n: &FeeNote) -> (out: FeeNote)
    ensures
        out@ == n@,
{
    let mint: Option<String> = match &n.mint {
        Option::Some(m) => Option::Some(m.clone()),
        Option::None => Option::None,
    };
    let status: NoteStatus = match &n.status {
        NoteStatus::Indexed => NoteStatus::Indexed,
        NoteStatus::Undecryptable => NoteStatus::Undecryptable,
        NoteStatus::Pending => NoteStatus::Pending,
        NoteStatus::Redeemed => NoteStatus::Redeemed,
        NoteStatus::Failed(reason) => NoteStatus::Failed(reason.clone()),
    };
    FeeNote {
        commitment: n.commitment,
        chain_id: n.chain_id,
        block_number: n.block_number,
        ciphertext: copy_bytes(&n.ciphertext),
        mint,
        amount: n.amount,
        receiver_wallet_id: n.receiver_wallet_id,
        status,
        redemption_task_id: n.redemption_task_id,
    }
}

} // verus!
