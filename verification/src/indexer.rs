//! The indexing phase: one pass scans the block range the checkpoint leaves
//! open, classifies every candidate note, persists the whole batch, and only
//! then advances the checkpoint — so a crash mid-pass can only cause an
//! idempotent re-scan, never a gap.

use vstd::prelude::*;
use crate::notes::FeeNote;
use crate::store::{apply_batch, batch_fresh, note_views, NoteStore, StoreError};

verus! {

/// The block range one indexing pass must scan: `[checkpoint + 1,
/// chain_head]`, or nothing when the head is at or behind the checkpoint.
pub open spec fn scan_range_spec(checkpoint: u64, chain_head: u64) -> Option<(u64, u64)> {
    if chain_head <= checkpoint {
        Option::None
    } else {
        Option::Some(((checkpoint + 1) as u64, chain_head))
    }
}

/// Decide what one indexing pass scans. A pass with the chain head at or
/// behind the checkpoint is a no-op: nothing is fetched and nothing changes.
pub fn plan_scan(checkpoint: u64, chain_head: u64) -> (range: Option<(u64, u64)>)
    ensures
        range == scan_range_spec(checkpoint, chain_head),
{
    if chain_head <= checkpoint {
        Option::None
    } else {
        Option::Some((checkpoint + 1, chain_head))
    }
}

/// Persist a classified batch and then advance the chain's checkpoint to
/// `to_block`, in that order: the checkpoint moves only after the whole
/// batch is stored. With `to_block` at or past the current checkpoint — as
/// any range from `plan_scan` is — the pass cannot fail.
pub fn ingest_batch(
    store: &mut NoteStore,
    chain_id: u64,
    to_block: u64,
    batch: &Vec<FeeNote>,
) -> (result: Result<(), StoreError>)
    requires
        old(store).wf(),
        batch_fresh(note_views(batch@)),
        to_block >= old(store).checkpoint_of(chain_id),
    ensures
        final(store).wf(),
        result is Ok,
        final(store).note_map() == apply_batch(old(store).note_map(), note_views(batch@)),
        final(store).checkpoint_of(chain_id) == to_block,
        forall|other: u64|
            other != chain_id ==> final(store).checkpoint_of(other) == old(store).checkpoint_of(
                other,
            ),
{
    store.upsert_batch(batch);
    store.advance_checkpoint(chain_id, to_block)
}

} // verus!
