//! The note store: persistent fee notes keyed by commitment, and a per-chain
//! indexing checkpoint.
//!
//! The store is the only owner of note and checkpoint records. Its abstract
//! state is a map from commitment to note together with one checkpoint value
//! per chain; every operation's contract is stated over that map.

use vstd::prelude::*;
use vstd::map::*;
use crate::notes::{
    FeeNote, NoteV, copy_note, fresh_status, mark_failed_note, mark_pending_note,
    mark_redeemed_note, wf_note,
};

verus! {

/// The note views of a sequence of stored notes.
pub open spec fn note_views(notes: Seq<FeeNote>) -> Seq<NoteV> {
    notes.map_values(|n: FeeNote| n@)
}

/// The map from commitment to note that a sequence of notes denotes; a
/// later entry wins over an earlier one with the same commitment.
pub open spec fn map_of(s: Seq<NoteV>) -> Map<u128, NoteV>
    decreases s.len(),
{
    if s.len() == 0 {
        Map::empty()
    } else {
        map_of(s.drop_last()).insert(s.last().commitment, s.last())
    }
}

/// Some note in `s` carries commitment `c`.
pub open spec fn has_commitment(s: Seq<NoteV>, c: u128) -> bool {
    exists|i: int| 0 <= i < s.len() && s[i].commitment == c
}

/// No two notes in `s` share a commitment.
pub open spec fn distinct_commitments(s: Seq<NoteV>) -> bool {
    forall|i: int, j: int| 0 <= i < j < s.len() ==> s[i].commitment != s[j].commitment
}

/// The domain of `map_of(s)` is exactly the commitments occurring in `s`.
proof fn lemma_map_of_dom(s: Seq<NoteV>)
    ensures
        forall|c: u128| #[trigger] map_of(s).dom().contains(c) <==> has_commitment(s, c),
    decreases s.len(),
{
    if s.len() > 0 {
        let s0 = s.drop_last();
        lemma_map_of_dom(s0);
        assert(map_of(s) == map_of(s0).insert(s.last().commitment, s.last()));
        assert forall|c: u128| #[trigger] map_of(s).dom().contains(c) implies has_commitment(
            s,
            c,
        ) by {
            if c == s.last().commitment {
                assert(s[s.len() - 1].commitment == c);
            } else {
                assert(map_of(s0).dom().contains(c));
                assert(has_commitment(s0, c));
                let i = choose|i: int| 0 <= i < s0.len() && s0[i].commitment == c;
                assert(s0[i] == s[i]);
                assert(s[i].commitment == c);
            }
        }
        assert forall|c: u128| has_commitment(s, c) implies map_of(s).dom().contains(c) by {
            let i = choose|i: int| 0 <= i < s.len() && s[i].commitment == c;
            if i < s.len() - 1 {
                assert(s0[i] == s[i]);
                assert(s0[i].commitment == c);
                assert(has_commitment(s0, c));
            }
        }
    }
}

/// With distinct commitments, `map_of(s)` maps each note's commitment to
/// that very note.
proof fn lemma_map_of_values(s: Seq<NoteV>)
    requires
        distinct_commitments(s),
    ensures
        forall|i: int| 0 <= i < s.len() ==> map_of(s)[#[trigger] s[i].commitment] == s[i],
    decreases s.len(),
{
    if s.len() > 0 {
        let s0 = s.drop_last();
        lemma_map_of_values(s0);
        assert forall|i: int| 0 <= i < s.len() implies map_of(s)[#[trigger] s[i].commitment]
            == s[i] by {
            if i < s.len() - 1 {
                assert(s0[i] == s[i]);
                assert(s[i].commitment != s.last().commitment);
            }
        }
    }
}

/// Appending a note updates the denoted map at its commitment.
proof fn lemma_map_of_push(s: Seq<NoteV>, n: NoteV)
    ensures
        map_of(s.push(n)) == map_of(s).insert(n.commitment, n),
{
    assert(s.push(n).drop_last() =~= s);
    assert(s.push(n).last() == n);
}

/// Replacing the note at index `j` by one with the same commitment (via a
/// swap-remove followed by a push) updates the denoted map at that
/// commitment and keeps commitments distinct.
proof fn lemma_map_of_replace(s: Seq<NoteV>, j: int, n: NoteV)
    requires
        distinct_commitments(s),
        0 <= j < s.len(),
        s[j].commitment == n.commitment,
    ensures
        distinct_commitments(s.update(j, s.last()).drop_last().push(n)),
        map_of(s.update(j, s.last()).drop_last().push(n)) == map_of(s).insert(n.commitment, n),
{
    let s1 = s.update(j, s.last()).drop_last();
    let s2 = s1.push(n);
    // Every element of s1 is an element of s at an index other than j.
    assert forall|k: int| 0 <= k < s1.len() implies (exists|m: int|
        0 <= m < s.len() && m != j && s[m] == #[trigger] s1[k]) by {
        if k == j {
            assert(s[s.len() - 1] == s1[k]);
            assert(j != s.len() - 1);
        } else {
            assert(s[k] == s1[k]);
        }
    }
    assert(distinct_commitments(s2)) by {
        assert forall|k: int, l: int| 0 <= k < l < s2.len() implies s2[k].commitment
            != s2[l].commitment by {
            if l < s2.len() - 1 {
                // both from s1: distinct positions of s
                let mk = choose|m: int| 0 <= m < s.len() && m != j && s[m] == s1[k];
                let ml = choose|m: int| 0 <= m < s.len() && m != j && s[m] == s1[l];
                if k == j || l == j {
                    assert(s2[k].commitment != s2[l].commitment);
                } else {
                    assert(s1[k] == s[k] && s1[l] == s[l]);
                }
            } else {
                // l is the new note; s2[k] comes from s at an index other than j
                let mk = choose|m: int| 0 <= m < s.len() && m != j && s[m] == s1[k];
                assert(s[mk].commitment != s[j].commitment);
            }
        }
    }
    lemma_map_of_dom(s);
    lemma_map_of_values(s);
    lemma_map_of_dom(s2);
    lemma_map_of_values(s2);
    let target = map_of(s).insert(n.commitment, n);
    assert forall|c: u128| map_of(s2).dom().contains(c) implies target.dom().contains(c)
        && map_of(s2)[c] == target[c] by {
        let i = choose|i: int| 0 <= i < s2.len() && s2[i].commitment == c;
        if i == s2.len() - 1 {
            assert(map_of(s2)[c] == n);
        } else {
            let m = choose|m: int| 0 <= m < s.len() && m != j && s[m] == s2[i];
            assert(s[m].commitment == c);
            assert(has_commitment(s, c));
            assert(map_of(s)[c] == s[m]);
            assert(c != n.commitment);
            assert(map_of(s2)[c] == s2[i]);
        }
    }
    assert forall|c: u128| target.dom().contains(c) implies map_of(s2).dom().contains(c) by {
        if c == n.commitment {
            assert(s2[s2.len() - 1].commitment == c);
        } else {
            let i = choose|i: int| 0 <= i < s.len() && s[i].commitment == c;
            assert(i != j);
            if i == s.len() - 1 {
                // the last element of s moved to position j in s1
                assert(j < s.len() - 1);
                assert(s1[j] == s[s.len() - 1]);
                assert(s2[j].commitment == c);
            } else {
                assert(s1[i] == s[i]);
                assert(s2[i].commitment == c);
            }
        }
    }
    assert(map_of(s2) =~= target);
}

/// One checkpoint row: the last fully indexed block of one chain.
#[derive(Clone, Copy, Debug, PartialEq, Eq)]
pub struct CheckpointRow {
    /// The chain the row belongs to.
    pub chain_id: u64,
    /// The last block whose notes are durably persisted.
    pub last_indexed_block: u64,
}

/// Some row in `rows` is for chain `chain_id`.
pub open spec fn has_chain(rows: Seq<CheckpointRow>, chain_id: u64) -> bool {
    exists|i: int| 0 <= i < rows.len() && rows[i].chain_id == chain_id
}

/// No two rows in `rows` are for the same chain.
pub open spec fn distinct_chains(rows: Seq<CheckpointRow>) -> bool {
    forall|i: int, j: int| 0 <= i < j < rows.len() ==> rows[i].chain_id != rows[j].chain_id
}

/// The checkpoint a row sequence gives a chain: the stored block, or zero
/// when the chain has no row yet.
pub open spec fn chain_block(rows: Seq<CheckpointRow>, chain_id: u64) -> u64 {
    if has_chain(rows, chain_id) {
        rows[choose|i: int| 0 <= i < rows.len() && rows[i].chain_id == chain_id].last_indexed_block
    } else {
        0
    }
}

/// Persistent storage of fee notes and per-chain indexing checkpoints.
pub struct NoteStore {
    /// The stored notes; commitments are unique.
    notes: Vec<FeeNote>,
    /// One checkpoint row per chain.
    checkpoints: Vec<CheckpointRow>,
}

impl NoteStore {
    /// The stored notes as a sequence of views.
    pub closed spec fn notes_view(self) -> Seq<NoteV> {
        note_views(self.notes@)
    }

    /// The abstract note state: a map from commitment to note.
    pub closed spec fn note_map(self) -> Map<u128, NoteV> {
        map_of(self.notes_view())
    }

    /// The abstract checkpoint state of one chain.
    pub closed spec fn checkpoint_of(self, chain_id: u64) -> u64 {
        chain_block(self.checkpoints@, chain_id)
    }

    /// Well-formedness: commitments unique, every stored note's decrypted
    /// fields match its status, and one checkpoint row per chain.
    pub closed spec fn wf(self) -> bool {
        &&& distinct_commitments(self.notes_view())
        &&& (forall|i: int|
            0 <= i < self.notes_view().len() ==> wf_note(#[trigger] self.notes_view()[i]))
        &&& distinct_chains(self.checkpoints@)
    }

    /// Every note of a well-formed store is well formed.
    pub proof fn lemma_wf_notes(self)
        requires
            self.wf(),
        ensures
            forall|c: u128| #[trigger]
                self.note_map().dom().contains(c) ==> wf_note(self.note_map()[c]),
    {
        lemma_map_of_dom(self.notes_view());
        lemma_map_of_values(self.notes_view());
        assert forall|c: u128| #[trigger] self.note_map().dom().contains(c) implies wf_note(
            self.note_map()[c],
        ) by {
            let i = choose|i: int|
                0 <= i < self.notes_view().len() && self.notes_view()[i].commitment == c;
            assert(self.note_map()[c] == self.notes_view()[i]);
        }
    }

    /// An empty store: no notes, every checkpoint at zero.
    pub fn new() -> (store: NoteStore)
        ensures
            store.wf(),
            store.note_map() == Map::<u128, NoteV>::empty(),
            forall|chain_id: u64| store.checkpoint_of(chain_id) == 0,
    {
        let store = NoteStore { notes: Vec::new(), checkpoints: Vec::new() };
        proof {
            assert(store.notes_view() =~= Seq::<NoteV>::empty());
        }
        store
    }

    /// Find the index of the note with the given commitment.
    fn find_note(&self, commitment: u128) -> (found: Option<usize>)
        ensures
            found matches Some(j) ==> j < self.notes_view().len()
                && self.notes_view()[j as int].commitment == commitment,
            found is None ==> !has_commitment(self.notes_view(), commitment),
    {
        let mut i: usize = 0;
        while i < self.notes.len()
            invariant
                i <= self.notes.len(),
                forall|k: int| 0 <= k < i ==> self.notes_view()[k].commitment != commitment,
            decreases self.notes.len() - i,
        {
            if self.notes[i].commitment == commitment {
                assert(self.notes_view()[i as int].commitment == commitment);
                return Option::Some(i);
            }
            i = i + 1;
        }
        Option::None
    }

    /// Insert the note, or replace the stored note carrying the same
    /// commitment.
    fn put_note(&mut self, note: FeeNote)
        requires
            old(self).wf(),
            wf_note(note@),
        ensures
            final(self).wf(),
            final(self).note_map() == old(self).note_map().insert(note@.commitment, note@),
            final(self).checkpoints@ == old(self).checkpoints@,
    {
        let ghost s = self.notes_view();
        match self.find_note(note.commitment) {
            Option::Some(j) => {
                let ghost nv = note@;
                let _ = self.notes.swap_remove(j);
                self.notes.push(note);
                proof {
                    assert(self.notes_view() =~= s.update(j as int, s.last()).drop_last().push(
                        nv,
                    )) by {
                        assert forall|k: int|
                            0 <= k < self.notes_view().len() implies self.notes_view()[k]
                            == s.update(j as int, s.last()).drop_last().push(nv)[k] by {}
                    }
                    lemma_map_of_replace(s, j as int, nv);
                }
            },
            Option::None => {
                let ghost nv = note@;
                self.notes.push(note);
                proof {
                    assert(self.notes_view() =~= s.push(nv));
                    lemma_map_of_push(s, nv);
                    assert(distinct_commitments(self.notes_view())) by {
                        lemma_map_of_dom(s);
                    }
                }
            },
        }
    }
}

/// How a fresh observation lands on a stored note with the same commitment:
/// a note still in a pre-redemption state (`Indexed` or `Undecryptable`) is
/// refreshed from the chain; a note with redemption progress or a terminal
/// redemption outcome is preserved, so re-scanning never loses progress.
pub open spec fn merge_note(stored: NoteV, incoming: NoteV) -> NoteV {
    if fresh_status(stored.status) {
        incoming
    } else {
        stored
    }
}

/// The effect of upserting one note into the abstract note map.
pub open spec fn upsert_one(m: Map<u128, NoteV>, n: NoteV) -> Map<u128, NoteV> {
    if m.dom().contains(n.commitment) {
        m.insert(n.commitment, merge_note(m[n.commitment], n))
    } else {
        m.insert(n.commitment, n)
    }
}

/// The effect of upserting a whole batch, in order.
pub open spec fn apply_batch(m: Map<u128, NoteV>, batch: Seq<NoteV>) -> Map<u128, NoteV>
    decreases batch.len(),
{
    if batch.len() == 0 {
        m
    } else {
        upsert_one(apply_batch(m, batch.drop_last()), batch.last())
    }
}

/// A batch as classification produces it: every note well formed and not
/// yet touched by redemption.
pub open spec fn batch_fresh(batch: Seq<NoteV>) -> bool {
    forall|i: int|
        0 <= i < batch.len() ==> fresh_status(#[trigger] batch[i].status) && wf_note(batch[i])
}

/// The last note in `batch` carrying commitment `c`.
pub open spec fn last_with(batch: Seq<NoteV>, c: u128) -> NoteV
    decreases batch.len(),
{
    if batch.len() == 0 {
        arbitrary()
    } else if batch.last().commitment == c {
        batch.last()
    } else {
        last_with(batch.drop_last(), c)
    }
}

/// What one key of the abstract map holds after a whole batch is upserted:
/// a key the batch does not touch is unchanged; a touched key holds the
/// stored note if that note had redemption progress, and otherwise the last
/// batch note with that commitment.
proof fn lemma_apply_batch_char(m: Map<u128, NoteV>, batch: Seq<NoteV>, c: u128)
    requires
        batch_fresh(batch),
    ensures
        !has_commitment(batch, c) ==> (apply_batch(m, batch).dom().contains(c) <==> m.dom().contains(c)),
        !has_commitment(batch, c) && m.dom().contains(c) ==> apply_batch(m, batch)[c] == m[c],
        has_commitment(batch, c) ==> apply_batch(m, batch).dom().contains(c),
        has_commitment(batch, c) ==> apply_batch(m, batch)[c] == (
            if m.dom().contains(c) && !fresh_status(m[c].status) {
                m[c]
            } else {
                last_with(batch, c)
            }
        ),
        has_commitment(batch, c) ==> last_with(batch, c).commitment == c && fresh_status(
            last_with(batch, c).status,
        ),
    decreases batch.len(),
{
    if batch.len() > 0 {
        let b0 = batch.drop_last();
        let n = batch.last();
        lemma_apply_batch_char(m, b0, c);
        let a0 = apply_batch(m, b0);
        assert(apply_batch(m, batch) == upsert_one(a0, n));
        if has_commitment(batch, c) {
            let w = choose|i: int| 0 <= i < batch.len() && batch[i].commitment == c;
            if n.commitment != c {
                assert(w < batch.len() - 1);
                assert(b0[w] == batch[w]);
                assert(has_commitment(b0, c));
            }
        }
        if has_commitment(b0, c) {
            let w = choose|i: int| 0 <= i < b0.len() && b0[i].commitment == c;
            assert(batch[w] == b0[w]);
            assert(has_commitment(batch, c));
        }
    }
}

/// Law: upserting the same batch twice leaves the same stored state as
/// upserting it once — re-scanning a block range is idempotent, and no
/// commitment is ever duplicated (the state is a map keyed by commitment).
pub proof fn lemma_upsert_idempotent(m: Map<u128, NoteV>, batch: Seq<NoteV>)
    requires
        batch_fresh(batch),
    ensures
        apply_batch(apply_batch(m, batch), batch) == apply_batch(m, batch),
{
    let a1 = apply_batch(m, batch);
    let a2 = apply_batch(a1, batch);
    assert_maps_equal!(a2, a1, c => {
        lemma_apply_batch_char(m, batch, c);
        lemma_apply_batch_char(a1, batch, c);
    });
}

impl NoteStore {
    /// Insert every note of the batch, keyed by commitment: a commitment
    /// not yet stored is inserted; a stored note still in a pre-redemption
    /// state is refreshed; a stored note with redemption progress is kept.
    /// Safe to call repeatedly with overlapping batches.
    pub fn upsert_batch(&mut self, batch: &Vec<FeeNote>)
        requires
            old(self).wf(),
            batch_fresh(note_views(batch@)),
        ensures
            final(self).wf(),
            final(self).note_map() == apply_batch(old(self).note_map(), note_views(batch@)),
            forall|chain_id: u64|
                final(self).checkpoint_of(chain_id) == old(self).checkpoint_of(chain_id),
    {
        let ghost m0 = self.note_map();
        let ghost bviews = note_views(batch@);
        let mut i: usize = 0;
        while i < batch.len()
            invariant
                i <= batch.len(),
                self.wf(),
                bviews == note_views(batch@),
                batch_fresh(bviews),
                bviews.len() == batch@.len(),
                self.note_map() == apply_batch(m0, bviews.take(i as int)),
                self.checkpoints@ == old(self).checkpoints@,
            decreases batch.len() - i,
        {
            let note = copy_note(&batch[i]);
            let ghost mcur = self.note_map();
            proof {
                assert(bviews[i as int] == note@);
                lemma_map_of_dom(self.notes_view());
                lemma_map_of_values(self.notes_view());
            }
            match self.find_note(note.commitment) {
                Option::Some(j) => {
                    let ghost stored = self.notes_view()[j as int];
                    proof {
                        assert(mcur.dom().contains(note@.commitment));
                        assert(mcur[note@.commitment] == stored);
                    }
                    let refresh = match &self.notes[j].status {
                        crate::notes::NoteStatus::Indexed => true,
                        crate::notes::NoteStatus::Undecryptable => true,
                        _ => false,
                    };
                    if refresh {
                        assert(fresh_status(stored.status));
                        self.put_note(note);
                        proof {
                            assert(self.note_map() =~= upsert_one(mcur, bviews[i as int]));
                        }
                    } else {
                        proof {
                            assert(!fresh_status(stored.status));
                            assert(merge_note(stored, bviews[i as int]) == stored);
                            assert(upsert_one(mcur, bviews[i as int]) =~= mcur);
                        }
                    }
                },
                Option::None => {
                    proof {
                        assert(!mcur.dom().contains(note@.commitment));
                    }
                    self.put_note(note);
                    proof {
                        assert(self.note_map() =~= upsert_one(mcur, bviews[i as int]));
                    }
                },
            }
            proof {
                assert(bviews.take(i + 1 as int).drop_last() =~= bviews.take(i as int));
                assert(bviews.take(i + 1 as int).last() == bviews[i as int]);
                assert(apply_batch(m0, bviews.take(i + 1 as int)) == upsert_one(
                    apply_batch(m0, bviews.take(i as int)),
                    bviews[i as int],
                ));
            }
            i = i + 1;
        }
        proof {
            assert(bviews.take(batch@.len() as int) =~= bviews);
        }
    }
}

/// A storage-level failure.
#[derive(Clone, Debug, PartialEq, Eq)]
pub enum StoreError {
    /// The checkpoint was asked to move backwards. This indicates a logic
    /// bug in the caller and must halt the indexing pass.
    CheckpointRegression,
}

/// Replacing the row at index `j` by one for the same chain (via a
/// swap-remove followed by a push) moves that chain's checkpoint and no
/// other.
proof fn lemma_rows_replace(rows: Seq<CheckpointRow>, j: int, row: CheckpointRow)
    requires
        distinct_chains(rows),
        0 <= j < rows.len(),
        rows[j].chain_id == row.chain_id,
    ensures
        distinct_chains(rows.update(j, rows.last()).drop_last().push(row)),
        chain_block(rows.update(j, rows.last()).drop_last().push(row), row.chain_id)
            == row.last_indexed_block,
        forall|other: u64|
            other != row.chain_id ==> chain_block(
                rows.update(j, rows.last()).drop_last().push(row),
                other,
            ) == chain_block(rows, other),
{
    let r1 = rows.update(j, rows.last()).drop_last();
    let r2 = r1.push(row);
    assert forall|k: int| 0 <= k < r1.len() implies (exists|m: int|
        0 <= m < rows.len() && m != j && rows[m] == #[trigger] r1[k]) by {
        if k == j {
            assert(rows[rows.len() - 1] == r1[k]);
            assert(j != rows.len() - 1);
        } else {
            assert(rows[k] == r1[k]);
        }
    }
    assert(distinct_chains(r2)) by {
        assert forall|k: int, l: int| 0 <= k < l < r2.len() implies r2[k].chain_id
            != r2[l].chain_id by {
            if l < r2.len() - 1 {
                if k == j || l == j {
                    assert(r2[k].chain_id != r2[l].chain_id);
                } else {
                    assert(r1[k] == rows[k] && r1[l] == rows[l]);
                }
            } else {
                let mk = choose|m: int| 0 <= m < rows.len() && m != j && rows[m] == r1[k];
                assert(rows[mk].chain_id != rows[j].chain_id);
            }
        }
    }
    assert(r2[r2.len() - 1].chain_id == row.chain_id);
    assert(chain_block(r2, row.chain_id) == row.last_indexed_block) by {
        let k = choose|i: int| 0 <= i < r2.len() && r2[i].chain_id == row.chain_id;
        if k < r2.len() - 1 {
            let m = choose|m: int| 0 <= m < rows.len() && m != j && rows[m] == r2[k];
            assert(rows[m].chain_id == rows[j].chain_id);
            assert(false);
        }
    }
    assert forall|other: u64| other != row.chain_id implies chain_block(r2, other) == chain_block(
        rows,
        other,
    ) by {
        if has_chain(r2, other) {
            let k = choose|i: int| 0 <= i < r2.len() && r2[i].chain_id == other;
            assert(k < r2.len() - 1);
            let m = choose|m: int| 0 <= m < rows.len() && m != j && rows[m] == r2[k];
            assert(has_chain(rows, other));
            let k2 = choose|i: int| 0 <= i < rows.len() && rows[i].chain_id == other;
            assert(k2 == m);
            assert(chain_block(r2, other) == rows[m].last_indexed_block);
        } else {
            if has_chain(rows, other) {
                let k2 = choose|i: int| 0 <= i < rows.len() && rows[i].chain_id == other;
                if k2 == rows.len() - 1 {
                    assert(j < rows.len() - 1);
                    assert(r1[j] == rows[rows.len() - 1]);
                    assert(r2[j].chain_id == other);
                } else {
                    assert(k2 != j);
                    assert(r1[k2] == rows[k2]);
                    assert(r2[k2].chain_id == other);
                }
                assert(false);
            }
        }
    }
}

/// Appending a row for a chain that has none yet sets that chain's
/// checkpoint and no other.
proof fn lemma_rows_push(rows: Seq<CheckpointRow>, row: CheckpointRow)
    requires
        distinct_chains(rows),
        !has_chain(rows, row.chain_id),
    ensures
        distinct_chains(rows.push(row)),
        chain_block(rows.push(row), row.chain_id) == row.last_indexed_block,
        forall|other: u64|
            other != row.chain_id ==> chain_block(rows.push(row), other) == chain_block(
                rows,
                other,
            ),
{
    let r2 = rows.push(row);
    assert(distinct_chains(r2)) by {
        assert forall|k: int, l: int| 0 <= k < l < r2.len() implies r2[k].chain_id
            != r2[l].chain_id by {
            if l == r2.len() - 1 {
                assert(rows[k].chain_id == r2[k].chain_id);
                if rows[k].chain_id == row.chain_id {
                    assert(has_chain(rows, row.chain_id));
                }
            }
        }
    }
    assert(r2[r2.len() - 1].chain_id == row.chain_id);
    assert(chain_block(r2, row.chain_id) == row.last_indexed_block) by {
        let k = choose|i: int| 0 <= i < r2.len() && r2[i].chain_id == row.chain_id;
        if k < r2.len() - 1 {
            assert(rows[k].chain_id == row.chain_id);
            assert(has_chain(rows, row.chain_id));
        }
    }
    assert forall|other: u64| other != row.chain_id implies chain_block(r2, other) == chain_block(
        rows,
        other,
    ) by {
        if has_chain(r2, other) {
            let k = choose|i: int| 0 <= i < r2.len() && r2[i].chain_id == other;
            assert(k < r2.len() - 1);
            assert(rows[k].chain_id == other);
            let k2 = choose|i: int| 0 <= i < rows.len() && rows[i].chain_id == other;
            assert(k2 == k);
        } else {
            if has_chain(rows, other) {
                let k2 = choose|i: int| 0 <= i < rows.len() && rows[i].chain_id == other;
                assert(r2[k2].chain_id == other);
                assert(false);
            }
        }
    }
}

impl NoteStore {
    /// Find the index of the checkpoint row for the given chain.
    fn find_chain(&self, chain_id: u64) -> (found: Option<usize>)
        ensures
            found matches Some(j) ==> j < self.checkpoints@.len()
                && self.checkpoints@[j as int].chain_id == chain_id,
            found is None ==> !has_chain(self.checkpoints@, chain_id),
    {
        let mut i: usize = 0;
        while i < self.checkpoints.len()
            invariant
                i <= self.checkpoints.len(),
                forall|k: int| 0 <= k < i ==> self.checkpoints@[k].chain_id != chain_id,
            decreases self.checkpoints.len() - i,
        {
            if self.checkpoints[i].chain_id == chain_id {
                return Option::Some(i);
            }
            i = i + 1;
        }
        Option::None
    }

    /// Move the chain's checkpoint to `block`. Fails, leaving the store
    /// unchanged, exactly when `block` lies behind the current checkpoint;
    /// the checkpoint therefore never decreases.
    pub fn advance_checkpoint(&mut self, chain_id: u64, block: u64) -> (result: Result<
        (),
        StoreError,
    >)
        requires
            old(self).wf(),
        ensures
            final(self).wf(),
            result is Ok <==> block >= old(self).checkpoint_of(chain_id),
            result is Ok ==> final(self).checkpoint_of(chain_id) == block,
            result matches Err(e) ==> e == StoreError::CheckpointRegression && *final(self)
                == *old(self),
            forall|other: u64|
                other != chain_id ==> final(self).checkpoint_of(other) == old(
                    self,
                ).checkpoint_of(other),
            final(self).note_map() == old(self).note_map(),
    {
        let ghost rows = self.checkpoints@;
        let row = CheckpointRow { chain_id, last_indexed_block: block };
        match self.find_chain(chain_id) {
            Option::Some(j) => {
                proof {
                    let k = choose|i: int| 0 <= i < rows.len() && rows[i].chain_id == chain_id;
                    assert(k == j as int);
                    assert(self.checkpoint_of(chain_id) == rows[j as int].last_indexed_block);
                }
                if block < self.checkpoints[j].last_indexed_block {
                    return Result::Err(StoreError::CheckpointRegression);
                }
                let _ = self.checkpoints.swap_remove(j);
                self.checkpoints.push(row);
                proof {
                    lemma_rows_replace(rows, j as int, row);
                }
                Result::Ok(())
            },
            Option::None => {
                proof {
                    lemma_rows_push(rows, row);
                }
                self.checkpoints.push(row);
                Result::Ok(())
            },
        }
    }

    /// Read a chain's checkpoint: zero until the chain has one.
    pub fn checkpoint(&self, chain_id: u64) -> (block: u64)
        requires
            self.wf(),
        ensures
            block == self.checkpoint_of(chain_id),
    {
        match self.find_chain(chain_id) {
            Option::Some(j) => {
                proof {
                    let k = choose|i: int|
                        0 <= i < self.checkpoints@.len() && self.checkpoints@[i].chain_id
                            == chain_id;
                    assert(k == j as int);
                }
                self.checkpoints[j].last_indexed_block
            },
            Option::None => 0,
        }
    }

    /// Look a note up by commitment.
    pub fn get_note(&self, commitment: u128) -> (found: Option<FeeNote>)
        requires
            self.wf(),
        ensures
            found matches Some(n) ==> self.note_map().dom().contains(commitment)
                && n@ == self.note_map()[commitment],
            found is None ==> !self.note_map().dom().contains(commitment),
    {
        proof {
            lemma_map_of_dom(self.notes_view());
            lemma_map_of_values(self.notes_view());
        }
        match self.find_note(commitment) {
            Option::Some(j) => Option::Some(copy_note(&self.notes[j])),
            Option::None => Option::None,
        }
    }

    /// The number of stored notes.
    pub fn note_count(&self) -> (count: usize)
        ensures
            count == self.notes_view().len(),
    {
        self.notes.len()
    }

    /// The commitments of all stored notes.
    pub fn commitments(&self) -> (out: Vec<u128>)
        ensures
            out@.len() == self.notes_view().len(),
            forall|i: int|
                0 <= i < out@.len() ==> out@[i] == self.notes_view()[i].commitment,
    {
        let mut out: Vec<u128> = Vec::new();
        let mut i: usize = 0;
        while i < self.notes.len()
            invariant
                i <= self.notes_view().len(),
                out@.len() == i,
                forall|k: int| 0 <= k < i ==> out@[k] == self.notes_view()[k].commitment,
            decreases self.notes.len() - i,
        {
            out.push(self.notes[i].commitment);
            i = i + 1;
        }
        out
    }

    /// Mark a note pending with the given task, recording that a redemption
    /// is in flight. It applies from `Indexed`, refreshes the task from
    /// `Pending`, and is a no-op — never an error — on a missing note or
    /// one in a terminal state.
    pub fn mark_pending(&mut self, commitment: u128, task_id: Option<u128>) -> (applied: bool)
        requires
            old(self).wf(),
        ensures
            final(self).wf(),
            old(self).note_map().dom().contains(commitment) ==> final(self).note_map() == old(
                self,
            ).note_map().insert(
                commitment,
                mark_pending_note(old(self).note_map()[commitment], task_id),
            ),
            !old(self).note_map().dom().contains(commitment) ==> final(self).note_map() == old(
                self,
            ).note_map(),
            applied <==> old(self).note_map().dom().contains(commitment) && (old(
                self,
            ).note_map()[commitment].status is Indexed || old(
                self,
            ).note_map()[commitment].status is Pending),
            forall|chain_id: u64|
                final(self).checkpoint_of(chain_id) == old(self).checkpoint_of(chain_id),
    {
        proof {
            lemma_map_of_dom(self.notes_view());
            lemma_map_of_values(self.notes_view());
        }
        match self.find_note(commitment) {
            Option::Some(j) => {
                let ghost stored = self.notes_view()[j as int];
                let eligible = match &self.notes[j].status {
                    crate::notes::NoteStatus::Indexed => true,
                    crate::notes::NoteStatus::Pending => true,
                    _ => false,
                };
                if eligible {
                    let mut note = copy_note(&self.notes[j]);
                    note.status = crate::notes::NoteStatus::Pending;
                    note.redemption_task_id = task_id;
                    proof {
                        assert(note@ == mark_pending_note(stored, task_id));
                        assert(wf_note(note@));
                    }
                    self.put_note(note);
                    true
                } else {
                    proof {
                        assert(mark_pending_note(stored, task_id) == stored);
                        assert(self.note_map().insert(commitment, stored) =~= self.note_map());
                    }
                    false
                }
            },
            Option::None => false,
        }
    }

    /// Mark a note redeemed. It applies only from `Pending`; a missing note
    /// or any other state is a no-op — never an error and never a second
    /// redemption.
    pub fn mark_redeemed(&mut self, commitment: u128) -> (applied: bool)
        requires
            old(self).wf(),
        ensures
            final(self).wf(),
            old(self).note_map().dom().contains(commitment) ==> final(self).note_map() == old(
                self,
            ).note_map().insert(commitment, mark_redeemed_note(old(self).note_map()[commitment])),
            !old(self).note_map().dom().contains(commitment) ==> final(self).note_map() == old(
                self,
            ).note_map(),
            applied <==> old(self).note_map().dom().contains(commitment) && old(
                self,
            ).note_map()[commitment].status is Pending,
            forall|chain_id: u64|
                final(self).checkpoint_of(chain_id) == old(self).checkpoint_of(chain_id),
    {
        proof {
            lemma_map_of_dom(self.notes_view());
            lemma_map_of_values(self.notes_view());
        }
        match self.find_note(commitment) {
            Option::Some(j) => {
                let ghost stored = self.notes_view()[j as int];
                let eligible = match &self.notes[j].status {
                    crate::notes::NoteStatus::Pending => true,
                    _ => false,
                };
                if eligible {
                    let mut note = copy_note(&self.notes[j]);
                    note.status = crate::notes::NoteStatus::Redeemed;
                    proof {
                        assert(note@ == mark_redeemed_note(stored));
                        assert(wf_note(note@));
                    }
                    self.put_note(note);
                    true
                } else {
                    proof {
                        assert(mark_redeemed_note(stored) == stored);
                        assert(self.note_map().insert(commitment, stored) =~= self.note_map());
                    }
                    false
                }
            },
            Option::None => false,
        }
    }

    /// Mark a note failed with the reason captured verbatim. It applies
    /// only from `Pending`; a missing note or any other state is a no-op —
    /// never an error.
    pub fn mark_failed(&mut self, commitment: u128, reason: String) -> (applied: bool)
        requires
            old(self).wf(),
        ensures
            final(self).wf(),
            old(self).note_map().dom().contains(commitment) ==> final(self).note_map() == old(
                self,
            ).note_map().insert(
                commitment,
                mark_failed_note(old(self).note_map()[commitment], reason@),
            ),
            !old(self).note_map().dom().contains(commitment) ==> final(self).note_map() == old(
                self,
            ).note_map(),
            applied <==> old(self).note_map().dom().contains(commitment) && old(
                self,
            ).note_map()[commitment].status is Pending,
            forall|chain_id: u64|
                final(self).checkpoint_of(chain_id) == old(self).checkpoint_of(chain_id),
    {
        proof {
            lemma_map_of_dom(self.notes_view());
            lemma_map_of_values(self.notes_view());
        }
        match self.find_note(commitment) {
            Option::Some(j) => {
                let ghost stored = self.notes_view()[j as int];
                let eligible = match &self.notes[j].status {
                    crate::notes::NoteStatus::Pending => true,
                    _ => false,
                };
                if eligible {
                    let mut note = copy_note(&self.notes[j]);
                    note.status = crate::notes::NoteStatus::Failed(reason);
                    proof {
                        assert(note@ == mark_failed_note(stored, reason@));
                        assert(wf_note(note@));
                    }
                    self.put_note(note);
                    true
                } else {
                    proof {
                        assert(mark_failed_note(stored, reason@) == stored);
                        assert(self.note_map().insert(commitment, stored) =~= self.note_map());
                    }
                    false
                }
            },
            Option::None => false,
        }
    }
}

/// The strict processing order of redeemable notes: ascending block number,
/// with the commitment as tie-breaker.
pub open spec fn note_key_lt(a: NoteV, b: NoteV) -> bool {
    a.block_number < b.block_number || (a.block_number == b.block_number && a.commitment
        < b.commitment)
}

/// A note the redemption phase must pick up: an `Indexed` note of the given
/// chain.
pub open spec fn redeemable(n: NoteV, chain_id: u64) -> bool {
    n.chain_id == chain_id && n.status is Indexed
}

/// A note an interrupted run left in flight: a `Pending` note of the given
/// chain, to be reconciled on the next run.
pub open spec fn pending_note(n: NoteV, chain_id: u64) -> bool {
    n.chain_id == chain_id && n.status is Pending
}

/// The notes one listing pass selects: the chain's `Pending` notes when
/// `want_pending` holds, and its `Indexed` notes otherwise.
pub open spec fn listed(n: NoteV, chain_id: u64, want_pending: bool) -> bool {
    if want_pending {
        pending_note(n, chain_id)
    } else {
        redeemable(n, chain_id)
    }
}

/// Compare two notes in processing order.
fn note_lt(a: &FeeNote, b: &FeeNote) -> (lt: bool)
    ensures
        lt == note_key_lt(a@, b@),
{
    a.block_number < b.block_number || (a.block_number == b.block_number && a.commitment
        < b.commitment)
}

/// The position in a sorted vector at which the note belongs.
#[verifier::loop_isolation(false)]
fn insert_pos(out: &Vec<FeeNote>, note: &FeeNote) -> (pos: usize)
    requires
        forall|k: int, l: int| 0 <= k < l < out@.len() ==> note_key_lt(out@[k]@, out@[l]@),
    ensures
        pos <= out@.len(),
        forall|k: int| 0 <= k < pos ==> note_key_lt(out@[k]@, note@),
        pos < out@.len() ==> !note_key_lt(out@[pos as int]@, note@),
{
    let mut pos: usize = 0;
    while pos < out.len()
        invariant
            pos <= out@.len(),
            forall|k: int| 0 <= k < pos ==> note_key_lt(out@[k]@, note@),
        decreases out@.len() - pos,
    {
        if !note_lt(&out[pos], note) {
            return pos;
        }
        pos = pos + 1;
    }
    pos
}

impl NoteStore {
    /// The chain's notes in the selected status, in ascending
    /// `(block_number, commitment)` order.
    #[verifier::loop_isolation(false)]
    fn list_by_status(&self, chain_id: u64, want_pending: bool) -> (out: Vec<FeeNote>)
        requires
            self.wf(),
        ensures
            forall|k: int|
                0 <= k < out@.len() ==> listed(#[trigger] out@[k]@, chain_id, want_pending)
                    && self.note_map().dom().contains(out@[k]@.commitment)
                    && self.note_map()[out@[k]@.commitment] == out@[k]@,
            forall|k: int, l: int| 0 <= k < l < out@.len() ==> note_key_lt(out@[k]@, out@[l]@),
            forall|c: u128| #[trigger]
                self.note_map().dom().contains(c) && listed(
                    self.note_map()[c],
                    chain_id,
                    want_pending,
                ) ==> has_commitment(note_views(out@), c),
    {
        proof {
            lemma_map_of_dom(self.notes_view());
            lemma_map_of_values(self.notes_view());
        }
        let ghost s = self.notes_view();
        let mut out: Vec<FeeNote> = Vec::new();
        let mut i: usize = 0;
        while i < self.notes.len()
            invariant
                i <= s.len(),
                forall|k: int|
                    0 <= k < out@.len() ==> exists|l: int|
                        0 <= l < i && s[l] == #[trigger] out@[k]@,
                forall|k: int|
                    0 <= k < out@.len() ==> listed(#[trigger] out@[k]@, chain_id, want_pending),
                forall|k: int, l: int| 0 <= k < l < out@.len() ==> note_key_lt(out@[k]@, out@[l]@),
                forall|l: int|
                    0 <= l < i && listed(#[trigger] s[l], chain_id, want_pending)
                        ==> has_commitment(note_views(out@), s[l].commitment),
            decreases s.len() - i,
        {
            let n = &self.notes[i];
            let keep = match &n.status {
                crate::notes::NoteStatus::Indexed => !want_pending,
                crate::notes::NoteStatus::Pending => want_pending,
                _ => false,
            };
            if n.chain_id == chain_id && keep {
                let note = copy_note(n);
                let ghost prev = out@;
                let pos = insert_pos(&out, &note);
                out.insert(pos, note);
                proof {
                    prev.insert_ensures(pos as int, note);
                    assert(s[i as int] == note@);
                    // the new note's commitment differs from every element already placed
                    assert forall|k: int| 0 <= k < prev.len() implies prev[k]@.commitment
                        != note@.commitment by {
                        let l = choose|l: int| 0 <= l < i && s[l] == prev[k]@;
                        assert(s[l].commitment != s[i as int].commitment);
                    }
                    assert forall|k: int, l: int|
                        0 <= k < l < out@.len() implies note_key_lt(out@[k]@, out@[l]@) by {
                        if k == pos as int {
                            // note precedes everything at and after pos
                            assert(prev[l - 1]@.commitment != note@.commitment);
                            if l - 1 > pos as int {
                                assert(note_key_lt(prev[pos as int]@, prev[l - 1]@));
                            }
                        } else if l == pos as int {
                            assert(note_key_lt(prev[k]@, note@));
                        } else if k < pos as int && l > pos as int {
                            assert(note_key_lt(prev[k]@, note@));
                            assert(prev[l - 1]@.commitment != note@.commitment);
                        }
                    }
                    assert forall|k: int| 0 <= k < out@.len() implies exists|l: int|
                        0 <= l < i + 1 && s[l] == #[trigger] out@[k]@ by {
                        if k == pos as int {
                            assert(s[i as int] == out@[k]@);
                        } else if k < pos as int {
                            assert(out@[k]@ == prev[k]@);
                        } else {
                            assert(out@[k]@ == prev[k - 1]@);
                        }
                    }
                    assert forall|l: int|
                        0 <= l < i + 1 && listed(
                        #[trigger] s[l],
                        chain_id,
                        want_pending,
                    ) implies has_commitment(note_views(out@), s[l].commitment) by {
                        if l == i as int {
                            assert(note_views(out@)[pos as int].commitment == s[l].commitment);
                        } else {
                            let k = choose|k: int|
                                0 <= k < note_views(prev).len() && note_views(prev)[k].commitment
                                    == s[l].commitment;
                            if k < pos as int {
                                assert(note_views(out@)[k].commitment == s[l].commitment);
                            } else {
                                assert(out@[k + 1]@ == prev[k]@);
                                assert(note_views(out@)[k + 1].commitment == s[l].commitment);
                            }
                        }
                    }
                }
            } else {
                proof {
                    assert(!listed(s[i as int], chain_id, want_pending));
                }
            }
            i = i + 1;
        }
        proof {
            assert forall|c: u128| #[trigger]
                self.note_map().dom().contains(c) && listed(
                    self.note_map()[c],
                    chain_id,
                    want_pending,
                ) implies has_commitment(note_views(out@), c) by {
                let l = choose|l: int| 0 <= l < s.len() && s[l].commitment == c;
                assert(self.note_map()[c] == s[l]);
            }
            assert forall|k: int| 0 <= k < out@.len() implies listed(
                #[trigger] out@[k]@,
                chain_id,
                want_pending,
            ) && self.note_map().dom().contains(out@[k]@.commitment) && self.note_map()[out@[k]@.commitment]
                == out@[k]@ by {
                let l = choose|l: int| 0 <= l < s.len() && s[l] == out@[k]@;
                assert(s[l].commitment == out@[k]@.commitment);
                assert(has_commitment(s, out@[k]@.commitment));
                assert(self.note_map()[s[l].commitment] == s[l]);
            }
        }
        out
    }

    /// All `Indexed` notes of the chain, in ascending `(block_number,
    /// commitment)` order, for a deterministic processing order.
    pub fn list_redeemable(&self, chain_id: u64) -> (out: Vec<FeeNote>)
        requires
            self.wf(),
        ensures
            forall|k: int|
                0 <= k < out@.len() ==> redeemable(#[trigger] out@[k]@, chain_id)
                    && self.note_map().dom().contains(out@[k]@.commitment)
                    && self.note_map()[out@[k]@.commitment] == out@[k]@,
            forall|k: int, l: int| 0 <= k < l < out@.len() ==> note_key_lt(out@[k]@, out@[l]@),
            forall|c: u128| #[trigger]
                self.note_map().dom().contains(c) && redeemable(self.note_map()[c], chain_id)
                    ==> has_commitment(note_views(out@), c),
    {
        let out = self.list_by_status(chain_id, false);
        proof {
            assert forall|k: int| 0 <= k < out@.len() implies redeemable(
                #[trigger] out@[k]@,
                chain_id,
            ) by {
                assert(listed(out@[k]@, chain_id, false));
            }
            assert forall|c: u128| #[trigger]
                self.note_map().dom().contains(c) && redeemable(
                    self.note_map()[c],
                    chain_id,
                ) implies has_commitment(note_views(out@), c) by {
                assert(listed(self.note_map()[c], chain_id, false));
            }
        }
        out
    }

    /// All `Pending` notes of the chain, in ascending `(block_number,
    /// commitment)` order: the notes an interrupted run left in flight,
    /// each with its recorded task, so that the next run reconciles them —
    /// re-polls or retries — rather than resubmitting blindly.
    pub fn list_pending(&self, chain_id: u64) -> (out: Vec<FeeNote>)
        requires
            self.wf(),
        ensures
            forall|k: int|
                0 <= k < out@.len() ==> pending_note(#[trigger] out@[k]@, chain_id)
                    && self.note_map().dom().contains(out@[k]@.commitment)
                    && self.note_map()[out@[k]@.commitment] == out@[k]@,
            forall|k: int, l: int| 0 <= k < l < out@.len() ==> note_key_lt(out@[k]@, out@[l]@),
            forall|c: u128| #[trigger]
                self.note_map().dom().contains(c) && pending_note(self.note_map()[c], chain_id)
                    ==> has_commitment(note_views(out@), c),
    {
        let out = self.list_by_status(chain_id, true);
        proof {
            assert forall|k: int| 0 <= k < out@.len() implies pending_note(
                #[trigger] out@[k]@,
                chain_id,
            ) by {
                assert(listed(out@[k]@, chain_id, true));
            }
            assert forall|c: u128| #[trigger]
                self.note_map().dom().contains(c) && pending_note(
                    self.note_map()[c],
                    chain_id,
                ) implies has_commitment(note_views(out@), c) by {
                assert(listed(self.note_map()[c], chain_id, true));
            }
        }
        out
    }
}

} // verus!
