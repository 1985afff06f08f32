use vstd::prelude::*;
use crate::events::TransferRecord;

verus! {

/// Number of records written by one insert statement.
pub const CHUNK_SIZE: usize = 250;

/// The `[start, end)` ranges that split `n` records into chunks of
/// `CHUNK_SIZE`, the last one possibly shorter.
pub fn chunk_ranges(n: usize) -> (r: Vec<(usize, usize)>)
    ensures
        r.len() == (n + 249) / 250,
        forall|i: int|
            0 <= i < r.len() ==> (#[trigger] r@[i]).0 == i * 250 && r@[i].1 == if i * 250 + 250 <= n {
                i * 250 + 250
            } else {
                n as int
            },
{
    let mut out: Vec<(usize, usize)> = Vec::new();
    let mut start: usize = 0;
    while start < n
        invariant
            start == out.len() * 250,
            start <= n || out.len() == (n + 249) / 250,
            out.len() <= (n + 249) / 250,
            start < n ==> out.len() < (n + 249) / 250,
            forall|i: int|
                0 <= i < out.len() ==> (#[trigger] out@[i]).0 == i * 250 && out@[i].1 == if i * 250 + 250 <= n {
                    i * 250 + 250
                } else {
                    n as int
                },
        decreases n - start,
    {
        let end: usize = if n - start >= CHUNK_SIZE {
            start + CHUNK_SIZE
        } else {
            n
        };
        out.push((start, end));
        proof {
            assert(out.len() * 250 == start + 250);
        }
        if end == n {
            proof {
                assert(out.len() == (n + 249) / 250);
            }
            return out;
        }
        start = end;
    }
    out
}

/// The store's transfer table after inserting `batch` into `store` with
/// insert-if-absent on the transaction hash: a hash already present keeps its
/// record.
pub open spec fn store_after(
    store: Map<Seq<char>, TransferRecord>,
    batch: Seq<TransferRecord>,
) -> Map<Seq<char>, TransferRecord>
    decreases batch.len(),
{
    if batch.len() == 0 {
        store
    } else {
        let m = store_after(store, batch.drop_last());
        let r = batch.last();
        if m.contains_key(r.tx_hash@) {
            m
        } else {
            m.insert(r.tx_hash@, r)
        }
    }
}

proof fn lemma_store_after_holds_batch(store: Map<Seq<char>, TransferRecord>, batch: Seq<TransferRecord>)
    ensures
        forall|i: int| 0 <= i < batch.len() ==> store_after(store, batch).contains_key(#[trigger] batch[i].tx_hash@),
    decreases batch.len(),
{
    if batch.len() > 0 {
        let rest = batch.drop_last();
        lemma_store_after_holds_batch(store, rest);
        assert forall|i: int| 0 <= i < batch.len() implies store_after(store, batch).contains_key(
            #[trigger] batch[i].tx_hash@,
        ) by {
            if i < rest.len() {
                assert(batch[i] == rest[i]);
            }
        }
    }
}

proof fn lemma_store_after_present(store: Map<Seq<char>, TransferRecord>, batch: Seq<TransferRecord>)
    requires
        forall|i: int| 0 <= i < batch.len() ==> store.contains_key(#[trigger] batch[i].tx_hash@),
    ensures
        store_after(store, batch) == store,
    decreases batch.len(),
{
    if batch.len() > 0 {
        let rest = batch.drop_last();
        assert forall|i: int| 0 <= i < rest.len() implies store.contains_key(#[trigger] rest[i].tx_hash@) by {
            assert(rest[i] == batch[i]);
        }
        lemma_store_after_present(store, rest);
        assert(batch.last() == batch[batch.len() - 1]);
    }
}

/// Inserting the same batch a second time leaves the store as the first
/// insertion left it: re-running over an unchanged source adds no duplicates.
pub proof fn lemma_insert_idempotent(store: Map<Seq<char>, TransferRecord>, batch: Seq<TransferRecord>)
    ensures
        store_after(store_after(store, batch), batch) == store_after(store, batch),
{
    lemma_store_after_holds_batch(store, batch);
    lemma_store_after_present(store_after(store, batch), batch);
}

/// Writing a batch as two consecutive parts leaves the store as writing it at
/// once: splitting the records into chunks changes nothing that is stored.
pub proof fn lemma_insert_in_parts(
    store: Map<Seq<char>, TransferRecord>,
    first: Seq<TransferRecord>,
    second: Seq<TransferRecord>,
)
    ensures
        store_after(store_after(store, first), second) == store_after(store, first + second),
    decreases second.len(),
{
    if second.len() == 0 {
        assert(first + second == first);
    } else {
        lemma_insert_in_parts(store, first, second.drop_last());
        assert((first + second).drop_last() == first + second.drop_last());
        assert((first + second).last() == second.last());
    }
}

} // verus!
