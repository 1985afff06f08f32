use vstd::prelude::*;

verus! {

/// Block at which ingestion starts when nothing has been persisted yet.
pub const GENESIS_BLOCK: u64 = 4164120;

/// The block from which the next run fetches, given the highest block already
/// persisted (`None` when the store is empty or could not be read).
pub open spec fn resume_spec(latest: Option<u64>) -> int {
    match latest {
        Some(m) => m + 1,
        None => GENESIS_BLOCK as int,
    }
}

/// Next fetch window start: one past the watermark, or the genesis block.
pub fn resume_block(latest: Option<u64>) -> (r: u64)
    requires
        latest != Some(u64::MAX),
    ensures
        r == resume_spec(latest),
{
    match latest {
        Some(m) => m + 1,
        None => GENESIS_BLOCK,
    }
}

/// Highest of the persisted block numbers; `None` for an empty store.
pub open spec fn max_block(blocks: Seq<u64>) -> Option<u64>
    decreases blocks.len(),
{
    if blocks.len() == 0 {
        None
    } else {
        match max_block(blocks.drop_last()) {
            Some(m) => Some(if m >= blocks.last() { m } else { blocks.last() }),
            None => Some(blocks.last()),
        }
    }
}

proof fn lemma_max_block_bounds(blocks: Seq<u64>)
    ensures
        blocks.len() == 0 <==> max_block(blocks) is None,
        max_block(blocks) matches Some(m) ==> (forall|i: int|
            0 <= i < blocks.len() ==> #[trigger] blocks[i] <= m) && (exists|i: int|
            0 <= i < blocks.len() && #[trigger] blocks[i] == m),
    decreases blocks.len(),
{
    if blocks.len() > 0 {
        let rest = blocks.drop_last();
        lemma_max_block_bounds(rest);
        assert forall|i: int| 0 <= i < rest.len() implies #[trigger] blocks[i] == rest[i] by {}
        if let Some(m) = max_block(blocks) {
            if m == blocks.last() {
                assert(blocks[blocks.len() - 1] == m);
            } else {
                let k = choose|k: int| 0 <= k < rest.len() && #[trigger] rest[k] == m;
                assert(blocks[k] == m);
            }
        }
    }
}

/// For any set of persisted block numbers, the next run resumes one past the
/// highest of them, so that it neither skips a block nor fetches a persisted
/// one again; with nothing persisted it starts at the genesis block.
pub proof fn lemma_resume_after_watermark(blocks: Seq<u64>)
    requires
        max_block(blocks) != Some(u64::MAX),
    ensures
        blocks.len() == 0 ==> resume_spec(max_block(blocks)) == GENESIS_BLOCK,
        blocks.len() > 0 ==> exists|i: int|
            0 <= i < blocks.len() && resume_spec(max_block(blocks)) == #[trigger] blocks[i] + 1,
        forall|i: int| 0 <= i < blocks.len() ==> #[trigger] blocks[i] < resume_spec(max_block(blocks)),
{
    lemma_max_block_bounds(blocks);
}

} // verus!
