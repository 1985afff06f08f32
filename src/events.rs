use vstd::prelude::*;

verus! {

/// Destination-chain tag given to every record until transaction payloads are
/// decoded.
pub const PLACEHOLDER_CHAIN: u32 = 1000;

/// A token transfer as reported by the event source, with each field in the
/// plain form the pipeline reads.
pub struct TransferEvent {
    /// The twenty bytes of the sender's address.
    pub sender: [u8; 20],
    /// Contract address, as canonical lower-case hex.
    pub contract: String,
    pub tx_hash: String,
    pub value: u128,
    /// Block number; `None` when the source gave none.
    pub block_number: Option<u64>,
    /// Block time, seconds since the epoch, as the source wrote it.
    pub timestamp: String,
    pub token_name: String,
    pub token_symbol: String,
    /// Decimal precision, as the source wrote it.
    pub token_decimal: String,
}

/// A transfer as it is persisted (its USD value is kept beside it by the caller).
pub struct TransferRecord {
    pub tx_hash: String,
    pub token_addr: String,
    pub token_count: u128,
    pub block_num: u64,
    pub timestamp: String,
    pub to_chain: u32,
}

/// A transfer whose sender is the zero address: a mint or inbound bridge
/// transfer, the only kind the pipeline keeps.
pub open spec fn is_mint(e: TransferEvent) -> bool {
    forall|i: int| 0 <= i < 20 ==> #[trigger] e.sender@[i] == 0u8
}

/// The record kept for an event.
pub open spec fn record_of(e: TransferEvent) -> TransferRecord {
    TransferRecord {
        tx_hash: e.tx_hash,
        token_addr: e.contract,
        token_count: e.value,
        block_num: match e.block_number {
            Some(b) => b,
            None => 0,
        },
        timestamp: e.timestamp,
        to_chain: PLACEHOLDER_CHAIN,
    }
}

/// The records of the mint events of `evs`, in their order.
pub open spec fn mint_records(evs: Seq<TransferEvent>) -> Seq<TransferRecord>
    decreases evs.len(),
{
    if evs.len() == 0 {
        Seq::empty()
    } else if is_mint(evs.last()) {
        mint_records(evs.drop_last()).push(record_of(evs.last()))
    } else {
        mint_records(evs.drop_last())
    }
}

/// Whether every byte of the sender address is zero.
pub fn sender_is_zero(e: &TransferEvent) -> (r: bool)
    ensures
        r == is_mint(*e),
{
    let mut i: usize = 0;
    while i < 20
        invariant
            i <= 20,
            forall|k: int| 0 <= k < i ==> #[trigger] e.sender@[k] == 0u8,
        decreases 20 - i,
    {
        if e.sender[i] != 0 {
            return false;
        }
        i = i + 1;
    }
    true
}

/// The record for one event.
pub fn to_record(e: &TransferEvent) -> (r: TransferRecord)
    ensures
        r == record_of(*e),
{
    TransferRecord {
        tx_hash: e.tx_hash.clone(),
        token_addr: e.contract.clone(),
        token_count: e.value,
        block_num: match e.block_number {
            Some(b) => b,
            None => 0,
        },
        timestamp: e.timestamp.clone(),
        to_chain: PLACEHOLDER_CHAIN,
    }
}

/// Keeps the mint events, in order, as records; all other events are dropped.
pub fn build_records(events: &Vec<TransferEvent>) -> (r: Vec<TransferRecord>)
    ensures
        r@ == mint_records(events@),
{
    let mut out: Vec<TransferRecord> = Vec::new();
    let mut i: usize = 0;
    while i < events.len()
        invariant
            i <= events.len(),
            out@ == mint_records(events@.take(i as int)),
        decreases events.len() - i,
    {
        assert(events@.take(i as int + 1).drop_last() == events@.take(i as int));
        if sender_is_zero(&events[i]) {
            out.push(to_record(&events[i]));
        }
        i = i + 1;
    }
    assert(events@.take(events.len() as int) == events@);
    out
}

/// No record is made from an event whose sender is not the zero address:
/// each record is that of some mint event.
pub proof fn lemma_only_mints_recorded(evs: Seq<TransferEvent>)
    ensures
        forall|i: int|
            0 <= i < mint_records(evs).len() ==> exists|k: int|
                0 <= k < evs.len() && is_mint(#[trigger] evs[k]) && #[trigger] mint_records(evs)[i]
                    == record_of(evs[k]),
    decreases evs.len(),
{
    if evs.len() > 0 {
        let rest = evs.drop_last();
        lemma_only_mints_recorded(rest);
        assert forall|i: int| 0 <= i < mint_records(evs).len() implies exists|k: int|
            0 <= k < evs.len() && is_mint(#[trigger] evs[k]) && #[trigger] mint_records(evs)[i]
                == record_of(evs[k]) by {
            if i < mint_records(rest).len() {
                let k = choose|k: int|
                    0 <= k < rest.len() && is_mint(#[trigger] rest[k]) && #[trigger] mint_records(rest)[i]
                        == record_of(rest[k]);
                assert(evs[k] == rest[k]);
            } else {
                assert(evs[evs.len() - 1] == evs.last());
            }
        }
    }
}

} // verus!
