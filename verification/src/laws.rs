//! Batch-level laws: what a whole batch does to the sender, and what
//! replaying one does. Both are stated over the same spec functions the
//! operation's own contract uses, so they hold of every call of
//! `Pallet::send_tokens_to_multiple_receivers` that returns success.

use vstd::prelude::*;

use crate::ledger::{apply_transfer, bal_of, transfer_accepted};
use crate::pallet::{accepted_total, apply_requests, TokenTransferRequest};

verus! {

/// After a batch runs, the sender's balance is the starting balance minus
/// the sum of the amounts of exactly those sub-transfers the ledger
/// accepted — not necessarily the full requested total, since a rejected
/// sub-transfer is skipped rather than rolled back. The accepted total
/// never exceeds what the sender held.
pub proof fn lemma_sender_balance_after_batch(
    m: Map<u64, u64>,
    min: u64,
    sender: u64,
    reqs: Seq<TokenTransferRequest>,
)
    ensures
        0 <= accepted_total(m, min, sender, reqs),
        accepted_total(m, min, sender, reqs) <= bal_of(m, sender),
        bal_of(apply_requests(m, min, sender, reqs), sender) == bal_of(m, sender)
            - accepted_total(m, min, sender, reqs),
    decreases reqs.len(),
{
    if reqs.len() > 0 {
        let to = reqs[0].receiver_account;
        let a = reqs[0].token_amount;
        let m1 = apply_transfer(m, min, sender, to, a);
        if transfer_accepted(m, min, sender, to, a) {
            assert(bal_of(m1, sender) == bal_of(m, sender) - a);
        }
        lemma_sender_balance_after_batch(m1, min, sender, reqs.drop_first());
    }
}

/// Replaying an identical batch is not idempotent: the second run applies
/// the state transition again, and the sender pays once more for whatever
/// the ledger accepts the second time. Whenever the second run accepts any
/// sub-transfer of a positive amount, the sender's balance strictly drops
/// again, so the replay is observably not a no-op.
pub proof fn lemma_replayed_batch_compounds(
    m: Map<u64, u64>,
    min: u64,
    sender: u64,
    reqs: Seq<TokenTransferRequest>,
)
    ensures
        bal_of(
            apply_requests(apply_requests(m, min, sender, reqs), min, sender, reqs),
            sender,
        ) == bal_of(m, sender) - accepted_total(m, min, sender, reqs) - accepted_total(
            apply_requests(m, min, sender, reqs),
            min,
            sender,
            reqs,
        ),
        accepted_total(apply_requests(m, min, sender, reqs), min, sender, reqs) > 0 ==> bal_of(
            apply_requests(apply_requests(m, min, sender, reqs), min, sender, reqs),
            sender,
        ) < bal_of(apply_requests(m, min, sender, reqs), sender),
{
    lemma_sender_balance_after_batch(m, min, sender, reqs);
    lemma_sender_balance_after_batch(apply_requests(m, min, sender, reqs), min, sender, reqs);
}

} // verus!
