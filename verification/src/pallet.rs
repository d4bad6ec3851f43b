//! The batch-transfer operation: one sender pays many receivers in a
//! single call.
//!
//! Three gates run in strict sequence before any balance moves: a fan-out
//! bound on the request list, an overflow-checked summation of the
//! requested amounts, and a whole-batch solvency check against the
//! sender's free balance. Only then are the sub-transfers attempted, in
//! the list's order, each against the ledger's own per-transfer rules.
//!
//! Atomicity is deliberately weak: solvency is checked for the batch as a
//! whole, but each sub-transfer stands alone, and one that the ledger
//! rejects neither aborts the rest nor rolls back those already applied.
//! The call still reports success; the contract states the exact resulting
//! ledger, so the partial outcome is fully specified rather than silent.

use vstd::prelude::*;

use crate::ledger::{apply_transfer, bal_of, transfer_accepted, Ledger};

verus! {

/// The ceiling on how many receivers one batch may name. A pallet may be
/// configured with a smaller bound, never a larger one.
pub const MAX_NUMBER_OF_RECEIVERS: u64 = 50;

/// A request to transfer tokens to an account.
#[derive(Clone, Copy, PartialEq, Eq, Structural, Debug)]
pub struct TokenTransferRequest {
    /// The id of the account receiving the tokens.
    pub receiver_account: u64,
    /// The amount of tokens to be transferred.
    pub token_amount: u64,
}

/// Why a batch was rejected. Every rejection happens before any balance
/// moves.
#[derive(Clone, Copy, PartialEq, Eq, Structural, Debug)]
pub enum Error {
    /// The request list names more receivers than the configured bound.
    TooManyReceivers,
    /// The requested amounts do not sum within the balance type.
    ArithmeticOverflow,
    /// The sender's free balance does not cover the requested total.
    InsufficientBalance,
    /// The ledger refused a withdrawal the solvency arithmetic allowed: a
    /// divergence between the two, checked hard and surfaced rather than
    /// assumed away. For this ledger it is proved never to occur.
    WithdrawalNotPermitted,
}

/// A signal to the caller that a batch passed its gates and was attempted.
#[derive(Clone, Copy, PartialEq, Eq, Structural, Debug)]
pub enum Event {
    /// The one success event, emitted once per accepted batch, with no
    /// per-receiver detail.
    TokensSentToMultipleAccountsSuccessfully(),
}

/// The sum of all requested amounts, as a mathematical integer, so that
/// overflow of the balance type stays visible.
pub open spec fn sum_of_amounts(reqs: Seq<TokenTransferRequest>) -> int
    decreases reqs.len(),
{
    if reqs.len() == 0 {
        0
    } else {
        sum_of_amounts(reqs.drop_last()) + reqs.last().token_amount
    }
}

/// The ledger contents after attempting every request in order, each
/// against the state the previous ones left behind.
pub open spec fn apply_requests(
    m: Map<u64, u64>,
    min: u64,
    sender: u64,
    reqs: Seq<TokenTransferRequest>,
) -> Map<u64, u64>
    decreases reqs.len(),
{
    if reqs.len() == 0 {
        m
    } else {
        apply_requests(
            apply_transfer(m, min, sender, reqs[0].receiver_account, reqs[0].token_amount),
            min,
            sender,
            reqs.drop_first(),
        )
    }
}

/// The sum of the amounts of exactly those sub-transfers the ledger
/// accepts when the requests run in order.
pub open spec fn accepted_total(
    m: Map<u64, u64>,
    min: u64,
    sender: u64,
    reqs: Seq<TokenTransferRequest>,
) -> int
    decreases reqs.len(),
{
    if reqs.len() == 0 {
        0
    } else {
        (if transfer_accepted(m, min, sender, reqs[0].receiver_account, reqs[0].token_amount) {
            reqs[0].token_amount as int
        } else {
            0
        }) + accepted_total(
            apply_transfer(m, min, sender, reqs[0].receiver_account, reqs[0].token_amount),
            min,
            sender,
            reqs.drop_first(),
        )
    }
}

/// Attempting one more request after a batch is the batch followed by that
/// request.
pub proof fn lemma_apply_requests_snoc(
    m: Map<u64, u64>,
    min: u64,
    sender: u64,
    reqs: Seq<TokenTransferRequest>,
    r: TokenTransferRequest,
)
    ensures
        apply_requests(m, min, sender, reqs.push(r)) == apply_transfer(
            apply_requests(m, min, sender, reqs),
            min,
            sender,
            r.receiver_account,
            r.token_amount,
        ),
    decreases reqs.len(),
{
    if reqs.len() == 0 {
        assert(reqs.push(r)[0] == r);
        assert(reqs.push(r).drop_first() =~= Seq::<TokenTransferRequest>::empty());
        let m1 = apply_transfer(m, min, sender, r.receiver_account, r.token_amount);
        assert(apply_requests(m, min, sender, reqs.push(r)) == apply_requests(
            m1,
            min,
            sender,
            reqs.push(r).drop_first(),
        ));
        assert(apply_requests(m1, min, sender, Seq::<TokenTransferRequest>::empty()) == m1);
        assert(apply_requests(m, min, sender, reqs) == m);
    } else {
        assert(reqs.push(r)[0] == reqs[0]);
        assert(reqs.push(r).drop_first() =~= reqs.drop_first().push(r));
        let m1 = apply_transfer(m, min, sender, reqs[0].receiver_account, reqs[0].token_amount);
        assert(apply_requests(m, min, sender, reqs.push(r)) == apply_requests(
            m1,
            min,
            sender,
            reqs.drop_first().push(r),
        ));
        lemma_apply_requests_snoc(m1, min, sender, reqs.drop_first(), r);
        assert(apply_requests(m, min, sender, reqs) == apply_requests(
            m1,
            min,
            sender,
            reqs.drop_first(),
        ));
    }
}

/// Dropping trailing requests cannot raise the sum of amounts.
proof fn lemma_sum_take_le(reqs: Seq<TokenTransferRequest>, i: int)
    requires
        0 <= i <= reqs.len(),
    ensures
        sum_of_amounts(reqs.take(i)) <= sum_of_amounts(reqs),
    decreases reqs.len(),
{
    if i == reqs.len() {
        assert(reqs.take(i) =~= reqs);
    } else {
        assert(reqs.take(i) =~= reqs.drop_last().take(i));
        lemma_sum_take_le(reqs.drop_last(), i);
    }
}

/// One more request adds its amount to the running sum.
proof fn lemma_sum_take_step(reqs: Seq<TokenTransferRequest>, i: int)
    requires
        0 <= i < reqs.len(),
    ensures
        sum_of_amounts(reqs.take(i + 1)) == sum_of_amounts(reqs.take(i))
            + reqs[i].token_amount,
{
    assert(reqs.take(i + 1).drop_last() =~= reqs.take(i));
    assert(reqs.take(i + 1).last() == reqs[i]);
}

/// The requested total, by checked addition: `None` exactly when the sum
/// does not fit in the balance type.
fn checked_total(requests: &Vec<TokenTransferRequest>) -> (r: Option<u64>)
    ensures
        match r {
            Some(t) => t == sum_of_amounts(requests@) && sum_of_amounts(requests@) <= u64::MAX,
            None => sum_of_amounts(requests@) > u64::MAX,
        },
{
    let mut acc: u64 = 0;
    let mut i: usize = 0;
    while i < requests.len()
        invariant
            i <= requests@.len(),
            acc == sum_of_amounts(requests@.take(i as int)),
        decreases requests@.len() - i,
    {
        let amt = requests[i].token_amount;
        proof {
            lemma_sum_take_step(requests@, i as int);
        }
        if amt > u64::MAX - acc {
            proof {
                lemma_sum_take_le(requests@, i + 1);
            }
            return None;
        }
        acc = acc + amt;
        i = i + 1;
    }
    proof {
        assert(requests@.take(requests@.len() as int) =~= requests@);
    }
    Some(acc)
}

/// The batch-transfer operation, configured with its fan-out bound.
pub struct Pallet {
    max_receivers: u64,
}

impl Pallet {
    /// The configured bound respects the ceiling.
    pub closed spec fn wf(&self) -> bool {
        self.max_receivers <= MAX_NUMBER_OF_RECEIVERS
    }

    /// The configured fan-out bound.
    pub closed spec fn spec_max_receivers(&self) -> u64 {
        self.max_receivers
    }

    /// Configure the operation with a fan-out bound of its own, refused
    /// when it exceeds the ceiling.
    pub fn new(max_receivers: u64) -> (r: Option<Pallet>)
        ensures
            match r {
                Some(p) => p.wf() && p.spec_max_receivers() == max_receivers && max_receivers
                    <= MAX_NUMBER_OF_RECEIVERS,
                None => max_receivers > MAX_NUMBER_OF_RECEIVERS,
            },
    {
        if max_receivers > MAX_NUMBER_OF_RECEIVERS {
            None
        } else {
            Some(Pallet { max_receivers })
        }
    }

    /// The configured fan-out bound.
    pub fn max_receivers(&self) -> (r: u64)
        ensures
            r == self.spec_max_receivers(),
    {
        self.max_receivers
    }

    /// Send tokens from `sender` to every receiver named in `requests`, in
    /// their given order, as one batch.
    ///
    /// Three gates run before any balance moves, and each rejection names
    /// its cause: a list longer than the configured bound, a requested
    /// total that does not sum within the balance type, and a total the
    /// sender's free balance does not cover. A batch that passes them is
    /// attempted to the end and reported successful with one event, even
    /// when the ledger rejects individual sub-transfers along the way
    /// (weak atomicity); the resulting ledger is exactly the in-order
    /// application of the requests, so the contract pins the partial
    /// outcome. The caller must already be authenticated; an empty list is
    /// a legal no-op that still emits the event.
    pub fn send_tokens_to_multiple_receivers(
        &self,
        ledger: &mut Ledger,
        events: &mut Vec<Event>,
        sender: u64,
        requests: &Vec<TokenTransferRequest>,
    ) -> (r: Result<(), Error>)
        requires
            old(ledger).wf(),
            self.wf(),
        ensures
            final(ledger).wf(),
            final(ledger).spec_minimum_balance() == old(ledger).spec_minimum_balance(),
            final(ledger).spec_total_issuance() == old(ledger).spec_total_issuance(),
            r == Err::<(), Error>(Error::TooManyReceivers) <==> requests@.len()
                > self.spec_max_receivers(),
            r == Err::<(), Error>(Error::ArithmeticOverflow) <==> requests@.len()
                <= self.spec_max_receivers() && sum_of_amounts(requests@) > u64::MAX,
            r == Err::<(), Error>(Error::InsufficientBalance) <==> requests@.len()
                <= self.spec_max_receivers() && sum_of_amounts(requests@) <= u64::MAX
                && sum_of_amounts(requests@) > bal_of(old(ledger)@, sender),
            r != Err::<(), Error>(Error::WithdrawalNotPermitted),
            r.is_ok() <==> requests@.len() <= self.spec_max_receivers() && sum_of_amounts(
                requests@,
            ) <= u64::MAX && sum_of_amounts(requests@) <= bal_of(old(ledger)@, sender),
            r.is_err() ==> final(ledger)@ == old(ledger)@ && final(events)@ == old(events)@,
            r.is_ok() ==> final(ledger)@ == apply_requests(
                old(ledger)@,
                old(ledger).spec_minimum_balance(),
                sender,
                requests@,
            ),
            r.is_ok() ==> final(events)@ == old(events)@.push(
                Event::TokensSentToMultipleAccountsSuccessfully(),
            ),
    {
        // Request Validator: the fan-out bound, checked before any balance
        // is read.
        if requests.len() as u64 > self.max_receivers {
            return Err(Error::TooManyReceivers);
        }
        // Solvency Checker: total the amounts with checked addition, then
        // hold the sender's fresh free balance against the total.
        let total = match checked_total(requests) {
            Some(t) => t,
            None => {
                return Err(Error::ArithmeticOverflow);
            },
        };
        let free = ledger.free_balance(sender);
        if total > free {
            return Err(Error::InsufficientBalance);
        }
        let new_free = free - total;
        // The ledger's own withdrawal rules must agree with the arithmetic
        // above; a disagreement is surfaced, never assumed away.
        if ledger.ensure_can_withdraw(sender, total, new_free).is_err() {
            return Err(Error::WithdrawalNotPermitted);
        }
        // Transfer Executor: attempt every sub-transfer in order; a
        // rejected one is skipped, the rest still run.
        let ghost m0 = ledger@;
        let ghost min = ledger.spec_minimum_balance();
        let ghost issuance0 = ledger.spec_total_issuance();
        let mut i: usize = 0;
        while i < requests.len()
            invariant
                i <= requests@.len(),
                ledger.wf(),
                ledger.spec_minimum_balance() == min,
                ledger.spec_total_issuance() == issuance0,
                ledger@ == apply_requests(m0, min, sender, requests@.take(i as int)),
            decreases requests@.len() - i,
        {
            let request = requests[i];
            let _ = ledger.transfer(sender, request.receiver_account, request.token_amount);
            proof {
                assert(requests@.take(i + 1) =~= requests@.take(i as int).push(
                    requests@[i as int],
                ));
                lemma_apply_requests_snoc(
                    m0,
                    min,
                    sender,
                    requests@.take(i as int),
                    requests@[i as int],
                );
            }
            i = i + 1;
        }
        proof {
            assert(requests@.take(requests@.len() as int) =~= requests@);
        }
        events.push(Event::TokensSentToMultipleAccountsSuccessfully());
        Ok(())
    }
}

} // verus!
