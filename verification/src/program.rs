//! The program escrow contract.
//!
//! [`ProgramEscrowContract`] books one prize pool for one program: funds
//! are locked cumulatively, and an authorised payout key distributes
//! them in single or batch payouts, each recorded in an append-only
//! history.  The asset transfers themselves are the host's work; this
//! ledger keeps the books, and its invariant ties the remaining balance
//! to the payout history exactly.

use vstd::prelude::*;

verus! {

/// Record of one executed payout.
#[derive(Clone, Copy, Debug, PartialEq, Eq, Structural)]
pub struct PayoutRecord {
    /// Account that received the payout.
    pub recipient: u64,
    /// Amount transferred; always positive.
    pub amount: i128,
    /// Clock reading when the payout was executed.
    pub timestamp: u64,
}

/// Complete program state, as handed back to callers.
#[derive(Clone, Debug)]
pub struct ProgramData {
    /// Identifier of the program.
    pub program_id: String,
    /// Total funds locked so far, cumulatively.
    pub total_funds: i128,
    /// Funds still available for payouts.
    pub remaining_balance: i128,
    /// The only account allowed to trigger payouts.
    pub authorized_payout_key: u64,
    /// Every payout executed, in order.
    pub payout_history: Vec<PayoutRecord>,
    /// The token contract the host settles transfers in.
    pub token_address: u64,
}

/// Abstract view of a program's state.
#[verifier::ext_equal]
pub struct ProgramModel {
    /// Identifier of the program.
    pub program_id: Seq<char>,
    /// Total funds locked so far.
    pub total_funds: i128,
    /// Funds still available for payouts.
    pub remaining_balance: i128,
    /// The only account allowed to trigger payouts.
    pub authorized_payout_key: u64,
    /// Every payout executed, in order.
    pub payout_history: Seq<PayoutRecord>,
    /// The token contract the host settles transfers in.
    pub token_address: u64,
}

impl View for ProgramData {
    type V = ProgramModel;

    open spec fn view(&self) -> ProgramModel {
        ProgramModel {
            program_id: self.program_id@,
            total_funds: self.total_funds,
            remaining_balance: self.remaining_balance,
            authorized_payout_key: self.authorized_payout_key,
            payout_history: self.payout_history@,
            token_address: self.token_address,
        }
    }
}

/// Why a program escrow operation was refused.
#[derive(Clone, Copy, Debug, PartialEq, Eq, Structural)]
pub enum ProgramError {
    /// `init_program` on a program that already exists.
    AlreadyInitialized,
    /// Any other operation before `init_program`.
    NotInitialized,
    /// A payout triggered by an account other than the authorised key.
    Unauthorized,
    /// A zero or negative amount.
    InvalidAmount,
    /// Batch recipients and amounts of different lengths.
    LengthMismatch,
    /// An empty batch.
    EmptyBatch,
    /// A total that would leave the representable range.
    Overflow,
    /// A payout above the remaining balance.
    InsufficientBalance,
}

// ---------------------------------------------------------------------------
// Spec-level bookkeeping
// ---------------------------------------------------------------------------

/// Sum of the amounts of a payout history.
pub open spec fn sum_payouts(s: Seq<PayoutRecord>) -> int
    decreases s.len(),
{
    if s.len() == 0 {
        0
    } else {
        sum_payouts(s.drop_last()) + s.last().amount
    }
}

/// Appending a payout record adds its amount to the history sum.
pub proof fn lemma_sum_payouts_push(s: Seq<PayoutRecord>, r: PayoutRecord)
    ensures
        sum_payouts(s.push(r)) == sum_payouts(s) + r.amount,
{
    assert(s.push(r).drop_last() =~= s);
}

/// Sum of the first `n` amounts of a batch.
pub open spec fn sum_prefix(amounts: Seq<i128>, n: int) -> int
    decreases n,
{
    if n <= 0 {
        0
    } else {
        sum_prefix(amounts, n - 1) + amounts[n - 1]
    }
}

/// Scanning a batch of amounts front to back with accumulator `acc`:
/// the first non-positive amount rejects the batch, a total past
/// `i128::MAX` rejects it, and otherwise the total comes back.
pub open spec fn batch_total_from(amounts: Seq<i128>, acc: int) -> Result<int, ProgramError>
    decreases amounts.len(),
{
    if amounts.len() == 0 {
        Ok(acc)
    } else if amounts.first() <= 0 {
        Err(ProgramError::InvalidAmount)
    } else if acc + amounts.first() > i128::MAX {
        Err(ProgramError::Overflow)
    } else {
        batch_total_from(amounts.drop_first(), acc + amounts.first())
    }
}

/// Well-formedness of a program's books: the remaining balance never
/// exceeds the locked total, and the payout history accounts exactly
/// for the difference.
pub open spec fn program_wf(pm: ProgramModel) -> bool {
    &&& pm.total_funds >= 0
    &&& 0 <= pm.remaining_balance <= pm.total_funds
    &&& sum_payouts(pm.payout_history) == pm.total_funds - pm.remaining_balance
    &&& forall|k: int| 0 <= k < pm.payout_history.len() ==> (#[trigger] pm.payout_history[k]).amount
        > 0
}

// ---------------------------------------------------------------------------
// Transitions
// ---------------------------------------------------------------------------

/// Creating the program; fails when one exists already.
pub open spec fn spec_init_program(
    cur: Option<ProgramModel>,
    program_id: Seq<char>,
    authorized_payout_key: u64,
    token_address: u64,
) -> (Option<ProgramModel>, Result<ProgramModel, ProgramError>) {
    match cur {
        Some(_) => (cur, Err(ProgramError::AlreadyInitialized)),
        None => {
            let pm = ProgramModel {
                program_id,
                total_funds: 0,
                remaining_balance: 0,
                authorized_payout_key,
                payout_history: Seq::empty(),
                token_address,
            };
            (Some(pm), Ok(pm))
        },
    }
}

/// Recording `amount` freshly locked tokens; cumulative.
pub open spec fn spec_lock_program_funds(cur: Option<ProgramModel>, amount: i128) -> (
    Option<ProgramModel>,
    Result<ProgramModel, ProgramError>,
) {
    if amount <= 0 {
        (cur, Err(ProgramError::InvalidAmount))
    } else {
        match cur {
            None => (cur, Err(ProgramError::NotInitialized)),
            Some(pm) => {
                if pm.total_funds + amount > i128::MAX {
                    (cur, Err(ProgramError::Overflow))
                } else {
                    let pm2 = ProgramModel {
                        total_funds: (pm.total_funds + amount) as i128,
                        remaining_balance: (pm.remaining_balance + amount) as i128,
                        ..pm
                    };
                    (Some(pm2), Ok(pm2))
                }
            },
        }
    }
}

/// Paying `amount` to `recipient` once, authorised by `caller`.
pub open spec fn spec_single_payout(
    cur: Option<ProgramModel>,
    caller: u64,
    recipient: u64,
    amount: i128,
    now: u64,
) -> (Option<ProgramModel>, Result<ProgramModel, ProgramError>) {
    match cur {
        None => (cur, Err(ProgramError::NotInitialized)),
        Some(pm) => {
            if caller != pm.authorized_payout_key {
                (cur, Err(ProgramError::Unauthorized))
            } else if amount <= 0 {
                (cur, Err(ProgramError::InvalidAmount))
            } else if amount > pm.remaining_balance {
                (cur, Err(ProgramError::InsufficientBalance))
            } else {
                let record = PayoutRecord { recipient, amount, timestamp: now };
                let pm2 = ProgramModel {
                    remaining_balance: (pm.remaining_balance - amount) as i128,
                    payout_history: pm.payout_history.push(record),
                    ..pm
                };
                (Some(pm2), Ok(pm2))
            }
        },
    }
}

/// The records a batch payout appends, in order.
pub open spec fn batch_records(recipients: Seq<u64>, amounts: Seq<i128>, now: u64) -> Seq<
    PayoutRecord,
> {
    Seq::new(
        recipients.len(),
        |k: int| PayoutRecord { recipient: recipients[k], amount: amounts[k], timestamp: now },
    )
}

/// Paying a whole batch atomically, authorised by `caller`: every
/// transfer is validated before any is recorded.
pub open spec fn spec_batch_payout(
    cur: Option<ProgramModel>,
    caller: u64,
    recipients: Seq<u64>,
    amounts: Seq<i128>,
    now: u64,
) -> (Option<ProgramModel>, Result<ProgramModel, ProgramError>) {
    match cur {
        None => (cur, Err(ProgramError::NotInitialized)),
        Some(pm) => {
            if caller != pm.authorized_payout_key {
                (cur, Err(ProgramError::Unauthorized))
            } else if recipients.len() != amounts.len() {
                (cur, Err(ProgramError::LengthMismatch))
            } else if recipients.len() == 0 {
                (cur, Err(ProgramError::EmptyBatch))
            } else {
                match batch_total_from(amounts, 0) {
                    Err(e) => (cur, Err(e)),
                    Ok(total) => {
                        if total > pm.remaining_balance {
                            (cur, Err(ProgramError::InsufficientBalance))
                        } else {
                            let pm2 = ProgramModel {
                                remaining_balance: (pm.remaining_balance - total) as i128,
                                payout_history: pm.payout_history + batch_records(
                                    recipients,
                                    amounts,
                                    now,
                                ),
                                ..pm
                            };
                            (Some(pm2), Ok(pm2))
                        }
                    },
                }
            }
        },
    }
}

// ---------------------------------------------------------------------------
// Executable contract
// ---------------------------------------------------------------------------

/// Copies a payout history.
fn clone_history(v: &Vec<PayoutRecord>) -> (r: Vec<PayoutRecord>)
    ensures
        r@ == v@,
{
    let mut r: Vec<PayoutRecord> = Vec::new();
    let mut i: usize = 0;
    while i < v.len()
        invariant
            i <= v@.len(),
            r@ == v@.subrange(0, i as int),
        decreases v@.len() - i,
    {
        r.push(v[i]);
        proof {
            assert(r@ =~= v@.subrange(0, i as int + 1));
        }
        i = i + 1;
    }
    proof {
        assert(v@.subrange(0, v@.len() as int) =~= v@);
    }
    r
}

/// One program's prize pool.
///
/// The state starts absent; `init_program` creates it once, and every
/// later operation is specified against the spec transitions above.
pub struct ProgramEscrowContract {
    initialized: bool,
    program_id: String,
    total_funds: i128,
    remaining_balance: i128,
    authorized_payout_key: u64,
    payout_history: Vec<PayoutRecord>,
    token_address: u64,
}

impl View for ProgramEscrowContract {
    type V = Option<ProgramModel>;

    closed spec fn view(&self) -> Option<ProgramModel> {
        if self.initialized {
            Some(
                ProgramModel {
                    program_id: self.program_id@,
                    total_funds: self.total_funds,
                    remaining_balance: self.remaining_balance,
                    authorized_payout_key: self.authorized_payout_key,
                    payout_history: self.payout_history@,
                    token_address: self.token_address,
                },
            )
        } else {
            None
        }
    }
}

impl ProgramEscrowContract {
    /// The books are well formed; established by `new` and kept by
    /// every operation.
    pub open spec fn wf(&self) -> bool {
        match self@ {
            Some(pm) => program_wf(pm),
            None => true,
        }
    }

    /// A contract with no program yet.
    pub fn new() -> (c: Self)
        ensures
            c@ is None,
            c.wf(),
    {
        ProgramEscrowContract {
            initialized: false,
            program_id: String::new(),
            total_funds: 0,
            remaining_balance: 0,
            authorized_payout_key: 0,
            payout_history: Vec::new(),
            token_address: 0,
        }
    }

    /// A copy of the program state, for callers.
    fn snapshot(&self) -> (d: ProgramData)
        requires
            self@ is Some,
        ensures
            self@ == Some(d@),
    {
        let d = ProgramData {
            program_id: self.program_id.clone(),
            total_funds: self.total_funds,
            remaining_balance: self.remaining_balance,
            authorized_payout_key: self.authorized_payout_key,
            payout_history: clone_history(&self.payout_history),
            token_address: self.token_address,
        };
        proof {
            assert(d@ =~~= self@->0);
        }
        d
    }

    /// Creates the program with zero balances and an empty history;
    /// single use.
    pub fn init_program(
        &mut self,
        program_id: String,
        authorized_payout_key: u64,
        token_address: u64,
    ) -> (r: Result<ProgramData, ProgramError>)
        requires
            old(self).wf(),
        ensures
            final(self).wf(),
            ({
                let (m2, res) = spec_init_program(
                    old(self)@,
                    program_id@,
                    authorized_payout_key,
                    token_address,
                );
                final(self)@ == m2 && returns_model(r, res)
            }),
    {
        if self.initialized {
            return Err(ProgramError::AlreadyInitialized);
        }
        self.initialized = true;
        self.program_id = program_id;
        self.total_funds = 0;
        self.remaining_balance = 0;
        self.authorized_payout_key = authorized_payout_key;
        self.payout_history = Vec::new();
        self.token_address = token_address;
        let d = self.snapshot();
        proof {
            assert(self@->0 =~~= spec_init_program(
                old(self)@,
                program_id@,
                authorized_payout_key,
                token_address,
            ).0->0);
        }
        Ok(d)
    }

    /// Records `amount` freshly locked tokens; the host must already
    /// have moved them to the program's account.
    pub fn lock_program_funds(&mut self, amount: i128) -> (r: Result<ProgramData, ProgramError>)
        requires
            old(self).wf(),
        ensures
            final(self).wf(),
            ({
                let (m2, res) = spec_lock_program_funds(old(self)@, amount);
                final(self)@ == m2 && returns_model(r, res)
            }),
    {
        if amount <= 0 {
            return Err(ProgramError::InvalidAmount);
        }
        if !self.initialized {
            return Err(ProgramError::NotInitialized);
        }
        if amount > i128::MAX - self.total_funds {
            return Err(ProgramError::Overflow);
        }
        self.total_funds = self.total_funds + amount;
        self.remaining_balance = self.remaining_balance + amount;
        let d = self.snapshot();
        proof {
            assert(self@->0 =~~= spec_lock_program_funds(old(self)@, amount).0->0);
        }
        Ok(d)
    }

    /// Pays `amount` to `recipient` once; only the authorised payout
    /// key may call.
    pub fn single_payout(&mut self, caller: u64, recipient: u64, amount: i128, now: u64) -> (r:
        Result<ProgramData, ProgramError>)
        requires
            old(self).wf(),
        ensures
            final(self).wf(),
            ({
                let (m2, res) = spec_single_payout(old(self)@, caller, recipient, amount, now);
                final(self)@ == m2 && returns_model(r, res)
            }),
    {
        if !self.initialized {
            return Err(ProgramError::NotInitialized);
        }
        if caller != self.authorized_payout_key {
            return Err(ProgramError::Unauthorized);
        }
        if amount <= 0 {
            return Err(ProgramError::InvalidAmount);
        }
        if amount > self.remaining_balance {
            return Err(ProgramError::InsufficientBalance);
        }
        let record = PayoutRecord { recipient, amount, timestamp: now };
        proof {
            lemma_sum_payouts_push(self@->0.payout_history, record);
        }
        self.payout_history.push(record);
        self.remaining_balance = self.remaining_balance - amount;
        let d = self.snapshot();
        proof {
            assert(self@->0 =~~= spec_single_payout(
                old(self)@,
                caller,
                recipient,
                amount,
                now,
            ).0->0);
        }
        Ok(d)
    }

    /// Pays a whole batch atomically; recipients and amounts pair up by
    /// position, and every amount is validated before any payout is
    /// recorded.  Only the authorised payout key may call.
    pub fn batch_payout(
        &mut self,
        caller: u64,
        recipients: &Vec<u64>,
        amounts: &Vec<i128>,
        now: u64,
    ) -> (r: Result<ProgramData, ProgramError>)
        requires
            old(self).wf(),
        ensures
            final(self).wf(),
            ({
                let (m2, res) = spec_batch_payout(old(self)@, caller, recipients@, amounts@, now);
                final(self)@ == m2 && returns_model(r, res)
            }),
    {
        if !self.initialized {
            return Err(ProgramError::NotInitialized);
        }
        if caller != self.authorized_payout_key {
            return Err(ProgramError::Unauthorized);
        }
        if recipients.len() != amounts.len() {
            return Err(ProgramError::LengthMismatch);
        }
        if recipients.len() == 0 {
            return Err(ProgramError::EmptyBatch);
        }
        let mut total: i128 = 0;
        let mut k: usize = 0;
        proof {
            assert(amounts@.skip(0) =~= amounts@);
        }
        while k < amounts.len()
            invariant
                *self == *old(self),
                old(self).wf(),
                self.initialized,
                caller == self.authorized_payout_key,
                recipients@.len() == amounts@.len(),
                recipients@.len() > 0,
                k <= amounts@.len(),
                0 <= total,
                total == sum_prefix(amounts@, k as int),
                forall|x: int| 0 <= x < k ==> amounts@[x] > 0,
                batch_total_from(amounts@, 0) == batch_total_from(
                    amounts@.skip(k as int),
                    total as int,
                ),
            decreases amounts@.len() - k,
        {
            let a = amounts[k];
            proof {
                assert(amounts@.skip(k as int).first() == amounts@[k as int]);
                assert(amounts@.skip(k as int).drop_first() =~= amounts@.skip(k as int + 1));
            }
            if a <= 0 {
                return Err(ProgramError::InvalidAmount);
            }
            if a > i128::MAX - total {
                return Err(ProgramError::Overflow);
            }
            total = total + a;
            k = k + 1;
        }
        proof {
            assert(amounts@.skip(amounts@.len() as int) =~= Seq::<i128>::empty());
            assert(batch_total_from(amounts@, 0) == Ok::<int, ProgramError>(total as int));
        }
        if total > self.remaining_balance {
            return Err(ProgramError::InsufficientBalance);
        }
        let ghost old_history = self.payout_history@;
        let mut new_history = clone_history(&self.payout_history);
        let mut j: usize = 0;
        while j < recipients.len()
            invariant
                *self == *old(self),
                old(self).wf(),
                self.initialized,
                old_history == self.payout_history@,
                j <= recipients@.len(),
                recipients@.len() == amounts@.len(),
                new_history@ == old_history + batch_records(recipients@, amounts@, now).subrange(
                    0,
                    j as int,
                ),
                sum_payouts(new_history@) == sum_payouts(old_history) + sum_prefix(
                    amounts@,
                    j as int,
                ),
                forall|x: int| 0 <= x < amounts@.len() ==> amounts@[x] > 0,
            decreases recipients@.len() - j,
        {
            let record = PayoutRecord {
                recipient: recipients[j],
                amount: amounts[j],
                timestamp: now,
            };
            proof {
                lemma_sum_payouts_push(new_history@, record);
                assert(batch_records(recipients@, amounts@, now).subrange(0, j as int + 1)
                    =~= batch_records(recipients@, amounts@, now).subrange(0, j as int).push(
                    record,
                ));
            }
            new_history.push(record);
            proof {
                assert(new_history@ =~= old_history + batch_records(
                    recipients@,
                    amounts@,
                    now,
                ).subrange(0, j as int + 1));
            }
            j = j + 1;
        }
        proof {
            assert(batch_records(recipients@, amounts@, now).subrange(
                0,
                recipients@.len() as int,
            ) =~= batch_records(recipients@, amounts@, now));
        }
        self.payout_history = new_history;
        self.remaining_balance = self.remaining_balance - total;
        let d = self.snapshot();
        proof {
            assert(self@->0 =~~= spec_batch_payout(
                old(self)@,
                caller,
                recipients@,
                amounts@,
                now,
            ).0->0);
        }
        Ok(d)
    }

    /// The complete program state.
    pub fn get_program_info(&self) -> (r: Result<ProgramData, ProgramError>)
        requires
            self.wf(),
        ensures
            match r {
                Ok(d) => self@ == Some(d@),
                Err(e) => self@ is None && e == ProgramError::NotInitialized,
            },
    {
        if !self.initialized {
            return Err(ProgramError::NotInitialized);
        }
        Ok(self.snapshot())
    }

    /// The funds still available for payouts.
    pub fn get_remaining_balance(&self) -> (r: Result<i128, ProgramError>)
        ensures
            match r {
                Ok(b) => self@ is Some && b == self@->0.remaining_balance,
                Err(e) => self@ is None && e == ProgramError::NotInitialized,
            },
    {
        if !self.initialized {
            return Err(ProgramError::NotInitialized);
        }
        Ok(self.remaining_balance)
    }
}

/// The executable result hands back the data whose view the spec
/// transition promised.
pub open spec fn returns_model(
    r: Result<ProgramData, ProgramError>,
    s: Result<ProgramModel, ProgramError>,
) -> bool {
    match (r, s) {
        (Ok(d), Ok(pm)) => d@ == pm,
        (Err(e1), Err(e2)) => e1 == e2,
        _ => false,
    }
}

} // verus!
