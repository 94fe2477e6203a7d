//! Accounts-payable obligations, their running subledger and settlement.
use vstd::prelude::*;
use crate::ledger::{journal_line, line_is, is_balanced, total_credit, total_debit, JournalLine};
use crate::standards::{
    PAYROLL_EXPENSE_ACCOUNT, CASH_ACCOUNT, PAYROLL_AP_ACCOUNT, PROCUREMENT_AP_ACCOUNT, SERVICE_DELIVERY_AP_ACCOUNT,
};
use crate::text::text_is;

verus! {

/// Seconds in the default payment terms of an obligation (30 days).
pub const AP_DEFAULT_TERMS_SECONDS: i64 = 2592000;

/// Largest amount an obligation may carry.
pub const MAX_OBLIGATION: i128 = 1000000000000000000000000000000i128;

/// Life cycle of an obligation.
#[derive(Clone, Copy, Debug, PartialEq, Eq, Structural)]
pub enum ObligationStatus {
    Open,
    Settled,
    Cancelled,
}

/// Kind of subledger entry.
#[derive(Clone, Copy, Debug, PartialEq, Eq, Structural)]
pub enum SubledgerEntryKind {
    ObligationRecognized,
    PaymentPosted,
}

/// One append-only subledger entry with the balance it leaves.
#[derive(Clone, Copy, Debug, PartialEq, Eq, Structural)]
pub struct SubledgerEntry {
    pub kind: SubledgerEntryKind,
    pub debit: i128,
    pub credit: i128,
    pub balance_after: i128,
    pub posted_at: i64,
}

/// An amount owed to a counterparty, with its subledger.
pub struct ApObligation {
    pub order_id: u128,
    pub source_type: String,
    pub counterparty: String,
    pub amount: i128,
    pub currency: String,
    pub status: ObligationStatus,
    pub due_at: i64,
    pub settled_at: Option<i64>,
    pub entries: Vec<SubledgerEntry>,
}

/// Liability account of each kind of payable.
pub open spec fn liability_account_spec(source_type: Seq<char>) -> Option<Seq<char>> {
    if source_type == "PROCUREMENT"@ {
        Some(PROCUREMENT_AP_ACCOUNT@)
    } else if source_type == "SERVICE_DELIVERY"@ {
        Some(SERVICE_DELIVERY_AP_ACCOUNT@)
    } else if source_type == "AUTONOMY_PAYROLL"@ {
        Some(PAYROLL_AP_ACCOUNT@)
    } else {
        None
    }
}

/// Liability account of a kind of payable, if the kind is known.
pub fn ap_liability_account_for_source_type(source_type: &str) -> (r: Option<&'static str>)
    ensures
        r matches Some(a) ==> liability_account_spec(source_type@) == Some(a@),
        r is None ==> liability_account_spec(source_type@) is None,
{
    let s = String::from_str(source_type);
    if text_is(&s, "PROCUREMENT") {
        Some(PROCUREMENT_AP_ACCOUNT)
    } else if text_is(&s, "SERVICE_DELIVERY") {
        Some(SERVICE_DELIVERY_AP_ACCOUNT)
    } else if text_is(&s, "AUTONOMY_PAYROLL") {
        Some(PAYROLL_AP_ACCOUNT)
    } else {
        None
    }
}

/// Outstanding balance: the latest entry's balance, zero when there is none.
pub open spec fn outstanding(entries: Seq<SubledgerEntry>) -> int {
    if entries.len() == 0 {
        0
    } else {
        entries.last().balance_after as int
    }
}

impl ApObligation {
    /// Balances never go below zero nor above the limit.
    pub open spec fn wf(&self) -> bool {
        forall|i: int|
            0 <= i < self.entries@.len() ==> 0 <= #[trigger] self.entries@[i].balance_after <= MAX_OBLIGATION
    }

    /// Outstanding balance of the obligation.
    pub fn outstanding_balance(&self) -> (r: i128)
        ensures
            r == outstanding(self.entries@),
    {
        let n = self.entries.len();
        if n == 0 {
            0
        } else {
            self.entries[n - 1].balance_after
        }
    }
}

/// Why a settlement was refused.
#[derive(Clone, Copy, Debug, PartialEq, Eq, Structural)]
pub enum SettleError {
    /// The obligation is not of the kind the caller settles.
    WrongSourceType,
    /// The obligation's kind has no liability account.
    UnsupportedSourceType,
    /// A cancelled obligation cannot be settled.
    Cancelled,
}

/// What a settlement did.
pub struct SettleOutcome {
    pub previous_status: ObligationStatus,
    pub settled_amount: i128,
    pub outstanding_before: i128,
    pub outstanding_after: i128,
    pub settled_at: i64,
    pub already_settled: bool,
    pub journal: Vec<JournalLine>,
}

/// The obligation's identity and terms stay as they were.
pub open spec fn same_terms(a: ApObligation, b: ApObligation) -> bool {
    &&& a.order_id == b.order_id
    &&& a.source_type == b.source_type
    &&& a.counterparty == b.counterparty
    &&& a.amount == b.amount
    &&& a.currency == b.currency
    &&& a.due_at == b.due_at
}

/// The relation between an obligation before and after a settlement request
/// made at `now`, and its result.
pub open spec fn settle_post(
    before: ApObligation,
    after: ApObligation,
    expected: Option<Seq<char>>,
    now: i64,
    r: Result<SettleOutcome, SettleError>,
) -> bool {
    let owed = outstanding(before.entries@);
    let account = liability_account_spec(before.source_type@);
    &&& (expected is Some && expected.unwrap() != before.source_type@) <==> r == Err::<SettleOutcome, SettleError>(SettleError::WrongSourceType)
    &&& (!(expected is Some && expected.unwrap() != before.source_type@) && account is None) <==> r == Err::<SettleOutcome, SettleError>(SettleError::UnsupportedSourceType)
    &&& (!(expected is Some && expected.unwrap() != before.source_type@) && account is Some
        && before.status == ObligationStatus::Cancelled) <==> r == Err::<SettleOutcome, SettleError>(SettleError::Cancelled)
    &&& r is Err ==> after == before
    &&& r matches Ok(o) ==> {
        &&& same_terms(after, before)
        &&& after.status == ObligationStatus::Settled
        &&& o.previous_status == before.status
        &&& o.outstanding_before == owed
        &&& o.already_settled == (before.status == ObligationStatus::Settled && owed <= 0)
        &&& o.already_settled ==> {
            &&& after == before
            &&& o.settled_amount == 0
            &&& o.outstanding_after == owed
            &&& o.journal@.len() == 0
            &&& o.settled_at == match before.settled_at { Some(t) => t, None => now }
        }
        &&& !o.already_settled ==> {
            &&& o.settled_amount == if owed > 0 { owed } else { 0 }
            &&& after.settled_at == match before.settled_at { Some(t) => Some(t), None => Some(now) }
            &&& o.settled_at == now
            &&& o.outstanding_after == outstanding(after.entries@)
            &&& owed > 0 ==> {
                &&& after.entries@ == before.entries@.push(SubledgerEntry {
                    kind: SubledgerEntryKind::PaymentPosted,
                    debit: owed as i128,
                    credit: 0,
                    balance_after: 0,
                    posted_at: now,
                })
                &&& o.journal@.len() == 2
                &&& line_is(o.journal@[0], account.unwrap(), owed, 0)
                &&& line_is(o.journal@[1], CASH_ACCOUNT@, 0, owed)
                &&& is_balanced(o.journal@)
            }
            &&& owed <= 0 ==> after.entries@ == before.entries@ && o.journal@.len() == 0
        }
    }
}

/// Settles an obligation in full at `now`: posts a payment for the whole
/// outstanding balance with a balancing liability/cash pair and marks it
/// SETTLED. Settling one that is SETTLED with nothing outstanding changes
/// nothing and reports `already_settled`. `expected_source_type`, when given,
/// is the only kind of obligation the caller may settle.
pub fn settle_obligation(
    obligation: &mut ApObligation,
    expected_source_type: Option<&str>,
    now: i64,
) -> (r: Result<SettleOutcome, SettleError>)
    requires
        old(obligation).wf(),
    ensures
        final(obligation).wf(),
        settle_post(*old(obligation), *final(obligation), match expected_source_type { Some(e) => Some(e@), None => None }, now, r),
{
    if let Some(expected) = expected_source_type {
        if !text_is(&obligation.source_type, expected) {
            return Err(SettleError::WrongSourceType);
        }
    }
    let account = match ap_liability_account_for_source_type(obligation.source_type.as_str()) {
        Some(a) => a,
        None => {
            return Err(SettleError::UnsupportedSourceType);
        },
    };
    let previous_status = obligation.status;
    if previous_status == ObligationStatus::Cancelled {
        return Err(SettleError::Cancelled);
    }
    let owed = obligation.outstanding_balance();
    proof {
        if obligation.entries@.len() > 0 {
            assert(obligation.entries@[obligation.entries@.len() - 1] == obligation.entries@.last());
        }
    }
    if previous_status == ObligationStatus::Settled && owed <= 0 {
        let settled_at = match obligation.settled_at {
            Some(t) => t,
            None => now,
        };
        return Ok(SettleOutcome {
            previous_status,
            settled_amount: 0,
            outstanding_before: owed,
            outstanding_after: owed,
            settled_at,
            already_settled: true,
            journal: Vec::new(),
        });
    }
    let mut journal: Vec<JournalLine> = Vec::new();
    let mut settled_amount: i128 = 0;
    if owed > 0 {
        settled_amount = owed;
        let ghost before = obligation.entries@;
        obligation.entries.push(SubledgerEntry {
            kind: SubledgerEntryKind::PaymentPosted,
            debit: owed,
            credit: 0,
            balance_after: 0,
            posted_at: now,
        });
        proof {
            assert forall|i: int| 0 <= i < obligation.entries@.len() implies 0 <= #[trigger] obligation.entries@[i].balance_after <= MAX_OBLIGATION by {
                if i < before.len() {
                    assert(obligation.entries@[i] == before[i]);
                }
            }
        }
        journal.push(journal_line(account, owed, 0, "AP settlement debit"));
        journal.push(journal_line(CASH_ACCOUNT, 0, owed, "AP settlement credit"));
        proof {
            reveal_with_fuel(total_debit, 3);
            reveal_with_fuel(total_credit, 3);
            assert(journal@.drop_last().drop_last() =~= Seq::<JournalLine>::empty());
        }
    }
    obligation.status = ObligationStatus::Settled;
    if obligation.settled_at.is_none() {
        obligation.settled_at = Some(now);
    }
    let outstanding_after = obligation.outstanding_balance();
    Ok(SettleOutcome {
        previous_status,
        settled_amount,
        outstanding_before: owed,
        outstanding_after,
        settled_at: now,
        already_settled: false,
        journal,
    })
}

/// Settling an obligation a second time changes nothing and reports that it
/// was already settled, with nothing outstanding.
pub proof fn lemma_settle_twice_is_idempotent(
    start: ApObligation,
    once: ApObligation,
    twice: ApObligation,
    expected: Option<Seq<char>>,
    first_at: i64,
    second_at: i64,
    first: Result<SettleOutcome, SettleError>,
    second: Result<SettleOutcome, SettleError>,
)
    requires
        start.wf(),
        settle_post(start, once, expected, first_at, first),
        settle_post(once, twice, expected, second_at, second),
        first is Ok,
    ensures
        second matches Ok(o) && o.already_settled && o.outstanding_after == 0 && o.settled_amount == 0,
        twice == once,
{
    let owed = outstanding(start.entries@);
    if start.entries@.len() > 0 {
        assert(start.entries@[start.entries@.len() - 1] == start.entries@.last());
    }
    assert(0 <= owed);
    let o1 = first.unwrap();
    assert(once.source_type == start.source_type);
    assert(once.status == ObligationStatus::Settled);
    if o1.already_settled {
        assert(once == start);
    } else if owed > 0 {
        assert(once.entries@.last().balance_after == 0);
    } else {
        assert(once.entries@ == start.entries@);
    }
    assert(outstanding(once.entries@) == 0);
    assert(once.source_type@ == start.source_type@);
    assert(!(expected is Some && expected.unwrap() != once.source_type@));
    assert(liability_account_spec(once.source_type@) is Some);
    match second {
        Err(e) => {
            match e {
                SettleError::WrongSourceType => {},
                SettleError::UnsupportedSourceType => {},
                SettleError::Cancelled => {},
            }
        },
        Ok(_) => {},
    }
}

/// What posting one payroll charge records.
pub struct PayrollPosting {
    pub journal: Vec<JournalLine>,
    pub obligation: ApObligation,
}

/// Posts a period's payroll charge for one order: a payroll expense /
/// payroll payable pair, and an AUTONOMY_PAYROLL obligation mirroring the
/// amount, due after the default terms. When `settle_immediately`, the
/// obligation is settled at once, which adds a payable / cash pair. Nothing
/// is posted for an amount that is not positive.
pub fn post_payroll_charge(
    order_id: u128,
    amount: i128,
    currency: String,
    counterparty: String,
    posted_at: i64,
    settle_immediately: bool,
) -> (r: Option<PayrollPosting>)
    requires
        amount <= MAX_OBLIGATION,
        posted_at <= i64::MAX - AP_DEFAULT_TERMS_SECONDS,
    ensures
        amount <= 0 <==> r is None,
        r matches Some(p) ==> {
            let ob = p.obligation;
            &&& ob.wf()
            &&& ob.order_id == order_id
            &&& ob.source_type@ == "AUTONOMY_PAYROLL"@
            &&& ob.counterparty == counterparty
            &&& ob.currency == currency
            &&& ob.amount == amount
            &&& ob.due_at == posted_at + AP_DEFAULT_TERMS_SECONDS
            &&& ob.entries@[0] == (SubledgerEntry {
                kind: SubledgerEntryKind::ObligationRecognized,
                debit: 0,
                credit: amount,
                balance_after: amount,
                posted_at,
            })
            &&& line_is(p.journal@[0], PAYROLL_EXPENSE_ACCOUNT@, amount as int, 0)
            &&& line_is(p.journal@[1], PAYROLL_AP_ACCOUNT@, 0, amount as int)
            &&& is_balanced(p.journal@)
            &&& settle_immediately ==> {
                &&& ob.entries@.len() == 2
                &&& ob.entries@[1] == (SubledgerEntry {
                    kind: SubledgerEntryKind::PaymentPosted,
                    debit: amount,
                    credit: 0,
                    balance_after: 0,
                    posted_at,
                })
                &&& ob.status == ObligationStatus::Settled
                &&& ob.settled_at == Some(posted_at)
                &&& outstanding(ob.entries@) == 0
                &&& p.journal@.len() == 4
                &&& line_is(p.journal@[2], PAYROLL_AP_ACCOUNT@, amount as int, 0)
                &&& line_is(p.journal@[3], CASH_ACCOUNT@, 0, amount as int)
            }
            &&& !settle_immediately ==> {
                &&& ob.entries@.len() == 1
                &&& ob.status == ObligationStatus::Open
                &&& ob.settled_at is None
                &&& outstanding(ob.entries@) == amount
                &&& p.journal@.len() == 2
            }
        },
{
    if amount <= 0 {
        return None;
    }
    let mut journal: Vec<JournalLine> = Vec::new();
    journal.push(journal_line(PAYROLL_EXPENSE_ACCOUNT, amount, 0, "Payroll allocation debit"));
    journal.push(journal_line(PAYROLL_AP_ACCOUNT, 0, amount, "Payroll allocation credit"));
    let mut entries: Vec<SubledgerEntry> = Vec::new();
    entries.push(SubledgerEntry {
        kind: SubledgerEntryKind::ObligationRecognized,
        debit: 0,
        credit: amount,
        balance_after: amount,
        posted_at,
    });
    let mut obligation = ApObligation {
        order_id,
        source_type: String::from_str("AUTONOMY_PAYROLL"),
        counterparty,
        amount,
        currency,
        status: ObligationStatus::Open,
        due_at: posted_at + AP_DEFAULT_TERMS_SECONDS,
        settled_at: None,
        entries,
    };
    proof {
        reveal_with_fuel(total_debit, 3);
        reveal_with_fuel(total_credit, 3);
        assert(journal@.drop_last().drop_last() =~= Seq::<JournalLine>::empty());
    }
    if settle_immediately {
        let ghost before = obligation;
        let settled = settle_obligation(&mut obligation, Some("AUTONOMY_PAYROLL"), posted_at);
        proof {
            assert(before.source_type@ == "AUTONOMY_PAYROLL"@);
            reveal_strlit("AUTONOMY_PAYROLL");
            reveal_strlit("PROCUREMENT");
            reveal_strlit("SERVICE_DELIVERY");
            assert("AUTONOMY_PAYROLL"@[0] != "SERVICE_DELIVERY"@[0]);
            assert("AUTONOMY_PAYROLL"@.len() != "PROCUREMENT"@.len());
            assert(outstanding(before.entries@) == amount);
            assert(liability_account_spec(before.source_type@) == Some(PAYROLL_AP_ACCOUNT@));
            assert(obligation.entries@[0] == before.entries@[0]);
        }
        match settled {
            Ok(outcome) => {
                let ghost j0 = journal@;
                let mut extra = outcome.journal;
                journal.append(&mut extra);
                proof {
                    let j = journal@;
                    assert(j.drop_last().drop_last() =~= j0);
                    assert(j.drop_last().last() == outcome.journal@[0]);
                    assert(j.last() == outcome.journal@[1]);
                    assert(j[2] == outcome.journal@[0]);
                    assert(j[3] == outcome.journal@[1]);
                    reveal_with_fuel(total_debit, 5);
                    reveal_with_fuel(total_credit, 5);
                    assert(j.drop_last().drop_last().drop_last().drop_last() =~= Seq::<JournalLine>::empty());
                    assert(j.drop_last().drop_last().drop_last() =~= seq![j[0]]);
                    assert(total_debit(j) == 2 * amount);
                    assert(total_credit(j) == 2 * amount);
                }
            },
            Err(e) => {
                proof {
                    match e {
                        SettleError::WrongSourceType => {},
                        SettleError::UnsupportedSourceType => {},
                        SettleError::Cancelled => {},
                    }
                }
            },
        }
    }
    proof {
        assert(obligation.wf());
        assert(obligation.source_type@ == "AUTONOMY_PAYROLL"@);
        assert(line_is(journal@[0], PAYROLL_EXPENSE_ACCOUNT@, amount as int, 0));
        assert(is_balanced(journal@));
        if settle_immediately {
            assert(obligation.status == ObligationStatus::Settled);
            assert(obligation.settled_at == Some(posted_at));
            assert(outstanding(obligation.entries@) == 0);
            assert(journal@.len() == 4);
        }
    }
    Some(PayrollPosting { journal, obligation })
}

} // verus!
