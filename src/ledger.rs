//! Double-entry journal lines and the batches posted for an order.
use vstd::prelude::*;
use crate::money::MAX_AMOUNT;
use crate::standards::{
    ifrs_lite_chart, AR_ACCOUNT, CASH_ACCOUNT, COGS_ACCOUNT, INVENTORY_ACCOUNT, REVENUE_ACCOUNT,
    SERVICE_COST_CLEARING_ACCOUNT,
};

verus! {

/// One side of a posting: an account and its debit or credit.
pub struct JournalLine {
    pub account: String,
    pub debit: i128,
    pub credit: i128,
    pub memo: String,
}

/// A batch of lines posted together under one identifier.
pub struct JournalEntry {
    pub id: u128,
    pub memo: String,
    pub lines: Vec<JournalLine>,
}

/// Sum of the debits of a batch.
pub open spec fn total_debit(lines: Seq<JournalLine>) -> int
    decreases lines.len(),
{
    if lines.len() == 0 {
        0
    } else {
        total_debit(lines.drop_last()) + lines.last().debit
    }
}

/// Sum of the credits of a batch.
pub open spec fn total_credit(lines: Seq<JournalLine>) -> int
    decreases lines.len(),
{
    if lines.len() == 0 {
        0
    } else {
        total_credit(lines.drop_last()) + lines.last().credit
    }
}

/// A batch whose debits equal its credits.
pub open spec fn is_balanced(lines: Seq<JournalLine>) -> bool {
    total_debit(lines) == total_credit(lines)
}

/// A line on `account` with the given debit, credit and memo.
pub open spec fn line_is(l: JournalLine, account: Seq<char>, debit: int, credit: int) -> bool {
    l.account@ == account && l.debit == debit && l.credit == credit
}

/// Builds one journal line.
pub fn journal_line(account: &str, debit: i128, credit: i128, memo: &str) -> (r: JournalLine)
    ensures
        line_is(r, account@, debit as int, credit as int),
        r.memo@ == memo@,
{
    JournalLine {
        account: String::from_str(account),
        debit,
        credit,
        memo: String::from_str(memo),
    }
}

/// Relies on `uuid::Uuid::new_v4`: a fresh random identifier, nothing more is known.
#[verifier::external_body]
pub(crate) fn fresh_id() -> (r: u128) {
    uuid::Uuid::new_v4().as_u128()
}

/// Two-line invoice batch: debit receivables and credit revenue by `amount`.
pub fn invoice_journal(amount: i64) -> (r: JournalEntry)
    requires
        0 <= amount <= MAX_AMOUNT,
    ensures
        r.memo@ == "Invoice posted"@,
        r.lines@.len() == 2,
        line_is(r.lines@[0], AR_ACCOUNT@, amount as int, 0),
        line_is(r.lines@[1], REVENUE_ACCOUNT@, 0, amount as int),
        is_balanced(r.lines@),
{
    let coa = ifrs_lite_chart();
    let mut lines: Vec<JournalLine> = Vec::new();
    lines.push(JournalLine { account: coa.accounts_receivable, debit: amount as i128, credit: 0, memo: String::from_str("Invoice posted") });
    lines.push(JournalLine { account: coa.revenue, debit: 0, credit: amount as i128, memo: String::from_str("Invoice posted") });
    proof {
        reveal_with_fuel(total_debit, 3);
        reveal_with_fuel(total_credit, 3);
        assert(lines@.drop_last().drop_last() =~= Seq::<JournalLine>::empty());
    }
    JournalEntry { id: fresh_id(), memo: String::from_str("Invoice posted"), lines }
}

/// The six-line batch of a fulfilled order: invoice, revenue, cost of sales,
/// inventory relief (or service cost clearing), cash receipt, receivable settled.
pub fn order_journal(is_product: bool, revenue: i64, cogs: i64) -> (r: Vec<JournalLine>)
    requires
        0 <= revenue <= MAX_AMOUNT,
        0 <= cogs <= MAX_AMOUNT,
    ensures
        r@.len() == 6,
        line_is(r@[0], AR_ACCOUNT@, revenue as int, 0),
        line_is(r@[1], REVENUE_ACCOUNT@, 0, revenue as int),
        line_is(r@[2], COGS_ACCOUNT@, cogs as int, 0),
        line_is(
            r@[3],
            if is_product { INVENTORY_ACCOUNT@ } else { SERVICE_COST_CLEARING_ACCOUNT@ },
            0,
            cogs as int,
        ),
        line_is(r@[4], CASH_ACCOUNT@, revenue as int, 0),
        line_is(r@[5], AR_ACCOUNT@, 0, revenue as int),
        total_debit(r@) == 2 * revenue + cogs,
        total_credit(r@) == 2 * revenue + cogs,
        is_balanced(r@),
{
    let mut lines: Vec<JournalLine> = Vec::new();
    lines.push(journal_line(AR_ACCOUNT, revenue as i128, 0, "Invoice posted"));
    lines.push(journal_line(REVENUE_ACCOUNT, 0, revenue as i128, "Revenue recognized"));
    lines.push(journal_line(COGS_ACCOUNT, cogs as i128, 0, "COGS recognized"));
    if is_product {
        lines.push(journal_line(INVENTORY_ACCOUNT, 0, cogs as i128, "Inventory relieved"));
    } else {
        lines.push(
            journal_line(SERVICE_COST_CLEARING_ACCOUNT, 0, cogs as i128, "Service delivery cost recognized"),
        );
    }
    lines.push(journal_line(CASH_ACCOUNT, revenue as i128, 0, "Cash receipt"));
    lines.push(journal_line(AR_ACCOUNT, 0, revenue as i128, "AR settled"));
    proof {
        let s = lines@;
        reveal_with_fuel(total_debit, 7);
        reveal_with_fuel(total_credit, 7);
        assert(s.drop_last().drop_last().drop_last().drop_last().drop_last().drop_last()
            =~= Seq::<JournalLine>::empty());
    }
    lines
}

} // verus!
