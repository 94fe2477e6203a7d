//! Accounting standard profiles and their chart of accounts.
use vstd::prelude::*;

verus! {

/// Account codes that postings refer to.
pub struct ChartOfAccounts {
    pub cash: String,
    pub accounts_receivable: String,
    pub inventory: String,
    pub accounts_payable: String,
    pub revenue: String,
    pub cogs: String,
}

/// A set of accounting conventions.
pub trait StandardsProfile {
    fn name(&self) -> &'static str;

    fn chart_of_accounts(&self) -> ChartOfAccounts;

    fn inventory_valuation_method(&self) -> &'static str;
}

/// A light IFRS-style profile with average-cost inventory.
#[derive(Clone, Copy, Debug, Default)]
pub struct IfrsLiteProfile;

/// Code of the cash account.
pub const CASH_ACCOUNT: &'static str = "1000";
/// Code of accounts receivable.
pub const AR_ACCOUNT: &'static str = "1100";
/// Code of the inventory account.
pub const INVENTORY_ACCOUNT: &'static str = "1300";
/// Code of procurement accounts payable.
pub const PROCUREMENT_AP_ACCOUNT: &'static str = "2100";
/// Code of the clearing account credited with the delivery cost of a service order.
pub const SERVICE_COST_CLEARING_ACCOUNT: &'static str = "2100";
/// Code of service delivery accounts payable.
pub const SERVICE_DELIVERY_AP_ACCOUNT: &'static str = "2200";
/// Code of the payroll payable account.
pub const PAYROLL_AP_ACCOUNT: &'static str = "2300";
/// Code of the revenue account.
pub const REVENUE_ACCOUNT: &'static str = "4000";
/// Code of cost of goods sold.
pub const COGS_ACCOUNT: &'static str = "5000";
/// Code of the payroll expense account.
pub const PAYROLL_EXPENSE_ACCOUNT: &'static str = "5100";

/// The chart of accounts of the IFRS-lite profile.
pub fn ifrs_lite_chart() -> (r: ChartOfAccounts)
    ensures
        r.cash@ == CASH_ACCOUNT@,
        r.accounts_receivable@ == AR_ACCOUNT@,
        r.inventory@ == INVENTORY_ACCOUNT@,
        r.accounts_payable@ == PROCUREMENT_AP_ACCOUNT@,
        r.revenue@ == REVENUE_ACCOUNT@,
        r.cogs@ == COGS_ACCOUNT@,
{
    ChartOfAccounts {
        cash: String::from_str(CASH_ACCOUNT),
        accounts_receivable: String::from_str(AR_ACCOUNT),
        inventory: String::from_str(INVENTORY_ACCOUNT),
        accounts_payable: String::from_str(PROCUREMENT_AP_ACCOUNT),
        revenue: String::from_str(REVENUE_ACCOUNT),
        cogs: String::from_str(COGS_ACCOUNT),
    }
}

impl StandardsProfile for IfrsLiteProfile {
    fn name(&self) -> &'static str {
        "IFRS-lite"
    }

    fn chart_of_accounts(&self) -> ChartOfAccounts {
        ifrs_lite_chart()
    }

    fn inventory_valuation_method(&self) -> &'static str {
        "AVCO"
    }
}

/// Broad category of an account, read from the first digit of its code.
pub open spec fn account_category_spec(account: Seq<char>) -> Option<Seq<char>> {
    if account.len() == 0 {
        None
    } else if account[0] == '1' {
        Some("ASSET"@)
    } else if account[0] == '2' {
        Some("LIABILITY"@)
    } else if account[0] == '3' {
        Some("EQUITY"@)
    } else {
        None
    }
}

/// Balance-sheet category of an account code: ASSET, LIABILITY or EQUITY.
pub fn account_category(account: &str) -> (r: Option<&'static str>)
    ensures
        r matches Some(c) ==> account_category_spec(account@) == Some(c@),
        r is None ==> account_category_spec(account@) is None,
{
    if account.unicode_len() == 0 {
        return None;
    }
    let first = account.get_char(0);
    if first == '1' {
        Some("ASSET")
    } else if first == '2' {
        Some("LIABILITY")
    } else if first == '3' {
        Some("EQUITY")
    } else {
        None
    }
}

/// Label of the ageing bucket for an item that is `age_days` past due.
pub open spec fn aging_bucket_spec(age_days: int) -> Seq<char> {
    if age_days <= 0 {
        "CURRENT"@
    } else if age_days <= 30 {
        "1_30"@
    } else if age_days <= 60 {
        "31_60"@
    } else if age_days <= 90 {
        "61_90"@
    } else {
        "90_PLUS"@
    }
}

/// Ageing bucket of a receivable or payable by days past due.
pub fn aging_bucket_label(age_days: i64) -> (r: &'static str)
    ensures
        r@ == aging_bucket_spec(age_days as int),
{
    if age_days <= 0 {
        "CURRENT"
    } else if age_days <= 30 {
        "1_30"
    } else if age_days <= 60 {
        "31_60"
    } else if age_days <= 90 {
        "61_90"
    } else {
        "90_PLUS"
    }
}

} // verus!
