//! One allocation run over a closed period: proration of subscriptions,
//! allocation rows, payroll charges per order and the reconciliation.
use vstd::prelude::*;
use crate::allocation::{
    allocate_input_cost, input_rows, orders_in_range, rows_in_range, rows_of, share_rows,
    skill_shares, target_rows, order_targets, AllocationInput, AllocationRow, lemma_input_rows_sum,
    lemma_row_sum_concat,
    CostAllocation, CostSource, FulfilledOrder, SkillUsage, row_sum,
};
use crate::grouping::usage_in_range;
use crate::fulfillment::{revenue_of, Order, OrderStatus};
use crate::inventory::lemma_round_le;
use crate::money::{div_round, div_round_signed, lemma_round_close, round_half_even, MAX_AMOUNT, SCALE};

verus! {

/// Ratio scale of a subscription's overlap (eight places).
pub const RATIO_SCALE: i64 = 100000000;

/// Variance, in ten-thousandths of a percent, up to which a period balances (0.5%).
pub const VARIANCE_TOLERANCE_PCT: i128 = 5000;

/// A subscription cost over its own window, in seconds.
pub struct SubscriptionCost {
    pub source_id: u128,
    pub period_start: i64,
    pub period_end: i64,
    pub total_cost: i64,
    pub currency: String,
}

/// Part of a subscription's cost that falls inside `[start, end)`: the cost
/// times the overlapping share of its window (rounded to eight places),
/// rounded to four places; none when the window is empty or does not overlap.
pub open spec fn prorated_cost(sub_start: int, sub_end: int, total_cost: int, start: int, end: int) -> Option<int> {
    let seconds_total = sub_end - sub_start;
    let overlap_start = if sub_start >= start { sub_start } else { start };
    let overlap_end = if sub_end <= end { sub_end } else { end };
    let overlap = overlap_end - overlap_start;
    if seconds_total <= 0 || overlap <= 0 {
        None
    } else {
        let ratio = round_half_even(overlap * RATIO_SCALE, seconds_total);
        Some(round_half_even(total_cost * ratio, RATIO_SCALE as int))
    }
}

/// Prorates a subscription cost onto the period `[start, end)`.
pub fn prorate_subscription(sub_start: i64, sub_end: i64, total_cost: i64, start: i64, end: i64) -> (r: Option<i64>)
    requires
        -MAX_AMOUNT <= total_cost <= MAX_AMOUNT,
    ensures
        r matches Some(a) ==> prorated_cost(sub_start as int, sub_end as int, total_cost as int, start as int, end as int) == Some(a as int),
        r is None ==> prorated_cost(sub_start as int, sub_end as int, total_cost as int, start as int, end as int) is None,
        r matches Some(a) ==> -MAX_AMOUNT <= a <= MAX_AMOUNT,
        r matches Some(a) ==> (if a >= 0 { a as int } else { -a }) <= (if total_cost >= 0 { total_cost as int } else { -total_cost }),
{
    let seconds_total = (sub_end as i128) - (sub_start as i128);
    let overlap_start = if sub_start >= start { sub_start } else { start };
    let overlap_end = if sub_end <= end { sub_end } else { end };
    let overlap = (overlap_end as i128) - (overlap_start as i128);
    if seconds_total <= 0 || overlap <= 0 {
        return None;
    }
    assert(overlap <= seconds_total);
    let num = (overlap as u128) * (RATIO_SCALE as u128);
    let ratio = div_round(num, seconds_total as u128);
    proof {
        lemma_round_le(num as int, seconds_total as int, RATIO_SCALE as int);
        lemma_round_close(num as int, seconds_total as int);
    }
    assert(-MAX_AMOUNT * RATIO_SCALE <= total_cost * ratio <= MAX_AMOUNT * RATIO_SCALE) by (nonlinear_arith)
        requires 0 <= ratio <= RATIO_SCALE, -MAX_AMOUNT <= total_cost <= MAX_AMOUNT;
    let p = (total_cost as i128) * (ratio as i128);
    let a = div_round_signed(p, RATIO_SCALE as i128);
    proof {
        let m = if p >= 0 { p as int } else { -p as int };
        let t = if total_cost >= 0 { total_cost as int } else { -total_cost as int };
        assert(m <= RATIO_SCALE * t) by (nonlinear_arith)
            requires m == (if p >= 0 { p as int } else { -p as int }), p == total_cost * ratio, 0 <= ratio <= RATIO_SCALE,
                t == (if total_cost >= 0 { total_cost as int } else { -total_cost as int });
        lemma_round_le(m, RATIO_SCALE as int, t);
        lemma_round_le(m, RATIO_SCALE as int, MAX_AMOUNT as int);
        lemma_round_close(m, RATIO_SCALE as int);
    }
    Some(a as i64)
}

/// The cost records the subscriptions contribute to the period, in order.
pub open spec fn subscription_inputs(subs: Seq<SubscriptionCost>, start: int, end: int) -> Seq<AllocationInput>
    decreases subs.len(),
{
    if subs.len() == 0 {
        Seq::empty()
    } else {
        let prev = subscription_inputs(subs.drop_last(), start, end);
        let s = subs.last();
        match prorated_cost(s.period_start as int, s.period_end as int, s.total_cost as int, start, end) {
            Some(a) => prev.push(AllocationInput {
                source_type: CostSource::Subscription,
                source_id: s.source_id,
                order_id: None,
                amount: a as i64,
                currency: s.currency,
                agent_id: None,
                skill_id: None,
            }),
            None => prev,
        }
    }
}

/// Rows generated by a sequence of cost records, record by record.
pub open spec fn period_rows(orders: Seq<FulfilledOrder>, inputs: Seq<AllocationInput>, usage: Seq<SkillUsage>) -> Seq<AllocationRow>
    decreases inputs.len(),
{
    if inputs.len() == 0 {
        Seq::empty()
    } else {
        period_rows(orders, inputs.drop_last(), usage) + input_rows(orders, inputs.last(), usage)
    }
}

/// Sum of the amounts of a sequence of cost records.
pub open spec fn source_sum(inputs: Seq<AllocationInput>) -> int
    decreases inputs.len(),
{
    if inputs.len() == 0 {
        0
    } else {
        source_sum(inputs.drop_last()) + inputs.last().amount
    }
}

/// The key payroll charges are grouped by: order and currency.
pub open spec fn key_of(r: AllocationRow) -> (u128, Seq<char>) {
    (r.order_id, r.currency)
}

/// Distinct keys of the rows, in order of first appearance.
pub open spec fn charge_keys(rows: Seq<AllocationRow>) -> Seq<(u128, Seq<char>)>
    decreases rows.len(),
{
    if rows.len() == 0 {
        Seq::empty()
    } else {
        let prev = charge_keys(rows.drop_last());
        if prev.contains(key_of(rows.last())) {
            prev
        } else {
            prev.push(key_of(rows.last()))
        }
    }
}

/// Sum of the costs of the rows with the given key.
pub open spec fn key_total(rows: Seq<AllocationRow>, key: (u128, Seq<char>)) -> int
    decreases rows.len(),
{
    if rows.len() == 0 {
        0
    } else {
        key_total(rows.drop_last(), key) + if key_of(rows.last()) == key {
            rows.last().allocated_cost
        } else {
            0
        }
    }
}

/// Payroll expense charged to one order in one currency for the period.
pub struct PayrollCharge {
    pub order_id: u128,
    pub currency: String,
    pub amount: i128,
}

/// Outcome of reconciling a period.
#[derive(Clone, Copy, Debug, PartialEq, Eq, Structural)]
pub enum ReconciliationStatus {
    Balanced,
    OutOfTolerance,
    NoSourceCosts,
}

/// Totals of one period's run and how far they agree.
#[derive(Clone, Copy, Debug, PartialEq, Eq, Structural)]
pub struct PeriodReconciliation {
    pub period_start: i64,
    pub period_end: i64,
    pub source_total: i128,
    pub allocated_total: i128,
    pub journal_total: i128,
    pub variance_amount: i128,
    pub variance_pct: i128,
    pub orders_allocated: u64,
    pub status: ReconciliationStatus,
}

/// Absolute difference of the source and journal totals.
pub open spec fn variance_of(source_total: int, journal_total: int) -> int {
    if source_total >= journal_total {
        source_total - journal_total
    } else {
        journal_total - source_total
    }
}

/// Variance as a share of the source total, in ten-thousandths of a percent.
pub open spec fn variance_pct_of(source_total: int, variance: int) -> int {
    if source_total > 0 {
        round_half_even(variance * 100 * SCALE, source_total)
    } else {
        0
    }
}

/// Status of a period from its source total and variance percentage.
pub open spec fn status_of(source_total: int, pct: int) -> ReconciliationStatus {
    if source_total == 0 {
        ReconciliationStatus::NoSourceCosts
    } else if pct <= VARIANCE_TOLERANCE_PCT {
        ReconciliationStatus::Balanced
    } else {
        ReconciliationStatus::OutOfTolerance
    }
}

/// Sum of the key totals of a list of keys.
pub open spec fn keys_total(rows: Seq<AllocationRow>, keys: Seq<(u128, Seq<char>)>) -> int
    decreases keys.len(),
{
    if keys.len() == 0 {
        0
    } else {
        keys_total(rows, keys.drop_last()) + key_total(rows, keys.last())
    }
}

proof fn lemma_charge_keys_distinct(rows: Seq<AllocationRow>)
    ensures
        charge_keys(rows).no_duplicates(),
        forall|i: int| 0 <= i < rows.len() ==> charge_keys(rows).contains(key_of(#[trigger] rows[i])),
        forall|k| #[trigger] charge_keys(rows).contains(k) ==> exists|i: int| 0 <= i < rows.len() && key_of(rows[i]) == k,
    decreases rows.len(),
{
    if rows.len() > 0 {
        let prev = rows.drop_last();
        lemma_charge_keys_distinct(prev);
        let cp = charge_keys(prev);
        let ck = charge_keys(rows);
        assert forall|i: int| 0 <= i < rows.len() implies ck.contains(key_of(#[trigger] rows[i])) by {
            let k = key_of(rows[i]);
            if i < rows.len() - 1 {
                assert(prev[i] == rows[i]);
                assert(cp.contains(k));
                let j = choose|j: int| 0 <= j < cp.len() && cp[j] == k;
                assert(ck[j] == k);
            } else if cp.contains(k) {
                let j = choose|j: int| 0 <= j < cp.len() && cp[j] == k;
                assert(ck[j] == k);
            } else {
                assert(ck[ck.len() - 1] == k);
            }
        }
        assert forall|k| #[trigger] charge_keys(rows).contains(k) implies exists|i: int| 0 <= i < rows.len() && key_of(rows[i]) == k by {
            if charge_keys(prev).contains(k) {
                let i = choose|i: int| 0 <= i < prev.len() && key_of(prev[i]) == k;
                assert(key_of(rows[i]) == k);
            } else {
                assert(key_of(rows[rows.len() - 1]) == k);
            }
        }
    }
}

proof fn lemma_key_total_absent(rows: Seq<AllocationRow>, k: (u128, Seq<char>))
    requires
        forall|i: int| 0 <= i < rows.len() ==> key_of(#[trigger] rows[i]) != k,
    ensures
        key_total(rows, k) == 0,
    decreases rows.len(),
{
    if rows.len() > 0 {
        lemma_key_total_absent(rows.drop_last(), k);
        assert(key_of(rows[rows.len() - 1]) != k);
    }
}

proof fn lemma_keys_total_push(rows: Seq<AllocationRow>, r: AllocationRow, keys: Seq<(u128, Seq<char>)>)
    requires
        keys.no_duplicates(),
    ensures
        keys_total(rows.push(r), keys) == keys_total(rows, keys) + if keys.contains(key_of(r)) {
            r.allocated_cost
        } else {
            0
        },
    decreases keys.len(),
{
    assert(rows.push(r).drop_last() =~= rows);
    if keys.len() > 0 {
        let prev = keys.drop_last();
        assert(prev.no_duplicates());
        lemma_keys_total_push(rows, r, prev);
        if keys.contains(key_of(r)) {
            let j = choose|j: int| 0 <= j < keys.len() && keys[j] == key_of(r);
            if j < keys.len() - 1 {
                assert(prev[j] == key_of(r));
                assert(keys.last() != key_of(r));
            } else {
                assert(!prev.contains(key_of(r)));
            }
        } else {
            assert(!prev.contains(key_of(r))) by {
                if prev.contains(key_of(r)) {
                    let j = choose|j: int| 0 <= j < prev.len() && prev[j] == key_of(r);
                    assert(keys[j] == key_of(r));
                }
            }
            assert(keys.last() != key_of(r)) by {
                if keys.last() == key_of(r) {
                    assert(keys[keys.len() - 1] == key_of(r));
                }
            }
        }
    }
}

/// Grouping rows by order and currency loses nothing: the group totals add up
/// to the sum of all rows.
pub proof fn lemma_charges_cover_rows(rows: Seq<AllocationRow>)
    ensures
        keys_total(rows, charge_keys(rows)) == row_sum(rows),
    decreases rows.len(),
{
    if rows.len() > 0 {
        let prev = rows.drop_last();
        let r = rows.last();
        assert(prev.push(r) =~= rows);
        lemma_charges_cover_rows(prev);
        lemma_charge_keys_distinct(prev);
        let kp = charge_keys(prev);
        lemma_keys_total_push(prev, r, kp);
        if !kp.contains(key_of(r)) {
            assert(kp.push(key_of(r)).drop_last() =~= kp);
            assert forall|i: int| 0 <= i < prev.len() implies key_of(#[trigger] prev[i]) != key_of(r) by {
                assert(kp.contains(key_of(prev[i])));
            }
            lemma_key_total_absent(prev, key_of(r));
        }
    }
}

proof fn lemma_key_total_bounds(rows: Seq<AllocationRow>, k: (u128, Seq<char>))
    requires
        rows_in_range(rows),
    ensures
        0 <= key_total(rows, k) <= rows.len() * (MAX_AMOUNT),
    decreases rows.len(),
{
    if rows.len() > 0 {
        lemma_key_total_bounds(rows.drop_last(), k);
        assert(rows[rows.len() - 1] == rows.last());
    }
}

/// The payroll charges of a run's rows as plain values.
pub open spec fn charges_match(charges: Seq<PayrollCharge>, rows: Seq<AllocationRow>) -> bool {
    let keys = charge_keys(rows);
    &&& charges.len() == keys.len()
    &&& forall|i: int| 0 <= i < charges.len() ==> {
        &&& ((#[trigger] charges[i]).order_id, charges[i].currency@) == keys[i]
        &&& charges[i].amount == key_total(rows, keys[i])
    }
}

/// Groups allocation rows into one payroll charge per order and currency, in
/// order of first appearance, each with the sum of its rows.
pub fn payroll_charges(rows: &Vec<CostAllocation>) -> (r: Vec<PayrollCharge>)
    requires
        rows_in_range(rows_of(rows@)),
    ensures
        charges_match(r@, rows_of(rows@)),
{
    let ghost rv = rows_of(rows@);
    let mut charges: Vec<PayrollCharge> = Vec::new();
    let mut k: usize = 0;
    while k < rows.len()
        invariant
            k <= rows@.len() == rv.len(),
            rv == rows_of(rows@),
            rows_in_range(rv),
            charges_match(charges@, rv.subrange(0, k as int)),
        decreases rows@.len() - k,
    {
        let row = &rows[k];
        let ghost prefix = rv.subrange(0, k as int);
        let ghost next = rv.subrange(0, k + 1);
        let ghost keys = charge_keys(prefix);
        let ghost key = key_of(rv[k as int]);
        proof {
            assert(next.drop_last() =~= prefix);
            assert(next.last() == rv[k as int]);
            assert(rv[k as int] == row@);
            lemma_charge_keys_distinct(prefix);
            assert(rows_in_range(prefix));
            assert(rows_in_range(next));
        }
        let mut j: usize = 0;
        let mut found = false;
        while j < charges.len()
            invariant
                j <= charges@.len(),
                charges_match(charges@, prefix),
                keys == charge_keys(prefix),
                key == (row.order_id, row.currency@),
                !found ==> forall|jj: int| 0 <= jj < j ==> keys[jj] != key,
                found ==> j < charges@.len() && keys[j as int] == key,
            ensures
                !found ==> forall|jj: int| 0 <= jj < charges@.len() ==> keys[jj] != key,
                found ==> j < charges@.len() && keys[j as int] == key,
            decreases charges@.len() - j,
        {
            if charges[j].order_id == row.order_id && charges[j].currency == row.currency {
                found = true;
                break;
            }
            j = j + 1;
        }
        if found {
            proof {
                lemma_key_total_bounds(next, key);
            }
            let c = PayrollCharge {
                order_id: row.order_id,
                currency: row.currency.clone(),
                amount: charges[j].amount + row.allocated_cost as i128,
            };
            let ghost old_charges = charges@;
            charges.set(j, c);
            proof {
                assert(charge_keys(next) == keys);
                assert forall|i: int| 0 <= i < charges@.len() implies {
                    &&& ((#[trigger] charges@[i]).order_id, charges@[i].currency@) == charge_keys(next)[i]
                    &&& charges@[i].amount == key_total(next, charge_keys(next)[i])
                } by {
                    if i != j {
                        assert(old_charges[i] == charges@[i]);
                        assert(keys[i] != keys[j as int]);
                    }
                }
            }
        } else {
            proof {
                assert(!keys.contains(key)) by {
                    if keys.contains(key) {
                        let jj = choose|jj: int| 0 <= jj < keys.len() && keys[jj] == key;
                        assert(keys[jj] != key);
                    }
                }
                assert forall|i: int| 0 <= i < prefix.len() implies key_of(#[trigger] prefix[i]) != key by {
                    assert(keys.contains(key_of(prefix[i])));
                }
                lemma_key_total_absent(prefix, key);
                assert(rv[k as int].allocated_cost <= MAX_AMOUNT);
            }
            let c = PayrollCharge {
                order_id: row.order_id,
                currency: row.currency.clone(),
                amount: row.allocated_cost as i128,
            };
            let ghost old_charges = charges@;
            charges.push(c);
            proof {
                assert(charge_keys(next) == keys.push(key));
                assert forall|i: int| 0 <= i < charges@.len() implies {
                    &&& ((#[trigger] charges@[i]).order_id, charges@[i].currency@) == charge_keys(next)[i]
                    &&& charges@[i].amount == key_total(next, charge_keys(next)[i])
                } by {
                    if i < old_charges.len() {
                        assert(old_charges[i] == charges@[i]);
                        assert(keys[i] != key) by {
                            assert(keys.contains(keys[i]));
                        }
                    }
                }
            }
        }
        k = k + 1;
    }
    proof {
        assert(rv.subrange(0, rv.len() as int) =~= rv);
    }
    charges
}

/// Why a run was refused.
#[derive(Clone, Copy, Debug, PartialEq, Eq, Structural)]
pub enum AllocationError {
    /// The period does not end after it starts.
    InvalidPeriod,
    /// No order was fulfilled inside the period.
    NoFulfilledOrders,
}

/// Everything one run generates for its period.
pub struct AllocationRun {
    pub allocations: Vec<CostAllocation>,
    pub charges: Vec<PayrollCharge>,
    pub reconciliation: PeriodReconciliation,
}

/// Cost records whose amounts are in range.
pub open spec fn inputs_in_range(inputs: Seq<AllocationInput>) -> bool {
    forall|i: int| 0 <= i < inputs.len() ==> -MAX_AMOUNT <= #[trigger] inputs[i].amount <= MAX_AMOUNT
}

/// Subscriptions whose costs are in range.
pub open spec fn subscriptions_in_range(subs: Seq<SubscriptionCost>) -> bool {
    forall|i: int| 0 <= i < subs.len() ==> -MAX_AMOUNT <= #[trigger] subs[i].total_cost <= MAX_AMOUNT
}

/// Fulfilled orders with revenues that are not negative.
pub open spec fn eligible_in_range(orders: Seq<FulfilledOrder>) -> bool {
    forall|i: int| 0 <= i < orders.len() ==> 0 <= #[trigger] orders[i].revenue
}

/// Largest sum of the magnitudes of a period's costs, in ten-thousandths,
/// that the reconciliation arithmetic (a variance times one million) holds.
pub const PERIOD_TOTAL_LIMIT: i128 = 10000000000000000000000000000000i128;

/// Sum of the magnitudes of the amounts of cost records.
pub open spec fn abs_total(inputs: Seq<AllocationInput>) -> int
    decreases inputs.len(),
{
    if inputs.len() == 0 {
        0
    } else {
        let a = inputs.last().amount as int;
        abs_total(inputs.drop_last()) + if a >= 0 { a } else { -a }
    }
}

/// Sum of the magnitudes of the costs of subscriptions.
pub open spec fn subscriptions_abs_total(subs: Seq<SubscriptionCost>) -> int
    decreases subs.len(),
{
    if subs.len() == 0 {
        0
    } else {
        let a = subs.last().total_cost as int;
        subscriptions_abs_total(subs.drop_last()) + if a >= 0 { a } else { -a }
    }
}

/// The magnitudes of a period's costs add up to at most the limit.
pub open spec fn period_total_in_range(records: Seq<AllocationInput>, subs: Seq<SubscriptionCost>) -> bool {
    abs_total(records) + subscriptions_abs_total(subs) <= PERIOD_TOTAL_LIMIT
}

proof fn lemma_abs_total_prefix(s: Seq<AllocationInput>, k: int)
    requires
        0 <= k <= s.len(),
    ensures
        0 <= abs_total(s.subrange(0, k)) <= abs_total(s),
    decreases s.len(),
{
    if k < s.len() {
        assert(s.drop_last().subrange(0, k) =~= s.subrange(0, k));
        lemma_abs_total_prefix(s.drop_last(), k);
    } else {
        assert(s.subrange(0, k) =~= s);
        lemma_abs_total_nonneg(s);
    }
}

proof fn lemma_abs_total_nonneg(s: Seq<AllocationInput>)
    ensures
        0 <= abs_total(s),
    decreases s.len(),
{
    if s.len() > 0 {
        lemma_abs_total_nonneg(s.drop_last());
    }
}

proof fn lemma_subs_abs_total_prefix(s: Seq<SubscriptionCost>, k: int)
    requires
        0 <= k <= s.len(),
    ensures
        0 <= subscriptions_abs_total(s.subrange(0, k)) <= subscriptions_abs_total(s),
    decreases s.len(),
{
    if k < s.len() {
        assert(s.drop_last().subrange(0, k) =~= s.subrange(0, k));
        lemma_subs_abs_total_prefix(s.drop_last(), k);
    } else {
        assert(s.subrange(0, k) =~= s);
        lemma_subs_abs_total_nonneg(s);
    }
}

proof fn lemma_subs_abs_total_nonneg(s: Seq<SubscriptionCost>)
    ensures
        0 <= subscriptions_abs_total(s),
    decreases s.len(),
{
    if s.len() > 0 {
        lemma_subs_abs_total_nonneg(s.drop_last());
    }
}

/// All cost records of a period: the usage and cloud records, then the
/// prorated subscriptions.
pub open spec fn period_inputs(records: Seq<AllocationInput>, subs: Seq<SubscriptionCost>, start: int, end: int) -> Seq<AllocationInput> {
    records + subscription_inputs(subs, start, end)
}

/// The reconciliation a run records for its period.
pub open spec fn reconciliation_matches(
    rec: PeriodReconciliation,
    start: i64,
    end: i64,
    orders: int,
    inputs: Seq<AllocationInput>,
    rows: Seq<AllocationRow>,
) -> bool {
    let source = source_sum(inputs);
    let journal = keys_total(rows, charge_keys(rows));
    let variance = variance_of(source, journal);
    let pct = variance_pct_of(source, variance);
    &&& rec.period_start == start
    &&& rec.period_end == end
    &&& rec.source_total == source
    &&& rec.allocated_total == row_sum(rows)
    &&& rec.journal_total == journal
    &&& rec.variance_amount == variance
    &&& rec.variance_pct == pct
    &&& rec.orders_allocated == orders
    &&& rec.status == status_of(source, pct)
}

/// What a run for the period and inputs consists of.
pub open spec fn run_matches(
    run: AllocationRun,
    period_start: i64,
    period_end: i64,
    orders: Seq<FulfilledOrder>,
    records: Seq<AllocationInput>,
    subscriptions: Seq<SubscriptionCost>,
    usage: Seq<SkillUsage>,
) -> bool {
    let inputs = period_inputs(records, subscriptions, period_start as int, period_end as int);
    let rows = period_rows(orders, inputs, usage);
    &&& rows_of(run.allocations@) == rows
    &&& charges_match(run.charges@, rows)
    &&& reconciliation_matches(run.reconciliation, period_start, period_end, orders.len() as int, inputs, rows)
}

/// The payroll charges as plain values.
pub open spec fn charge_values(charges: Seq<PayrollCharge>) -> Seq<(u128, Seq<char>, int)> {
    charges.map_values(|c: PayrollCharge| (c.order_id, c.currency@, c.amount as int))
}

/// Re-running the allocation for an unchanged period and unchanged inputs
/// produces identical allocation rows, identical payroll charges and an
/// identical reconciliation record.
pub proof fn lemma_rerun_is_identical(
    first: AllocationRun,
    second: AllocationRun,
    period_start: i64,
    period_end: i64,
    orders: Seq<FulfilledOrder>,
    records: Seq<AllocationInput>,
    subscriptions: Seq<SubscriptionCost>,
    usage: Seq<SkillUsage>,
)
    requires
        run_matches(first, period_start, period_end, orders, records, subscriptions, usage),
        run_matches(second, period_start, period_end, orders, records, subscriptions, usage),
    ensures
        rows_of(first.allocations@) == rows_of(second.allocations@),
        charge_values(first.charges@) == charge_values(second.charges@),
        first.reconciliation == second.reconciliation,
{
    assert(charge_values(first.charges@) =~= charge_values(second.charges@)) by {
        assert forall|i: int| 0 <= i < first.charges@.len() implies charge_values(first.charges@)[i]
            == charge_values(second.charges@)[i] by {
            assert(first.charges@[i].order_id == second.charges@[i].order_id);
        }
    }
}

/// Two reconciliations are for the same period.
pub open spec fn same_period(a: PeriodReconciliation, b: PeriodReconciliation) -> bool {
    a.period_start == b.period_start && a.period_end == b.period_end
}

/// At most one reconciliation per period.
pub open spec fn periods_unique(book: Seq<PeriodReconciliation>) -> bool {
    forall|i: int, j: int|
        0 <= i < book.len() && 0 <= j < book.len() && i != j ==> !same_period(#[trigger] book[i], #[trigger] book[j])
}

/// The book after recording `rec`: it replaces the entry for its period, or
/// is appended when there is none.
pub open spec fn upserted(book: Seq<PeriodReconciliation>, rec: PeriodReconciliation) -> Seq<PeriodReconciliation> {
    if exists|i: int| 0 <= i < book.len() && same_period(#[trigger] book[i], rec) {
        let i = choose|i: int| 0 <= i < book.len() && same_period(#[trigger] book[i], rec);
        book.update(i, rec)
    } else {
        book.push(rec)
    }
}

/// Records a period's reconciliation, replacing any earlier one for the period.
pub fn upsert_reconciliation(book: &mut Vec<PeriodReconciliation>, rec: PeriodReconciliation)
    requires
        periods_unique(old(book)@),
    ensures
        final(book)@ == upserted(old(book)@, rec),
        periods_unique(final(book)@),
{
    let mut i: usize = 0;
    while i < book.len()
        invariant
            i <= book@.len(),
            book@ == old(book)@,
            periods_unique(book@),
            forall|j: int| 0 <= j < i ==> !same_period(#[trigger] book@[j], rec),
        decreases book@.len() - i,
    {
        if book[i].period_start == rec.period_start && book[i].period_end == rec.period_end {
            proof {
                let k = choose|k: int| 0 <= k < book@.len() && same_period(#[trigger] book@[k], rec);
                assert(same_period(book@[i as int], rec));
                if k != i {
                    assert(!same_period(book@[k], book@[i as int]));
                }
            }
            let ghost before = book@;
            book.set(i, rec);
            proof {
                assert forall|a: int, b: int|
                    0 <= a < book@.len() && 0 <= b < book@.len() && a != b implies !same_period(
                    #[trigger] book@[a],
                    #[trigger] book@[b],
                ) by {
                    assert(same_period(before[i as int], rec));
                    if a != i && b != i {
                        assert(!same_period(before[a], before[b]));
                    } else if a == i {
                        assert(!same_period(before[i as int], before[b]));
                    } else {
                        assert(!same_period(before[a], before[i as int]));
                    }
                }
            }
            return ;
        }
        i = i + 1;
    }
    let ghost before = book@;
    book.push(rec);
    proof {
        assert forall|a: int, b: int|
            0 <= a < book@.len() && 0 <= b < book@.len() && a != b implies !same_period(
            #[trigger] book@[a],
            #[trigger] book@[b],
        ) by {
            if a < before.len() && b < before.len() {
                assert(!same_period(before[a], before[b]));
            } else if a < before.len() {
                assert(!same_period(before[a], rec));
            } else {
                assert(!same_period(before[b], rec));
            }
        }
        assert(!(exists|k: int| 0 <= k < before.len() && same_period(#[trigger] before[k], rec)));
    }
}

/// Recording the same reconciliation twice leaves the book as recording it once.
pub proof fn lemma_upsert_idempotent(book: Seq<PeriodReconciliation>, rec: PeriodReconciliation)
    requires
        periods_unique(book),
    ensures
        upserted(upserted(book, rec), rec) == upserted(book, rec),
{
    let once = upserted(book, rec);
    let i = if exists|i: int| 0 <= i < book.len() && same_period(#[trigger] book[i], rec) {
        choose|i: int| 0 <= i < book.len() && same_period(#[trigger] book[i], rec)
    } else {
        book.len() as int
    };
    assert(once[i] == rec);
    assert(same_period(once[i], rec));
    let k = choose|k: int| 0 <= k < once.len() && same_period(#[trigger] once[k], rec);
    if k != i {
        if k < book.len() {
            assert(once[k] == book[k]);
            if i < book.len() {
                assert(!same_period(book[k], book[i]));
            }
        }
    }
    assert(once.update(k, rec) =~= once);
}

/// Runs cost allocation for the period `[period_start, period_end)` over the
/// orders fulfilled in it. `records` are the usage and cloud cost records that
/// occurred in the period, in order; `subscriptions` are those whose windows
/// overlap it; `usage` is the token cost per order and skill in the period,
/// which weighs the skill split. The result depends on these inputs alone.
#[verifier::rlimit(60)]
pub fn allocate_period(
    period_start: i64,
    period_end: i64,
    orders: &Vec<FulfilledOrder>,
    records: &Vec<AllocationInput>,
    subscriptions: &Vec<SubscriptionCost>,
    usage: &Vec<SkillUsage>,
) -> (r: Result<AllocationRun, AllocationError>)
    requires
        eligible_in_range(orders@),
        inputs_in_range(records@),
        subscriptions_in_range(subscriptions@),
        period_total_in_range(records@, subscriptions@),
        usage_in_range(usage@),
    ensures
        period_end <= period_start <==> r == Err::<AllocationRun, AllocationError>(AllocationError::InvalidPeriod),
        (period_end > period_start && orders@.len() == 0) <==> r == Err::<AllocationRun, AllocationError>(AllocationError::NoFulfilledOrders),
        r matches Ok(run) ==> run_matches(run, period_start, period_end, orders@, records@, subscriptions@, usage@),
        r matches Ok(run) ==> run.reconciliation.journal_total == run.reconciliation.allocated_total,
{
    if period_end <= period_start {
        return Err(AllocationError::InvalidPeriod);
    }
    if orders.len() == 0 {
        return Err(AllocationError::NoFulfilledOrders);
    }
    let ghost start = period_start as int;
    let ghost end = period_end as int;
    let mut rows: Vec<CostAllocation> = Vec::new();
    let mut source: i128 = 0;
    let mut allocated: i128 = 0;
    let mut i: usize = 0;
    proof {
        lemma_abs_total_nonneg(records@);
        lemma_subs_abs_total_nonneg(subscriptions@);
    }
    while i < records.len()
        invariant
            i <= records@.len(),
            orders_in_range(orders@),
            usage_in_range(usage@),
            inputs_in_range(records@),
            period_total_in_range(records@, subscriptions@),
            0 <= subscriptions_abs_total(subscriptions@),
            rows_of(rows@) == period_rows(orders@, records@.subrange(0, i as int), usage@),
            rows_in_range(rows_of(rows@)),
            source == source_sum(records@.subrange(0, i as int)),
            allocated == row_sum(rows_of(rows@)),
            -abs_total(records@.subrange(0, i as int)) <= source <= abs_total(records@.subrange(0, i as int)),
            0 <= allocated <= abs_total(records@.subrange(0, i as int)),
        decreases records@.len() - i,
    {
        proof {
            assert(records@.subrange(0, i + 1).drop_last() =~= records@.subrange(0, i as int));
            assert(records@.subrange(0, i + 1).last() == records@[i as int]);
            lemma_abs_total_prefix(records@, i + 1);
        }
        let ghost before = rows_of(rows@);
        allocate_input_cost(&mut rows, orders, &records[i], usage);
        let amount = records[i].amount;
        proof {
            lemma_row_sum_concat(before, input_rows(orders@, records@[i as int], usage@));
            if amount > 0 {
                lemma_input_rows_sum(orders@, records@[i as int], usage@);
            }
        }
        source = source + amount as i128;
        if amount > 0 {
            allocated = allocated + amount as i128;
        }
        i = i + 1;
    }
    proof {
        assert(records@.subrange(0, records@.len() as int) =~= records@);
        assert(subscription_inputs(subscriptions@.subrange(0, 0), start, end) =~= Seq::<AllocationInput>::empty());
        assert(records@ + Seq::<AllocationInput>::empty() =~= records@);
        assert(subscriptions@.subrange(0, 0) =~= Seq::<SubscriptionCost>::empty());
    }
    let mut k: usize = 0;
    while k < subscriptions.len()
        invariant
            k <= subscriptions@.len(),
            period_start < period_end,
            start == period_start,
            end == period_end,
            orders_in_range(orders@),
            usage_in_range(usage@),
            subscriptions_in_range(subscriptions@),
            period_total_in_range(records@, subscriptions@),
            ({
                let all = records@ + subscription_inputs(subscriptions@.subrange(0, k as int), start, end);
                &&& rows_of(rows@) == period_rows(orders@, all, usage@)
                &&& source == source_sum(all)
                &&& allocated == row_sum(rows_of(rows@))
                &&& abs_total(all) <= abs_total(records@) + subscriptions_abs_total(subscriptions@.subrange(0, k as int))
                &&& -abs_total(all) <= source <= abs_total(all)
                &&& 0 <= allocated <= abs_total(all)
                &&& inputs_in_range(all)
            }),
            rows_in_range(rows_of(rows@)),
        decreases subscriptions@.len() - k,
    {
        let sub = &subscriptions[k];
        let ghost prev_all = records@ + subscription_inputs(subscriptions@.subrange(0, k as int), start, end);
        proof {
            assert(subscriptions@.subrange(0, k + 1).drop_last() =~= subscriptions@.subrange(0, k as int));
            assert(subscriptions@.subrange(0, k + 1).last() == subscriptions@[k as int]);
            lemma_subs_abs_total_prefix(subscriptions@, k + 1);
            lemma_subs_abs_total_prefix(subscriptions@, k as int);
        }
        let prorated = prorate_subscription(sub.period_start, sub.period_end, sub.total_cost, period_start, period_end);
        match prorated {
            Some(amount) => {
                let input = AllocationInput {
                    source_type: CostSource::Subscription,
                    source_id: sub.source_id,
                    order_id: None,
                    amount,
                    currency: sub.currency.clone(),
                    agent_id: None,
                    skill_id: None,
                };
                let ghost before = rows_of(rows@);
                allocate_input_cost(&mut rows, orders, &input, usage);
                proof {
                    lemma_row_sum_concat(before, input_rows(orders@, input, usage@));
                    if amount > 0 {
                        lemma_input_rows_sum(orders@, input, usage@);
                    }
                    let all = records@ + subscription_inputs(subscriptions@.subrange(0, k + 1), start, end);
                    assert(all =~= prev_all.push(input));
                    assert(all.drop_last() =~= prev_all);
                }
                source = source + amount as i128;
                if amount > 0 {
                    allocated = allocated + amount as i128;
                }
            },
            None => {
                proof {
                    let all = records@ + subscription_inputs(subscriptions@.subrange(0, k + 1), start, end);
                    assert(all =~= prev_all);
                }
            },
        }
        k = k + 1;
    }
    let ghost inputs = period_inputs(records@, subscriptions@, start, end);
    proof {
        assert(subscriptions@.subrange(0, subscriptions@.len() as int) =~= subscriptions@);
    }
    let ghost rv = rows_of(rows@);
    let charges = payroll_charges(&rows);
    let ghost keys = charge_keys(rv);
    let mut journal: i128 = 0;
    let mut c: usize = 0;
    while c < charges.len()
        invariant
            c <= charges@.len(),
            charges_match(charges@, rv),
            keys == charge_keys(rv),
            journal == keys_total(rv, keys.subrange(0, c as int)),
            journal <= allocated,
            allocated == row_sum(rv),
            0 <= journal,
            rows_in_range(rv),
        decreases charges@.len() - c,
    {
        proof {
            assert(keys.subrange(0, c + 1).drop_last() =~= keys.subrange(0, c as int));
            lemma_keys_prefix_le(rv, keys, c + 1);
            lemma_key_total_bounds(rv, keys[c as int]);
        }
        journal = journal + charges[c].amount;
        c = c + 1;
    }
    proof {
        assert(keys.subrange(0, keys.len() as int) =~= keys);
        lemma_charges_cover_rows(rv);
    }
    let variance: i128 = if source >= journal { source - journal } else { journal - source };
    assert(0 <= variance <= 20000000000000000000000000000000i128);
    let pct: i128 = if source > 0 {
        assert(variance * 1000000 <= 170141183460469231731687303715884105727) by (nonlinear_arith)
            requires 0 <= variance <= 20000000000000000000000000000000i128;
        div_round((variance as u128) * 1000000, source as u128) as i128
    } else {
        0
    };
    let status = if source == 0 {
        ReconciliationStatus::NoSourceCosts
    } else if pct <= VARIANCE_TOLERANCE_PCT {
        ReconciliationStatus::Balanced
    } else {
        ReconciliationStatus::OutOfTolerance
    };
    let reconciliation = PeriodReconciliation {
        period_start,
        period_end,
        source_total: source,
        allocated_total: allocated,
        journal_total: journal,
        variance_amount: variance,
        variance_pct: pct,
        orders_allocated: orders.len() as u64,
        status,
    };
    Ok(AllocationRun { allocations: rows, charges, reconciliation })
}

proof fn lemma_keys_prefix_le(rows: Seq<AllocationRow>, keys: Seq<(u128, Seq<char>)>, c: int)
    requires
        0 <= c <= keys.len(),
        keys == charge_keys(rows),
        rows_in_range(rows),
    ensures
        keys_total(rows, keys.subrange(0, c)) <= row_sum(rows),
        0 <= keys_total(rows, keys.subrange(0, c)),
    decreases keys.len() - c,
{
    lemma_keys_total_nonneg(rows, keys.subrange(0, c));
    if c < keys.len() {
        lemma_keys_prefix_le(rows, keys, c + 1);
        assert(keys.subrange(0, c + 1).drop_last() =~= keys.subrange(0, c));
        lemma_key_total_bounds(rows, keys[c]);
    } else {
        assert(keys.subrange(0, c) =~= keys);
        lemma_charges_cover_rows(rows);
    }
}

proof fn lemma_keys_total_nonneg(rows: Seq<AllocationRow>, keys: Seq<(u128, Seq<char>)>)
    requires
        rows_in_range(rows),
    ensures
        0 <= keys_total(rows, keys),
    decreases keys.len(),
{
    if keys.len() > 0 {
        lemma_keys_total_nonneg(rows, keys.drop_last());
        lemma_key_total_bounds(rows, keys.last());
    }
}

/// An order fulfilled inside `[start, end)`.
pub open spec fn is_eligible(o: Order, start: i64, end: i64) -> bool {
    &&& o.status == OrderStatus::Fulfilled
    &&& o.fulfilled_at matches Some(t) && start <= t < end
}

/// Orders listed by strictly increasing id.
pub open spec fn sorted_by_id(s: Seq<FulfilledOrder>) -> bool {
    forall|i: int, j: int| 0 <= i < j < s.len() ==> (#[trigger] s[i]).order_id < (#[trigger] s[j]).order_id
}

/// Orders whose quantity, price and revenue are in range.
pub open spec fn orders_priced_in_range(orders: Seq<Order>) -> bool {
    forall|i: int| 0 <= i < orders.len() ==> {
        &&& 0 <= (#[trigger] orders[i]).quantity <= MAX_AMOUNT
        &&& 0 <= orders[i].unit_price <= MAX_AMOUNT
        &&& orders[i].quantity * orders[i].unit_price <= MAX_AMOUNT * SCALE
    }
}

/// `f` is an eligible order of `orders` with its revenue.
pub open spec fn from_eligible(f: FulfilledOrder, orders: Seq<Order>, start: i64, end: i64) -> bool {
    exists|i: int| 0 <= i < orders.len() && is_eligible(#[trigger] orders[i], start, end)
        && orders[i].id == f.order_id
        && f.revenue == revenue_of(orders[i].quantity as int, orders[i].unit_price as int)
}

/// `r` lists, by increasing id, one entry per id of an order of `orders`
/// eligible for the period, each with the revenue of such an order.
pub open spec fn lists_eligible(r: Seq<FulfilledOrder>, orders: Seq<Order>, start: i64, end: i64) -> bool {
    &&& sorted_by_id(r)
    &&& forall|k: int| 0 <= k < r.len() ==> from_eligible(#[trigger] r[k], orders, start, end)
    &&& forall|i: int| 0 <= i < orders.len() && is_eligible(#[trigger] orders[i], start, end) ==>
        exists|k: int| 0 <= k < r.len() && r[k].order_id == orders[i].id
}

/// Inserts `item` at its place by id unless its id is already listed; gives
/// whether it was inserted and the place of its id.
fn insert_by_id(out: &mut Vec<FulfilledOrder>, item: FulfilledOrder) -> (r: (bool, usize))
    requires
        sorted_by_id(old(out)@),
    ensures
        sorted_by_id(final(out)@),
        r.0 ==> r.1 <= old(out)@.len() && final(out)@ == old(out)@.insert(r.1 as int, item),
        !r.0 ==> r.1 < old(out)@.len() && final(out)@ == old(out)@ && old(out)@[r.1 as int].order_id == item.order_id,
{
    let ghost before = out@;
    let mut pos: usize = 0;
    while pos < out.len() && out[pos].order_id < item.order_id
        invariant
            pos <= out@.len(),
            out@ == before,
            forall|k: int| 0 <= k < pos ==> (#[trigger] out@[k]).order_id < item.order_id,
        decreases out@.len() - pos,
    {
        pos = pos + 1;
    }
    if pos < out.len() && out[pos].order_id == item.order_id {
        return (false, pos);
    }
    out.insert(pos, item);
    proof {
        assert(out@[pos as int] == item);
        assert(pos < before.len() ==> before[pos as int].order_id > item.order_id);
        assert forall|a: int, b: int| 0 <= a < b < out@.len() implies (#[trigger] out@[a]).order_id < (#[trigger] out@[b]).order_id by {
            if b < pos {
                assert(out@[a] == before[a] && out@[b] == before[b]);
            } else if b == pos {
                assert(out@[a] == before[a]);
            } else if a < pos {
                assert(out@[a] == before[a] && out@[b] == before[b - 1]);
                assert(before[a].order_id < item.order_id);
                if b - 1 > pos {
                    assert(before[pos as int].order_id < before[b - 1].order_id);
                }
            } else if a == pos {
                assert(out@[b] == before[b - 1]);
                if b - 1 > pos {
                    assert(before[pos as int].order_id < before[b - 1].order_id);
                }
            } else {
                assert(out@[a] == before[a - 1] && out@[b] == before[b - 1]);
            }
        }
    }
    (true, pos)
}

/// Each listed order comes from the eligible order at the matching index.
pub open spec fn sourced(out: Seq<FulfilledOrder>, src: Seq<int>, orders: Seq<Order>, n: int, start: i64, end: i64) -> bool {
    &&& src.len() == out.len()
    &&& forall|k: int| 0 <= k < out.len() ==> {
        let x = #[trigger] src[k];
        &&& 0 <= x < n
        &&& is_eligible(orders[x], start, end)
        &&& orders[x].id == out[k].order_id
        &&& out[k].revenue == revenue_of(orders[x].quantity as int, orders[x].unit_price as int)
        &&& 0 <= out[k].revenue <= MAX_AMOUNT
    }
}

/// Every eligible order among the first `n` has its id listed.
pub open spec fn covered(out: Seq<FulfilledOrder>, orders: Seq<Order>, n: int, start: i64, end: i64) -> bool {
    forall|x: int| 0 <= x < n && is_eligible(#[trigger] orders[x], start, end) ==>
        exists|k: int| 0 <= k < out.len() && out[k].order_id == orders[x].id
}

proof fn lemma_covered_after_insert(before: Seq<FulfilledOrder>, out: Seq<FulfilledOrder>, orders: Seq<Order>, i: int, start: i64, end: i64, r: (bool, usize), item: FulfilledOrder)
    requires
        covered(before, orders, i, start, end),
        0 <= i < orders.len(),
        item.order_id == orders[i].id,
        r.0 ==> r.1 <= before.len() && out == before.insert(r.1 as int, item),
        !r.0 ==> r.1 < before.len() && out == before && before[r.1 as int].order_id == item.order_id,
    ensures
        covered(out, orders, i + 1, start, end),
{
    assert forall|x: int| 0 <= x < i + 1 && is_eligible(#[trigger] orders[x], start, end) implies
        exists|k: int| 0 <= k < out.len() && out[k].order_id == orders[x].id by {
        if x == i {
            if r.0 {
                assert(out[r.1 as int] == item);
            } else {
                assert(out[r.1 as int].order_id == item.order_id);
            }
        } else {
            let kb = choose|kb: int| 0 <= kb < before.len() && before[kb].order_id == orders[x].id;
            if r.0 && kb >= r.1 {
                assert(out[kb + 1] == before[kb]);
            } else {
                assert(out[kb] == before[kb]);
            }
        }
    }
}

proof fn lemma_covered_skip(out: Seq<FulfilledOrder>, orders: Seq<Order>, i: int, start: i64, end: i64)
    requires
        covered(out, orders, i, start, end),
        0 <= i < orders.len(),
        !is_eligible(orders[i], start, end),
    ensures
        covered(out, orders, i + 1, start, end),
{
    assert forall|x: int| 0 <= x < i + 1 && is_eligible(#[trigger] orders[x], start, end) implies
        exists|k: int| 0 <= k < out.len() && out[k].order_id == orders[x].id by {
        assert(x != i);
    }
}

proof fn lemma_sourced_after_insert(before: Seq<FulfilledOrder>, out: Seq<FulfilledOrder>, src: Seq<int>, orders: Seq<Order>, i: int, start: i64, end: i64, item: FulfilledOrder, p: int)
    requires
        sourced(before, src, orders, i, start, end),
        0 <= i < orders.len(),
        0 <= p <= before.len(),
        out == before.insert(p, item),
        is_eligible(orders[i], start, end),
        item.order_id == orders[i].id,
        item.revenue == revenue_of(orders[i].quantity as int, orders[i].unit_price as int),
        0 <= item.revenue <= MAX_AMOUNT,
    ensures
        sourced(out, src.insert(p, i), orders, i + 1, start, end),
{
    let s2 = src.insert(p, i);
    assert forall|k: int| 0 <= k < out.len() implies {
        let x = #[trigger] s2[k];
        &&& 0 <= x < i + 1
        &&& is_eligible(orders[x], start, end)
        &&& orders[x].id == out[k].order_id
        &&& out[k].revenue == revenue_of(orders[x].quantity as int, orders[x].unit_price as int)
        &&& 0 <= out[k].revenue <= MAX_AMOUNT
    } by {
        if k < p {
            assert(s2[k] == src[k] && out[k] == before[k]);
        } else if k > p {
            assert(s2[k] == src[k - 1] && out[k] == before[k - 1]);
        } else {
            assert(s2[k] == i && out[k] == item);
        }
    }
}

proof fn lemma_sourced_grow(out: Seq<FulfilledOrder>, src: Seq<int>, orders: Seq<Order>, i: int, start: i64, end: i64)
    requires
        sourced(out, src, orders, i, start, end),
    ensures
        sourced(out, src, orders, i + 1, start, end),
{
    assert forall|k: int| 0 <= k < out.len() implies {
        let x = #[trigger] src[k];
        &&& 0 <= x < i + 1
        &&& is_eligible(orders[x], start, end)
        &&& orders[x].id == out[k].order_id
        &&& out[k].revenue == revenue_of(orders[x].quantity as int, orders[x].unit_price as int)
        &&& 0 <= out[k].revenue <= MAX_AMOUNT
    } by {
        let x = src[k];
        assert(0 <= x < i);
    }
}

proof fn lemma_lists_eligible(out: Seq<FulfilledOrder>, src: Seq<int>, orders: Seq<Order>, start: i64, end: i64)
    requires
        sorted_by_id(out),
        sourced(out, src, orders, orders.len() as int, start, end),
        covered(out, orders, orders.len() as int, start, end),
    ensures
        lists_eligible(out, orders, start, end),
        forall|k: int| 0 <= k < out.len() ==> 0 <= #[trigger] out[k].revenue <= MAX_AMOUNT,
{
    assert forall|k: int| 0 <= k < out.len() implies from_eligible(#[trigger] out[k], orders, start, end) by {
        let x = src[k];
        assert(0 <= x < orders.len());
        assert(is_eligible(orders[x], start, end));
    }
    assert forall|i: int| 0 <= i < orders.len() && is_eligible(#[trigger] orders[i], start, end) implies
        exists|k: int| 0 <= k < out.len() && out[k].order_id == orders[i].id by {
    }
    assert forall|k: int| 0 <= k < out.len() implies 0 <= #[trigger] out[k].revenue <= MAX_AMOUNT by {
        let x = src[k];
    }
}

/// The orders fulfilled inside the period with their revenues, ordered by
/// id: the fixed order that decides which order absorbs a remainder.
pub fn eligible_orders(orders: &Vec<Order>, start: i64, end: i64) -> (r: Vec<FulfilledOrder>)
    requires
        orders_priced_in_range(orders@),
    ensures
        lists_eligible(r@, orders@, start, end),
        r@.len() <= orders@.len(),
        forall|k: int| 0 <= k < r@.len() ==> 0 <= #[trigger] r@[k].revenue <= MAX_AMOUNT,
{
    let mut out: Vec<FulfilledOrder> = Vec::new();
    let ghost mut src: Seq<int> = Seq::empty();
    let mut i: usize = 0;
    while i < orders.len()
        invariant
            i <= orders@.len(),
            orders_priced_in_range(orders@),
            out@.len() <= i,
            sorted_by_id(out@),
            sourced(out@, src, orders@, i as int, start, end),
            covered(out@, orders@, i as int, start, end),
        decreases orders@.len() - i,
    {
        let o = &orders[i];
        let eligible = match o.status {
            OrderStatus::Fulfilled => match o.fulfilled_at {
                Some(t) => start <= t && t < end,
                None => false,
            },
            _ => false,
        };
        let ghost before = out@;
        if eligible {
            proof {
                assert(0 <= o.quantity <= MAX_AMOUNT && 0 <= o.unit_price <= MAX_AMOUNT);
                assert(0 <= o.quantity * o.unit_price) by (nonlinear_arith)
                    requires 0 <= o.quantity, 0 <= o.unit_price;
                lemma_round_close((o.quantity * o.unit_price) as int, SCALE as int);
            }
            let revenue = crate::money::mul_scaled(o.quantity, o.unit_price);
            let item = FulfilledOrder { order_id: o.id, revenue };
            let placed = insert_by_id(&mut out, item);
            proof {
                lemma_covered_after_insert(before, out@, orders@, i as int, start, end, placed, item);
                if placed.0 {
                    lemma_sourced_after_insert(before, out@, src, orders@, i as int, start, end, item, placed.1 as int);
                    src = src.insert(placed.1 as int, i as int);
                } else {
                    lemma_sourced_grow(out@, src, orders@, i as int, start, end);
                }
            }
        } else {
            proof {
                lemma_covered_skip(out@, orders@, i as int, start, end);
                lemma_sourced_grow(out@, src, orders@, i as int, start, end);
            }
        }
        i = i + 1;
    }
    proof {
        lemma_lists_eligible(out@, src, orders@, start, end);
    }
    out
}

/// Runs cost allocation for the period over the orders fulfilled in it,
/// picked from `orders` and taken by increasing id.
pub fn allocate_period_for_orders(
    period_start: i64,
    period_end: i64,
    orders: &Vec<Order>,
    records: &Vec<AllocationInput>,
    subscriptions: &Vec<SubscriptionCost>,
    usage: &Vec<SkillUsage>,
) -> (r: Result<AllocationRun, AllocationError>)
    requires
        orders_priced_in_range(orders@),
        inputs_in_range(records@),
        subscriptions_in_range(subscriptions@),
        period_total_in_range(records@, subscriptions@),
        usage_in_range(usage@),
    ensures
        period_end <= period_start <==> r == Err::<AllocationRun, AllocationError>(AllocationError::InvalidPeriod),
        (period_end > period_start && !(exists|i: int| 0 <= i < orders@.len() && is_eligible(#[trigger] orders@[i], period_start, period_end)))
            <==> r == Err::<AllocationRun, AllocationError>(AllocationError::NoFulfilledOrders),
        r matches Ok(run) ==> exists|eligible: Seq<FulfilledOrder>| {
            &&& lists_eligible(eligible, orders@, period_start, period_end)
            &&& #[trigger] run_matches(run, period_start, period_end, eligible, records@, subscriptions@, usage@)
        },
{
    let eligible = eligible_orders(orders, period_start, period_end);
    proof {
        if eligible@.len() == 0 {
            assert forall|i: int| 0 <= i < orders@.len() implies !is_eligible(#[trigger] orders@[i], period_start, period_end) by {
                if is_eligible(orders@[i], period_start, period_end) {
                    let k = choose|k: int| 0 <= k < eligible@.len() && eligible@[k].order_id == orders@[i].id;
                }
            }
        } else {
            assert(from_eligible(eligible@[0], orders@, period_start, period_end));
        }
    }
    let r = allocate_period(period_start, period_end, &eligible, records, subscriptions, usage);
    proof {
        if r is Ok {
            assert(run_matches(r.unwrap(), period_start, period_end, eligible@, records@, subscriptions@, usage@));
        }
    }
    r
}

} // verus!
