use zavora::allocation::{
    allocate_input_cost, split_amount_by_skill, AllocationBasis, AllocationInput, CostSource,
    FulfilledOrder, SkillUsage,
};
use zavora::fulfillment::{Order, OrderStatus};
use zavora::orders::TransactionType;
use zavora::period::{
    allocate_period, allocate_period_for_orders, eligible_orders, payroll_charges, prorate_subscription, upsert_reconciliation, AllocationError,
    ReconciliationStatus, SubscriptionCost,
};
use zavora::proration::split_remainder_safe;

fn input(order_id: Option<u128>, amount: i64, skill: Option<&str>) -> AllocationInput {
    AllocationInput {
        source_type: CostSource::Token,
        source_id: 900,
        order_id,
        amount,
        currency: "USD".to_string(),
        agent_id: Some("ops-orchestrator-agent".to_string()),
        skill_id: skill.map(|s| s.to_string()),
    }
}

fn orders3() -> Vec<FulfilledOrder> {
    vec![
        FulfilledOrder { order_id: 1, revenue: 500_000 },
        FulfilledOrder { order_id: 2, revenue: 500_000 },
        FulfilledOrder { order_id: 3, revenue: 500_000 },
    ]
}

#[test]
fn hundred_split_three_ways_last_absorbs_remainder() {
    let parts = split_remainder_safe(1_000_000, &vec![1, 1, 1]);
    assert_eq!(parts, vec![333_333, 333_333, 333_334]);
    assert_eq!(parts.iter().sum::<i64>(), 1_000_000);
    let equal = split_remainder_safe(1_000_000, &vec![0, 0, 0]);
    assert_eq!(equal, vec![333_333, 333_333, 333_334]);
}

#[test]
fn revenue_share_split_is_proportional() {
    let parts = split_remainder_safe(1_000_000, &vec![100, 300]);
    assert_eq!(parts, vec![250_000, 750_000]);
    // Shares that round up are capped at what is left: no part is negative.
    let parts = split_remainder_safe(10, &vec![1, 1, 1, 1, 1, 1, 1, 1, 1, 1, 1, 1]);
    assert_eq!(parts, vec![1, 1, 1, 1, 1, 1, 1, 1, 1, 1, 0, 0]);
}

#[test]
fn allocation_of_one_record_over_three_orders() {
    let mut rows = Vec::new();
    allocate_input_cost(&mut rows, &orders3(), &input(None, 1_000_000, None), &Vec::new());
    let amounts: Vec<i64> = rows.iter().map(|r| r.allocated_cost).collect();
    assert_eq!(amounts, vec![333_333, 333_333, 333_334]);
    assert!(rows.iter().all(|r| r.basis == AllocationBasis::RevenueShare && r.skill_id.is_none()));
    assert_eq!(rows[2].order_id, 3);
}

#[test]
fn direct_order_record_goes_to_that_order_and_named_skill() {
    let mut rows = Vec::new();
    allocate_input_cost(&mut rows, &orders3(), &input(Some(2), 55_000, Some("  writer  ")), &Vec::new());
    assert_eq!(rows.len(), 1);
    assert_eq!(rows[0].order_id, 2);
    assert_eq!(rows[0].basis, AllocationBasis::DirectOrder);
    assert_eq!(rows[0].skill_id.as_deref(), Some("writer"));
    assert_eq!(rows[0].allocated_cost, 55_000);
}

#[test]
fn skill_split_by_token_weights() {
    let usage = vec![
        SkillUsage { order_id: 1, skill_id: "a".to_string(), cost: 10_000 },
        SkillUsage { order_id: 1, skill_id: "b".to_string(), cost: 30_000 },
        SkillUsage { order_id: 2, skill_id: "c".to_string(), cost: 50_000 },
        SkillUsage { order_id: 1, skill_id: "   ".to_string(), cost: 50_000 },
    ];
    let shares = split_amount_by_skill(100_001, &None, &usage, 1);
    assert_eq!(shares.len(), 2);
    assert_eq!(shares[0].skill_id.as_deref(), Some("a"));
    assert_eq!(shares[0].amount, 25_000);
    assert_eq!(shares[1].skill_id.as_deref(), Some("b"));
    assert_eq!(shares[1].amount, 75_001);
    let none = split_amount_by_skill(100, &Some(" ".to_string()), &usage, 9);
    assert_eq!(none.len(), 1);
    assert!(none[0].skill_id.is_none());
}

#[test]
fn subscription_is_prorated_by_overlap() {
    // a 10-day subscription of 100.00, 5 days inside the period
    let day = 86_400i64;
    let r = prorate_subscription(0, 10 * day, 1_000_000, 5 * day, 20 * day);
    assert_eq!(r, Some(500_000));
    // a third of the window: ratio 0.33333333, cost 33.333333 -> 33.3333
    let r = prorate_subscription(0, 3 * day, 1_000_000, 2 * day, 9 * day);
    assert_eq!(r, Some(333_333));
    assert_eq!(prorate_subscription(0, 0, 1_000_000, 0, day), None);
    assert_eq!(prorate_subscription(0, day, 1_000_000, day, 2 * day), None);
}

fn run_inputs() -> (Vec<AllocationInput>, Vec<SubscriptionCost>, Vec<SkillUsage>) {
    let records = vec![input(None, 1_000_000, None), input(Some(2), 20_000, None)];
    let subs = vec![SubscriptionCost {
        source_id: 77,
        period_start: 0,
        period_end: 200,
        total_cost: 400_000,
        currency: "USD".to_string(),
    }];
    let usage = vec![SkillUsage { order_id: 3, skill_id: "x".to_string(), cost: 1 }];
    (records, subs, usage)
}

#[test]
fn period_run_reconciles_and_reruns_identically() {
    let (records, subs, usage) = run_inputs();
    let first = allocate_period(100, 200, &orders3(), &records, &subs, &usage).ok().unwrap();
    let second = allocate_period(100, 200, &orders3(), &records, &subs, &usage).ok().unwrap();
    let rows = |run: &zavora::period::AllocationRun| {
        run.allocations
            .iter()
            .map(|r| (r.order_id, r.source_id, r.allocated_cost, r.skill_id.clone()))
            .collect::<Vec<_>>()
    };
    assert_eq!(rows(&first), rows(&second));
    assert_eq!(first.reconciliation, second.reconciliation);
    let rec = first.reconciliation;
    // 100.00 + 2.00 + half of 40.00
    assert_eq!(rec.source_total, 1_220_000);
    assert_eq!(rec.allocated_total, 1_220_000);
    assert_eq!(rec.journal_total, 1_220_000);
    assert_eq!(rec.variance_amount, 0);
    assert_eq!(rec.status, ReconciliationStatus::Balanced);
    assert_eq!(rec.orders_allocated, 3);
    let per_order: Vec<(u128, i128)> = first.charges.iter().map(|c| (c.order_id, c.amount)).collect();
    assert_eq!(per_order, vec![(1, 333_333 + 66_667), (2, 333_333 + 20_000 + 66_667), (3, 333_334 + 66_666)]);
    assert_eq!(payroll_charges(&first.allocations).len(), 3);
    let mut book = Vec::new();
    upsert_reconciliation(&mut book, rec);
    upsert_reconciliation(&mut book, second.reconciliation);
    assert_eq!(book.len(), 1);
    assert_eq!(book[0], rec);
}

#[test]
fn period_without_costs_has_no_source_costs_status() {
    let run = allocate_period(0, 10, &orders3(), &Vec::new(), &Vec::new(), &Vec::new()).ok().unwrap();
    assert_eq!(run.reconciliation.status, ReconciliationStatus::NoSourceCosts);
    assert_eq!(run.reconciliation.variance_pct, 0);
    assert!(run.allocations.is_empty());
}

#[test]
fn period_errors() {
    let r = allocate_period(10, 10, &orders3(), &Vec::new(), &Vec::new(), &Vec::new());
    assert!(matches!(r, Err(AllocationError::InvalidPeriod)));
    let r = allocate_period(0, 10, &Vec::new(), &Vec::new(), &Vec::new(), &Vec::new());
    assert!(matches!(r, Err(AllocationError::NoFulfilledOrders)));
}

#[test]
fn zero_revenue_orders_split_equally() {
    let orders = vec![
        FulfilledOrder { order_id: 1, revenue: 0 },
        FulfilledOrder { order_id: 2, revenue: 0 },
    ];
    let mut rows = Vec::new();
    allocate_input_cost(&mut rows, &orders, &input(None, 10_001, None), &Vec::new());
    let amounts: Vec<i64> = rows.iter().map(|r| r.allocated_cost).collect();
    assert_eq!(amounts, vec![5_000, 5_001]);
}

#[test]
fn rows_of_a_record_add_up_to_its_amount() {
    // 0.0003 over five orders of equal revenue: 0.0001 three times, then nothing.
    let orders: Vec<FulfilledOrder> = (1..=5).map(|i| FulfilledOrder { order_id: i, revenue: 10_000 }).collect();
    let mut rows = Vec::new();
    allocate_input_cost(&mut rows, &orders, &input(None, 3, None), &Vec::new());
    let amounts: Vec<(u128, i64)> = rows.iter().map(|r| (r.order_id, r.allocated_cost)).collect();
    assert_eq!(amounts, vec![(1, 1), (2, 1), (3, 1)]);
    // The same over five skills of equal token cost on one order.
    let usage: Vec<SkillUsage> = ["a", "b", "c", "d", "e"]
        .iter()
        .map(|s| SkillUsage { order_id: 2, skill_id: s.to_string(), cost: 100 })
        .collect();
    let mut rows = Vec::new();
    allocate_input_cost(&mut rows, &orders, &input(Some(2), 3, None), &usage);
    assert_eq!(rows.iter().map(|r| r.allocated_cost).sum::<i64>(), 3);
    assert_eq!(rows.len(), 3);
    let shares = split_amount_by_skill(3, &None, &usage, 2);
    assert_eq!(shares.iter().map(|s| s.amount).collect::<Vec<_>>(), vec![1, 1, 1, 0, 0]);
}

#[test]
fn zero_amount_has_no_skill_shares() {
    assert!(split_amount_by_skill(0, &Some("x".to_string()), &Vec::new(), 1).is_empty());
}

#[test]
fn skill_weights_are_summed_per_skill_and_ordered_by_name() {
    let usage = vec![
        SkillUsage { order_id: 1, skill_id: "b".to_string(), cost: 10_000 },
        SkillUsage { order_id: 1, skill_id: "a".to_string(), cost: 5_000 },
        SkillUsage { order_id: 1, skill_id: "a".to_string(), cost: 15_000 },
        SkillUsage { order_id: 1, skill_id: "c".to_string(), cost: 0 },
    ];
    let shares = split_amount_by_skill(30_000, &None, &usage, 1);
    let got: Vec<(Option<String>, i64)> = shares.iter().map(|s| (s.skill_id.clone(), s.amount)).collect();
    assert_eq!(got, vec![(Some("a".to_string()), 20_000), (Some("b".to_string()), 10_000)]);
}

#[test]
fn out_of_tolerance_when_journal_differs_from_source() {
    // A negative record counts in the source total but allocates nothing.
    let records = vec![input(None, 20_000, None), input(None, -10_000, None)];
    let run = allocate_period(0, 10, &orders3(), &records, &Vec::new(), &Vec::new()).ok().unwrap();
    let rec = run.reconciliation;
    assert_eq!(rec.source_total, 10_000);
    assert_eq!(rec.allocated_total, 20_000);
    assert_eq!(rec.journal_total, 20_000);
    assert_eq!(rec.variance_amount, 10_000);
    assert_eq!(rec.variance_pct, 1_000_000);
    assert_eq!(rec.status, ReconciliationStatus::OutOfTolerance);
}

fn fulfilled(id: u128, status: OrderStatus, at: Option<i64>, quantity: i64, unit_price: i64) -> Order {
    Order {
        id,
        transaction_type: TransactionType::Product,
        item_code: "SKU".to_string(),
        quantity,
        unit_price,
        currency: "USD".to_string(),
        status,
        fulfilled_at: at,
        failure_reason: None,
    }
}

#[test]
fn eligible_orders_are_filtered_and_sorted_by_id() {
    let orders = vec![
        fulfilled(30, OrderStatus::Fulfilled, Some(150), 20_000, 500_000),
        fulfilled(10, OrderStatus::Fulfilled, Some(100), 10_000, 10_000),
        fulfilled(20, OrderStatus::Failed, Some(120), 10_000, 10_000),
        fulfilled(40, OrderStatus::Fulfilled, Some(200), 10_000, 10_000),
        fulfilled(5, OrderStatus::Fulfilled, None, 10_000, 10_000),
        fulfilled(15, OrderStatus::Fulfilled, Some(199), 15_000, 10_000),
    ];
    let picked = eligible_orders(&orders, 100, 200);
    let listed: Vec<(u128, i64)> = picked.iter().map(|o| (o.order_id, o.revenue)).collect();
    assert_eq!(listed, vec![(10, 10_000), (15, 15_000), (30, 1_000_000)]);
    let run = allocate_period_for_orders(100, 200, &orders, &vec![input(None, 30_000, None)], &Vec::new(), &Vec::new())
        .ok()
        .unwrap();
    let rows: Vec<(u128, i64)> = run.allocations.iter().map(|r| (r.order_id, r.allocated_cost)).collect();
    // revenue shares of 3.00 over 1.00, 1.50 and 100.00
    assert_eq!(rows, vec![(10, 293), (15, 439), (30, 29_268)]);
    let none = allocate_period_for_orders(0, 50, &orders, &Vec::new(), &Vec::new(), &Vec::new());
    assert!(matches!(none, Err(AllocationError::NoFulfilledOrders)));
}
