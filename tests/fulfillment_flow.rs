use zavora::executor::{ExecutorState, InvocationStatus, NextStep, SkillExecutor};
use zavora::fulfillment::{fulfill_order, FulfillmentError, Order, OrderStatus};
use zavora::inventory::{InventoryError, InventoryPosition, MovementKind};
use zavora::ledger::{invoice_journal, order_journal, JournalLine};
use zavora::orders::TransactionType;
use zavora::process::{complete_order, start_execution, ProcessFailure};
use zavora::skills::{build_skill_input_payload, FieldValue, RoutingPolicy, RoutingScope, SkillRef};

fn order(kind: TransactionType, quantity: i64, unit_price: i64) -> Order {
    Order {
        id: 7,
        transaction_type: kind,
        item_code: "SKU-1".to_string(),
        quantity,
        unit_price,
        currency: "USD".to_string(),
        status: OrderStatus::New,
        fulfilled_at: None,
        failure_reason: None,
    }
}

fn totals(lines: &[JournalLine]) -> (i128, i128) {
    let d = lines.iter().map(|l| l.debit).sum();
    let c = lines.iter().map(|l| l.credit).sum();
    (d, c)
}

fn policy(max_retries: u32, fallback: bool) -> RoutingPolicy {
    RoutingPolicy {
        intent: "ORDER_EXECUTION_PRODUCT".to_string(),
        scope: RoutingScope::Product,
        capability: "fulfillment-execution".to_string(),
        primary: SkillRef { skill_id: "product-fulfillment".to_string(), version: "v1".to_string() },
        fallback: if fallback {
            Some(SkillRef { skill_id: "safe-fulfillment".to_string(), version: "v1".to_string() })
        } else {
            None
        },
        max_retries,
        escalation_action_type: "ORDER_EXECUTION_PRODUCT".to_string(),
    }
}

#[test]
fn end_to_end_product_order_procures_and_posts() {
    let mut o = order(TransactionType::Product, 20_000, 500_000);
    let mut pos = InventoryPosition::new("SKU-1".to_string());
    let f = fulfill_order(&mut o, &mut pos, 1_700_000_000).ok().unwrap();
    let receipt = f.receipt.unwrap();
    assert_eq!(receipt.kind, MovementKind::Receipt);
    assert_eq!(receipt.quantity, 20_000);
    assert_eq!(receipt.unit_cost, 300_000);
    let issue = f.issue.unwrap();
    assert_eq!(issue.kind, MovementKind::Issue);
    assert_eq!(issue.unit_cost, 300_000);
    assert_eq!(pos.average_cost, 300_000);
    assert_eq!(pos.quantity_on_hand, 0);
    assert_eq!(f.cogs, 600_000);
    assert_eq!(f.revenue, 1_000_000);
    assert_eq!(f.journal.len(), 6);
    // Debits equal credits: receivable, cost of sales and cash (100 + 60 + 100)
    // against revenue, inventory and receivable settled (100 + 60 + 100).
    assert_eq!(totals(&f.journal), (2_600_000, 2_600_000));
    assert_eq!(f.settlement.amount, 1_000_000);
    assert_eq!(o.status, OrderStatus::Fulfilled);
    assert_eq!(o.fulfilled_at, Some(1_700_000_000));
    let accounts: Vec<&str> = f.journal.iter().map(|l| l.account.as_str()).collect();
    assert_eq!(accounts, vec!["1100", "4000", "5000", "1300", "1000", "1100"]);
}

#[test]
fn service_order_books_thirty_percent_cost_and_balances() {
    let mut o = order(TransactionType::Service, 30_000, 123_456);
    let mut pos = InventoryPosition::new("SVC".to_string());
    let f = fulfill_order(&mut o, &mut pos, 5).ok().unwrap();
    // revenue 3 x 12.3456 = 37.0368; cost 30% = 11.11104 -> 11.1110
    assert_eq!(f.revenue, 370_368);
    assert_eq!(f.cogs, 111_110);
    assert!(f.receipt.is_none() && f.issue.is_none());
    assert_eq!(pos.quantity_on_hand, 0);
    assert_eq!(f.journal[3].account, "2100");
    let (d, c) = totals(&f.journal);
    assert_eq!(d, c);
    assert_eq!(d, 2 * 370_368 + 111_110);
}

#[test]
fn stocked_item_is_issued_at_average_without_procurement() {
    let mut pos = InventoryPosition::new("SKU-2".to_string());
    pos.receive(50_000, 100_000);
    let mut o = order(TransactionType::Product, 20_000, 400_000);
    let f = fulfill_order(&mut o, &mut pos, 9).ok().unwrap();
    assert!(f.receipt.is_none());
    assert_eq!(f.cogs, 200_000);
    assert_eq!(pos.quantity_on_hand, 30_000);
    let (d, c) = totals(&f.journal);
    assert_eq!(d, c);
}

#[test]
fn invalid_quantity_is_rejected_without_changes() {
    let mut o = order(TransactionType::Product, 0, 500_000);
    let mut pos = InventoryPosition::new("SKU-1".to_string());
    let r = fulfill_order(&mut o, &mut pos, 1);
    assert!(matches!(r, Err(FulfillmentError::InvalidQuantityOrPrice)));
    assert_eq!(o.status, OrderStatus::New);
    assert_eq!(pos.quantity_on_hand, 0);
}

#[test]
fn on_hand_tracks_movements_and_average_is_weighted() {
    let mut pos = InventoryPosition::new("SKU-3".to_string());
    pos.receive(10_000, 100_000); // 1 @ 10.00
    pos.receive(20_000, 130_000); // 2 @ 13.00 -> avg 12.00
    assert_eq!(pos.quantity_on_hand, 30_000);
    assert_eq!(pos.average_cost, 120_000);
    let cogs = pos.issue(15_000).ok().unwrap();
    assert_eq!(cogs, 180_000);
    assert_eq!(pos.quantity_on_hand, 15_000);
    pos.receive(10_000, 100_001); // (1.5*12 + 1*10.0001) / 2.5 = 11.20004 -> 11.2000
    assert_eq!(pos.quantity_on_hand, 25_000);
    assert_eq!(pos.average_cost, 112_000);
    assert_eq!(pos.quantity_on_hand, 10_000 + 20_000 - 15_000 + 10_000);
}

#[test]
fn issuing_more_than_on_hand_fails() {
    let mut pos = InventoryPosition::new("SKU-4".to_string());
    pos.receive(10_000, 100_000);
    assert_eq!(pos.issue(10_001), Err(InventoryError::InsufficientStock));
    assert_eq!(pos.quantity_on_hand, 10_000);
}

#[test]
fn order_journal_is_balanced() {
    let lines = order_journal(true, 1_000_000, 600_000);
    assert_eq!(totals(&lines), (2_600_000, 2_600_000));
}

#[test]
fn invoice_journal_debits_receivables_and_credits_revenue() {
    let e = invoice_journal(250_000);
    assert_eq!(e.memo, "Invoice posted");
    assert_eq!(e.lines.len(), 2);
    assert_eq!(e.lines[0].account, "1100");
    assert_eq!(e.lines[0].debit, 250_000);
    assert_eq!(e.lines[1].account, "4000");
    assert_eq!(e.lines[1].credit, 250_000);
}

#[test]
fn primary_retries_then_fallback_succeeds() {
    let retries = 2u32;
    let mut ex = SkillExecutor::new(policy(retries, true));
    let mut steps = 0;
    loop {
        match ex.next_step() {
            NextStep::Invoke { fallback, .. } => {
                let outcome = if fallback { Ok(()) } else { Err("primary failed".to_string()) };
                ex.record_attempt(outcome, "in".to_string(), None);
            }
            _ => break,
        }
        steps += 1;
        assert!(steps < 10);
    }
    assert_eq!(ex.state, ExecutorState::Succeeded);
    let primary = ex.invocations.iter().filter(|i| !i.fallback_used).count();
    let fallback = ex.invocations.iter().filter(|i| i.fallback_used).count();
    assert_eq!(primary, retries as usize + 1);
    assert_eq!(fallback, 1);
    let numbers: Vec<u32> = ex.invocations.iter().map(|i| i.attempt_no).collect();
    assert_eq!(numbers, vec![1, 2, 3, 4]);
    assert_eq!(ex.invocations[3].skill_id, "safe-fulfillment");
    assert_eq!(ex.invocations[3].status, InvocationStatus::Success);
    assert_eq!(ex.escalations, 0);
}

#[test]
fn single_failed_attempt_escalates_and_fails_order() {
    let mut ex = SkillExecutor::new(policy(0, false));
    assert_eq!(ex.next_step(), NextStep::Invoke { fallback: false, attempt_no: 1 });
    ex.record_attempt(Err("boom".to_string()), "in".to_string(), None);
    assert_eq!(ex.next_step(), NextStep::Escalate);
    let req = ex.escalation_request(7, 10_000, &"USD".to_string());
    assert_eq!(req.action_type, "ORDER_EXECUTION_PRODUCT");
    assert_eq!(req.reference_type, "ORDER");
    assert_eq!(req.reason_code, "SKILL_RUNTIME_FAILURE");
    assert_eq!(req.decision_note.as_deref(), Some("boom"));
    let attempts = ex
        .invocations
        .iter()
        .filter(|i| i.status != InvocationStatus::Escalated)
        .count();
    assert_eq!(attempts, 1);
    ex.record_escalation(42);
    assert_eq!(ex.next_step(), NextStep::Fail);
    assert_eq!(ex.escalations, 1);
    assert_eq!(ex.invocations.last().unwrap().status, InvocationStatus::Escalated);
    assert_eq!(ex.invocations.last().unwrap().escalation_id, Some(42));
    let mut o = order(TransactionType::Product, 10_000, 10_000);
    let mut pos = InventoryPosition::new("SKU-1".to_string());
    let r = complete_order(&mut o, &mut pos, &ex, 3);
    assert!(matches!(r, Err(ProcessFailure::Escalated { escalation_id: 42 })));
    assert_eq!(o.status, OrderStatus::Failed);
    assert_eq!(
        o.failure_reason.as_deref(),
        Some("skill execution failed and escalated: boom")
    );
    assert_eq!(pos.quantity_on_hand, 0);
}

#[test]
fn successful_chain_completes_order() {
    let mut ex = SkillExecutor::new(policy(1, false));
    ex.record_attempt(Ok(()), "in".to_string(), Some("out".to_string()));
    assert_eq!(ex.next_step(), NextStep::Proceed);
    let mut o = order(TransactionType::Product, 20_000, 500_000);
    let mut pos = InventoryPosition::new("SKU-1".to_string());
    let f = complete_order(&mut o, &mut pos, &ex, 3).ok().unwrap();
    assert_eq!(f.revenue, 1_000_000);
    assert_eq!(o.status, OrderStatus::Fulfilled);
}

#[test]
fn payload_hash_is_sha256_hex() {
    let h = zavora::digest::stable_payload_hash(&b"abc".to_vec());
    assert_eq!(h, "ba7816bf8f01cfea414140de5dae2223b00361a396177a9cb410ff61f20015ad");
    let empty = zavora::digest::stable_payload_hash(&Vec::new());
    assert_eq!(empty, "e3b0c44298fc1c149afbf4c8996fb92427ae41e4649b934ca495991b7852b855");
}

#[test]
fn skill_input_payload_carries_the_order() {
    let o = order(TransactionType::Service, 20_000, 505_000);
    let fields = build_skill_input_payload(&o, &policy(0, false));
    let text: Vec<(String, String)> = fields
        .iter()
        .map(|f| match &f.value {
            FieldValue::Text(t) => (f.name.clone(), t.clone()),
            _ => (f.name.clone(), String::new()),
        })
        .collect();
    let expected = vec![
        ("order_id", "00000000-0000-0000-0000-000000000007"),
        ("intent", "ORDER_EXECUTION_PRODUCT"),
        ("capability", "fulfillment-execution"),
        ("transaction_type", "SERVICE"),
        ("item_code", "SKU-1"),
        ("quantity", "2.0000"),
        ("unit_price", "50.5000"),
        ("currency", "USD"),
    ];
    let expected: Vec<(String, String)> = expected.into_iter().map(|(a, b)| (a.to_string(), b.to_string())).collect();
    assert_eq!(text, expected);
}

#[test]
fn invalid_order_starts_no_chain_and_is_left_unchanged() {
    let bad = order(TransactionType::Product, 0, 500_000);
    assert!(matches!(start_execution(&bad, policy(0, false)), Err(ProcessFailure::InvalidOrder)));
    let good = order(TransactionType::Product, 10_000, 500_000);
    let ex = start_execution(&good, policy(0, false)).ok().unwrap();
    assert_eq!(ex.next_step(), NextStep::Invoke { fallback: false, attempt_no: 1 });

    let mut ex = SkillExecutor::new(policy(0, false));
    ex.record_attempt(Err("boom".to_string()), "in".to_string(), None);
    ex.record_escalation(9);
    let mut o = order(TransactionType::Product, 10_000, -1);
    let mut pos = InventoryPosition::new("SKU-1".to_string());
    let r = complete_order(&mut o, &mut pos, &ex, 3);
    assert!(matches!(r, Err(ProcessFailure::InvalidOrder)));
    assert_eq!(o.status, OrderStatus::New);
    assert!(o.failure_reason.is_none());
}
