use zavora::models::{validate_order_request, CreateOrderRequest};
use zavora::orders::{
    action_type_for_transaction, default_requesting_agent, default_transaction_type,
    execution_scope_for, parse_transaction_type, TransactionType,
};
use zavora::payables::{
    ap_liability_account_for_source_type, post_payroll_charge, settle_obligation, ApObligation,
    ObligationStatus, SettleError, SubledgerEntry, SubledgerEntryKind,
};
use zavora::skills::{
    check_after_invocation, check_before_invocation, resolve_skill_routing_policy,
    validate_required_fields, ApprovalStatus, AttemptFailure, FieldValue, PayloadField,
    RoutingError, RoutingPolicy, RoutingScope, SkillRef, SkillRegistryEntry,
};
use zavora::reporting::{
    accumulate_aging_bucket, classify_variance_severity, AgingBucketTotals, VarianceSeverity,
};
use zavora::standards::{account_category, aging_bucket_label, IfrsLiteProfile, StandardsProfile};
use zavora::validation::{
    normalize_currency, normalize_metric_name, normalize_routing_transaction_type,
    normalize_strategy_key, normalize_transaction_type, validate_agent_id, validate_finops_actor,
    validate_governance_actor, validate_registered_agent,
};

fn obligation(source: &str, status: ObligationStatus, balance: i128) -> ApObligation {
    ApObligation {
        order_id: 5,
        source_type: source.to_string(),
        counterparty: "vendor".to_string(),
        amount: balance,
        currency: "USD".to_string(),
        status,
        due_at: 100,
        settled_at: None,
        entries: vec![SubledgerEntry {
            kind: SubledgerEntryKind::ObligationRecognized,
            debit: 0,
            credit: balance,
            balance_after: balance,
            posted_at: 1,
        }],
    }
}

#[test]
fn settling_twice_is_idempotent() {
    let mut ob = obligation("PROCUREMENT", ObligationStatus::Open, 75_000);
    let first = settle_obligation(&mut ob, None, 10).ok().unwrap();
    assert!(!first.already_settled);
    assert_eq!(first.settled_amount, 75_000);
    assert_eq!(first.outstanding_before, 75_000);
    assert_eq!(first.outstanding_after, 0);
    assert_eq!(first.journal.len(), 2);
    assert_eq!(first.journal[0].account, "2100");
    assert_eq!(first.journal[0].debit, 75_000);
    assert_eq!(first.journal[1].account, "1000");
    assert_eq!(first.journal[1].credit, 75_000);
    assert_eq!(ob.status, ObligationStatus::Settled);
    assert_eq!(ob.settled_at, Some(10));
    assert_eq!(ob.entries.len(), 2);
    let second = settle_obligation(&mut ob, None, 20).ok().unwrap();
    assert!(second.already_settled);
    assert_eq!(second.outstanding_after, 0);
    assert_eq!(second.settled_amount, 0);
    assert_eq!(second.settled_at, 10);
    assert_eq!(ob.entries.len(), 2);
}

#[test]
fn settlement_errors() {
    let mut ob = obligation("PROCUREMENT", ObligationStatus::Open, 1);
    let r = settle_obligation(&mut ob, Some("AUTONOMY_PAYROLL"), 1);
    assert!(matches!(r, Err(SettleError::WrongSourceType)));
    let mut ob = obligation("MYSTERY", ObligationStatus::Open, 1);
    assert!(matches!(settle_obligation(&mut ob, None, 1), Err(SettleError::UnsupportedSourceType)));
    let mut ob = obligation("SERVICE_DELIVERY", ObligationStatus::Cancelled, 1);
    assert!(matches!(settle_obligation(&mut ob, None, 1), Err(SettleError::Cancelled)));
    assert_eq!(ob.entries.len(), 1);
}

#[test]
fn liability_accounts() {
    assert_eq!(ap_liability_account_for_source_type("PROCUREMENT"), Some("2100"));
    assert_eq!(ap_liability_account_for_source_type("SERVICE_DELIVERY"), Some("2200"));
    assert_eq!(ap_liability_account_for_source_type("AUTONOMY_PAYROLL"), Some("2300"));
    assert_eq!(ap_liability_account_for_source_type("procurement"), None);
}

#[test]
fn payroll_charge_posts_and_settles() {
    let p = post_payroll_charge(3, 120_000, "USD".to_string(), "autonomy-payroll".to_string(), 1_000, true).unwrap();
    assert_eq!(p.journal.len(), 4);
    let accounts: Vec<&str> = p.journal.iter().map(|l| l.account.as_str()).collect();
    assert_eq!(accounts, vec!["5100", "2300", "2300", "1000"]);
    let d: i128 = p.journal.iter().map(|l| l.debit).sum();
    let c: i128 = p.journal.iter().map(|l| l.credit).sum();
    assert_eq!((d, c), (240_000, 240_000));
    assert_eq!(p.obligation.status, ObligationStatus::Settled);
    assert_eq!(p.obligation.due_at, 1_000 + 30 * 86_400);
    assert_eq!(p.obligation.outstanding_balance(), 0);
    let open = post_payroll_charge(3, 120_000, "USD".to_string(), "x".to_string(), 1_000, false).unwrap();
    assert_eq!(open.obligation.status, ObligationStatus::Open);
    assert_eq!(open.obligation.outstanding_balance(), 120_000);
    assert!(post_payroll_charge(3, 0, "USD".to_string(), "x".to_string(), 1, true).is_none());
}

fn policy(intent: &str, scope: RoutingScope, id: &str) -> RoutingPolicy {
    RoutingPolicy {
        intent: intent.to_string(),
        scope,
        capability: "fulfillment-execution".to_string(),
        primary: SkillRef { skill_id: id.to_string(), version: "v1".to_string() },
        fallback: None,
        max_retries: 1,
        escalation_action_type: intent.to_string(),
    }
}

#[test]
fn routing_prefers_exact_scope_then_any() {
    let policies = vec![
        policy("ORDER_EXECUTION_PRODUCT", RoutingScope::Any, "any"),
        policy("ORDER_EXECUTION_PRODUCT", RoutingScope::Product, "exact"),
        policy("ORDER_EXECUTION_SERVICE", RoutingScope::Any, "svc"),
    ];
    assert_eq!(resolve_skill_routing_policy(&policies, TransactionType::Product), Ok(1));
    assert_eq!(resolve_skill_routing_policy(&policies, TransactionType::Service), Ok(2));
    let only = vec![policy("OTHER", RoutingScope::Any, "x")];
    assert_eq!(
        resolve_skill_routing_policy(&only, TransactionType::Product),
        Err(RoutingError::NoPolicyConfigured)
    );
}

fn entry(status: ApprovalStatus) -> SkillRegistryEntry {
    SkillRegistryEntry {
        skill_id: "product-fulfillment".to_string(),
        version: "v1".to_string(),
        capability: "fulfillment-execution".to_string(),
        approval_status: status,
        required_input_fields: vec!["order_id".to_string(), "item_code".to_string()],
        required_output_fields: vec!["execution_status".to_string()],
    }
}

fn field(name: &str, value: FieldValue) -> PayloadField {
    PayloadField { name: name.to_string(), value }
}

#[test]
fn attempt_checks() {
    let cap = "fulfillment-execution".to_string();
    let input = vec![
        field("order_id", FieldValue::Other),
        field("item_code", FieldValue::Text("SKU".to_string())),
    ];
    assert!(check_before_invocation(Some(&entry(ApprovalStatus::Approved)), &cap, &input).is_ok());
    assert!(matches!(check_before_invocation(None, &cap, &input), Err(AttemptFailure::NotRegistered)));
    assert!(matches!(
        check_before_invocation(Some(&entry(ApprovalStatus::Draft)), &cap, &input),
        Err(AttemptFailure::NotApproved)
    ));
    assert!(matches!(
        check_before_invocation(Some(&entry(ApprovalStatus::Approved)), &"other".to_string(), &input),
        Err(AttemptFailure::CapabilityMismatch)
    ));
    let blank = vec![
        field("order_id", FieldValue::Other),
        field("item_code", FieldValue::Text("   ".to_string())),
    ];
    match check_before_invocation(Some(&entry(ApprovalStatus::Approved)), &cap, &blank) {
        Err(AttemptFailure::MissingInputField(f)) => assert_eq!(f, "item_code"),
        _ => panic!("blank field accepted"),
    }
    let out = vec![field("execution_status", FieldValue::Text("SUCCESS".to_string()))];
    assert!(check_after_invocation(&entry(ApprovalStatus::Approved), Ok(out)).is_ok());
    assert!(matches!(
        check_after_invocation(&entry(ApprovalStatus::Approved), Err("down".to_string())),
        Err(AttemptFailure::SkillFailed(_))
    ));
    let null = vec![field("execution_status", FieldValue::Null)];
    assert!(matches!(
        check_after_invocation(&entry(ApprovalStatus::Approved), Ok(null)),
        Err(AttemptFailure::MissingOutputField(_))
    ));
}

#[test]
fn later_field_of_same_name_wins() {
    let payload = vec![
        field("a", FieldValue::Text("x".to_string())),
        field("a", FieldValue::Null),
    ];
    assert_eq!(validate_required_fields(&payload, &vec!["a".to_string()]), Err("a".to_string()));
    assert_eq!(validate_required_fields(&payload, &vec![]), Ok(()));
}

#[test]
fn normalizers_trim_and_upper_case() {
    assert_eq!(normalize_transaction_type("  service ").ok().unwrap(), "SERVICE");
    assert!(normalize_transaction_type("goods").is_err());
    assert_eq!(normalize_routing_transaction_type("any").ok().unwrap(), "ANY");
    assert_eq!(normalize_currency(" usd ").ok().unwrap(), "USD");
    assert!(normalize_currency("US").is_err());
    assert!(normalize_currency("   ").is_err());
    assert_eq!(normalize_strategy_key(" growth ").ok().unwrap(), "GROWTH");
    assert!(normalize_strategy_key("  ").is_err());
    assert_eq!(normalize_metric_name("gross_margin_2").ok().unwrap(), "GROSS_MARGIN_2");
    assert!(normalize_metric_name("gross-margin").is_err());
    assert_eq!(parse_transaction_type(" product").ok(), Some(TransactionType::Product));
    assert!(parse_transaction_type("both").is_err());
    assert_eq!(TransactionType::Service.as_str(), "SERVICE");
    assert_eq!(execution_scope_for(TransactionType::Product), "PRODUCT_EXECUTION");
    assert_eq!(action_type_for_transaction("SERVICE"), "ORDER_EXECUTION_SERVICE");
    assert_eq!(action_type_for_transaction("PRODUCT"), "ORDER_EXECUTION_PRODUCT");
    assert_eq!(default_transaction_type(), "PRODUCT");
    assert_eq!(default_requesting_agent(), "sales-agent");
}

#[test]
fn agent_validation() {
    assert_eq!(validate_agent_id("  payroll-agent ").ok().unwrap(), "payroll-agent");
    assert!(validate_agent_id("").is_err());
    assert!(validate_agent_id("rogue-agent").is_err());
    assert!(validate_finops_actor("controller-agent").is_ok());
    assert!(validate_finops_actor("sales-agent").is_err());
    assert!(validate_governance_actor("strategy-agent").is_ok());
    assert!(validate_governance_actor("payroll-agent").is_err());
    assert!(validate_registered_agent("audit-agent").is_ok());
    assert!(validate_registered_agent(" audit-agent").is_err());
}

#[test]
fn order_request_validation() {
    let mut req = CreateOrderRequest {
        customer_email: "a@b.c".to_string(),
        transaction_type: "product".to_string(),
        item_code: "SKU".to_string(),
        quantity: 10_000,
        unit_price: 10_000,
        currency: "USD".to_string(),
        requested_by_agent_id: "sales-agent".to_string(),
    };
    let (kind, agent) = validate_order_request(&req).ok().unwrap();
    assert_eq!(kind, "PRODUCT");
    assert_eq!(agent, "sales-agent");
    req.quantity = 0;
    assert!(validate_order_request(&req).is_err());
}

#[test]
fn chart_and_categories() {
    let p = IfrsLiteProfile;
    assert_eq!(p.name(), "IFRS-lite");
    assert_eq!(p.inventory_valuation_method(), "AVCO");
    let coa = p.chart_of_accounts();
    assert_eq!(coa.cash, "1000");
    assert_eq!(coa.cogs, "5000");
    assert_eq!(account_category("1300"), Some("ASSET"));
    assert_eq!(account_category("2300"), Some("LIABILITY"));
    assert_eq!(account_category("3000"), Some("EQUITY"));
    assert_eq!(account_category("4000"), None);
    assert_eq!(account_category(""), None);
    assert_eq!(aging_bucket_label(0), "CURRENT");
    assert_eq!(aging_bucket_label(30), "1_30");
    assert_eq!(aging_bucket_label(31), "31_60");
    assert_eq!(aging_bucket_label(90), "61_90");
    assert_eq!(aging_bucket_label(91), "90_PLUS");
}

#[test]
fn aging_totals_accumulate_by_bucket() {
    let mut t = AgingBucketTotals { current: 0, days_1_30: 0, days_31_60: 0, days_61_90: 0, days_90_plus: 0 };
    accumulate_aging_bucket(&mut t, aging_bucket_label(0), 10_000);
    accumulate_aging_bucket(&mut t, aging_bucket_label(45), 5_000);
    accumulate_aging_bucket(&mut t, aging_bucket_label(45), 1);
    accumulate_aging_bucket(&mut t, "SOMETHING_ELSE", 7);
    assert_eq!(t, AgingBucketTotals { current: 10_000, days_1_30: 0, days_31_60: 5_001, days_61_90: 0, days_90_plus: 7 });
}

#[test]
fn variance_severity_thresholds() {
    assert_eq!(classify_variance_severity(100_000, 50_000, 100_000), VarianceSeverity::Breach);
    assert_eq!(classify_variance_severity(50_000, 50_000, 100_000), VarianceSeverity::Warning);
    assert_eq!(classify_variance_severity(49_999, 50_000, 100_000), VarianceSeverity::OnTrack);
}

#[test]
fn period_bounds_checks() {
    assert!(zavora::reporting::validate_period_bounds(None, Some(5)));
    assert!(zavora::reporting::validate_period_bounds(Some(1), Some(2)));
    assert!(!zavora::reporting::validate_period_bounds(Some(2), Some(2)));
    assert!(zavora::reporting::validate_period_range(3, 3));
    assert!(!zavora::reporting::validate_period_range(4, 3));
}

#[test]
fn required_fields_are_trimmed_sorted_and_unique() {
    let fields = vec![
        " quantity ".to_string(),
        "item_code".to_string(),
        "  ".to_string(),
        "quantity".to_string(),
        "Item_code".to_string(),
    ];
    let out = zavora::validation::normalize_required_fields(&fields).ok().unwrap();
    assert_eq!(out, vec!["Item_code".to_string(), "item_code".to_string(), "quantity".to_string()]);
    assert!(zavora::validation::normalize_required_fields(&vec![" ".to_string()]).is_err());
    assert!(zavora::validation::normalize_required_fields(&Vec::new()).is_err());
}
