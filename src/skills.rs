//! Skill routing and the retry / fallback / escalation state machine.
//!
//! The executor decides; its caller performs. The caller asks for the next
//! step, invokes the external skill when told to, and reports the outcome
//! back; when told to escalate it raises the escalation and reports its id.
use vstd::prelude::*;
use crate::fulfillment::Order;
use crate::orders::TransactionType;
use crate::text::{text_is, trim_of, trim_text};

verus! {

/// A skill and the version of it to run.
pub struct SkillRef {
    pub skill_id: String,
    pub version: String,
}

/// Which orders a routing policy applies to.
#[derive(Clone, Copy, Debug, PartialEq, Eq, Structural)]
pub enum RoutingScope {
    Product,
    Service,
    Any,
}

/// How orders of one intent are executed.
pub struct RoutingPolicy {
    pub intent: String,
    pub scope: RoutingScope,
    pub capability: String,
    pub primary: SkillRef,
    pub fallback: Option<SkillRef>,
    pub max_retries: u32,
    pub escalation_action_type: String,
}

/// Intent under which orders of a kind are routed.
pub open spec fn intent_of(t: TransactionType) -> Seq<char> {
    match t {
        TransactionType::Product => "ORDER_EXECUTION_PRODUCT"@,
        TransactionType::Service => "ORDER_EXECUTION_SERVICE"@,
    }
}

/// The scope that matches a kind exactly.
pub open spec fn scope_of(t: TransactionType) -> RoutingScope {
    match t {
        TransactionType::Product => RoutingScope::Product,
        TransactionType::Service => RoutingScope::Service,
    }
}

/// Index of the first policy with the intent and scope, if any.
pub open spec fn first_policy(policies: Seq<RoutingPolicy>, intent: Seq<char>, scope: RoutingScope) -> Option<int>
    decreases policies.len(),
{
    if policies.len() == 0 {
        None
    } else {
        match first_policy(policies.drop_last(), intent, scope) {
            Some(i) => Some(i),
            None => if policies.last().intent@ == intent && policies.last().scope == scope {
                Some(policies.len() - 1)
            } else {
                None
            },
        }
    }
}

/// The policy that routes orders of a kind: an exact-scope policy for the
/// kind's intent, else one of scope ANY for that intent.
pub open spec fn routed_policy(policies: Seq<RoutingPolicy>, t: TransactionType) -> Option<int> {
    match first_policy(policies, intent_of(t), scope_of(t)) {
        Some(i) => Some(i),
        None => first_policy(policies, intent_of(t), RoutingScope::Any),
    }
}

/// No policy routes orders of this kind.
#[derive(Clone, Copy, Debug, PartialEq, Eq, Structural)]
pub enum RoutingError {
    NoPolicyConfigured,
}

fn find_policy(policies: &Vec<RoutingPolicy>, intent: &str, scope: RoutingScope) -> (r: Option<usize>)
    ensures
        match first_policy(policies@, intent@, scope) {
            Some(i) => r == Some(i as usize),
            None => r is None,
        },
{
    let mut i: usize = 0;
    while i < policies.len()
        invariant
            i <= policies@.len(),
            first_policy(policies@.subrange(0, i as int), intent@, scope) is None,
        decreases policies@.len() - i,
    {
        let p = &policies[i];
        proof {
            assert(policies@.subrange(0, i + 1).drop_last() =~= policies@.subrange(0, i as int));
        }
        if text_is(&p.intent, intent) && p.scope == scope {
            proof {
                lemma_first_policy_prefix(policies@, intent@, scope, i as int + 1);
            }
            return Some(i);
        }
        i = i + 1;
    }
    proof {
        assert(policies@.subrange(0, i as int) =~= policies@);
    }
    None
}

proof fn lemma_first_policy_prefix(policies: Seq<RoutingPolicy>, intent: Seq<char>, scope: RoutingScope, k: int)
    requires
        0 < k <= policies.len(),
        first_policy(policies.subrange(0, k), intent, scope) == Some(k - 1),
    ensures
        first_policy(policies, intent, scope) == Some(k - 1),
    decreases policies.len(),
{
    if k < policies.len() {
        assert(policies.drop_last().subrange(0, k) =~= policies.subrange(0, k));
        lemma_first_policy_prefix(policies.drop_last(), intent, scope, k);
    } else {
        assert(policies.subrange(0, k) =~= policies);
    }
}

/// Finds the routing policy for orders of a kind: exact scope first, then ANY.
pub fn resolve_skill_routing_policy(policies: &Vec<RoutingPolicy>, t: TransactionType) -> (r: Result<usize, RoutingError>)
    ensures
        match routed_policy(policies@, t) {
            Some(i) => r == Ok::<usize, RoutingError>(i as usize),
            None => r == Err::<usize, RoutingError>(RoutingError::NoPolicyConfigured),
        },
{
    let intent = match t {
        TransactionType::Product => "ORDER_EXECUTION_PRODUCT",
        TransactionType::Service => "ORDER_EXECUTION_SERVICE",
    };
    let exact = match t {
        TransactionType::Product => RoutingScope::Product,
        TransactionType::Service => RoutingScope::Service,
    };
    match find_policy(policies, intent, exact) {
        Some(i) => Ok(i),
        None => match find_policy(policies, intent, RoutingScope::Any) {
            Some(i) => Ok(i),
            None => Err(RoutingError::NoPolicyConfigured),
        },
    }
}

/// Index of the first registry entry for the skill and version, if any.
pub open spec fn registry_index(registry: Seq<SkillRegistryEntry>, skill: SkillRef) -> Option<int>
    decreases registry.len(),
{
    if registry.len() == 0 {
        None
    } else {
        match registry_index(registry.drop_last(), skill) {
            Some(i) => Some(i),
            None => if registry.last().skill_id@ == skill.skill_id@ && registry.last().version@ == skill.version@ {
                Some(registry.len() - 1)
            } else {
                None
            },
        }
    }
}

proof fn lemma_registry_prefix(registry: Seq<SkillRegistryEntry>, skill: SkillRef, k: int)
    requires
        0 < k <= registry.len(),
        registry_index(registry.subrange(0, k), skill) == Some(k - 1),
    ensures
        registry_index(registry, skill) == Some(k - 1),
    decreases registry.len(),
{
    if k < registry.len() {
        assert(registry.drop_last().subrange(0, k) =~= registry.subrange(0, k));
        lemma_registry_prefix(registry.drop_last(), skill, k);
    } else {
        assert(registry.subrange(0, k) =~= registry);
    }
}

/// Looks a skill version up in the registry.
pub fn find_registry_entry(registry: &Vec<SkillRegistryEntry>, skill: &SkillRef) -> (r: Option<usize>)
    ensures
        match registry_index(registry@, *skill) {
            Some(i) => r == Some(i as usize),
            None => r is None,
        },
{
    let mut i: usize = 0;
    while i < registry.len()
        invariant
            i <= registry@.len(),
            registry_index(registry@.subrange(0, i as int), *skill) is None,
        decreases registry@.len() - i,
    {
        let e = &registry[i];
        proof {
            assert(registry@.subrange(0, i + 1).drop_last() =~= registry@.subrange(0, i as int));
        }
        if e.skill_id == skill.skill_id && e.version == skill.version {
            proof {
                lemma_registry_prefix(registry@, *skill, i as int + 1);
            }
            return Some(i);
        }
        i = i + 1;
    }
    proof {
        assert(registry@.subrange(0, i as int) =~= registry@);
    }
    None
}

/// Approval state of a registered skill version.
#[derive(Clone, Copy, Debug, PartialEq, Eq, Structural)]
pub enum ApprovalStatus {
    Draft,
    Approved,
    Revoked,
}

/// A registered skill version and its contract.
pub struct SkillRegistryEntry {
    pub skill_id: String,
    pub version: String,
    pub capability: String,
    pub approval_status: ApprovalStatus,
    pub required_input_fields: Vec<String>,
    pub required_output_fields: Vec<String>,
}

/// The value of a field of a structured skill input or output.
pub enum FieldValue {
    Null,
    Text(String),
    Other,
}

/// One named field of a structured skill input or output.
pub struct PayloadField {
    pub name: String,
    pub value: FieldValue,
}

/// The value a payload gives a name: the last field of that name, if any.
pub open spec fn lookup(payload: Seq<PayloadField>, name: Seq<char>) -> Option<FieldValue>
    decreases payload.len(),
{
    if payload.len() == 0 {
        None
    } else if payload.last().name@ == name {
        Some(payload.last().value)
    } else {
        lookup(payload.drop_last(), name)
    }
}

/// A field that is present, not null and, when text, not blank.
pub open spec fn field_filled(payload: Seq<PayloadField>, name: Seq<char>) -> bool {
    match lookup(payload, name) {
        None => false,
        Some(FieldValue::Null) => false,
        Some(FieldValue::Text(t)) => trim_of(t@).len() > 0,
        Some(FieldValue::Other) => true,
    }
}

/// Every required field is filled.
pub open spec fn all_filled(payload: Seq<PayloadField>, required: Seq<String>) -> bool {
    forall|i: int| 0 <= i < required.len() ==> field_filled(payload, (#[trigger] required[i])@)
}

fn field_is_filled(payload: &Vec<PayloadField>, name: &String) -> (r: bool)
    ensures
        r == field_filled(payload@, name@),
{
    let mut i: usize = payload.len();
    proof {
        assert(payload@.subrange(0, i as int) =~= payload@);
    }
    while i > 0
        invariant
            i <= payload@.len(),
            lookup(payload@, name@) == lookup(payload@.subrange(0, i as int), name@),
        decreases i,
    {
        let f = &payload[i - 1];
        proof {
            assert(payload@.subrange(0, i as int).drop_last() =~= payload@.subrange(0, i - 1));
            assert(payload@.subrange(0, i as int).last() == payload@[i - 1]);
        }
        if f.name == *name {
            return match &f.value {
                FieldValue::Null => false,
                FieldValue::Text(t) => {
                    let trimmed = trim_text(t.as_str());
                    trimmed.as_str().unicode_len() > 0
                },
                FieldValue::Other => true,
            };
        }
        i = i - 1;
    }
    proof {
        assert(payload@.subrange(0, 0) =~= Seq::<PayloadField>::empty());
    }
    false
}

/// Checks that every required field is present and filled; the error names
/// the first one that is not.
pub fn validate_required_fields(payload: &Vec<PayloadField>, required_fields: &Vec<String>) -> (r: Result<(), String>)
    ensures
        r is Ok <==> all_filled(payload@, required_fields@),
        r matches Err(missing) ==> exists|i: int| 0 <= i < required_fields@.len()
            && required_fields@[i] == missing && !field_filled(payload@, missing@)
            && forall|j: int| 0 <= j < i ==> field_filled(payload@, (#[trigger] required_fields@[j])@),
{
    let mut i: usize = 0;
    while i < required_fields.len()
        invariant
            i <= required_fields@.len(),
            forall|j: int| 0 <= j < i ==> field_filled(payload@, (#[trigger] required_fields@[j])@),
        decreases required_fields@.len() - i,
    {
        if !field_is_filled(payload, &required_fields[i]) {
            return Err(required_fields[i].clone());
        }
        i = i + 1;
    }
    Ok(())
}

/// Why one skill attempt failed before or after the skill ran.
pub enum AttemptFailure {
    NotRegistered,
    NotApproved,
    CapabilityMismatch,
    MissingInputField(String),
    SkillFailed(String),
    MissingOutputField(String),
}

/// A registered, approved skill of the policy's capability.
pub open spec fn skill_usable(entry: Option<SkillRegistryEntry>, capability: Seq<char>) -> bool {
    match entry {
        None => false,
        Some(e) => e.approval_status == ApprovalStatus::Approved && e.capability@ == capability,
    }
}

/// Checks made before a skill runs: it is registered and approved, its
/// capability is the policy's, and the input carries its required fields.
pub fn check_before_invocation(
    entry: Option<&SkillRegistryEntry>,
    capability: &String,
    input: &Vec<PayloadField>,
) -> (r: Result<(), AttemptFailure>)
    ensures
        r is Ok <==> match entry {
            None => false,
            Some(e) => skill_usable(Some(*e), capability@) && all_filled(input@, e.required_input_fields@),
        },
        entry is None <==> r matches Err(AttemptFailure::NotRegistered),
        r matches Err(AttemptFailure::NotApproved) <==> (entry matches Some(e) && e.approval_status != ApprovalStatus::Approved),
        r matches Err(AttemptFailure::CapabilityMismatch) <==> (entry matches Some(e)
            && e.approval_status == ApprovalStatus::Approved && e.capability@ != capability@),
        r matches Err(AttemptFailure::MissingInputField(f)) ==> (entry matches Some(e)
            && exists|i: int| 0 <= i < e.required_input_fields@.len() && e.required_input_fields@[i] == f
                && !field_filled(input@, f@)),
        r is Err ==> !(r matches Err(AttemptFailure::SkillFailed(_))) && !(r matches Err(AttemptFailure::MissingOutputField(_))),
{
    match entry {
        None => Err(AttemptFailure::NotRegistered),
        Some(e) => {
            if e.approval_status != ApprovalStatus::Approved {
                Err(AttemptFailure::NotApproved)
            } else if !(e.capability == *capability) {
                Err(AttemptFailure::CapabilityMismatch)
            } else {
                match validate_required_fields(input, &e.required_input_fields) {
                    Ok(()) => Ok(()),
                    Err(f) => Err(AttemptFailure::MissingInputField(f)),
                }
            }
        },
    }
}

/// Checks made on what a skill returned: it succeeded and its output
/// carries the required fields.
pub fn check_after_invocation(
    entry: &SkillRegistryEntry,
    output: Result<Vec<PayloadField>, String>,
) -> (r: Result<(), AttemptFailure>)
    ensures
        r is Ok <==> match output {
            Ok(o) => all_filled(o@, entry.required_output_fields@),
            Err(_) => false,
        },
        output is Err <==> r matches Err(AttemptFailure::SkillFailed(_)),
        r matches Err(AttemptFailure::SkillFailed(why)) ==> output == Err::<Vec<PayloadField>, String>(why),
        r matches Err(AttemptFailure::MissingOutputField(f)) ==> (output matches Ok(o)
            && exists|i: int| 0 <= i < entry.required_output_fields@.len() && entry.required_output_fields@[i] == f
                && !field_filled(o@, f@)),
        r is Err ==> (r matches Err(AttemptFailure::SkillFailed(_))) || (r matches Err(AttemptFailure::MissingOutputField(_))),
{
    match output {
        Err(reason) => Err(AttemptFailure::SkillFailed(reason)),
        Ok(o) => match validate_required_fields(&o, &entry.required_output_fields) {
            Ok(()) => Ok(()),
            Err(f) => Err(AttemptFailure::MissingOutputField(f)),
        },
    }
}

/// The decimal digit character for `d` in `0..10`.
pub open spec fn digit_char(d: int) -> char {
    ((48 + d) as u8) as char
}

/// The lower-case hex digit character for `d` in `0..16`.
pub open spec fn hex_char(d: int) -> char {
    if d < 10 {
        ((48 + d) as u8) as char
    } else {
        ((87 + d) as u8) as char
    }
}

/// Decimal digits of a natural number, without leading zeros.
pub open spec fn decimal_digits(n: nat) -> Seq<char>
    decreases n,
{
    if n < 10 {
        seq![digit_char(n as int)]
    } else {
        decimal_digits(n / 10).push(digit_char((n % 10) as int))
    }
}

/// Text of `v` ten-thousandths: a minus sign when negative, the whole part,
/// a point and exactly four decimals.
pub open spec fn fixed_text(v: int) -> Seq<char> {
    let m = if v < 0 { -v } else { v };
    let frac = m % 10000;
    (if v < 0 { seq!['-'] } else { Seq::<char>::empty() }) + decimal_digits((m / 10000) as nat) + seq!['.']
        + seq![
        digit_char(frac / 1000),
        digit_char((frac / 100) % 10),
        digit_char((frac / 10) % 10),
        digit_char(frac % 10),
    ]
}

/// Hyphenated lower-case text of a 128-bit identifier: 32 hex digits, most
/// significant first, grouped 8-4-4-4-12.
pub open spec fn uuid_text_spec(id: u128) -> Seq<char> {
    Seq::new(
        36,
        |i: int|
            if i == 8 || i == 13 || i == 18 || i == 23 {
                '-'
            } else {
                let k = if i < 8 {
                    i
                } else if i < 13 {
                    i - 1
                } else if i < 18 {
                    i - 2
                } else if i < 23 {
                    i - 3
                } else {
                    i - 4
                };
                hex_char(((id as int) / vstd::arithmetic::power::pow(16, (31 - k) as nat)) % 16)
            },
    )
}

/// Relies on `rust_decimal::Decimal::new(v, 4)` and its `Display`: the
/// digits of the mantissa with the point four places from the right, a zero
/// before the point when the whole part is empty, and a minus sign when
/// negative.
#[verifier::external_body]
fn decimal_text(v: i64) -> (r: String)
    ensures
        r@ == fixed_text(v as int),
{
    rust_decimal::Decimal::new(v, 4).to_string()
}

/// Relies on `uuid::Uuid::from_u128` and its `Display`: the hyphenated
/// lower-case form of the identifier.
#[verifier::external_body]
fn uuid_text(id: u128) -> (r: String)
    ensures
        r@ == uuid_text_spec(id),
{
    uuid::Uuid::from_u128(id).to_string()
}

/// A text field of a payload.
pub open spec fn text_field(f: PayloadField, name: Seq<char>, value: Seq<char>) -> bool {
    &&& f.name@ == name
    &&& match f.value {
        FieldValue::Text(t) => t@ == value,
        _ => false,
    }
}

fn text_entry(name: &str, value: String) -> (r: PayloadField)
    ensures
        text_field(r, name@, value@),
{
    PayloadField { name: String::from_str(name), value: FieldValue::Text(value) }
}

/// The structured input handed to a skill for an order under a policy.
pub fn build_skill_input_payload(order: &Order, policy: &RoutingPolicy) -> (r: Vec<PayloadField>)
    ensures
        r@.len() == 8,
        text_field(r@[0], "order_id"@, uuid_text_spec(order.id)),
        text_field(r@[1], "intent"@, policy.intent@),
        text_field(r@[2], "capability"@, policy.capability@),
        text_field(r@[3], "transaction_type"@, order.transaction_type.name()),
        text_field(r@[4], "item_code"@, order.item_code@),
        text_field(r@[5], "quantity"@, fixed_text(order.quantity as int)),
        text_field(r@[6], "unit_price"@, fixed_text(order.unit_price as int)),
        text_field(r@[7], "currency"@, order.currency@),
{
    let mut r: Vec<PayloadField> = Vec::new();
    r.push(text_entry("order_id", uuid_text(order.id)));
    r.push(text_entry("intent", policy.intent.clone()));
    r.push(text_entry("capability", policy.capability.clone()));
    r.push(text_entry("transaction_type", String::from_str(order.transaction_type.as_str())));
    r.push(text_entry("item_code", order.item_code.clone()));
    r.push(text_entry("quantity", decimal_text(order.quantity)));
    r.push(text_entry("unit_price", decimal_text(order.unit_price)));
    r.push(text_entry("currency", order.currency.clone()));
    r
}

} // verus!
