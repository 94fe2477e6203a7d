//! Shared domain vocabulary and request shapes.
use vstd::prelude::*;
use crate::orders::{invalid, ValidationError};
use crate::text::{normal_form, trim_of, trim_text};
use crate::validation::{is_registered_agent, normalize_transaction_type, validate_agent_id};

verus! {

/// Kinds of domain event recorded in the event log.
#[derive(Clone, Copy, Debug, PartialEq, Eq, Structural)]
pub enum DomainEventKind {
    CommitmentCreated,
    ObligationsAssigned,
    StockReceived,
    StockIssued,
    InvoiceIssued,
    SettlementConfirmed,
    BoardActionFrozen,
}

/// Life cycle of a commitment.
#[derive(Clone, Copy, Debug, PartialEq, Eq, Structural)]
pub enum CommitmentStatus {
    Draft,
    Active,
    Fulfilled,
    Cancelled,
}

/// A commitment between two parties; times are Unix seconds.
pub struct Commitment {
    pub id: u128,
    pub commitment_type: String,
    pub from_party: String,
    pub to_party: String,
    pub terms: String,
    pub risk_class: String,
    pub status: CommitmentStatus,
    pub created_at: i64,
}

/// A duty assigned under a commitment.
pub struct Obligation {
    pub id: u128,
    pub commitment_id: u128,
    pub owner: String,
    pub due_at: i64,
    pub depends_on: Vec<u128>,
    pub closed: bool,
}

/// Evidence linked to a commitment or obligation.
pub struct Proof {
    pub id: u128,
    pub linked_id: u128,
    pub source: String,
    pub payload_ref: String,
    pub created_at: i64,
}

/// Announces an order that governance has let through.
#[derive(Clone, Copy, Debug, PartialEq, Eq, Structural)]
pub struct OrderCreatedEvent {
    pub order_id: u128,
}

/// Announces a fulfilled order and the cash it brought in.
pub struct OrderFulfilledEvent {
    pub order_id: u128,
    pub settled_amount: i64,
    pub currency: String,
}

/// Where a service finds its database and message bus and listens.
pub struct ServiceConfig {
    pub database_url: String,
    pub redis_url: String,
    pub http_addr: String,
}

/// A request to record a new lead.
pub struct CreateLeadRequest {
    pub contact_email: String,
    pub source_channel: String,
    pub note: Option<String>,
    pub requested_by_agent_id: String,
}

/// A request to accept a quote.
pub struct AcceptQuoteRequest {
    pub accepted_by: String,
    pub acceptance_channel: String,
    pub proof_ref: String,
    pub requested_by_agent_id: String,
}

/// A request to create an order; quantity and unit price in ten-thousandths.
pub struct CreateOrderRequest {
    pub customer_email: String,
    pub transaction_type: String,
    pub item_code: String,
    pub quantity: i64,
    pub unit_price: i64,
    pub currency: String,
    pub requested_by_agent_id: String,
}

/// A text that is not blank.
pub open spec fn filled(s: Seq<char>) -> bool {
    trim_of(s).len() > 0
}

/// Whether an order request is acceptable.
pub open spec fn order_request_valid(p: CreateOrderRequest) -> bool {
    &&& filled(p.customer_email@)
    &&& (normal_form(p.transaction_type@) == "PRODUCT"@ || normal_form(p.transaction_type@) == "SERVICE"@)
    &&& filled(p.item_code@)
    &&& filled(p.currency@)
    &&& p.quantity > 0
    &&& p.unit_price > 0
    &&& filled(p.requested_by_agent_id@)
    &&& is_registered_agent(trim_of(p.requested_by_agent_id@))
}

fn is_filled(s: &String) -> (r: bool)
    ensures
        r == filled(s@),
{
    let t = trim_text(s.as_str());
    t.as_str().unicode_len() > 0
}

/// Checks an order request; gives its normalised kind and requesting agent.
pub fn validate_order_request(payload: &CreateOrderRequest) -> (r: Result<(String, String), ValidationError>)
    ensures
        r is Ok <==> order_request_valid(*payload),
        r matches Ok((kind, agent)) ==> kind@ == normal_form(payload.transaction_type@) && agent@ == trim_of(payload.requested_by_agent_id@),
{
    if !is_filled(&payload.customer_email) {
        return Err(invalid("customer_email is required"));
    }
    let transaction_type = match normalize_transaction_type(payload.transaction_type.as_str()) {
        Ok(t) => t,
        Err(e) => {
            return Err(e);
        },
    };
    if !is_filled(&payload.item_code) {
        return Err(invalid("item_code is required"));
    }
    if !is_filled(&payload.currency) {
        return Err(invalid("currency is required"));
    }
    if payload.quantity <= 0 {
        return Err(invalid("quantity must be positive"));
    }
    if payload.unit_price <= 0 {
        return Err(invalid("unit_price must be positive"));
    }
    match validate_agent_id(payload.requested_by_agent_id.as_str()) {
        Ok(agent) => Ok((transaction_type, agent)),
        Err(e) => Err(e),
    }
}

} // verus!
