//! Orders: kinds of transaction and the checks on a new order.
use vstd::prelude::*;
use crate::text::{normal_form, normalize_code, text_is};

verus! {

/// Whether an order sells goods from stock or delivers a service.
#[derive(Clone, Copy, Debug, PartialEq, Eq, Structural)]
pub enum TransactionType {
    Product,
    Service,
}

/// An input that was rejected, with the reason.
pub struct ValidationError {
    pub message: String,
}

/// A rejection with the given reason.
pub fn invalid(message: &str) -> (r: ValidationError)
    ensures
        r.message@ == message@,
{
    ValidationError { message: String::from_str(message) }
}

impl TransactionType {
    /// Upper-case name of the kind.
    pub open spec fn name(self) -> Seq<char> {
        match self {
            TransactionType::Product => "PRODUCT"@,
            TransactionType::Service => "SERVICE"@,
        }
    }

    /// Upper-case name of the kind.
    pub fn as_str(self) -> (r: &'static str)
        ensures
            r@ == self.name(),
    {
        match self {
            TransactionType::Product => "PRODUCT",
            TransactionType::Service => "SERVICE",
        }
    }
}

/// The kind whose name is the normal form of `value`, if any.
pub open spec fn transaction_type_of(value: Seq<char>) -> Option<TransactionType> {
    if normal_form(value) == "PRODUCT"@ {
        Some(TransactionType::Product)
    } else if normal_form(value) == "SERVICE"@ {
        Some(TransactionType::Service)
    } else {
        None
    }
}

/// Reads a kind of transaction, ignoring case and surrounding blanks.
pub fn parse_transaction_type(value: &str) -> (r: Result<TransactionType, ValidationError>)
    ensures
        r matches Ok(t) ==> transaction_type_of(value@) == Some(t),
        r is Err ==> transaction_type_of(value@) is None,
{
    let n = normalize_code(value);
    if text_is(&n, "PRODUCT") {
        Ok(TransactionType::Product)
    } else if text_is(&n, "SERVICE") {
        Ok(TransactionType::Service)
    } else {
        Err(invalid("unsupported transaction_type"))
    }
}

/// Memory scope under which an execution of this kind is remembered.
pub open spec fn execution_scope_spec(t: TransactionType) -> Seq<char> {
    match t {
        TransactionType::Product => "PRODUCT_EXECUTION"@,
        TransactionType::Service => "SERVICE_EXECUTION"@,
    }
}

/// Memory scope under which an execution of this kind is remembered.
pub fn execution_scope_for(t: TransactionType) -> (r: &'static str)
    ensures
        r@ == execution_scope_spec(t),
{
    match t {
        TransactionType::Product => "PRODUCT_EXECUTION",
        TransactionType::Service => "SERVICE_EXECUTION",
    }
}

/// Governance action type of an order of the given (normalised) kind.
pub fn action_type_for_transaction(transaction_type: &str) -> (r: &'static str)
    ensures
        transaction_type@ == "SERVICE"@ ==> r@ == "ORDER_EXECUTION_SERVICE"@,
        transaction_type@ != "SERVICE"@ ==> r@ == "ORDER_EXECUTION_PRODUCT"@,
{
    let t = String::from_str(transaction_type);
    if text_is(&t, "SERVICE") {
        "ORDER_EXECUTION_SERVICE"
    } else {
        "ORDER_EXECUTION_PRODUCT"
    }
}

/// Kind assumed for an order that names none.
pub fn default_transaction_type() -> (r: String)
    ensures
        r@ == "PRODUCT"@,
{
    String::from_str("PRODUCT")
}

/// Agent assumed to make a request that names none.
pub fn default_requesting_agent() -> (r: String)
    ensures
        r@ == "sales-agent"@,
{
    String::from_str("sales-agent")
}

} // verus!
