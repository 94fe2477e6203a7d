//! Order fulfilment, inventory costing, double-entry posting and periodic
//! cost allocation for an agent-run business, with machine-checked contracts.
pub mod money;
pub mod text;
pub mod digest;
pub mod inventory;
pub mod standards;
pub mod ledger;
pub mod orders;
pub mod fulfillment;
pub mod proration;
pub mod allocation;
pub mod grouping;
pub mod period;
pub mod payables;
pub mod skills;
pub mod executor;
pub mod validation;
pub mod models;
pub mod process;
pub mod reporting;
