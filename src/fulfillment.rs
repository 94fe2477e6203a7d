//! The fulfilment unit of an order whose skill chain succeeded: inventory
//! costing, the six-line journal batch and the settlement, all or nothing.
use vstd::prelude::*;
use crate::inventory::{
    after_movement, procurement_cost_spec, InventoryMovement,
    InventoryPosition, MovementKind,
};
use crate::ledger::{is_balanced, line_is, order_journal, total_credit, total_debit, JournalLine};
use crate::standards::{
    AR_ACCOUNT, CASH_ACCOUNT, COGS_ACCOUNT, INVENTORY_ACCOUNT, REVENUE_ACCOUNT,
    SERVICE_COST_CLEARING_ACCOUNT,
};
use crate::money::{div_round, lemma_round_close, round_half_even, scaled_mul, MAX_AMOUNT, SCALE};
use crate::orders::TransactionType;

verus! {

/// Share of revenue booked as the cost of delivering a service (0.30).
pub const SERVICE_DELIVERY_COST_RATIO: i64 = 3000;

/// Life cycle of an order.
#[derive(Clone, Copy, Debug, PartialEq, Eq, Structural)]
pub enum OrderStatus {
    New,
    PendingApproval,
    Fulfilled,
    Failed,
    Frozen,
}

/// An accepted order.
pub struct Order {
    pub id: u128,
    pub transaction_type: TransactionType,
    pub item_code: String,
    pub quantity: i64,
    pub unit_price: i64,
    pub currency: String,
    pub status: OrderStatus,
    pub fulfilled_at: Option<i64>,
    pub failure_reason: Option<String>,
}

/// Why a fulfilment unit did not complete.
#[derive(Clone, Copy, Debug, PartialEq, Eq, Structural)]
pub enum FulfillmentError {
    /// Quantity or unit price is not positive.
    InvalidQuantityOrPrice,
}

/// Cash received for an order.
pub struct Settlement {
    pub order_id: u128,
    pub amount: i64,
    pub currency: String,
    pub received_at: i64,
}

/// Everything one fulfilment unit records.
pub struct Fulfillment {
    pub revenue: i64,
    pub cogs: i64,
    pub receipt: Option<InventoryMovement>,
    pub issue: Option<InventoryMovement>,
    pub journal: Vec<JournalLine>,
    pub settlement: Settlement,
}

/// Revenue of `quantity` units at `unit_price`.
pub open spec fn revenue_of(quantity: int, unit_price: int) -> int {
    scaled_mul(quantity, unit_price)
}

/// Delivery cost of a service order: revenue times the service cost ratio.
pub open spec fn service_cogs(quantity: int, unit_price: int) -> int {
    round_half_even(quantity * unit_price * SERVICE_DELIVERY_COST_RATIO, SCALE * SCALE)
}

/// Quantity and price are positive and their product and costs are in range.
pub open spec fn order_in_range(order: &Order, position: &InventoryPosition) -> bool {
    &&& order.quantity <= MAX_AMOUNT
    &&& order.unit_price <= MAX_AMOUNT
    &&& order.quantity * order.unit_price <= MAX_AMOUNT * SCALE
    &&& order.quantity * position.average_cost <= MAX_AMOUNT * SCALE
}

/// What a fulfilment unit does to the order and the stock position, and
/// what it returns.
pub open spec fn fulfillment_post(
    before: Order,
    after: Order,
    pos_before: InventoryPosition,
    pos_after: InventoryPosition,
    now: i64,
    r: Result<Fulfillment, FulfillmentError>,
) -> bool {
    &&& (pos_after.wf())
    &&& (pos_after.item_code == pos_before.item_code)
    &&& ((before.quantity <= 0 || before.unit_price <= 0) <==> r is Err)
    &&& (r is Err ==> after == before && pos_after == pos_before)
    &&& (r matches Ok(f) ==> {
            let q = before.quantity as int;
            let p = before.unit_price as int;
            let start = pos_before.state();
            &&& after.status == OrderStatus::Fulfilled
            &&& after.fulfilled_at == Some(now)
            &&& after.id == before.id
            &&& after.item_code == before.item_code
            &&& after.quantity == q
            &&& after.unit_price == p
            &&& after.transaction_type == before.transaction_type
            &&& f.revenue == revenue_of(q, p)
            &&& f.settlement.amount == f.revenue
            &&& f.settlement.order_id == before.id
            &&& f.settlement.currency == before.currency
            &&& f.settlement.received_at == now
            &&& f.journal@.len() == 6
            &&& line_is(f.journal@[0], AR_ACCOUNT@, f.revenue as int, 0)
            &&& line_is(f.journal@[1], REVENUE_ACCOUNT@, 0, f.revenue as int)
            &&& line_is(f.journal@[2], COGS_ACCOUNT@, f.cogs as int, 0)
            &&& line_is(
                f.journal@[3],
                match before.transaction_type {
                    TransactionType::Product => INVENTORY_ACCOUNT@,
                    TransactionType::Service => SERVICE_COST_CLEARING_ACCOUNT@,
                },
                0,
                f.cogs as int,
            )
            &&& line_is(f.journal@[4], CASH_ACCOUNT@, f.revenue as int, 0)
            &&& line_is(f.journal@[5], AR_ACCOUNT@, 0, f.revenue as int)
            &&& is_balanced(f.journal@)
            &&& total_debit(f.journal@) == 2 * f.revenue + f.cogs
            &&& total_credit(f.journal@) == 2 * f.revenue + f.cogs
            &&& match before.transaction_type {
                TransactionType::Service => {
                    &&& f.cogs == service_cogs(q, p)
                    &&& f.receipt is None
                    &&& f.issue is None
                    &&& pos_after == pos_before
                },
                TransactionType::Product => {
                    let stocked = match f.receipt {
                        Some(m) => after_movement(start, m),
                        None => start,
                    };
                    &&& (start.0 >= q ==> f.receipt is None)
                    &&& (start.0 < q ==> f.receipt == Some(
                        InventoryMovement {
                            kind: MovementKind::Receipt,
                            quantity: (q - start.0) as i64,
                            unit_cost: procurement_cost_spec(p) as i64,
                        },
                    ))
                    &&& f.issue == Some(
                        InventoryMovement {
                            kind: MovementKind::Issue,
                            quantity: q as i64,
                            unit_cost: stocked.1 as i64,
                        },
                    )
                    &&& pos_after.state() == after_movement(stocked, f.issue.unwrap())
                    &&& f.cogs == scaled_mul(q, stocked.1)
                },
            }
        })
}

/// Runs the fulfilment unit of `order` against the stock position of its item.
/// A product order procures any shortfall, issues the quantity at the average
/// cost and books that cost; a service order books its delivery cost and
/// leaves stock alone. On success the order is FULFILLED at `now`; on error
/// nothing changes.
pub fn fulfill_order(order: &mut Order, position: &mut InventoryPosition, now: i64) -> (r: Result<
    Fulfillment,
    FulfillmentError,
>)
    requires
        old(position).wf(),
        order_in_range(old(order), old(position)),
    ensures
        fulfillment_post(*old(order), *final(order), *old(position), *final(position), now, r),
{
    let quantity = order.quantity;
    let unit_price = order.unit_price;
    if quantity <= 0 || unit_price <= 0 {
        return Err(FulfillmentError::InvalidQuantityOrPrice);
    }
    let revenue = crate::money::mul_scaled(quantity, unit_price);
    proof {
        lemma_round_close((quantity * unit_price) as int, SCALE as int);
    }
    let is_product = order.transaction_type == TransactionType::Product;
    let mut receipt: Option<InventoryMovement> = None;
    let mut issue: Option<InventoryMovement> = None;
    let cogs: i64;
    if is_product {
        let old_avg = position.average_cost;
        receipt = position.procure_shortfall(quantity, unit_price);
        let avg = position.average_cost;
        assert(quantity * avg <= MAX_AMOUNT * SCALE) by (nonlinear_arith)
            requires
                0 < quantity,
                avg <= old_avg || avg <= unit_price,
                quantity * old_avg <= MAX_AMOUNT * SCALE,
                quantity * unit_price <= MAX_AMOUNT * SCALE,
        ;
        let issued = position.issue(quantity);
        match issued {
            Ok(c) => {
                cogs = c;
            },
            Err(_) => {
                // Unreachable: procurement leaves at least `quantity` on hand.
                cogs = 0;
            },
        }
        issue = Some(InventoryMovement { kind: MovementKind::Issue, quantity, unit_cost: avg });
    } else {
        proof {
            crate::inventory::lemma_mul_in_range(quantity as int, unit_price as int);
        }
        let base = (quantity as u128) * (unit_price as u128) * (SERVICE_DELIVERY_COST_RATIO as u128);
        let c = div_round(base, (SCALE as u128) * (SCALE as u128));
        proof {
            lemma_round_close(base as int, SCALE * SCALE);
            assert(base <= MAX_AMOUNT * SCALE * SERVICE_DELIVERY_COST_RATIO) by (nonlinear_arith)
                requires
                    base == quantity * unit_price * SERVICE_DELIVERY_COST_RATIO,
                    quantity * unit_price <= MAX_AMOUNT * SCALE,
                    quantity * unit_price >= 0,
            ;
            assert(c * (SCALE * SCALE) <= base + SCALE * SCALE);
            assert(c <= MAX_AMOUNT) by (nonlinear_arith)
                requires
                    c * (SCALE * SCALE) <= base + SCALE * SCALE,
                    base <= MAX_AMOUNT * SCALE * SERVICE_DELIVERY_COST_RATIO,
                    c >= 0,
            ;
        }
        cogs = c as i64;
    }
    let journal = order_journal(is_product, revenue, cogs);
    let settlement = Settlement {
        order_id: order.id,
        amount: revenue,
        currency: order.currency.clone(),
        received_at: now,
    };
    order.status = OrderStatus::Fulfilled;
    order.fulfilled_at = Some(now);
    Ok(Fulfillment { revenue, cogs, receipt, issue, journal, settlement })
}

/// Marks an order FAILED with the reason; nothing else changes.
pub fn mark_order_failed(order: &mut Order, reason: String)
    ensures
        final(order).status == OrderStatus::Failed,
        final(order).failure_reason == Some(reason),
        final(order).id == old(order).id,
        final(order).quantity == old(order).quantity,
        final(order).unit_price == old(order).unit_price,
        final(order).fulfilled_at == old(order).fulfilled_at,
{
    order.status = OrderStatus::Failed;
    order.failure_reason = Some(reason);
}

} // verus!
