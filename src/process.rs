//! The end of an order's processing: fulfilment after a successful skill
//! chain, failure after an escalated one.
use vstd::prelude::*;
use crate::executor::{ExecutorState, SkillExecutor};
use crate::skills::RoutingPolicy;
use crate::fulfillment::{fulfill_order, fulfillment_post, order_in_range, Fulfillment, FulfillmentError, Order, OrderStatus};
use crate::inventory::InventoryPosition;

verus! {

/// Why an order was not fulfilled.
#[derive(Clone, Copy, Debug, PartialEq, Eq, Structural)]
pub enum ProcessFailure {
    /// The skill chain failed and was escalated under this id.
    Escalated { escalation_id: u128 },
    /// The order's quantity or price is not positive.
    InvalidOrder,
}

/// An order may enter execution only with a positive quantity and price.
pub open spec fn executable(order: &Order) -> bool {
    order.quantity > 0 && order.unit_price > 0
}

/// Validates an order before any skill runs and starts its chain under the
/// policy; an order with a quantity or price that is not positive is
/// rejected with no chain started.
pub fn start_execution(order: &Order, policy: RoutingPolicy) -> (r: Result<SkillExecutor, ProcessFailure>)
    ensures
        executable(order) <==> r is Ok,
        !executable(order) ==> r == Err::<SkillExecutor, ProcessFailure>(ProcessFailure::InvalidOrder),
        r matches Ok(ex) ==> ex.wf() && ex.policy == policy && ex.state == (ExecutorState::AttemptingPrimary { attempts: 0 })
            && ex.invocations@.len() == 0 && ex.escalations == 0,
{
    if order.quantity <= 0 || order.unit_price <= 0 {
        return Err(ProcessFailure::InvalidOrder);
    }
    Ok(SkillExecutor::new(policy))
}

/// The failure reason recorded on an order whose chain was escalated.
pub open spec fn escalation_reason(last_failure: Option<String>) -> Seq<char> {
    match last_failure {
        Some(why) => "skill execution failed and escalated"@ + ": "@ + why@,
        None => "skill execution failed and escalated"@,
    }
}

/// Concludes an order once its skill chain has ended. An order with a
/// quantity or price that is not positive is rejected and nothing changes.
/// After success the fulfilment unit runs; after escalation the order is
/// marked FAILED with the chain's last failure, stock is untouched and no
/// journal is posted.
pub fn complete_order(
    order: &mut Order,
    position: &mut InventoryPosition,
    executor: &SkillExecutor,
    now: i64,
) -> (r: Result<Fulfillment, ProcessFailure>)
    requires
        executor.wf(),
        executor.state is Succeeded || executor.state is Escalated,
        old(position).wf(),
        order_in_range(old(order), old(position)),
    ensures
        final(position).wf(),
        !executable(old(order)) ==> {
            &&& r == Err::<Fulfillment, ProcessFailure>(ProcessFailure::InvalidOrder)
            &&& *final(order) == *old(order)
            &&& *final(position) == *old(position)
        },
        executable(old(order)) && executor.state is Escalated ==> {
            &&& r == Err::<Fulfillment, ProcessFailure>(ProcessFailure::Escalated {
                escalation_id: executor.invocations@.last().escalation_id.unwrap(),
            })
            &&& final(order).status == OrderStatus::Failed
            &&& final(order).failure_reason matches Some(why) && why@ == escalation_reason(executor.last_failure)
            &&& final(order).id == old(order).id
            &&& final(order).fulfilled_at == old(order).fulfilled_at
            &&& *final(position) == *old(position)
        },
        executable(old(order)) && executor.state is Succeeded ==> {
            &&& r is Ok
            &&& fulfillment_post(*old(order), *final(order), *old(position), *final(position), now, match r {
                Ok(f) => Ok::<Fulfillment, FulfillmentError>(f),
                Err(_) => Err::<Fulfillment, FulfillmentError>(FulfillmentError::InvalidQuantityOrPrice),
            })
        },
{
    if order.quantity <= 0 || order.unit_price <= 0 {
        return Err(ProcessFailure::InvalidOrder);
    }
    match executor.state {
        ExecutorState::Escalated => {
            let n = executor.invocations.len();
            let escalation_id = match executor.invocations[n - 1].escalation_id {
                Some(id) => id,
                None => 0,
            };
            let base = String::from_str("skill execution failed and escalated");
            let reason = match &executor.last_failure {
                Some(why) => base.concat(": ").concat(why.as_str()),
                None => base,
            };
            crate::fulfillment::mark_order_failed(order, reason);
            Err(ProcessFailure::Escalated { escalation_id })
        },
        _ => match fulfill_order(order, position, now) {
            Ok(f) => Ok(f),
            Err(_) => Err(ProcessFailure::InvalidOrder),
        },
    }
}

/// The event announcing a fulfilled order.
pub fn fulfilled_event(order: &Order, done: &Fulfillment) -> (r: crate::models::OrderFulfilledEvent)
    ensures
        r.order_id == order.id,
        r.settled_amount == done.settlement.amount,
        r.currency == done.settlement.currency,
{
    crate::models::OrderFulfilledEvent {
        order_id: order.id,
        settled_amount: done.settlement.amount,
        currency: done.settlement.currency.clone(),
    }
}

} // verus!
