//! Weighted-average (AVCO) inventory positions.
use vstd::prelude::*;
use crate::money::{
    lemma_round_close, mul_scaled, round_half_even, round_nonneg, scaled_mul, div_round, MAX_AMOUNT,
    SCALE,
};

verus! {

/// Share of the selling price at which a shortfall is procured (0.60).
pub const PROCUREMENT_MARKUP: i64 = 6000;

/// Direction of a stock movement.
#[derive(Clone, Copy, Debug, PartialEq, Eq, Structural)]
pub enum MovementKind {
    Receipt,
    Issue,
}

/// One append-only stock movement.
#[derive(Clone, Copy, Debug, PartialEq, Eq, Structural)]
pub struct InventoryMovement {
    pub kind: MovementKind,
    pub quantity: i64,
    pub unit_cost: i64,
}

/// Stock on hand of one item and its weighted average unit cost.
pub struct InventoryPosition {
    pub item_code: String,
    pub quantity_on_hand: i64,
    pub average_cost: i64,
}

/// Issuing more than is on hand.
#[derive(Clone, Copy, Debug, PartialEq, Eq, Structural)]
pub enum InventoryError {
    InsufficientStock,
}

/// Average cost after receiving `qty` at `cost` onto `on_hand` at `avg`.
pub open spec fn weighted_average(on_hand: int, avg: int, qty: int, cost: int) -> int {
    if on_hand + qty == 0 {
        0
    } else {
        round_half_even(on_hand * avg + qty * cost, on_hand + qty)
    }
}

/// Position `(on_hand, average_cost)` after one movement.
pub open spec fn after_movement(state: (int, int), m: InventoryMovement) -> (int, int) {
    match m.kind {
        MovementKind::Receipt => (
            state.0 + m.quantity,
            weighted_average(state.0, state.1, m.quantity as int, m.unit_cost as int),
        ),
        MovementKind::Issue => (state.0 - m.quantity, state.1),
    }
}

/// Position after a sequence of movements, applied in order.
pub open spec fn replay(state: (int, int), ms: Seq<InventoryMovement>) -> (int, int)
    decreases ms.len(),
{
    if ms.len() == 0 {
        state
    } else {
        after_movement(replay(state, ms.drop_last()), ms.last())
    }
}

/// Receipts count positive, issues negative.
pub open spec fn signed_quantity_sum(ms: Seq<InventoryMovement>) -> int
    decreases ms.len(),
{
    if ms.len() == 0 {
        0
    } else {
        let m = ms.last();
        signed_quantity_sum(ms.drop_last()) + match m.kind {
            MovementKind::Receipt => m.quantity as int,
            MovementKind::Issue => -(m.quantity as int),
        }
    }
}

/// After any sequence of receipts and issues, the quantity on hand is the
/// starting quantity plus the signed sum of the movement quantities.
pub proof fn lemma_on_hand_is_movement_sum(state: (int, int), ms: Seq<InventoryMovement>)
    ensures
        replay(state, ms).0 == state.0 + signed_quantity_sum(ms),
    decreases ms.len(),
{
    if ms.len() > 0 {
        lemma_on_hand_is_movement_sum(state, ms.drop_last());
    }
}

/// Each receipt leaves the average cost within half a ten-thousandth of the
/// exact weighted average of the stock it combines.
pub proof fn lemma_average_within_rounding(state: (int, int), m: InventoryMovement)
    requires
        state.0 >= 0,
        m.kind == MovementKind::Receipt,
        m.quantity >= 0,
        state.0 + m.quantity > 0,
        state.1 >= 0,
        m.unit_cost >= 0,
    ensures
        ({
            let n = state.0 + m.quantity;
            let exact = state.0 * state.1 + m.quantity * m.unit_cost;
            -n <= 2 * (after_movement(state, m).1 * n - exact) <= n
        }),
{
    let n = state.0 + m.quantity;
    let exact = state.0 * state.1 + m.quantity * m.unit_cost;
    assert(exact >= 0) by (nonlinear_arith)
        requires state.0 >= 0, state.1 >= 0, m.quantity >= 0, m.unit_cost >= 0,
            exact == state.0 * state.1 + m.quantity * m.unit_cost;
    lemma_round_close(exact, n);
}

/// The product of two values in range fits in 128 bits.
pub proof fn lemma_mul_in_range(a: int, b: int)
    requires
        0 <= a <= MAX_AMOUNT,
        0 <= b <= MAX_AMOUNT,
    ensures
        0 <= a * b <= MAX_AMOUNT * MAX_AMOUNT,
{
    assert(0 <= a * b <= MAX_AMOUNT * MAX_AMOUNT) by (nonlinear_arith)
        requires 0 <= a <= MAX_AMOUNT, 0 <= b <= MAX_AMOUNT;
}

/// A rounded average of values at most `m` each is at most `m`.
pub proof fn lemma_round_le(n: int, d: int, m: int)
    requires
        n >= 0,
        d > 0,
        m >= 0,
        n <= d * m,
    ensures
        round_nonneg(n, d) <= m,
{
    let q = n / d;
    let r = n % d;
    assert(n == d * q + r && 0 <= r < d) by {
        vstd::arithmetic::div_mod::lemma_fundamental_div_mod(n, d);
    }
    assert(q <= m) by (nonlinear_arith)
        requires n == d * q + r, 0 <= r, d > 0, n <= d * m;
    if q == m {
        assert(r == 0) by (nonlinear_arith)
            requires n == d * q + r, 0 <= r, n <= d * m, q == m;
    }
}

/// The weighted average lies between zero and the larger of the two costs.
pub proof fn lemma_average_bounded(on_hand: int, avg: int, qty: int, cost: int)
    requires
        on_hand >= 0,
        qty >= 0,
        avg >= 0,
        cost >= 0,
    ensures
        0 <= weighted_average(on_hand, avg, qty, cost),
        weighted_average(on_hand, avg, qty, cost) <= if avg >= cost { avg } else { cost },
{
    if on_hand + qty != 0 {
        let m = if avg >= cost { avg } else { cost };
        let n = on_hand * avg + qty * cost;
        assert(0 <= n <= (on_hand + qty) * m) by (nonlinear_arith)
            requires on_hand >= 0, qty >= 0, avg >= 0, cost >= 0, m >= avg, m >= cost,
                n == on_hand * avg + qty * cost;
        lemma_round_close(n, on_hand + qty);
        lemma_round_le(n, on_hand + qty, m);
    }
}

impl InventoryPosition {
    /// Quantities and costs are non-negative and within range.
    pub open spec fn wf(&self) -> bool {
        &&& 0 <= self.quantity_on_hand <= MAX_AMOUNT
        &&& 0 <= self.average_cost <= MAX_AMOUNT
    }

    /// `(on_hand, average_cost)` as integers.
    pub open spec fn state(&self) -> (int, int) {
        (self.quantity_on_hand as int, self.average_cost as int)
    }

    /// An empty position for an item seen for the first time.
    pub fn new(item_code: String) -> (r: InventoryPosition)
        ensures
            r.item_code == item_code,
            r.quantity_on_hand == 0,
            r.average_cost == 0,
            r.wf(),
    {
        InventoryPosition { item_code, quantity_on_hand: 0, average_cost: 0 }
    }

    /// Receives `quantity` at `unit_cost` and re-averages the unit cost.
    pub fn receive(&mut self, quantity: i64, unit_cost: i64)
        requires
            old(self).wf(),
            0 <= quantity,
            old(self).quantity_on_hand + quantity <= MAX_AMOUNT,
            0 <= unit_cost <= MAX_AMOUNT,
        ensures
            final(self).wf(),
            final(self).item_code == old(self).item_code,
            final(self).state() == after_movement(
                old(self).state(),
                InventoryMovement { kind: MovementKind::Receipt, quantity, unit_cost },
            ),
            final(self).quantity_on_hand > 0 ==> -final(self).quantity_on_hand <= 2 * (
            final(self).average_cost * final(self).quantity_on_hand - (old(
                self,
            ).quantity_on_hand * old(self).average_cost + quantity * unit_cost))
                <= final(self).quantity_on_hand,
    {
        let new_qty = self.quantity_on_hand + quantity;
        proof {
            lemma_average_bounded(
                self.quantity_on_hand as int,
                self.average_cost as int,
                quantity as int,
                unit_cost as int,
            );
        }
        if new_qty == 0 {
            self.average_cost = 0;
            self.quantity_on_hand = 0;
            return ;
        }
        proof {
            lemma_mul_in_range(self.quantity_on_hand as int, self.average_cost as int);
            lemma_mul_in_range(quantity as int, unit_cost as int);
        }
        let current_value = (self.quantity_on_hand as u128) * (self.average_cost as u128);
        let incoming_value = (quantity as u128) * (unit_cost as u128);
        let avg = div_round(current_value + incoming_value, new_qty as u128);
        proof {
            lemma_round_close((current_value + incoming_value) as int, new_qty as int);
        }
        self.average_cost = avg as i64;
        self.quantity_on_hand = new_qty;
    }

    /// Issues `quantity` at the current average cost and returns its cost.
    pub fn issue(&mut self, quantity: i64) -> (r: Result<i64, InventoryError>)
        requires
            old(self).wf(),
            0 <= quantity <= MAX_AMOUNT,
            quantity * old(self).average_cost <= MAX_AMOUNT * SCALE,
        ensures
            final(self).wf(),
            final(self).item_code == old(self).item_code,
            quantity > old(self).quantity_on_hand <==> r is Err,
            r is Err ==> *final(self) == *old(self),
            r matches Ok(cogs) ==> {
                &&& final(self).state() == after_movement(
                    old(self).state(),
                    InventoryMovement {
                        kind: MovementKind::Issue,
                        quantity,
                        unit_cost: old(self).average_cost,
                    },
                )
                &&& cogs == scaled_mul(quantity as int, old(self).average_cost as int)
            },
    {
        if quantity > self.quantity_on_hand {
            return Err(InventoryError::InsufficientStock);
        }
        let cogs = cost_of(quantity, self.average_cost);
        self.quantity_on_hand = self.quantity_on_hand - quantity;
        Ok(cogs)
    }

    /// Procures any shortfall against `requested` at `unit_price` times the
    /// markup, and returns the receipt that was recorded, if any.
    pub fn procure_shortfall(&mut self, requested: i64, unit_price: i64) -> (r: Option<
        InventoryMovement,
    >)
        requires
            old(self).wf(),
            0 <= requested <= MAX_AMOUNT,
            0 <= unit_price <= MAX_AMOUNT,
        ensures
            final(self).wf(),
            final(self).item_code == old(self).item_code,
            final(self).quantity_on_hand >= requested,
            final(self).average_cost <= if old(self).average_cost >= unit_price {
                old(self).average_cost as int
            } else {
                unit_price as int
            },
            old(self).quantity_on_hand >= requested ==> r is None && *final(self) == *old(self),
            old(self).quantity_on_hand < requested ==> r == Some(
                InventoryMovement {
                    kind: MovementKind::Receipt,
                    quantity: (requested - old(self).quantity_on_hand) as i64,
                    unit_cost: procurement_cost_spec(unit_price as int) as i64,
                },
            ) && final(self).state() == after_movement(old(self).state(), r.unwrap()),
    {
        if self.quantity_on_hand >= requested {
            return None;
        }
        let shortage = requested - self.quantity_on_hand;
        let unit_cost = procurement_cost(unit_price);
        proof {
            lemma_average_bounded(
                self.quantity_on_hand as int,
                self.average_cost as int,
                shortage as int,
                unit_cost as int,
            );
        }
        self.receive(shortage, unit_cost);
        Some(InventoryMovement { kind: MovementKind::Receipt, quantity: shortage, unit_cost })
    }
}

/// Unit cost of procured stock: the selling price times the markup, rounded.
pub open spec fn procurement_cost_spec(unit_price: int) -> int {
    scaled_mul(unit_price, PROCUREMENT_MARKUP as int)
}

/// Unit cost at which a shortfall is procured.
pub fn procurement_cost(unit_price: i64) -> (r: i64)
    requires
        0 <= unit_price <= MAX_AMOUNT,
    ensures
        r == procurement_cost_spec(unit_price as int),
        0 <= r <= unit_price,
{
    assert(0 <= unit_price * PROCUREMENT_MARKUP <= MAX_AMOUNT * SCALE) by (nonlinear_arith)
        requires 0 <= unit_price <= MAX_AMOUNT;
    let r = mul_scaled(unit_price, PROCUREMENT_MARKUP);
    proof {
        lemma_round_le(unit_price * PROCUREMENT_MARKUP, SCALE as int, unit_price as int);
        lemma_round_close(unit_price * PROCUREMENT_MARKUP, SCALE as int);
    }
    r
}

/// Cost of `quantity` units at `unit_cost`, rounded to four places.
pub fn cost_of(quantity: i64, unit_cost: i64) -> (r: i64)
    requires
        0 <= quantity <= MAX_AMOUNT,
        0 <= unit_cost <= MAX_AMOUNT,
        quantity * unit_cost <= MAX_AMOUNT * SCALE,
    ensures
        r == scaled_mul(quantity as int, unit_cost as int),
        0 <= r <= MAX_AMOUNT,
{
    proof {
        lemma_mul_in_range(quantity as int, unit_cost as int);
    }
    let p = (quantity as u128) * (unit_cost as u128);
    let r = div_round(p, SCALE as u128);
    proof {
        lemma_round_le(p as int, SCALE as int, MAX_AMOUNT as int);
    }
    r as i64
}

} // verus!
