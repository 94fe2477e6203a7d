//! Periodic allocation of operating cost onto orders and skills.
//!
//! Each cost record of a period is charged to the order it names, or else
//! spread over the period's fulfilled orders by revenue share (equally when
//! revenue is zero), and each order's part is spread over the skills that
//! consumed tokens for it. Every split is remainder-safe.
use vstd::prelude::*;
use crate::money::MAX_AMOUNT;
use crate::proration::{lemma_split_sums, parts_prefix, split_part, split_remainder_safe};
use crate::grouping::{lemma_weights_in_range, positive_groups, skill_groups, skill_weights_for, usage_in_range};
use crate::text::{trim_of, trim_text};

verus! {

/// Kind of cost record.
#[derive(Clone, Copy, Debug, PartialEq, Eq, Structural)]
pub enum CostSource {
    Token,
    Cloud,
    Subscription,
}

/// How a cost reached an order.
#[derive(Clone, Copy, Debug, PartialEq, Eq, Structural)]
pub enum AllocationBasis {
    DirectOrder,
    RevenueShare,
}

/// An order fulfilled inside the period, with its revenue.
#[derive(Clone, Copy, Debug, PartialEq, Eq, Structural)]
pub struct FulfilledOrder {
    pub order_id: u128,
    pub revenue: i64,
}

/// One cost record to allocate.
pub struct AllocationInput {
    pub source_type: CostSource,
    pub source_id: u128,
    pub order_id: Option<u128>,
    pub amount: i64,
    pub currency: String,
    pub agent_id: Option<String>,
    pub skill_id: Option<String>,
}

/// Token cost one skill incurred for one order inside the period.
pub struct SkillUsage {
    pub order_id: u128,
    pub skill_id: String,
    pub cost: i64,
}

/// One generated allocation row.
pub struct CostAllocation {
    pub order_id: u128,
    pub source_type: CostSource,
    pub source_id: u128,
    pub agent_id: Option<String>,
    pub skill_id: Option<String>,
    pub basis: AllocationBasis,
    pub allocated_cost: i64,
    pub currency: String,
}

/// An allocation row as plain values.
pub struct AllocationRow {
    pub order_id: u128,
    pub source_type: CostSource,
    pub source_id: u128,
    pub agent_id: Option<Seq<char>>,
    pub skill_id: Option<Seq<char>>,
    pub basis: AllocationBasis,
    pub allocated_cost: int,
    pub currency: Seq<char>,
}

/// The text of an optional string.
pub open spec fn opt_view(o: Option<String>) -> Option<Seq<char>> {
    match o {
        Some(s) => Some(s@),
        None => None,
    }
}

impl View for CostAllocation {
    type V = AllocationRow;

    open spec fn view(&self) -> AllocationRow {
        AllocationRow {
            order_id: self.order_id,
            source_type: self.source_type,
            source_id: self.source_id,
            agent_id: opt_view(self.agent_id),
            skill_id: opt_view(self.skill_id),
            basis: self.basis,
            allocated_cost: self.allocated_cost as int,
            currency: self.currency@,
        }
    }
}

/// The rows of a sequence of allocations.
pub open spec fn rows_of(s: Seq<CostAllocation>) -> Seq<AllocationRow> {
    s.map_values(|a: CostAllocation| a@)
}

proof fn lemma_rows_push(s: Seq<CostAllocation>, a: CostAllocation)
    ensures
        rows_of(s.push(a)) == rows_of(s).push(a@),
{
    assert(rows_of(s.push(a)) =~= rows_of(s).push(a@));
}

/// A text that is empty once trimmed.
pub open spec fn is_blank(s: Seq<char>) -> bool {
    trim_of(s).len() == 0
}

/// The weights of an order's skill split: per distinct non-blank skill
/// name, ordered by name, the sum of its token costs, where positive.
pub open spec fn skill_weights(usage: Seq<SkillUsage>, order_id: u128) -> Seq<(Seq<char>, int)> {
    positive_groups(skill_groups(usage, order_id))
}

/// The weights of a list of skill groups.
pub open spec fn costs_of(ws: Seq<(Seq<char>, int)>) -> Seq<i64> {
    ws.map_values(|p: (Seq<char>, int)| p.1 as i64)
}

/// How an order's part of a cost is split over skills: all of it to a named
/// skill; else by each skill's token cost; else to no skill.
pub open spec fn skill_shares(
    amount: int,
    explicit: Option<Seq<char>>,
    usage: Seq<SkillUsage>,
    order_id: u128,
) -> Seq<(Option<Seq<char>>, int)> {
    if amount <= 0 {
        Seq::empty()
    } else if explicit is Some && !is_blank(explicit.unwrap()) {
        seq![(Some(trim_of(explicit.unwrap())), amount)]
    } else {
        let ws = skill_weights(usage, order_id);
        if ws.len() == 0 {
            seq![(None, amount)]
        } else {
            Seq::new(
                ws.len(),
                |i: int| (Some(ws[i].0), split_part(amount, costs_of(ws), i)),
            )
        }
    }
}

/// One order's part of one cost, split over skills.
pub struct SkillShare {
    pub skill_id: Option<String>,
    pub amount: i64,
}

/// Splits an order's part of a cost over skills: all of it to the named
/// skill; else by each skill's summed token cost, in skill-name order; else
/// to no skill. Nothing for a zero amount.
pub fn split_amount_by_skill(
    amount: i64,
    explicit_skill_id: &Option<String>,
    usage: &Vec<SkillUsage>,
    order_id: u128,
) -> (r: Vec<SkillShare>)
    requires
        0 <= amount <= MAX_AMOUNT,
        usage_in_range(usage@),
    ensures
        r@.len() == skill_shares(amount as int, opt_view(*explicit_skill_id), usage@, order_id).len(),
        forall|i: int|
            0 <= i < r@.len() ==> {
                let s = skill_shares(amount as int, opt_view(*explicit_skill_id), usage@, order_id)[i];
                &&& opt_view((#[trigger] r@[i]).skill_id) == s.0
                &&& r@[i].amount == s.1
                &&& 0 <= r@[i].amount <= amount
            },
        amount == 0 ==> r@.len() == 0,
        amount > 0 ==> shares_total(shares_of(r@)) == amount,
{
    let mut out: Vec<SkillShare> = Vec::new();
    if amount == 0 {
        return out;
    }
    proof {
        lemma_skill_shares_total(amount as int, opt_view(*explicit_skill_id), usage@, order_id);
    }
    if let Some(skill) = explicit_skill_id {
        let trimmed = trim_text(skill.as_str());
        if trimmed.as_str().unicode_len() > 0 {
            out.push(SkillShare { skill_id: Some(trimmed), amount });
            proof {
                assert(shares_of(out@) =~= skill_shares(amount as int, opt_view(*explicit_skill_id), usage@, order_id));
            }
            return out;
        }
    }
    let (names, weights) = skill_weights_for(usage, order_id);
    let ghost ws = skill_weights(usage@, order_id);
    proof {
        assert forall|j: int| 0 <= j < names@.len() implies (#[trigger] names@[j])@ == ws[j].0 && weights@[j] == ws[j].1 by {
            assert(crate::grouping::groups_of(names@, weights@)[j] == ws[j]);
        }
        assert(weights@ =~= costs_of(ws));
    }
    if weights.len() == 0 {
        out.push(SkillShare { skill_id: None, amount });
        proof {
            assert(shares_of(out@) =~= skill_shares(amount as int, opt_view(*explicit_skill_id), usage@, order_id));
        }
        return out;
    }
    let parts = split_remainder_safe(amount, &weights);
    let mut i: usize = 0;
    while i < parts.len()
        invariant
            i <= parts@.len() == weights@.len() == names@.len() == ws.len(),
            weights@ == costs_of(ws),
            forall|j: int| 0 <= j < names@.len() ==> (#[trigger] names@[j])@ == ws[j].0,
            forall|j: int| 0 <= j < parts@.len() ==> #[trigger] parts@[j] == split_part(amount as int, weights@, j),
            forall|j: int| 0 <= j < parts@.len() ==> 0 <= #[trigger] parts@[j] <= amount,
            out@.len() == i,
            forall|j: int| 0 <= j < i ==> {
                &&& opt_view((#[trigger] out@[j]).skill_id) == Some(ws[j].0)
                &&& out@[j].amount == split_part(amount as int, costs_of(ws), j)
                &&& 0 <= out@[j].amount <= amount
            },
        decreases parts@.len() - i,
    {
        out.push(SkillShare { skill_id: Some(names[i].clone()), amount: parts[i] });
        i = i + 1;
    }
    proof {
        assert(shares_of(out@) =~= skill_shares(amount as int, opt_view(*explicit_skill_id), usage@, order_id));
    }
    out
}

/// The revenues of a list of orders.
pub open spec fn revenues_of(orders: Seq<FulfilledOrder>) -> Seq<i64> {
    orders.map_values(|o: FulfilledOrder| o.revenue)
}

/// The orders a cost reaches, with each one's part and the basis.
pub open spec fn order_targets(orders: Seq<FulfilledOrder>, input: AllocationInput) -> Seq<
    (u128, int, AllocationBasis),
> {
    match input.order_id {
        Some(oid) => seq![(oid, input.amount as int, AllocationBasis::DirectOrder)],
        None => Seq::new(
            orders.len(),
            |i: int|
                (
                    orders[i].order_id,
                    split_part(input.amount as int, revenues_of(orders), i),
                    AllocationBasis::RevenueShare,
                ),
        ),
    }
}

/// The row recording one skill's share of one order's part of a cost.
pub open spec fn row_for(
    input: AllocationInput,
    order_id: u128,
    basis: AllocationBasis,
    share: (Option<Seq<char>>, int),
) -> AllocationRow {
    AllocationRow {
        order_id,
        source_type: input.source_type,
        source_id: input.source_id,
        agent_id: opt_view(input.agent_id),
        skill_id: share.0,
        basis,
        allocated_cost: share.1,
        currency: input.currency@,
    }
}

/// Rows for the positive skill shares of one order's part, in order.
pub open spec fn share_rows(
    input: AllocationInput,
    order_id: u128,
    basis: AllocationBasis,
    shares: Seq<(Option<Seq<char>>, int)>,
) -> Seq<AllocationRow>
    decreases shares.len(),
{
    if shares.len() == 0 {
        Seq::empty()
    } else {
        let prev = share_rows(input, order_id, basis, shares.drop_last());
        if shares.last().1 > 0 {
            prev.push(row_for(input, order_id, basis, shares.last()))
        } else {
            prev
        }
    }
}

/// Rows for the positive parts of a cost, order by order.
pub open spec fn target_rows(
    input: AllocationInput,
    targets: Seq<(u128, int, AllocationBasis)>,
    usage: Seq<SkillUsage>,
) -> Seq<AllocationRow>
    decreases targets.len(),
{
    if targets.len() == 0 {
        Seq::empty()
    } else {
        let prev = target_rows(input, targets.drop_last(), usage);
        let t = targets.last();
        if t.1 > 0 {
            prev + share_rows(
                input,
                t.0,
                t.2,
                skill_shares(t.1, opt_view(input.skill_id), usage, t.0),
            )
        } else {
            prev
        }
    }
}

/// All rows one cost record generates.
pub open spec fn input_rows(
    orders: Seq<FulfilledOrder>,
    input: AllocationInput,
    usage: Seq<SkillUsage>,
) -> Seq<AllocationRow> {
    if input.amount <= 0 {
        Seq::empty()
    } else {
        target_rows(input, order_targets(orders, input), usage)
    }
}

/// Orders whose revenues are in range and few enough to split over.
pub open spec fn orders_in_range(orders: Seq<FulfilledOrder>) -> bool {
    &&& 0 < orders.len()
    &&& forall|i: int| 0 <= i < orders.len() ==> 0 <= #[trigger] orders[i].revenue
}

/// Every generated row carries a positive cost in range.
pub open spec fn rows_in_range(rows: Seq<AllocationRow>) -> bool {
    forall|i: int| 0 <= i < rows.len() ==> 0 < #[trigger] rows[i].allocated_cost <= MAX_AMOUNT
}

/// The skill shares as plain values.
pub open spec fn shares_of(s: Seq<SkillShare>) -> Seq<(Option<Seq<char>>, int)> {
    s.map_values(|x: SkillShare| (opt_view(x.skill_id), x.amount as int))
}

/// A copy of an optional string.
fn copy_opt(o: &Option<String>) -> (r: Option<String>)
    ensures
        opt_view(r) == opt_view(*o),
{
    match o {
        Some(s) => Some(s.clone()),
        None => None,
    }
}

/// Appends the rows of the positive skill shares of one order's part.
fn push_share_rows(
    rows: &mut Vec<CostAllocation>,
    input: &AllocationInput,
    order_id: u128,
    basis: AllocationBasis,
    shares: &Vec<SkillShare>,
)
    requires
        rows_in_range(rows_of(old(rows)@)),
        forall|i: int| 0 <= i < shares@.len() ==> (#[trigger] shares@[i]).amount <= MAX_AMOUNT,
    ensures
        rows_of(final(rows)@) == rows_of(old(rows)@) + share_rows(*input, order_id, basis, shares_of(shares@)),
        rows_in_range(rows_of(final(rows)@)),
{
    let mut i: usize = 0;
    while i < shares.len()
        invariant
            i <= shares@.len(),
            forall|j: int| 0 <= j < shares@.len() ==> (#[trigger] shares@[j]).amount <= MAX_AMOUNT,
            rows_of(rows@) == rows_of(old(rows)@) + share_rows(*input, order_id, basis, shares_of(shares@.subrange(0, i as int))),
            rows_in_range(rows_of(rows@)),
        decreases shares@.len() - i,
    {
        let sh = &shares[i];
        let ghost before = rows@;
        proof {
            assert(shares_of(shares@.subrange(0, i + 1)).drop_last() =~= shares_of(shares@.subrange(0, i as int)));
            assert(shares_of(shares@.subrange(0, i + 1)).last() == (opt_view(sh.skill_id), sh.amount as int));
        }
        if sh.amount > 0 {
            let row = CostAllocation {
                order_id,
                source_type: input.source_type,
                source_id: input.source_id,
                agent_id: copy_opt(&input.agent_id),
                skill_id: copy_opt(&sh.skill_id),
                basis,
                allocated_cost: sh.amount,
                currency: input.currency.clone(),
            };
            rows.push(row);
            proof {
                lemma_rows_push(before, row);
                assert(row@ == row_for(*input, order_id, basis, (opt_view(sh.skill_id), sh.amount as int)));
            }
        }
        i = i + 1;
    }
    proof {
        assert(shares@.subrange(0, shares@.len() as int) =~= shares@);
    }
}

/// Appends the rows one cost record generates: its amount goes to the order
/// it names, or is split over `orders` by revenue share, and each order's
/// part is split over skills.
pub fn allocate_input_cost(
    rows: &mut Vec<CostAllocation>,
    orders: &Vec<FulfilledOrder>,
    input: &AllocationInput,
    usage: &Vec<SkillUsage>,
)
    requires
        orders_in_range(orders@),
        usage_in_range(usage@),
        input.amount <= MAX_AMOUNT,
        rows_in_range(rows_of(old(rows)@)),
    ensures
        rows_of(final(rows)@) == rows_of(old(rows)@) + input_rows(orders@, *input, usage@),
        rows_in_range(rows_of(final(rows)@)),
        input.amount > 0 ==> row_sum(input_rows(orders@, *input, usage@)) == input.amount,
        input.amount <= 0 ==> input_rows(orders@, *input, usage@).len() == 0,
{
    proof {
        if input.amount > 0 {
            lemma_input_rows_sum(orders@, *input, usage@);
        }
    }
    if input.amount <= 0 {
        proof {
            assert(rows_of(rows@) =~= rows_of(rows@) + Seq::<AllocationRow>::empty());
        }
        return ;
    }
    let mut ids: Vec<u128> = Vec::new();
    let mut parts: Vec<i64> = Vec::new();
    let basis: AllocationBasis;
    match input.order_id {
        Some(oid) => {
            ids.push(oid);
            parts.push(input.amount);
            basis = AllocationBasis::DirectOrder;
        },
        None => {
            let mut revenues: Vec<i64> = Vec::new();
            let mut k: usize = 0;
            while k < orders.len()
                invariant
                    k <= orders@.len(),
                    ids@.len() == k,
                    revenues@ == revenues_of(orders@).subrange(0, k as int),
                    forall|j: int| 0 <= j < k ==> #[trigger] ids@[j] == orders@[j].order_id,
                decreases orders@.len() - k,
            {
                revenues.push(orders[k].revenue);
                ids.push(orders[k].order_id);
                proof {
                    assert(revenues@ =~= revenues_of(orders@).subrange(0, k + 1));
                }
                k = k + 1;
            }
            proof {
                assert(revenues@ =~= revenues_of(orders@));
            }
            parts = split_remainder_safe(input.amount, &revenues);
            basis = AllocationBasis::RevenueShare;
        },
    }
    let ghost targets = order_targets(orders@, *input);
    assert(ids@.len() == parts@.len() == targets.len());
    assert(forall|j: int| 0 <= j < targets.len() ==> #[trigger] targets[j] == (ids@[j], parts@[j] as int, basis));
    assert(forall|j: int| 0 <= j < targets.len() ==> 0 <= #[trigger] parts@[j] <= input.amount);
    let ghost start = rows@;
    let mut t: usize = 0;
    while t < ids.len()
        invariant
            t <= ids@.len() == parts@.len() == targets.len(),
                forall|j: int| 0 <= j < targets.len() ==> #[trigger] targets[j] == (ids@[j], parts@[j] as int, basis),
            forall|j: int| 0 <= j < targets.len() ==> 0 <= #[trigger] parts@[j] <= input.amount,
            input.amount <= MAX_AMOUNT,
            usage_in_range(usage@),
            rows_of(rows@) == rows_of(start) + target_rows(*input, targets.subrange(0, t as int), usage@),
            rows_in_range(rows_of(rows@)),
        decreases ids@.len() - t,
    {
        proof {
            assert(targets.subrange(0, t + 1).drop_last() =~= targets.subrange(0, t as int));
            assert(targets.subrange(0, t + 1).last() == targets[t as int]);
        }
        if parts[t] > 0 {
            let shares = split_amount_by_skill(parts[t], &input.skill_id, usage, ids[t]);
            proof {
                assert(shares_of(shares@) =~= skill_shares(parts@[t as int] as int, opt_view(input.skill_id), usage@, ids@[t as int]));
            }
            push_share_rows(rows, input, ids[t], basis, &shares);
            proof {
                assert(rows_of(rows@) =~= rows_of(start) + target_rows(*input, targets.subrange(0, t + 1), usage@));
            }
        }
        t = t + 1;
    }
    proof {
        assert(targets.subrange(0, targets.len() as int) =~= targets);
    }
}

/// Sum of the amounts of a list of skill shares.
pub open spec fn shares_total(s: Seq<(Option<Seq<char>>, int)>) -> int
    decreases s.len(),
{
    if s.len() == 0 {
        0
    } else {
        shares_total(s.drop_last()) + s.last().1
    }
}

/// Sum of the parts of a list of order targets.
pub open spec fn targets_total(t: Seq<(u128, int, AllocationBasis)>) -> int
    decreases t.len(),
{
    if t.len() == 0 {
        0
    } else {
        targets_total(t.drop_last()) + t.last().1
    }
}

/// Sum of the costs of a sequence of rows.
pub open spec fn row_sum(rows: Seq<AllocationRow>) -> int
    decreases rows.len(),
{
    if rows.len() == 0 {
        0
    } else {
        row_sum(rows.drop_last()) + rows.last().allocated_cost
    }
}

/// The sum of two row lists one after the other.
pub proof fn lemma_row_sum_concat(a: Seq<AllocationRow>, b: Seq<AllocationRow>)
    ensures
        row_sum(a + b) == row_sum(a) + row_sum(b),
    decreases b.len(),
{
    if b.len() > 0 {
        assert((a + b).drop_last() =~= a + b.drop_last());
        lemma_row_sum_concat(a, b.drop_last());
    } else {
        assert(a + b =~= a);
    }
}

proof fn lemma_split_shares_total(amount: int, ws: Seq<(Seq<char>, int)>, k: int)
    requires
        0 <= k <= ws.len(),
    ensures
        shares_total(Seq::new(k as nat, |i: int| (Some(ws[i].0), split_part(amount, costs_of(ws), i))))
            == parts_prefix(amount, costs_of(ws), k),
    decreases k,
{
    if k > 0 {
        lemma_split_shares_total(amount, ws, k - 1);
        assert(Seq::new(k as nat, |i: int| (Some(ws[i].0), split_part(amount, costs_of(ws), i))).drop_last()
            =~= Seq::new((k - 1) as nat, |i: int| (Some(ws[i].0), split_part(amount, costs_of(ws), i))));
    }
}

/// The skill shares of a positive part add up to it and none is negative.
pub proof fn lemma_skill_shares_total(amount: int, explicit: Option<Seq<char>>, usage: Seq<SkillUsage>, order_id: u128)
    requires
        amount > 0,
        usage_in_range(usage),
    ensures
        shares_total(skill_shares(amount, explicit, usage, order_id)) == amount,
        forall|i: int| 0 <= i < skill_shares(amount, explicit, usage, order_id).len() ==>
            0 <= (#[trigger] skill_shares(amount, explicit, usage, order_id)[i]).1 <= amount,
{
    let sh = skill_shares(amount, explicit, usage, order_id);
    assert(shares_total(Seq::<(Option<Seq<char>>, int)>::empty()) == 0);
    if explicit is Some && !is_blank(explicit.unwrap()) {
        assert(sh.drop_last() =~= Seq::<(Option<Seq<char>>, int)>::empty());
    } else {
        let ws = skill_weights(usage, order_id);
        if ws.len() == 0 {
            assert(sh.drop_last() =~= Seq::<(Option<Seq<char>>, int)>::empty());
        } else {
            lemma_weights_in_range(usage, order_id);
            assert forall|j: int| 0 <= j < costs_of(ws).len() implies 0 <= #[trigger] costs_of(ws)[j] by {
                assert(0 < ws[j].1 <= 0x7fff_ffff_ffff_ffff);
            }
            lemma_split_sums(amount, costs_of(ws));
            lemma_split_shares_total(amount, ws, ws.len() as int);
            assert forall|i: int| 0 <= i < sh.len() implies 0 <= (#[trigger] sh[i]).1 <= amount by {
                assert(sh[i].1 == split_part(amount, costs_of(ws), i));
            }
        }
    }
}

/// Rows of non-negative shares add up to the shares.
pub proof fn lemma_share_rows_sum(
    input: AllocationInput,
    order_id: u128,
    basis: AllocationBasis,
    shares: Seq<(Option<Seq<char>>, int)>,
)
    requires
        forall|i: int| 0 <= i < shares.len() ==> 0 <= (#[trigger] shares[i]).1,
    ensures
        row_sum(share_rows(input, order_id, basis, shares)) == shares_total(shares),
    decreases shares.len(),
{
    if shares.len() > 0 {
        let prev = shares.drop_last();
        assert forall|i: int| 0 <= i < prev.len() implies 0 <= (#[trigger] prev[i]).1 by {
            assert(prev[i] == shares[i]);
        }
        lemma_share_rows_sum(input, order_id, basis, prev);
        assert(shares.last() == shares[shares.len() - 1]);
        let p = share_rows(input, order_id, basis, prev);
        if shares.last().1 > 0 {
            assert(p.push(row_for(input, order_id, basis, shares.last())).drop_last() =~= p);
        }
    }
}

/// Rows of non-negative targets add up to the targets.
pub proof fn lemma_target_rows_sum(input: AllocationInput, targets: Seq<(u128, int, AllocationBasis)>, usage: Seq<SkillUsage>)
    requires
        forall|i: int| 0 <= i < targets.len() ==> 0 <= (#[trigger] targets[i]).1,
        usage_in_range(usage),
    ensures
        row_sum(target_rows(input, targets, usage)) == targets_total(targets),
    decreases targets.len(),
{
    if targets.len() > 0 {
        let prev = targets.drop_last();
        assert forall|i: int| 0 <= i < prev.len() implies 0 <= (#[trigger] prev[i]).1 by {
            assert(prev[i] == targets[i]);
        }
        lemma_target_rows_sum(input, prev, usage);
        let t = targets.last();
        assert(t == targets[targets.len() - 1]);
        if t.1 > 0 {
            let sh = skill_shares(t.1, opt_view(input.skill_id), usage, t.0);
            lemma_skill_shares_total(t.1, opt_view(input.skill_id), usage, t.0);
            lemma_share_rows_sum(input, t.0, t.2, sh);
            lemma_row_sum_concat(target_rows(input, prev, usage), share_rows(input, t.0, t.2, sh));
        }
    }
}

proof fn lemma_revenue_targets_total(orders: Seq<FulfilledOrder>, input: AllocationInput, k: int)
    requires
        0 <= k <= orders.len(),
        input.order_id is None,
    ensures
        targets_total(order_targets(orders, input).subrange(0, k)) == parts_prefix(input.amount as int, revenues_of(orders), k),
    decreases k,
{
    if k > 0 {
        lemma_revenue_targets_total(orders, input, k - 1);
        assert(order_targets(orders, input).subrange(0, k).drop_last() =~= order_targets(orders, input).subrange(0, k - 1));
    }
}

/// The parts of a positive cost over its orders add up to it; none is negative.
pub proof fn lemma_order_targets_total(orders: Seq<FulfilledOrder>, input: AllocationInput)
    requires
        orders_in_range(orders),
        input.amount > 0,
    ensures
        targets_total(order_targets(orders, input)) == input.amount,
        forall|i: int| 0 <= i < order_targets(orders, input).len() ==>
            0 <= (#[trigger] order_targets(orders, input)[i]).1 <= input.amount,
{
    let t = order_targets(orders, input);
    assert(targets_total(Seq::<(u128, int, AllocationBasis)>::empty()) == 0);
    if input.order_id is Some {
        assert(t.drop_last() =~= Seq::<(u128, int, AllocationBasis)>::empty());
    } else {
        let rv = revenues_of(orders);
        assert forall|j: int| 0 <= j < rv.len() implies 0 <= #[trigger] rv[j] by {
            assert(rv[j] == orders[j].revenue);
        }
        lemma_split_sums(input.amount as int, rv);
        lemma_revenue_targets_total(orders, input, orders.len() as int);
        assert(t.subrange(0, orders.len() as int) =~= t);
        assert forall|i: int| 0 <= i < t.len() implies 0 <= (#[trigger] t[i]).1 <= input.amount by {
            assert(t[i].1 == split_part(input.amount as int, rv, i));
        }
    }
}

/// The rows a positive cost record generates add up to its amount exactly.
pub proof fn lemma_input_rows_sum(orders: Seq<FulfilledOrder>, input: AllocationInput, usage: Seq<SkillUsage>)
    requires
        orders_in_range(orders),
        input.amount > 0,
        usage_in_range(usage),
    ensures
        row_sum(input_rows(orders, input, usage)) == input.amount,
{
    lemma_order_targets_total(orders, input);
    lemma_target_rows_sum(input, order_targets(orders, input), usage);
}

} // verus!
