//! Token cost per skill: the weights of an order's skill split, one per
//! distinct skill name, summed and ordered by name.
use vstd::prelude::*;
use crate::allocation::{is_blank, SkillUsage};
use crate::text::trim_text;
use crate::validation::{lemma_text_lt_irreflexive, lemma_text_lt_total, text_less, text_lt};

verus! {

/// Adds `cost` to the group `name` of a list of groups ordered by name,
/// opening the group in its place when it is new.
pub open spec fn group_add(g: Seq<(Seq<char>, int)>, name: Seq<char>, cost: int) -> Seq<(Seq<char>, int)>
    decreases g.len(),
{
    if g.len() == 0 {
        seq![(name, cost)]
    } else if g[0].0 == name {
        g.update(0, (name, g[0].1 + cost))
    } else if text_lt(name, g[0].0) {
        seq![(name, cost)] + g
    } else {
        seq![g[0]] + group_add(g.drop_first(), name, cost)
    }
}

/// A usage row that counts for an order: of that order, with a skill name
/// that is not blank.
pub open spec fn counts_for(u: SkillUsage, order_id: u128) -> bool {
    u.order_id == order_id && !is_blank(u.skill_id@)
}

/// The counting rows grouped by skill name, ordered by name, with the sum
/// of their costs.
pub open spec fn skill_groups(usage: Seq<SkillUsage>, order_id: u128) -> Seq<(Seq<char>, int)>
    decreases usage.len(),
{
    if usage.len() == 0 {
        Seq::empty()
    } else {
        let prev = skill_groups(usage.drop_last(), order_id);
        let u = usage.last();
        if counts_for(u, order_id) {
            group_add(prev, u.skill_id@, u.cost as int)
        } else {
            prev
        }
    }
}

/// The groups whose cost is positive, in order.
pub open spec fn positive_groups(g: Seq<(Seq<char>, int)>) -> Seq<(Seq<char>, int)>
    decreases g.len(),
{
    if g.len() == 0 {
        Seq::empty()
    } else {
        let prev = positive_groups(g.drop_last());
        if g.last().1 > 0 {
            prev.push(g.last())
        } else {
            prev
        }
    }
}

/// Sum of the magnitudes of the usage costs.
pub open spec fn usage_abs_total(usage: Seq<SkillUsage>) -> int
    decreases usage.len(),
{
    if usage.len() == 0 {
        0
    } else {
        let c = usage.last().cost as int;
        usage_abs_total(usage.drop_last()) + if c >= 0 { c } else { -c }
    }
}

/// Usage costs whose magnitudes add up to at most the largest `i64`.
pub open spec fn usage_in_range(usage: Seq<SkillUsage>) -> bool {
    usage_abs_total(usage) <= 0x7fff_ffff_ffff_ffff
}

/// Sum of the magnitudes of the group costs.
pub open spec fn groups_abs_total(g: Seq<(Seq<char>, int)>) -> int
    decreases g.len(),
{
    if g.len() == 0 {
        0
    } else {
        groups_abs_total(g.drop_first()) + if g[0].1 >= 0 { g[0].1 } else { -g[0].1 }
    }
}

proof fn lemma_groups_abs_bounds_each(g: Seq<(Seq<char>, int)>, i: int)
    requires
        0 <= i < g.len(),
    ensures
        -groups_abs_total(g) <= g[i].1 <= groups_abs_total(g),
        groups_abs_total(g) >= 0,
    decreases g.len(),
{
    lemma_groups_abs_nonneg(g.drop_first());
    if i > 0 {
        lemma_groups_abs_bounds_each(g.drop_first(), i - 1);
    }
}

proof fn lemma_groups_abs_nonneg(g: Seq<(Seq<char>, int)>)
    ensures
        groups_abs_total(g) >= 0,
    decreases g.len(),
{
    if g.len() > 0 {
        lemma_groups_abs_nonneg(g.drop_first());
    }
}

proof fn lemma_group_add_abs(g: Seq<(Seq<char>, int)>, name: Seq<char>, cost: int)
    ensures
        groups_abs_total(group_add(g, name, cost)) <= groups_abs_total(g) + if cost >= 0 { cost } else { -cost },
    decreases g.len(),
{
    assert(groups_abs_total(Seq::<(Seq<char>, int)>::empty()) == 0);
    if g.len() == 0 {
        assert(seq![(name, cost)].drop_first() =~= Seq::<(Seq<char>, int)>::empty());
    } else if g[0].0 == name {
        assert(g.update(0, (name, g[0].1 + cost)).drop_first() =~= g.drop_first());
    } else if text_lt(name, g[0].0) {
        assert((seq![(name, cost)] + g).drop_first() =~= g);
    } else {
        lemma_group_add_abs(g.drop_first(), name, cost);
        assert((seq![g[0]] + group_add(g.drop_first(), name, cost)).drop_first() =~= group_add(g.drop_first(), name, cost));
    }
}

/// Where the scan for `name` stops, `group_add` updates or inserts.
proof fn lemma_group_add_at(g: Seq<(Seq<char>, int)>, name: Seq<char>, cost: int, pos: int)
    requires
        0 <= pos <= g.len(),
        forall|j: int| 0 <= j < pos ==> text_lt((#[trigger] g[j]).0, name),
        pos < g.len() ==> !text_lt(g[pos].0, name),
    ensures
        group_add(g, name, cost) == if pos < g.len() && g[pos].0 == name {
            g.update(pos, (name, g[pos].1 + cost))
        } else {
            g.insert(pos, (name, cost))
        },
    decreases pos,
{
    if pos == 0 {
        if g.len() == 0 {
            assert(g.insert(0, (name, cost)) =~= seq![(name, cost)]);
        } else if g[0].0 != name {
            lemma_text_lt_total(g[0].0, name);
            assert(g.insert(0, (name, cost)) =~= seq![(name, cost)] + g);
        }
    } else {
        lemma_text_lt_total(g[0].0, name);
        lemma_text_lt_irreflexive(name);
        assert(g[0].0 != name);
        let rest = g.drop_first();
        assert forall|j: int| 0 <= j < pos - 1 implies text_lt((#[trigger] rest[j]).0, name) by {
            assert(rest[j] == g[j + 1]);
        }
        lemma_group_add_at(rest, name, cost, pos - 1);
        if pos < g.len() && g[pos].0 == name {
            assert(seq![g[0]] + rest.update(pos - 1, (name, rest[pos - 1].1 + cost)) =~= g.update(pos, (name, g[pos].1 + cost)));
        } else {
            assert(seq![g[0]] + rest.insert(pos - 1, (name, cost)) =~= g.insert(pos, (name, cost)));
        }
    }
}

/// The groups held in two parallel vectors, as plain values.
pub open spec fn groups_of(names: Seq<String>, totals: Seq<i64>) -> Seq<(Seq<char>, int)> {
    Seq::new(names.len(), |i: int| (names[i]@, totals[i] as int))
}

proof fn lemma_usage_abs_prefix(s: Seq<SkillUsage>, k: int)
    requires
        0 <= k <= s.len(),
    ensures
        usage_abs_total(s.subrange(0, k)) <= usage_abs_total(s),
    decreases s.len(),
{
    if k < s.len() {
        assert(s.drop_last().subrange(0, k) =~= s.subrange(0, k));
        lemma_usage_abs_prefix(s.drop_last(), k);
    } else {
        assert(s.subrange(0, k) =~= s);
    }
}

/// The order's skill weights: for each distinct non-blank skill name, ordered
/// by name, the sum of its token costs, keeping those that are positive.
pub fn skill_weights_for(usage: &Vec<SkillUsage>, order_id: u128) -> (r: (Vec<String>, Vec<i64>))
    requires
        usage_in_range(usage@),
    ensures
        r.0@.len() == r.1@.len(),
        groups_of(r.0@, r.1@) == positive_groups(skill_groups(usage@, order_id)),
        forall|i: int| 0 <= i < r.1@.len() ==> 0 < #[trigger] r.1@[i],
{
    let mut names: Vec<String> = Vec::new();
    let mut totals: Vec<i64> = Vec::new();
    let mut k: usize = 0;
    while k < usage.len()
        invariant
            k <= usage@.len(),
            usage_in_range(usage@),
            names@.len() == totals@.len(),
            groups_of(names@, totals@) == skill_groups(usage@.subrange(0, k as int), order_id),
            groups_abs_total(groups_of(names@, totals@)) <= usage_abs_total(usage@.subrange(0, k as int)),
        decreases usage@.len() - k,
    {
        let u = &usage[k];
        let ghost g = groups_of(names@, totals@);
        proof {
            assert(usage@.subrange(0, k + 1).drop_last() =~= usage@.subrange(0, k as int));
            assert(usage@.subrange(0, k + 1).last() == usage@[k as int]);
            lemma_usage_abs_prefix(usage@, k + 1);
        }
        if u.order_id == order_id {
            let t = trim_text(u.skill_id.as_str());
            if t.as_str().unicode_len() > 0 {
                let mut pos: usize = 0;
                while pos < names.len() && text_less(&names[pos], &u.skill_id)
                    invariant
                        pos <= names@.len(),
                        names@.len() == totals@.len(),
                        g == groups_of(names@, totals@),
                        forall|j: int| 0 <= j < pos ==> text_lt((#[trigger] g[j]).0, u.skill_id@),
                    decreases names@.len() - pos,
                {
                    pos = pos + 1;
                }
                proof {
                    lemma_group_add_at(g, u.skill_id@, u.cost as int, pos as int);
                    lemma_group_add_abs(g, u.skill_id@, u.cost as int);
                }
                if pos < names.len() && names[pos] == u.skill_id {
                    proof {
                        lemma_groups_abs_bounds_each(group_add(g, u.skill_id@, u.cost as int), pos as int);
                    }
                    let sum = totals[pos] as i128 + u.cost as i128;
                    totals.set(pos, sum as i64);
                    proof {
                        assert(groups_of(names@, totals@) =~= group_add(g, u.skill_id@, u.cost as int));
                    }
                } else {
                    names.insert(pos, u.skill_id.clone());
                    totals.insert(pos, u.cost);
                    proof {
                        assert(groups_of(names@, totals@) =~= group_add(g, u.skill_id@, u.cost as int));
                    }
                }
            }
        }
        k = k + 1;
    }
    proof {
        assert(usage@.subrange(0, usage@.len() as int) =~= usage@);
    }
    let ghost all = groups_of(names@, totals@);
    let mut out_names: Vec<String> = Vec::new();
    let mut out_totals: Vec<i64> = Vec::new();
    let mut i: usize = 0;
    while i < names.len()
        invariant
            i <= names@.len() == totals@.len(),
            all == groups_of(names@, totals@),
            out_names@.len() == out_totals@.len(),
            groups_of(out_names@, out_totals@) == positive_groups(all.subrange(0, i as int)),
            forall|j: int| 0 <= j < out_totals@.len() ==> 0 < #[trigger] out_totals@[j],
        decreases names@.len() - i,
    {
        proof {
            assert(all.subrange(0, i + 1).drop_last() =~= all.subrange(0, i as int));
            assert(all.subrange(0, i + 1).last() == all[i as int]);
        }
        if totals[i] > 0 {
            out_names.push(names[i].clone());
            out_totals.push(totals[i]);
            proof {
                assert(groups_of(out_names@, out_totals@) =~= positive_groups(all.subrange(0, i + 1)));
            }
        }
        i = i + 1;
    }
    proof {
        assert(all.subrange(0, all.len() as int) =~= all);
    }
    (out_names, out_totals)
}

proof fn lemma_skill_groups_bounded(usage: Seq<SkillUsage>, order_id: u128)
    ensures
        groups_abs_total(skill_groups(usage, order_id)) <= usage_abs_total(usage),
    decreases usage.len(),
{
    if usage.len() > 0 {
        lemma_skill_groups_bounded(usage.drop_last(), order_id);
        let prev = skill_groups(usage.drop_last(), order_id);
        let u = usage.last();
        lemma_group_add_abs(prev, u.skill_id@, u.cost as int);
    }
}

proof fn lemma_positive_bounded(g: Seq<(Seq<char>, int)>, m: int)
    requires
        forall|j: int| 0 <= j < g.len() ==> (#[trigger] g[j]).1 <= m,
    ensures
        forall|i: int| 0 <= i < positive_groups(g).len() ==> 0 < (#[trigger] positive_groups(g)[i]).1 <= m,
    decreases g.len(),
{
    if g.len() > 0 {
        let p = g.drop_last();
        assert forall|j: int| 0 <= j < p.len() implies (#[trigger] p[j]).1 <= m by {
            assert(p[j] == g[j]);
        }
        lemma_positive_bounded(p, m);
        assert(g.last() == g[g.len() - 1]);
        let pp = positive_groups(p);
        if g.last().1 > 0 {
            assert forall|i: int| 0 <= i < pp.push(g.last()).len() implies 0 < (#[trigger] pp.push(g.last())[i]).1 <= m by {
                if i < pp.len() {
                    assert(pp.push(g.last())[i] == pp[i]);
                }
            }
        }
    }
}

/// Every skill weight is positive and fits an `i64`.
pub proof fn lemma_weights_in_range(usage: Seq<SkillUsage>, order_id: u128)
    requires
        usage_in_range(usage),
    ensures
        forall|i: int| 0 <= i < positive_groups(skill_groups(usage, order_id)).len() ==>
            0 < (#[trigger] positive_groups(skill_groups(usage, order_id))[i]).1 <= 0x7fff_ffff_ffff_ffff,
{
    let g = skill_groups(usage, order_id);
    lemma_skill_groups_bounded(usage, order_id);
    assert forall|j: int| 0 <= j < g.len() implies (#[trigger] g[j]).1 <= 0x7fff_ffff_ffff_ffff by {
        lemma_groups_abs_bounds_each(g, j);
    }
    lemma_positive_bounded(g, 0x7fff_ffff_ffff_ffff);
}

} // verus!
