//! Normalisation and validation of codes, keywords and agent identities.
use vstd::prelude::*;
use crate::orders::{invalid, ValidationError};
use crate::text::{normal_form, normalize_code, text_is, trim_of, trim_text};

verus! {

/// Agents known to the business.
pub open spec fn is_registered_agent(id: Seq<char>) -> bool {
    ||| id == "strategy-agent"@
    ||| id == "sales-agent"@
    ||| id == "procurement-agent"@
    ||| id == "warehouse-agent"@
    ||| id == "ar-agent"@
    ||| id == "controller-agent"@
    ||| id == "board-agent"@
    ||| id == "ops-orchestrator-agent"@
    ||| id == "audit-agent"@
    ||| id == "payroll-agent"@
}

/// Agents that may take governance decisions.
pub open spec fn is_governance_actor(id: Seq<char>) -> bool {
    id == "board-agent"@ || id == "strategy-agent"@ || id == "controller-agent"@
}

/// Agents that may run finance operations.
pub open spec fn is_finops_actor(id: Seq<char>) -> bool {
    id == "payroll-agent"@ || id == "controller-agent"@ || id == "board-agent"@
}

fn registered(id: &String) -> (r: bool)
    ensures
        r == is_registered_agent(id@),
{
    text_is(id, "strategy-agent") || text_is(id, "sales-agent") || text_is(id, "procurement-agent")
        || text_is(id, "warehouse-agent") || text_is(id, "ar-agent") || text_is(id, "controller-agent")
        || text_is(id, "board-agent") || text_is(id, "ops-orchestrator-agent")
        || text_is(id, "audit-agent") || text_is(id, "payroll-agent")
}

/// Checks an agent id exactly as given against the registered agents.
pub fn validate_registered_agent(agent_id: &str) -> (r: Result<(), ValidationError>)
    ensures
        r is Ok <==> is_registered_agent(agent_id@),
{
    let id = String::from_str(agent_id);
    if registered(&id) {
        Ok(())
    } else {
        Err(invalid("unknown agent_id"))
    }
}

/// Trims an agent id and checks that it is registered.
pub fn validate_agent_id(agent_id: &str) -> (r: Result<String, ValidationError>)
    ensures
        r is Ok <==> (trim_of(agent_id@).len() > 0 && is_registered_agent(trim_of(agent_id@))),
        r matches Ok(id) ==> id@ == trim_of(agent_id@),
{
    let normalized = trim_text(agent_id);
    if normalized.as_str().unicode_len() == 0 {
        return Err(invalid("requested_by_agent_id is required"));
    }
    if !registered(&normalized) {
        return Err(invalid("requested_by_agent_id is not registered"));
    }
    Ok(normalized)
}

/// A registered agent allowed to take governance decisions.
pub fn validate_governance_actor(agent_id: &str) -> (r: Result<String, ValidationError>)
    ensures
        r is Ok <==> (trim_of(agent_id@).len() > 0 && is_registered_agent(trim_of(agent_id@)) && is_governance_actor(trim_of(agent_id@))),
        r matches Ok(id) ==> id@ == trim_of(agent_id@),
{
    let normalized = match validate_agent_id(agent_id) {
        Ok(n) => n,
        Err(e) => {
            return Err(e);
        },
    };
    if !(text_is(&normalized, "board-agent") || text_is(&normalized, "strategy-agent")
        || text_is(&normalized, "controller-agent")) {
        return Err(invalid("agent is not authorized for governance decisions"));
    }
    Ok(normalized)
}

/// A registered agent allowed to run finance operations.
pub fn validate_finops_actor(agent_id: &str) -> (r: Result<String, ValidationError>)
    ensures
        r is Ok <==> (trim_of(agent_id@).len() > 0 && is_registered_agent(trim_of(agent_id@)) && is_finops_actor(trim_of(agent_id@))),
        r matches Ok(id) ==> id@ == trim_of(agent_id@),
{
    let normalized = match validate_agent_id(agent_id) {
        Ok(n) => n,
        Err(e) => {
            return Err(e);
        },
    };
    if !(text_is(&normalized, "payroll-agent") || text_is(&normalized, "controller-agent")
        || text_is(&normalized, "board-agent")) {
        return Err(invalid("agent is not authorized for finops operations"));
    }
    Ok(normalized)
}

/// Normal form of a kind of transaction: one of PRODUCT, SERVICE.
pub fn normalize_transaction_type(value: &str) -> (r: Result<String, ValidationError>)
    ensures
        r is Ok <==> (normal_form(value@) == "PRODUCT"@ || normal_form(value@) == "SERVICE"@),
        r matches Ok(s) ==> s@ == normal_form(value@),
{
    let normalized = normalize_code(value);
    if text_is(&normalized, "PRODUCT")
        || text_is(&normalized, "SERVICE") {
        Ok(normalized)
    } else {
        Err(invalid("transaction_type must be PRODUCT or SERVICE"))
    }
}

/// Normal form of a origination channel: one of EMAIL, WEBHOOK.
pub fn normalize_origination_channel_type(value: &str) -> (r: Result<String, ValidationError>)
    ensures
        r is Ok <==> (normal_form(value@) == "EMAIL"@ || normal_form(value@) == "WEBHOOK"@),
        r matches Ok(s) ==> s@ == normal_form(value@),
{
    let normalized = normalize_code(value);
    if text_is(&normalized, "EMAIL")
        || text_is(&normalized, "WEBHOOK") {
        Ok(normalized)
    } else {
        Err(invalid("channel_type must be EMAIL or WEBHOOK"))
    }
}

/// Normal form of a kind of cloud cost: one of COMPUTE, STORAGE, NETWORK.
pub fn normalize_cloud_cost_type(value: &str) -> (r: Result<String, ValidationError>)
    ensures
        r is Ok <==> (normal_form(value@) == "COMPUTE"@ || normal_form(value@) == "STORAGE"@ || normal_form(value@) == "NETWORK"@),
        r matches Ok(s) ==> s@ == normal_form(value@),
{
    let normalized = normalize_code(value);
    if text_is(&normalized, "COMPUTE")
        || text_is(&normalized, "STORAGE")
        || text_is(&normalized, "NETWORK") {
        Ok(normalized)
    } else {
        Err(invalid("cost_type must be one of COMPUTE, STORAGE, NETWORK"))
    }
}

/// Normal form of a governance action type: one of ORDER_EXECUTION_PRODUCT, ORDER_EXECUTION_SERVICE.
pub fn normalize_action_type(value: &str) -> (r: Result<String, ValidationError>)
    ensures
        r is Ok <==> (normal_form(value@) == "ORDER_EXECUTION_PRODUCT"@ || normal_form(value@) == "ORDER_EXECUTION_SERVICE"@),
        r matches Ok(s) ==> s@ == normal_form(value@),
{
    let normalized = normalize_code(value);
    if text_is(&normalized, "ORDER_EXECUTION_PRODUCT")
        || text_is(&normalized, "ORDER_EXECUTION_SERVICE") {
        Ok(normalized)
    } else {
        Err(invalid("unsupported action_type"))
    }
}

/// Normal form of a governance decision status: one of PENDING, APPROVED, REJECTED, FROZEN.
pub fn normalize_decision_status(value: &str) -> (r: Result<String, ValidationError>)
    ensures
        r is Ok <==> (normal_form(value@) == "PENDING"@ || normal_form(value@) == "APPROVED"@ || normal_form(value@) == "REJECTED"@ || normal_form(value@) == "FROZEN"@),
        r matches Ok(s) ==> s@ == normal_form(value@),
{
    let normalized = normalize_code(value);
    if text_is(&normalized, "PENDING")
        || text_is(&normalized, "APPROVED")
        || text_is(&normalized, "REJECTED")
        || text_is(&normalized, "FROZEN") {
        Ok(normalized)
    } else {
        Err(invalid("status must be one of PENDING, APPROVED, REJECTED, FROZEN"))
    }
}

/// Normal form of a skill approval status: one of APPROVED, DRAFT, REVOKED.
pub fn normalize_skill_approval_status(value: &str) -> (r: Result<String, ValidationError>)
    ensures
        r is Ok <==> (normal_form(value@) == "APPROVED"@ || normal_form(value@) == "DRAFT"@ || normal_form(value@) == "REVOKED"@),
        r matches Ok(s) ==> s@ == normal_form(value@),
{
    let normalized = normalize_code(value);
    if text_is(&normalized, "APPROVED")
        || text_is(&normalized, "DRAFT")
        || text_is(&normalized, "REVOKED") {
        Ok(normalized)
    } else {
        Err(invalid("approval_status must be APPROVED, DRAFT, or REVOKED"))
    }
}

/// Normal form of a routing scope: one of ANY, PRODUCT, SERVICE.
pub fn normalize_routing_transaction_type(value: &str) -> (r: Result<String, ValidationError>)
    ensures
        r is Ok <==> (normal_form(value@) == "ANY"@ || normal_form(value@) == "PRODUCT"@ || normal_form(value@) == "SERVICE"@),
        r matches Ok(s) ==> s@ == normal_form(value@),
{
    let normalized = normalize_code(value);
    if text_is(&normalized, "ANY")
        || text_is(&normalized, "PRODUCT")
        || text_is(&normalized, "SERVICE") {
        Ok(normalized)
    } else {
        Err(invalid("transaction_type must be ANY, PRODUCT, or SERVICE"))
    }
}

/// Normal form of a kind of offering: one of PRODUCT, SERVICE.
pub fn normalize_offering_type(value: &str) -> (r: Result<String, ValidationError>)
    ensures
        r is Ok <==> (normal_form(value@) == "PRODUCT"@ || normal_form(value@) == "SERVICE"@),
        r matches Ok(s) ==> s@ == normal_form(value@),
{
    let normalized = normalize_code(value);
    if text_is(&normalized, "PRODUCT")
        || text_is(&normalized, "SERVICE") {
        Ok(normalized)
    } else {
        Err(invalid("offering_type must be PRODUCT or SERVICE"))
    }
}

/// Normal form of a variance severity: one of ON_TRACK, WARNING, BREACH.
pub fn normalize_variance_severity(value: &str) -> (r: Result<String, ValidationError>)
    ensures
        r is Ok <==> (normal_form(value@) == "ON_TRACK"@ || normal_form(value@) == "WARNING"@ || normal_form(value@) == "BREACH"@),
        r matches Ok(s) ==> s@ == normal_form(value@),
{
    let normalized = normalize_code(value);
    if text_is(&normalized, "ON_TRACK")
        || text_is(&normalized, "WARNING")
        || text_is(&normalized, "BREACH") {
        Ok(normalized)
    } else {
        Err(invalid("severity must be ON_TRACK, WARNING, or BREACH"))
    }
}

/// Normal form of a corrective action status: one of OPEN, CLOSED.
pub fn normalize_corrective_action_status(value: &str) -> (r: Result<String, ValidationError>)
    ensures
        r is Ok <==> (normal_form(value@) == "OPEN"@ || normal_form(value@) == "CLOSED"@),
        r matches Ok(s) ==> s@ == normal_form(value@),
{
    let normalized = normalize_code(value);
    if text_is(&normalized, "OPEN")
        || text_is(&normalized, "CLOSED") {
        Ok(normalized)
    } else {
        Err(invalid("status must be OPEN or CLOSED"))
    }
}

/// Normal form of a currency code: three characters once trimmed and upper-cased.
pub fn normalize_currency(value: &str) -> (r: Result<String, ValidationError>)
    ensures
        r is Ok <==> normal_form(value@).len() == 3,
        r matches Ok(s) ==> s@ == normal_form(value@),
{
    let normalized = normalize_code(value);
    let n = normalized.as_str().unicode_len();
    if n == 0 {
        return Err(invalid("currency is required"));
    }
    if n != 3 {
        return Err(invalid("currency must be a 3-letter code"));
    }
    Ok(normalized)
}

/// Normal form of a strategy key: not blank.
pub fn normalize_strategy_key(value: &str) -> (r: Result<String, ValidationError>)
    ensures
        r is Ok <==> normal_form(value@).len() > 0,
        r matches Ok(s) ==> s@ == normal_form(value@),
{
    let normalized = normalize_code(value);
    if normalized.as_str().unicode_len() == 0 {
        return Err(invalid("value is required"));
    }
    Ok(normalized)
}

/// A character allowed in a metric name.
pub open spec fn metric_char(c: char) -> bool {
    ('A' <= c && c <= 'Z') || ('0' <= c && c <= '9') || c == '_'
}

/// Normal form of a metric name: not blank, only upper-case letters, digits
/// and underscores.
pub fn normalize_metric_name(value: &str) -> (r: Result<String, ValidationError>)
    ensures
        r is Ok <==> (normal_form(value@).len() > 0 && forall|i: int|
            0 <= i < normal_form(value@).len() ==> metric_char(#[trigger] normal_form(value@)[i])),
        r matches Ok(s) ==> s@ == normal_form(value@),
{
    let normalized = normalize_code(value);
    let n = normalized.as_str().unicode_len();
    if n == 0 {
        return Err(invalid("metric_name is required"));
    }
    let mut i: usize = 0;
    while i < n
        invariant
            i <= n == normalized@.len(),
            normalized@ == normal_form(value@),
            forall|j: int| 0 <= j < i ==> metric_char(#[trigger] normalized@[j]),
        decreases n - i,
    {
        let c = normalized.as_str().get_char(i);
        if !(('A' <= c && c <= 'Z') || ('0' <= c && c <= '9') || c == '_') {
            assert(!metric_char(normalized@[i as int]));
            assert(normal_form(value@)[i as int] == normalized@[i as int]);
            assert(!metric_char(normal_form(value@)[i as int]));
            return Err(invalid("metric_name must contain only uppercase letters, digits, and underscores"));
        }
        i = i + 1;
    }
    Ok(normalized)
}

/// Lexicographic order of texts by character code, as `String`'s `Ord` orders them.
pub open spec fn text_lt(a: Seq<char>, b: Seq<char>) -> bool
    decreases a.len(),
{
    if a.len() == 0 {
        b.len() > 0
    } else if b.len() == 0 {
        false
    } else if a[0] != b[0] {
        a[0] < b[0]
    } else {
        text_lt(a.drop_first(), b.drop_first())
    }
}

proof fn lemma_text_lt_trans(a: Seq<char>, b: Seq<char>, c: Seq<char>)
    requires
        text_lt(a, b),
        text_lt(b, c),
    ensures
        text_lt(a, c),
    decreases a.len(),
{
    if a.len() > 0 && b.len() > 0 && c.len() > 0 && a[0] == b[0] && b[0] == c[0] {
        lemma_text_lt_trans(a.drop_first(), b.drop_first(), c.drop_first());
    }
}

pub proof fn lemma_text_lt_irreflexive(a: Seq<char>)
    ensures
        !text_lt(a, a),
    decreases a.len(),
{
    if a.len() > 0 {
        lemma_text_lt_irreflexive(a.drop_first());
    }
}

pub proof fn lemma_text_lt_total(a: Seq<char>, b: Seq<char>)
    ensures
        a == b || text_lt(a, b) || text_lt(b, a),
        !(text_lt(a, b) && text_lt(b, a)),
        !text_lt(a, a),
    decreases a.len(),
{
    if a.len() > 0 && b.len() > 0 {
        lemma_text_lt_total(a.drop_first(), b.drop_first());
        if a[0] == b[0] && a.drop_first() == b.drop_first() {
            assert(a =~= seq![a[0]] + a.drop_first());
            assert(b =~= seq![b[0]] + b.drop_first());
        }
    } else if a.len() == 0 && b.len() == 0 {
        assert(a =~= b);
    }
    lemma_text_lt_irreflexive(a);
}

/// Whether `a` sorts before `b`.
pub(crate) fn text_less(a: &String, b: &String) -> (r: bool)
    ensures
        r == text_lt(a@, b@),
{
    let n = a.as_str().unicode_len();
    let m = b.as_str().unicode_len();
    let mut i: usize = 0;
    proof {
        assert(a@.subrange(0, n as int) =~= a@);
        assert(b@.subrange(0, m as int) =~= b@);
    }
    while i < n && i < m
        invariant
            n == a@.len(),
            m == b@.len(),
            i <= n,
            i <= m,
            forall|j: int| 0 <= j < i ==> a@[j] == b@[j],
            text_lt(a@, b@) == text_lt(a@.subrange(i as int, n as int), b@.subrange(i as int, m as int)),
        decreases n - i,
    {
        let x = a.as_str().get_char(i);
        let y = b.as_str().get_char(i);
        proof {
            let sa = a@.subrange(i as int, n as int);
            let sb = b@.subrange(i as int, m as int);
            assert(sa[0] == x && sb[0] == y);
            assert(sa.drop_first() =~= a@.subrange(i + 1, n as int));
            assert(sb.drop_first() =~= b@.subrange(i + 1, m as int));
        }
        if x != y {
            return x < y;
        }
        i = i + 1;
    }
    i < m
}

/// Texts in strictly increasing order.
pub open spec fn strictly_sorted(s: Seq<String>) -> bool {
    forall|a: int, b: int| 0 <= a < b < s.len() ==> text_lt((#[trigger] s[a])@, (#[trigger] s[b])@)
}

/// `name` is the trimmed form of a non-blank field.
pub open spec fn from_field(name: Seq<char>, fields: Seq<String>) -> bool {
    exists|i: int| 0 <= i < fields.len() && trim_of((#[trigger] fields[i])@).len() > 0 && name == trim_of(fields[i]@)
}

/// `r` holds, sorted and once each, the non-blank trimmed fields.
pub open spec fn normalized_fields(r: Seq<String>, fields: Seq<String>) -> bool {
    &&& strictly_sorted(r)
    &&& forall|k: int| 0 <= k < r.len() ==> from_field((#[trigger] r[k])@, fields)
    &&& names_covered(r, fields, fields.len() as int)
}

/// Inserts `x` in sorted place unless it is already there.
fn insert_sorted(out: &mut Vec<String>, x: String) -> (r: (bool, usize))
    requires
        strictly_sorted(old(out)@),
    ensures
        strictly_sorted(final(out)@),
        r.0 ==> r.1 <= old(out)@.len() && final(out)@ == old(out)@.insert(r.1 as int, x),
        !r.0 ==> r.1 < old(out)@.len() && final(out)@ == old(out)@ && old(out)@[r.1 as int]@ == x@,
{
    let ghost before = out@;
    let mut pos: usize = 0;
    while pos < out.len() && text_less(&out[pos], &x)
        invariant
            pos <= out@.len(),
            out@ == before,
            forall|k: int| 0 <= k < pos ==> text_lt((#[trigger] out@[k])@, x@),
        decreases out@.len() - pos,
    {
        pos = pos + 1;
    }
    if pos < out.len() && out[pos] == x {
        return (false, pos);
    }
    proof {
        if pos < before.len() {
            lemma_text_lt_total(before[pos as int]@, x@);
        }
    }
    let ghost xv = x@;
    out.insert(pos, x);
    proof {
        assert forall|a: int, b: int| 0 <= a < b < out@.len() implies text_lt((#[trigger] out@[a])@, (#[trigger] out@[b])@) by {
            if b < pos {
                assert(out@[a] == before[a] && out@[b] == before[b]);
            } else if b == pos {
                assert(out@[a] == before[a]);
            } else if a < pos {
                assert(out@[a] == before[a] && out@[b] == before[b - 1]);
                if b - 1 > pos {
                    assert(text_lt(before[pos as int]@, before[b - 1]@));
                    lemma_text_lt_trans(xv, before[pos as int]@, before[b - 1]@);
                }
                lemma_text_lt_trans(before[a]@, xv, before[b - 1]@);
            } else if a == pos {
                assert(out@[b] == before[b - 1]);
                if b - 1 > pos {
                    assert(text_lt(before[pos as int]@, before[b - 1]@));
                    lemma_text_lt_trans(xv, before[pos as int]@, before[b - 1]@);
                }
            } else {
                assert(out@[a] == before[a - 1] && out@[b] == before[b - 1]);
            }
        }
    }
    (true, pos)
}

/// Each kept name is the trimmed form of a non-blank field before `n`.
pub open spec fn names_sourced(out: Seq<String>, src: Seq<int>, fields: Seq<String>, n: int) -> bool {
    &&& src.len() == out.len()
    &&& forall|k: int| 0 <= k < out.len() ==> {
        let j = #[trigger] src[k];
        &&& 0 <= j < n
        &&& trim_of(fields[j]@).len() > 0
        &&& out[k]@ == trim_of(fields[j]@)
    }
}

/// Every non-blank field before `n` has its trimmed form kept.
pub open spec fn names_covered(out: Seq<String>, fields: Seq<String>, n: int) -> bool {
    forall|j: int| 0 <= j < n && trim_of((#[trigger] fields[j])@).len() > 0 ==>
        exists|k: int| 0 <= k < out.len() && out[k]@ == trim_of(fields[j]@)
}

proof fn lemma_names_step(
    before: Seq<String>,
    out: Seq<String>,
    src: Seq<int>,
    fields: Seq<String>,
    i: int,
    placed: (bool, usize),
    x: String,
) -> (src2: Seq<int>)
    requires
        names_sourced(before, src, fields, i),
        names_covered(before, fields, i),
        0 <= i < fields.len(),
        x@ == trim_of(fields[i]@),
        x@.len() > 0,
        placed.0 ==> placed.1 <= before.len() && out == before.insert(placed.1 as int, x),
        !placed.0 ==> placed.1 < before.len() && out == before && before[placed.1 as int]@ == x@,
    ensures
        names_sourced(out, src2, fields, i + 1),
        names_covered(out, fields, i + 1),
{
    let src2 = if placed.0 { src.insert(placed.1 as int, i) } else { src };
    assert forall|k: int| 0 <= k < out.len() implies {
        let j = #[trigger] src2[k];
        &&& 0 <= j < i + 1
        &&& trim_of(fields[j]@).len() > 0
        &&& out[k]@ == trim_of(fields[j]@)
    } by {
        if placed.0 {
            let p = placed.1 as int;
            if k < p {
                assert(src2[k] == src[k] && out[k] == before[k]);
            } else if k > p {
                assert(src2[k] == src[k - 1] && out[k] == before[k - 1]);
            } else {
                assert(src2[k] == i && out[k] == x);
            }
        }
    }
    assert forall|j: int| 0 <= j < i + 1 && trim_of((#[trigger] fields[j])@).len() > 0 implies
        exists|k: int| 0 <= k < out.len() && out[k]@ == trim_of(fields[j]@) by {
        if j == i {
            if placed.0 {
                assert(out[placed.1 as int] == x);
            } else {
                assert(out[placed.1 as int]@ == x@);
            }
        } else {
            let kb = choose|kb: int| 0 <= kb < before.len() && before[kb]@ == trim_of(fields[j]@);
            if placed.0 && kb >= placed.1 {
                assert(out[kb + 1] == before[kb]);
            } else {
                assert(out[kb] == before[kb]);
            }
        }
    }
    src2
}

proof fn lemma_names_skip(out: Seq<String>, src: Seq<int>, fields: Seq<String>, i: int)
    requires
        names_sourced(out, src, fields, i),
        names_covered(out, fields, i),
        0 <= i < fields.len(),
        trim_of(fields[i]@).len() == 0,
    ensures
        names_sourced(out, src, fields, i + 1),
        names_covered(out, fields, i + 1),
{
    assert forall|k: int| 0 <= k < out.len() implies {
        let j = #[trigger] src[k];
        &&& 0 <= j < i + 1
        &&& trim_of(fields[j]@).len() > 0
        &&& out[k]@ == trim_of(fields[j]@)
    } by {}
    assert forall|j: int| 0 <= j < i + 1 && trim_of((#[trigger] fields[j])@).len() > 0 implies
        exists|k: int| 0 <= k < out.len() && out[k]@ == trim_of(fields[j]@) by {
        assert(j != i);
    }
}

proof fn lemma_names_done(out: Seq<String>, src: Seq<int>, fields: Seq<String>)
    requires
        strictly_sorted(out),
        names_sourced(out, src, fields, fields.len() as int),
        names_covered(out, fields, fields.len() as int),
    ensures
        normalized_fields(out, fields),
        out.len() == 0 <==> forall|i: int| 0 <= i < fields.len() ==> trim_of((#[trigger] fields[i])@).len() == 0,
{
    assert forall|k: int| 0 <= k < out.len() implies from_field((#[trigger] out[k])@, fields) by {
        let j = src[k];
        assert(trim_of(fields[j]@).len() > 0);
    }
    if out.len() > 0 {
        let j = src[0];
        assert(trim_of(fields[j]@).len() > 0);
    } else {
        assert forall|j: int| 0 <= j < fields.len() implies trim_of((#[trigger] fields[j])@).len() == 0 by {
            if trim_of(fields[j]@).len() > 0 {
                let k = choose|k: int| 0 <= k < out.len() && out[k]@ == trim_of(fields[j]@);
            }
        }
    }
}

/// Trims the declared field names, drops blank ones, sorts them and removes
/// duplicates; at least one must remain.
pub fn normalize_required_fields(fields: &Vec<String>) -> (r: Result<Vec<String>, ValidationError>)
    ensures
        r matches Ok(v) ==> normalized_fields(v@, fields@) && v@.len() > 0,
        r is Err <==> forall|i: int| 0 <= i < fields@.len() ==> trim_of((#[trigger] fields@[i])@).len() == 0,
{
    let mut out: Vec<String> = Vec::new();
    let ghost mut src: Seq<int> = Seq::empty();
    let mut i: usize = 0;
    while i < fields.len()
        invariant
            i <= fields@.len(),
            strictly_sorted(out@),
            names_sourced(out@, src, fields@, i as int),
            names_covered(out@, fields@, i as int),
        decreases fields@.len() - i,
    {
        let t = trim_text(fields[i].as_str());
        let ghost before = out@;
        let ghost tc = t;
        if t.as_str().unicode_len() > 0 {
            let placed = insert_sorted(&mut out, t);
            proof {
                src = lemma_names_step(before, out@, src, fields@, i as int, placed, tc);
            }
        } else {
            proof {
                lemma_names_skip(out@, src, fields@, i as int);
            }
        }
        i = i + 1;
    }
    proof {
        lemma_names_done(out@, src, fields@);
    }
    if out.len() == 0 {
        return Err(invalid("at least one required field must be provided"));
    }
    Ok(out)
}

} // verus!
