//! The skill executor: primary attempts, one fallback attempt, escalation.
use vstd::prelude::*;
use crate::skills::{RoutingPolicy, SkillRef};

verus! {

/// Where a skill chain stands.
#[derive(Clone, Copy, Debug, PartialEq, Eq, Structural)]
pub enum ExecutorState {
    /// The primary skill is next; `attempts` primary attempts have failed.
    AttemptingPrimary { attempts: u32 },
    /// Every primary attempt failed; the fallback is next.
    AttemptingFallback,
    /// Nothing is left to try; an escalation must be raised.
    Escalating,
    /// An attempt succeeded.
    Succeeded,
    /// The chain failed and was escalated.
    Escalated,
}

/// Outcome recorded for one invocation.
#[derive(Clone, Copy, Debug, PartialEq, Eq, Structural)]
pub enum InvocationStatus {
    Success,
    Failed,
    Escalated,
}

/// What the caller does next.
#[derive(Clone, Copy, Debug, PartialEq, Eq, Structural)]
pub enum NextStep {
    /// Invoke the primary skill, or the fallback one.
    Invoke { fallback: bool, attempt_no: u32 },
    /// Raise a governance escalation and report its id.
    Escalate,
    /// The chain succeeded.
    Proceed,
    /// The chain was escalated; the order has failed.
    Fail,
}

/// A governance escalation to raise for an order whose chain is exhausted.
pub struct EscalationRequest {
    pub action_type: String,
    pub reference_type: String,
    pub reference_id: u128,
    pub reason_code: String,
    pub amount: i64,
    pub currency: String,
    pub decision_note: Option<String>,
}

/// One row of the audit trail of a chain.
pub struct SkillInvocation {
    pub attempt_no: u32,
    pub skill_id: String,
    pub skill_version: String,
    pub status: InvocationStatus,
    pub fallback_used: bool,
    pub failure_reason: Option<String>,
    pub escalation_id: Option<u128>,
    pub input_hash: String,
    pub output_hash: Option<String>,
}

/// State after an attempt in state `s` succeeded (`ok`) or failed, under a
/// policy allowing `max_retries` retries and having a fallback or not.
pub open spec fn step(max_retries: u32, has_fallback: bool, s: ExecutorState, ok: bool) -> ExecutorState {
    match s {
        ExecutorState::AttemptingPrimary { attempts } => if ok {
            ExecutorState::Succeeded
        } else if attempts < max_retries {
            ExecutorState::AttemptingPrimary { attempts: (attempts + 1) as u32 }
        } else if has_fallback {
            ExecutorState::AttemptingFallback
        } else {
            ExecutorState::Escalating
        },
        ExecutorState::AttemptingFallback => if ok {
            ExecutorState::Succeeded
        } else {
            ExecutorState::Escalating
        },
        _ => s,
    }
}

/// Whether an attempt is due in state `s`.
pub open spec fn attempting(s: ExecutorState) -> bool {
    s is AttemptingPrimary || s is AttemptingFallback
}

/// Drives a chain from `s` with a primary skill whose every attempt has
/// outcome `primary_ok` and a fallback whose attempt has outcome `fallback_ok`,
/// for at most `fuel` attempts. Gives the final state and, for each attempt
/// made, whether it used the fallback.
pub open spec fn drive(
    max_retries: u32,
    has_fallback: bool,
    s: ExecutorState,
    primary_ok: bool,
    fallback_ok: bool,
    fuel: nat,
) -> (ExecutorState, Seq<bool>)
    decreases fuel,
{
    if fuel == 0 || !attempting(s) {
        (s, Seq::empty())
    } else {
        let fallback = s is AttemptingFallback;
        let ok = if fallback { fallback_ok } else { primary_ok };
        let rest = drive(max_retries, has_fallback, step(max_retries, has_fallback, s, ok), primary_ok, fallback_ok, (fuel - 1) as nat);
        (rest.0, seq![fallback] + rest.1)
    }
}

/// Runs a routing policy's chain for one order.
pub struct SkillExecutor {
    pub policy: RoutingPolicy,
    pub state: ExecutorState,
    pub invocations: Vec<SkillInvocation>,
    pub last_failure: Option<String>,
    pub escalations: u32,
}

impl SkillExecutor {
    /// Attempt numbers run 1, 2, 3, ... in order of recording.
    pub open spec fn wf(&self) -> bool {
        &&& forall|i: int| 0 <= i < self.invocations@.len() ==> #[trigger] self.invocations@[i].attempt_no == i + 1
        &&& self.invocations@.len() < u32::MAX
        &&& self.escalations <= 1
        &&& (self.state is Escalated <==> self.escalations == 1)
        &&& self.state is Escalated ==> self.invocations@.len() > 0
            && self.invocations@.last().escalation_id is Some
        &&& self.state is Escalating ==> self.invocations@.len() > 0
    }

    /// A chain that has made no attempt yet.
    pub fn new(policy: RoutingPolicy) -> (r: SkillExecutor)
        ensures
            r.wf(),
            r.policy == policy,
            r.state == (ExecutorState::AttemptingPrimary { attempts: 0 }),
            r.invocations@.len() == 0,
            r.escalations == 0,
    {
        SkillExecutor {
            policy,
            state: ExecutorState::AttemptingPrimary { attempts: 0 },
            invocations: Vec::new(),
            last_failure: None,
            escalations: 0,
        }
    }

    /// What the caller must do next.
    pub fn next_step(&self) -> (r: NextStep)
        requires
            self.wf(),
        ensures
            r == match self.state {
                ExecutorState::AttemptingPrimary { .. } => NextStep::Invoke { fallback: false, attempt_no: (self.invocations@.len() + 1) as u32 },
                ExecutorState::AttemptingFallback => NextStep::Invoke { fallback: true, attempt_no: (self.invocations@.len() + 1) as u32 },
                ExecutorState::Escalating => NextStep::Escalate,
                ExecutorState::Succeeded => NextStep::Proceed,
                ExecutorState::Escalated => NextStep::Fail,
            },
    {
        let n = self.invocations.len() as u32 + 1;
        match self.state {
            ExecutorState::AttemptingPrimary { .. } => NextStep::Invoke { fallback: false, attempt_no: n },
            ExecutorState::AttemptingFallback => NextStep::Invoke { fallback: true, attempt_no: n },
            ExecutorState::Escalating => NextStep::Escalate,
            ExecutorState::Succeeded => NextStep::Proceed,
            ExecutorState::Escalated => NextStep::Fail,
        }
    }

    /// The skill the next attempt invokes.
    pub open spec fn current_skill(&self) -> SkillRef {
        if self.state is AttemptingFallback {
            self.policy.fallback.unwrap()
        } else {
            self.policy.primary
        }
    }

    /// Records the outcome of the attempt that `next_step` asked for and
    /// moves the chain on: `Ok` on success, else the failure reason, with the
    /// hashes of the input and of any output.
    pub fn record_attempt(&mut self, outcome: Result<(), String>, input_hash: String, output_hash: Option<String>)
        requires
            old(self).wf(),
            attempting(old(self).state),
            old(self).state is AttemptingFallback ==> old(self).policy.fallback is Some,
            old(self).invocations@.len() + 2 < u32::MAX,
        ensures
            final(self).wf(),
            final(self).policy == old(self).policy,
            final(self).escalations == old(self).escalations,
            final(self).state == step(old(self).policy.max_retries, old(self).policy.fallback is Some, old(self).state, outcome is Ok),
            final(self).state is AttemptingFallback ==> final(self).policy.fallback is Some,
            final(self).invocations@.len() == old(self).invocations@.len() + 1,
            final(self).invocations@.drop_last() == old(self).invocations@,
            final(self).last_failure == match outcome {
                Ok(_) => old(self).last_failure,
                Err(e) => Some(e),
            },
            ({
                let rec = final(self).invocations@.last();
                let skill = old(self).current_skill();
                &&& rec.attempt_no == old(self).invocations@.len() + 1
                &&& rec.skill_id == skill.skill_id
                &&& rec.skill_version == skill.version
                &&& rec.fallback_used == (old(self).state is AttemptingFallback)
                &&& rec.status == if outcome is Ok { InvocationStatus::Success } else { InvocationStatus::Failed }
                &&& rec.failure_reason == match outcome { Ok(_) => None, Err(e) => Some(e) }
                &&& rec.escalation_id is None
                &&& rec.input_hash == input_hash
                &&& rec.output_hash == output_hash
            }),
    {
        let fallback = match self.state {
            ExecutorState::AttemptingFallback => true,
            _ => false,
        };
        let (skill_id, skill_version) = if fallback {
            match &self.policy.fallback {
                Some(f) => (f.skill_id.clone(), f.version.clone()),
                None => (self.policy.primary.skill_id.clone(), self.policy.primary.version.clone()),
            }
        } else {
            (self.policy.primary.skill_id.clone(), self.policy.primary.version.clone())
        };
        let attempt_no = self.invocations.len() as u32 + 1;
        let ok = outcome.is_ok();
        let reason = match &outcome {
            Ok(_) => None,
            Err(e) => Some(e.clone()),
        };
        let ghost before = self.invocations@;
        self.invocations.push(SkillInvocation {
            attempt_no,
            skill_id,
            skill_version,
            status: if ok { InvocationStatus::Success } else { InvocationStatus::Failed },
            fallback_used: fallback,
            failure_reason: reason,
            escalation_id: None,
            input_hash,
            output_hash,
        });
        proof {
            assert(self.invocations@.drop_last() =~= before);
            assert forall|i: int| 0 <= i < self.invocations@.len() implies #[trigger] self.invocations@[i].attempt_no == i + 1 by {
                if i < before.len() {
                    assert(self.invocations@[i] == before[i]);
                }
            }
        }
        match outcome {
            Ok(_) => {
                self.state = ExecutorState::Succeeded;
            },
            Err(e) => {
                self.last_failure = Some(e);
                self.state = match self.state {
                    ExecutorState::AttemptingPrimary { attempts } => if attempts < self.policy.max_retries {
                        ExecutorState::AttemptingPrimary { attempts: attempts + 1 }
                    } else if self.policy.fallback.is_some() {
                        ExecutorState::AttemptingFallback
                    } else {
                        ExecutorState::Escalating
                    },
                    _ => ExecutorState::Escalating,
                };
            },
        }
    }

    /// The escalation to raise once the chain is exhausted: of the policy's
    /// action type, referring to the order, for a skill runtime failure, with
    /// the order's value and the last failure reason.
    pub fn escalation_request(&self, order_id: u128, order_value: i64, currency: &String) -> (r: EscalationRequest)
        requires
            self.state is Escalating,
        ensures
            r.action_type == self.policy.escalation_action_type,
            r.reference_type@ == "ORDER"@,
            r.reference_id == order_id,
            r.reason_code@ == "SKILL_RUNTIME_FAILURE"@,
            r.amount == order_value,
            r.currency == *currency,
            r.decision_note == self.last_failure,
    {
        EscalationRequest {
            action_type: self.policy.escalation_action_type.clone(),
            reference_type: String::from_str("ORDER"),
            reference_id: order_id,
            reason_code: String::from_str("SKILL_RUNTIME_FAILURE"),
            amount: order_value,
            currency: currency.clone(),
            decision_note: match &self.last_failure {
                Some(why) => Some(why.clone()),
                None => None,
            },
        }
    }

    /// Records the escalation raised for an exhausted chain: a final
    /// ESCALATED row referencing it, against the skill last tried.
    pub fn record_escalation(&mut self, escalation_id: u128)
        requires
            old(self).wf(),
            old(self).state is Escalating,
            old(self).invocations@.len() + 2 < u32::MAX,
        ensures
            final(self).wf(),
            final(self).policy == old(self).policy,
            final(self).state is Escalated,
            final(self).escalations == 1,
            final(self).last_failure == old(self).last_failure,
            final(self).invocations@.drop_last() == old(self).invocations@,
            ({
                let rec = final(self).invocations@.last();
                let prev = old(self).invocations@.last();
                &&& rec.attempt_no == old(self).invocations@.len() + 1
                &&& rec.status == InvocationStatus::Escalated
                &&& rec.skill_id == prev.skill_id
                &&& rec.skill_version == prev.skill_version
                &&& rec.fallback_used == prev.fallback_used
                &&& rec.escalation_id == Some(escalation_id)
                &&& rec.failure_reason == prev.failure_reason
                &&& rec.input_hash == prev.input_hash
                &&& rec.output_hash is None
            }),
    {
        let n = self.invocations.len();
        let last = &self.invocations[n - 1];
        let reason = match &last.failure_reason {
            Some(r) => Some(r.clone()),
            None => None,
        };
        let rec = SkillInvocation {
            attempt_no: n as u32 + 1,
            skill_id: last.skill_id.clone(),
            skill_version: last.skill_version.clone(),
            status: InvocationStatus::Escalated,
            fallback_used: last.fallback_used,
            failure_reason: reason,
            escalation_id: Some(escalation_id),
            input_hash: last.input_hash.clone(),
            output_hash: None,
        };
        let ghost before = self.invocations@;
        self.invocations.push(rec);
        proof {
            assert(self.invocations@.drop_last() =~= before);
            assert forall|i: int| 0 <= i < self.invocations@.len() implies #[trigger] self.invocations@[i].attempt_no == i + 1 by {
                if i < before.len() {
                    assert(self.invocations@[i] == before[i]);
                }
            }
        }
        self.state = ExecutorState::Escalated;
        self.escalations = 1;
    }
}

/// With `max_retries` = R, a primary skill that always fails and a fallback
/// that always succeeds, the chain makes exactly R + 1 primary attempts and
/// one fallback attempt, and succeeds.
pub proof fn lemma_fallback_after_retries(max_retries: u32, fuel: nat)
    requires
        fuel >= max_retries + 2,
    ensures
        drive(max_retries, true, ExecutorState::AttemptingPrimary { attempts: 0 }, false, true, fuel)
            == (ExecutorState::Succeeded, Seq::new((max_retries + 1) as nat, |i: int| false).push(true)),
{
    lemma_fallback_from(max_retries, 0, fuel);
}

proof fn lemma_fallback_from(max_retries: u32, n: u32, fuel: nat)
    requires
        n <= max_retries,
        fuel >= max_retries - n + 2,
    ensures
        drive(max_retries, true, ExecutorState::AttemptingPrimary { attempts: n }, false, true, fuel)
            == (ExecutorState::Succeeded, Seq::new((max_retries - n + 1) as nat, |i: int| false).push(true)),
    decreases max_retries - n,
{
    let s = ExecutorState::AttemptingPrimary { attempts: n };
    let expected = Seq::new((max_retries - n + 1) as nat, |i: int| false).push(true);
    if n < max_retries {
        lemma_fallback_from(max_retries, (n + 1) as u32, (fuel - 1) as nat);
        let rest = Seq::new((max_retries - n) as nat, |i: int| false).push(true);
        assert(seq![false] + rest =~= expected);
    } else {
        let f = ExecutorState::AttemptingFallback;
        assert(step(max_retries, true, s, false) == f);
        assert(step(max_retries, true, f, true) == ExecutorState::Succeeded);
        let d2 = drive(max_retries, true, ExecutorState::Succeeded, false, true, (fuel - 2) as nat);
        assert(d2 == (ExecutorState::Succeeded, Seq::<bool>::empty()));
        let d1 = drive(max_retries, true, f, false, true, (fuel - 1) as nat);
        assert(d1 == (ExecutorState::Succeeded, seq![true] + Seq::<bool>::empty()));
        assert(seq![false] + (seq![true] + Seq::<bool>::empty()) =~= expected);
    }
}

/// With no retries, no fallback and a failing primary skill, the chain makes
/// exactly one attempt and then must escalate; recording that escalation
/// leaves exactly one escalation and a failed chain.
pub proof fn lemma_single_attempt_escalates(fuel: nat, primary_ok: bool, fallback_ok: bool)
    requires
        fuel >= 1,
        !primary_ok,
    ensures
        drive(0, false, ExecutorState::AttemptingPrimary { attempts: 0 }, primary_ok, fallback_ok, fuel)
            == (ExecutorState::Escalating, seq![false]),
{
    let s = ExecutorState::AttemptingPrimary { attempts: 0 };
    assert(step(0, false, s, false) == ExecutorState::Escalating);
    let d = drive(0, false, ExecutorState::Escalating, primary_ok, fallback_ok, (fuel - 1) as nat);
    assert(d == (ExecutorState::Escalating, Seq::<bool>::empty()));
    assert(seq![false] + Seq::<bool>::empty() =~= seq![false]);
}

} // verus!
