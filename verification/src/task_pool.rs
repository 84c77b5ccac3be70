//! The verified core of the concurrent dispatcher.
//!
//! The dispatcher fans the predicate evaluation of each rule out to
//! one task and collects exactly one outcome message per rule over a
//! channel.  Scheduling and channels are the caller's business;
//! what stands here is the pure work each task does, and the
//! coordinator's conclusion from the collected messages.  The
//! conclusion is drawn in registration order, whatever order the
//! messages arrived in, so the concurrent flow returns exactly what
//! the sequential flow returns.
use crate::error::EvalError;
use crate::eval::FunctionSet;
use crate::eval::SpecCallOut;
use crate::rush::Rush;
use crate::rush::SpecRule;
use crate::rush::spec_flow;
use crate::rush::spec_rule_lookup;
use crate::rush::spec_when_all;
use crate::value::SpecVal;
use crate::value::Value;
use crate::value::str_eq;
use vstd::prelude::*;

verus! {

broadcast use vstd::std_specs::vec::group_vec_axioms;

/// One outcome message: the rule's name and whether its predicates
/// held, or the error that stopped them.
#[derive(Debug)]
pub struct MulMsg {
    pub result: Result<bool, EvalError>,
    pub rule_name: String,
}

impl MulMsg {
    /// A message carrying one rule's outcome.
    pub fn new(result: Result<bool, EvalError>, rule_name: String) -> (r: MulMsg)
        ensures
            r.result == result,
            r.rule_name == rule_name,
    {
        MulMsg { result, rule_name }
    }
}

/// Whether a message truthfully reports the outcome of the rule it
/// names.
pub open spec fn msg_reports(
    m: MulMsg,
    rules: Seq<SpecRule>,
    f: spec_fn(Seq<char>, Seq<SpecVal>) -> SpecCallOut,
    input: SpecVal,
) -> bool {
    match spec_rule_lookup(rules, m.rule_name@) {
        None => false,
        Some(rule) => match (m.result, spec_when_all(rule.whens, f, input)) {
            (Ok(a), Ok(b)) => a == b,
            (Err(e), Err(se)) => e@ == se,
            _ => false,
        },
    }
}

/// The concurrent engine: one registry, fanned out per rule.
#[derive(Debug)]
pub struct MultiRush<F> {
    rush: Rush<F>,
}

impl<F: FunctionSet> MultiRush<F> {
    /// The registered rules.
    pub closed spec fn rules(&self) -> Seq<SpecRule> {
        self.rush.rules()
    }

    /// What the function registry returns for each call.
    pub closed spec fn fmodel(&self) -> spec_fn(Seq<char>, Seq<SpecVal>) -> SpecCallOut {
        self.rush.fmodel()
    }

    /// A concurrent engine over a registry.
    pub fn new(rush: Rush<F>) -> (r: MultiRush<F>)
        ensures
            r.rules() == rush.rules(),
            r.fmodel() == rush.fmodel(),
    {
        MultiRush { rush }
    }

    /// The wrapped registry, for the tasks to evaluate against.
    pub fn rush(&self) -> (r: &Rush<F>)
        ensures
            r.rules() == self.rules(),
            r.fmodel() == self.fmodel(),
    {
        &self.rush
    }

    /// Law: the concurrent flow agrees with the sequential flow.
    ///
    /// Given one truthful outcome message per rule — in any arrival
    /// order, with any duplication — the conclusion drawn here equals
    /// `spec_flow`, the same result the sequential `flow_value`
    /// ensures: identical matched rules, identical output, identical
    /// error.  The distinct-names hypothesis holds of every engine the
    /// crate builds: registering keeps names distinct
    /// (`lemma_rule_set_distinct`, `lemma_register_all_distinct`) and
    /// so does deleting (`lemma_rules_without_distinct`).
    #[verifier::loop_isolation(false)]
    pub fn conclude(&self, obj: &Value, msgs: &Vec<MulMsg>) -> (r: Result<Value, EvalError>)
        requires
            forall|i: int, j: int|
                0 <= i < self.rules().len() && 0 <= j < self.rules().len() && i != j ==> (
                #[trigger] self.rules()[i]).name != (#[trigger] self.rules()[j]).name,
            forall|j: int|
                0 <= j < msgs@.len() ==> msg_reports(#[trigger] msgs@[j], self.rules(), self.fmodel(), obj@),
            forall|i: int|
                0 <= i < self.rules().len() ==> exists|j: int|
                    0 <= j < msgs@.len() && (#[trigger] msgs@[j]).rule_name@ == (#[trigger] self.rules()[i]).name,
        ensures
            ({
                let sp = spec_flow(self.rules(), self.fmodel(), obj@);
                match r {
                    Ok(v) => sp == Ok::<SpecVal, crate::error::SpecErr>(v@),
                    Err(e) => sp == Err::<SpecVal, crate::error::SpecErr>(e@),
                }
            }),
    {
        let ghost rls = self.rules();
        let ghost fm = self.fmodel();
        let mut matched: Vec<String> = Vec::new();
        let n = self.rush.rule_count();
        let mut i: usize = 0;
        proof {
            assert(rls.skip(0) =~= rls);
        }
        while i < n
            invariant
                i <= n,
                n as int == rls.len(),
                ({
                    let got = Seq::new(matched@.len(), |q: int| matched@[q]@);
                    crate::rush::spec_matched(rls, fm, obj@) == (match crate::rush::spec_matched(
                        rls.skip(i as int),
                        fm,
                        obj@,
                    ) {
                        Err(e) => Err::<Seq<Seq<char>>, crate::error::SpecErr>(e),
                        Ok(rest) => Ok::<Seq<Seq<char>>, crate::error::SpecErr>(got + rest),
                    })
                }),
            decreases n - i,
        {
            let ghost got0 = Seq::new(matched@.len(), |q: int| matched@[q]@);
            proof {
                assert(rls.skip(i as int)[0] == rls[i as int]);
                assert(rls.skip(i as int).drop_first() =~= rls.skip(i as int + 1));
            }
            let name = self.rush.rule_name(i);
            let m = find_msg(msgs, name.as_str());
            let mi = match m {
                Some(j) => j,
                None => {
                    proof {
                        assert(false);
                    }
                    0
                },
            };
            proof {
                lemma_rule_lookup_at(rls, i as int);
                assert(msg_reports(msgs@[mi as int], rls, fm, obj@));
            }
            match &msgs[mi].result {
                Err(e) => {
                    return Err(e.duplicate());
                },
                Ok(b) => {
                    if *b {
                        proof {
                            let nm = name;
                            let got1 = Seq::new(
                                matched@.push(nm).len(),
                                |q: int| matched@.push(nm)[q]@,
                            );
                            assert(got1 =~= got0.push(rls[i as int].name));
                            if crate::rush::spec_matched(rls.skip(i as int + 1), fm, obj@) is Ok {
                                let rest2 = crate::rush::spec_matched(
                                    rls.skip(i as int + 1),
                                    fm,
                                    obj@,
                                )->Ok_0;
                                assert(got0 + (seq![rls[i as int].name] + rest2) =~= got0.push(
                                    rls[i as int].name,
                                ) + rest2);
                            }
                        }
                        matched.push(name);
                    }
                },
            }
            i = i + 1;
        }
        proof {
            assert(rls.skip(n as int) =~= Seq::<SpecRule>::empty());
            let got = Seq::new(matched@.len(), |q: int| matched@[q]@);
            assert(got + Seq::<Seq<char>>::empty() =~= got);
        }
        self.rush.execute(obj, &matched)
    }
}

/// The first message naming the rule, if any.
#[verifier::loop_isolation(false)]
fn find_msg(msgs: &Vec<MulMsg>, name: &str) -> (r: Option<usize>)
    ensures
        match r {
            Some(j) => j < msgs@.len() && msgs@[j as int].rule_name@ == name@,
            None => forall|j: int|
                0 <= j < msgs@.len() ==> (#[trigger] msgs@[j]).rule_name@ != name@,
        },
{
    let mut j: usize = 0;
    while j < msgs.len()
        invariant
            j <= msgs.len(),
            forall|k: int| 0 <= k < j ==> (#[trigger] msgs@[k]).rule_name@ != name@,
        decreases msgs.len() - j,
    {
        if str_eq(msgs[j].rule_name.as_str(), name) {
            return Some(j);
        }
        j = j + 1;
    }
    None
}

/// With pairwise distinct names, the rule found under a position's
/// name is the rule at that position.
proof fn lemma_rule_lookup_at(rules: Seq<SpecRule>, i: int)
    requires
        0 <= i < rules.len(),
        forall|p: int, q: int|
            0 <= p < rules.len() && 0 <= q < rules.len() && p != q ==> (
            #[trigger] rules[p]).name != (#[trigger] rules[q]).name,
    ensures
        spec_rule_lookup(rules, rules[i].name) == Some(rules[i]),
    decreases i,
{
    if i > 0 {
        assert(rules[0].name != rules[i].name);
        assert(rules.drop_first()[i - 1] == rules[i]);
        assert(forall|p: int, q: int|
            0 <= p < rules.drop_first().len() && 0 <= q < rules.drop_first().len() && p != q
                ==> (#[trigger] rules.drop_first()[p]).name != (
            #[trigger] rules.drop_first()[q]).name);
        lemma_rule_lookup_at(rules.drop_first(), i - 1);
    }
}

} // verus!
