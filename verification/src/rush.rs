//! The rule registry and the sequential flow.
//!
//! A registry holds named rules, each a predicate list and one
//! assignment action, over one function registry.  A flow call
//! evaluates every rule's predicates against the input in
//! registration order: the first predicate that comes to false, or
//! raises field-not-found, makes the rule non-matching and stops its
//! remaining predicates; any other evaluation error aborts the whole
//! call.  The actions of the matched rules are then applied to one
//! growing output, in the same registration order, last write
//! winning.
use crate::assign::Assign;
use crate::assign::spec_assign;
use crate::calc::Calc;
use crate::calc::SpecCalc;
use crate::calc::spec_calcs_of;
use crate::error::EvalError;
use crate::error::SpecErr;
use crate::eval::FunctionSet;
use crate::eval::SpecCallOut;
use crate::eval::spec_when;
use crate::value::SpecVal;
use crate::value::Value;
use crate::value::str_eq;
use vstd::prelude::*;

verus! {

broadcast use vstd::std_specs::vec::group_vec_axioms;

/// The specification-level form of one registered rule.
pub struct SpecRule {
    pub name: Seq<char>,
    pub whens: Seq<SpecCalc>,
    pub acts: Seq<(Seq<char>, SpecCalc)>,
}

pub open spec fn spec_rules_of(s: Seq<(String, Vec<Calc>, Assign)>) -> Seq<SpecRule> {
    Seq::new(
        s.len(),
        |i: int|
            SpecRule { name: s[i].0@, whens: spec_calcs_of(s[i].1@), acts: s[i].2@ },
    )
}

/// Whether a predicate list holds of the input: the conjunction in
/// order, an empty list always true, the first false stopping the
/// rest, a hard error aborting.
pub open spec fn spec_when_all(
    whens: Seq<SpecCalc>,
    f: spec_fn(Seq<char>, Seq<SpecVal>) -> SpecCallOut,
    input: SpecVal,
) -> Result<bool, SpecErr>
    decreases whens.len(),
{
    if whens.len() == 0 {
        Ok(true)
    } else {
        match spec_when(whens[0], f, input) {
            Err(e) => Err(e),
            Ok(false) => Ok(false),
            Ok(true) => spec_when_all(whens.drop_first(), f, input),
        }
    }
}

/// The names of the rules whose predicates all hold, in registration
/// order; the first rule whose predicates raise a hard error aborts.
pub open spec fn spec_matched(
    rules: Seq<SpecRule>,
    f: spec_fn(Seq<char>, Seq<SpecVal>) -> SpecCallOut,
    input: SpecVal,
) -> Result<Seq<Seq<char>>, SpecErr>
    decreases rules.len(),
{
    if rules.len() == 0 {
        Ok(Seq::empty())
    } else {
        match spec_when_all(rules[0].whens, f, input) {
            Err(e) => Err(e),
            Ok(matched) => match spec_matched(rules.drop_first(), f, input) {
                Err(e) => Err(e),
                Ok(rest) => if matched {
                    Ok(seq![rules[0].name] + rest)
                } else {
                    Ok(rest)
                },
            },
        }
    }
}

/// The first rule under a name, if any.
pub open spec fn spec_rule_lookup(rules: Seq<SpecRule>, name: Seq<char>) -> Option<SpecRule>
    decreases rules.len(),
{
    if rules.len() == 0 {
        None
    } else if rules[0].name == name {
        Some(rules[0])
    } else {
        spec_rule_lookup(rules.drop_first(), name)
    }
}

/// The output after the named rules' actions ran in order over `out`;
/// a name without a rule is skipped, an action error aborts.
pub open spec fn spec_execute(
    rules: Seq<SpecRule>,
    f: spec_fn(Seq<char>, Seq<SpecVal>) -> SpecCallOut,
    input: SpecVal,
    names: Seq<Seq<char>>,
    out: SpecVal,
) -> Result<SpecVal, SpecErr>
    decreases names.len(),
{
    if names.len() == 0 {
        Ok(out)
    } else {
        match spec_rule_lookup(rules, names[0]) {
            None => spec_execute(rules, f, input, names.drop_first(), out),
            Some(rule) => match spec_assign(rule.acts, f, input, out) {
                Err(e) => Err(e),
                Ok(out2) => spec_execute(rules, f, input, names.drop_first(), out2),
            },
        }
    }
}

/// One whole flow call: the matched names, then their actions over an
/// empty output mapping.
pub open spec fn spec_flow(
    rules: Seq<SpecRule>,
    f: spec_fn(Seq<char>, Seq<SpecVal>) -> SpecCallOut,
    input: SpecVal,
) -> Result<SpecVal, SpecErr> {
    match spec_matched(rules, f, input) {
        Err(e) => Err(e),
        Ok(names) => spec_execute(rules, f, input, names, SpecVal::Object(Seq::empty())),
    }
}

/// The rule list with one rule set under a name: the first rule
/// carrying the name is replaced in place, or the new rule goes last.
pub open spec fn spec_rule_set(rules: Seq<SpecRule>, rule: SpecRule) -> Seq<SpecRule>
    decreases rules.len(),
{
    if rules.len() == 0 {
        seq![rule]
    } else if rules[0].name == rule.name {
        seq![rule] + rules.drop_first()
    } else {
        seq![rules[0]] + spec_rule_set(rules.drop_first(), rule)
    }
}

/// The rule list without any rule of the given name.
pub open spec fn spec_rules_without(rules: Seq<SpecRule>, name: Seq<char>) -> Seq<SpecRule>
    decreases rules.len(),
{
    if rules.len() == 0 {
        rules
    } else if rules[0].name == name {
        spec_rules_without(rules.drop_first(), name)
    } else {
        seq![rules[0]] + spec_rules_without(rules.drop_first(), name)
    }
}

/// Whether every predicate of the list holds of the input.
#[verifier::loop_isolation(false)]
pub fn when_all<F: FunctionSet>(whens: &Vec<Calc>, fs: &F, input: &Value) -> (r: Result<
    bool,
    EvalError,
>)
    ensures
        ({
            let sp = spec_when_all(spec_calcs_of(whens@), fs.fmodel(), input@);
            match r {
                Ok(b) => sp == Ok::<bool, SpecErr>(b),
                Err(e) => sp == Err::<bool, SpecErr>(e@),
            }
        }),
{
    let ghost sw = spec_calcs_of(whens@);
    let ghost fm = fs.fmodel();
    let mut i: usize = 0;
    proof {
        assert(sw.skip(0) =~= sw);
    }
    while i < whens.len()
        invariant
            i <= whens.len(),
            spec_when_all(sw, fm, input@) == spec_when_all(sw.skip(i as int), fm, input@),
        decreases whens.len() - i,
    {
        proof {
            assert(sw.skip(i as int)[0] == sw[i as int]);
            assert(sw.skip(i as int).drop_first() =~= sw.skip(i as int + 1));
        }
        match whens[i].when(fs, input) {
            Err(e) => {
                return Err(e);
            },
            Ok(false) => {
                return Ok(false);
            },
            Ok(true) => {},
        }
        i = i + 1;
    }
    proof {
        assert(sw.skip(whens@.len() as int) =~= Seq::<SpecCalc>::empty());
    }
    Ok(true)
}

/// A rule registry with its function registry: the engine itself.
#[derive(Debug)]
pub struct Rush<F> {
    functions: F,
    rules: Vec<(String, Vec<Calc>, Assign)>,
}

impl<F: FunctionSet> Rush<F> {
    /// The registered rules.
    pub closed spec fn rules(&self) -> Seq<SpecRule> {
        spec_rules_of(self.rules@)
    }

    /// What the function registry returns for each call.
    pub closed spec fn fmodel(&self) -> spec_fn(Seq<char>, Seq<SpecVal>) -> SpecCallOut {
        self.functions.fmodel()
    }

    /// An engine over the given function registry, with no rules.
    pub fn new(functions: F) -> (r: Rush<F>)
        ensures
            r.rules() =~= Seq::<SpecRule>::empty(),
            r.fmodel() == functions.fmodel(),
    {
        Rush { functions, rules: Vec::new() }
    }

    /// The engine with one more rule: predicates, then one assignment
    /// action, under a name.  A rule already under the name is
    /// replaced in place.
    #[verifier::loop_isolation(false)]
    pub fn register_rule(self, name: &str, nodes: Vec<Calc>, exec: Assign) -> (r: Rush<F>)
        ensures
            r.rules() =~= spec_rule_set(
                self.rules(),
                SpecRule { name: name@, whens: spec_calcs_of(nodes@), acts: exec@ },
            ),
            r.fmodel() == self.fmodel(),
    {
        let ghost rule = SpecRule { name: name@, whens: spec_calcs_of(nodes@), acts: exec@ };
        let Rush { functions, mut rules } = self;
        let ghost before = spec_rules_of(rules@);
        let mut i: usize = 0;
        while i < rules.len()
            invariant
                i <= rules@.len(),
                before == spec_rules_of(rules@),
                forall|j: int| 0 <= j < i ==> (#[trigger] before[j]).name != name@,
            decreases rules@.len() - i,
        {
            if str_eq(rules[i].0.as_str(), name) {
                proof {
                    lemma_rule_set_found(before, rule, i as int);
                }
                rules.remove(i);
                rules.insert(i, (name.to_owned(), nodes, exec));
                let r = Rush { functions, rules };
                proof {
                    assert(r.rules() =~= before.update(i as int, rule));
                }
                return r;
            }
            i = i + 1;
        }
        proof {
            lemma_rule_set_missing(before, rule);
        }
        rules.push((name.to_owned(), nodes, exec));
        let r = Rush { functions, rules };
        proof {
            assert(r.rules() =~= before.push(rule));
        }
        r
    }

    /// The same rules over another function registry.
    pub fn set_functions<G: FunctionSet>(self, functions: G) -> (r: Rush<G>)
        ensures
            r.rules() == self.rules(),
            r.fmodel() == functions.fmodel(),
    {
        Rush { functions, rules: self.rules }
    }

    /// Removes every rule under the name.
    #[verifier::loop_isolation(false)]
    pub fn delete_rule(&mut self, name: &str)
        ensures
            final (self).rules() =~= spec_rules_without(old(self).rules(), name@),
            final (self).fmodel() == old(self).fmodel(),
    {
        let ghost before = spec_rules_of(self.rules@);
        let mut old_rules: Vec<(String, Vec<Calc>, Assign)> = Vec::new();
        core::mem::swap(&mut self.rules, &mut old_rules);
        let mut kept: Vec<(String, Vec<Calc>, Assign)> = Vec::new();
        while old_rules.len() > 0
            invariant
                spec_rules_without(before, name@) =~= spec_rules_of(kept@)
                    + spec_rules_without(spec_rules_of(old_rules@), name@),
            decreases old_rules@.len(),
        {
            let ghost rem = spec_rules_of(old_rules@);
            let item = old_rules.remove(0);
            proof {
                assert(spec_rules_of(old_rules@) =~= rem.drop_first());
                assert(SpecRule { name: item.0@, whens: spec_calcs_of(item.1@), acts: item.2@ }
                    == rem[0]);
            }
            let keep = !str_eq(item.0.as_str(), name);
            if keep {
                let ghost kv = spec_rules_of(kept@);
                kept.push(item);
                proof {
                    assert(spec_rules_of(kept@) =~= kv.push(rem[0]));
                    assert(kv + (seq![rem[0]] + spec_rules_without(rem.drop_first(), name@))
                        =~= kv.push(rem[0]) + spec_rules_without(rem.drop_first(), name@));
                }
            }
        }
        proof {
            assert(spec_rules_of(old_rules@) =~= Seq::<SpecRule>::empty());
            let kv = spec_rules_of(kept@);
            assert(kv + Seq::<SpecRule>::empty() =~= kv);
        }
        self.rules = kept;
    }

    /// How many rules stand registered.
    pub fn rule_count(&self) -> (n: usize)
        ensures
            n as int == self.rules().len(),
    {
        self.rules.len()
    }

    /// The name of the rule at a position, in registration order.
    pub fn rule_name(&self, i: usize) -> (r: String)
        requires
            i < self.rules().len(),
        ensures
            r@ == self.rules()[i as int].name,
    {
        self.rules[i].0.clone()
    }

    /// Whether the rule at a position matches the input: its
    /// predicate list, evaluated as one conjunction.
    pub fn when_rule(&self, i: usize, input: &Value) -> (r: Result<bool, EvalError>)
        requires
            i < self.rules().len(),
        ensures
            ({
                let sp = spec_when_all(self.rules()[i as int].whens, self.fmodel(), input@);
                match r {
                    Ok(b) => sp == Ok::<bool, SpecErr>(b),
                    Err(e) => sp == Err::<bool, SpecErr>(e@),
                }
            }),
    {
        when_all(&self.rules[i].1, &self.functions, input)
    }

    /// Applies the named rules' actions, in the order given, over a
    /// fresh empty output mapping.
    #[verifier::loop_isolation(false)]
    pub fn execute(&self, obj: &Value, list: &Vec<String>) -> (r: Result<Value, EvalError>)
        ensures
            ({
                let sp = spec_execute(
                    self.rules(),
                    self.fmodel(),
                    obj@,
                    Seq::new(list@.len(), |i: int| list@[i]@),
                    SpecVal::Object(Seq::empty()),
                );
                match r {
                    Ok(v) => sp == Ok::<SpecVal, SpecErr>(v@),
                    Err(e) => sp == Err::<SpecVal, SpecErr>(e@),
                }
            }),
    {
        let ghost names = Seq::new(list@.len(), |i: int| list@[i]@);
        let ghost fm = self.fmodel();
        let ghost rls = self.rules();
        let mut out = Value::Object(Vec::new());
        proof {
            assert(out@->Object_0 =~= Seq::<(Seq<char>, SpecVal)>::empty());
            assert(out@ == SpecVal::Object(Seq::<(Seq<char>, SpecVal)>::empty()));
            assert(names.skip(0) =~= names);
        }
        let mut k: usize = 0;
        while k < list.len()
            invariant
                k <= list@.len(),
                spec_execute(rls, fm, obj@, names, SpecVal::Object(Seq::empty()))
                    == spec_execute(rls, fm, obj@, names.skip(k as int), out@),
            decreases list.len() - k,
        {
            proof {
                assert(names.skip(k as int)[0] == names[k as int]);
                assert(names.skip(k as int).drop_first() =~= names.skip(k as int + 1));
            }
            match self.find_rule(list[k].as_str()) {
                None => {},
                Some(p) => {
                    match self.rules[p].2.execute(&self.functions, obj, &mut out) {
                        Err(e) => {
                            return Err(e);
                        },
                        Ok(_) => {},
                    }
                },
            }
            k = k + 1;
        }
        proof {
            assert(names.skip(list@.len() as int) =~= Seq::<Seq<char>>::empty());
        }
        Ok(out)
    }

    /// The position of the first rule under a name.
    #[verifier::loop_isolation(false)]
    fn find_rule(&self, name: &str) -> (r: Option<usize>)
        ensures
            match r {
                Some(p) => p < self.rules().len() && spec_rule_lookup(self.rules(), name@)
                    == Some(self.rules()[p as int]),
                None => spec_rule_lookup(self.rules(), name@) is None,
            },
    {
        let ghost rls = self.rules();
        let mut i: usize = 0;
        proof {
            assert(rls.skip(0) =~= rls);
        }
        while i < self.rules.len()
            invariant
                i <= self.rules@.len(),
                spec_rule_lookup(rls, name@) == spec_rule_lookup(rls.skip(i as int), name@),
            decreases self.rules@.len() - i,
        {
            proof {
                assert(rls.skip(i as int)[0] == rls[i as int]);
                assert(rls.skip(i as int).drop_first() =~= rls.skip(i as int + 1));
            }
            if str_eq(self.rules[i].0.as_str(), name) {
                return Some(i);
            }
            i = i + 1;
        }
        proof {
            assert(rls.skip(self.rules@.len() as int) =~= Seq::<SpecRule>::empty());
        }
        None
    }

    /// One whole flow call: every rule's predicates against the
    /// input, then the matched rules' actions over an empty output,
    /// all in registration order.
    #[verifier::loop_isolation(false)]
    pub fn flow_value(&self, obj: &Value) -> (r: Result<Value, EvalError>)
        ensures
            ({
                let sp = spec_flow(self.rules(), self.fmodel(), obj@);
                match r {
                    Ok(v) => sp == Ok::<SpecVal, SpecErr>(v@),
                    Err(e) => sp == Err::<SpecVal, SpecErr>(e@),
                }
            }),
    {
        let ghost rls = self.rules();
        let ghost fm = self.fmodel();
        let mut matched: Vec<String> = Vec::new();
        let mut i: usize = 0;
        proof {
            assert(rls.skip(0) =~= rls);
        }
        let n = self.rules.len();
        while i < n
            invariant
                i <= n,
                n == self.rules@.len(),
                ({
                    let got = Seq::new(matched@.len(), |q: int| matched@[q]@);
                    spec_matched(rls, fm, obj@) == (match spec_matched(
                        rls.skip(i as int),
                        fm,
                        obj@,
                    ) {
                        Err(e) => Err::<Seq<Seq<char>>, SpecErr>(e),
                        Ok(rest) => Ok::<Seq<Seq<char>>, SpecErr>(got + rest),
                    })
                }),
            decreases n - i,
        {
            let ghost got0 = Seq::new(matched@.len(), |q: int| matched@[q]@);
            proof {
                assert(rls.skip(i as int)[0] == rls[i as int]);
                assert(rls.skip(i as int).drop_first() =~= rls.skip(i as int + 1));
            }
            match self.when_rule(i, obj) {
                Err(e) => {
                    return Err(e);
                },
                Ok(true) => {
                    let nm = self.rules[i].0.clone();
                    proof {
                        let got1 = Seq::new(matched@.push(nm).len(), |q: int| matched@.push(nm)[q]@);
                        assert(got1 =~= got0.push(rls[i as int].name));
                        if spec_matched(rls.skip(i as int + 1), fm, obj@) is Ok {
                            let rest2 = spec_matched(rls.skip(i as int + 1), fm, obj@)->Ok_0;
                            assert(got0 + (seq![rls[i as int].name] + rest2) =~= got0.push(
                                rls[i as int].name,
                            ) + rest2);
                        }
                    }
                    matched.push(nm);
                },
                Ok(false) => {},
            }
            i = i + 1;
        }
        proof {
            assert(rls.skip(n as int) =~= Seq::<SpecRule>::empty());
            let got = Seq::new(matched@.len(), |q: int| matched@[q]@);
            assert(got + Seq::<Seq<char>>::empty() =~= got);
        }
        self.execute(obj, &matched)
    }
}

proof fn lemma_rule_set_found(rules: Seq<SpecRule>, rule: SpecRule, pos: int)
    requires
        0 <= pos < rules.len(),
        rules[pos].name == rule.name,
        forall|j: int| 0 <= j < pos ==> (#[trigger] rules[j]).name != rule.name,
    ensures
        spec_rule_set(rules, rule) =~= rules.update(pos, rule),
    decreases pos,
{
    if pos == 0 {
        assert(spec_rule_set(rules, rule) =~= rules.update(0, rule));
    } else {
        assert(rules.drop_first()[pos - 1].name == rule.name);
        assert(forall|j: int|
            0 <= j < pos - 1 ==> (#[trigger] rules.drop_first()[j]).name != rule.name);
        lemma_rule_set_found(rules.drop_first(), rule, pos - 1);
        assert(seq![rules[0]] + rules.drop_first().update(pos - 1, rule) =~= rules.update(
            pos,
            rule,
        ));
    }
}

proof fn lemma_rule_set_missing(rules: Seq<SpecRule>, rule: SpecRule)
    requires
        forall|j: int| 0 <= j < rules.len() ==> (#[trigger] rules[j]).name != rule.name,
    ensures
        spec_rule_set(rules, rule) =~= rules.push(rule),
    decreases rules.len(),
{
    if rules.len() > 0 {
        lemma_rule_set_missing(rules.drop_first(), rule);
        assert(seq![rules[0]] + rules.drop_first().push(rule) =~= rules.push(rule));
    }
}


/// Whether the rules carry pairwise distinct names.
pub open spec fn distinct_names(rules: Seq<SpecRule>) -> bool {
    forall|i: int, j: int|
        0 <= i < j < rules.len() ==> (#[trigger] rules[i]).name != (#[trigger] rules[j]).name
}

proof fn lemma_rule_set_names(rules: Seq<SpecRule>, rule: SpecRule, k: int)
    requires
        0 <= k < spec_rule_set(rules, rule).len(),
    ensures
        spec_rule_set(rules, rule)[k].name == rule.name || exists|i: int|
            0 <= i < rules.len() && (#[trigger] rules[i]).name == spec_rule_set(rules, rule)[k].name,
    decreases rules.len(),
{
    let r = spec_rule_set(rules, rule);
    if rules.len() == 0 {
    } else if rules[0].name == rule.name {
        if k > 0 {
            assert(r[k] == rules.drop_first()[k - 1]);
            assert(rules[k] == rules.drop_first()[k - 1]);
        }
    } else {
        if k > 0 {
            lemma_rule_set_names(rules.drop_first(), rule, k - 1);
            assert(r[k] == spec_rule_set(rules.drop_first(), rule)[k - 1]);
            if spec_rule_set(rules.drop_first(), rule)[k - 1].name != rule.name {
                let i = choose|i: int|
                    0 <= i < rules.drop_first().len() && (#[trigger] rules.drop_first()[i]).name
                        == r[k].name;
                assert(rules[i + 1].name == r[k].name);
            }
        }
    }
}

/// Law: setting a rule keeps rule names pairwise distinct, so every
/// engine built by `new`, `register_rule` and `from_engine` meets the
/// distinct-names hypothesis of the concurrent conclusion.
pub proof fn lemma_rule_set_distinct(rules: Seq<SpecRule>, rule: SpecRule)
    requires
        distinct_names(rules),
    ensures
        distinct_names(spec_rule_set(rules, rule)),
    decreases rules.len(),
{
    let r = spec_rule_set(rules, rule);
    if rules.len() == 0 {
    } else if rules[0].name == rule.name {
        assert forall|i: int, j: int|
            0 <= i < j < r.len() implies (#[trigger] r[i]).name != (#[trigger] r[j]).name by {
            if i == 0 {
                assert(r[j] == rules.drop_first()[j - 1]);
                assert(rules[j] == rules.drop_first()[j - 1]);
            } else {
                assert(r[i] == rules[i] && r[j] == rules[j]);
            }
        }
    } else {
        assert(distinct_names(rules.drop_first())) by {
            assert forall|i: int, j: int|
                0 <= i < j < rules.drop_first().len() implies (
            #[trigger] rules.drop_first()[i]).name != (#[trigger] rules.drop_first()[j]).name by {
                assert(rules.drop_first()[i] == rules[i + 1]);
                assert(rules.drop_first()[j] == rules[j + 1]);
            }
        }
        lemma_rule_set_distinct(rules.drop_first(), rule);
        let sub = spec_rule_set(rules.drop_first(), rule);
        assert forall|i: int, j: int|
            0 <= i < j < r.len() implies (#[trigger] r[i]).name != (#[trigger] r[j]).name by {
            if i == 0 {
                assert(r[j] == sub[j - 1]);
                lemma_rule_set_names(rules.drop_first(), rule, j - 1);
                if sub[j - 1].name != rule.name {
                    let q = choose|q: int|
                        0 <= q < rules.drop_first().len() && (
                        #[trigger] rules.drop_first()[q]).name == sub[j - 1].name;
                    assert(rules[q + 1].name == sub[j - 1].name);
                }
            } else {
                assert(r[i] == sub[i - 1] && r[j] == sub[j - 1]);
            }
        }
    }
}

/// Law: deleting a rule keeps rule names pairwise distinct.
pub proof fn lemma_rules_without_distinct(rules: Seq<SpecRule>, name: Seq<char>)
    requires
        distinct_names(rules),
    ensures
        distinct_names(spec_rules_without(rules, name)),
    decreases rules.len(),
{
    if rules.len() > 0 {
        assert(distinct_names(rules.drop_first())) by {
            assert forall|i: int, j: int|
                0 <= i < j < rules.drop_first().len() implies (
            #[trigger] rules.drop_first()[i]).name != (#[trigger] rules.drop_first()[j]).name by {
                assert(rules.drop_first()[i] == rules[i + 1]);
                assert(rules.drop_first()[j] == rules[j + 1]);
            }
        }
        lemma_rules_without_distinct(rules.drop_first(), name);
        if rules[0].name != name {
            let sub = spec_rules_without(rules.drop_first(), name);
            let r = spec_rules_without(rules, name);
            assert forall|i: int, j: int|
                0 <= i < j < r.len() implies (#[trigger] r[i]).name != (#[trigger] r[j]).name by {
                if i == 0 {
                    assert(r[j] == sub[j - 1]);
                    lemma_rules_without_names(rules.drop_first(), name, j - 1);
                    let q = choose|q: int|
                        0 <= q < rules.drop_first().len() && (
                        #[trigger] rules.drop_first()[q]).name == sub[j - 1].name;
                    assert(rules[q + 1].name == sub[j - 1].name);
                } else {
                    assert(r[i] == sub[i - 1] && r[j] == sub[j - 1]);
                }
            }
        }
    }
}

proof fn lemma_rules_without_names(rules: Seq<SpecRule>, name: Seq<char>, k: int)
    requires
        0 <= k < spec_rules_without(rules, name).len(),
    ensures
        exists|i: int|
            0 <= i < rules.len() && (#[trigger] rules[i]).name == spec_rules_without(
                rules,
                name,
            )[k].name,
    decreases rules.len(),
{
    let r = spec_rules_without(rules, name);
    if rules.len() > 0 {
        if rules[0].name == name {
            lemma_rules_without_names(rules.drop_first(), name, k);
            let q = choose|q: int|
                0 <= q < rules.drop_first().len() && (#[trigger] rules.drop_first()[q]).name
                    == r[k].name;
            assert(rules[q + 1].name == r[k].name);
        } else {
            if k > 0 {
                lemma_rules_without_names(rules.drop_first(), name, k - 1);
                assert(r[k] == spec_rules_without(rules.drop_first(), name)[k - 1]);
                let q = choose|q: int|
                    0 <= q < rules.drop_first().len() && (#[trigger] rules.drop_first()[q]).name
                        == r[k].name;
                assert(rules[q + 1].name == r[k].name);
            }
        }
    }
}

} // verus!
