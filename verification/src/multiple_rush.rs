//! A generic engine over user-supplied predicate and action types.
//!
//! Here the predicates and actions are any types implementing the two
//! small traits below: a predicate decides on the input alone and
//! cannot fail, an action rewrites the output from the input.  The
//! flow walks the rules in registration order, as the main engine
//! does.
use crate::value::SpecVal;
use crate::value::Value;
use crate::value::str_eq;
use vstd::prelude::*;

verus! {

broadcast use vstd::std_specs::vec::group_vec_axioms;

/// One predicate of a rule: a pure decision on the input.
pub trait CalcNode: Sized {
    /// What the predicate decides.  An implementation proved against
    /// this overrides it; one written outside the verified world
    /// leaves it arbitrary.
    open spec fn spec_when(&self, input: SpecVal) -> bool {
        vstd::pervasive::arbitrary()
    }

    /// Decides whether the input passes.
    fn when(&self, input: &Value) -> (b: bool)
        ensures
            b == self.spec_when(input@),
    ;
}

/// One rule's action: a rewrite of the output from the input.
pub trait Rule: Sized {
    /// What the action leaves in the output.  An implementation
    /// proved against this overrides it; one written outside the
    /// verified world leaves it arbitrary.
    open spec fn spec_execute(&self, input: SpecVal, out: SpecVal) -> SpecVal {
        vstd::pervasive::arbitrary()
    }

    /// Applies the action to the output.
    fn execute(&self, input: &Value, output: &mut Value)
        ensures
            final (output)@ == self.spec_execute(input@, old(output)@),
    ;
}

/// Whether every predicate of a list passes.
pub open spec fn spec_nodes_pass<C: CalcNode>(nodes: Seq<C>, input: SpecVal) -> bool {
    forall|k: int| 0 <= k < nodes.len() ==> (#[trigger] nodes[k]).spec_when(input)
}

/// The output after every rule ran over `out` in order, each rule
/// acting only when all its predicates pass.
pub open spec fn spec_mr_out<C: CalcNode, R: Rule>(
    rules: Seq<(String, Vec<C>, R)>,
    input: SpecVal,
    out: SpecVal,
) -> SpecVal
    decreases rules.len(),
{
    if rules.len() == 0 {
        out
    } else {
        let out2 = if spec_nodes_pass(rules[0].1@, input) {
            rules[0].2.spec_execute(input, out)
        } else {
            out
        };
        spec_mr_out(rules.drop_first(), input, out2)
    }
}

/// An engine over user-supplied predicate and action types.
pub struct MultipleRush<C, R> {
    rules: Vec<(String, Vec<C>, R)>,
}

impl<C: CalcNode, R: Rule> MultipleRush<C, R> {
    /// The registered rules.
    pub closed spec fn rules(&self) -> Seq<(String, Vec<C>, R)> {
        self.rules@
    }

    /// An empty engine.
    pub fn new() -> (r: MultipleRush<C, R>)
        ensures
            r.rules() =~= Seq::<(String, Vec<C>, R)>::empty(),
    {
        MultipleRush { rules: Vec::new() }
    }

    /// The engine with one rule set under a name: a rule already
    /// under the name is replaced in place, a new one goes last.
    #[verifier::loop_isolation(false)]
    pub fn register_rule(self, name: String, nodes: Vec<C>, rule: R) -> (r: MultipleRush<C, R>)
        ensures
            r.rules() =~= spec_mr_set(self.rules(), (name, nodes, rule)),
    {
        let MultipleRush { mut rules } = self;
        let ghost before = rules@;
        let ghost item = (name, nodes, rule);
        let mut i: usize = 0;
        while i < rules.len()
            invariant
                i <= rules@.len(),
                before == rules@,
                forall|j: int| 0 <= j < i ==> (#[trigger] before[j]).0@ != name@,
            decreases rules@.len() - i,
        {
            if str_eq(rules[i].0.as_str(), name.as_str()) {
                proof {
                    lemma_mr_set_found(before, item, i as int);
                }
                rules.remove(i);
                rules.insert(i, (name, nodes, rule));
                let r = MultipleRush { rules };
                proof {
                    assert(r.rules() =~= before.update(i as int, item));
                }
                return r;
            }
            i = i + 1;
        }
        proof {
            lemma_mr_set_missing(before, item);
        }
        rules.push((name, nodes, rule));
        let r = MultipleRush { rules };
        proof {
            assert(r.rules() =~= before.push(item));
        }
        r
    }

    /// One whole flow call: every rule against the input, the passing
    /// rules' actions over an empty output, in registration order.
    #[verifier::loop_isolation(false)]
    pub fn flow_value(&self, obj: &Value) -> (out: Value)
        ensures
            out@ == spec_mr_out(self.rules(), obj@, SpecVal::Object(Seq::empty())),
    {
        let ghost rls = self.rules();
        let mut out = Value::Object(Vec::new());
        proof {
            assert(out@->Object_0 =~= Seq::<(Seq<char>, SpecVal)>::empty());
            assert(out@ == SpecVal::Object(Seq::<(Seq<char>, SpecVal)>::empty()));
            assert(rls.skip(0) =~= rls);
        }
        let n = self.rules.len();
        let mut i: usize = 0;
        while i < n
            invariant
                i <= n,
                n == rls.len(),
                spec_mr_out(rls, obj@, SpecVal::Object(Seq::empty())) == spec_mr_out(
                    rls.skip(i as int),
                    obj@,
                    out@,
                ),
            decreases n - i,
        {
            proof {
                assert(rls.skip(i as int)[0] == rls[i as int]);
                assert(rls.skip(i as int).drop_first() =~= rls.skip(i as int + 1));
            }
            let nodes = &self.rules[i].1;
            let mut pass = true;
            let mut k: usize = 0;
            while k < nodes.len()
                invariant
                    k <= nodes@.len(),
                    nodes@ == rls[i as int].1@,
                    pass ==> (forall|q: int|
                        0 <= q < k ==> (#[trigger] nodes@[q]).spec_when(obj@)),
                    !pass ==> !spec_nodes_pass(rls[i as int].1@, obj@),
                decreases nodes.len() - k,
            {
                if !nodes[k].when(obj) {
                    pass = false;
                    proof {
                        assert(!nodes@[k as int].spec_when(obj@));
                    }
                    break ;
                }
                k = k + 1;
            }
            if pass {
                proof {
                    assert(spec_nodes_pass(rls[i as int].1@, obj@));
                }
                self.rules[i].2.execute(obj, &mut out);
            } else {
                proof {
                    assert(!spec_nodes_pass(rls[i as int].1@, obj@));
                }
            }
            i = i + 1;
        }
        proof {
            assert(rls.skip(n as int) =~= Seq::<(String, Vec<C>, R)>::empty());
        }
        out
    }
}


/// The rule list with one rule set under a name, first match replaced
/// in place or the new rule at the end.
pub open spec fn spec_mr_set<C, R>(
    rules: Seq<(String, Vec<C>, R)>,
    item: (String, Vec<C>, R),
) -> Seq<(String, Vec<C>, R)>
    decreases rules.len(),
{
    if rules.len() == 0 {
        seq![item]
    } else if rules[0].0@ == item.0@ {
        seq![item] + rules.drop_first()
    } else {
        seq![rules[0]] + spec_mr_set(rules.drop_first(), item)
    }
}

proof fn lemma_mr_set_found<C, R>(
    rules: Seq<(String, Vec<C>, R)>,
    item: (String, Vec<C>, R),
    pos: int,
)
    requires
        0 <= pos < rules.len(),
        rules[pos].0@ == item.0@,
        forall|j: int| 0 <= j < pos ==> (#[trigger] rules[j]).0@ != item.0@,
    ensures
        spec_mr_set(rules, item) =~= rules.update(pos, item),
    decreases pos,
{
    if pos == 0 {
        assert(spec_mr_set(rules, item) =~= rules.update(0, item));
    } else {
        assert(rules.drop_first()[pos - 1].0@ == item.0@);
        assert(forall|j: int|
            0 <= j < pos - 1 ==> (#[trigger] rules.drop_first()[j]).0@ != item.0@);
        lemma_mr_set_found(rules.drop_first(), item, pos - 1);
        assert(seq![rules[0]] + rules.drop_first().update(pos - 1, item) =~= rules.update(
            pos,
            item,
        ));
    }
}

proof fn lemma_mr_set_missing<C, R>(rules: Seq<(String, Vec<C>, R)>, item: (String, Vec<C>, R))
    requires
        forall|j: int| 0 <= j < rules.len() ==> (#[trigger] rules[j]).0@ != item.0@,
    ensures
        spec_mr_set(rules, item) =~= rules.push(item),
    decreases rules.len(),
{
    if rules.len() > 0 {
        lemma_mr_set_missing(rules.drop_first(), item);
        assert(seq![rules[0]] + rules.drop_first().push(item) =~= rules.push(item));
    }
}

} // verus!
